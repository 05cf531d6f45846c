//! Class name resolution and block classification, both read off the line
//! above each block's opener.
use vstd::prelude::*;
use crate::text::{
    char_views, chars_of, contains, find, find_in, first_keyword, first_keyword_of, first_pos,
    first_pos_of, has, begins_with, is_match_at, remove_white, unwhite, same_chars, slice, starts_with,
    skip_chars, same_pos,
};
use crate::types::{
    AnalyzeError, Block, BlockModel, BlockType, Data, DataModel, blocks_view, prev_line,
    prev_offset, same_data, strings_view, with_type, opt_string_view,
};

verus! {

/// The line above offset `start`, white space taken out.
pub open spec fn unwhite_prev(lines: Seq<Seq<char>>, start: int) -> Seq<char> {
    unwhite(prev_line(lines, start))
}

/// The keywords that may declare a class, in the order they are tried.
pub open spec fn class_keywords() -> Seq<Seq<char>> {
    seq!["class"@, "public"@, "private"@, "protected"@]
}

/// A line without white space declares a class: it begins with `class`, or with an
/// access modifier followed at once by `class`.
pub open spec fn is_class_line(ns: Seq<char>) -> bool {
    match first_keyword(ns, class_keywords(), 0) {
        Some(k) => k == 0 || starts_with(ns.skip(class_keywords()[k].len() as int), "class"@),
        None => false,
    }
}

/// The first block, from index `i` on, whose line above declares a class.
pub open spec fn class_block_from(lines: Seq<Seq<char>>, bs: Seq<BlockModel>, i: int) -> Option<int>
    decreases bs.len() - i,
{
    if i < 0 || i >= bs.len() {
        None
    } else if is_class_line(unwhite_prev(lines, bs[i].start)) {
        Some(i)
    } else {
        class_block_from(lines, bs, i + 1)
    }
}

/// The aggregate once its class block is marked and the class name read: the
/// text between `class` and the first `:` of the declaration line without white space.
/// Without a class block the aggregate is left as it is.
pub open spec fn resolve_class(d: DataModel) -> Result<DataModel, AnalyzeError> {
    match d.blocks {
        None => Ok(d),
        Some(bs) => match class_block_from(d.lines, bs, 0) {
            None => Ok(d),
            Some(i) => {
                let ns = unwhite_prev(d.lines, bs[i].start);
                let err = Err(
                    AnalyzeError::PatternNotFound { line: prev_offset(bs[i].start) as usize },
                );
                match find(ns, "class"@) {
                    None => err,
                    Some(p) => match first_pos(ns, ':') {
                        None => err,
                        Some(c) => if c < p + "class"@.len() {
                            err
                        } else {
                            Ok(
                                DataModel {
                                    lines: d.lines,
                                    class_name: Some(ns.subrange(p + "class"@.len(), c)),
                                    blocks: Some(bs.update(i, with_type(bs[i], BlockType::Class))),
                                },
                            )
                        },
                    },
                }
            },
        },
    }
}

/// The keywords that decide a block's role, in the order they are tried.
pub open spec fn kind_keywords() -> Seq<Seq<char>> {
    seq![
        "namespace"@,
        "class"@,
        "public"@,
        "private"@,
        "protected"@,
        "using"@,
        "var"@,
        "select"@,
        "if"@,
        "else"@,
    ]
}

/// The role a role name stands for.
pub open spec fn blocktype_of_word(w: Seq<char>) -> BlockType {
    if w == "namespace"@ {
        BlockType::Namespace
    } else if w == "class"@ {
        BlockType::Class
    } else if w == "method"@ {
        BlockType::Method
    } else if w == "constructor"@ {
        BlockType::Constructor
    } else if w == "context"@ {
        BlockType::Context
    } else if w == "variable"@ {
        BlockType::Variable
    } else if w == "if"@ {
        BlockType::If
    } else if w == "select"@ {
        BlockType::Select
    } else {
        BlockType::Unknown
    }
}

/// The role of the block opened at `start`, from the first keyword that
/// begins its line above, white space taken out: an access modifier makes a class when
/// `class` follows, a constructor when the line holds the class name and `(`,
/// else a method; `using` makes a data-context scope when the line creates a
/// context; `var` a variable; `else` a conditional; the other keywords their
/// own role; no keyword, an unknown block.
pub open spec fn block_kind(lines: Seq<Seq<char>>, start: int, cname: Option<Seq<char>>) -> BlockType {
    let ns = unwhite_prev(lines, start);
    let kws = kind_keywords();
    match first_keyword(ns, kws, 0) {
        Some(k) => if 2 <= k <= 4 {
            if starts_with(ns.skip(kws[k].len() as int), "class"@) {
                BlockType::Class
            } else if cname is Some && contains(ns, cname->0.push('(')) {
                BlockType::Constructor
            } else {
                BlockType::Method
            }
        } else if k == 5 && contains(ns, "CreateContext"@) {
            BlockType::Context
        } else if k == 6 {
            BlockType::Variable
        } else if k == 9 {
            BlockType::If
        } else {
            blocktype_of_word(kws[k])
        },
        None => BlockType::Unknown,
    }
}

/// A block already marked as the class block keeps its role; any other gets
/// the role its line above gives it.
pub open spec fn classified_block(lines: Seq<Seq<char>>, b: BlockModel, cname: Option<Seq<char>>) -> BlockModel {
    if b.block_type == BlockType::Class {
        b
    } else {
        with_type(b, block_kind(lines, b.start, cname))
    }
}

/// Every block classified.
pub open spec fn classified(lines: Seq<Seq<char>>, bs: Seq<BlockModel>, cname: Option<Seq<char>>) -> Seq<BlockModel> {
    Seq::new(bs.len(), |i: int| classified_block(lines, bs[i], cname))
}

/// The aggregate with every block classified.
pub open spec fn classify(d: DataModel) -> DataModel {
    DataModel {
        lines: d.lines,
        class_name: d.class_name,
        blocks: match d.blocks {
            Some(bs) => Some(classified(d.lines, bs, d.class_name)),
            None => None,
        },
    }
}

/// The line above offset `start`.
pub fn previous_line(lines: &Vec<String>, start: u32) -> (r: Vec<char>)
    ensures
        r@ == prev_line(strings_view(lines@), start as int),
{
    if 1 <= start && (start as usize) <= lines.len() {
        let r = chars_of(lines[start as usize - 1].as_str());
        r
    } else {
        Vec::new()
    }
}

/// The line above offset `start`, white space taken out.
fn unwhite_previous(lines: &Vec<String>, start: u32) -> (r: Vec<char>)
    ensures
        r@ == unwhite_prev(strings_view(lines@), start as int),
{
    let line = previous_line(lines, start);
    remove_white(&line)
}

/// Whether a line without white space declares a class.
fn is_class_declaration(ns: &Vec<char>) -> (r: bool)
    ensures
        r == is_class_line(ns@),
{
    let kws = vec![chars_of("class"), chars_of("public"), chars_of("private"), chars_of("protected")];
    assert(char_views(kws@) =~= class_keywords());
    match first_keyword_of(ns, &kws) {
        Some(k) => {
            if k == 0 {
                true
            } else {
                let kl = kws[k].len();
                let rest = skip_chars(ns, kl);
                begins_with(&rest, &kws[0])
            }
        },
        None => false,
    }
}

/// The index of the class block.
fn find_class_block_index(lines: &Vec<String>, blocks: &Vec<Block>) -> (r: Option<usize>)
    ensures
        same_pos(r, class_block_from(strings_view(lines@), blocks_view(blocks@), 0)),
        r matches Some(i) ==> i < blocks@.len(),
{
    let ghost lv = strings_view(lines@);
    let ghost bv = blocks_view(blocks@);
    let mut i: usize = 0;
    while i < blocks.len()
        invariant
            i <= blocks.len(),
            lv == strings_view(lines@),
            bv == blocks_view(blocks@),
            class_block_from(lv, bv, 0) == class_block_from(lv, bv, i as int),
        decreases blocks.len() - i,
    {
        let ns = unwhite_previous(lines, blocks[i].start);
        if is_class_declaration(&ns) {
            return Some(i);
        }
        i = i + 1;
    }
    None
}

/// Marks the class block and records the class name.
pub fn get_class_name(data: Data) -> (r: Result<Data, AnalyzeError>)
    ensures
        same_data(r, resolve_class(data@)),
{
    let ghost d = data@;
    let Data { lines, class_name, blocks } = data;
    let mut blocks = match blocks {
        None => {
            return Ok(Data { lines, class_name, blocks: None });
        },
        Some(bs) => bs,
    };
    let i = match find_class_block_index(&lines, &blocks) {
        None => {
            return Ok(Data { lines, class_name, blocks: Some(blocks) });
        },
        Some(i) => i,
    };
    let start = blocks[i].start;
    let err = AnalyzeError::PatternNotFound { line: if start > 0 { start as usize - 1 } else { 0 } };
    let ns = unwhite_previous(&lines, start);
    let kw = chars_of("class");
    let p = match find_in(&ns, &kw) {
        None => {
            return Err(err);
        },
        Some(p) => p,
    };
    let c = match first_pos_of(&ns, ':') {
        None => {
            return Err(err);
        },
        Some(c) => c,
    };
    assert(is_match_at(ns@, kw@, p as int));
    assert(p + kw@.len() <= ns@.len());
    if c < p + kw.len() {
        return Err(err);
    }
    let name = slice(&ns, p + kw.len(), c);
    let ghost before = blocks_view(blocks@);
    blocks[i].block_type = BlockType::Class;
    assert(blocks_view(blocks@) =~= before.update(i as int, with_type(before[i as int], BlockType::Class)));
    Ok(Data { lines, class_name: Some(crate::text::string_of(&name)), blocks: Some(blocks) })
}

/// The role a role name stands for.
fn get_blocktype_from_string(word: &Vec<char>) -> (r: BlockType)
    ensures
        r == blocktype_of_word(word@),
{
    if same_chars(word, &chars_of("namespace")) {
        BlockType::Namespace
    } else if same_chars(word, &chars_of("class")) {
        BlockType::Class
    } else if same_chars(word, &chars_of("method")) {
        BlockType::Method
    } else if same_chars(word, &chars_of("constructor")) {
        BlockType::Constructor
    } else if same_chars(word, &chars_of("context")) {
        BlockType::Context
    } else if same_chars(word, &chars_of("variable")) {
        BlockType::Variable
    } else if same_chars(word, &chars_of("if")) {
        BlockType::If
    } else if same_chars(word, &chars_of("select")) {
        BlockType::Select
    } else {
        BlockType::Unknown
    }
}

/// The role of `block`, from the line above it.
fn determine_block_type(block: &Block, lines: &Vec<String>, class_name: &Option<String>) -> (r: BlockType)
    ensures
        r == block_kind(strings_view(lines@), block.start as int, opt_string_view(*class_name)),
{
    let ns = unwhite_previous(lines, block.start);
    let kws = vec![
        chars_of("namespace"),
        chars_of("class"),
        chars_of("public"),
        chars_of("private"),
        chars_of("protected"),
        chars_of("using"),
        chars_of("var"),
        chars_of("select"),
        chars_of("if"),
        chars_of("else"),
    ];
    assert(char_views(kws@) =~= kind_keywords());
    match first_keyword_of(&ns, &kws) {
        Some(k) => {
            if 2 <= k && k <= 4 {
                let rest = skip_chars(&ns, kws[k].len());
                if begins_with(&rest, &kws[1]) {
                    return BlockType::Class;
                }
                match class_name {
                    Some(c) => {
                        let mut pat = chars_of(c.as_str());
                        pat.push('(');
                        if has(&ns, &pat) {
                            return BlockType::Constructor;
                        }
                    },
                    None => {},
                }
                BlockType::Method
            } else if k == 5 && has(&ns, &chars_of("CreateContext")) {
                BlockType::Context
            } else if k == 6 {
                BlockType::Variable
            } else if k == 9 {
                BlockType::If
            } else {
                get_blocktype_from_string(&kws[k])
            }
        },
        None => BlockType::Unknown,
    }
}

/// Classifies every block but the one already marked as the class block.
pub fn set_block_types(data: Data) -> (r: Data)
    ensures
        r@ == classify(data@),
{
    let ghost d = data@;
    let Data { lines, class_name, blocks } = data;
    let mut blocks = match blocks {
        None => {
            return Data { lines, class_name, blocks: None };
        },
        Some(bs) => bs,
    };
    let ghost lv = strings_view(lines@);
    let ghost cv = opt_string_view(class_name);
    let ghost b0 = blocks_view(blocks@);
    let mut i: usize = 0;
    while i < blocks.len()
        invariant
            i <= blocks.len() == b0.len(),
            lv == strings_view(lines@),
            cv == opt_string_view(class_name),
            forall|j: int| 0 <= j < i ==> #[trigger] blocks_view(blocks@)[j] == classified_block(lv, b0[j], cv),
            forall|j: int| i <= j < b0.len() ==> #[trigger] blocks_view(blocks@)[j] == b0[j],
        decreases blocks.len() - i,
    {
        if blocks[i].block_type != BlockType::Class {
            let t = determine_block_type(&blocks[i], &lines, &class_name);
            let ghost before = blocks_view(blocks@);
            blocks[i].block_type = t;
            assert(blocks_view(blocks@) =~= before.update(i as int, with_type(before[i as int], t)));
        }
        i = i + 1;
    }
    assert(blocks_view(blocks@) =~= classified(lv, b0, cv));
    Data { lines, class_name, blocks: Some(blocks) }
}

} // verus!
