//! Secondary query discovery: statements inside a data-context scope that
//! read through the context and end with `;`, without braces of their own.
use vstd::prelude::*;
use crate::text::{chars_of, contains, has, has_char};
use crate::types::{
    Block, BlockDetails, BlockModel, BlockType, Data, DataModel, DetailsModel, blocks_view,
    strings_view,
};

verus! {

/// The text by which a line reads through context variable `var`: ` <var>.`.
pub open spec fn context_ref(var: Seq<char>) -> Seq<char> {
    seq![' '] + var + seq!['.']
}

/// The line adds, saves or removes through the context.
pub open spec fn mutation_call(line: Seq<char>) -> bool {
    contains(line, ".Add"@) || contains(line, ".SaveChanges"@) || contains(line, ".Remove"@)
}

/// A query block found without braces of its own.
pub open spec fn query_block(start: int, end: int) -> BlockModel {
    BlockModel { start, end: Some(end), block_type: BlockType::Select, details: None }
}

/// One line of the walk through a scope: a line that reads through the
/// context opens a candidate at `i`; a brace or a mutation call drops the open
/// candidate; a `;` closes it into a query block spanning to `i`.
pub open spec fn discover_step(line: Seq<char>, i: int, var: Seq<char>, cur: Option<int>) -> (Option<BlockModel>, Option<int>) {
    let c1 = if contains(line, context_ref(var)) {
        Some(i)
    } else {
        cur
    };
    let c2 = if c1 is Some && contains(line, seq!['{']) {
        None
    } else {
        c1
    };
    let c3 = if c2 is Some && mutation_call(line) {
        None
    } else {
        c2
    };
    if c3 is Some && contains(line, seq![';']) {
        (Some(query_block(c3->0, i)), None)
    } else {
        (None, c3)
    }
}

/// The query blocks found in lines `from` to `n - 1`, and the candidate left open.
pub open spec fn discover_upto(lines: Seq<Seq<char>>, var: Seq<char>, from: int, n: int) -> (Seq<BlockModel>, Option<int>)
    decreases n - from,
{
    if n <= from {
        (Seq::empty(), None)
    } else {
        let (found, cur) = discover_upto(lines, var, from, n - 1);
        let (emitted, next) = discover_step(lines[n - 1], n - 1, var, cur);
        (
            match emitted {
                Some(q) => found.push(q),
                None => found,
            },
            next,
        )
    }
}

/// The last line a scope's walk reads, bounded by the lines there are.
pub open spec fn walk_end(lines: Seq<Seq<char>>, b: BlockModel) -> int {
    if b.end->0 <= lines.len() {
        b.end->0
    } else {
        lines.len() as int
    }
}

/// The query blocks found in the lines of a data-context scope from its
/// opener up to, not including, its closer.
pub open spec fn queries_in(lines: Seq<Seq<char>>, b: BlockModel) -> Seq<BlockModel> {
    match b.details {
        Some(DetailsModel::ContextBlock { variable }) => if b.block_type == BlockType::Context
            && b.end is Some {
            discover_upto(lines, variable, b.start, walk_end(lines, b)).0
        } else {
            Seq::empty()
        },
        _ => Seq::empty(),
    }
}

/// The query blocks found in the first `n` blocks, in block order.
pub open spec fn discovered(lines: Seq<Seq<char>>, bs: Seq<BlockModel>, n: int) -> Seq<BlockModel>
    decreases n,
{
    if n <= 0 {
        Seq::empty()
    } else {
        discovered(lines, bs, n - 1) + queries_in(lines, bs[n - 1])
    }
}

/// The aggregate with the query blocks found in every data-context scope
/// appended after all the other blocks.
pub open spec fn discover_queries(d: DataModel) -> DataModel {
    DataModel {
        lines: d.lines,
        class_name: d.class_name,
        blocks: match d.blocks {
            Some(bs) => Some(bs + discovered(d.lines, bs, bs.len() as int)),
            None => None,
        },
    }
}

/// The query blocks found in one data-context scope.
fn scope_queries(lines: &Vec<String>, b: &Block, var: &Vec<char>) -> (r: Vec<Block>)
    requires
        lines.len() <= u32::MAX,
        b.end is Some,
    ensures
        blocks_view(r@) == discover_upto(strings_view(lines@), var@, b.start as int, walk_end(strings_view(lines@), b@)).0,
{
    let ghost lv = strings_view(lines@);
    let mut pat: Vec<char> = vec![' '];
    let mut name = crate::text::copy_chars(var);
    pat.append(&mut name);
    pat.push('.');
    assert(pat@ =~= context_ref(var@));
    let end = match b.end {
        Some(e) => e,
        None => 0,
    };
    let hi: usize = if (end as usize) <= lines.len() {
        end as usize
    } else {
        lines.len()
    };
    assert(hi as int == walk_end(lv, b@));
    let mut found: Vec<Block> = Vec::new();
    let mut cur: Option<u32> = None;
    let mut i: usize = b.start as usize;
    if i >= hi {
        assert(blocks_view(found@) =~= Seq::empty());
        return found;
    }
    assert(blocks_view(found@) =~= discover_upto(lv, var@, b.start as int, i as int).0);
    while i < hi
        invariant
            b.start <= i <= hi <= lines.len() <= u32::MAX,
            lv == strings_view(lines@),
            pat@ == context_ref(var@),
            blocks_view(found@) == discover_upto(lv, var@, b.start as int, i as int).0,
            discover_upto(lv, var@, b.start as int, i as int).1 == match cur {
                Some(c) => Some(c as int),
                None => None::<int>,
            },
        decreases hi - i,
    {
        let line = chars_of(lines[i].as_str());
        assert(line@ == lv[i as int]);
        if has(&line, &pat) {
            cur = Some(i as u32);
        }
        if cur.is_some() && has_char(&line, '{') {
            cur = None;
        }
        if cur.is_some() && (has(&line, &chars_of(".Add")) || has(&line, &chars_of(".SaveChanges"))
            || has(&line, &chars_of(".Remove"))) {
            cur = None;
        }
        if cur.is_some() && has_char(&line, ';') {
            let s = match cur {
                Some(s) => s,
                None => 0,
            };
            let ghost before = blocks_view(found@);
            found.push(Block { start: s, end: Some(i as u32), block_type: BlockType::Select, details: None });
            assert(blocks_view(found@) =~= before.push(query_block(s as int, i as int)));
            cur = None;
        }
        i = i + 1;
    }
    found
}

/// Appends the query blocks found inside every data-context scope.
pub fn get_additional_select_blocks(data: Data) -> (r: Data)
    requires
        data.lines.len() <= u32::MAX,
    ensures
        r@ == discover_queries(data@),
{
    let Data { lines, class_name, blocks } = data;
    let mut blocks = match blocks {
        None => {
            return Data { lines, class_name, blocks: None };
        },
        Some(bs) => bs,
    };
    let ghost lv = strings_view(lines@);
    let ghost b0 = blocks_view(blocks@);
    let mut result: Vec<Block> = Vec::new();
    let mut k: usize = 0;
    assert(blocks_view(result@) =~= discovered(lv, b0, 0));
    while k < blocks.len()
        invariant
            k <= blocks.len(),
            lines.len() <= u32::MAX,
            lv == strings_view(lines@),
            b0 == blocks_view(blocks@),
            blocks_view(result@) == discovered(lv, b0, k as int),
        decreases blocks.len() - k,
    {
        let b = &blocks[k];
        let ghost before = blocks_view(result@);
        if b.block_type == BlockType::Context && b.end.is_some() {
            match &b.details {
                Some(BlockDetails::ContextBlock { variable }) => {
                    let var = chars_of(variable.as_str());
                    let mut found = scope_queries(&lines, b, &var);
                    result.append(&mut found);
                    assert(blocks_view(result@) =~= before + queries_in(lv, b0[k as int]));
                },
                _ => {
                    assert(queries_in(lv, b0[k as int]) =~= Seq::empty());
                },
            }
        } else {
            assert(queries_in(lv, b0[k as int]) =~= Seq::empty());
        }
        assert(blocks_view(result@) =~= discovered(lv, b0, k + 1));
        k = k + 1;
    }
    let ghost rv = blocks_view(result@);
    blocks.append(&mut result);
    assert(blocks_view(blocks@) =~= b0 + rv);
    Data { lines, class_name, blocks: Some(blocks) }
}

} // verus!
