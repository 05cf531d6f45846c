//! Role-specific details of data-context scopes, methods, variables and
//! conditionals, read off the lines around each block.
use vstd::prelude::*;
use crate::classify::previous_line;
use crate::text::{
    after_char, after_char_of, begins_with, char_views, chars_of, contains, copy_chars, cut,
    cut_out, first_keyword, first_keyword_of, first_pos, first_pos_of, has, has_char, last_pos,
    last_pos_of, remove_char, remove_white, removed, unwhite, same_chars, same_pos, skip_chars, slice, split_at_char,
    split_char, starts_with, string_of, trim, trim_of, trim_start, trim_start_of, upto_char,
    upto_char_of,
};
use crate::types::{
    AnalyzeError, Block, BlockDetails, BlockModel, BlockType, Data, DataModel, DetailsModel,
    HttpType, Variable, VariableModel, blocks_view, opt_string_view, prev_line, prev_offset, same_data,
    strings_view, with_details,
};

verus! {

/// The opening of a line that creates a data context.
pub open spec fn context_prefix() -> Seq<char> {
    "using (var "@
}

/// The details of a data-context scope: the name bound by
/// `using (var <name> = ...`, trimmed.
pub open spec fn context_details(lines: Seq<Seq<char>>, b: BlockModel) -> Result<DetailsModel, AnalyzeError> {
    let t = trim_start(prev_line(lines, b.start));
    if starts_with(t, context_prefix()) {
        Ok(
            DetailsModel::ContextBlock {
                variable: trim(upto_char(t.skip(context_prefix().len() as int), '=')),
            },
        )
    } else {
        Err(AnalyzeError::PatternNotFound { line: prev_offset(b.start) as usize })
    }
}

/// The index of the first token, from `k` on, that holds `c`.
pub open spec fn first_with_char(toks: Seq<Seq<char>>, c: char, k: int) -> Option<int>
    decreases toks.len() - k,
{
    if k < 0 || k >= toks.len() {
        None
    } else if contains(toks[k], seq![c]) {
        Some(k)
    } else {
        first_with_char(toks, c, k + 1)
    }
}

/// The parameters declared by the tokens from `k` on, `ty` being the type
/// last seen: a token without `,` or `)` is a type; one with either names a
/// parameter of the type last seen, and one with `)` ends the list.
pub open spec fn params_from(toks: Seq<Seq<char>>, k: int, ty: Seq<char>) -> Seq<VariableModel>
    decreases toks.len() - k,
{
    if k < 0 || k >= toks.len() {
        Seq::empty()
    } else {
        let t = toks[k];
        let ends = contains(t, seq![')']);
        if !contains(t, seq![',']) && !ends {
            params_from(toks, k + 1, t)
        } else {
            seq![VariableModel { name: removed(removed(t, ','), ')'), variable_type: ty }] + if ends {
                Seq::empty()
            } else {
                params_from(toks, k + 1, ty)
            }
        }
    }
}

/// The attribute names of the four HTTP verbs.
pub open spec fn http_verbs() -> Seq<Seq<char>> {
    seq!["HttpGet"@, "HttpPost"@, "HttpPut"@, "HttpDelete"@]
}

/// The verb one of the four attribute names stands for.
pub open spec fn httptype_of_word(w: Seq<char>) -> HttpType
    recommends
        http_verbs().contains(w),
{
    if w == "HttpGet"@ {
        HttpType::HttpGet
    } else if w == "HttpPost"@ {
        HttpType::HttpPost
    } else if w == "HttpPut"@ {
        HttpType::HttpPut
    } else {
        HttpType::HttpDelete
    }
}

/// The HTTP verb of the attribute lines from line `k` upward: the walk stops
/// with no verb at a line that does not open with `[` (white space aside) and
/// above the first line; it passes over attributes that name no verb.
pub open spec fn verb_above(lines: Seq<Seq<char>>, k: int) -> Option<HttpType>
    decreases k + 1,
{
    if k < 0 || k >= lines.len() {
        None
    } else {
        let ns = unwhite(lines[k]);
        if ns.len() == 0 || ns[0] != '[' {
            None
        } else {
            match first_keyword(ns.drop_first(), http_verbs(), 0) {
                Some(v) => Some(httptype_of_word(http_verbs()[v])),
                None => verb_above(lines, k - 1),
            }
        }
    }
}

/// Another block, nested strictly inside `b`, is a data-context scope.
pub open spec fn uses_context(bs: Seq<BlockModel>, b: BlockModel) -> bool {
    exists|j: int|
        0 <= j < bs.len() && bs[j].start > b.start && bs[j].end is Some && b.end is Some
            && bs[j].end->0 < b.end->0 && bs[j].block_type == BlockType::Context
}

/// The details of a method: the name before `(` in the first token that
/// holds one, the parameters after it, the HTTP verb of the attribute lines
/// above the signature, and whether a data context is opened inside.
pub open spec fn method_details(lines: Seq<Seq<char>>, bs: Seq<BlockModel>, b: BlockModel) -> Result<DetailsModel, AnalyzeError> {
    let toks = split_char(prev_line(lines, b.start), ' ');
    match first_with_char(toks, '(', 0) {
        None => Err(AnalyzeError::PatternNotFound { line: prev_offset(b.start) as usize }),
        Some(ni) => {
            let tok = toks[ni];
            Ok(
                DetailsModel::MethodBlock {
                    name: upto_char(tok, '('),
                    http_method: verb_above(lines, b.start - 2),
                    variables: if contains(tok, seq![')']) {
                        Seq::empty()
                    } else {
                        params_from(toks, ni + 1, after_char(tok, '('))
                    },
                    uses_context: uses_context(bs, b),
                },
            )
        },
    }
}

/// The index of the first token, from `k` on, equal to `w`.
pub open spec fn index_of_word(toks: Seq<Seq<char>>, w: Seq<char>, k: int) -> Option<int>
    decreases toks.len() - k,
{
    if k < 0 || k >= toks.len() {
        None
    } else if toks[k] == w {
        Some(k)
    } else {
        index_of_word(toks, w, k + 1)
    }
}

/// The details of a variable declaration: its second token is the name; the
/// type is the token after a `new` past the second token, with `()` cut out,
/// and the first token where there is no such `new`.
pub open spec fn variable_details(lines: Seq<Seq<char>>, b: BlockModel) -> Result<DetailsModel, AnalyzeError> {
    let parts = split_char(trim_start(prev_line(lines, b.start)), ' ');
    let err = Err(AnalyzeError::PatternNotFound { line: prev_offset(b.start) as usize });
    if parts.len() < 2 {
        err
    } else {
        match index_of_word(parts, "new"@, 2) {
            Some(q) => if q + 1 < parts.len() {
                Ok(DetailsModel::VariableBlock { name: parts[1], data_type: cut(parts[q + 1], seq!['(', ')']) })
            } else {
                err
            },
            None => Ok(DetailsModel::VariableBlock { name: parts[1], data_type: parts[0] }),
        }
    }
}

/// The details of a conditional: whether its line opens with `else`, and the
/// condition between the first `(` and the last `)`; a bare `else` has an
/// empty condition.
pub open spec fn if_details(lines: Seq<Seq<char>>, b: BlockModel) -> Result<DetailsModel, AnalyzeError> {
    let t = trim_start(prev_line(lines, b.start));
    let is_else = t.len() >= 4 && t.take(4) == "else"@;
    if is_else && !contains(t, "if"@) {
        Ok(DetailsModel::IfBlock { clause: Seq::empty(), is_else })
    } else {
        match (first_pos(t, '('), last_pos(t, ')')) {
            (Some(o), Some(c)) => if o < c {
                Ok(DetailsModel::IfBlock { clause: t.subrange(o + 1, c), is_else })
            } else {
                Err(AnalyzeError::PatternNotFound { line: prev_offset(b.start) as usize })
            },
            _ => Err(AnalyzeError::PatternNotFound { line: prev_offset(b.start) as usize }),
        }
    }
}

/// The details block `i` gets from its role; `None` for roles without any.
pub open spec fn detail_of(lines: Seq<Seq<char>>, bs: Seq<BlockModel>, i: int) -> Result<Option<DetailsModel>, AnalyzeError> {
    let b = bs[i];
    let r = if b.block_type == BlockType::Context {
        context_details(lines, b)
    } else if b.block_type == BlockType::Method {
        method_details(lines, bs, b)
    } else if b.block_type == BlockType::Variable {
        variable_details(lines, b)
    } else {
        if_details(lines, b)
    };
    if b.block_type == BlockType::Context || b.block_type == BlockType::Method || b.block_type
        == BlockType::Variable || b.block_type == BlockType::If {
        match r {
            Ok(d) => Ok(Some(d)),
            Err(e) => Err(e),
        }
    } else {
        Ok(None)
    }
}

/// The blocks with the details of the first `n` attached, or the first error.
pub open spec fn attach_upto(lines: Seq<Seq<char>>, bs: Seq<BlockModel>, n: int) -> Result<Seq<BlockModel>, AnalyzeError>
    decreases n,
{
    if n <= 0 {
        Ok(bs)
    } else {
        match attach_upto(lines, bs, n - 1) {
            Err(e) => Err(e),
            Ok(cur) => match detail_of(lines, bs, n - 1) {
                Err(e) => Err(e),
                Ok(None) => Ok(cur),
                Ok(Some(d)) => Ok(cur.update(n - 1, with_details(cur[n - 1], d))),
            },
        }
    }
}

/// The aggregate with the details of every scope, method, variable and
/// conditional block attached.
pub open spec fn attach_details(d: DataModel) -> Result<DataModel, AnalyzeError> {
    match d.blocks {
        None => Ok(d),
        Some(bs) => match attach_upto(d.lines, bs, bs.len() as int) {
            Err(e) => Err(e),
            Ok(nbs) => Ok(DataModel { lines: d.lines, class_name: d.class_name, blocks: Some(nbs) }),
        },
    }
}

/// The offset of the line above `start`.
fn previous_offset(start: u32) -> (r: usize)
    ensures
        r as int == prev_offset(start as int),
{
    if start > 0 {
        start as usize - 1
    } else {
        0
    }
}

fn context_block_details(lines: &Vec<String>, b: &Block) -> (r: Result<BlockDetails, AnalyzeError>)
    ensures
        match r {
            Ok(d) => context_details(strings_view(lines@), b@) == Ok::<DetailsModel, AnalyzeError>(d@),
            Err(e) => context_details(strings_view(lines@), b@) == Err::<DetailsModel, AnalyzeError>(e),
        },
{
    let line = previous_line(lines, b.start);
    let t = trim_start_of(&line);
    let pre = chars_of("using (var ");
    if !begins_with(&t, &pre) {
        return Err(AnalyzeError::PatternNotFound { line: previous_offset(b.start) });
    }
    let rest = skip_chars(&t, pre.len());
    let name = upto_char_of(&rest, '=');
    let name = trim_of(&name);
    Ok(BlockDetails::ContextBlock { variable: string_of(&name) })
}

/// The verb one of the four attribute names stands for.
fn get_httptype_from_string(word: &Vec<char>) -> (r: HttpType)
    requires
        http_verbs().contains(word@),
    ensures
        r == httptype_of_word(word@),
{
    if same_chars(word, &chars_of("HttpGet")) {
        HttpType::HttpGet
    } else if same_chars(word, &chars_of("HttpPost")) {
        HttpType::HttpPost
    } else if same_chars(word, &chars_of("HttpPut")) {
        HttpType::HttpPut
    } else {
        HttpType::HttpDelete
    }
}

/// The HTTP verb of the method whose block opens at `start`.
fn determine_http_method(lines: &Vec<String>, start: u32) -> (r: Option<HttpType>)
    ensures
        r == verb_above(strings_view(lines@), start - 2),
{
    if start < 2 {
        return None;
    }
    let ghost lv = strings_view(lines@);
    let verbs = vec![
        chars_of("HttpGet"),
        chars_of("HttpPost"),
        chars_of("HttpPut"),
        chars_of("HttpDelete"),
    ];
    assert(char_views(verbs@) =~= http_verbs());
    let mut k: usize = start as usize - 2;
    loop
        invariant
            lv == strings_view(lines@),
            char_views(verbs@) == http_verbs(),
            verb_above(lv, start - 2) == verb_above(lv, k as int),
        decreases k,
    {
        if k >= lines.len() {
            return None;
        }
        let line = chars_of(lines[k].as_str());
        let ns = remove_white(&line);
        if ns.len() == 0 || ns[0] != '[' {
            return None;
        }
        let rest = skip_chars(&ns, 1);
        assert(rest@ =~= ns@.drop_first());
        match first_keyword_of(&rest, &verbs) {
            Some(v) => {
                assert(http_verbs()[v as int] == verbs@[v as int]@);
                assert(http_verbs().contains(verbs@[v as int]@));
                return Some(get_httptype_from_string(&verbs[v]));
            },
            None => {
                if k == 0 {
                    assert(verb_above(lv, -1) is None);
                    return None;
                }
                k = k - 1;
            },
        }
    }
}

/// Whether a data-context scope is nested strictly inside `b`.
fn contains_context(blocks: &Vec<Block>, b: &Block) -> (r: bool)
    ensures
        r == uses_context(blocks_view(blocks@), b@),
{
    let ghost bv = blocks_view(blocks@);
    let mut j: usize = 0;
    while j < blocks.len()
        invariant
            j <= blocks.len(),
            bv == blocks_view(blocks@),
            forall|m: int|
                0 <= m < j ==> !(bv[m].start > b@.start && bv[m].end is Some && b@.end is Some
                    && bv[m].end->0 < b@.end->0 && bv[m].block_type == BlockType::Context),
        decreases blocks.len() - j,
    {
        let c = &blocks[j];
        match (c.end, b.end) {
            (Some(ce), Some(be)) => {
                if c.start > b.start && ce < be && c.block_type == BlockType::Context {
                    assert(bv[j as int].start > b@.start);
                    return true;
                }
            },
            _ => {},
        }
        j = j + 1;
    }
    false
}

/// The index of the first token that holds `c`.
fn first_token_with(toks: &Vec<Vec<char>>, c: char) -> (r: Option<usize>)
    ensures
        same_pos(r, first_with_char(char_views(toks@), c, 0)),
        r matches Some(k) ==> k < toks@.len(),
{
    let ghost tv = char_views(toks@);
    let mut k: usize = 0;
    while k < toks.len()
        invariant
            k <= toks.len(),
            tv == char_views(toks@),
            first_with_char(tv, c, 0) == first_with_char(tv, c, k as int),
        decreases toks.len() - k,
    {
        if has_char(&toks[k], c) {
            return Some(k);
        }
        k = k + 1;
    }
    None
}

/// The views of a sequence of parameters.
pub open spec fn variables_view(v: Seq<Variable>) -> Seq<VariableModel> {
    v.map_values(|x: Variable| x@)
}

/// The parameters declared by the tokens after the method name.
fn method_parameters(toks: &Vec<Vec<char>>, from: usize, first_type: Vec<char>) -> (r: Vec<Variable>)
    ensures
        variables_view(r@) == params_from(char_views(toks@), from as int, first_type@),
{
    let ghost tv = char_views(toks@);
    let ghost target = params_from(tv, from as int, first_type@);
    let mut vars: Vec<Variable> = Vec::new();
    let mut ty = first_type;
    let mut k: usize = from;
    let mut done = false;
    assert(variables_view(vars@) + target =~= target);
    while k < toks.len() && !done
        invariant
            tv == char_views(toks@),
            target == params_from(tv, from as int, first_type@),
            done ==> variables_view(vars@) == target,
            !done ==> variables_view(vars@) + params_from(tv, k as int, ty@) == target,
        decreases toks.len() - k,
    {
        let t = &toks[k];
        let has_comma = has_char(t, ',');
        let has_end = has_char(t, ')');
        assert(t@ == tv[k as int]);
        if !has_comma && !has_end {
            ty = copy_chars(t);
        } else {
            let n1 = remove_char(t, ',');
            let n2 = remove_char(&n1, ')');
            let ghost before = variables_view(vars@);
            vars.push(Variable { name: string_of(&n2), variable_type: string_of(&ty) });
            assert(variables_view(vars@) =~= before.push(
                VariableModel { name: removed(removed(t@, ','), ')'), variable_type: ty@ },
            ));
            if has_end {
                assert(variables_view(vars@) =~= before + params_from(tv, k as int, ty@));
                done = true;
            } else {
                assert(variables_view(vars@) + params_from(tv, k + 1, ty@) =~= before
                    + params_from(tv, k as int, ty@));
            }
        }
        k = k + 1;
    }
    if !done {
        assert(variables_view(vars@) + params_from(tv, k as int, ty@) =~= variables_view(vars@));
    }
    vars
}

fn method_block_details(lines: &Vec<String>, blocks: &Vec<Block>, b: &Block) -> (r: Result<BlockDetails, AnalyzeError>)
    ensures
        match r {
            Ok(d) => method_details(strings_view(lines@), blocks_view(blocks@), b@) == Ok::<DetailsModel, AnalyzeError>(d@),
            Err(e) => method_details(strings_view(lines@), blocks_view(blocks@), b@) == Err::<DetailsModel, AnalyzeError>(e),
        },
{
    let line = previous_line(lines, b.start);
    let toks = split_at_char(&line, ' ');
    assert(char_views(toks@) =~= split_char(line@, ' '));
    let ni = match first_token_with(&toks, '(') {
        None => {
            return Err(AnalyzeError::PatternNotFound { line: previous_offset(b.start) });
        },
        Some(ni) => ni,
    };
    assert(ni < toks.len());
    let tok = &toks[ni];
    let name = upto_char_of(tok, '(');
    let variables = if has_char(tok, ')') {
        let v: Vec<Variable> = Vec::new();
        assert(variables_view(v@) =~= Seq::empty());
        v
    } else {
        method_parameters(&toks, ni + 1, after_char_of(tok, '('))
    };
    let http_method = determine_http_method(lines, b.start);
    let uses = contains_context(blocks, b);
    let r = BlockDetails::MethodBlock {
        name: string_of(&name),
        http_method,
        variables,
        uses_context: uses,
    };
    Ok(r)
}

/// The index of the first token, from `k` on, that equals `w`.
fn index_of_token(toks: &Vec<Vec<char>>, w: &Vec<char>, from: usize) -> (r: Option<usize>)
    ensures
        same_pos(r, index_of_word(char_views(toks@), w@, from as int)),
        r matches Some(k) ==> k < toks@.len(),
{
    let ghost tv = char_views(toks@);
    let mut k: usize = from;
    while k < toks.len()
        invariant
            tv == char_views(toks@),
            from <= k,
            index_of_word(tv, w@, from as int) == index_of_word(tv, w@, k as int),
        decreases toks.len() - k,
    {
        if same_chars(&toks[k], w) {
            return Some(k);
        }
        k = k + 1;
    }
    None
}

fn variable_block_details(lines: &Vec<String>, b: &Block) -> (r: Result<BlockDetails, AnalyzeError>)
    ensures
        match r {
            Ok(d) => variable_details(strings_view(lines@), b@) == Ok::<DetailsModel, AnalyzeError>(d@),
            Err(e) => variable_details(strings_view(lines@), b@) == Err::<DetailsModel, AnalyzeError>(e),
        },
{
    let line = previous_line(lines, b.start);
    let t = trim_start_of(&line);
    let parts = split_at_char(&t, ' ');
    assert(char_views(parts@) =~= split_char(t@, ' '));
    let err = AnalyzeError::PatternNotFound { line: previous_offset(b.start) };
    if parts.len() < 2 {
        return Err(err);
    }
    let name = string_of(&parts[1]);
    match index_of_token(&parts, &chars_of("new"), 2) {
        Some(q) => {
            if q + 1 < parts.len() {
                let pat = vec!['(', ')'];
                assert(pat@ =~= seq!['(', ')']);
                let ty = cut_out(&parts[q + 1], &pat);
                Ok(BlockDetails::VariableBlock { name, data_type: string_of(&ty) })
            } else {
                Err(err)
            }
        },
        None => Ok(BlockDetails::VariableBlock { name, data_type: string_of(&parts[0]) }),
    }
}

fn if_block_details(lines: &Vec<String>, b: &Block) -> (r: Result<BlockDetails, AnalyzeError>)
    ensures
        match r {
            Ok(d) => if_details(strings_view(lines@), b@) == Ok::<DetailsModel, AnalyzeError>(d@),
            Err(e) => if_details(strings_view(lines@), b@) == Err::<DetailsModel, AnalyzeError>(e),
        },
{
    let line = previous_line(lines, b.start);
    let t = trim_start_of(&line);
    let is_else = t.len() >= 4 && same_chars(&slice(&t, 0, 4), &chars_of("else"));
    if is_else && !crate::text::has(&t, &chars_of("if")) {
        let clause: Vec<char> = Vec::new();
        return Ok(BlockDetails::IfBlock { clause: string_of(&clause), is_else });
    }
    let err = AnalyzeError::PatternNotFound { line: previous_offset(b.start) };
    match (first_pos_of(&t, '('), last_pos_of(&t, ')')) {
        (Some(o), Some(c)) => {
            if o < c {
                let clause = slice(&t, o + 1, c);
                Ok(BlockDetails::IfBlock { clause: string_of(&clause), is_else })
            } else {
                Err(err)
            }
        },
        _ => Err(err),
    }
}

proof fn lemma_attach_err_stays(lines: Seq<Seq<char>>, bs: Seq<BlockModel>, m: int, n: int)
    requires
        0 <= m <= n,
        attach_upto(lines, bs, m) is Err,
    ensures
        attach_upto(lines, bs, n) == attach_upto(lines, bs, m),
    decreases n - m,
{
    if m < n {
        lemma_attach_err_stays(lines, bs, m, n - 1);
    }
}

/// Two block lists with the same offsets and roles.
pub open spec fn same_skeleton(a: Seq<BlockModel>, b: Seq<BlockModel>) -> bool {
    a.len() == b.len() && forall|j: int|
        0 <= j < a.len() ==> #[trigger] a[j].start == b[j].start && a[j].end == b[j].end
            && a[j].block_type == b[j].block_type
}

proof fn lemma_uses_context_skeleton(a: Seq<BlockModel>, b: Seq<BlockModel>, x: BlockModel)
    requires
        same_skeleton(a, b),
    ensures
        uses_context(a, x) == uses_context(b, x),
{
    if uses_context(a, x) {
        let j = choose|j: int|
            0 <= j < a.len() && a[j].start > x.start && a[j].end is Some && x.end is Some
                && a[j].end->0 < x.end->0 && a[j].block_type == BlockType::Context;
        assert(a[j].start == b[j].start);
    }
    if uses_context(b, x) {
        let j = choose|j: int|
            0 <= j < b.len() && b[j].start > x.start && b[j].end is Some && x.end is Some
                && b[j].end->0 < x.end->0 && b[j].block_type == BlockType::Context;
        assert(a[j].start == b[j].start);
    }
}

/// Attaches the details of every data-context scope, method, variable and
/// conditional block.
pub fn attach_block_details(data: Data) -> (r: Result<Data, AnalyzeError>)
    ensures
        same_data(r, attach_details(data@)),
{
    let ghost d0 = data@;
    let Data { lines, class_name, blocks } = data;
    let mut blocks = match blocks {
        None => {
            return Ok(Data { lines, class_name, blocks: None });
        },
        Some(bs) => bs,
    };
    let ghost lv = strings_view(lines@);
    let ghost b0 = blocks_view(blocks@);
    let mut i: usize = 0;
    while i < blocks.len()
        invariant
            i <= blocks.len() == b0.len(),
            lv == strings_view(lines@),
            d0 == data@,
            d0.lines == lv,
            d0.blocks == Some(b0),
            d0.class_name == opt_string_view(class_name),
            attach_upto(lv, b0, i as int) == Ok::<Seq<BlockModel>, AnalyzeError>(blocks_view(blocks@)),
            same_skeleton(blocks_view(blocks@), b0),
            forall|j: int| i <= j < b0.len() ==> #[trigger] blocks_view(blocks@)[j] == b0[j],
        decreases blocks.len() - i,
    {
        let ghost bv = blocks_view(blocks@);
        assert(bv[i as int] == b0[i as int]);
        let t = blocks[i].block_type;
        let d = if t == BlockType::Context {
            context_block_details(&lines, &blocks[i])
        } else if t == BlockType::Method {
            proof {
                lemma_uses_context_skeleton(bv, b0, b0[i as int]);
                assert(method_details(lv, bv, b0[i as int]) == method_details(lv, b0, b0[i as int]));
            }
            method_block_details(&lines, &blocks, &blocks[i])
        } else if t == BlockType::Variable {
            variable_block_details(&lines, &blocks[i])
        } else if t == BlockType::If {
            if_block_details(&lines, &blocks[i])
        } else {
            i = i + 1;
            continue;
        };
        match d {
            Err(e) => {
                proof {
                    assert(detail_of(lv, b0, i as int) == Err::<Option<DetailsModel>, AnalyzeError>(e));
                    assert(attach_upto(lv, b0, i + 1) == Err::<Seq<BlockModel>, AnalyzeError>(e));
                    lemma_attach_err_stays(lv, b0, i + 1, b0.len() as int);
                }
                return Err(e);
            },
            Ok(d) => {
                let ghost dm = d@;
                blocks[i].details = Some(d);
                assert(blocks_view(blocks@) =~= bv.update(i as int, with_details(bv[i as int], dm)));
                assert forall|j: int| 0 <= j < b0.len() implies #[trigger] blocks_view(blocks@)[j].start == b0[j].start
                    && blocks_view(blocks@)[j].end == b0[j].end && blocks_view(blocks@)[j].block_type == b0[j].block_type by {
                    assert(bv[j].start == b0[j].start);
                }
            },
        }
        i = i + 1;
    }
    Ok(Data { lines, class_name, blocks: Some(blocks) })
}

} // verus!
