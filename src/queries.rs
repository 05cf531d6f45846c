//! Query details: tables, filters and projections of every query block, in
//! query-expression or lambda syntax.
use vstd::prelude::*;
use crate::frequency::{
    by_frequency, returns_view, sort_and_save_frequency, tables_view, tables_with_freq,
};
use crate::text::{
    char_views, chars_of, contains, cut, cut_out, find, find_in, first_pos, first_pos_of, has,
    has_char, is_match_at, join_pieces, join_with, remove_char, removed, second_piece,
    second_piece_of, skip_chars, slice, split_at_char, split_char, string_of, trim, trim_of,
    trim_start, trim_start_of, upto_char, upto_char_of,
};
use crate::types::{
    AnalyzeError, Block, BlockDetails, BlockModel, BlockType, Data, DataModel, DetailsModel,
    LinqSyntax, QueryType, ReturnData, ReturnDataModel, Table, TableModel, WhereClause,
    WhereClauseModel, blocks_view, opt_string_view, same_data, strings_view, with_details,
};

verus! {

/// What a query's head gives: its tables, its filters, and whether it is
/// returned at once.
pub struct QueryHead {
    pub tables: Seq<TableModel>,
    pub where_clauses: Seq<WhereClauseModel>,
    pub has_return: bool,
}

/// The head of no lines.
pub open spec fn empty_head() -> QueryHead {
    QueryHead { tables: Seq::empty(), where_clauses: Seq::empty(), has_return: false }
}

/// The head of `a`'s lines followed by the head of `b`'s.
pub open spec fn join_heads(a: QueryHead, b: QueryHead) -> QueryHead {
    QueryHead {
        tables: a.tables + b.tables,
        where_clauses: a.where_clauses + b.where_clauses,
        has_return: a.has_return || b.has_return,
    }
}

/// The tokens that hold a `.`, in order.
pub open spec fn dotted(toks: Seq<Seq<char>>) -> Seq<Seq<char>>
    decreases toks.len(),
{
    if toks.len() == 0 {
        toks
    } else if contains(toks.last(), seq!['.']) {
        dotted(toks.drop_last()).push(toks.last())
    } else {
        dotted(toks.drop_last())
    }
}

/// A filter with text `text` over the `alias.property` tokens of `toks`;
/// none where no token names a property.
pub open spec fn where_clause_of(text: Seq<char>, toks: Seq<Seq<char>>, lambda: Option<Seq<char>>) -> Seq<WhereClauseModel> {
    let ds = dotted(toks);
    if ds.len() == 0 {
        Seq::empty()
    } else {
        seq![
            WhereClauseModel {
                shortcut: ds.map_values(|t: Seq<char>| upto_char(t, '.')),
                property: ds.map_values(|t: Seq<char>| second_piece(t, '.')),
                value: text,
                lambda_varible: lambda,
            },
        ]
    }
}

/// A table named `name` under alias `shortcut`, with nothing counted yet.
pub open spec fn new_table(name: Seq<char>, shortcut: Seq<char>) -> TableModel {
    TableModel { name, shortcut, joined_tables: 0, return_frequency: 0 }
}

/// The prefix through which a query names a table of the context.
pub open spec fn accessor() -> Seq<char> {
    "cx."@
}

/// The table that keyword `kw` introduces on line `k`: from the keyword on,
/// the second token is the alias and the fourth the table, accessor cut out.
pub open spec fn table_after(lines: Seq<Seq<char>>, k: int, kw: Seq<char>) -> Result<TableModel, AnalyzeError> {
    let line = lines[k];
    let parts = split_char(line.skip(find(line, kw)->0), ' ');
    if parts.len() < 4 {
        Err(AnalyzeError::PatternNotFound { line: k as usize })
    } else {
        Ok(new_table(cut(parts[3], accessor()), parts[1]))
    }
}

/// The line holds a clause keyword of a query expression.
pub open spec fn has_query_keyword(line: Seq<char>) -> bool {
    contains(line, "from"@) || contains(line, "join"@) || contains(line, "where"@) || contains(
        line,
        "select"@,
    ) || contains(line, "&&"@)
}

/// What one clause line of a query expression gives: a filter for a `where`
/// or `&&` line, a table for a `join` or `from` line (a `from` line that holds
/// `return ` returns the query), nothing for a `select` line.
pub open spec fn walk_item(lines: Seq<Seq<char>>, k: int) -> Result<QueryHead, AnalyzeError> {
    let line = lines[k];
    let t = trim_start(line);
    if contains(t, "where"@) || contains(t, "&&"@) {
        Ok(
            QueryHead {
                tables: Seq::empty(),
                where_clauses: where_clause_of(t, split_char(t, ' '), None),
                has_return: false,
            },
        )
    } else if contains(line, "join"@) {
        match table_after(lines, k, "join"@) {
            Ok(tb) => Ok(QueryHead { tables: seq![tb], where_clauses: Seq::empty(), has_return: false }),
            Err(e) => Err(e),
        }
    } else if contains(line, "from"@) {
        match table_after(lines, k, "from"@) {
            Ok(tb) => Ok(
                QueryHead {
                    tables: seq![tb],
                    where_clauses: Seq::empty(),
                    has_return: contains(line, "return "@),
                },
            ),
            Err(e) => Err(e),
        }
    } else {
        Ok(empty_head())
    }
}

/// The head of a query expression whose clause lines run upward from line
/// `k`, up to the first line without a clause keyword.
pub open spec fn walk_up(lines: Seq<Seq<char>>, k: int) -> Result<QueryHead, AnalyzeError>
    decreases k + 1,
{
    if k < 0 || k >= lines.len() || !has_query_keyword(lines[k]) {
        Ok(empty_head())
    } else {
        match walk_item(lines, k) {
            Err(e) => Err(e),
            Ok(h) => match walk_up(lines, k - 1) {
                Err(e) => Err(e),
                Ok(rest) => Ok(join_heads(h, rest)),
            },
        }
    }
}

/// The tables a lambda query line names through the accessor: alias before
/// the `.`, name after it.
pub open spec fn cx_tables(toks: Seq<Seq<char>>) -> Seq<TableModel>
    decreases toks.len(),
{
    if toks.len() == 0 {
        Seq::empty()
    } else if contains(toks.last(), accessor()) {
        cx_tables(toks.drop_last()).push(
            new_table(second_piece(toks.last(), '.'), upto_char(toks.last(), '.')),
        )
    } else {
        cx_tables(toks.drop_last())
    }
}

/// `s` up to its first `p` (all of `s` where there is none).
pub open spec fn upto_seq(s: Seq<char>, p: Seq<char>) -> Seq<char> {
    match find(s, p) {
        Some(i) => s.take(i),
        None => s,
    }
}

/// The head of a lambda query on line `k`: the filter in the call
/// `.Where(<var> => <predicate>)`, and the accessor tables of the line.
pub open spec fn lambda_head(line: Seq<char>, k: int) -> Result<QueryHead, AnalyzeError> {
    let err = Err(AnalyzeError::PatternNotFound { line: k as usize });
    match find(line, ".Where("@) {
        None => err,
        Some(w) => {
            let rest = line.skip(w + ".Where("@.len());
            match first_pos(rest, ')') {
                None => err,
                Some(q) => {
                    let inner = rest.take(q);
                    match find(inner, "=>"@) {
                        None => err,
                        Some(m) => {
                            let var = trim(inner.take(m));
                            let value = trim(upto_seq(inner.skip(m + "=>"@.len()), "=>"@));
                            Ok(
                                QueryHead {
                                    tables: cx_tables(split_char(line, ' ')),
                                    where_clauses: where_clause_of(
                                        value,
                                        split_char(value, ' '),
                                        Some(var),
                                    ),
                                    has_return: contains(line, "return "@),
                                },
                            )
                        },
                    }
                },
            }
        },
    }
}

/// How many rows the query yields, from its terminal line.
pub open spec fn query_kind_of(line: Seq<char>) -> QueryType {
    if contains(line, ".FirstOrDefault"@) {
        QueryType::First
    } else if contains(line, ".Single"@) {
        QueryType::Unique
    } else {
        QueryType::Many
    }
}

/// The line that decides the query kind: the last line of the block where it
/// holds `)`, else the line after it.
pub open spec fn terminal_line(lines: Seq<Seq<char>>, e: int) -> Result<Seq<char>, AnalyzeError> {
    if contains(lines[e], seq![')']) {
        Ok(lines[e])
    } else if e + 1 < lines.len() {
        Ok(lines[e + 1])
    } else {
        Err(AnalyzeError::PatternNotFound { line: e as usize })
    }
}

/// The name of the first table, from index `k` on, under alias `sc`; empty
/// where there is none.
pub open spec fn lookup_table(tables: Seq<TableModel>, sc: Seq<char>, k: int) -> Seq<char>
    decreases tables.len() - k,
{
    if k < 0 || k >= tables.len() {
        Seq::empty()
    } else if tables[k].shortcut == sc {
        tables[k].name
    } else {
        lookup_table(tables, sc, k + 1)
    }
}

/// The projection on an interior line `Property = [alias.]Value[,]`: commas
/// dropped, the first token is the property and the tokens after the second
/// form the value; an alias before a `.` is resolved against the tables.
pub open spec fn return_of(line: Seq<char>, tables: Seq<TableModel>) -> ReturnDataModel {
    let parts = split_char(removed(trim_start(line), ','), ' ');
    let value = join_with(
        if parts.len() >= 2 {
            parts.skip(2)
        } else {
            Seq::empty()
        },
        ' ',
    );
    if contains(value, seq!['.']) {
        ReturnDataModel {
            table: lookup_table(tables, upto_char(value, '.'), 0),
            property: parts[0],
            value: second_piece(value, '.'),
        }
    } else {
        ReturnDataModel { table: Seq::empty(), property: parts[0], value }
    }
}

/// The projections of lines `lo` to `hi - 1`.
pub open spec fn returns_between(lines: Seq<Seq<char>>, tables: Seq<TableModel>, lo: int, hi: int) -> Seq<ReturnDataModel>
    decreases hi - lo,
{
    if hi <= lo {
        Seq::empty()
    } else {
        returns_between(lines, tables, lo, hi - 1).push(return_of(lines[hi - 1], tables))
    }
}

/// The query lies within the lines.
pub open spec fn query_in_range(lines: Seq<Seq<char>>, b: BlockModel) -> bool {
    b.end is Some && 0 <= b.start <= b.end->0 < lines.len()
}

/// The details of a query block: lambda syntax where its first line calls
/// `.Where(`, else a query expression whose clauses stand above it; the kind
/// from its terminal line; a projection for each line strictly inside it;
/// each table's frequency, and the projections ordered by it.
pub open spec fn query_details(lines: Seq<Seq<char>>, b: BlockModel) -> Result<DetailsModel, AnalyzeError> {
    if !query_in_range(lines, b) {
        Err(AnalyzeError::PatternNotFound { line: b.start as usize })
    } else {
        let s = b.start;
        let e = b.end->0;
        let first = lines[s];
        let lambda = contains(first, ".Where("@);
        let head = if lambda {
            lambda_head(first, s)
        } else {
            walk_up(lines, s - 1)
        };
        match head {
            Err(x) => Err(x),
            Ok(h) => match terminal_line(lines, e) {
                Err(x) => Err(x),
                Ok(fl) => {
                    let rds = returns_between(lines, h.tables, s + 1, e);
                    Ok(
                        DetailsModel::SelectBlock {
                            query_type: query_kind_of(fl),
                            tables: tables_with_freq(h.tables, rds),
                            where_clauses: h.where_clauses,
                            return_data: by_frequency(rds),
                            syntax: if lambda {
                                LinqSyntax::Lambda
                            } else {
                                LinqSyntax::Query
                            },
                            has_return: h.has_return,
                        },
                    )
                },
            },
        }
    }
}

/// The blocks with the details of the first `n` query blocks attached, or
/// the first error.
pub open spec fn select_upto(lines: Seq<Seq<char>>, bs: Seq<BlockModel>, n: int) -> Result<Seq<BlockModel>, AnalyzeError>
    decreases n,
{
    if n <= 0 {
        Ok(bs)
    } else {
        match select_upto(lines, bs, n - 1) {
            Err(e) => Err(e),
            Ok(cur) => if bs[n - 1].block_type == BlockType::Select {
                match query_details(lines, bs[n - 1]) {
                    Err(e) => Err(e),
                    Ok(d) => Ok(cur.update(n - 1, with_details(cur[n - 1], d))),
                }
            } else {
                Ok(cur)
            },
        }
    }
}

/// The aggregate with the details of every query block attached.
pub open spec fn attach_queries(d: DataModel) -> Result<DataModel, AnalyzeError> {
    match d.blocks {
        None => Ok(d),
        Some(bs) => match select_upto(d.lines, bs, bs.len() as int) {
            Err(e) => Err(e),
            Ok(nbs) => Ok(DataModel { lines: d.lines, class_name: d.class_name, blocks: Some(nbs) }),
        },
    }
}

/// The models of a list of filters.
pub open spec fn where_view(v: Seq<WhereClause>) -> Seq<WhereClauseModel> {
    v.map_values(|w: WhereClause| w@)
}

/// A head as the executable code carries it.
pub type Head = (Vec<Table>, Vec<WhereClause>, bool);

/// The head that an executable head stands for.
pub open spec fn head_view(h: Head) -> QueryHead {
    QueryHead { tables: tables_view(h.0@), where_clauses: where_view(h.1@), has_return: h.2 }
}

/// An executable head and a mathematical one agree.
pub open spec fn same_head(r: Result<Head, AnalyzeError>, s: Result<QueryHead, AnalyzeError>) -> bool {
    match r {
        Ok(h) => s == Ok::<QueryHead, AnalyzeError>(head_view(h)),
        Err(e) => s == Err::<QueryHead, AnalyzeError>(e),
    }
}

/// The head `a` followed by what the lines above give.
pub open spec fn after_head(a: QueryHead, r: Result<QueryHead, AnalyzeError>) -> Result<QueryHead, AnalyzeError> {
    match r {
        Ok(h) => Ok(join_heads(a, h)),
        Err(e) => Err(e),
    }
}

proof fn lemma_join_assoc(a: QueryHead, b: QueryHead, c: QueryHead)
    ensures
        join_heads(a, join_heads(b, c)) == join_heads(join_heads(a, b), c),
{
    assert(a.tables + (b.tables + c.tables) =~= (a.tables + b.tables) + c.tables);
    assert(a.where_clauses + (b.where_clauses + c.where_clauses) =~= (a.where_clauses
        + b.where_clauses) + c.where_clauses);
}

proof fn lemma_join_empty(a: QueryHead)
    ensures
        join_heads(a, empty_head()) == a,
{
    assert(a.tables + Seq::empty() =~= a.tables);
    assert(a.where_clauses + Seq::empty() =~= a.where_clauses);
}

/// The filter with text `text` over the property tokens of `toks`.
fn where_clause_from(text: &Vec<char>, toks: &Vec<Vec<char>>, lambda: Option<String>) -> (r: Vec<WhereClause>)
    ensures
        where_view(r@) == where_clause_of(text@, char_views(toks@), opt_string_view(lambda)),
{
    let ghost tv = char_views(toks@);
    let mut shortcut: Vec<String> = Vec::new();
    let mut property: Vec<String> = Vec::new();
    let mut k: usize = 0;
    while k < toks.len()
        invariant
            k <= toks.len(),
            tv == char_views(toks@),
            strings_view(shortcut@) == dotted(tv.take(k as int)).map_values(|t: Seq<char>| upto_char(t, '.')),
            strings_view(property@) == dotted(tv.take(k as int)).map_values(|t: Seq<char>| second_piece(t, '.')),
        decreases toks.len() - k,
    {
        assert(tv.take(k + 1).drop_last() =~= tv.take(k as int));
        assert(tv.take(k + 1).last() == toks@[k as int]@);
        if has_char(&toks[k], '.') {
            let ghost s0 = strings_view(shortcut@);
            let ghost p0 = strings_view(property@);
            let ghost tk = toks@[k as int]@;
            shortcut.push(string_of(&upto_char_of(&toks[k], '.')));
            property.push(string_of(&second_piece_of(&toks[k], '.')));
            let ghost d0 = dotted(tv.take(k as int));
            assert(dotted(tv.take(k + 1)) == d0.push(tk));
            assert(strings_view(shortcut@) =~= s0.push(upto_char(tk, '.')));
            assert(strings_view(property@) =~= p0.push(second_piece(tk, '.')));
            assert(d0.push(tk).map_values(|t: Seq<char>| upto_char(t, '.')) =~= d0.map_values(|t: Seq<char>| upto_char(t, '.')).push(upto_char(tk, '.')));
            assert(d0.push(tk).map_values(|t: Seq<char>| second_piece(t, '.')) =~= d0.map_values(|t: Seq<char>| second_piece(t, '.')).push(second_piece(tk, '.')));
            assert(strings_view(shortcut@) =~= dotted(tv.take(k + 1)).map_values(|t: Seq<char>| upto_char(t, '.')));
            assert(strings_view(property@) =~= dotted(tv.take(k + 1)).map_values(|t: Seq<char>| second_piece(t, '.')));
        }
        k = k + 1;
    }
    assert(tv.take(toks.len() as int) =~= tv);
    if shortcut.len() == 0 {
        let r: Vec<WhereClause> = Vec::new();
        assert(where_view(r@) =~= where_clause_of(text@, tv, opt_string_view(lambda)));
        r
    } else {
        let r = vec![WhereClause { shortcut, property, value: string_of(text), lambda_varible: lambda }];
        assert(where_view(r@) =~= where_clause_of(text@, tv, opt_string_view(lambda)));
        r
    }
}

/// The table that `kw` introduces on line `k`.
fn table_on_line(lines: &Vec<String>, k: usize, kw: &Vec<char>) -> (r: Result<Table, AnalyzeError>)
    requires
        k < lines.len(),
        contains(strings_view(lines@)[k as int], kw@),
    ensures
        match r {
            Ok(t) => table_after(strings_view(lines@), k as int, kw@) == Ok::<TableModel, AnalyzeError>(t@),
            Err(e) => table_after(strings_view(lines@), k as int, kw@) == Err::<TableModel, AnalyzeError>(e),
        },
{
    let line = chars_of(lines[k].as_str());
    let p = match find_in(&line, kw) {
        Some(p) => p,
        None => 0,
    };
    let rest = skip_chars(&line, p);
    let parts = split_at_char(&rest, ' ');
    assert(char_views(parts@) =~= split_char(rest@, ' '));
    if parts.len() < 4 {
        return Err(AnalyzeError::PatternNotFound { line: k });
    }
    let acc = chars_of("cx.");
    proof {
        reveal_strlit("cx.");
    }
    assert(acc@.len() == 3);
    let name = cut_out(&parts[3], &acc);
    Ok(Table { name: string_of(&name), shortcut: string_of(&parts[1]), joined_tables: Vec::new(), return_frequency: 0 })
}

/// Whether a line holds a clause keyword of a query expression.
fn has_query_keyword_of(line: &Vec<char>) -> (r: bool)
    ensures
        r == has_query_keyword(line@),
{
    has(line, &chars_of("from")) || has(line, &chars_of("join")) || has(line, &chars_of("where"))
        || has(line, &chars_of("select")) || has(line, &chars_of("&&"))
}

/// The head of the query expression whose clauses stand above line `start`.
fn query_walk(lines: &Vec<String>, start: usize) -> (r: Result<Head, AnalyzeError>)
    ensures
        same_head(r, walk_up(strings_view(lines@), start - 1)),
{
    let ghost lv = strings_view(lines@);
    let mut tables: Vec<Table> = Vec::new();
    let mut wheres: Vec<WhereClause> = Vec::new();
    let mut ret = false;
    let mut k: usize = start;
    proof {
        lemma_join_empty(empty_head());
        assert(tables_view(tables@) =~= Seq::empty());
        assert(where_view(wheres@) =~= Seq::empty());
    }
    while k > 0
        invariant
            k <= start,
            lv == strings_view(lines@),
            walk_up(lv, start - 1) == after_head(head_view((tables, wheres, ret)), walk_up(lv, k - 1)),
        decreases k,
    {
        let idx = k - 1;
        if idx >= lines.len() {
            k = 0;
            continue;
        }
        let line = chars_of(lines[idx].as_str());
        assert(line@ == lv[idx as int]);
        if !has_query_keyword_of(&line) {
            k = 0;
            continue;
        }
        let ghost acc = head_view((tables, wheres, ret));
        let t = trim_start_of(&line);
        if has(&t, &chars_of("where")) || has(&t, &chars_of("&&")) {
            let toks = split_at_char(&t, ' ');
            assert(char_views(toks@) =~= split_char(t@, ' '));
            let mut w = where_clause_from(&t, &toks, None);
            let ghost wv = where_view(w@);
            wheres.append(&mut w);
            assert(where_view(wheres@) =~= acc.where_clauses + wv);
        } else if has(&line, &chars_of("join")) {
            match table_on_line(lines, idx, &chars_of("join")) {
                Err(e) => {
                    return Err(e);
                },
                Ok(tb) => {
                    let ghost tm = tb@;
                    tables.push(tb);
                    assert(tables_view(tables@) =~= acc.tables.push(tm));
                    assert(acc.tables.push(tm) =~= acc.tables + seq![tm]);
                },
            }
        } else if has(&line, &chars_of("from")) {
            match table_on_line(lines, idx, &chars_of("from")) {
                Err(e) => {
                    return Err(e);
                },
                Ok(tb) => {
                    let ghost tm = tb@;
                    tables.push(tb);
                    assert(tables_view(tables@) =~= acc.tables.push(tm));
                    assert(acc.tables.push(tm) =~= acc.tables + seq![tm]);
                    if has(&line, &chars_of("return ")) {
                        ret = true;
                    }
                },
            }
        }
        proof {
            let h = walk_item(lv, idx as int);
            if let Ok(hh) = h {
                assert(head_view((tables, wheres, ret)) =~= join_heads(acc, hh));
                if let Ok(rest) = walk_up(lv, idx - 1) {
                    lemma_join_assoc(acc, hh, rest);
                }
            }
        }
        k = idx;
    }
    proof {
        lemma_join_empty(head_view((tables, wheres, ret)));
    }
    Ok((tables, wheres, ret))
}

/// `s` up to its first `p`.
fn upto_seq_of(s: &Vec<char>, p: &Vec<char>) -> (r: Vec<char>)
    ensures
        r@ == upto_seq(s@, p@),
{
    match find_in(s, p) {
        Some(i) => slice(s, 0, i),
        None => crate::text::copy_chars(s),
    }
}

/// The tables that the tokens of a lambda query line name through the accessor.
fn accessor_tables(toks: &Vec<Vec<char>>) -> (r: Vec<Table>)
    ensures
        tables_view(r@) == cx_tables(char_views(toks@)),
{
    let ghost tv = char_views(toks@);
    let acc = chars_of("cx.");
    let mut tables: Vec<Table> = Vec::new();
    let mut k: usize = 0;
    while k < toks.len()
        invariant
            k <= toks.len(),
            tv == char_views(toks@),
            acc@ == accessor(),
            tables_view(tables@) == cx_tables(tv.take(k as int)),
        decreases toks.len() - k,
    {
        assert(tv.take(k + 1).drop_last() =~= tv.take(k as int));
        assert(tv.take(k + 1).last() == toks@[k as int]@);
        if has(&toks[k], &acc) {
            let name = second_piece_of(&toks[k], '.');
            let shortcut = upto_char_of(&toks[k], '.');
            let ghost before = tables_view(tables@);
            tables.push(Table { name: string_of(&name), shortcut: string_of(&shortcut), joined_tables: Vec::new(), return_frequency: 0 });
            assert(tables_view(tables@) =~= before.push(new_table(name@, shortcut@)));
        }
        k = k + 1;
    }
    assert(tv.take(toks.len() as int) =~= tv);
    tables
}

/// The head of the lambda query on `line`, line `k` of the file.
fn lambda_query_head(line: &Vec<char>, k: usize) -> (r: Result<Head, AnalyzeError>)
    ensures
        same_head(r, lambda_head(line@, k as int)),
{
    let err = AnalyzeError::PatternNotFound { line: k };
    let call = chars_of(".Where(");
    let w = match find_in(line, &call) {
        None => {
            return Err(err);
        },
        Some(w) => w,
    };
    assert(is_match_at(line@, call@, w as int));
    assert(w + call@.len() <= line.len());
    let rest = skip_chars(line, w + call.len());
    let q = match first_pos_of(&rest, ')') {
        None => {
            return Err(err);
        },
        Some(q) => q,
    };
    let inner = slice(&rest, 0, q);
    assert(inner@ =~= rest@.take(q as int));
    let arrow = chars_of("=>");
    let m = match find_in(&inner, &arrow) {
        None => {
            return Err(err);
        },
        Some(m) => m,
    };
    assert(is_match_at(inner@, arrow@, m as int));
    let var = slice(&inner, 0, m);
    assert(var@ =~= inner@.take(m as int));
    let var = trim_of(&var);
    let after = skip_chars(&inner, m + arrow.len());
    let value = upto_seq_of(&after, &arrow);
    let value = trim_of(&value);
    let vtoks = split_at_char(&value, ' ');
    assert(char_views(vtoks@) =~= split_char(value@, ' '));
    let wheres = where_clause_from(&value, &vtoks, Some(string_of(&var)));
    let toks = split_at_char(line, ' ');
    assert(char_views(toks@) =~= split_char(line@, ' '));
    let tables = accessor_tables(&toks);
    let ret = has(line, &chars_of("return "));
    Ok((tables, wheres, ret))
}

/// The name of the first table under alias `sc`, empty where there is none.
fn lookup_table_of(tables: &Vec<Table>, sc: &Vec<char>) -> (r: Vec<char>)
    ensures
        r@ == lookup_table(tables_view(tables@), sc@, 0),
{
    let ghost tv = tables_view(tables@);
    let mut k: usize = 0;
    while k < tables.len()
        invariant
            k <= tables.len(),
            tv == tables_view(tables@),
            lookup_table(tv, sc@, 0) == lookup_table(tv, sc@, k as int),
        decreases tables.len() - k,
    {
        let s = chars_of(tables[k].shortcut.as_str());
        if crate::text::same_chars(&s, sc) {
            return chars_of(tables[k].name.as_str());
        }
        k = k + 1;
    }
    Vec::new()
}

/// The projection on an interior line of a query.
fn return_line(line: &Vec<char>, tables: &Vec<Table>) -> (r: ReturnData)
    ensures
        r@ == return_of(line@, tables_view(tables@)),
{
    let t = trim_start_of(line);
    let t = remove_char(&t, ',');
    let parts = split_at_char(&t, ' ');
    let ghost pv = char_views(parts@);
    assert(pv =~= split_char(t@, ' '));
    let mut rest: Vec<Vec<char>> = Vec::new();
    let mut k: usize = 2;
    while k < parts.len()
        invariant
            2 <= k,
            pv == char_views(parts@),
            parts@.len() >= 2 ==> k <= parts@.len(),
            k <= parts.len() ==> char_views(rest@) == pv.subrange(2, k as int),
            k > parts.len() ==> rest@.len() == 0,
        decreases parts.len() - k,
    {
        let ghost before = char_views(rest@);
        let c = crate::text::copy_chars(&parts[k]);
        rest.push(c);
        assert(char_views(rest@) =~= before.push(pv[k as int]));
        assert(char_views(rest@) =~= pv.subrange(2, k + 1));
        k = k + 1;
    }
    proof {
        if parts.len() >= 2 {
            assert(char_views(rest@) =~= pv.skip(2));
        } else {
            assert(char_views(rest@) =~= Seq::empty());
        }
    }
    let value = join_pieces(&rest, ' ');
    let property = string_of(&parts[0]);
    if has_char(&value, '.') {
        let sc = upto_char_of(&value, '.');
        let v = second_piece_of(&value, '.');
        let table = lookup_table_of(tables, &sc);
        ReturnData { table: string_of(&table), property, value: string_of(&v) }
    } else {
        let empty: Vec<char> = Vec::new();
        ReturnData { table: string_of(&empty), property, value: string_of(&value) }
    }
}

/// The projections of lines `lo` to `hi - 1`.
fn returns_of_lines(lines: &Vec<String>, tables: &Vec<Table>, lo: usize, hi: usize) -> (r: Vec<ReturnData>)
    requires
        hi <= lines.len(),
    ensures
        returns_view(r@) == returns_between(strings_view(lines@), tables_view(tables@), lo as int, hi as int),
        r@.len() <= lines.len(),
{
    let ghost lv = strings_view(lines@);
    let ghost tv = tables_view(tables@);
    let mut out: Vec<ReturnData> = Vec::new();
    if hi <= lo {
        assert(returns_view(out@) =~= Seq::empty());
        return out;
    }
    let mut i: usize = lo;
    assert(returns_view(out@) =~= returns_between(lv, tv, lo as int, lo as int));
    while i < hi
        invariant
            lo <= i <= hi <= lines.len(),
            lv == strings_view(lines@),
            tv == tables_view(tables@),
            returns_view(out@) == returns_between(lv, tv, lo as int, i as int),
            out@.len() == i - lo,
        decreases hi - i,
    {
        let line = chars_of(lines[i].as_str());
        let rd = return_line(&line, tables);
        let ghost before = returns_view(out@);
        out.push(rd);
        assert(returns_view(out@) =~= before.push(return_of(lv[i as int], tv)));
        i = i + 1;
    }
    out
}

/// The details of query block `b`.
fn select_block_details(lines: &Vec<String>, b: &Block) -> (r: Result<BlockDetails, AnalyzeError>)
    requires
        lines.len() <= i32::MAX,
    ensures
        match r {
            Ok(d) => query_details(strings_view(lines@), b@) == Ok::<DetailsModel, AnalyzeError>(d@),
            Err(e) => query_details(strings_view(lines@), b@) == Err::<DetailsModel, AnalyzeError>(e),
        },
{
    let ghost lv = strings_view(lines@);
    let e = match b.end {
        Some(e) => e,
        None => {
            return Err(AnalyzeError::PatternNotFound { line: b.start as usize });
        },
    };
    if !(b.start <= e && (e as usize) < lines.len()) {
        return Err(AnalyzeError::PatternNotFound { line: b.start as usize });
    }
    let s = b.start as usize;
    let e = e as usize;
    let first = chars_of(lines[s].as_str());
    let lambda = has(&first, &chars_of(".Where("));
    let head = if lambda {
        lambda_query_head(&first, s)
    } else {
        query_walk(lines, s)
    };
    let (tables, where_clauses, has_return) = match head {
        Err(x) => {
            return Err(x);
        },
        Ok(h) => h,
    };
    let last = chars_of(lines[e].as_str());
    let fl = if has_char(&last, ')') {
        last
    } else if e + 1 < lines.len() {
        chars_of(lines[e + 1].as_str())
    } else {
        return Err(AnalyzeError::PatternNotFound { line: e });
    };
    let query_type = if has(&fl, &chars_of(".FirstOrDefault")) {
        QueryType::First
    } else if has(&fl, &chars_of(".Single")) {
        QueryType::Unique
    } else {
        QueryType::Many
    };
    let rds = returns_of_lines(lines, &tables, s + 1, e);
    let (tables, return_data) = sort_and_save_frequency(tables, &rds);
    let syntax = if lambda {
        LinqSyntax::Lambda
    } else {
        LinqSyntax::Query
    };
    Ok(BlockDetails::SelectBlock { query_type, tables, where_clauses, return_data, syntax, has_return })
}

proof fn lemma_select_err_stays(lines: Seq<Seq<char>>, bs: Seq<BlockModel>, m: int, n: int)
    requires
        0 <= m <= n,
        select_upto(lines, bs, m) is Err,
    ensures
        select_upto(lines, bs, n) == select_upto(lines, bs, m),
    decreases n - m,
{
    if m < n {
        lemma_select_err_stays(lines, bs, m, n - 1);
    }
}

/// Attaches the details of every query block.
pub fn attach_select_block_details(data: Data) -> (r: Result<Data, AnalyzeError>)
    requires
        data.lines.len() <= i32::MAX,
    ensures
        same_data(r, attach_queries(data@)),
{
    let ghost d0 = data@;
    let Data { lines, class_name, blocks } = data;
    let mut blocks = match blocks {
        None => {
            return Ok(Data { lines, class_name, blocks: None });
        },
        Some(bs) => bs,
    };
    let ghost lv = strings_view(lines@);
    let ghost b0 = blocks_view(blocks@);
    let mut i: usize = 0;
    while i < blocks.len()
        invariant
            i <= blocks.len() == b0.len(),
            lines.len() <= i32::MAX,
            lv == strings_view(lines@),
            d0 == data@,
            d0.lines == lv,
            d0.blocks == Some(b0),
            d0.class_name == opt_string_view(class_name),
            select_upto(lv, b0, i as int) == Ok::<Seq<BlockModel>, AnalyzeError>(blocks_view(blocks@)),
            forall|j: int| i <= j < b0.len() ==> #[trigger] blocks_view(blocks@)[j] == b0[j],
        decreases blocks.len() - i,
    {
        let ghost bv = blocks_view(blocks@);
        assert(bv[i as int] == b0[i as int]);
        if blocks[i].block_type == BlockType::Select {
            match select_block_details(&lines, &blocks[i]) {
                Err(e) => {
                    proof {
                        lemma_select_err_stays(lv, b0, i + 1, b0.len() as int);
                    }
                    return Err(e);
                },
                Ok(d) => {
                    let ghost dm = d@;
                    blocks[i].details = Some(d);
                    assert(blocks_view(blocks@) =~= bv.update(i as int, with_details(bv[i as int], dm)));
                },
            }
        }
        i = i + 1;
    }
    Ok(Data { lines, class_name, blocks: Some(blocks) })
}

} // verus!
