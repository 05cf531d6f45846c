//! The whole analysis: extraction, class name, roles, details, query
//! discovery and query details, in that order.
use vstd::prelude::*;
use crate::blocks::{
    count_boundaries, extract, get_blocks, lemma_blocks_nest, lemma_openers_match_closers,
};
use crate::classify::{
    class_block_from, classified, classify, get_class_name, resolve_class, set_block_types,
};
use crate::details::{attach_block_details, attach_details, attach_upto};
use crate::discover::{discover_queries, discovered, get_additional_select_blocks};
use crate::queries::{attach_queries, attach_select_block_details, select_upto};
use crate::types::{AnalyzeError, BlockModel, Data, DataModel, same_data};

verus! {

/// The aggregate the analysis makes of `d`'s lines, or the first fatal
/// condition met.
pub open spec fn analysis(d: DataModel) -> Result<DataModel, AnalyzeError> {
    match extract(d.lines) {
        Err(e) => Err(e),
        Ok(bs) => match resolve_class(DataModel { lines: d.lines, class_name: d.class_name, blocks: Some(bs) }) {
            Err(e) => Err(e),
            Ok(named) => match attach_details(classify(named)) {
                Err(e) => Err(e),
                Ok(detailed) => attach_queries(discover_queries(detailed)),
            },
        },
    }
}

/// Runs every stage of the analysis over `data`'s lines.
pub fn analyze_lines(data: Data) -> (r: Result<Data, AnalyzeError>)
    requires
        data.lines.len() <= i32::MAX,
    ensures
        same_data(r, analysis(data@)),
{
    let blocks = match get_blocks(&data.lines) {
        Err(e) => {
            return Err(e);
        },
        Ok(bs) => bs,
    };
    let data = Data { lines: data.lines, class_name: data.class_name, blocks: Some(blocks) };
    let data = match get_class_name(data) {
        Err(e) => {
            return Err(e);
        },
        Ok(d) => d,
    };
    let data = set_block_types(data);
    let data = match attach_block_details(data) {
        Err(e) => {
            return Err(e);
        },
        Ok(d) => d,
    };
    let data = get_additional_select_blocks(data);
    attach_select_block_details(data)
}

/// The analysis is a function of the lines and the class name handed in:
/// two runs on the same input give the same aggregate, whatever blocks the
/// input held before.
pub proof fn lemma_analysis_deterministic(a: DataModel, b: DataModel)
    requires
        a.lines == b.lines,
        a.class_name == b.class_name,
    ensures
        analysis(a) == analysis(b),
{
}

/// `out` begins with blocks that span the same lines as those of `bs`.
pub open spec fn keeps_spans(out: Seq<BlockModel>, bs: Seq<BlockModel>) -> bool {
    bs.len() <= out.len() && forall|j: int|
        0 <= j < bs.len() ==> #[trigger] out[j].start == bs[j].start && out[j].end == bs[j].end
}

proof fn lemma_class_block_in_range(lines: Seq<Seq<char>>, bs: Seq<BlockModel>, k: int)
    requires
        0 <= k,
    ensures
        class_block_from(lines, bs, k) matches Some(i) ==> k <= i < bs.len(),
    decreases bs.len() - k,
{
    if k < bs.len() {
        lemma_class_block_in_range(lines, bs, k + 1);
    }
}

proof fn lemma_attach_keeps_spans(lines: Seq<Seq<char>>, bs: Seq<BlockModel>, n: int)
    requires
        n <= bs.len(),
        attach_upto(lines, bs, n) is Ok,
    ensures
        attach_upto(lines, bs, n)->Ok_0.len() == bs.len(),
        keeps_spans(attach_upto(lines, bs, n)->Ok_0, bs),
    decreases n,
{
    if n > 0 {
        lemma_attach_keeps_spans(lines, bs, n - 1);
    }
}

proof fn lemma_select_keeps_spans(lines: Seq<Seq<char>>, bs: Seq<BlockModel>, n: int)
    requires
        n <= bs.len(),
        select_upto(lines, bs, n) is Ok,
    ensures
        select_upto(lines, bs, n)->Ok_0.len() == bs.len(),
        keeps_spans(select_upto(lines, bs, n)->Ok_0, bs),
    decreases n,
{
    if n > 0 {
        lemma_select_keeps_spans(lines, bs, n - 1);
    }
}

/// In the final aggregate the blocks that extraction found come first, and
/// they nest properly: every one ends after it starts, and one that starts
/// inside another ends before the other does.
pub proof fn lemma_analysis_blocks_nest(d: DataModel)
    requires
        analysis(d) is Ok,
    ensures
        extract(d.lines) is Ok,
        analysis(d)->Ok_0.blocks is Some,
        keeps_spans(analysis(d)->Ok_0.blocks->0, extract(d.lines)->Ok_0),
        forall|i: int|
            0 <= i < extract(d.lines)->Ok_0.len() ==> (#[trigger] analysis(d)->Ok_0.blocks->0[i].end
                is Some && analysis(d)->Ok_0.blocks->0[i].start < analysis(d)->Ok_0.blocks->0[i].end->0),
        forall|i: int, j: int|
            0 <= i < extract(d.lines)->Ok_0.len() && 0 <= j < extract(d.lines)->Ok_0.len()
                && #[trigger] analysis(d)->Ok_0.blocks->0[i].start
                < #[trigger] analysis(d)->Ok_0.blocks->0[j].start
                <= analysis(d)->Ok_0.blocks->0[i].end->0 ==> analysis(d)->Ok_0.blocks->0[j].end->0
                < analysis(d)->Ok_0.blocks->0[i].end->0,
{
    let bs = extract(d.lines)->Ok_0;
    lemma_blocks_nest(d.lines);
    let d1 = DataModel { lines: d.lines, class_name: d.class_name, blocks: Some(bs) };
    let d2 = resolve_class(d1)->Ok_0;
    let b2 = d2.blocks->0;
    lemma_class_block_in_range(d.lines, bs, 0);
    assert(b2.len() == bs.len() && keeps_spans(b2, bs));
    let d3 = classify(d2);
    let b3 = d3.blocks->0;
    assert(b3 == classified(d2.lines, b2, d2.class_name));
    assert(b3.len() == bs.len() && keeps_spans(b3, bs));
    let d4 = attach_details(d3)->Ok_0;
    lemma_attach_keeps_spans(d3.lines, b3, b3.len() as int);
    let b4 = d4.blocks->0;
    assert(b4.len() == bs.len() && keeps_spans(b4, bs));
    let d5 = discover_queries(d4);
    let b5 = d5.blocks->0;
    assert(b5 == b4 + discovered(d4.lines, b4, b4.len() as int));
    assert(keeps_spans(b5, bs));
    lemma_select_keeps_spans(d5.lines, b5, b5.len() as int);
    let b6 = analysis(d)->Ok_0.blocks->0;
    assert(b6 == select_upto(d5.lines, b5, b5.len() as int)->Ok_0);
    assert forall|j: int| 0 <= j < bs.len() implies #[trigger] b6[j].start == bs[j].start
        && b6[j].end == bs[j].end by {
        assert(b6[j].start == b5[j].start && b6[j].end == b5[j].end);
        assert(b5[j].start == bs[j].start && b5[j].end == bs[j].end);
    }
    assert(keeps_spans(b6, bs));
    assert forall|i: int, j: int|
        0 <= i < bs.len() && 0 <= j < bs.len() && #[trigger] b6[i].start < #[trigger] b6[j].start
            <= b6[i].end->0 implies b6[j].end->0 < b6[i].end->0 by {
        assert(b6[i].start == bs[i].start && b6[j].start == bs[j].start);
        assert(bs[i].start < bs[j].start <= bs[i].end->0);
    }
    assert forall|i: int| 0 <= i < bs.len() implies (#[trigger] b6[i].end is Some && b6[i].start
        < b6[i].end->0) by {
        assert(b6[i].start == bs[i].start);
    }
}

/// Input on which the opener and closer lines differ in number stops the
/// whole analysis with a structural imbalance; an analysis that succeeds had
/// as many of each.
pub proof fn lemma_analysis_balanced(d: DataModel)
    ensures
        count_boundaries(d.lines, d.lines.len(), '{') != count_boundaries(d.lines, d.lines.len(), '}')
            ==> (analysis(d) is Err && analysis(d)->Err_0 is StructuralImbalance),
        analysis(d) is Ok ==> count_boundaries(d.lines, d.lines.len(), '{') == count_boundaries(
            d.lines,
            d.lines.len(),
            '}',
        ),
{
    lemma_openers_match_closers(d.lines);
}

} // verus!
