//! Block extraction: pairs opener lines with closer lines by a brace-balance
//! scan, innermost first.
use vstd::prelude::*;
use crate::text::{chars_of, remove_white, same_pos, unwhite};
use crate::types::{AnalyzeError, Block, BlockModel, BlockType, blocks_view, strings_view};

verus! {

/// The brace that opens or closes a block on this line: the first character
/// of the line once its white space is taken out, where that is a brace.
pub open spec fn boundary(line: Seq<char>) -> Option<char> {
    let ns = unwhite(line);
    if ns.len() > 0 && (ns[0] == '{' || ns[0] == '}') {
        Some(ns[0])
    } else {
        None
    }
}

/// A block opened at line `at`, not yet closed nor classified.
pub open spec fn opened_at(at: int) -> BlockModel {
    BlockModel { start: at, end: None, block_type: BlockType::Unknown, details: None }
}

/// `b` closed at line `at`.
pub open spec fn closed_at(b: BlockModel, at: int) -> BlockModel {
    BlockModel { start: b.start, end: Some(at), block_type: b.block_type, details: b.details }
}

/// The index of the last block among the first `k` that is still open.
pub open spec fn last_open(bs: Seq<BlockModel>, k: int) -> Option<int>
    decreases k,
{
    if k <= 0 {
        None
    } else if bs[k - 1].end is None {
        Some(k - 1)
    } else {
        last_open(bs, k - 1)
    }
}

proof fn lemma_last_open(bs: Seq<BlockModel>, k: int)
    requires
        k <= bs.len(),
    ensures
        last_open(bs, k) matches Some(j) ==> 0 <= j < k && bs[j].end is None && forall|m: int|
            j < m < k ==> bs[m].end is Some,
        last_open(bs, k) is None ==> forall|m: int| 0 <= m < k ==> bs[m].end is Some,
    decreases k,
{
    if k > 0 {
        lemma_last_open(bs, k - 1);
    }
}

/// The blocks found in the first `n` lines, or the imbalance met there: an
/// opener line opens a block, a closer line closes the last block still open.
pub open spec fn scan(lines: Seq<Seq<char>>, n: nat) -> Result<Seq<BlockModel>, AnalyzeError>
    decreases n,
{
    if n == 0 {
        Ok(Seq::empty())
    } else {
        match scan(lines, (n - 1) as nat) {
            Err(e) => Err(e),
            Ok(bs) => match boundary(lines[n - 1]) {
                Some(c) => if c == '{' {
                    Ok(bs.push(opened_at(n - 1)))
                } else {
                    match last_open(bs, bs.len() as int) {
                        Some(k) => Ok(bs.update(k, closed_at(bs[k], n - 1))),
                        None => Err(AnalyzeError::StructuralImbalance { line: (n - 1) as usize }),
                    }
                },
                None => Ok(bs),
            },
        }
    }
}

proof fn lemma_scan_err_stays(lines: Seq<Seq<char>>, m: nat, n: nat)
    requires
        m <= n,
        scan(lines, m) is Err,
    ensures
        scan(lines, n) == scan(lines, m),
    decreases n - m,
{
    if m < n {
        lemma_scan_err_stays(lines, m, (n - 1) as nat);
    }
}

/// The blocks of all the lines, in the order their openers appear; a block
/// left open is an imbalance at its opener.
pub open spec fn extract(lines: Seq<Seq<char>>) -> Result<Seq<BlockModel>, AnalyzeError> {
    match scan(lines, lines.len()) {
        Err(e) => Err(e),
        Ok(bs) => match last_open(bs, bs.len() as int) {
            Some(k) => Err(AnalyzeError::StructuralImbalance { line: bs[k].start as usize }),
            None => Ok(bs),
        },
    }
}

/// An executable result and a mathematical one agree.
pub open spec fn same_blocks(
    r: Result<Vec<Block>, AnalyzeError>,
    s: Result<Seq<BlockModel>, AnalyzeError>,
) -> bool {
    match r {
        Ok(bs) => s == Ok::<Seq<BlockModel>, AnalyzeError>(blocks_view(bs@)),
        Err(e) => s == Err::<Seq<BlockModel>, AnalyzeError>(e),
    }
}

/// The brace that makes `line` a boundary line, if it is one.
fn get_block_boundry(line: &Vec<char>) -> (r: Option<char>)
    ensures
        r == boundary(line@),
{
    let ns = remove_white(line);
    if ns.len() > 0 && (ns[0] == '{' || ns[0] == '}') {
        Some(ns[0])
    } else {
        None
    }
}

/// The index of the innermost block that is still open.
fn get_correct_index(blocks: &Vec<Block>) -> (r: Option<usize>)
    ensures
        same_pos(r, last_open(blocks_view(blocks@), blocks@.len() as int)),
        r matches Some(k) ==> k < blocks@.len() && blocks@[k as int].end is None,
{
    proof {
        lemma_last_open(blocks_view(blocks@), blocks@.len() as int);
    }
    let ghost bv = blocks_view(blocks@);
    let mut k: usize = blocks.len();
    while k > 0
        invariant
            k <= blocks.len(),
            bv == blocks_view(blocks@),
            last_open(bv, blocks@.len() as int) == last_open(bv, k as int),
        decreases k,
    {
        if blocks[k - 1].end.is_none() {
            return Some(k - 1);
        }
        k = k - 1;
    }
    None
}

/// The blocks of `lines`, each with its start and end offsets.
pub fn get_blocks(lines: &Vec<String>) -> (r: Result<Vec<Block>, AnalyzeError>)
    requires
        lines.len() <= u32::MAX,
    ensures
        same_blocks(r, extract(strings_view(lines@))),
{
    let ghost lv = strings_view(lines@);
    let mut blocks: Vec<Block> = Vec::new();
    let mut i: usize = 0;
    assert(blocks_view(blocks@) =~= Seq::empty());
    while i < lines.len()
        invariant
            i <= lines.len() <= u32::MAX,
            lv == strings_view(lines@),
            scan(lv, i as nat) == Ok::<Seq<BlockModel>, AnalyzeError>(blocks_view(blocks@)),
        decreases lines.len() - i,
    {
        let line = chars_of(lines[i].as_str());
        assert(line@ == lv[i as int]);
        let boundry = get_block_boundry(&line);
        match boundry {
            Some(c) => {
                if c == '{' {
                    blocks.push(
                        Block { start: i as u32, end: None, block_type: BlockType::Unknown, details: None },
                    );
                    assert(blocks_view(blocks@) =~= scan(lv, (i + 1) as nat)->Ok_0);
                } else {
                    match get_correct_index(&blocks) {
                        None => {
                            proof {
                                lemma_scan_err_stays(lv, (i + 1) as nat, lv.len());
                            }
                            return Err(AnalyzeError::StructuralImbalance { line: i });
                        },
                        Some(k) => {
                            let ghost before = blocks_view(blocks@);
                            blocks[k].end = Some(i as u32);
                            assert(blocks_view(blocks@) =~= before.update(
                                k as int,
                                closed_at(before[k as int], i as int),
                            ));
                        },
                    }
                }
            },
            None => {},
        }
        i = i + 1;
    }
    match get_correct_index(&blocks) {
        Some(k) => Err(AnalyzeError::StructuralImbalance { line: blocks[k].start as usize }),
        None => Ok(blocks),
    }
}

/// How many of the first `n` lines are boundary lines of brace `c`.
pub open spec fn count_boundaries(lines: Seq<Seq<char>>, n: nat, c: char) -> nat
    decreases n,
{
    if n == 0 {
        0
    } else {
        count_boundaries(lines, (n - 1) as nat, c) + if boundary(lines[n - 1]) == Some(c) {
            1nat
        } else {
            0nat
        }
    }
}

/// How many of the first `k` blocks are still open.
pub open spec fn open_count(bs: Seq<BlockModel>, k: int) -> nat
    decreases k,
{
    if k <= 0 {
        0
    } else {
        open_count(bs, k - 1) + if bs[k - 1].end is None {
            1nat
        } else {
            0nat
        }
    }
}

proof fn lemma_open_count_agree(a: Seq<BlockModel>, b: Seq<BlockModel>, k: int)
    requires
        0 <= k <= a.len(),
        k <= b.len(),
        forall|j: int| 0 <= j < k ==> (a[j].end is None <==> b[j].end is None),
    ensures
        open_count(a, k) == open_count(b, k),
    decreases k,
{
    if k > 0 {
        lemma_open_count_agree(a, b, k - 1);
    }
}

proof fn lemma_open_count_close(bs: Seq<BlockModel>, k: int, at: int, m: int)
    requires
        0 <= k < m <= bs.len(),
        bs[k].end is None,
    ensures
        open_count(bs.update(k, closed_at(bs[k], at)), m) + 1 == open_count(bs, m),
    decreases m,
{
    let nb = bs.update(k, closed_at(bs[k], at));
    if m == k + 1 {
        lemma_open_count_agree(nb, bs, k);
    } else {
        lemma_open_count_close(bs, k, at, m - 1);
    }
}

proof fn lemma_none_open(bs: Seq<BlockModel>, k: int)
    requires
        0 <= k <= bs.len(),
        forall|m: int| 0 <= m < k ==> bs[m].end is Some,
    ensures
        open_count(bs, k) == 0,
    decreases k,
{
    if k > 0 {
        lemma_none_open(bs, k - 1);
    }
}

/// The shape that every prefix scan keeps: starts rise with the index, a
/// closed block ends after it starts and before line `n`, and a block that
/// starts after a closed one either starts after its end or closes before it.
pub open spec fn well_nested(bs: Seq<BlockModel>, n: int) -> bool {
    &&& forall|j: int| 0 <= j < bs.len() ==> 0 <= #[trigger] bs[j].start < n
    &&& forall|i: int, j: int| 0 <= i < j < bs.len() ==> bs[i].start < bs[j].start
    &&& forall|j: int|
        0 <= j < bs.len() ==> (#[trigger] bs[j].end matches Some(e) ==> bs[j].start < e < n)
    &&& forall|i: int, j: int|
        0 <= i < j < bs.len() ==> (#[trigger] bs[i].end matches Some(ei) ==> (bs[j].start > ei
            || (#[trigger] bs[j].end matches Some(ej) && ej < ei)))
}

proof fn lemma_scan_shape(lines: Seq<Seq<char>>, n: nat)
    requires
        n <= lines.len(),
    ensures
        scan(lines, n) matches Ok(bs) ==> {
            &&& bs.len() == count_boundaries(lines, n, '{')
            &&& open_count(bs, bs.len() as int) + count_boundaries(lines, n, '}')
                == count_boundaries(lines, n, '{')
            &&& well_nested(bs, n as int)
        },
        scan(lines, n) matches Err(e) ==> e is StructuralImbalance,
    decreases n,
{
    if n > 0 {
        let m = (n - 1) as nat;
        lemma_scan_shape(lines, m);
        if let Ok(bs) = scan(lines, m) {
            match boundary(lines[m as int]) {
                Some(c) => {
                    if c == '{' {
                        let nb = bs.push(opened_at(m as int));
                        lemma_open_count_agree(nb, bs, bs.len() as int);
                        assert(nb.drop_last() =~= bs);
                    } else {
                        lemma_last_open(bs, bs.len() as int);
                        if let Some(k) = last_open(bs, bs.len() as int) {
                            lemma_open_count_close(bs, k, m as int, bs.len() as int);
                            let nb = bs.update(k, closed_at(bs[k], m as int));
                            assert forall|i: int, j: int|
                                0 <= i < j < nb.len() && #[trigger] nb[i].end is Some implies (
                                nb[j].start > nb[i].end->0 || (#[trigger] nb[j].end is Some
                                && nb[j].end->0 < nb[i].end->0)) by {
                                if j == k {
                                    assert(bs[i].end is Some);
                                }
                            }
                        }
                    }
                },
                None => {},
            }
        }
    }
}

/// Well-formed input has as many opener lines as closer lines, and input on
/// which the two counts differ is refused as a structural imbalance.
pub proof fn lemma_openers_match_closers(lines: Seq<Seq<char>>)
    ensures
        extract(lines) is Ok ==> count_boundaries(lines, lines.len(), '{') == count_boundaries(
            lines,
            lines.len(),
            '}',
        ),
        count_boundaries(lines, lines.len(), '{') != count_boundaries(lines, lines.len(), '}')
            ==> (extract(lines) is Err && extract(lines)->Err_0 is StructuralImbalance),
{
    lemma_scan_shape(lines, lines.len());
    if let Ok(bs) = scan(lines, lines.len()) {
        lemma_last_open(bs, bs.len() as int);
        if last_open(bs, bs.len() as int) is None {
            lemma_none_open(bs, bs.len() as int);
        }
    }
}

/// Blocks nest properly: every block ends after it starts, and a block that
/// starts inside another ends before the other does.
pub proof fn lemma_blocks_nest(lines: Seq<Seq<char>>)
    requires
        extract(lines) is Ok,
    ensures
        forall|i: int|
            0 <= i < extract(lines)->Ok_0.len() ==> (#[trigger] extract(lines)->Ok_0[i].end is Some
                && extract(lines)->Ok_0[i].start < extract(lines)->Ok_0[i].end->0),
        forall|i: int, j: int|
            0 <= i < extract(lines)->Ok_0.len() && 0 <= j < extract(lines)->Ok_0.len()
                && #[trigger] extract(lines)->Ok_0[i].start < #[trigger] extract(lines)->Ok_0[j].start
                <= extract(lines)->Ok_0[i].end->0 ==> extract(lines)->Ok_0[j].end->0 < extract(
                lines,
            )->Ok_0[i].end->0,
{
    lemma_scan_shape(lines, lines.len());
    let bs = extract(lines)->Ok_0;
    lemma_last_open(bs, bs.len() as int);
    assert forall|i: int, j: int|
        0 <= i < bs.len() && 0 <= j < bs.len() && #[trigger] bs[i].start < #[trigger] bs[j].start
            <= bs[i].end->0 implies bs[j].end->0 < bs[i].end->0 by {
        if j < i {
            assert(bs[j].start < bs[i].start);
        }
        assert(bs[i].end is Some);
        assert(bs[j].end is Some);
    }
}

} // verus!
