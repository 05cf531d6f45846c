//! Return frequencies of a query's tables, and the projections ordered by
//! them.
use vstd::prelude::*;
use crate::types::{ReturnData, ReturnDataModel, Table, TableModel};

verus! {

/// How many projections are owned by table `t`.
pub open spec fn freq(rs: Seq<ReturnDataModel>, t: Seq<char>) -> nat
    decreases rs.len(),
{
    if rs.len() == 0 {
        0
    } else {
        freq(rs.drop_last(), t) + if rs.last().table == t {
            1nat
        } else {
            0nat
        }
    }
}

/// The projections of `rs`, in order, whose table owns `f` projections of `all`.
pub open spec fn with_freq(rs: Seq<ReturnDataModel>, all: Seq<ReturnDataModel>, f: int) -> Seq<ReturnDataModel>
    decreases rs.len(),
{
    if rs.len() == 0 {
        Seq::empty()
    } else if freq(all, rs.last().table) == f {
        with_freq(rs.drop_last(), all, f).push(rs.last())
    } else {
        with_freq(rs.drop_last(), all, f)
    }
}

/// The projections of `all` whose table's frequency is `f` or more, the
/// most frequent first, each frequency in input order.
pub open spec fn levels_from(all: Seq<ReturnDataModel>, f: int) -> Seq<ReturnDataModel>
    decreases all.len() + 1 - f,
{
    if f > all.len() {
        Seq::empty()
    } else {
        levels_from(all, f + 1) + with_freq(all, all, f)
    }
}

/// The projections ordered by descending frequency of their table, with the
/// input order kept among equal frequencies.
pub open spec fn by_frequency(all: Seq<ReturnDataModel>) -> Seq<ReturnDataModel> {
    levels_from(all, 0)
}

/// `t` with return frequency `f`.
pub open spec fn with_frequency(t: TableModel, f: int) -> TableModel {
    TableModel { name: t.name, shortcut: t.shortcut, joined_tables: t.joined_tables, return_frequency: f }
}

/// Each table with the number of projections it owns.
pub open spec fn tables_with_freq(ts: Seq<TableModel>, all: Seq<ReturnDataModel>) -> Seq<TableModel> {
    Seq::new(ts.len(), |i: int| with_frequency(ts[i], freq(all, ts[i].name) as int))
}

/// The models of a list of tables.
pub open spec fn tables_view(v: Seq<Table>) -> Seq<TableModel> {
    v.map_values(|t: Table| t@)
}

/// The models of a list of projections.
pub open spec fn returns_view(v: Seq<ReturnData>) -> Seq<ReturnDataModel> {
    v.map_values(|r: ReturnData| r@)
}

proof fn lemma_freq_bound(rs: Seq<ReturnDataModel>, t: Seq<char>)
    ensures
        freq(rs, t) <= rs.len(),
    decreases rs.len(),
{
    if rs.len() > 0 {
        lemma_freq_bound(rs.drop_last(), t);
    }
}

/// A copy of a projection.
fn copy_return(r: &ReturnData) -> (c: ReturnData)
    ensures
        c@ == r@,
{
    ReturnData { table: r.table.clone(), property: r.property.clone(), value: r.value.clone() }
}

/// How many projections are owned by the table named `name`.
fn count_owned(return_data: &Vec<ReturnData>, name: &String) -> (r: usize)
    ensures
        r == freq(returns_view(return_data@), name@),
{
    let ghost all = returns_view(return_data@);
    let mut n: usize = 0;
    let mut i: usize = 0;
    while i < return_data.len()
        invariant
            i <= return_data.len(),
            all == returns_view(return_data@),
            n == freq(all.take(i as int), name@),
            n <= i,
        decreases return_data.len() - i,
    {
        assert(all.take(i + 1).drop_last() =~= all.take(i as int));
        if return_data[i].table == *name {
            n = n + 1;
        }
        i = i + 1;
    }
    assert(all.take(return_data.len() as int) =~= all);
    n
}

/// Sets each table's return frequency and orders the projections by it,
/// most frequent table first, keeping the input order among equals.
pub fn sort_and_save_frequency(tables: Vec<Table>, return_data: &Vec<ReturnData>) -> (r: (Vec<Table>, Vec<ReturnData>))
    requires
        return_data.len() <= i32::MAX,
    ensures
        tables_view(r.0@) == tables_with_freq(tables_view(tables@), returns_view(return_data@)),
        forall|i: int| 0 <= i < tables@.len() ==> #[trigger] r.0@[i].joined_tables == tables@[i].joined_tables,
        returns_view(r.1@) == by_frequency(returns_view(return_data@)),
{
    let ghost all = returns_view(return_data@);
    let ghost t0 = tables@;
    let mut tables = tables;
    let mut i: usize = 0;
    while i < tables.len()
        invariant
            i <= tables.len() == t0.len(),
            all == returns_view(return_data@),
            return_data.len() <= i32::MAX,
            forall|j: int| 0 <= j < i ==> #[trigger] tables@[j]@ == with_frequency(t0[j]@, freq(all, t0[j]@.name) as int),
            forall|j: int| i <= j < t0.len() ==> #[trigger] tables@[j] == t0[j],
            forall|j: int| 0 <= j < t0.len() ==> #[trigger] tables@[j].joined_tables == t0[j].joined_tables,
        decreases tables.len() - i,
    {
        let f = count_owned(return_data, &tables[i].name);
        proof {
            lemma_freq_bound(all, t0[i as int]@.name);
        }
        tables[i].return_frequency = f as i32;
        i = i + 1;
    }
    assert(tables_view(tables@) =~= tables_with_freq(tables_view(t0), all));
    let n = return_data.len();
    let mut keys: Vec<usize> = Vec::new();
    let mut k: usize = 0;
    while k < n
        invariant
            k <= n == return_data.len(),
            all == returns_view(return_data@),
            keys@.len() == k,
            forall|j: int| 0 <= j < k ==> #[trigger] keys@[j] == freq(all, all[j].table),
        decreases n - k,
    {
        let f = count_owned(return_data, &return_data[k].table);
        keys.push(f);
        k = k + 1;
    }
    let mut out: Vec<ReturnData> = Vec::new();
    let mut f: usize = n + 1;
    assert(returns_view(out@) =~= levels_from(all, f as int));
    while f > 0
        invariant
            f <= n + 1,
            n == return_data.len() == all.len() == keys@.len(),
            all == returns_view(return_data@),
            forall|j: int| 0 <= j < n ==> #[trigger] keys@[j] == freq(all, all[j].table),
            returns_view(out@) == levels_from(all, f as int),
        decreases f,
    {
        f = f - 1;
        let ghost base = returns_view(out@);
        let mut j: usize = 0;
        assert(with_freq(all.take(0), all, f as int) =~= Seq::empty());
        assert(returns_view(out@) =~= base + with_freq(all.take(0), all, f as int));
        while j < n
            invariant
                j <= n == return_data.len() == all.len() == keys@.len(),
                f <= n,
                all == returns_view(return_data@),
                forall|m: int| 0 <= m < n ==> #[trigger] keys@[m] == freq(all, all[m].table),
                returns_view(out@) == base + with_freq(all.take(j as int), all, f as int),
            decreases n - j,
        {
            assert(all.take(j + 1).drop_last() =~= all.take(j as int));
            assert(all.take(j + 1).last() == all[j as int]);
            if keys[j] == f {
                let c = copy_return(&return_data[j]);
                assert(c@ == all[j as int]);
                assert(with_freq(all.take(j + 1), all, f as int) == with_freq(all.take(j as int), all, f as int).push(all[j as int]));
                let ghost before = returns_view(out@);
                out.push(c);
                assert(returns_view(out@) =~= before.push(all[j as int]));
                assert(returns_view(out@) =~= base + with_freq(all.take(j + 1), all, f as int));
            }
            j = j + 1;
        }
        assert(all.take(n as int) =~= all);
    }
    (tables, out)
}

proof fn lemma_with_freq_members(rs: Seq<ReturnDataModel>, all: Seq<ReturnDataModel>, f: int)
    ensures
        forall|i: int|
            0 <= i < with_freq(rs, all, f).len() ==> freq(all, #[trigger] with_freq(rs, all, f)[i].table) == f,
    decreases rs.len(),
{
    if rs.len() > 0 {
        lemma_with_freq_members(rs.drop_last(), all, f);
        let prev = with_freq(rs.drop_last(), all, f);
        let w = with_freq(rs, all, f);
        assert forall|i: int| 0 <= i < w.len() implies freq(all, #[trigger] w[i].table) == f by {
            if i < prev.len() {
                assert(w[i] == prev[i]);
            }
        }
    }
}

proof fn lemma_with_freq_add(a: Seq<ReturnDataModel>, b: Seq<ReturnDataModel>, all: Seq<ReturnDataModel>, g: int)
    ensures
        with_freq(a + b, all, g) == with_freq(a, all, g) + with_freq(b, all, g),
    decreases b.len(),
{
    if b.len() == 0 {
        assert(a + b =~= a);
        assert(with_freq(a, all, g) + with_freq(b, all, g) =~= with_freq(a, all, g));
    } else {
        lemma_with_freq_add(a, b.drop_last(), all, g);
        assert((a + b).drop_last() =~= a + b.drop_last());
        assert((a + b).last() == b.last());
        if freq(all, b.last().table) == g {
            assert(with_freq(a + b, all, g) =~= with_freq(a, all, g) + with_freq(b, all, g));
        } else {
            assert(with_freq(a + b, all, g) =~= with_freq(a, all, g) + with_freq(b, all, g));
        }
    }
}

proof fn lemma_with_freq_twice(rs: Seq<ReturnDataModel>, all: Seq<ReturnDataModel>, f: int, g: int)
    ensures
        with_freq(with_freq(rs, all, f), all, g) == if f == g {
            with_freq(rs, all, f)
        } else {
            Seq::empty()
        },
    decreases rs.len(),
{
    if rs.len() > 0 {
        lemma_with_freq_twice(rs.drop_last(), all, f, g);
        let w = with_freq(rs, all, f);
        if freq(all, rs.last().table) == f {
            assert(w.drop_last() =~= with_freq(rs.drop_last(), all, f));
        }
    }
}

proof fn lemma_with_freq_too_high(rs: Seq<ReturnDataModel>, all: Seq<ReturnDataModel>, g: int)
    requires
        g > all.len(),
    ensures
        with_freq(rs, all, g) == Seq::<ReturnDataModel>::empty(),
    decreases rs.len(),
{
    if rs.len() > 0 {
        lemma_freq_bound(all, rs.last().table);
        lemma_with_freq_too_high(rs.drop_last(), all, g);
    }
}

proof fn lemma_levels(all: Seq<ReturnDataModel>, f: int)
    requires
        0 <= f,
    ensures
        forall|i: int|
            0 <= i < levels_from(all, f).len() ==> freq(all, #[trigger] levels_from(all, f)[i].table) >= f,
        forall|i: int, j: int|
            0 <= i < j < levels_from(all, f).len() ==> freq(all, #[trigger] levels_from(all, f)[i].table)
                >= freq(all, #[trigger] levels_from(all, f)[j].table),
        forall|g: int|
            #[trigger] with_freq(levels_from(all, f), all, g) == if g >= f {
                with_freq(all, all, g)
            } else {
                Seq::empty()
            },
    decreases all.len() + 1 - f,
{
    if f > all.len() {
        assert forall|g: int|
            #[trigger] with_freq(levels_from(all, f), all, g) == if g >= f {
                with_freq(all, all, g)
            } else {
                Seq::empty()
            } by {
            if g >= f {
                lemma_with_freq_too_high(all, all, g);
            }
        }
    } else {
        lemma_levels(all, f + 1);
        let up = levels_from(all, f + 1);
        let w = with_freq(all, all, f);
        let lv = levels_from(all, f);
        assert(lv == up + w);
        lemma_with_freq_members(all, all, f);
        assert forall|i: int| 0 <= i < lv.len() implies freq(all, #[trigger] lv[i].table) >= f by {
            if i >= up.len() {
                assert(lv[i] == w[i - up.len()]);
            } else {
                assert(lv[i] == up[i]);
            }
        }
        assert forall|i: int, j: int|
            0 <= i < j < lv.len() implies freq(all, #[trigger] lv[i].table) >= freq(all, #[trigger] lv[j].table) by {
            if j < up.len() {
                assert(lv[i] == up[i] && lv[j] == up[j]);
            } else if i >= up.len() {
                assert(lv[i] == w[i - up.len()] && lv[j] == w[j - up.len()]);
            } else {
                assert(lv[i] == up[i] && lv[j] == w[j - up.len()]);
            }
        }
        assert forall|g: int|
            #[trigger] with_freq(lv, all, g) == if g >= f {
                with_freq(all, all, g)
            } else {
                Seq::empty()
            } by {
            lemma_with_freq_add(up, w, all, g);
            lemma_with_freq_twice(all, all, f, g);
            assert(with_freq(up, all, g) == if g >= f + 1 {
                with_freq(all, all, g)
            } else {
                Seq::empty()
            });
            if g == f {
                assert(with_freq(lv, all, g) =~= with_freq(all, all, g));
            } else if g > f {
                assert(with_freq(lv, all, g) =~= with_freq(all, all, g));
            } else {
                assert(with_freq(lv, all, g) =~= Seq::empty());
            }
        }
    }
}

/// How many times `x` occurs in `rs`.
pub open spec fn occurrences(rs: Seq<ReturnDataModel>, x: ReturnDataModel) -> nat
    decreases rs.len(),
{
    if rs.len() == 0 {
        0
    } else {
        occurrences(rs.drop_last(), x) + if rs.last() == x {
            1nat
        } else {
            0nat
        }
    }
}

proof fn lemma_occurrences_add(a: Seq<ReturnDataModel>, b: Seq<ReturnDataModel>, x: ReturnDataModel)
    ensures
        occurrences(a + b, x) == occurrences(a, x) + occurrences(b, x),
    decreases b.len(),
{
    if b.len() == 0 {
        assert(a + b =~= a);
    } else {
        lemma_occurrences_add(a, b.drop_last(), x);
        assert((a + b).drop_last() =~= a + b.drop_last());
        assert((a + b).last() == b.last());
    }
}

proof fn lemma_occurrences_with_freq(rs: Seq<ReturnDataModel>, all: Seq<ReturnDataModel>, g: int, x: ReturnDataModel)
    ensures
        occurrences(with_freq(rs, all, g), x) == if freq(all, x.table) == g {
            occurrences(rs, x)
        } else {
            0
        },
    decreases rs.len(),
{
    if rs.len() > 0 {
        lemma_occurrences_with_freq(rs.drop_last(), all, g, x);
        if freq(all, rs.last().table) == g {
            let w = with_freq(rs, all, g);
            assert(w.drop_last() =~= with_freq(rs.drop_last(), all, g));
        }
    }
}

proof fn lemma_occurrences_levels(all: Seq<ReturnDataModel>, f: int, x: ReturnDataModel)
    requires
        0 <= f,
    ensures
        occurrences(levels_from(all, f), x) == if freq(all, x.table) >= f {
            occurrences(all, x)
        } else {
            0
        },
    decreases all.len() + 1 - f,
{
    lemma_freq_bound(all, x.table);
    if f <= all.len() {
        lemma_occurrences_levels(all, f + 1, x);
        lemma_occurrences_add(levels_from(all, f + 1), with_freq(all, all, f), x);
        lemma_occurrences_with_freq(all, all, f, x);
    }
}

/// The projections come out as a permutation of those that went in, ordered
/// by descending frequency of their table, and the projections of any one
/// frequency keep their input order.
pub proof fn lemma_frequency_order(all: Seq<ReturnDataModel>)
    ensures
        forall|i: int, j: int|
            0 <= i < j < by_frequency(all).len() ==> freq(all, #[trigger] by_frequency(all)[i].table)
                >= freq(all, #[trigger] by_frequency(all)[j].table),
        forall|f: int| #[trigger] with_freq(by_frequency(all), all, f) == with_freq(all, all, f),
        forall|x: ReturnDataModel| #[trigger] occurrences(by_frequency(all), x) == occurrences(all, x),
{
    lemma_levels(all, 0);
    assert forall|x: ReturnDataModel| #[trigger] occurrences(by_frequency(all), x) == occurrences(all, x) by {
        lemma_occurrences_levels(all, 0, x);
    }
    assert forall|f: int| #[trigger] with_freq(by_frequency(all), all, f) == with_freq(all, all, f) by {
        if f < 0 {
            lemma_with_freq_members(all, all, f);
            assert(with_freq(all, all, f).len() == 0) by {
                if with_freq(all, all, f).len() > 0 {
                    assert(freq(all, with_freq(all, all, f)[0].table) == f);
                }
            }
            assert(with_freq(all, all, f) =~= Seq::empty());
        }
    }
}

} // verus!
