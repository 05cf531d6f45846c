//! Character-sequence helpers used by the analysis passes.
//!
//! Every helper works on `Vec<char>` and is specified over `Seq<char>`.
use vstd::prelude::*;

verus! {

/// The characters with the Unicode `White_Space` property: U+0009 to U+000D,
/// U+0020, U+0085, U+00A0, U+1680, U+2000 to U+200A, U+2028, U+2029, U+202F,
/// U+205F and U+3000.
pub open spec fn white_space(c: char) -> bool {
    let u = c as u32;
    (0x9 <= u <= 0xd) || u == 0x20 || u == 0x85 || u == 0xa0 || u == 0x1680 || (0x2000 <= u
        <= 0x200a) || u == 0x2028 || u == 0x2029 || u == 0x202f || u == 0x205f || u == 0x3000
}

/// Relies on std's `char::is_whitespace`, which holds of exactly the
/// characters with the Unicode `White_Space` property.
#[verifier::external_body]
fn is_white(c: char) -> (r: bool)
    ensures
        r == white_space(c),
{
    c.is_whitespace()
}

/// The characters of `s`, in order.
pub fn chars_of(s: &str) -> (r: Vec<char>)
    ensures
        r@ == s@,
{
    let mut r: Vec<char> = Vec::new();
    for c in it: s.chars()
        invariant
            r@ == it.seq().take(it.index() as int),
            it.seq() == s@,
    {
        r.push(c);
    }
    r
}

/// Relies on std's `FromIterator<&char>` for `String`: the string holds the
/// characters in order.
#[verifier::external_body]
pub fn string_of(cs: &Vec<char>) -> (r: String)
    ensures
        r@ == cs@,
{
    String::from_iter(cs)
}

/// `s` with every occurrence of `c` left out.
pub open spec fn removed(s: Seq<char>, c: char) -> Seq<char>
    decreases s.len(),
{
    if s.len() == 0 {
        s
    } else if s.last() == c {
        removed(s.drop_last(), c)
    } else {
        removed(s.drop_last(), c).push(s.last())
    }
}

/// `s` with every white-space character left out.
pub open spec fn unwhite(s: Seq<char>) -> Seq<char>
    decreases s.len(),
{
    if s.len() == 0 {
        s
    } else if white_space(s.last()) {
        unwhite(s.drop_last())
    } else {
        unwhite(s.drop_last()).push(s.last())
    }
}

/// `p` occurs in `s` at offset `i`.
pub open spec fn is_match_at(s: Seq<char>, p: Seq<char>, i: int) -> bool {
    0 <= i && i + p.len() <= s.len() && s.subrange(i, i + p.len()) == p
}

/// `p` occurs somewhere in `s`.
pub open spec fn contains(s: Seq<char>, p: Seq<char>) -> bool {
    exists|i: int| is_match_at(s, p, i)
}

/// `s` begins with `p`.
pub open spec fn starts_with(s: Seq<char>, p: Seq<char>) -> bool {
    is_match_at(s, p, 0)
}

/// `i` is the offset of the first occurrence of `p` in `s`.
pub open spec fn is_first_match(s: Seq<char>, p: Seq<char>, i: int) -> bool {
    is_match_at(s, p, i) && forall|j: int| 0 <= j < i ==> !is_match_at(s, p, j)
}

/// The offset of the first occurrence of `p` in `s`, if any.
pub open spec fn find(s: Seq<char>, p: Seq<char>) -> Option<int> {
    if contains(s, p) {
        Some(choose|i: int| is_first_match(s, p, i))
    } else {
        None
    }
}

/// The position of the first `c` in `s`, if any.
pub open spec fn first_pos(s: Seq<char>, c: char) -> Option<int> {
    find(s, seq![c])
}

/// The position of the last `c` in `s`, if any.
pub open spec fn last_pos(s: Seq<char>, c: char) -> Option<int>
    decreases s.len(),
{
    if s.len() == 0 {
        None
    } else if s.last() == c {
        Some(s.len() - 1)
    } else {
        last_pos(s.drop_last(), c)
    }
}

/// The text of `s` before its first `c` (all of `s` where there is none): the
/// first piece of splitting `s` at `c`.
pub open spec fn upto_char(s: Seq<char>, c: char) -> Seq<char> {
    match first_pos(s, c) {
        Some(p) => s.take(p),
        None => s,
    }
}

/// The text of `s` after its first `c` (empty where there is none).
pub open spec fn after_char(s: Seq<char>, c: char) -> Seq<char> {
    match first_pos(s, c) {
        Some(p) => s.skip(p + 1),
        None => Seq::empty(),
    }
}

/// The second piece of splitting `s` at `c`: the text between its first and
/// second `c`.
pub open spec fn second_piece(s: Seq<char>, c: char) -> Seq<char> {
    upto_char(after_char(s, c), c)
}

/// `s` without its leading white space.
pub open spec fn trim_start(s: Seq<char>) -> Seq<char>
    decreases s.len(),
{
    if s.len() > 0 && white_space(s[0]) {
        trim_start(s.drop_first())
    } else {
        s
    }
}

/// `s` without its trailing white space.
pub open spec fn trim_end(s: Seq<char>) -> Seq<char>
    decreases s.len(),
{
    if s.len() > 0 && white_space(s.last()) {
        trim_end(s.drop_last())
    } else {
        s
    }
}

/// `s` without white space at either end.
pub open spec fn trim(s: Seq<char>) -> Seq<char> {
    trim_end(trim_start(s))
}

/// The pieces of `s` between occurrences of `c`, empty pieces included:
/// `"a  b"` split at `' '` is `["a", "", "b"]`, and `""` gives `[""]`.
pub open spec fn split_char(s: Seq<char>, c: char) -> Seq<Seq<char>>
    decreases s.len(),
{
    if s.len() == 0 {
        seq![Seq::empty()]
    } else {
        let pieces = split_char(s.drop_last(), c);
        if s.last() == c {
            pieces.push(Seq::empty())
        } else {
            pieces.update(pieces.len() - 1, pieces.last().push(s.last()))
        }
    }
}

/// `s` with every occurrence of `p` cut out, scanning left to right.
pub open spec fn cut(s: Seq<char>, p: Seq<char>) -> Seq<char>
    recommends
        p.len() > 0,
    decreases s.len(),
{
    if s.len() == 0 || p.len() == 0 {
        s
    } else if starts_with(s, p) {
        cut(s.skip(p.len() as int), p)
    } else {
        seq![s[0]] + cut(s.drop_first(), p)
    }
}

/// The pieces joined, with `c` between each two.
pub open spec fn join_with(pieces: Seq<Seq<char>>, c: char) -> Seq<char>
    decreases pieces.len(),
{
    if pieces.len() == 0 {
        Seq::empty()
    } else if pieces.len() == 1 {
        pieces[0]
    } else {
        join_with(pieces.drop_last(), c).push(c) + pieces.last()
    }
}

/// An executable position and a mathematical one denote the same place.
pub open spec fn same_pos(r: Option<usize>, o: Option<int>) -> bool {
    match r {
        Some(i) => o == Some(i as int),
        None => o is None,
    }
}

proof fn lemma_split_char_nonempty(s: Seq<char>, c: char)
    ensures
        split_char(s, c).len() >= 1,
    decreases s.len(),
{
    if s.len() > 0 {
        lemma_split_char_nonempty(s.drop_last(), c);
    }
}

proof fn lemma_first_match_unique(s: Seq<char>, p: Seq<char>, i: int)
    requires
        is_first_match(s, p, i),
    ensures
        find(s, p) == Some(i),
{
    let k = choose|k: int| is_first_match(s, p, k);
    assert(is_first_match(s, p, k));
    if k < i {
        assert(!is_match_at(s, p, k));
    } else if i < k {
        assert(!is_match_at(s, p, i));
    }
}

/// Whether `p` occurs in `s` at offset `i`.
pub fn match_at(s: &Vec<char>, p: &Vec<char>, i: usize) -> (r: bool)
    ensures
        r == is_match_at(s@, p@, i as int),
{
    if p.len() > s.len() || i > s.len() - p.len() {
        return false;
    }
    let mut k: usize = 0;
    while k < p.len()
        invariant
            i + p.len() <= s.len(),
            k <= p.len(),
            forall|j: int| 0 <= j < k ==> s@[i + j] == p@[j],
        decreases p.len() - k,
    {
        if s[i + k] != p[k] {
            assert(s@.subrange(i as int, i + p.len())[k as int] != p@[k as int]);
            return false;
        }
        k = k + 1;
    }
    assert(s@.subrange(i as int, i + p.len()) =~= p@);
    true
}

/// The offset of the first occurrence of `p` in `s`.
pub fn find_in(s: &Vec<char>, p: &Vec<char>) -> (r: Option<usize>)
    ensures
        same_pos(r, find(s@, p@)),
        r matches Some(i) ==> is_first_match(s@, p@, i as int),
{
    let mut i: usize = 0;
    loop
        invariant
            i <= s.len(),
            forall|j: int| 0 <= j < i ==> !is_match_at(s@, p@, j),
        ensures
            forall|j: int| 0 <= j <= s.len() ==> !is_match_at(s@, p@, j),
        decreases s.len() - i,
    {
        if match_at(s, p, i) {
            proof {
                lemma_first_match_unique(s@, p@, i as int);
            }
            return Some(i);
        }
        if i == s.len() {
            break;
        }
        i = i + 1;
    }
    assert(!contains(s@, p@)) by {
        if contains(s@, p@) {
            let j = choose|j: int| is_match_at(s@, p@, j);
            assert(j <= s@.len());
        }
    }
    None
}

/// Whether `p` occurs in `s`.
pub fn has(s: &Vec<char>, p: &Vec<char>) -> (r: bool)
    ensures
        r == contains(s@, p@),
{
    let f = find_in(s, p);
    proof {
        if f is Some {
            assert(is_match_at(s@, p@, f->0 as int));
        }
    }
    f.is_some()
}

/// Whether `s` begins with `p`.
pub fn begins_with(s: &Vec<char>, p: &Vec<char>) -> (r: bool)
    ensures
        r == starts_with(s@, p@),
{
    match_at(s, p, 0)
}

/// Whether `s` holds the character `c`.
pub fn has_char(s: &Vec<char>, c: char) -> (r: bool)
    ensures
        r == contains(s@, seq![c]),
{
    let p = vec![c];
    assert(p@ =~= seq![c]);
    has(s, &p)
}

/// The position of the first `c` in `s`.
pub fn first_pos_of(s: &Vec<char>, c: char) -> (r: Option<usize>)
    ensures
        same_pos(r, first_pos(s@, c)),
        r matches Some(i) ==> i < s@.len() && s@[i as int] == c,
{
    let p = vec![c];
    assert(p@ =~= seq![c]);
    let r = find_in(s, &p);
    proof {
        if r is Some {
            assert(s@.subrange(r->0 as int, r->0 + 1)[0] == c);
        }
    }
    r
}

/// The position of the last `c` in `s`.
pub fn last_pos_of(s: &Vec<char>, c: char) -> (r: Option<usize>)
    ensures
        same_pos(r, last_pos(s@, c)),
        r matches Some(i) ==> i < s@.len(),
{
    let mut n: usize = s.len();
    assert(s@.take(n as int) =~= s@);
    while n > 0
        invariant
            n <= s.len(),
            last_pos(s@, c) == last_pos(s@.take(n as int), c),
        decreases n,
    {
        let ghost t = s@.take(n as int);
        assert(t.drop_last() =~= s@.take(n - 1));
        if s[n - 1] == c {
            return Some(n - 1);
        }
        n = n - 1;
    }
    None
}

/// `s[from..to]`.
pub fn slice(s: &Vec<char>, from: usize, to: usize) -> (r: Vec<char>)
    requires
        from <= to <= s.len(),
    ensures
        r@ == s@.subrange(from as int, to as int),
{
    let mut r: Vec<char> = Vec::new();
    let mut i: usize = from;
    while i < to
        invariant
            from <= i <= to <= s.len(),
            r@ == s@.subrange(from as int, i as int),
        decreases to - i,
    {
        r.push(s[i]);
        i = i + 1;
        assert(r@ =~= s@.subrange(from as int, i as int));
    }
    r
}

/// `s` without its first `n` characters.
pub fn skip_chars(s: &Vec<char>, n: usize) -> (r: Vec<char>)
    requires
        n <= s.len(),
    ensures
        r@ == s@.skip(n as int),
{
    slice(s, n, s.len())
}

/// `s` with every `c` left out.
pub fn remove_char(s: &Vec<char>, c: char) -> (r: Vec<char>)
    ensures
        r@ == removed(s@, c),
{
    let mut r: Vec<char> = Vec::new();
    let mut i: usize = 0;
    while i < s.len()
        invariant
            i <= s.len(),
            r@ == removed(s@.take(i as int), c),
        decreases s.len() - i,
    {
        assert(s@.take(i + 1).drop_last() =~= s@.take(i as int));
        if s[i] != c {
            r.push(s[i]);
        }
        i = i + 1;
    }
    assert(s@.take(s.len() as int) =~= s@);
    r
}

/// `s` without its leading white space.
pub fn trim_start_of(s: &Vec<char>) -> (r: Vec<char>)
    ensures
        r@ == trim_start(s@),
{
    let mut i: usize = 0;
    assert(s@.skip(0) =~= s@);
    while i < s.len() && is_white(s[i])
        invariant
            i <= s.len(),
            trim_start(s@) == trim_start(s@.skip(i as int)),
        decreases s.len() - i,
    {
        assert(s@.skip(i as int).drop_first() =~= s@.skip(i + 1));
        i = i + 1;
    }
    skip_chars(s, i)
}

/// `s` without its trailing white space.
pub fn trim_end_of(s: &Vec<char>) -> (r: Vec<char>)
    ensures
        r@ == trim_end(s@),
{
    let mut n: usize = s.len();
    assert(s@.take(n as int) =~= s@);
    while n > 0 && is_white(s[n - 1])
        invariant
            n <= s.len(),
            trim_end(s@) == trim_end(s@.take(n as int)),
        decreases n,
    {
        assert(s@.take(n as int).drop_last() =~= s@.take(n - 1));
        n = n - 1;
    }
    assert(s@.take(n as int) =~= s@.subrange(0, n as int));
    slice(s, 0, n)
}

/// `s` without white space at either end.
pub fn trim_of(s: &Vec<char>) -> (r: Vec<char>)
    ensures
        r@ == trim(s@),
{
    let t = trim_start_of(s);
    trim_end_of(&t)
}

/// The pieces of `s` between occurrences of `c`.
pub fn split_at_char(s: &Vec<char>, c: char) -> (r: Vec<Vec<char>>)
    ensures
        r@.len() == split_char(s@, c).len(),
        r@.len() >= 1,
        forall|k: int| 0 <= k < r@.len() ==> #[trigger] r@[k]@ == split_char(s@, c)[k],
{
    let mut done: Vec<Vec<char>> = Vec::new();
    let mut cur: Vec<char> = Vec::new();
    let mut i: usize = 0;
    while i < s.len()
        invariant
            i <= s.len(),
            done@.len() + 1 == split_char(s@.take(i as int), c).len(),
            forall|k: int|
                0 <= k < done@.len() ==> #[trigger] done@[k]@ == split_char(
                    s@.take(i as int),
                    c,
                )[k],
            cur@ == split_char(s@.take(i as int), c).last(),
        decreases s.len() - i,
    {
        proof {
            assert(s@.take(i + 1).drop_last() =~= s@.take(i as int));
            lemma_split_char_nonempty(s@.take(i as int), c);
        }
        if s[i] == c {
            let piece = cur;
            done.push(piece);
            cur = Vec::new();
        } else {
            cur.push(s[i]);
        }
        i = i + 1;
    }
    assert(s@.take(s.len() as int) =~= s@);
    proof {
        lemma_split_char_nonempty(s@, c);
    }
    done.push(cur);
    done
}

/// `s` with every occurrence of `p` cut out.
pub fn cut_out(s: &Vec<char>, p: &Vec<char>) -> (r: Vec<char>)
    requires
        p.len() > 0,
    ensures
        r@ == cut(s@, p@),
{
    let mut r: Vec<char> = Vec::new();
    let mut i: usize = 0;
    assert(r@ + cut(s@.skip(0), p@) =~= cut(s@, p@)) by {
        assert(s@.skip(0) =~= s@);
    }
    while i < s.len()
        invariant
            i <= s.len(),
            p.len() > 0,
            r@ + cut(s@.skip(i as int), p@) == cut(s@, p@),
        decreases s.len() - i,
    {
        let ghost rest = s@.skip(i as int);
        if match_at(s, p, i) {
            assert(is_match_at(rest, p@, 0)) by {
                assert(rest.subrange(0, p@.len() as int) =~= s@.subrange(i as int, i + p@.len()));
            }
            assert(rest.skip(p@.len() as int) =~= s@.skip(i + p.len()));
            i = i + p.len();
        } else {
            assert(!is_match_at(rest, p@, 0)) by {
                if is_match_at(rest, p@, 0) {
                    assert(rest.subrange(0, p@.len() as int) =~= s@.subrange(
                        i as int,
                        i + p@.len(),
                    ));
                }
            }
            assert(rest.drop_first() =~= s@.skip(i + 1));
            assert(r@.push(s@[i as int]) + cut(s@.skip(i + 1), p@) =~= r@ + (seq![rest[0]] + cut(
                rest.drop_first(),
                p@,
            )));
            r.push(s[i]);
            i = i + 1;
        }
    }
    assert(r@ + cut(s@.skip(i as int), p@) =~= r@);
    r
}

/// The pieces joined, with `c` between each two.
pub fn join_pieces(pieces: &Vec<Vec<char>>, c: char) -> (r: Vec<char>)
    ensures
        r@ == join_with(char_views(pieces@), c),
{
    let ghost ps = char_views(pieces@);
    let mut r: Vec<char> = Vec::new();
    let mut k: usize = 0;
    while k < pieces.len()
        invariant
            k <= pieces.len(),
            ps == char_views(pieces@),
            r@ == join_with(ps.take(k as int), c),
        decreases pieces.len() - k,
    {
        assert(ps.take(k + 1).drop_last() =~= ps.take(k as int));
        if k > 0 {
            r.push(c);
        }
        let mut j: usize = 0;
        let ghost before = r@;
        while j < pieces[k].len()
            invariant
                k < pieces.len(),
                j <= pieces@[k as int].len(),
                r@ == before + pieces@[k as int]@.take(j as int),
            decreases pieces@[k as int].len() - j,
        {
            r.push(pieces[k][j]);
            j = j + 1;
            assert(r@ =~= before + pieces@[k as int]@.take(j as int));
        }
        assert(pieces@[k as int]@.take(j as int) =~= pieces@[k as int]@);
        proof {
            if k == 0 {
                assert(before =~= Seq::<char>::empty());
                assert(r@ =~= ps.take(1)[0]);
            }
        }
        k = k + 1;
    }
    assert(ps.take(pieces.len() as int) =~= ps);
    r
}

/// The views of a sequence of character vectors.
pub open spec fn char_views(v: Seq<Vec<char>>) -> Seq<Seq<char>> {
    v.map_values(|w: Vec<char>| w@)
}

/// The index of the first keyword, from `k` on, that begins `s`.
pub open spec fn first_keyword(s: Seq<char>, kws: Seq<Seq<char>>, k: int) -> Option<int>
    decreases kws.len() - k,
{
    if k < 0 || k >= kws.len() {
        None
    } else if starts_with(s, kws[k]) {
        Some(k)
    } else {
        first_keyword(s, kws, k + 1)
    }
}

/// Whether two character vectors hold the same characters.
pub fn same_chars(a: &Vec<char>, b: &Vec<char>) -> (r: bool)
    ensures
        r == (a@ == b@),
{
    if a.len() != b.len() {
        return false;
    }
    let mut k: usize = 0;
    while k < a.len()
        invariant
            a.len() == b.len(),
            k <= a.len(),
            forall|j: int| 0 <= j < k ==> a@[j] == b@[j],
        decreases a.len() - k,
    {
        if a[k] != b[k] {
            return false;
        }
        k = k + 1;
    }
    assert(a@ =~= b@);
    true
}

/// The index of the first keyword of `kws` that begins `s`.
pub fn first_keyword_of(s: &Vec<char>, kws: &Vec<Vec<char>>) -> (r: Option<usize>)
    ensures
        same_pos(r, first_keyword(s@, char_views(kws@), 0)),
        r matches Some(k) ==> k < kws@.len() && starts_with(s@, kws@[k as int]@),
{
    let ghost kv = char_views(kws@);
    let mut k: usize = 0;
    while k < kws.len()
        invariant
            k <= kws.len(),
            kv == char_views(kws@),
            first_keyword(s@, kv, 0) == first_keyword(s@, kv, k as int),
        decreases kws.len() - k,
    {
        if begins_with(s, &kws[k]) {
            return Some(k);
        }
        k = k + 1;
    }
    None
}

/// A copy of `v`.
pub fn copy_chars(v: &Vec<char>) -> (r: Vec<char>)
    ensures
        r@ == v@,
{
    let r = slice(v, 0, v.len());
    assert(v@.subrange(0, v@.len() as int) =~= v@);
    r
}

/// The text of `s` before its first `c`.
pub fn upto_char_of(s: &Vec<char>, c: char) -> (r: Vec<char>)
    ensures
        r@ == upto_char(s@, c),
{
    match first_pos_of(s, c) {
        Some(p) => slice(s, 0, p),
        None => copy_chars(s),
    }
}

/// The text of `s` after its first `c`.
pub fn after_char_of(s: &Vec<char>, c: char) -> (r: Vec<char>)
    ensures
        r@ == after_char(s@, c),
{
    let r = first_pos_of(s, c);
    match r {
        Some(p) => {
            assert(p < s.len());
            skip_chars(s, p + 1)
        },
        None => Vec::new(),
    }
}

/// The text between the first and second `c` of `s`.
pub fn second_piece_of(s: &Vec<char>, c: char) -> (r: Vec<char>)
    ensures
        r@ == second_piece(s@, c),
{
    let a = after_char_of(s, c);
    upto_char_of(&a, c)
}

/// `s` with every white-space character left out.
pub fn remove_white(s: &Vec<char>) -> (r: Vec<char>)
    ensures
        r@ == unwhite(s@),
{
    let mut r: Vec<char> = Vec::new();
    let mut i: usize = 0;
    while i < s.len()
        invariant
            i <= s.len(),
            r@ == unwhite(s@.take(i as int)),
        decreases s.len() - i,
    {
        assert(s@.take(i + 1).drop_last() =~= s@.take(i as int));
        if !is_white(s[i]) {
            r.push(s[i]);
        }
        i = i + 1;
    }
    assert(s@.take(s.len() as int) =~= s@);
    r
}

} // verus!
