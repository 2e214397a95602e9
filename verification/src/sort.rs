//! Stable sorting by lexicographic keys.
//!
//! A key is a sequence of parts; each part is a string or a number, compared ascending or
//! descending. Strings compare character by character by code point, which is the order of
//! `str`'s `Ord` (UTF-8 keeps code point order). Keys compare part by part; a key that is a
//! proper prefix of another comes first.
use vstd::prelude::*;
use vstd::set_lib::{lemma_int_range, lemma_subset_equality, set_int_range};

verus! {

/// Lexicographic order of character sequences by code point.
pub open spec fn chars_lt(a: Seq<char>, b: Seq<char>) -> bool
    decreases a.len(),
{
    if a.len() == 0 {
        b.len() > 0
    } else if b.len() == 0 {
        false
    } else if a[0] != b[0] {
        (a[0] as int) < (b[0] as int)
    } else {
        chars_lt(a.drop_first(), b.drop_first())
    }
}

/// One part of a sort key.
pub enum KeyPart {
    /// A string, smaller first.
    Asc(Vec<char>),
    /// A string, larger first.
    Desc(Vec<char>),
    /// A number, smaller first.
    AscNum(u64),
    /// A number, larger first.
    DescNum(u64),
}

/// The abstract value of a key part.
pub enum PartView {
    Asc(Seq<char>),
    Desc(Seq<char>),
    AscNum(int),
    DescNum(int),
}

/// The abstract value of a key part.
pub open spec fn part_view(p: KeyPart) -> PartView {
    match p {
        KeyPart::Asc(s) => PartView::Asc(s@),
        KeyPart::Desc(s) => PartView::Desc(s@),
        KeyPart::AscNum(n) => PartView::AscNum(n as int),
        KeyPart::DescNum(n) => PartView::DescNum(n as int),
    }
}

/// The abstract value of a key.
pub open spec fn key_view(k: Vec<KeyPart>) -> Seq<PartView> {
    k@.map_values(|p: KeyPart| part_view(p))
}

/// The abstract values of a list of keys.
pub open spec fn keys_view(ks: Seq<Vec<KeyPart>>) -> Seq<Seq<PartView>> {
    ks.map_values(|k: Vec<KeyPart>| key_view(k))
}

/// Rank of a part's variant, used only between parts of different variants.
pub open spec fn part_tag(p: PartView) -> int {
    match p {
        PartView::Asc(_) => 0,
        PartView::Desc(_) => 1,
        PartView::AscNum(_) => 2,
        PartView::DescNum(_) => 3,
    }
}

/// Order of key parts.
pub open spec fn part_lt(p: PartView, q: PartView) -> bool {
    match (p, q) {
        (PartView::Asc(a), PartView::Asc(b)) => chars_lt(a, b),
        (PartView::Desc(a), PartView::Desc(b)) => chars_lt(b, a),
        (PartView::AscNum(a), PartView::AscNum(b)) => a < b,
        (PartView::DescNum(a), PartView::DescNum(b)) => b < a,
        _ => part_tag(p) < part_tag(q),
    }
}

/// Lexicographic order of keys.
pub open spec fn key_lt(a: Seq<PartView>, b: Seq<PartView>) -> bool
    decreases a.len(),
{
    if a.len() == 0 {
        b.len() > 0
    } else if b.len() == 0 {
        false
    } else if a[0] != b[0] {
        part_lt(a[0], b[0])
    } else {
        key_lt(a.drop_first(), b.drop_first())
    }
}

/// `idx` lists the positions of `keys` in stably sorted order: a permutation of the
/// positions, no key later in the order is smaller than an earlier one, and equal keys keep
/// the order they came in.
pub open spec fn is_stable_sort(keys: Seq<Seq<PartView>>, idx: Seq<int>) -> bool {
    &&& idx.len() == keys.len()
    &&& forall|i: int| 0 <= i < idx.len() ==> 0 <= #[trigger] idx[i] < keys.len()
    &&& forall|i: int, j: int| 0 <= i < j < idx.len() ==> idx[i] != idx[j]
    &&& forall|i: int, j: int|
        0 <= i < j < idx.len() ==> !key_lt(keys[idx[j]], keys[idx[i]])
    &&& forall|i: int, j: int|
        0 <= i < j < idx.len() && keys[idx[i]] == keys[idx[j]] ==> idx[i] < idx[j]
}

/// `chars_lt` is irreflexive.
pub proof fn lemma_chars_lt_irrefl(a: Seq<char>)
    ensures
        !chars_lt(a, a),
    decreases a.len(),
{
    if a.len() > 0 {
        lemma_chars_lt_irrefl(a.drop_first());
    }
}

/// `chars_lt` is transitive.
pub proof fn lemma_chars_lt_trans(a: Seq<char>, b: Seq<char>, c: Seq<char>)
    requires
        chars_lt(a, b),
        chars_lt(b, c),
    ensures
        chars_lt(a, c),
    decreases a.len(),
{
    if a.len() > 0 && b.len() > 0 && c.len() > 0 && a[0] == b[0] && b[0] == c[0] {
        lemma_chars_lt_trans(a.drop_first(), b.drop_first(), c.drop_first());
    }
}

/// `chars_lt` is total on distinct sequences.
pub proof fn lemma_chars_lt_total(a: Seq<char>, b: Seq<char>)
    ensures
        a == b || chars_lt(a, b) || chars_lt(b, a),
    decreases a.len(),
{
    if a.len() > 0 && b.len() > 0 {
        if a[0] == b[0] {
            lemma_chars_lt_total(a.drop_first(), b.drop_first());
            if a.drop_first() == b.drop_first() {
                assert(a =~= seq![a[0]] + a.drop_first());
                assert(b =~= seq![b[0]] + b.drop_first());
            }
        } else {
            assert((a[0] as int) != (b[0] as int));
        }
    } else if a.len() == 0 && b.len() == 0 {
        assert(a =~= b);
    }
}

/// `part_lt` is irreflexive.
pub proof fn lemma_part_lt_irrefl(p: PartView)
    ensures
        !part_lt(p, p),
{
    match p {
        PartView::Asc(a) => lemma_chars_lt_irrefl(a),
        PartView::Desc(a) => lemma_chars_lt_irrefl(a),
        _ => {},
    }
}

/// `part_lt` is transitive.
pub proof fn lemma_part_lt_trans(p: PartView, q: PartView, r: PartView)
    requires
        part_lt(p, q),
        part_lt(q, r),
    ensures
        part_lt(p, r),
{
    match (p, q, r) {
        (PartView::Asc(a), PartView::Asc(b), PartView::Asc(c)) => lemma_chars_lt_trans(a, b, c),
        (PartView::Desc(a), PartView::Desc(b), PartView::Desc(c)) => lemma_chars_lt_trans(c, b, a),
        _ => {},
    }
}

/// `part_lt` is total on distinct parts.
pub proof fn lemma_part_lt_total(p: PartView, q: PartView)
    ensures
        p == q || part_lt(p, q) || part_lt(q, p),
{
    match (p, q) {
        (PartView::Asc(a), PartView::Asc(b)) => lemma_chars_lt_total(a, b),
        (PartView::Desc(a), PartView::Desc(b)) => lemma_chars_lt_total(a, b),
        _ => {},
    }
}

/// `key_lt` is irreflexive.
pub proof fn lemma_key_lt_irrefl(a: Seq<PartView>)
    ensures
        !key_lt(a, a),
    decreases a.len(),
{
    if a.len() > 0 {
        lemma_key_lt_irrefl(a.drop_first());
    }
}

/// `key_lt` is transitive.
pub proof fn lemma_key_lt_trans(a: Seq<PartView>, b: Seq<PartView>, c: Seq<PartView>)
    requires
        key_lt(a, b),
        key_lt(b, c),
    ensures
        key_lt(a, c),
    decreases a.len(),
{
    if a.len() > 0 && b.len() > 0 && c.len() > 0 {
        if a[0] == b[0] && b[0] == c[0] {
            lemma_key_lt_trans(a.drop_first(), b.drop_first(), c.drop_first());
        } else if a[0] != b[0] && b[0] != c[0] {
            lemma_part_lt_trans(a[0], b[0], c[0]);
            if a[0] == c[0] {
                lemma_part_lt_irrefl(a[0]);
            }
        }
    }
}

/// `key_lt` is total on distinct keys.
pub proof fn lemma_key_lt_total(a: Seq<PartView>, b: Seq<PartView>)
    ensures
        a == b || key_lt(a, b) || key_lt(b, a),
    decreases a.len(),
{
    if a.len() > 0 && b.len() > 0 {
        if a[0] == b[0] {
            lemma_key_lt_total(a.drop_first(), b.drop_first());
            if a.drop_first() == b.drop_first() {
                assert(a =~= seq![a[0]] + a.drop_first());
                assert(b =~= seq![b[0]] + b.drop_first());
            }
        } else {
            lemma_part_lt_total(a[0], b[0]);
        }
    } else if a.len() == 0 && b.len() == 0 {
        assert(a =~= b);
    }
}

/// `key_lt` is asymmetric.
pub proof fn lemma_key_lt_asym(a: Seq<PartView>, b: Seq<PartView>)
    requires
        key_lt(a, b),
    ensures
        !key_lt(b, a),
{
    if key_lt(b, a) {
        lemma_key_lt_trans(a, b, a);
        lemma_key_lt_irrefl(a);
    }
}

/// Compare character slices.
pub fn chars_lt_exec(a: &[char], b: &[char]) -> (r: bool)
    ensures
        r == chars_lt(a@, b@),
{
    let mut i: usize = 0;
    assert(a@.skip(0) == a@);
    assert(b@.skip(0) == b@);
    while i < a.len() && i < b.len() && a[i] == b[i]
        invariant
            i <= a@.len(),
            i <= b@.len(),
            chars_lt(a@, b@) == chars_lt(a@.skip(i as int), b@.skip(i as int)),
        decreases a@.len() - i,
    {
        assert(a@.skip(i as int).drop_first() == a@.skip(i + 1));
        assert(b@.skip(i as int).drop_first() == b@.skip(i + 1));
        i = i + 1;
    }
    if i == a.len() {
        i < b.len()
    } else if i == b.len() {
        false
    } else {
        assert(a@.skip(i as int)[0] == a@[i as int]);
        assert(b@.skip(i as int)[0] == b@[i as int]);
        a[i] < b[i]
    }
}

fn part_eq(p: &KeyPart, q: &KeyPart) -> (r: bool)
    ensures
        r == (part_view(*p) == part_view(*q)),
{
    match (p, q) {
        (KeyPart::Asc(a), KeyPart::Asc(b)) => {
            proof {
                lemma_chars_lt_total(a@, b@);
                lemma_chars_lt_irrefl(a@);
            }
            !chars_lt_exec(a.as_slice(), b.as_slice()) && !chars_lt_exec(b.as_slice(), a.as_slice())
        },
        (KeyPart::Desc(a), KeyPart::Desc(b)) => {
            proof {
                lemma_chars_lt_total(a@, b@);
                lemma_chars_lt_irrefl(a@);
            }
            !chars_lt_exec(a.as_slice(), b.as_slice()) && !chars_lt_exec(b.as_slice(), a.as_slice())
        },
        (KeyPart::AscNum(a), KeyPart::AscNum(b)) => *a == *b,
        (KeyPart::DescNum(a), KeyPart::DescNum(b)) => *a == *b,
        _ => false,
    }
}

fn part_lt_exec(p: &KeyPart, q: &KeyPart) -> (r: bool)
    ensures
        r == part_lt(part_view(*p), part_view(*q)),
{
    match (p, q) {
        (KeyPart::Asc(a), KeyPart::Asc(b)) => chars_lt_exec(a.as_slice(), b.as_slice()),
        (KeyPart::Desc(a), KeyPart::Desc(b)) => chars_lt_exec(b.as_slice(), a.as_slice()),
        (KeyPart::AscNum(a), KeyPart::AscNum(b)) => *a < *b,
        (KeyPart::DescNum(a), KeyPart::DescNum(b)) => *b < *a,
        _ => part_tag_exec(p) < part_tag_exec(q),
    }
}

fn part_tag_exec(p: &KeyPart) -> (r: u8)
    ensures
        r as int == part_tag(part_view(*p)),
{
    match p {
        KeyPart::Asc(_) => 0,
        KeyPart::Desc(_) => 1,
        KeyPart::AscNum(_) => 2,
        KeyPart::DescNum(_) => 3,
    }
}

/// Compare keys.
pub fn key_lt_exec(a: &Vec<KeyPart>, b: &Vec<KeyPart>) -> (r: bool)
    ensures
        r == key_lt(key_view(*a), key_view(*b)),
{
    let ghost av = key_view(*a);
    let ghost bv = key_view(*b);
    let mut i: usize = 0;
    assert(av.skip(0) == av);
    assert(bv.skip(0) == bv);
    while i < a.len() && i < b.len() && part_eq(&a[i], &b[i])
        invariant
            av == key_view(*a),
            bv == key_view(*b),
            i <= a@.len(),
            i <= b@.len(),
            key_lt(av, bv) == key_lt(av.skip(i as int), bv.skip(i as int)),
        decreases a@.len() - i,
    {
        assert(av.skip(i as int).drop_first() == av.skip(i + 1));
        assert(bv.skip(i as int).drop_first() == bv.skip(i + 1));
        i = i + 1;
    }
    if i == a.len() {
        i < b.len()
    } else if i == b.len() {
        false
    } else {
        assert(av.skip(i as int)[0] == av[i as int]);
        assert(bv.skip(i as int)[0] == bv[i as int]);
        part_lt_exec(&a[i], &b[i])
    }
}

/// The positions of `keys` in stably sorted order (insertion sort).
pub fn stable_sort(keys: &Vec<Vec<KeyPart>>) -> (idx: Vec<usize>)
    ensures
        is_stable_sort(keys_view(keys@), idx@.map_values(|i: usize| i as int)),
{
    let ghost kv = keys_view(keys@);
    let mut out: Vec<usize> = Vec::new();
    let mut k: usize = 0;
    while k < keys.len()
        invariant
            k <= keys@.len(),
            kv == keys_view(keys@),
            kv.len() == keys@.len(),
            out@.len() == k,
            forall|i: int| 0 <= i < k ==> #[trigger] out@[i] < k,
            forall|i: int, j: int| 0 <= i < j < k ==> out@[i] != out@[j],
            forall|i: int, j: int|
                0 <= i < j < k ==> !key_lt(kv[out@[j] as int], kv[out@[i] as int]),
            forall|i: int, j: int|
                0 <= i < j < k && kv[out@[i] as int] == kv[out@[j] as int] ==> out@[i]
                    < out@[j],
        decreases keys@.len() - k,
    {
        let mut p: usize = 0;
        while p < out.len() && !key_lt_exec(&keys[k], &keys[out[p]])
            invariant
                p <= out@.len(),
                out@.len() == k,
                k < keys@.len(),
                kv == keys_view(keys@),
                forall|i: int| 0 <= i < k ==> #[trigger] out@[i] < k,
                forall|q: int| 0 <= q < p ==> !key_lt(kv[k as int], kv[#[trigger] out@[q] as int]),
            decreases out@.len() - p,
        {
            p = p + 1;
        }
        let ghost old_out = out@;
        proof {
            if p < k {
                assert(key_lt(kv[k as int], kv[old_out[p as int] as int]));
            }
        }
        out.insert(p, k);
        assert forall|i: int, j: int| 0 <= i < j < k + 1 implies !key_lt(
            kv[out@[j] as int],
            kv[out@[i] as int],
        ) by {
            if i < p && j == p {
            } else if i == p && j > p {
                let a = kv[k as int];
                let b = kv[old_out[p as int] as int];
                let c = kv[old_out[j - 1] as int];
                if j - 1 > p {
                    assert(!key_lt(c, b));
                    lemma_key_lt_total(b, c);
                    if key_lt(b, c) {
                        lemma_key_lt_trans(a, b, c);
                    }
                }
                lemma_key_lt_asym(a, c);
            } else if i < p && j > p {
                assert(out@[i] == old_out[i]);
                assert(out@[j] == old_out[j - 1]);
            } else if i > p {
                assert(out@[i] == old_out[i - 1]);
                assert(out@[j] == old_out[j - 1]);
            }
        }
        assert forall|i: int, j: int|
            0 <= i < j < k + 1 && kv[out@[i] as int] == kv[out@[j] as int] implies out@[i]
            < out@[j] by {
            if i == p && j > p {
                let a = kv[k as int];
                let b = kv[old_out[p as int] as int];
                let c = kv[old_out[j - 1] as int];
                if j - 1 > p {
                    assert(!key_lt(c, b));
                    lemma_key_lt_total(b, c);
                    if key_lt(b, c) {
                        lemma_key_lt_trans(a, b, c);
                    }
                }
                lemma_key_lt_irrefl(a);
            } else if i < p && j > p {
                assert(out@[i] == old_out[i]);
                assert(out@[j] == old_out[j - 1]);
            } else if i > p {
                assert(out@[i] == old_out[i - 1]);
                assert(out@[j] == old_out[j - 1]);
            }
        }
        k = k + 1;
    }
    out
}

/// The positions `i < n` that satisfy `pred`, in order.
pub open spec fn positions(n: int, pred: spec_fn(int) -> bool) -> Seq<int>
    decreases n,
{
    if n <= 0 {
        seq![]
    } else {
        let prev = positions(n - 1, pred);
        if pred(n - 1) {
            prev.push(n - 1)
        } else {
            prev
        }
    }
}

/// Positions agree when the predicates agree below `n`.
pub proof fn lemma_positions_ext(n: int, p: spec_fn(int) -> bool, q: spec_fn(int) -> bool)
    requires
        forall|i: int| 0 <= i < n ==> #[trigger] p(i) == q(i),
    ensures
        positions(n, p) == positions(n, q),
    decreases n,
{
    if n > 0 {
        lemma_positions_ext(n - 1, p, q);
    }
}

/// Positions lie in `0..n` and increase.
pub proof fn lemma_positions_bounds(n: int, p: spec_fn(int) -> bool)
    ensures
        forall|j: int| 0 <= j < positions(n, p).len() ==> 0 <= #[trigger] positions(n, p)[j] < n,
        forall|j: int, k: int|
            0 <= j < k < positions(n, p).len() ==> positions(n, p)[j] < positions(n, p)[k],
        positions(n, p).len() <= if n < 0 { 0 } else { n },
    decreases n,
{
    if n > 0 {
        lemma_positions_bounds(n - 1, p);
    }
}

/// `r` holds the first `limit` of `hits`, taken in the stably sorted order of their keys
/// (`keys[k]` is the key of `hits[k]`).
pub open spec fn top_sorted(keys: Seq<Seq<PartView>>, hits: Seq<int>, limit: int, r: Seq<int>) -> bool {
    exists|idx: Seq<int>|
        #[trigger] is_stable_sort(keys, idx) && r.len() == (if limit < hits.len() {
            limit
        } else {
            hits.len() as int
        }) && forall|j: int| 0 <= j < r.len() ==> r[j] == hits[#[trigger] idx[j]]
}

/// Sort `hits` stably by their keys and keep the first `limit`.
pub fn take_sorted(hits: &Vec<usize>, keys: &Vec<Vec<KeyPart>>, limit: usize) -> (r: Vec<usize>)
    requires
        keys@.len() == hits@.len(),
    ensures
        top_sorted(
            keys_view(keys@),
            hits@.map_values(|i: usize| i as int),
            limit as int,
            r@.map_values(|i: usize| i as int),
        ),
{
    let ghost h = hits@.map_values(|i: usize| i as int);
    let idx = stable_sort(keys);
    let ghost iv = idx@.map_values(|x: usize| x as int);
    let m = if limit < hits.len() {
        limit
    } else {
        hits.len()
    };
    let mut out: Vec<usize> = Vec::new();
    let mut k: usize = 0;
    while k < m
        invariant
            h == hits@.map_values(|i: usize| i as int),
            iv == idx@.map_values(|x: usize| x as int),
            is_stable_sort(keys_view(keys@), iv),
            keys_view(keys@).len() == hits@.len(),
            m <= hits@.len(),
            k <= m,
            out@.len() == k,
            forall|q: int| 0 <= q < k ==> out@[q] as int == h[#[trigger] iv[q]],
        decreases m - k,
    {
        assert(0 <= iv[k as int] < hits@.len());
        let p = idx[k];
        out.push(hits[p]);
        k = k + 1;
    }
    let ghost ov = out@.map_values(|x: usize| x as int);
    assert(forall|q: int| 0 <= q < ov.len() ==> ov[q] == h[#[trigger] iv[q]]);
    out
}

/// Law: a stable sort order lists every position exactly once, so it is a permutation of
/// the positions.
pub proof fn law_stable_sort_lists_every_position(keys: Seq<Seq<PartView>>, idx: Seq<int>)
    requires
        is_stable_sort(keys, idx),
    ensures
        forall|p: int| 0 <= p < keys.len() ==> #[trigger] idx.contains(p),
{
    let n = keys.len() as int;
    assert(idx.no_duplicates()) by {
        assert forall|i: int, j: int| 0 <= i < idx.len() && 0 <= j < idx.len() && i != j implies idx[i]
            != idx[j] by {
            if j < i {
                assert(idx[j] != idx[i]);
            }
        }
    }
    idx.unique_seq_to_set();
    lemma_int_range(0, n);
    assert(idx.to_set().subset_of(set_int_range(0, n)));
    lemma_subset_equality(idx.to_set(), set_int_range(0, n));
    assert forall|p: int| 0 <= p < n implies #[trigger] idx.contains(p) by {
        assert(set_int_range(0, n).contains(p));
        assert(idx.to_set().contains(p));
    }
}

/// Law: of the hits sorted stably by key, those past the first `m` have no smaller key than
/// any of the first `m`: a listing cut to its limit leaves out no hit that sorts before one
/// it keeps.
pub proof fn law_sorted_prefix_keeps_smallest(keys: Seq<Seq<PartView>>, idx: Seq<int>, m: int)
    requires
        is_stable_sort(keys, idx),
        0 <= m <= idx.len(),
    ensures
        forall|q: int, j: int|
            0 <= q < keys.len() && 0 <= j < m && !idx.take(m).contains(q) ==> !key_lt(
                #[trigger] keys[q],
                #[trigger] keys[idx[j]],
            ),
{
    law_stable_sort_lists_every_position(keys, idx);
    assert forall|q: int, j: int|
        0 <= q < keys.len() && 0 <= j < m && !idx.take(m).contains(q) implies !key_lt(
            #[trigger] keys[q],
            #[trigger] keys[idx[j]],
        ) by {
        assert(idx.contains(q));
        let t = choose|t: int| 0 <= t < idx.len() && idx[t] == q;
        if t < m {
            assert(idx.take(m)[t] == q);
        }
    }
}

/// Every position listed is below `n` and satisfies the predicate.
pub proof fn lemma_positions_satisfy(n: int, p: spec_fn(int) -> bool)
    ensures
        forall|j: int|
            0 <= j < positions(n, p).len() ==> 0 <= #[trigger] positions(n, p)[j] < n && p(
                positions(n, p)[j],
            ),
    decreases n,
{
    if n > 0 {
        lemma_positions_satisfy(n - 1, p);
        let prev = positions(n - 1, p);
        assert forall|j: int| 0 <= j < positions(n, p).len() implies 0 <= #[trigger] positions(n, p)[j]
            < n && p(positions(n, p)[j]) by {
            if j < prev.len() {
                assert(positions(n, p)[j] == prev[j]);
            }
        }
    }
}

/// What `top_sorted` keeps are hits.
pub proof fn lemma_top_sorted_from_hits(keys: Seq<Seq<PartView>>, hits: Seq<int>, limit: int, r: Seq<int>)
    requires
        top_sorted(keys, hits, limit, r),
        keys.len() == hits.len(),
    ensures
        forall|j: int| 0 <= j < r.len() ==> hits.contains(#[trigger] r[j]),
{
    let idx = choose|idx: Seq<int>|
        #[trigger] is_stable_sort(keys, idx) && r.len() == (if limit < hits.len() {
            limit
        } else {
            hits.len() as int
        }) && forall|j: int| 0 <= j < r.len() ==> r[j] == hits[#[trigger] idx[j]];
    assert forall|j: int| 0 <= j < r.len() implies hits.contains(#[trigger] r[j]) by {
        assert(0 <= idx[j] < hits.len());
        assert(r[j] == hits[idx[j]]);
    }
}

/// Every position below `n` that satisfies the predicate is listed.
pub proof fn lemma_positions_complete(n: int, p: spec_fn(int) -> bool)
    ensures
        forall|i: int| 0 <= i < n && #[trigger] p(i) ==> positions(n, p).contains(i),
    decreases n,
{
    if n > 0 {
        lemma_positions_complete(n - 1, p);
        let prev = positions(n - 1, p);
        assert forall|i: int| 0 <= i < n && #[trigger] p(i) implies positions(n, p).contains(i) by {
            if i < n - 1 {
                assert(prev.contains(i));
                let k = choose|k: int| 0 <= k < prev.len() && prev[k] == i;
                if p(n - 1) {
                    assert(positions(n, p)[k] == i);
                }
            } else {
                assert(positions(n, p)[prev.len() as int] == i);
            }
        }
    }
}

/// When the limit leaves room for every hit, `top_sorted` keeps every hit.
pub proof fn lemma_top_sorted_keeps_all(keys: Seq<Seq<PartView>>, hits: Seq<int>, limit: int, r: Seq<int>)
    requires
        top_sorted(keys, hits, limit, r),
        keys.len() == hits.len(),
        hits.len() <= limit,
    ensures
        forall|k: int| 0 <= k < hits.len() ==> r.contains(#[trigger] hits[k]),
{
    let idx = choose|idx: Seq<int>|
        #[trigger] is_stable_sort(keys, idx) && r.len() == (if limit < hits.len() {
            limit
        } else {
            hits.len() as int
        }) && forall|j: int| 0 <= j < r.len() ==> r[j] == hits[#[trigger] idx[j]];
    law_stable_sort_lists_every_position(keys, idx);
    assert forall|k: int| 0 <= k < hits.len() implies r.contains(#[trigger] hits[k]) by {
        assert(idx.contains(k));
        let j = choose|j: int| 0 <= j < idx.len() && idx[j] == k;
        assert(r[j] == hits[k]);
    }
}

} // verus!
