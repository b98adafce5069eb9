//! Sorting by an order that a comparison function decides: a stable insertion
//! sort, stated as a function on sequences.
use crate::text::{compare_texts, lex_sign, str_to_chars, texts_of};
use vstd::multiset::Multiset;
use vstd::prelude::*;

verus! {

/// Where `x` goes into `out`, looking from `from` on: before the first
/// element that `x` stands before or at the place of, or at the end.
pub open spec fn insert_pos<T>(out: Seq<T>, x: T, rel: spec_fn(T, T) -> bool, from: int) -> int
    decreases out.len() - from,
{
    if from < 0 || from >= out.len() || rel(x, out[from]) {
        from
    } else {
        insert_pos(out, x, rel, from + 1)
    }
}

/// The elements of `s` in the order `rel`. Each element is put into the
/// sorted rest before the first one that it stands before or at the place
/// of, so elements that the order does not tell apart keep their order.
pub open spec fn sort_of<T>(s: Seq<T>, rel: spec_fn(T, T) -> bool) -> Seq<T>
    decreases s.len(),
{
    if s.len() == 0 {
        Seq::<T>::empty()
    } else {
        let rest = sort_of(s.drop_first(), rel);
        rest.insert(insert_pos(rest, s[0], rel, 0), s[0])
    }
}

/// Whether each element of `s` stands before every later one, or at its
/// place, in the order `rel`.
pub open spec fn is_sorted<T>(s: Seq<T>, rel: spec_fn(T, T) -> bool) -> bool {
    forall|i: int, j: int| 0 <= i < j < s.len() ==> rel(s[i], s[j])
}

/// Whether of any two elements one stands before the other or at its place.
pub open spec fn is_total<T>(rel: spec_fn(T, T) -> bool) -> bool {
    forall|a: T, b: T| #[trigger] rel(a, b) || rel(b, a)
}

/// Whether what stands before an element stands before all that the element
/// stands before.
pub open spec fn is_transitive<T>(rel: spec_fn(T, T) -> bool) -> bool {
    forall|a: T, b: T, c: T| #[trigger] rel(a, b) && #[trigger] rel(b, c) ==> rel(a, c)
}

/// What `insert_pos` returns.
pub proof fn lemma_insert_pos<T>(out: Seq<T>, x: T, rel: spec_fn(T, T) -> bool, from: int)
    requires
        0 <= from <= out.len(),
    ensures
        from <= insert_pos(out, x, rel, from) <= out.len(),
        insert_pos(out, x, rel, from) < out.len() ==> rel(x, out[insert_pos(out, x, rel, from)]),
        forall|k: int| from <= k < insert_pos(out, x, rel, from) ==> !rel(x, #[trigger] out[k]),
    decreases out.len() - from,
{
    if from < out.len() && !rel(x, out[from]) {
        lemma_insert_pos(out, x, rel, from + 1);
    }
}

/// A sequence without elements holds nothing.
proof fn lemma_empty_to_multiset<T>(s: Seq<T>)
    requires
        s.len() == 0,
    ensures
        s.to_multiset() == Multiset::<T>::empty(),
{
    broadcast use vstd::multiset::group_multiset_axioms;

    assert forall|a: T| s.to_multiset().count(a) == 0 by {
        vstd::seq_lib::to_multiset_contains(s, a);
    }
    assert(s.to_multiset() =~= Multiset::<T>::empty());
}

/// Sorting keeps the elements, each as often as it was there, and the
/// number of them.
pub proof fn lemma_sort_of_permutes<T>(s: Seq<T>, rel: spec_fn(T, T) -> bool)
    ensures
        sort_of(s, rel).to_multiset() == s.to_multiset(),
        sort_of(s, rel).len() == s.len(),
    decreases s.len(),
{
    broadcast use vstd::multiset::group_multiset_axioms;

    if s.len() == 0 {
        lemma_empty_to_multiset(s);
        lemma_empty_to_multiset(sort_of(s, rel));
    } else {
        let tail = s.drop_first();
        let rest = sort_of(tail, rel);
        lemma_sort_of_permutes(tail, rel);
        lemma_insert_pos(rest, s[0], rel, 0);
        let p = insert_pos(rest, s[0], rel, 0);
        vstd::seq_lib::to_multiset_insert(rest, p, s[0]);
        vstd::seq_lib::to_multiset_insert(tail, 0, s[0]);
        assert(tail.insert(0, s[0]) =~= s);
    }
}

/// In a total and transitive order the sorted sequence is sorted.
pub proof fn lemma_sort_of_sorted<T>(s: Seq<T>, rel: spec_fn(T, T) -> bool)
    requires
        is_total(rel),
        is_transitive(rel),
    ensures
        is_sorted(sort_of(s, rel), rel),
    decreases s.len(),
{
    if s.len() > 0 {
        let x = s[0];
        let rest = sort_of(s.drop_first(), rel);
        lemma_sort_of_sorted(s.drop_first(), rel);
        lemma_insert_pos(rest, x, rel, 0);
        let p = insert_pos(rest, x, rel, 0);
        let out = rest.insert(p, x);
        assert forall|i: int, j: int| 0 <= i < j < out.len() implies rel(out[i], out[j]) by {
            if j < p {
                assert(out[i] == rest[i] && out[j] == rest[j]);
            } else if j == p {
                assert(out[i] == rest[i]);
                assert(!rel(x, rest[i]));
                assert(rel(x, rest[i]) || rel(rest[i], x));
            } else if i < p {
                assert(out[i] == rest[i] && out[j] == rest[j - 1]);
            } else if i == p {
                assert(out[j] == rest[j - 1]);
                assert(rel(x, rest[p]));
                if j - 1 > p {
                    assert(rel(rest[p], rest[j - 1]));
                    assert(rel(x, rest[p]) && rel(rest[p], rest[j - 1]));
                }
            } else {
                assert(out[i] == rest[i - 1] && out[j] == rest[j - 1]);
            }
        }
    }
}

/// Sorting and then taking each element's image is taking the images and
/// then sorting, where the order goes by the images.
pub proof fn lemma_sort_of_map<T, U>(
    s: Seq<T>,
    f: spec_fn(T) -> U,
    rel_t: spec_fn(T, T) -> bool,
    rel_u: spec_fn(U, U) -> bool,
)
    requires
        forall|a: T, b: T| #[trigger] rel_t(a, b) == rel_u(f(a), f(b)),
    ensures
        sort_of(s, rel_t).map_values(f) == sort_of(s.map_values(f), rel_u),
    decreases s.len(),
{
    let m = s.map_values(f);
    if s.len() == 0 {
        assert(sort_of(s, rel_t).map_values(f) =~= sort_of(m, rel_u));
    } else {
        let rest_t = sort_of(s.drop_first(), rel_t);
        let rest_u = sort_of(m.drop_first(), rel_u);
        lemma_sort_of_map(s.drop_first(), f, rel_t, rel_u);
        assert(s.drop_first().map_values(f) =~= m.drop_first());
        assert(rest_t.map_values(f) == rest_u);
        lemma_insert_pos_map(rest_t, s[0], f, rel_t, rel_u, 0);
        let p = insert_pos(rest_t, s[0], rel_t, 0);
        lemma_insert_pos(rest_t, s[0], rel_t, 0);
        assert(rest_t.insert(p, s[0]).map_values(f) =~= rest_u.insert(p, f(s[0])));
    }
}

/// The place of an element among others is the place of its image among
/// their images.
proof fn lemma_insert_pos_map<T, U>(
    out: Seq<T>,
    x: T,
    f: spec_fn(T) -> U,
    rel_t: spec_fn(T, T) -> bool,
    rel_u: spec_fn(U, U) -> bool,
    from: int,
)
    requires
        0 <= from <= out.len(),
        forall|a: T, b: T| #[trigger] rel_t(a, b) == rel_u(f(a), f(b)),
    ensures
        insert_pos(out, x, rel_t, from) == insert_pos(out.map_values(f), f(x), rel_u, from),
    decreases out.len() - from,
{
    if from < out.len() {
        assert(out.map_values(f)[from] == f(out[from]));
        assert(rel_t(x, out[from]) == rel_u(f(x), f(out[from])));
        if !rel_t(x, out[from]) {
            lemma_insert_pos_map(out, x, f, rel_t, rel_u, from + 1);
        }
    }
}

/// Sorts `v` by the order `rel`, which `le` decides.
pub fn sort_by<T, F: Fn(&T, &T) -> bool>(v: Vec<T>, le: F, Ghost(rel): Ghost<
    spec_fn(T, T) -> bool,
>) -> (r: Vec<T>)
    requires
        forall|a: T, b: T| call_requires(le, (&a, &b)),
        forall|a: T, b: T, o: bool| call_ensures(le, (&a, &b), o) ==> o == rel(a, b),
    ensures
        r@ == sort_of(v@, rel),
{
    let mut src = v;
    let mut out: Vec<T> = Vec::new();
    assert(v@.skip(v@.len() as int).len() == 0);
    while src.len() > 0
        invariant
            forall|a: T, b: T| call_requires(le, (&a, &b)),
            forall|a: T, b: T, o: bool| call_ensures(le, (&a, &b), o) ==> o == rel(a, b),
            src@ == v@.take(src@.len() as int),
            src@.len() <= v@.len(),
            out@ == sort_of(v@.skip(src@.len() as int), rel),
        decreases src.len(),
    {
        let ghost k = src@.len() as int;
        let ghost out_before = out@;
        let x = src.pop().unwrap();
        proof {
            assert(x == v@[k - 1]);
            assert(src@ =~= v@.take(k - 1));
            let tail = v@.skip(k - 1);
            assert(tail[0] == x);
            assert(tail.drop_first() =~= v@.skip(k));
        }
        let mut p: usize = 0;
        while p < out.len() && !le(&x, &out[p])
            invariant
                p <= out.len(),
                out@ == out_before,
                forall|a: T, b: T| call_requires(le, (&a, &b)),
                forall|a: T, b: T, o: bool| call_ensures(le, (&a, &b), o) ==> o == rel(a, b),
                insert_pos(out_before, x, rel, 0) == insert_pos(out_before, x, rel, p as int),
            decreases out.len() - p,
        {
            p += 1;
        }
        out.insert(p, x);
    }
    assert(v@.skip(0) =~= v@);
    out
}

/// Sorts texts in the order of the dictionary.
pub fn sort_texts(v: Vec<String>) -> (r: Vec<String>)
    ensures
        texts_of(r@) == sort_of(texts_of(v@), |a: Seq<char>, b: Seq<char>| lex_sign(a, b) <= 0),
{
    let le = |a: &String, b: &String| -> (o: bool)
        ensures
            o == (lex_sign(a@, b@) <= 0),
        {
            let x = str_to_chars(a.as_str());
            let y = str_to_chars(b.as_str());
            compare_texts(&x, &y) <= 0
        };
    let ghost rel_t = |a: String, b: String| lex_sign(a@, b@) <= 0;
    let ghost rel_u = |a: Seq<char>, b: Seq<char>| lex_sign(a, b) <= 0;
    let ghost f = |e: String| e@;
    let ghost before = v@;
    let sorted = sort_by(v, le, Ghost(rel_t));
    proof {
        lemma_sort_of_map(before, f, rel_t, rel_u);
        assert(texts_of(before) =~= before.map_values(f));
        assert(texts_of(sorted@) =~= sorted@.map_values(f));
    }
    sorted
}

/// The order of the dictionary is total and transitive, so texts sorted by
/// it stand each before all the later ones.
pub proof fn lemma_sorted_texts(s: Seq<Seq<char>>)
    ensures
        is_sorted(
            sort_of(s, |a: Seq<char>, b: Seq<char>| lex_sign(a, b) <= 0),
            |a: Seq<char>, b: Seq<char>| lex_sign(a, b) <= 0,
        ),
        sort_of(s, |a: Seq<char>, b: Seq<char>| lex_sign(a, b) <= 0).to_multiset()
            == s.to_multiset(),
{
    let rel = |a: Seq<char>, b: Seq<char>| lex_sign(a, b) <= 0;
    assert(is_total(rel)) by {
        assert forall|a: Seq<char>, b: Seq<char>| #[trigger] rel(a, b) || rel(b, a) by {
            crate::text::lemma_lex_sign_mirror(a, b);
        }
    }
    assert(is_transitive(rel)) by {
        assert forall|a: Seq<char>, b: Seq<char>, c: Seq<char>|
            #[trigger] rel(a, b) && #[trigger] rel(b, c) implies rel(a, c) by {
            crate::text::lemma_lex_sign_chain(a, b, c);
        }
    }
    lemma_sort_of_sorted(s, rel);
    lemma_sort_of_permutes(s, rel);
}

} // verus!
