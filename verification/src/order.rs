//! Deterministic ordering: a total order on the model of a value and a
//! stable sort that produces exactly the sorted model sequence.

use vstd::prelude::*;
use vstd::relations::*;

verus! {

broadcast use {vstd::seq_lib::group_to_multiset_ensures, vstd::multiset::group_multiset_axioms};

/// A value whose model carries a total order, with an executable comparison.
pub trait Ordered: View + Sized {
    spec fn model_le(a: Self::V, b: Self::V) -> bool;

    proof fn lemma_model_le_total_ordering()
        ensures
            total_ordering(|a: Self::V, b: Self::V| Self::model_le(a, b)),
    ;

    fn le(&self, other: &Self) -> (r: bool)
        ensures
            r == Self::model_le(self@, other@),
    ;
}

/// The order relation of a model, as a spec closure.
pub open spec fn model_leq<T: Ordered>() -> spec_fn(T::V, T::V) -> bool {
    |a: T::V, b: T::V| T::model_le(a, b)
}

/// The models of a sequence of values.
pub open spec fn models<T: View>(s: Seq<T>) -> Seq<T::V> {
    s.map_values(|x: T| x@)
}

/// Two sequences sorted by the same total order with the same elements are equal.
pub proof fn lemma_sorted_unique<V>(a: Seq<V>, b: Seq<V>, leq: spec_fn(V, V) -> bool)
    requires
        total_ordering(leq),
        sorted_by(a, leq),
        sorted_by(b, leq),
        a.to_multiset() == b.to_multiset(),
    ensures
        a == b,
    decreases a.len(),
{
    assert(a.to_multiset().len() == a.len());
    assert(b.to_multiset().len() == b.len());
    if a.len() == 0 {
        assert(b.len() == 0);
        assert(a =~= b);
    } else {
        assert(a.to_multiset().len() == a.len());
        assert(b.to_multiset().len() == b.len());
        assert(b.len() == a.len());
        let x = a[0];
        let y = b[0];
        assert(a.contains(x));
        assert(b.to_multiset().count(x) > 0);
        assert(b.contains(x));
        let j = choose|j: int| 0 <= j < b.len() && b[j] == x;
        if j > 0 {
            assert(leq(b[0], b[j]));
        }
        assert(leq(y, x));
        assert(a.to_multiset().count(y) > 0);
        assert(a.contains(y));
        let k = choose|k: int| 0 <= k < a.len() && a[k] == y;
        if k > 0 {
            assert(leq(a[0], a[k]));
        }
        assert(leq(x, y));
        assert(x == y);
        let a1 = a.drop_first();
        let b1 = b.drop_first();
        assert(a1 =~= a.remove(0));
        assert(b1 =~= b.remove(0));
        assert(a1.to_multiset() == a.to_multiset().remove(x));
        assert(b1.to_multiset() == b.to_multiset().remove(y));
        assert(sorted_by(a1, leq)) by {
            assert forall|i: int, j: int| 0 <= i < j < a1.len() implies #[trigger] leq(
                a1[i],
                a1[j],
            ) by {
                assert(leq(a[i + 1], a[j + 1]));
            }
        }
        assert(sorted_by(b1, leq)) by {
            assert forall|i: int, j: int| 0 <= i < j < b1.len() implies #[trigger] leq(
                b1[i],
                b1[j],
            ) by {
                assert(leq(b[i + 1], b[j + 1]));
            }
        }
        lemma_sorted_unique(a1, b1, leq);
        assert(a =~= seq![x] + a1);
        assert(b =~= seq![y] + b1);
    }
}

/// A sequence sorted by a total order that has the multiset of `s` is `s.sort_by`.
pub proof fn lemma_is_sort_by<V>(sorted: Seq<V>, s: Seq<V>, leq: spec_fn(V, V) -> bool)
    requires
        total_ordering(leq),
        sorted_by(sorted, leq),
        sorted.to_multiset() == s.to_multiset(),
    ensures
        sorted == s.sort_by(leq),
{
    s.lemma_sort_by_ensures(leq);
    lemma_sorted_unique(sorted, s.sort_by(leq), leq);
}

/// Sorting is independent of the order in which the elements arrive.
pub proof fn lemma_sort_by_permutation<V>(s: Seq<V>, t: Seq<V>, leq: spec_fn(V, V) -> bool)
    requires
        total_ordering(leq),
        s.to_multiset() == t.to_multiset(),
    ensures
        s.sort_by(leq) == t.sort_by(leq),
{
    s.lemma_sort_by_ensures(leq);
    t.lemma_sort_by_ensures(leq);
    lemma_sorted_unique(s.sort_by(leq), t.sort_by(leq), leq);
}

/// Sort a vector by the order of its models.
pub fn sort_by_model<T: Ordered>(v: Vec<T>) -> (r: Vec<T>)
    ensures
        models(r@) == models(v@).sort_by(model_leq::<T>()),
        r@.to_multiset() == v@.to_multiset(),
{
    proof {
        T::lemma_model_le_total_ordering();
    }
    let ghost leq = model_leq::<T>();
    let ghost orig = v@;
    let mut rest = v;
    let mut out: Vec<T> = Vec::new();
    while rest.len() > 0
        invariant
            leq == model_leq::<T>(),
            total_ordering(leq),
            sorted_by(models(out@), leq),
            models(out@).to_multiset().add(models(rest@).to_multiset()) == models(
                orig,
            ).to_multiset(),
            out@.to_multiset().add(rest@.to_multiset()) == orig.to_multiset(),
        decreases rest.len(),
    {
        let ghost before = rest@;
        let x = rest.pop().unwrap();
        assert(before =~= rest@.push(x));
        assert(models(before) =~= models(rest@).push(x@));
        let mut pos: usize = 0;
        while pos < out.len() && out[pos].le(&x)
            invariant
                pos <= out@.len(),
                leq == model_leq::<T>(),
                forall|k: int| 0 <= k < pos ==> T::model_le(#[trigger] out@[k]@, x@),
            decreases out@.len() - pos,
        {
            pos += 1;
        }
        assert(pos < out@.len() ==> !T::model_le(out@[pos as int]@, x@));
        let ghost old_models = models(out@);
        assert(pos < old_models.len() ==> leq(x@, old_models[pos as int])) by {
            if pos < old_models.len() {
                assert(leq(old_models[pos as int], x@) || leq(x@, old_models[pos as int]));
            }
        }
        out.insert(pos, x);
        assert(models(out@) =~= old_models.insert(pos as int, x@));
        assert(sorted_by(models(out@), leq)) by {
            assert forall|i: int, j: int| 0 <= i < j < models(out@).len() implies #[trigger] leq(
                models(out@)[i],
                models(out@)[j],
            ) by {
                if j < pos {
                    assert(leq(old_models[i], old_models[j]));
                } else if j == pos {
                    assert(T::model_le(out@[i]@, x@));
                } else if i == pos {
                    if pos < old_models.len() {
                        assert(!T::model_le(old_models[pos as int], x@));
                        assert(leq(x@, old_models[pos as int]));
                        if j - 1 > pos {
                            assert(leq(old_models[pos as int], old_models[j - 1]));
                        }
                    }
                } else if i < pos {
                    assert(leq(old_models[i], x@));
                    if pos < old_models.len() {
                        assert(leq(x@, old_models[pos as int]));
                        if j - 1 > pos {
                            assert(leq(old_models[pos as int], old_models[j - 1]));
                        }
                    }
                } else {
                    assert(leq(old_models[i - 1], old_models[j - 1]));
                }
            }
        }
    }
    assert(rest@ =~= Seq::<T>::empty());
    assert(models(rest@) =~= Seq::<T::V>::empty());
    assert(models(out@).to_multiset() =~= models(orig).to_multiset());
    assert(out@.to_multiset() =~= orig.to_multiset());
    proof {
        lemma_is_sort_by(models(out@), models(orig), leq);
    }
    out
}

/// Lexicographic order of integer sequences.
pub open spec fn ints_le(a: Seq<int>, b: Seq<int>) -> bool
    decreases a.len(),
{
    if a.len() == 0 {
        true
    } else if b.len() == 0 {
        false
    } else if a[0] < b[0] {
        true
    } else if a[0] == b[0] {
        ints_le(a.drop_first(), b.drop_first())
    } else {
        false
    }
}

pub proof fn lemma_ints_le_reflexive(a: Seq<int>)
    ensures
        ints_le(a, a),
    decreases a.len(),
{
    if a.len() > 0 {
        lemma_ints_le_reflexive(a.drop_first());
    }
}

pub proof fn lemma_ints_le_total(a: Seq<int>, b: Seq<int>)
    ensures
        ints_le(a, b) || ints_le(b, a),
    decreases a.len(),
{
    if a.len() > 0 && b.len() > 0 && a[0] == b[0] {
        lemma_ints_le_total(a.drop_first(), b.drop_first());
    }
}

pub proof fn lemma_ints_le_antisymmetric(a: Seq<int>, b: Seq<int>)
    requires
        ints_le(a, b),
        ints_le(b, a),
    ensures
        a == b,
    decreases a.len(),
{
    if a.len() > 0 {
        assert(b.len() > 0);
        assert(a[0] == b[0]);
        lemma_ints_le_antisymmetric(a.drop_first(), b.drop_first());
        assert(a =~= seq![a[0]] + a.drop_first());
        assert(b =~= seq![b[0]] + b.drop_first());
    } else {
        assert(b.len() == 0);
        assert(a =~= b);
    }
}

pub proof fn lemma_ints_le_transitive(a: Seq<int>, b: Seq<int>, c: Seq<int>)
    requires
        ints_le(a, b),
        ints_le(b, c),
    ensures
        ints_le(a, c),
    decreases a.len(),
{
    if a.len() > 0 && b.len() > 0 && c.len() > 0 && a[0] == b[0] && b[0] == c[0] {
        lemma_ints_le_transitive(a.drop_first(), b.drop_first(), c.drop_first());
    }
}

/// The integer values of a sequence of machine integers.
pub open spec fn int_values(s: Seq<i64>) -> Seq<int> {
    Seq::new(s.len(), |i: int| s[i] as int)
}

/// Lexicographic comparison of two integer sequences.
pub fn ints_le_exec(a: &Vec<i64>, b: &Vec<i64>) -> (r: bool)
    ensures
        r == ints_le(int_values(a@), int_values(b@)),
{
    let ghost fa = int_values(a@);
    let ghost fb = int_values(b@);
    let mut i: usize = 0;
    assert(fa.skip(0) =~= fa);
    assert(fb.skip(0) =~= fb);
    while i < a.len() && i < b.len()
        invariant
            i <= a@.len(),
            i <= b@.len(),
            fa == int_values(a@),
            fb == int_values(b@),
            ints_le(fa, fb) == ints_le(fa.skip(i as int), fb.skip(i as int)),
        decreases a@.len() - i,
    {
        if a[i] < b[i] {
            return true;
        }
        if a[i] != b[i] {
            return false;
        }
        assert(fa.skip(i as int).drop_first() =~= fa.skip(i + 1));
        assert(fb.skip(i as int).drop_first() =~= fb.skip(i + 1));
        i += 1;
    }
    i == a.len()
}

/// Order of pairs: first by the first component, then by the second.
pub open spec fn pair_le<A, B>(
    a: (A, B),
    b: (A, B),
    le1: spec_fn(A, A) -> bool,
    le2: spec_fn(B, B) -> bool,
) -> bool {
    (le1(a.0, b.0) && a.0 != b.0) || (a.0 == b.0 && le2(a.1, b.1))
}

pub proof fn lemma_pair_le_total_ordering<A, B>(le1: spec_fn(A, A) -> bool, le2: spec_fn(B, B) -> bool)
    requires
        total_ordering(le1),
        total_ordering(le2),
    ensures
        total_ordering(|a: (A, B), b: (A, B)| pair_le(a, b, le1, le2)),
{
    let le = |a: (A, B), b: (A, B)| pair_le(a, b, le1, le2);
    assert(reflexive(le)) by {
        assert forall|x: (A, B)| #[trigger] le(x, x) by {
            assert(le2(x.1, x.1));
        }
    }
    assert(antisymmetric(le)) by {
        assert forall|x: (A, B), y: (A, B)| #[trigger] le(x, y) && #[trigger] le(y, x) implies x == y by {
            if x.0 == y.0 {
                assert(le2(x.1, y.1) && le2(y.1, x.1));
            } else {
                assert(le1(x.0, y.0) && le1(y.0, x.0));
            }
        }
    }
    assert(transitive(le)) by {
        assert forall|x: (A, B), y: (A, B), z: (A, B)| #[trigger] le(x, y) && #[trigger] le(y, z) implies le(x, z) by {
            if x.0 == y.0 && y.0 == z.0 {
                assert(le2(x.1, z.1));
            } else if x.0 == y.0 {
                assert(le1(x.0, z.0));
            } else if y.0 == z.0 {
                assert(le1(x.0, z.0));
            } else {
                assert(le1(x.0, y.0) && le1(y.0, z.0));
                assert(le1(x.0, z.0));
                if x.0 == z.0 {
                    assert(le1(z.0, y.0));
                    assert(y.0 == z.0);
                }
            }
        }
    }
    assert(strongly_connected(le)) by {
        assert forall|x: (A, B), y: (A, B)| #[trigger] le(x, y) || #[trigger] le(y, x) by {
            assert(le1(x.0, y.0) || le1(y.0, x.0));
            assert(le2(x.1, y.1) || le2(y.1, x.1));
        }
    }
}

/// Lexicographic order on integer sequences is a total order.
pub proof fn lemma_ints_le_total_ordering()
    ensures
        total_ordering(|a: Seq<int>, b: Seq<int>| ints_le(a, b)),
{
    let le = |a: Seq<int>, b: Seq<int>| ints_le(a, b);
    assert(reflexive(le)) by {
        assert forall|x: Seq<int>| #[trigger] le(x, x) by {
            lemma_ints_le_reflexive(x);
        }
    }
    assert(antisymmetric(le)) by {
        assert forall|x: Seq<int>, y: Seq<int>| #[trigger] le(x, y) && #[trigger] le(y, x) implies x == y by {
            lemma_ints_le_antisymmetric(x, y);
        }
    }
    assert(transitive(le)) by {
        assert forall|x: Seq<int>, y: Seq<int>, z: Seq<int>| #[trigger] le(x, y) && #[trigger] le(y, z) implies le(x, z) by {
            lemma_ints_le_transitive(x, y, z);
        }
    }
    assert(strongly_connected(le)) by {
        assert forall|x: Seq<int>, y: Seq<int>| #[trigger] le(x, y) || #[trigger] le(y, x) by {
            lemma_ints_le_total(x, y);
        }
    }
}

/// An order on a model defined through an injective integer-sequence key is
/// a total order.
pub proof fn lemma_keyed_total_ordering<V>(key: spec_fn(V) -> Seq<int>)
    requires
        forall|a: V, b: V| #[trigger] key(a) == #[trigger] key(b) ==> a == b,
    ensures
        total_ordering(|a: V, b: V| ints_le(key(a), key(b))),
{
    let le = |a: V, b: V| ints_le(key(a), key(b));
    assert(reflexive(le)) by {
        assert forall|x: V| #[trigger] le(x, x) by {
            lemma_ints_le_reflexive(key(x));
        }
    }
    assert(antisymmetric(le)) by {
        assert forall|x: V, y: V| #[trigger] le(x, y) && #[trigger] le(y, x) implies x == y by {
            lemma_ints_le_antisymmetric(key(x), key(y));
        }
    }
    assert(transitive(le)) by {
        assert forall|x: V, y: V, z: V| #[trigger] le(x, y) && #[trigger] le(y, z) implies le(x, z) by {
            lemma_ints_le_transitive(key(x), key(y), key(z));
        }
    }
    assert(strongly_connected(le)) by {
        assert forall|x: V, y: V| #[trigger] le(x, y) || #[trigger] le(y, x) by {
            lemma_ints_le_total(key(x), key(y));
        }
    }
}

/// An order on a model defined through an injective map into a totally
/// ordered type is a total order.
pub proof fn lemma_mapped_total_ordering<V, K>(key: spec_fn(V) -> K, le: spec_fn(K, K) -> bool)
    requires
        total_ordering(le),
        forall|a: V, b: V| #[trigger] key(a) == #[trigger] key(b) ==> a == b,
    ensures
        total_ordering(|a: V, b: V| le(key(a), key(b))),
{
    let r = |a: V, b: V| le(key(a), key(b));
    assert(reflexive(r)) by {
        assert forall|x: V| #[trigger] r(x, x) by {
            assert(le(key(x), key(x)));
        }
    }
    assert(antisymmetric(r)) by {
        assert forall|x: V, y: V| #[trigger] r(x, y) && #[trigger] r(y, x) implies x == y by {
            assert(le(key(x), key(y)) && le(key(y), key(x)));
            assert(key(x) == key(y));
        }
    }
    assert(transitive(r)) by {
        assert forall|x: V, y: V, z: V| #[trigger] r(x, y) && #[trigger] r(y, z) implies r(x, z) by {
            assert(le(key(x), key(y)) && le(key(y), key(z)));
        }
    }
    assert(strongly_connected(r)) by {
        assert forall|x: V, y: V| #[trigger] r(x, y) || #[trigger] r(y, x) by {
            assert(le(key(x), key(y)) || le(key(y), key(x)));
        }
    }
}

/// The integer codes of a character sequence.
pub open spec fn char_codes(s: Seq<char>) -> Seq<int> {
    Seq::new(s.len(), |i: int| s[i] as int)
}

pub proof fn lemma_char_codes_injective(a: Seq<char>, b: Seq<char>)
    requires
        char_codes(a) == char_codes(b),
    ensures
        a == b,
{
    assert(a.len() == char_codes(a).len());
    assert(b.len() == char_codes(b).len());
    assert forall|i: int| 0 <= i < a.len() implies a[i] == b[i] by {
        assert(char_codes(a)[i] == char_codes(b)[i]);
        assert(char_codes(a)[i] == a[i] as int);
        assert(char_codes(b)[i] == b[i] as int);
    }
    assert(a =~= b);
}


/// The order key of an optional text: absent first, then by code points.
pub open spec fn optional_text_key(text: Option<Seq<char>>) -> Seq<int> {
    match text {
        None => seq![0int],
        Some(t) => seq![1int] + char_codes(t),
    }
}

/// The order key of an optional text.
pub fn optional_text_key_exec(text: Option<&str>) -> (r: Vec<i64>)
    ensures
        int_values(r@) == optional_text_key(match text {
            Some(t) => Some(t@),
            None => None,
        }),
{
    let mut r: Vec<i64> = Vec::new();
    match text {
        None => {
            r.push(0);
        },
        Some(t) => {
            r.push(1);
            let chars = crate::text::chars_of(t);
            let mut i: usize = 0;
            while i < chars.len()
                invariant
                    i <= chars@.len(),
                    chars@ == t@,
                    int_values(r@) =~= seq![1int] + char_codes(chars@.take(i as int)),
                decreases chars@.len() - i,
            {
                let ghost before = r@;
                let v: i64 = crate::text::char_code(chars[i]);
                r.push(v);
                assert(r@ =~= before.push(v));
                assert(int_values(r@) =~= int_values(before).push(chars@[i as int] as int));
                assert(char_codes(chars@.take(i + 1)) =~= char_codes(chars@.take(i as int)).push(
                    chars@[i as int] as int,
                ));
                i += 1;
            }
            assert(chars@.take(chars@.len() as int) =~= chars@);
        },
    }
    assert(int_values(r@) =~= optional_text_key(match text {
        Some(t) => Some(t@),
        None => None,
    }));
    r
}

/// The order key of bytes: their values.
pub open spec fn byte_key(bytes: Seq<u8>) -> Seq<int> {
    Seq::new(bytes.len(), |i: int| bytes[i] as int)
}

pub fn byte_key_exec(bytes: &[u8]) -> (r: Vec<i64>)
    ensures
        int_values(r@) == byte_key(bytes@),
{
    let mut r: Vec<i64> = Vec::new();
    let mut i: usize = 0;
    while i < bytes.len()
        invariant
            i <= bytes@.len(),
            r@.len() == i,
            forall|j: int| 0 <= j < i ==> r@[j] as int == bytes@[j] as int,
        decreases bytes@.len() - i,
    {
        r.push(bytes[i] as i64);
        i += 1;
    }
    assert(int_values(r@) =~= byte_key(bytes@));
    r
}

pub proof fn lemma_optional_text_key_injective(a: Option<Seq<char>>, b: Option<Seq<char>>)
    requires
        optional_text_key(a) == optional_text_key(b),
    ensures
        a == b,
{
    match (a, b) {
        (Some(x), Some(y)) => {
            assert(char_codes(x) =~= optional_text_key(a).drop_first());
            assert(char_codes(y) =~= optional_text_key(b).drop_first());
            lemma_char_codes_injective(x, y);
        },
        (None, Some(y)) => {
            assert(optional_text_key(b)[0] == 1);
        },
        (Some(x), None) => {
            assert(optional_text_key(a)[0] == 1);
        },
        _ => {},
    }
}

pub proof fn lemma_byte_key_injective(a: Seq<u8>, b: Seq<u8>)
    requires
        byte_key(a) == byte_key(b),
    ensures
        a == b,
{
    assert(a.len() == byte_key(a).len());
    assert(b.len() == byte_key(b).len());
    assert forall|i: int| 0 <= i < a.len() implies a[i] == b[i] by {
        assert(byte_key(a)[i] == byte_key(b)[i]);
        assert(byte_key(a)[i] == a[i] as int);
        assert(byte_key(b)[i] == b[i] as int);
    }
    assert(a =~= b);
}


/// Mapping two sequences with the same elements gives sequences with the
/// same elements.
pub proof fn lemma_map_values_multiset<A, B>(s: Seq<A>, t: Seq<A>, f: spec_fn(A) -> B)
    requires
        s.to_multiset() == t.to_multiset(),
    ensures
        s.map_values(f).to_multiset() == t.map_values(f).to_multiset(),
    decreases s.len(),
{
    broadcast use vstd::seq_lib::group_to_multiset_ensures;

    assert(s.len() == s.to_multiset().len());
    assert(t.len() == t.to_multiset().len());
    if s.len() == 0 {
        assert(s.map_values(f) =~= Seq::<B>::empty());
        assert(t.map_values(f) =~= Seq::<B>::empty());
    } else {
        let x = s.last();
        let rest = s.drop_last();
        assert(s =~= rest.push(x));
        assert(s.to_multiset().count(x) > 0) by {
            assert(s.contains(x)) by {
                assert(s[s.len() - 1] == x);
            }
        }
        assert(t.contains(x));
        let j = choose|j: int| 0 <= j < t.len() && t[j] == x;
        let t_rest = t.remove(j);
        assert(t_rest.to_multiset() == t.to_multiset().remove(x));
        assert(rest.push(x).to_multiset() == rest.to_multiset().insert(x));
        assert(rest.to_multiset() =~= rest.to_multiset().insert(x).remove(x));
        lemma_map_values_multiset(rest, t_rest, f);
        assert(s.map_values(f) =~= rest.map_values(f).push(f(x)));
        assert(t =~= t_rest.insert(j, x));
        assert(t.map_values(f) =~= t_rest.map_values(f).insert(j, f(x)));
        assert(rest.map_values(f).push(f(x)).to_multiset() == rest.map_values(f).to_multiset().insert(f(x)));
        assert(t_rest.map_values(f).insert(j, f(x)).to_multiset() == t_rest.map_values(f).to_multiset().insert(
            f(x),
        ));
    }
}


/// Each value of a sequence preceded by a one: `[1, s0, 1, s1, ...]`.
pub open spec fn marked(s: Seq<int>) -> Seq<int>
    decreases s.len(),
{
    if s.len() == 0 {
        Seq::empty()
    } else {
        marked(s.drop_last()) + seq![1int, s.last()]
    }
}

/// A sequence marked value by value and closed by a zero: no such sequence
/// is a proper prefix of another, so keys built by concatenating them compare
/// component by component, and a shorter sequence that is a prefix of a
/// longer one comes first.
pub open spec fn terminated(s: Seq<int>) -> Seq<int> {
    marked(s).push(0)
}

proof fn lemma_marked_front(s: Seq<int>)
    requires
        s.len() > 0,
    ensures
        marked(s) == seq![1int, s[0]] + marked(s.drop_first()),
    decreases s.len(),
{
    if s.len() == 1 {
        assert(s.drop_last() =~= Seq::<int>::empty());
        assert(s.drop_first() =~= Seq::<int>::empty());
        assert(marked(s.drop_last()) =~= Seq::<int>::empty());
        assert(marked(s.drop_first()) =~= Seq::<int>::empty());
        assert(marked(s) =~= seq![1int, s[0]]);
    } else {
        lemma_marked_front(s.drop_last());
        assert(s.drop_last().drop_first() =~= s.drop_first().drop_last());
        assert(s.drop_first().last() == s.last());
        assert(marked(s.drop_first()) == marked(s.drop_first().drop_last()) + seq![1int, s.last()]);
        assert(marked(s) =~= seq![1int, s[0]] + marked(s.drop_first()));
    }
}

/// A concatenation that starts with a terminated sequence determines it.
pub proof fn lemma_terminated_split(a: Seq<int>, b: Seq<int>, x: Seq<int>, y: Seq<int>)
    requires
        terminated(a) + x == terminated(b) + y,
    ensures
        a == b,
        x == y,
    decreases a.len(),
{
    let left = terminated(a) + x;
    let right = terminated(b) + y;
    if a.len() == 0 {
        assert(marked(a) =~= Seq::<int>::empty());
        assert(left[0] == 0);
        if b.len() > 0 {
            lemma_marked_front(b);
            assert(right[0] == 1);
        }
        assert(b =~= a);
        assert(x =~= left.drop_first());
        assert(y =~= right.drop_first());
    } else {
        lemma_marked_front(a);
        assert(left[0] == 1);
        assert(left[1] == a[0]);
        if b.len() == 0 {
            assert(marked(b) =~= Seq::<int>::empty());
            assert(right[0] == 0);
        }
        lemma_marked_front(b);
        assert(right[1] == b[0]);
        let a1 = a.drop_first();
        let b1 = b.drop_first();
        assert(terminated(a1) + x =~= left.skip(2));
        assert(terminated(b1) + y =~= right.skip(2));
        lemma_terminated_split(a1, b1, x, y);
        assert(a =~= seq![a[0]] + a1);
        assert(b =~= seq![b[0]] + b1);
    }
}

/// The codes of characters, marked and closed by a zero.
pub fn push_terminated_chars(key: &mut Vec<i64>, chars: &[char])
    ensures
        int_values(final(key)@) == int_values(old(key)@) + terminated(char_codes(chars@)),
{
    let ghost start = int_values(key@);
    let ghost codes = char_codes(chars@);
    let mut i: usize = 0;
    while i < chars.len()
        invariant
            i <= chars@.len(),
            codes == char_codes(chars@),
            int_values(key@) == start + marked(codes.take(i as int)),
        decreases chars@.len() - i,
    {
        let ghost before = key@;
        let code = crate::text::char_code(chars[i]);
        key.push(1);
        key.push(code);
        assert(codes.take(i + 1).drop_last() =~= codes.take(i as int));
        assert(int_values(key@) =~= int_values(before) + seq![1int, code as int]);
        i += 1;
    }
    assert(codes.take(chars@.len() as int) =~= codes);
    let ghost before = key@;
    key.push(0);
    assert(int_values(key@) =~= int_values(before).push(0));
}

/// The values of bytes, marked and closed by a zero.
pub fn push_terminated_bytes(key: &mut Vec<i64>, bytes: &[u8])
    ensures
        int_values(final(key)@) == int_values(old(key)@) + terminated(byte_key(bytes@)),
{
    let ghost start = int_values(key@);
    let ghost values = byte_key(bytes@);
    let mut i: usize = 0;
    while i < bytes.len()
        invariant
            i <= bytes@.len(),
            values == byte_key(bytes@),
            int_values(key@) == start + marked(values.take(i as int)),
        decreases bytes@.len() - i,
    {
        let ghost before = key@;
        let value = bytes[i] as i64;
        key.push(1);
        key.push(value);
        assert(values.take(i + 1).drop_last() =~= values.take(i as int));
        assert(int_values(key@) =~= int_values(before) + seq![1int, value as int]);
        i += 1;
    }
    assert(values.take(bytes@.len() as int) =~= values);
    let ghost before = key@;
    key.push(0);
    assert(int_values(key@) =~= int_values(before).push(0));
}

} // verus!
