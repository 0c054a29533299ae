//! Stable sorting by a (text, number) key, the order `sort_by` and
//! `sort_by_key` give to the lists this crate presents: bindings by
//! workspace, launch bindings by executable, icons by name then style.

use vstd::prelude::*;

verus! {

/// An item with the key it is sorted by: text first (code-point order, which
/// is the byte order of UTF-8), then number.
pub struct Keyed<T> {
    pub text: Vec<char>,
    pub num: u64,
    pub item: T,
}

/// Strict lexicographic order on characters.
pub open spec fn lex_lt(a: Seq<char>, b: Seq<char>) -> bool
    decreases a.len(),
{
    if a.len() == 0 {
        b.len() > 0
    } else if b.len() == 0 {
        false
    } else if a[0] != b[0] {
        a[0] < b[0]
    } else {
        lex_lt(a.drop_first(), b.drop_first())
    }
}

/// A key and the value it carries: (text, number, value).
pub type KeyedView<V> = (Seq<char>, nat, V);

pub open spec fn key_le<V>(a: KeyedView<V>, b: KeyedView<V>) -> bool {
    lex_lt(a.0, b.0) || (a.0 == b.0 && a.1 <= b.1)
}

/// The keys and values of a vector of keyed items.
pub open spec fn kview<T: View>(s: Seq<Keyed<T>>) -> Seq<KeyedView<T::V>> {
    Seq::new(s.len(), |i: int| (s[i].text@, s[i].num as nat, s[i].item@))
}

/// Stable insertion: `x` goes after every element whose key is not greater.
pub open spec fn ins<T>(s: Seq<KeyedView<T>>, x: KeyedView<T>) -> Seq<KeyedView<T>>
    decreases s.len(),
{
    if s.len() == 0 {
        seq![x]
    } else if key_le(s.last(), x) {
        s.push(x)
    } else {
        ins(s.drop_last(), x).push(s.last())
    }
}

/// Stable sort by key: insertion of each element in turn.
pub open spec fn sorted_by_key<T>(s: Seq<KeyedView<T>>) -> Seq<KeyedView<T>>
    decreases s.len(),
{
    if s.len() == 0 {
        Seq::empty()
    } else {
        ins(sorted_by_key(s.drop_last()), s.last())
    }
}

pub open spec fn is_sorted<T>(s: Seq<KeyedView<T>>) -> bool {
    forall|i: int, j: int| 0 <= i < j < s.len() ==> key_le(#[trigger] s[i], #[trigger] s[j])
}

proof fn lemma_lex_irrefl(a: Seq<char>)
    ensures
        !lex_lt(a, a),
    decreases a.len(),
{
    if a.len() > 0 {
        lemma_lex_irrefl(a.drop_first());
    }
}

/// No text sorts before itself.
pub proof fn lemma_lex_irrefl_pub(a: Seq<char>)
    ensures
        !lex_lt(a, a),
{
    lemma_lex_irrefl(a);
}

proof fn lemma_lex_total(a: Seq<char>, b: Seq<char>)
    ensures
        lex_lt(a, b) || lex_lt(b, a) || a == b,
    decreases a.len(),
{
    if a.len() == 0 && b.len() == 0 {
        assert(a =~= b);
    } else if a.len() > 0 && b.len() > 0 && a[0] == b[0] {
        lemma_lex_total(a.drop_first(), b.drop_first());
        if a.drop_first() == b.drop_first() {
            assert(a =~= seq![a[0]] + a.drop_first());
            assert(b =~= seq![b[0]] + b.drop_first());
        }
    }
}

proof fn lemma_lex_asym(a: Seq<char>, b: Seq<char>)
    ensures
        lex_lt(a, b) ==> !lex_lt(b, a),
    decreases a.len(),
{
    if a.len() > 0 && b.len() > 0 && a[0] == b[0] {
        lemma_lex_asym(a.drop_first(), b.drop_first());
    }
}

proof fn lemma_lex_trans(a: Seq<char>, b: Seq<char>, c: Seq<char>)
    ensures
        lex_lt(a, b) && lex_lt(b, c) ==> lex_lt(a, c),
    decreases a.len(),
{
    if a.len() > 0 && b.len() > 0 && c.len() > 0 {
        lemma_lex_trans(a.drop_first(), b.drop_first(), c.drop_first());
    }
}

proof fn lemma_lex_facts(a: Seq<char>, b: Seq<char>, c: Seq<char>)
    ensures
        !lex_lt(a, a),
        lex_lt(a, b) || lex_lt(b, a) || a == b,
        lex_lt(a, b) ==> !lex_lt(b, a),
        lex_lt(a, b) && lex_lt(b, c) ==> lex_lt(a, c),
{
    lemma_lex_irrefl(a);
    lemma_lex_total(a, b);
    lemma_lex_asym(a, b);
    lemma_lex_trans(a, b, c);
}

/// The key order is total and transitive.
pub proof fn lemma_key_order<T>(a: KeyedView<T>, b: KeyedView<T>, c: KeyedView<T>)
    ensures
        key_le(a, b) || key_le(b, a),
        key_le(a, b) && key_le(b, c) ==> key_le(a, c),
{
    lemma_lex_facts(a.0, b.0, c.0);
    lemma_lex_facts(b.0, a.0, c.0);
    lemma_lex_facts(a.0, c.0, b.0);
}

proof fn lemma_ins_props<T>(s: Seq<KeyedView<T>>, x: KeyedView<T>)
    requires
        is_sorted(s),
    ensures
        is_sorted(ins(s, x)),
        ins(s, x).to_multiset() == s.to_multiset().insert(x),
        ins(s, x).len() == s.len() + 1,
    decreases s.len(),
{
    broadcast use vstd::seq_lib::group_seq_properties;

    if s.len() == 0 {
        assert(seq![x] =~= Seq::<KeyedView<T>>::empty().push(x));
    } else if key_le(s.last(), x) {
        let r = s.push(x);
        assert forall|i: int, j: int| 0 <= i < j < r.len() implies key_le(#[trigger] r[i], #[trigger] r[j]) by {
            if j == s.len() {
                lemma_key_order(r[i], s.last(), x);
                if i < s.len() - 1 {
                    assert(key_le(s[i], s[s.len() - 1]));
                }
            } else {
                assert(key_le(s[i], s[j]));
            }
        }
    } else {
        let p = s.drop_last();
        assert forall|i: int, j: int| 0 <= i < j < p.len() implies key_le(#[trigger] p[i], #[trigger] p[j]) by {
            assert(key_le(s[i], s[j]));
        }
        lemma_ins_props(p, x);
        let q = ins(p, x);
        let r = q.push(s.last());
        lemma_key_order(s.last(), x, x);
        assert forall|i: int, j: int| 0 <= i < j < r.len() implies key_le(#[trigger] r[i], #[trigger] r[j]) by {
            if j == q.len() {
                // every element of q is an element of p or x, all below s.last()
                assert(q.to_multiset().count(q[i]) > 0);
                assert(q.contains(q[i]));
                assert(s.drop_last().to_multiset().insert(x).count(q[i]) > 0);
                if q[i] == x {
                    lemma_key_order(x, s.last(), x);
                } else {
                    assert(p.to_multiset().count(q[i]) > 0);
                    assert(p.contains(q[i]));
                    let k = choose|k: int| 0 <= k < p.len() && p[k] == q[i];
                    assert(key_le(s[k], s[s.len() - 1]));
                }
            } else {
                assert(key_le(q[i], q[j]));
            }
        }
        assert(s.drop_last().push(s.last()) =~= s);
    }
}

/// Sorting yields an ordered rearrangement of its input.
pub proof fn lemma_sorted_by_key<T>(s: Seq<KeyedView<T>>)
    ensures
        is_sorted(sorted_by_key(s)),
        sorted_by_key(s).to_multiset() == s.to_multiset(),
        sorted_by_key(s).len() == s.len(),
    decreases s.len(),
{
    broadcast use vstd::seq_lib::group_seq_properties;

    if s.len() > 0 {
        lemma_sorted_by_key(s.drop_last());
        lemma_ins_props(sorted_by_key(s.drop_last()), s.last());
        assert(s.drop_last().push(s.last()) =~= s);
    }
}

/// `a < b` on characters, as -1 / 0 / 1.
pub fn lex_compare(a: &Vec<char>, b: &Vec<char>) -> (r: i8)
    ensures
        r == -1 <==> lex_lt(a@, b@),
        r == 1 <==> lex_lt(b@, a@),
        r == 0 <==> a@ == b@,
        r == -1 || r == 0 || r == 1,
{
    proof {
        lemma_lex_facts(a@, b@, a@);
    }
    let mut i: usize = 0;
    assert(a@.skip(0) =~= a@);
    assert(b@.skip(0) =~= b@);
    while i < a.len() && i < b.len()
        invariant
            i <= a.len(),
            i <= b.len(),
            a@.take(i as int) == b@.take(i as int),
            lex_lt(a@, b@) == lex_lt(a@.skip(i as int), b@.skip(i as int)),
            lex_lt(b@, a@) == lex_lt(b@.skip(i as int), a@.skip(i as int)),
        decreases a.len() - i,
    {
        assert(a@.skip(i as int).drop_first() =~= a@.skip(i + 1));
        assert(b@.skip(i as int).drop_first() =~= b@.skip(i + 1));
        assert(a@.skip(i as int)[0] == a@[i as int]);
        assert(b@.skip(i as int)[0] == b@[i as int]);
        if a[i] != b[i] {
            assert(a@[i as int] != b@[i as int]);
            if a[i] < b[i] {
                return -1;
            } else {
                return 1;
            }
        }
        assert(a@.take(i + 1) =~= a@.take(i as int).push(a@[i as int]));
        assert(b@.take(i + 1) =~= b@.take(i as int).push(b@[i as int]));
        i = i + 1;
    }
    if a.len() == b.len() {
        assert(a@ =~= a@.take(i as int));
        assert(b@ =~= b@.take(i as int));
        0
    } else if a.len() < b.len() {
        assert(a@.skip(i as int).len() == 0);
        -1
    } else {
        assert(b@.skip(i as int).len() == 0);
        1
    }
}

pub fn key_le_exec<T: View>(a: &Keyed<T>, b: &Keyed<T>) -> (r: bool)
    ensures
        r == key_le((a.text@, a.num as nat, a.item@), (b.text@, b.num as nat, b.item@)),
{
    let c = lex_compare(&a.text, &b.text);
    c == -1 || (c == 0 && a.num <= b.num)
}

proof fn lemma_ins_split<T>(s: Seq<KeyedView<T>>, x: KeyedView<T>, j: int)
    requires
        0 <= j <= s.len(),
        forall|i: int| j <= i < s.len() ==> !key_le(#[trigger] s[i], x),
    ensures
        ins(s, x) == ins(s.take(j), x) + s.skip(j),
    decreases s.len() - j,
{
    if j < s.len() {
        let s1 = s.drop_last();
        assert forall|i: int| j <= i < s1.len() implies !key_le(#[trigger] s1[i], x) by {
            assert(s1[i] == s[i]);
        }
        lemma_ins_split(s1, x, j);
        assert(s1.take(j) =~= s.take(j));
        assert(!key_le(s[s.len() - 1], x));
        assert(s1.skip(j).push(s.last()) =~= s.skip(j));
        assert(ins(s1.take(j), x) + s1.skip(j).push(s.last()) =~= (ins(s1.take(j), x)
            + s1.skip(j)).push(s.last()));
    } else {
        assert(s.take(j) =~= s);
        assert(ins(s, x) + s.skip(j) =~= ins(s, x));
    }
}

/// Stable sort by key (`sort_by` semantics: equal keys keep their order).
pub fn stable_sort<T: View>(items: Vec<Keyed<T>>) -> (out: Vec<Keyed<T>>)
    ensures
        kview(out@) == sorted_by_key(kview(items@)),
{
    let ghost orig = kview(items@);
    let n = items.len();
    let mut rest = items;
    let mut out: Vec<Keyed<T>> = Vec::new();
    assert(orig.take(0) =~= Seq::<KeyedView<T::V>>::empty());
    assert(kview(out@) =~= Seq::<KeyedView<T::V>>::empty());
    assert(kview(rest@) =~= orig.skip(0));
    while rest.len() > 0
        invariant
            n == orig.len(),
            rest.len() <= n,
            kview(rest@) == orig.skip(n - rest.len()),
            kview(out@) == sorted_by_key(orig.take(n - rest.len())),
        decreases rest.len(),
    {
        let ghost done = n - rest.len();
        let ghost rest_before = rest@;
        let x = rest.remove(0);
        assert(kview(rest@) =~= orig.skip(done + 1)) by {
            assert(kview(rest_before) =~= orig.skip(done));
            assert forall|i: int| 0 <= i < rest@.len() implies kview(rest@)[i] == orig.skip(done + 1)[i] by {
                assert(rest@[i] == rest_before[i + 1]);
                assert(kview(rest_before)[i + 1] == orig.skip(done)[i + 1]);
            }
        }
        let ghost xv = (x.text@, x.num as nat, x.item@);
        assert(xv == orig[done]) by {
            assert(kview(rest_before)[0] == orig.skip(done)[0]);
        }
        assert(orig.take(done + 1).drop_last() =~= orig.take(done));
        let ghost before = kview(out@);
        let ghost out_before = out@;
        let mut j = out.len();
        while j > 0 && !key_le_exec(&out[j - 1], &x)
            invariant
                j <= out.len(),
                out@ == out_before,
                before == kview(out@),
                xv == (x.text@, x.num as nat, x.item@),
                forall|i: int| j <= i < out.len() ==> !key_le(#[trigger] before[i], xv),
            decreases j,
        {
            j = j - 1;
        }
        proof {
            lemma_ins_split(before, xv, j as int);
            if j > 0 {
                assert(before.take(j as int).drop_last() =~= before.take(j - 1));
                assert(before.take(j as int).last() == before[j - 1]);
            }
            assert(ins(before.take(j as int), xv) == before.take(j as int).push(xv));
        }
        out.insert(j, x);
        assert(kview(out@) =~= before.take(j as int).push(xv) + before.skip(j as int));
    }
    assert(orig.take(n as int) =~= orig);
    out
}

} // verus!
