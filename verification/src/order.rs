//! The order of `str` (`Ord for str`: lexicographic by code point, which is
//! the byte order of UTF-8) and a stable sort of records by a string key.

use vstd::prelude::*;

use crate::text::chars_of;

verus! {

broadcast use vstd::seq::group_seq_axioms;

/// `a < b` in the order of `str`.
pub open spec fn str_lt(a: Seq<char>, b: Seq<char>) -> bool
    decreases a.len(),
{
    if b.len() == 0 {
        false
    } else if a.len() == 0 {
        true
    } else if a[0] != b[0] {
        (a[0] as int) < (b[0] as int)
    } else {
        str_lt(a.drop_first(), b.drop_first())
    }
}

/// `a <= b` in the order of `str`.
pub open spec fn str_le(a: Seq<char>, b: Seq<char>) -> bool {
    a == b || str_lt(a, b)
}

pub proof fn lemma_str_lt_irreflexive(a: Seq<char>)
    ensures
        !str_lt(a, a),
    decreases a.len(),
{
    if a.len() > 0 {
        lemma_str_lt_irreflexive(a.drop_first());
    }
}

pub proof fn lemma_str_lt_transitive(a: Seq<char>, b: Seq<char>, c: Seq<char>)
    requires
        str_lt(a, b),
        str_lt(b, c),
    ensures
        str_lt(a, c),
    decreases a.len(),
{
    if a.len() > 0 && b.len() > 0 && c.len() > 0 {
        if a[0] == b[0] && b[0] == c[0] {
            lemma_str_lt_transitive(a.drop_first(), b.drop_first(), c.drop_first());
        }
    }
}

/// The order of `str` is total: of two different strings one is smaller.
pub proof fn lemma_str_lt_total(a: Seq<char>, b: Seq<char>)
    ensures
        a == b || str_lt(a, b) || str_lt(b, a),
    decreases a.len(),
{
    if a.len() > 0 && b.len() > 0 && a[0] == b[0] {
        lemma_str_lt_total(a.drop_first(), b.drop_first());
        if a.drop_first() == b.drop_first() {
            assert(a =~= seq![a[0]] + a.drop_first());
            assert(b =~= seq![b[0]] + b.drop_first());
        }
    } else if a.len() == 0 && b.len() == 0 {
        assert(a =~= b);
    } else if a.len() > 0 && b.len() > 0 {
        assert((a[0] as int) != (b[0] as int));
    }
}

pub proof fn lemma_str_le_transitive(a: Seq<char>, b: Seq<char>, c: Seq<char>)
    requires
        str_le(a, b),
        str_le(b, c),
    ensures
        str_le(a, c),
{
    if str_lt(a, b) && str_lt(b, c) {
        lemma_str_lt_transitive(a, b, c);
    }
}

/// Whether `a < b` in the order of `str`.
pub fn str_less(a: &str, b: &str) -> (r: bool)
    ensures
        r == str_lt(a@, b@),
{
    let x = chars_of(a);
    let y = chars_of(b);
    let mut i: usize = 0;
    assert(a@.skip(0) =~= a@);
    assert(b@.skip(0) =~= b@);
    while i < x.len() && i < y.len() && x[i] == y[i]
        invariant
            i <= x@.len(),
            i <= y@.len(),
            x@ == a@,
            y@ == b@,
            str_lt(a@, b@) == str_lt(a@.skip(i as int), b@.skip(i as int)),
        decreases x.len() - i,
    {
        assert(a@.skip(i as int).drop_first() =~= a@.skip(i + 1));
        assert(b@.skip(i as int).drop_first() =~= b@.skip(i + 1));
        i = i + 1;
    }
    if i == y.len() {
        assert(b@.skip(i as int).len() == 0);
        false
    } else if i == x.len() {
        assert(a@.skip(i as int).len() == 0);
        true
    } else {
        assert(a@.skip(i as int)[0] == a@[i as int]);
        assert(b@.skip(i as int)[0] == b@[i as int]);
        x[i] < y[i]
    }
}

/// A record with a string key.
pub trait Keyed {
    spec fn key_of(&self) -> Seq<char>;

    fn key(&self) -> (r: &str)
        ensures
            r@ == self.key_of(),
    ;
}

/// The keys of `s` do not decrease.
pub open spec fn sorted_by_key<T: Keyed>(s: Seq<T>) -> bool {
    forall|i: int, j: int| 0 <= i < j < s.len() ==> str_le(#[trigger] s[i].key_of(), #[trigger] s[j].key_of())
}

/// Where `x` goes in `t`: before the first record whose key is not smaller.
pub open spec fn insert_point<T: Keyed>(t: Seq<T>, x: T) -> nat
    decreases t.len(),
{
    if t.len() == 0 {
        0
    } else if str_lt(t[0].key_of(), x.key_of()) {
        1 + insert_point(t.drop_first(), x)
    } else {
        0
    }
}

/// `s` sorted by key, records with equal keys in their order in `s`: each
/// record goes before the first record of the sorted rest whose key is not
/// smaller than its own.
pub open spec fn key_sorted<T: Keyed>(s: Seq<T>) -> Seq<T>
    decreases s.len(),
{
    if s.len() == 0 {
        Seq::empty()
    } else {
        let rest = key_sorted(s.drop_first());
        rest.insert(insert_point(rest, s[0]) as int, s[0])
    }
}

proof fn lemma_insert_point<T: Keyed>(t: Seq<T>, x: T, p: int)
    requires
        0 <= p <= t.len(),
        forall|k: int| 0 <= k < p ==> str_lt(#[trigger] t[k].key_of(), x.key_of()),
        p < t.len() ==> !str_lt(t[p].key_of(), x.key_of()),
    ensures
        insert_point(t, x) == p,
    decreases p,
{
    if p > 0 {
        assert(str_lt(t[0].key_of(), x.key_of()));
        assert forall|k: int| 0 <= k < p - 1 implies str_lt(#[trigger] t.drop_first()[k].key_of(), x.key_of()) by {
            assert(t.drop_first()[k] == t[k + 1]);
        }
        lemma_insert_point(t.drop_first(), x, p - 1);
    }
}

/// `v` ordered by key; records with equal keys keep their order.
pub fn sort_by_key<T: Keyed>(v: Vec<T>) -> (r: Vec<T>)
    ensures
        r@ == key_sorted(v@),
        sorted_by_key(r@),
        r@.to_multiset() == v@.to_multiset(),
        r@.len() == v@.len(),
{
    broadcast use vstd::seq_lib::group_to_multiset_ensures;

    let mut v = v;
    let ghost orig = v@;
    let mut out: Vec<T> = Vec::new();
    while v.len() > 0
        invariant
            sorted_by_key(out@),
            orig.to_multiset() == v@.to_multiset().add(out@.to_multiset()),
            orig.len() == v@.len() + out@.len(),
            v@ == orig.take(v@.len() as int),
            out@ == key_sorted(orig.skip(v@.len() as int)),
        decreases v.len(),
    {
        let ghost before_v = v@;
        let x = v.pop().unwrap();
        proof {
            assert(before_v =~= v@.push(x));
        }
        let mut p: usize = 0;
        while p < out.len() && str_less(out[p].key(), x.key())
            invariant
                p <= out@.len(),
                forall|k: int| 0 <= k < p ==> str_lt(#[trigger] out@[k].key_of(), x.key_of()),
            decreases out.len() - p,
        {
            p = p + 1;
        }
        let ghost before_out = out@;
        proof {
            if p < out@.len() {
                lemma_str_lt_total(out@[p as int].key_of(), x.key_of());
            }
            lemma_insert_point(before_out, x, p as int);
            let n = v@.len() as int;
            assert(orig.skip(n).drop_first() =~= orig.skip(n + 1));
            assert(orig.skip(n)[0] == x);
            assert(v@ =~= orig.take(n));
        }
        out.insert(p, x);
        proof {
            assert forall|i: int, j: int| 0 <= i < j < out@.len() implies str_le(
                #[trigger] out@[i].key_of(),
                #[trigger] out@[j].key_of(),
            ) by {
                if j == p {
                    assert(out@[i] == before_out[i]);
                } else if i == p {
                    let b = before_out[j - 1];
                    assert(out@[j] == b);
                    if p < before_out.len() {
                        assert(str_le(x.key_of(), before_out[p as int].key_of()));
                        if j - 1 > p {
                            assert(str_le(before_out[p as int].key_of(), b.key_of()));
                        }
                        lemma_str_le_transitive(x.key_of(), before_out[p as int].key_of(), b.key_of());
                    }
                } else {
                    let ii = if i < p { i } else { i - 1 };
                    let jj = if j < p { j } else { j - 1 };
                    assert(out@[i] == before_out[ii]);
                    assert(out@[j] == before_out[jj]);
                }
            }
            vstd::seq_lib::to_multiset_insert(before_out, p as int, x);
            vstd::seq_lib::to_multiset_build(v@, x);
            assert(before_v.to_multiset() == v@.to_multiset().insert(x));
            assert(orig.to_multiset() =~= v@.to_multiset().add(out@.to_multiset()));
        }
    }
    proof {
        assert(v@.to_multiset() =~= vstd::multiset::Multiset::empty());
        assert(orig.to_multiset() =~= out@.to_multiset());
        assert(orig.skip(0) =~= orig);
    }
    out
}

} // verus!
