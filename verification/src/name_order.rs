//! The order in which names are walked.
//!
//! Names (exported and imported names, module identifiers, import URLs) are ordered as Rust orders
//! strings: lexicographically by the bytes of their UTF-8 encoding. The order is a strict total order,
//! so a finite set of names has exactly one strictly increasing enumeration, [`sorted_names`].

use vstd::prelude::*;
use vstd::string::StringSliceAdditionalSpecFns;
use vstd::utf8::{encode_utf8, encode_utf8_decode_utf8};

verus! {

/// Lexicographic "less than" on the parts of `a` and `b` that start at index `i`.
pub open spec fn bytes_lt_from(a: Seq<u8>, b: Seq<u8>, i: int) -> bool
    decreases a.len() - i,
{
    if i < 0 || i >= b.len() {
        false
    } else if i >= a.len() {
        true
    } else if a[i] != b[i] {
        a[i] < b[i]
    } else {
        bytes_lt_from(a, b, i + 1)
    }
}

/// `a` comes strictly before `b`: the UTF-8 encoding of `a` is lexicographically smaller.
pub open spec fn name_lt(a: Seq<char>, b: Seq<char>) -> bool {
    bytes_lt_from(encode_utf8(a), encode_utf8(b), 0)
}

/// Every element comes strictly before every later element.
pub open spec fn strictly_sorted(s: Seq<Seq<char>>) -> bool {
    forall|i: int, j: int| #![trigger s[i], s[j]] 0 <= i < j < s.len() ==> name_lt(s[i], s[j])
}

/// The strictly increasing enumeration of a finite set of names.
pub open spec fn sorted_names(names: Set<Seq<char>>) -> Seq<Seq<char>> {
    choose|s: Seq<Seq<char>>| strictly_sorted(s) && s.to_set() == names
}

proof fn lemma_bytes_lt_irreflexive(a: Seq<u8>, i: int)
    ensures
        !bytes_lt_from(a, a, i),
    decreases a.len() - i,
{
    if 0 <= i < a.len() {
        lemma_bytes_lt_irreflexive(a, i + 1);
    }
}

proof fn lemma_bytes_lt_transitive(a: Seq<u8>, b: Seq<u8>, c: Seq<u8>, i: int)
    requires
        bytes_lt_from(a, b, i),
        bytes_lt_from(b, c, i),
    ensures
        bytes_lt_from(a, c, i),
    decreases a.len() - i,
{
    if i < a.len() && a[i] == b[i] && b[i] == c[i] {
        lemma_bytes_lt_transitive(a, b, c, i + 1);
    }
}

proof fn lemma_bytes_lt_connected(a: Seq<u8>, b: Seq<u8>, i: int)
    requires
        0 <= i <= a.len(),
        i <= b.len(),
        !bytes_lt_from(a, b, i),
        !bytes_lt_from(b, a, i),
    ensures
        a.len() == b.len(),
        forall|j: int| i <= j < a.len() ==> a[j] == b[j],
    decreases a.len() - i,
{
    if i < a.len() && i < b.len() {
        lemma_bytes_lt_connected(a, b, i + 1);
    }
}

/// No name comes before itself.
pub proof fn lemma_name_lt_irreflexive(a: Seq<char>)
    ensures
        !name_lt(a, a),
{
    lemma_bytes_lt_irreflexive(encode_utf8(a), 0);
}

/// The order is transitive.
pub proof fn lemma_name_lt_transitive(a: Seq<char>, b: Seq<char>, c: Seq<char>)
    requires
        name_lt(a, b),
        name_lt(b, c),
    ensures
        name_lt(a, c),
{
    lemma_bytes_lt_transitive(encode_utf8(a), encode_utf8(b), encode_utf8(c), 0);
}

/// Two names never come before each other.
pub proof fn lemma_name_lt_asymmetric(a: Seq<char>, b: Seq<char>)
    ensures
        !(name_lt(a, b) && name_lt(b, a)),
{
    if name_lt(a, b) && name_lt(b, a) {
        lemma_name_lt_transitive(a, b, a);
        lemma_name_lt_irreflexive(a);
    }
}

/// Two different names are always ordered, one way or the other.
pub proof fn lemma_name_lt_connected(a: Seq<char>, b: Seq<char>)
    ensures
        a == b || name_lt(a, b) || name_lt(b, a),
{
    if !name_lt(a, b) && !name_lt(b, a) {
        lemma_bytes_lt_connected(encode_utf8(a), encode_utf8(b), 0);
        assert(encode_utf8(a) =~= encode_utf8(b));
        encode_utf8_decode_utf8(a);
        encode_utf8_decode_utf8(b);
    }
}

/// Two strictly sorted sequences that hold the same names are the same sequence.
pub proof fn lemma_strictly_sorted_unique(s: Seq<Seq<char>>, t: Seq<Seq<char>>)
    requires
        strictly_sorted(s),
        strictly_sorted(t),
        forall|x: Seq<char>| s.contains(x) <==> t.contains(x),
    ensures
        s == t,
    decreases s.len(),
{
    if s.len() == 0 {
        if t.len() > 0 {
            assert(t.contains(t[0]));
            assert(s.contains(t[0]));
        }
        assert(s =~= t);
    } else {
        let m = s.last();
        assert(s[s.len() - 1] == m);
        assert(s.contains(m));
        assert(t.contains(m));
        let k = choose|k: int| 0 <= k < t.len() && t[k] == m;
        let n = t.last();
        assert(t[t.len() - 1] == n);
        assert(t.contains(n));
        assert(s.contains(n));
        let l = choose|l: int| 0 <= l < s.len() && s[l] == n;
        lemma_name_lt_irreflexive(m);
        lemma_name_lt_asymmetric(m, n);
        assert(k == t.len() - 1 && l == s.len() - 1);
        let s0 = s.drop_last();
        let t0 = t.drop_last();
        assert forall|x: Seq<char>| s0.contains(x) <==> t0.contains(x) by {
            lemma_name_lt_irreflexive(x);
            if s0.contains(x) {
                let i = choose|i: int| 0 <= i < s0.len() && s0[i] == x;
                assert(s[i] == x);
                assert(name_lt(s[i], s[s.len() - 1]));
                assert(s.contains(x));
                let j = choose|j: int| 0 <= j < t.len() && t[j] == x;
                assert(t0[j] == x);
            }
            if t0.contains(x) {
                let i = choose|i: int| 0 <= i < t0.len() && t0[i] == x;
                assert(t[i] == x);
                assert(name_lt(t[i], t[t.len() - 1]));
                assert(t.contains(x));
                let j = choose|j: int| 0 <= j < s.len() && s[j] == x;
                assert(s0[j] == x);
            }
        }
        assert(strictly_sorted(s0)) by {
            assert forall|i: int, j: int| 0 <= i < j < s0.len() implies name_lt(s0[i], s0[j]) by {
                assert(name_lt(s[i], s[j]));
            }
        }
        assert(strictly_sorted(t0)) by {
            assert forall|i: int, j: int| 0 <= i < j < t0.len() implies name_lt(t0[i], t0[j]) by {
                assert(name_lt(t[i], t[j]));
            }
        }
        lemma_strictly_sorted_unique(s0, t0);
        assert(s =~= s0.push(m));
        assert(t =~= t0.push(n));
    }
}

/// A strictly sorted sequence is the enumeration of the set of its elements.
pub proof fn lemma_sorted_names(s: Seq<Seq<char>>)
    requires
        strictly_sorted(s),
    ensures
        sorted_names(s.to_set()) == s,
{
    let t = sorted_names(s.to_set());
    assert(strictly_sorted(t) && t.to_set() == s.to_set());
    assert forall|x: Seq<char>| s.contains(x) <==> t.contains(x) by {
        assert(s.to_set().contains(x) == s.contains(x));
        assert(t.to_set().contains(x) == t.contains(x));
    }
    lemma_strictly_sorted_unique(s, t);
}

/// Whether the names of `names` can be enumerated in strictly increasing order, as those of
/// every finite set can: then [`sorted_names`] is that enumeration.
pub open spec fn enumerates(names: Set<Seq<char>>) -> bool {
    &&& strictly_sorted(sorted_names(names))
    &&& forall|x: Seq<char>| sorted_names(names).contains(x) <==> names.contains(x)
}

/// The names of a strictly sorted sequence are enumerated by it.
pub proof fn lemma_enumerates(s: Seq<Seq<char>>, names: Set<Seq<char>>)
    requires
        strictly_sorted(s),
        forall|x: Seq<char>| s.contains(x) <==> names.contains(x),
    ensures
        enumerates(names),
        sorted_names(names) == s,
{
    assert(s.to_set() =~= names);
    lemma_sorted_names(s);
}

/// A strictly sorted sequence with one name more, if it does not hold that name yet.
proof fn lemma_sorted_insert(s: Seq<Seq<char>>, x: Seq<char>) -> (t: Seq<Seq<char>>)
    requires
        strictly_sorted(s),
    ensures
        strictly_sorted(t),
        forall|y: Seq<char>| t.contains(y) <==> (s.contains(y) || y == x),
    decreases s.len(),
{
    if s.len() == 0 {
        let t = seq![x];
        assert(t[0] == x);
        t
    } else {
        let last = s.last();
        assert(s[s.len() - 1] == last);
        lemma_name_lt_connected(last, x);
        if last == x {
            s
        } else if name_lt(last, x) {
            let t = s.push(x);
            assert forall|i: int, j: int| 0 <= i < j < t.len() implies name_lt(
                #[trigger] t[i],
                #[trigger] t[j],
            ) by {
                if j == s.len() {
                    if i < s.len() - 1 {
                        assert(name_lt(s[i], s[s.len() - 1]));
                        lemma_name_lt_transitive(s[i], last, x);
                    }
                } else {
                    assert(name_lt(s[i], s[j]));
                }
            }
            assert forall|y: Seq<char>| t.contains(y) <==> (s.contains(y) || y == x) by {
                if s.contains(y) {
                    let i = choose|i: int| 0 <= i < s.len() && s[i] == y;
                    assert(t[i] == y);
                }
                if y == x {
                    assert(t[s.len() as int] == y);
                }
                if t.contains(y) {
                    let i = choose|i: int| 0 <= i < t.len() && t[i] == y;
                    if i < s.len() {
                        assert(s[i] == y);
                    }
                }
            }
            t
        } else {
            let s0 = s.drop_last();
            assert forall|i: int, j: int| 0 <= i < j < s0.len() implies name_lt(
                #[trigger] s0[i],
                #[trigger] s0[j],
            ) by {
                assert(name_lt(s[i], s[j]));
            }
            let t0 = lemma_sorted_insert(s0, x);
            let t = t0.push(last);
            assert forall|i: int, j: int| 0 <= i < j < t.len() implies name_lt(
                #[trigger] t[i],
                #[trigger] t[j],
            ) by {
                if j == t0.len() {
                    assert(t0.contains(t0[i]));
                    if s0.contains(t0[i]) {
                        let k = choose|k: int| 0 <= k < s0.len() && s0[k] == t0[i];
                        assert(name_lt(s[k], s[s.len() - 1]));
                    }
                } else {
                    assert(name_lt(t0[i], t0[j]));
                }
            }
            assert forall|y: Seq<char>| t.contains(y) <==> (s.contains(y) || y == x) by {
                if s.contains(y) {
                    let i = choose|i: int| 0 <= i < s.len() && s[i] == y;
                    if i < s0.len() {
                        assert(s0[i] == y);
                        assert(s0.contains(y));
                        let k = choose|k: int| 0 <= k < t0.len() && t0[k] == y;
                        assert(t[k] == y);
                    } else {
                        assert(t[t0.len() as int] == y);
                    }
                }
                if y == x {
                    assert(t0.contains(x));
                    let k = choose|k: int| 0 <= k < t0.len() && t0[k] == y;
                    assert(t[k] == y);
                }
                if t.contains(y) {
                    let i = choose|i: int| 0 <= i < t.len() && t[i] == y;
                    if i < t0.len() {
                        assert(t0[i] == y);
                        assert(t0.contains(y));
                        if s0.contains(y) {
                            let k = choose|k: int| 0 <= k < s0.len() && s0[k] == y;
                            assert(s[k] == y);
                        }
                    }
                }
            }
            t
        }
    }
}

/// The empty set is enumerated by the empty sequence.
pub proof fn lemma_enumerates_empty()
    ensures
        enumerates(Set::<Seq<char>>::empty()),
        sorted_names(Set::<Seq<char>>::empty()) == Seq::<Seq<char>>::empty(),
{
    lemma_enumerates(Seq::<Seq<char>>::empty(), Set::<Seq<char>>::empty());
}

/// A set that can be enumerated can be enumerated with one name more.
pub proof fn lemma_enumerates_insert(names: Set<Seq<char>>, x: Seq<char>)
    requires
        enumerates(names),
    ensures
        enumerates(names.insert(x)),
{
    let t = lemma_sorted_insert(sorted_names(names), x);
    lemma_enumerates(t, names.insert(x));
}

/// Whether `a` comes strictly before `b`.
pub fn str_lt(a: &str, b: &str) -> (r: bool)
    ensures
        r == name_lt(a@, b@),
{
    let x = a.as_bytes();
    let y = b.as_bytes();
    let mut i: usize = 0;
    while i < x.len() && i < y.len()
        invariant
            i <= x.len(),
            i <= y.len(),
            x@ == encode_utf8(a@),
            y@ == encode_utf8(b@),
            name_lt(a@, b@) == bytes_lt_from(x@, y@, i as int),
        decreases x.len() - i,
    {
        if x[i] != y[i] {
            return x[i] < y[i];
        }
        i = i + 1;
    }
    i < y.len()
}

/// Whether `a` and `b` are the same name.
pub fn str_eq(a: &str, b: &str) -> (r: bool)
    ensures
        r == (a@ == b@),
{
    let x = a.as_bytes();
    let y = b.as_bytes();
    proof {
        encode_utf8_decode_utf8(a@);
        encode_utf8_decode_utf8(b@);
    }
    if x.len() != y.len() {
        return false;
    }
    let mut i: usize = 0;
    while i < x.len()
        invariant
            i <= x.len(),
            x.len() == y.len(),
            x@ == encode_utf8(a@),
            y@ == encode_utf8(b@),
            forall|j: int| 0 <= j < i ==> x@[j] == y@[j],
        decreases x.len() - i,
    {
        if x[i] != y[i] {
            return false;
        }
        i = i + 1;
    }
    assert(x@ =~= y@);
    true
}

} // verus!
