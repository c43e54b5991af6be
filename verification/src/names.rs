//! The order of names: strings are ordered by their bytes in UTF-8, and a
//! set of names is kept as a list in strictly rising order.

use vstd::prelude::*;
use vstd::string::StringSliceAdditionalSpecFns;
use vstd::utf8::encode_utf8;

use crate::text::string_views;

verus! {

/// Whether `a` comes before `b` when the two are compared byte by byte, the
/// shorter first where one starts the other.
pub open spec fn bytes_lt(a: Seq<u8>, b: Seq<u8>) -> bool
    decreases a.len(),
{
    if b.len() == 0 {
        false
    } else if a.len() == 0 {
        true
    } else if a[0] != b[0] {
        a[0] < b[0]
    } else {
        bytes_lt(a.drop_first(), b.drop_first())
    }
}

/// Whether the name `a` comes before the name `b`.
pub open spec fn name_lt(a: Seq<char>, b: Seq<char>) -> bool {
    bytes_lt(encode_utf8(a), encode_utf8(b))
}

/// Whether each name comes before all that follow it.
pub open spec fn strictly_sorted(names: Seq<Seq<char>>) -> bool {
    forall|i: int, j: int| 0 <= i < j < names.len() ==> name_lt(names[i], names[j])
}

/// Whether two lists hold the same names, however often and in whatever
/// order.
pub open spec fn same_names(a: Seq<Seq<char>>, b: Seq<Seq<char>>) -> bool {
    forall|x: Seq<char>| a.contains(x) <==> b.contains(x)
}

/// Nothing comes before itself.
pub proof fn lemma_bytes_lt_irreflexive(a: Seq<u8>)
    ensures
        !bytes_lt(a, a),
    decreases a.len(),
{
    if a.len() > 0 {
        lemma_bytes_lt_irreflexive(a.drop_first());
    }
}

/// The order is transitive.
pub proof fn lemma_bytes_lt_transitive(a: Seq<u8>, b: Seq<u8>, c: Seq<u8>)
    requires
        bytes_lt(a, b),
        bytes_lt(b, c),
    ensures
        bytes_lt(a, c),
    decreases a.len(),
{
    if a.len() > 0 && a[0] == b[0] && b[0] == c[0] {
        lemma_bytes_lt_transitive(a.drop_first(), b.drop_first(), c.drop_first());
    }
}

/// Of two different byte strings one comes before the other.
pub proof fn lemma_bytes_lt_total(a: Seq<u8>, b: Seq<u8>)
    ensures
        bytes_lt(a, b) || bytes_lt(b, a) || a == b,
    decreases a.len(),
{
    if a.len() > 0 && b.len() > 0 && a[0] == b[0] {
        lemma_bytes_lt_total(a.drop_first(), b.drop_first());
        if a.drop_first() == b.drop_first() {
            assert(a =~= seq![a[0]] + a.drop_first());
            assert(b =~= seq![b[0]] + b.drop_first());
        }
    } else if a.len() == 0 && b.len() == 0 {
        assert(a =~= b);
    }
}

/// Names are ordered as their bytes are: no name comes before itself, the
/// order is transitive, and of two different names one comes first.
pub proof fn lemma_name_order(a: Seq<char>, b: Seq<char>, c: Seq<char>)
    ensures
        !name_lt(a, a),
        name_lt(a, b) && name_lt(b, c) ==> name_lt(a, c),
        name_lt(a, b) || name_lt(b, a) || a == b,
{
    lemma_bytes_lt_irreflexive(encode_utf8(a));
    if name_lt(a, b) && name_lt(b, c) {
        lemma_bytes_lt_transitive(encode_utf8(a), encode_utf8(b), encode_utf8(c));
    }
    lemma_bytes_lt_total(encode_utf8(a), encode_utf8(b));
    vstd::utf8::encode_utf8_decode_utf8(a);
    vstd::utf8::encode_utf8_decode_utf8(b);
}

/// Whether `a` comes before `b`.
pub fn str_lt(a: &str, b: &str) -> (r: bool)
    ensures
        r == name_lt(a@, b@),
{
    let x = a.as_bytes();
    let y = b.as_bytes();
    let mut i: usize = 0;
    proof {
        assert(x@.skip(0) =~= x@);
        assert(y@.skip(0) =~= y@);
    }
    loop
        invariant_except_break
            i <= x@.len(),
            i <= y@.len(),
            x@ == a.spec_bytes(),
            y@ == b.spec_bytes(),
            bytes_lt(x@, y@) == bytes_lt(x@.skip(i as int), y@.skip(i as int)),
        ensures
            x@ == a.spec_bytes(),
            y@ == b.spec_bytes(),
            i <= x@.len(),
            i <= y@.len(),
            bytes_lt(x@, y@) == bytes_lt(x@.skip(i as int), y@.skip(i as int)),
            i == y@.len() || i == x@.len() || x@[i as int] != y@[i as int],
        decreases x@.len() - i,
    {
        if i >= y.len() || i >= x.len() {
            break ;
        }
        if x[i] != y[i] {
            break ;
        }
        proof {
            assert(x@.skip(i as int).drop_first() =~= x@.skip(i + 1));
            assert(y@.skip(i as int).drop_first() =~= y@.skip(i + 1));
        }
        i += 1;
    }
    if i >= y.len() {
        false
    } else if i >= x.len() {
        true
    } else {
        x[i] < y[i]
    }
}

/// A strictly sorted list holds no name twice.
pub proof fn lemma_sorted_distinct(names: Seq<Seq<char>>, i: int, j: int)
    requires
        strictly_sorted(names),
        0 <= i < names.len(),
        0 <= j < names.len(),
        names[i] == names[j],
    ensures
        i == j,
{
    lemma_name_order(names[i], names[i], names[i]);
}

/// Two strictly sorted lists of the same names are the same list: the
/// list does not depend on the order in which the names were given.
pub proof fn lemma_sorted_unique(a: Seq<Seq<char>>, b: Seq<Seq<char>>)
    requires
        strictly_sorted(a),
        strictly_sorted(b),
        same_names(a, b),
    ensures
        a == b,
    decreases a.len(),
{
    if a.len() == 0 {
        if b.len() > 0 {
            assert(b.contains(b[0]));
            assert(a.contains(b[0]));
        }
        assert(a =~= b);
    } else if b.len() == 0 {
        assert(a.contains(a[0]));
        assert(b.contains(a[0]));
    } else {
        let x = a[0];
        let y = b[0];
        assert(a.contains(x));
        assert(b.contains(y));
        assert(b.contains(x));
        assert(a.contains(y));
        let p = choose|p: int| 0 <= p < b.len() && b[p] == x;
        let q = choose|q: int| 0 <= q < a.len() && a[q] == y;
        lemma_name_order(x, y, x);
        if x != y {
            // x is b[p] with p > 0, so y comes before x; y is a[q] with
            // q > 0, so x comes before y.
            assert(name_lt(b[0], b[p]));
            assert(name_lt(a[0], a[q]));
        }
        let ta = a.drop_first();
        let tb = b.drop_first();
        assert forall|z: Seq<char>| ta.contains(z) <==> tb.contains(z) by {
            if ta.contains(z) {
                let k = choose|k: int| 0 <= k < ta.len() && ta[k] == z;
                assert(a[k + 1] == z);
                assert(a.contains(z));
                assert(b.contains(z));
                let m = choose|m: int| 0 <= m < b.len() && b[m] == z;
                assert(name_lt(a[0], a[k + 1]));
                lemma_name_order(x, x, x);
                assert(m != 0);
                assert(tb[m - 1] == z);
            }
            if tb.contains(z) {
                let k = choose|k: int| 0 <= k < tb.len() && tb[k] == z;
                assert(b[k + 1] == z);
                assert(b.contains(z));
                assert(a.contains(z));
                let m = choose|m: int| 0 <= m < a.len() && a[m] == z;
                assert(name_lt(b[0], b[k + 1]));
                lemma_name_order(y, y, y);
                assert(m != 0);
                assert(ta[m - 1] == z);
            }
        }
        assert(strictly_sorted(ta)) by {
            assert forall|i: int, j: int| 0 <= i < j < ta.len() implies name_lt(ta[i], ta[j]) by {
                assert(name_lt(a[i + 1], a[j + 1]));
            }
        }
        assert(strictly_sorted(tb)) by {
            assert forall|i: int, j: int| 0 <= i < j < tb.len() implies name_lt(tb[i], tb[j]) by {
                assert(name_lt(b[i + 1], b[j + 1]));
            }
        }
        lemma_sorted_unique(ta, tb);
        assert(a =~= seq![x] + ta);
        assert(b =~= seq![y] + tb);
    }
}

/// The names of a list as a set: each once, in strictly rising order.
pub open spec fn sorted_set(names: Seq<Seq<char>>) -> Seq<Seq<char>> {
    choose|sorted: Seq<Seq<char>>| strictly_sorted(sorted) && same_names(sorted, names)
}

/// A strictly sorted list of the names of another is the set of that
/// other's names.
pub proof fn lemma_sorted_set(sorted: Seq<Seq<char>>, names: Seq<Seq<char>>)
    requires
        strictly_sorted(sorted),
        same_names(sorted, names),
    ensures
        sorted == sorted_set(names),
{
    let chosen = sorted_set(names);
    assert(strictly_sorted(chosen) && same_names(chosen, names));
    assert(same_names(sorted, chosen)) by {
        assert forall|x: Seq<char>| sorted.contains(x) <==> chosen.contains(x) by {
            assert(sorted.contains(x) <==> names.contains(x));
            assert(chosen.contains(x) <==> names.contains(x));
        }
    }
    lemma_sorted_unique(sorted, chosen);
}

/// The names of the list in strictly rising order, each once.
pub fn sorted_names(names: &Vec<String>) -> (r: Vec<String>)
    ensures
        strictly_sorted(string_views(r@)),
        same_names(string_views(r@), string_views(names@)),
        string_views(r@) == sorted_set(string_views(names@)),
{
    let ghost given = string_views(names@);
    let mut r: Vec<String> = Vec::new();
    let mut i: usize = 0;
    while i < names.len()
        invariant
            i <= names@.len(),
            given == string_views(names@),
            strictly_sorted(string_views(r@)),
            forall|x: Seq<char>|
                string_views(r@).contains(x) <==> given.take(i as int).contains(x),
        decreases names@.len() - i,
    {
        let ghost before = string_views(r@);
        let ghost upto = given.take(i as int);
        let ghost next = given.take(i + 1);
        let name = &names[i];
        assert(given[i as int] == name@);
        let mut p: usize = 0;
        while p < r.len() && str_lt(r[p].as_str(), name.as_str())
            invariant
                p <= r@.len(),
                before == string_views(r@),
                forall|k: int| 0 <= k < p ==> name_lt(before[k], name@),
            decreases r@.len() - p,
        {
            assert(before[p as int] == r@[p as int]@);
            p += 1;
        }
        let found: bool = p < r.len() && crate::text::str_eq(r[p].as_str(), name.as_str());
        proof {
            if p < r@.len() {
                assert(before[p as int] == r@[p as int]@);
            }
        }
        if !found {
            r.insert(p, name.clone());
            let ghost after = string_views(r@);
            assert(after =~= before.insert(p as int, name@));
            assert(strictly_sorted(after)) by {
                assert forall|a: int, b: int| 0 <= a < b < after.len() implies name_lt(
                    after[a],
                    after[b],
                ) by {
                    if b == p {
                        assert(after[a] == before[a]);
                    } else if a == p {
                        // the name comes before what stood at `p`, which
                        // comes before all that follows
                        assert(after[b] == before[b - 1]);
                        lemma_name_order(before[p as int], name@, before[b - 1]);
                        lemma_name_order(name@, before[p as int], before[b - 1]);
                        if b - 1 > p {
                            assert(name_lt(before[p as int], before[b - 1]));
                        }
                    } else {
                        let a0 = if a < p {
                            a
                        } else {
                            a - 1
                        };
                        let b0 = if b < p {
                            b
                        } else {
                            b - 1
                        };
                        assert(after[a] == before[a0]);
                        assert(after[b] == before[b0]);
                        assert(name_lt(before[a0], before[b0]));
                    }
                }
            }
            assert forall|x: Seq<char>| after.contains(x) <==> next.contains(x) by {
                assert(next =~= upto.push(name@));
                if after.contains(x) {
                    let k = choose|k: int| 0 <= k < after.len() && after[k] == x;
                    if k < p {
                        assert(before[k] == x);
                        assert(before.contains(x));
                    } else if k > p {
                        assert(before[k - 1] == x);
                        assert(before.contains(x));
                    }
                    if before.contains(x) {
                        let m = choose|m: int|
                            0 <= m < upto.len() && upto[m] == x;
                        assert(next[m] == x);
                    } else {
                        assert(next[i as int] == x);
                    }
                }
                if next.contains(x) {
                    let m = choose|m: int|
                        0 <= m < next.len() && next[m] == x;
                    if m < i {
                        assert(upto[m] == x);
                        assert(upto.contains(x));
                        assert(before.contains(x));
                        let k = choose|k: int| 0 <= k < before.len() && before[k] == x;
                        if k < p {
                            assert(after[k] == x);
                        } else {
                            assert(after[k + 1] == x);
                        }
                    } else {
                        assert(after[p as int] == x);
                    }
                }
            }
        } else {
            assert forall|x: Seq<char>| before.contains(x) <==> next.contains(x) by {
                assert(next =~= upto.push(name@));
                if before.contains(x) {
                    let m = choose|m: int|
                        0 <= m < upto.len() && upto[m] == x;
                    assert(next[m] == x);
                }
                if next.contains(x) {
                    let m = choose|m: int|
                        0 <= m < next.len() && next[m] == x;
                    if m < i {
                        assert(upto[m] == x);
                        assert(upto.contains(x));
                        assert(before.contains(x));
                    } else {
                        assert(before[p as int] == x);
                    }
                }
            }
        }
        i += 1;
    }
    proof {
        assert(given.take(names@.len() as int) =~= given);
        lemma_sorted_set(string_views(r@), given);
    }
    r
}

} // verus!
