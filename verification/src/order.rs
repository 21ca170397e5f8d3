//! The order in which a catalog lists its names: byte by byte over the UTF-8
//! encoding, a proper prefix before any of its extensions.

use vstd::prelude::*;
use vstd::string::StringSliceAdditionalSpecFns;
use vstd::utf8::{decode_utf8, encode_utf8, encode_utf8_decode_utf8};

verus! {

/// `a` and `b` agree on their first `k` bytes, and at position `k` either `a` has ended
/// while `b` goes on, or `a` holds the smaller byte.
pub open spec fn diverges_at(a: Seq<u8>, b: Seq<u8>, k: int) -> bool {
    &&& 0 <= k <= a.len()
    &&& k < b.len()
    &&& forall|j: int| 0 <= j < k ==> a[j] == b[j]
    &&& k < a.len() ==> a[k] < b[k]
}

/// `a` comes strictly before `b` in lexicographic byte order.
pub open spec fn bytes_before(a: Seq<u8>, b: Seq<u8>) -> bool {
    exists|k: int| diverges_at(a, b, k)
}

/// `a` is listed strictly before `b`.
pub open spec fn name_before(a: Seq<char>, b: Seq<char>) -> bool {
    bytes_before(encode_utf8(a), encode_utf8(b))
}

/// Every name is listed strictly before all names that follow it. Such a sequence
/// holds no name twice.
pub open spec fn strictly_ascending(names: Seq<Seq<char>>) -> bool {
    forall|i: int, j: int| 0 <= i < j < names.len() ==> name_before(names[i], names[j])
}

/// Nothing comes before itself.
pub proof fn lemma_before_irreflexive(a: Seq<u8>)
    ensures
        !bytes_before(a, a),
{
}

/// The order is transitive.
pub proof fn lemma_before_transitive(a: Seq<u8>, b: Seq<u8>, c: Seq<u8>)
    requires
        bytes_before(a, b),
        bytes_before(b, c),
    ensures
        bytes_before(a, c),
{
    let k1 = choose|k: int| diverges_at(a, b, k);
    let k2 = choose|k: int| diverges_at(b, c, k);
    let k = if k1 <= k2 { k1 } else { k2 };
    assert(diverges_at(a, c, k));
}

/// What comes before another differs from it and does not also come after it.
pub proof fn lemma_before_excludes(a: Seq<u8>, b: Seq<u8>)
    requires
        bytes_before(a, b),
    ensures
        a != b,
        !bytes_before(b, a),
{
    lemma_before_irreflexive(a);
    if bytes_before(b, a) {
        lemma_before_transitive(a, b, a);
    }
}

/// Two names with the same encoding are the same name.
pub proof fn lemma_encoding_injective(a: Seq<char>, b: Seq<char>)
    requires
        encode_utf8(a) == encode_utf8(b),
    ensures
        a == b,
{
    encode_utf8_decode_utf8(a);
    encode_utf8_decode_utf8(b);
    assert(decode_utf8(encode_utf8(a)) == decode_utf8(encode_utf8(b)));
}

/// Of two names exactly one holds: the first comes before the second, they are the
/// same name, or the second comes before the first.
pub proof fn lemma_names_totally_ordered(a: Seq<char>, b: Seq<char>)
    ensures
        name_before(a, b) || a == b || name_before(b, a),
        !(name_before(a, b) && a == b),
        !(name_before(a, b) && name_before(b, a)),
        !(a == b && name_before(b, a)),
{
    let x = encode_utf8(a);
    let y = encode_utf8(b);
    if name_before(a, b) {
        lemma_before_excludes(x, y);
    }
    if name_before(b, a) {
        lemma_before_excludes(y, x);
    }
    if !name_before(a, b) && !name_before(b, a) {
        lemma_agree_up_to(x, y, x.len() as int);
        lemma_agree_up_to(y, x, y.len() as int);
        assert(x =~= y);
        lemma_encoding_injective(a, b);
    }
}

/// Where neither sequence comes before the other, they agree on every position that
/// the first one has, and the second is at least as long.
proof fn lemma_agree_up_to(x: Seq<u8>, y: Seq<u8>, n: int)
    requires
        !bytes_before(x, y),
        !bytes_before(y, x),
        0 <= n <= x.len(),
    ensures
        n <= y.len(),
        forall|j: int| 0 <= j < n ==> x[j] == y[j],
    decreases n,
{
    if n > 0 {
        lemma_agree_up_to(x, y, n - 1);
        let k = n - 1;
        if k >= y.len() {
            assert(diverges_at(y, x, k));
        } else if x[k] < y[k] {
            assert(diverges_at(x, y, k));
        } else if y[k] < x[k] {
            assert(diverges_at(y, x, k));
        }
    }
}

/// A strictly ascending sequence holds no name twice.
pub proof fn lemma_ascending_distinct(names: Seq<Seq<char>>)
    requires
        strictly_ascending(names),
    ensures
        names.no_duplicates(),
{
    assert forall|i: int, j: int| 0 <= i < names.len() && 0 <= j < names.len() && i != j implies names[i]
        != names[j] by {
        lemma_names_totally_ordered(names[i], names[j]);
        if i < j {
            assert(name_before(names[i], names[j]));
        } else {
            assert(name_before(names[j], names[i]));
        }
    }
}

/// A strictly ascending sequence is determined by the set of its names: there is one
/// way only to list a given set.
pub proof fn lemma_ascending_unique(a: Seq<Seq<char>>, b: Seq<Seq<char>>)
    requires
        strictly_ascending(a),
        strictly_ascending(b),
        a.to_set() == b.to_set(),
    ensures
        a == b,
    decreases a.len(),
{
    if a.len() == 0 {
        if b.len() > 0 {
            assert(b.contains(b[0]));
            assert(b.to_set().contains(b[0]));
            assert(a.contains(b[0]));
        }
        assert(a =~= b);
    } else {
        assert(a.contains(a[0]));
        assert(a.to_set().contains(a[0]));
        assert(b.contains(a[0]));
        let j = choose|j: int| 0 <= j < b.len() && b[j] == a[0];
        assert(b.contains(b[0]));
        assert(b.to_set().contains(b[0]));
        assert(a.contains(b[0]));
        let i = choose|i: int| 0 <= i < a.len() && a[i] == b[0];
        lemma_names_totally_ordered(a[0], b[0]);
        if j > 0 {
            assert(name_before(b[0], b[j]));
            if i > 0 {
                assert(name_before(a[0], a[i]));
            }
        }
        assert(a[0] == b[0]);
        let ta = a.drop_first();
        let tb = b.drop_first();
        assert(strictly_ascending(ta)) by {
            assert forall|p: int, q: int| 0 <= p < q < ta.len() implies name_before(
                ta[p],
                ta[q],
            ) by {
                assert(name_before(a[p + 1], a[q + 1]));
            }
        }
        assert(strictly_ascending(tb)) by {
            assert forall|p: int, q: int| 0 <= p < q < tb.len() implies name_before(
                tb[p],
                tb[q],
            ) by {
                assert(name_before(b[p + 1], b[q + 1]));
            }
        }
        assert(ta.to_set() =~= tb.to_set()) by {
            assert forall|x: Seq<char>| ta.to_set().contains(x) implies tb.to_set().contains(
                x,
            ) by {
                lemma_tail_member(a, b, x);
            }
            assert forall|x: Seq<char>| tb.to_set().contains(x) implies ta.to_set().contains(
                x,
            ) by {
                lemma_tail_member(b, a, x);
            }
        }
        lemma_ascending_unique(ta, tb);
        assert(a =~= b) by {
            assert(a.len() == b.len());
            assert forall|p: int| 0 <= p < a.len() implies a[p] == b[p] by {
                if p > 0 {
                    assert(ta[p - 1] == tb[p - 1]);
                }
            }
        }
    }
}

/// A name listed after the first one of `a` is listed after the first one of `b`,
/// where both list the same set in ascending order and start with the same name.
proof fn lemma_tail_member(a: Seq<Seq<char>>, b: Seq<Seq<char>>, x: Seq<char>)
    requires
        strictly_ascending(a),
        a.len() > 0,
        b.len() > 0,
        a[0] == b[0],
        a.to_set() == b.to_set(),
        a.drop_first().to_set().contains(x),
    ensures
        b.drop_first().to_set().contains(x),
{
    let ta = a.drop_first();
    assert(ta.contains(x));
    let p = choose|p: int| 0 <= p < ta.len() && ta[p] == x;
    assert(a[p + 1] == x);
    assert(name_before(a[0], a[p + 1]));
    lemma_names_totally_ordered(a[0], x);
    assert(a.contains(x));
    assert(a.to_set().contains(x));
    assert(b.contains(x));
    let q = choose|q: int| 0 <= q < b.len() && b[q] == x;
    assert(q > 0);
    assert(b.drop_first()[q - 1] == x);
    assert(b.drop_first().contains(x));
}

/// How one name stands to another in the listing order.
#[derive(Clone, Copy, Debug, PartialEq, Eq)]
pub enum Rank {
    /// The first name is listed before the second.
    Before,
    /// Both are the same name.
    Same,
    /// The first name is listed after the second.
    After,
}

/// Tells how `a` stands to `b` in the listing order.
pub fn rank(a: &str, b: &str) -> (r: Rank)
    ensures
        r is Before <==> name_before(a@, b@),
        r is Same <==> a@ == b@,
        r is After <==> name_before(b@, a@),
{
    let x = a.as_bytes();
    let y = b.as_bytes();
    let n = x.len();
    let m = y.len();
    let mut i: usize = 0;
    while i < n && i < m
        invariant
            i <= n,
            i <= m,
            n == x@.len(),
            m == y@.len(),
            x@ == encode_utf8(a@),
            y@ == encode_utf8(b@),
            forall|j: int| 0 <= j < i ==> x@[j] == y@[j],
        decreases n - i,
    {
        if x[i] < y[i] {
            proof {
                assert(diverges_at(x@, y@, i as int));
                lemma_names_totally_ordered(a@, b@);
            }
            return Rank::Before;
        }
        if x[i] > y[i] {
            proof {
                assert(diverges_at(y@, x@, i as int));
                lemma_names_totally_ordered(a@, b@);
            }
            return Rank::After;
        }
        i += 1;
    }
    proof {
        lemma_names_totally_ordered(a@, b@);
    }
    if n < m {
        assert(diverges_at(x@, y@, n as int));
        Rank::Before
    } else if m < n {
        assert(diverges_at(y@, x@, m as int));
        Rank::After
    } else {
        assert(x@ =~= y@);
        proof {
            lemma_encoding_injective(a@, b@);
        }
        Rank::Same
    }
}

} // verus!
