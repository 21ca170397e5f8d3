//! Object keys and their two parts: the distribution before the first separator and
//! whatever follows it.

use vstd::prelude::*;
use vstd::std_specs::iter::IteratorSpec;
use vstd::string::*;

verus! {

/// The character that parts a key into a distribution and an artifact.
pub const SEPARATOR: char = '/';

/// The number of characters that stand before the first separator of `key`: its whole
/// length where it holds none.
pub open spec fn head_len(key: Seq<char>) -> int
    decreases key.len(),
{
    if key.len() == 0 || key[0] == SEPARATOR {
        0
    } else {
        1 + head_len(key.drop_first())
    }
}

/// The first path segment of `key`.
pub open spec fn head_of(key: Seq<char>) -> Seq<char> {
    key.take(head_len(key))
}

/// What follows the first separator of `key`, further separators included; nothing
/// where `key` holds no separator.
pub open spec fn rest_of(key: Seq<char>) -> Option<Seq<char>> {
    if head_len(key) < key.len() {
        Some(key.skip(head_len(key) + 1))
    } else {
        None
    }
}

/// A key is malformed where nothing stands before its first separator, the empty key
/// included.
pub open spec fn malformed(key: Seq<char>) -> bool {
    head_len(key) == 0
}

/// No separator stands among the first `n` characters of `key`, and one stands at
/// position `n` unless `key` ends there.
pub open spec fn head_ends_at(key: Seq<char>, n: int) -> bool {
    &&& 0 <= n <= key.len()
    &&& forall|j: int| 0 <= j < n ==> key[j] != SEPARATOR
    &&& n < key.len() ==> key[n] == SEPARATOR
}

/// The head of a key ends at the first separator, or with the key.
pub proof fn lemma_head_ends(key: Seq<char>)
    ensures
        head_ends_at(key, head_len(key)),
    decreases key.len(),
{
    if key.len() != 0 && key[0] != SEPARATOR {
        let tail = key.drop_first();
        lemma_head_ends(tail);
        let n = head_len(tail);
        assert forall|j: int| 0 <= j < n + 1 implies key[j] != SEPARATOR by {
            if j > 0 {
                assert(tail[j - 1] == key[j]);
            }
        }
        if n + 1 < key.len() {
            assert(tail[n] == key[n + 1]);
        }
    }
}

/// There is one position only at which the head of a key can end.
pub proof fn lemma_head_len_is(key: Seq<char>, n: int)
    requires
        head_ends_at(key, n),
    ensures
        head_len(key) == n,
    decreases key.len(),
{
    if n > 0 {
        let tail = key.drop_first();
        assert(key[0] != SEPARATOR);
        assert forall|j: int| 0 <= j < n - 1 implies tail[j] != SEPARATOR by {
            assert(tail[j] == key[j + 1]);
        }
        if n - 1 < tail.len() {
            assert(tail[n - 1] == key[n]);
        }
        lemma_head_len_is(tail, n - 1);
    }
}

/// The two parts of a well-formed key.
#[derive(Clone, Debug, PartialEq, Eq)]
pub struct KeyParts {
    /// The distribution: what stands before the first separator, never empty.
    pub head: String,
    /// What follows the first separator, taken as it stands; `None` where the key holds
    /// no separator.
    pub rest: Option<String>,
}

impl KeyParts {
    /// The part after the first separator as a sequence of characters.
    pub open spec fn rest_view(&self) -> Option<Seq<char>> {
        match self.rest {
            Some(r) => Some(r@),
            None => None,
        }
    }
}

/// Splits `key` at its first separator. A malformed key has no parts.
pub fn parse_key(key: &str) -> (parts: Option<KeyParts>)
    ensures
        parts is None <==> malformed(key@),
        parts matches Some(p) ==> p.head@ == head_of(key@) && p.rest_view() == rest_of(key@),
{
    let total = key.unicode_len();
    let mut chars = key.chars();
    let mut at: usize = 0;
    let mut found = false;
    while at < total && !found
        invariant
            at <= total,
            total == key@.len(),
            !found ==> chars.remaining() == key@.skip(at as int),
            forall|j: int| 0 <= j < at ==> key@[j] != SEPARATOR,
            found ==> at < total && key@[at as int] == SEPARATOR,
        decreases total - at + (if found { 0int } else { 1int }),
    {
        let next = chars.next();
        assert(key@.skip(at as int).drop_first() == key@.skip(at + 1));
        match next {
            Some(c) => {
                if c == SEPARATOR {
                    found = true;
                } else {
                    at += 1;
                }
            },
            None => {},
        }
    }
    proof {
        lemma_head_len_is(key@, at as int);
    }
    if at == 0 {
        return None;
    }
    let head = key.substring_char(0, at).to_owned();
    let rest = if found {
        Some(key.substring_char(at + 1, total).to_owned())
    } else {
        None
    };
    Some(KeyParts { head, rest })
}

} // verus!
