//! Percent-encoding of names for use as one segment of a locator path.

use vstd::prelude::*;
use vstd::string::StringSliceAdditionalSpecFns;
use vstd::utf8::{encode_utf8, is_ascii_chars, is_ascii_chars_encode_utf8};

use crate::text::push_char;

verus! {

/// The bytes that stand for themselves in a path segment: ASCII letters and digits,
/// `-`, `.`, `_` and `~`.
pub open spec fn unreserved(b: u8) -> bool {
    ||| 0x30 <= b <= 0x39
    ||| 0x41 <= b <= 0x5a
    ||| 0x61 <= b <= 0x7a
    ||| b == 0x2d
    ||| b == 0x2e
    ||| b == 0x5f
    ||| b == 0x7e
}

/// The upper-case hexadecimal digit for a value below sixteen.
pub open spec fn hex_digit(n: u8) -> char {
    if n < 10 {
        ((0x30 + n) as u8) as char
    } else {
        ((0x37 + n) as u8) as char
    }
}

/// What one byte becomes: itself where it is unreserved, else `%` and its two
/// hexadecimal digits.
pub open spec fn escaped_byte(b: u8) -> Seq<char> {
    if unreserved(b) {
        seq![b as char]
    } else {
        seq!['%', hex_digit(b / 16), hex_digit(b % 16)]
    }
}

/// The escaped forms of all `bytes`, one after the other.
pub open spec fn escaped_bytes(bytes: Seq<u8>) -> Seq<char>
    decreases bytes.len(),
{
    if bytes.len() == 0 {
        Seq::empty()
    } else {
        escaped_bytes(bytes.drop_last()) + escaped_byte(bytes.last())
    }
}

/// The percent-encoded form of `name`, taken over its UTF-8 encoding.
pub open spec fn escaped(name: Seq<char>) -> Seq<char> {
    escaped_bytes(encode_utf8(name))
}

/// A character that stands for itself in a path segment.
pub open spec fn unreserved_char(c: char) -> bool {
    '\0' <= c <= '\u{7f}' && unreserved(c as u8)
}

/// Escaping goes byte by byte: the escaped form of two runs of bytes, one after the
/// other, is the escaped form of the first followed by that of the second.
pub proof fn lemma_escaped_bytes_concat(a: Seq<u8>, b: Seq<u8>)
    ensures
        escaped_bytes(a + b) == escaped_bytes(a) + escaped_bytes(b),
    decreases b.len(),
{
    if b.len() == 0 {
        assert(a + b =~= a);
        assert(escaped_bytes(a) + escaped_bytes(b) =~= escaped_bytes(a));
    } else {
        assert((a + b).drop_last() =~= a + b.drop_last());
        assert((a + b).last() == b.last());
        lemma_escaped_bytes_concat(a, b.drop_last());
        assert(escaped_bytes(a + b) =~= escaped_bytes(a) + escaped_bytes(b));
    }
}

/// The encoding of two texts, one after the other, is the encoding of the first
/// followed by that of the second.
pub proof fn lemma_encoding_concat(a: Seq<char>, b: Seq<char>)
    ensures
        encode_utf8(a + b) == encode_utf8(a) + encode_utf8(b),
    decreases a.len(),
{
    if a.len() == 0 {
        assert(a + b =~= b);
        assert(encode_utf8(a) + encode_utf8(b) =~= encode_utf8(b));
    } else {
        assert((a + b).drop_first() =~= a.drop_first() + b);
        assert((a + b)[0] == a[0]);
        lemma_encoding_concat(a.drop_first(), b);
        assert(encode_utf8(a + b) =~= encode_utf8(a) + encode_utf8(b));
    }
}

/// The escaped form of two names, one after the other, is the escaped form of the
/// first followed by that of the second.
pub proof fn lemma_escaped_concat(a: Seq<char>, b: Seq<char>)
    ensures
        escaped(a + b) == escaped(a) + escaped(b),
{
    lemma_encoding_concat(a, b);
    lemma_escaped_bytes_concat(encode_utf8(a), encode_utf8(b));
}

/// Bytes that are all unreserved are escaped as the characters that they are.
proof fn lemma_escaped_bytes_unreserved(bytes: Seq<u8>)
    requires
        forall|i: int| 0 <= i < bytes.len() ==> unreserved(#[trigger] bytes[i]),
    ensures
        escaped_bytes(bytes).len() == bytes.len(),
        forall|i: int| 0 <= i < bytes.len() ==> #[trigger] escaped_bytes(bytes)[i] == bytes[i] as char,
    decreases bytes.len(),
{
    if bytes.len() > 0 {
        let front = bytes.drop_last();
        assert forall|i: int| 0 <= i < front.len() implies unreserved(#[trigger] front[i]) by {
            assert(front[i] == bytes[i]);
        }
        lemma_escaped_bytes_unreserved(front);
        assert(unreserved(bytes.last()));
        assert forall|i: int| 0 <= i < bytes.len() implies #[trigger] escaped_bytes(bytes)[i]
            == bytes[i] as char by {
            if i < front.len() {
                assert(escaped_bytes(bytes)[i] == escaped_bytes(front)[i]);
                assert(front[i] == bytes[i]);
            }
        }
    }
}

/// A name of unreserved characters only is its own escaped form: letters, digits and
/// `-`, `.`, `_`, `~` of ASCII are left as they are.
pub proof fn lemma_escaped_unreserved(name: Seq<char>)
    requires
        forall|i: int| 0 <= i < name.len() ==> unreserved_char(#[trigger] name[i]),
    ensures
        escaped(name) == name,
{
    assert(is_ascii_chars(name)) by {
        assert forall|i: int| 0 <= i < name.len() implies '\0' <= #[trigger] name[i]
            <= '\u{7f}' by {
            assert(unreserved_char(name[i]));
        }
    }
    is_ascii_chars_encode_utf8(name);
    let bytes = encode_utf8(name);
    assert forall|i: int| 0 <= i < bytes.len() implies unreserved(#[trigger] bytes[i]) by {
        assert(unreserved_char(name[i]));
        assert(bytes[i] == name[i] as u8);
    }
    lemma_escaped_bytes_unreserved(bytes);
    assert(escaped(name) =~= name) by {
        assert forall|i: int| 0 <= i < name.len() implies escaped_bytes(bytes)[i] == name[i] by {
            assert(unreserved_char(name[i]));
            assert(bytes[i] == name[i] as u8);
            assert(escaped_bytes(bytes)[i] == bytes[i] as char);
        }
    }
}

/// A character that an escaped name can hold: an unreserved one, or `%`.
pub open spec fn segment_char(c: char) -> bool {
    c == '%' || (c as u32 <= 0x7f && unreserved(c as u8))
}

/// An escaped name holds unreserved characters and `%` only, so no separator and
/// nothing else that would end the path segment it stands in.
pub proof fn lemma_escaped_is_one_segment(bytes: Seq<u8>)
    ensures
        forall|i: int|
            0 <= i < escaped_bytes(bytes).len() ==> segment_char(#[trigger] escaped_bytes(bytes)[i]),
    decreases bytes.len(),
{
    if bytes.len() > 0 {
        lemma_escaped_is_one_segment(bytes.drop_last());
        let front = escaped_bytes(bytes.drop_last());
        let b = bytes.last();
        lemma_hex_digit_unreserved((b / 16) as u8);
        lemma_hex_digit_unreserved((b % 16) as u8);
        assert forall|i: int| 0 <= i < escaped_bytes(bytes).len() implies segment_char(
            #[trigger] escaped_bytes(bytes)[i],
        ) by {
            if i < front.len() {
                assert(escaped_bytes(bytes)[i] == front[i]);
            } else {
                assert(escaped_bytes(bytes)[i] == escaped_byte(b)[i - front.len()]);
            }
        }
    }
}

/// Every hexadecimal digit is an unreserved character.
proof fn lemma_hex_digit_unreserved(n: u8)
    requires
        n < 16,
    ensures
        segment_char(hex_digit(n)),
{
}

/// The upper-case hexadecimal digit for a value below sixteen.
fn hex(n: u8) -> (c: char)
    requires
        n < 16,
    ensures
        c == hex_digit(n),
{
    if n < 10 {
        (0x30 + n) as char
    } else {
        (0x37 + n) as char
    }
}

/// Whether the byte stands for itself in a path segment.
fn is_unreserved(b: u8) -> (r: bool)
    ensures
        r == unreserved(b),
{
    (0x30 <= b && b <= 0x39) || (0x41 <= b && b <= 0x5a) || (0x61 <= b && b <= 0x7a) || b == 0x2d
        || b == 0x2e || b == 0x5f || b == 0x7e
}

/// Percent-encodes `name` for use as one path segment.
pub fn escape(name: &str) -> (out: String)
    ensures
        out@ == escaped(name@),
{
    let bytes = name.as_bytes();
    let mut out = String::new();
    let mut i: usize = 0;
    while i < bytes.len()
        invariant
            i <= bytes.len(),
            out@ == escaped_bytes(bytes@.take(i as int)),
        decreases bytes.len() - i,
    {
        let b = bytes[i];
        assert(bytes@.take(i + 1).drop_last() == bytes@.take(i as int));
        if is_unreserved(b) {
            push_char(&mut out, b as char);
        } else {
            push_char(&mut out, '%');
            push_char(&mut out, hex(b / 16));
            push_char(&mut out, hex(b % 16));
        }
        assert(out@ == escaped_bytes(bytes@.take(i as int)) + escaped_byte(b));
        i += 1;
    }
    assert(bytes@.take(bytes@.len() as int) == bytes@);
    out
}

} // verus!
