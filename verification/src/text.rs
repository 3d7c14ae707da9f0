//! Operations on string slices, by character.
use vstd::prelude::*;
use vstd::string::*;
use vstd::utf8::*;

verus! {

/// `s` without its last character, if that character is `c`.
pub open spec fn stripped(s: Seq<char>, c: char) -> Option<Seq<char>> {
    if s.len() > 0 && s.last() == c {
        Some(s.drop_last())
    } else {
        None
    }
}

/// What an optional slice spells.
pub open spec fn spelled(s: Option<&str>) -> Option<Seq<char>> {
    match s {
        Some(s) => Some(s@),
        None => None,
    }
}

/// The empty literal spells nothing.
pub proof fn lemma_empty_literal()
    ensures
        ""@ == Seq::<char>::empty(),
{
    reveal_strlit("");
    assert(""@ =~= Seq::<char>::empty());
}

/// Declares the error of `core::str::from_utf8`, whose fields are not read.
#[verifier::external_type_specification]
#[verifier::external_body]
pub struct ExUtf8Error(core::str::Utf8Error);

/// `core::str::from_utf8` gives the text that the bytes encode in UTF-8,
/// and fails exactly where they encode none.
pub assume_specification<'a>[ core::str::from_utf8 ](v: &'a [u8]) -> (r: Result<
    &'a str,
    core::str::Utf8Error,
>)
    ensures
        match r {
            Ok(s) => encode_utf8(s@) == v@,
            Err(_) => forall|t: Seq<char>| #[trigger] encode_utf8(t) != v@,
        },
;

/// The text that bytes encode in UTF-8, if they encode any.
pub open spec fn decoded(bytes: Seq<u8>) -> Option<Seq<char>> {
    if exists|t: Seq<char>| #[trigger] encode_utf8(t) == bytes {
        Some(choose|t: Seq<char>| #[trigger] encode_utf8(t) == bytes)
    } else {
        None
    }
}

/// Text is what its encoding decodes to.
pub proof fn lemma_decoded_encoding(text: Seq<char>)
    ensures
        decoded(encode_utf8(text)) == Some(text),
{
    let bytes = encode_utf8(text);
    let other = choose|t: Seq<char>| #[trigger] encode_utf8(t) == bytes;
    encode_utf8_decode_utf8(text);
    encode_utf8_decode_utf8(other);
}

/// The text that bytes encode in UTF-8, if they encode any.
pub fn decode<'a>(bytes: &'a [u8]) -> (text: Option<&'a str>)
    ensures
        spelled(text) == decoded(bytes@),
{
    match core::str::from_utf8(bytes) {
        Ok(s) => {
            proof {
                let other = choose|t: Seq<char>| #[trigger] encode_utf8(t) == bytes@;
                encode_utf8_decode_utf8(s@);
                encode_utf8_decode_utf8(other);
            }
            Some(s)
        },
        Err(_) => None,
    }
}

/// Whether two slices hold the same bytes.
pub fn same_bytes(x: &[u8], y: &[u8]) -> (eq: bool)
    ensures
        eq == (x@ == y@),
{
    if x.len() != y.len() {
        return false;
    }
    let mut i: usize = 0;
    while i < x.len()
        invariant
            i <= x.len(),
            x.len() == y.len(),
            forall|j: int| 0 <= j < i ==> x@[j] == y@[j],
        decreases x.len() - i,
    {
        if x[i] != y[i] {
            return false;
        }
        i = i + 1;
    }
    assert(x@ =~= y@);
    true
}

/// Whether two slices hold the same characters.
pub fn same(a: &str, b: &str) -> (eq: bool)
    ensures
        eq == (a@ == b@),
{
    proof {
        encode_utf8_decode_utf8(a@);
        encode_utf8_decode_utf8(b@);
    }
    same_bytes(a.as_bytes(), b.as_bytes())
}

/// The last character of `s` and what stands before it, unless `s` is
/// empty.
pub fn split_last<'a>(s: &'a str) -> (r: Option<(&'a str, char)>)
    ensures
        match r {
            Some((head, last)) => s@.len() > 0 && head@ == s@.drop_last() && last == s@.last(),
            None => s@.len() == 0,
        },
{
    let n = s.unicode_len();
    if n == 0 {
        None
    } else {
        let last = s.get_char(n - 1);
        let head = s.substring_char(0, n - 1);
        Some((head, last))
    }
}

/// `s` without its last character, if that character is `c`.
pub fn strip_suffix<'a>(s: &'a str, c: char) -> (r: Option<&'a str>)
    ensures
        spelled(r) == stripped(s@, c),
{
    match split_last(s) {
        Some((head, last)) => {
            if last == c {
                Some(head)
            } else {
                None
            }
        },
        None => None,
    }
}

/// `s` without `prefix` in front, if it begins with it.
pub open spec fn without_prefix(s: Seq<char>, prefix: Seq<char>) -> Option<Seq<char>> {
    if prefix.len() <= s.len() && s.take(prefix.len() as int) == prefix {
        Some(s.skip(prefix.len() as int))
    } else {
        None
    }
}

/// `s` without `prefix` in front, if it begins with it.
pub fn strip_prefix<'a>(s: &'a str, prefix: &str) -> (r: Option<&'a str>)
    ensures
        spelled(r) == without_prefix(s@, prefix@),
{
    let n = s.unicode_len();
    let m = prefix.unicode_len();
    if m > n {
        return None;
    }
    let head = s.substring_char(0, m);
    assert(head@ =~= s@.take(m as int));
    if same(head, prefix) {
        let tail = s.substring_char(m, n);
        assert(tail@ =~= s@.skip(m as int));
        Some(tail)
    } else {
        None
    }
}

/// The encoding of one text behind another is the encoding of the first
/// and then that of the second.
pub proof fn lemma_encoding_joined(a: Seq<char>, b: Seq<char>)
    ensures
        encode_utf8(a + b) == encode_utf8(a) + encode_utf8(b),
    decreases a.len(),
{
    if a.len() == 0 {
        assert(a + b =~= b);
        assert(encode_utf8(a) + encode_utf8(b) =~= encode_utf8(b));
    } else {
        lemma_encoding_joined(a.drop_first(), b);
        assert((a + b).drop_first() =~= a.drop_first() + b);
        assert((a + b)[0] == a[0]);
        assert(encode_utf8(a + b) =~= encode_utf8(a) + encode_utf8(b));
    }
}

/// The number of bytes that a character takes in UTF-8.
pub open spec fn width(c: char) -> int {
    encode_utf8(seq![c]).len() as int
}

/// The number of bytes that a character takes in UTF-8: one to four, by
/// its number.
pub fn utf8_width(c: char) -> (w: usize)
    ensures
        w == width(c),
        1 <= w <= 4,
{
    let v = c as u32;
    proof {
        vstd::utf8::char_is_scalar(c);
        reveal_with_fuel(vstd::utf8::encode_utf8, 2);
        assert(seq![c].drop_first() =~= Seq::<char>::empty());
        assert(seq![c][0] == c);
    }
    if v < 0x80 {
        1
    } else if v < 0x800 {
        2
    } else if v < 0x10000 {
        3
    } else {
        4
    }
}

/// The byte offset of the character at position `n` of a text in its
/// encoding: the number of bytes that the characters before it take. At
/// the length of the text it is the length of the encoding.
pub open spec fn byte_offset(text: Seq<char>, n: int) -> int {
    encode_utf8(text.take(n)).len() as int
}

/// The next character lies behind this one by the width of this one.
pub proof fn lemma_offset_step(text: Seq<char>, n: int)
    requires
        0 <= n < text.len(),
    ensures
        byte_offset(text, n + 1) == byte_offset(text, n) + width(text[n]),
        1 <= width(text[n]) <= 4,
{
    assert(text.take(n + 1) =~= text.take(n) + seq![text[n]]);
    lemma_encoding_joined(text.take(n), seq![text[n]]);
    vstd::utf8::char_is_scalar(text[n]);
    reveal_with_fuel(vstd::utf8::encode_utf8, 2);
    assert(seq![text[n]].drop_first() =~= Seq::<char>::empty());
    assert(seq![text[n]][0] == text[n]);
}

/// Later characters lie at larger offsets.
pub proof fn lemma_offsets_rise(text: Seq<char>, m: int, n: int)
    requires
        0 <= m <= n <= text.len(),
    ensures
        byte_offset(text, m) <= byte_offset(text, n),
        m < n ==> byte_offset(text, m) < byte_offset(text, n),
        byte_offset(text, 0) == 0,
        byte_offset(text, text.len() as int) == encode_utf8(text).len(),
    decreases n - m,
{
    assert(text.take(0) =~= Seq::<char>::empty());
    assert(text.take(text.len() as int) =~= text);
    if m < n {
        lemma_offsets_rise(text, m, n - 1);
        lemma_offset_step(text, n - 1);
    }
}

/// The position of the character that lies at a byte offset of a text,
/// if one does, or the length of the text where the offset is the length
/// of its encoding.
pub fn char_position(text: &str, offset: usize) -> (position: Option<usize>)
    ensures
        match position {
            Some(n) => n <= text@.len() && byte_offset(text@, n as int) == offset,
            None => forall|n: int| 0 <= n <= text@.len() ==> byte_offset(text@, n) != offset,
        },
{
    let len = text.unicode_len();
    let total = text.as_bytes().len();
    let mut n: usize = 0;
    let mut at: usize = 0;
    proof {
        lemma_offsets_rise(text@, 0, 0);
    }
    while n < len && at < offset
        invariant
            n <= len,
            len == text@.len(),
            total == encode_utf8(text@).len(),
            at == byte_offset(text@, n as int),
            at <= total,
            n > 0 ==> byte_offset(text@, n - 1) < offset,
        decreases len - n,
    {
        let w = utf8_width(text.get_char(n));
        proof {
            lemma_offset_step(text@, n as int);
            lemma_offsets_rise(text@, n + 1, len as int);
        }
        at = at + w;
        n = n + 1;
    }
    if at == offset {
        Some(n)
    } else {
        proof {
            assert forall|m: int| 0 <= m <= text@.len() implies byte_offset(text@, m) != offset by {
                if m <= n {
                    lemma_offsets_rise(text@, m, n as int);
                    if m < n {
                        lemma_offsets_rise(text@, m, n - 1);
                    }
                } else {
                    lemma_offsets_rise(text@, n as int, m);
                }
            }
        }
        None
    }
}

} // verus!
