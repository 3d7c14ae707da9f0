//! References in text: to a character by its number, to one of the five
//! characters that markup claims, and to an entity of the table that
//! comes with a format.
use vstd::prelude::*;
use vstd::string::*;
use vstd::utf8::encode_utf8;

use super::scan::{byte_at, find_byte};

use crate::clipboard::{hex_digit, hex_value, is_scalar_value};
use crate::text::{decode, decoded, same_bytes};

verus! {

/// What is wrong with a document.
#[derive(Clone, Copy, Debug, PartialEq, Eq, Structural, Hash)]
pub enum XmlError {
    /// The bytes are not what the grammar asks for.
    Malformed,
    /// The bytes end inside a construct or inside an element.
    Truncated,
    /// A reference names an entity that the table does not have, and the
    /// reader is strict.
    UnknownEntity,
    /// A name or a text is not UTF-8.
    Encoding,
}

/// The value of a digit to a base, which is ten or sixteen.
pub open spec fn digit_of(b: u8, base: u32) -> Option<u32> {
    if base == 16 {
        hex_value(b)
    } else if 0x30 <= b && b <= 0x39 {
        Some((b - 0x30) as u32)
    } else {
        None
    }
}

/// The number that digits spell to a base, where there is at least one
/// byte and each is a digit.
pub open spec fn numeral(digits: Seq<u8>, base: u32) -> Option<nat>
    decreases digits.len(),
{
    if digits.len() == 0 {
        None
    } else {
        match digit_of(digits.last(), base) {
            None => None,
            Some(d) => if digits.len() == 1 {
                Some(d as nat)
            } else {
                match numeral(digits.drop_last(), base) {
                    Some(v) => Some((v * base + d) as nat),
                    None => None,
                }
            },
        }
    }
}

/// Digits that spell a number begin with digits that spell a number
/// which is not larger.
pub proof fn lemma_numeral_prefix(digits: Seq<u8>, base: u32, k: int)
    requires
        1 <= k <= digits.len(),
        base >= 1,
        numeral(digits, base) is Some,
    ensures
        numeral(digits.take(k), base) is Some,
        numeral(digits.take(k), base).unwrap() <= numeral(digits, base).unwrap(),
    decreases digits.len(),
{
    if k == digits.len() {
        assert(digits.take(k) =~= digits);
    } else {
        let front = digits.drop_last();
        lemma_numeral_prefix(front, base, k);
        assert(front.take(k) =~= digits.take(k));
        let v = numeral(front, base).unwrap();
        assert(v * base >= v) by (nonlinear_arith)
            requires
                base >= 1,
                v >= 0,
        ;
    }
}

/// The largest number of a character.
pub const LAST_SCALAR: u32 = 0x10FFFF;

/// The number that digits spell to a base, where it is at most the
/// largest number of a character.
fn read_numeral(digits: &[u8], base: u32) -> (value: Option<u32>)
    requires
        base == 10 || base == 16,
    ensures
        value == match numeral(digits@, base) {
            Some(v) => if v <= LAST_SCALAR {
                Some(v as u32)
            } else {
                None
            },
            None => None,
        },
{
    if digits.len() == 0 {
        return None;
    }
    let mut value: u32 = 0;
    let mut i: usize = 0;
    while i < digits.len()
        invariant
            i <= digits.len(),
            base == 10 || base == 16,
            value <= LAST_SCALAR,
            i > 0 ==> numeral(digits@.take(i as int), base) == Some(value as nat),
            i == 0 ==> value == 0,
        decreases digits.len() - i,
    {
        let digit = if base == 16 {
            hex_digit(digits[i])
        } else if 0x30 <= digits[i] && digits[i] <= 0x39 {
            Some((digits[i] - 0x30) as u32)
        } else {
            None
        };
        proof {
            assert(digit == digit_of(digits@[i as int], base));
            assert(digits@.take(i + 1).last() == digits@[i as int]);
            assert(digits@.take(i + 1).drop_last() =~= digits@.take(i as int));
            if numeral(digits@, base) is Some {
                lemma_numeral_prefix(digits@, base, i + 1);
            }
        }
        match digit {
            None => {
                return None;
            },
            Some(d) => {
                assert(d < 16);
                let next = value * base + d;
                if next > LAST_SCALAR {
                    return None;
                }
                value = next;
            },
        }
        i = i + 1;
    }
    assert(digits@.take(digits@.len() as int) =~= digits@);
    Some(value)
}

/// The character that a reference by number names: the digits are to
/// base sixteen behind an `x`, and to base ten otherwise, and the number
/// must be that of a character.
pub open spec fn numbered(name: Seq<u8>) -> Option<char> {
    let value = if name.len() > 0 && name[0] == 0x78 {
        numeral(name.skip(1), 16)
    } else {
        numeral(name, 10)
    };
    match value {
        Some(v) => if v <= LAST_SCALAR && is_scalar_value(v as u32) {
            Some((v as u32) as char)
        } else {
            None
        },
        None => None,
    }
}

/// The character that a reference by number names.
pub fn read_numbered(name: &[u8]) -> (c: Option<char>)
    ensures
        c == numbered(name@),
{
    let value = if name.len() > 0 && name[0] == 0x78 {
        let digits = vstd::slice::slice_subrange(name, 1, name.len());
        assert(digits@ =~= name@.skip(1));
        read_numeral(digits, 16)
    } else {
        read_numeral(name, 10)
    };
    match value {
        Some(v) => match char::from_u32(v) {
            Some(c) => {
                proof {
                    vstd::utf8::char_u32_cast(c, v);
                }
                Some(c)
            },
            None => None,
        },
        None => None,
    }
}

/// The character that one of the five names of markup stands for: `lt`,
/// `gt`, `amp`, `apos` and `quot`.
pub open spec fn predefined(name: Seq<u8>) -> Option<u8> {
    if name == seq![0x6Cu8, 0x74u8] {
        Some(0x3Cu8)
    } else if name == seq![0x67u8, 0x74u8] {
        Some(0x3Eu8)
    } else if name == seq![0x61u8, 0x6Du8, 0x70u8] {
        Some(0x26u8)
    } else if name == seq![0x61u8, 0x70u8, 0x6Fu8, 0x73u8] {
        Some(0x27u8)
    } else if name == seq![0x71u8, 0x75u8, 0x6Fu8, 0x74u8] {
        Some(0x22u8)
    } else {
        None
    }
}

/// The character that one of the five names of markup stands for.
pub fn read_predefined(name: &[u8]) -> (b: Option<u8>)
    ensures
        b == predefined(name@),
{
    let lt: [u8; 2] = [0x6C, 0x74];
    let gt: [u8; 2] = [0x67, 0x74];
    let amp: [u8; 3] = [0x61, 0x6D, 0x70];
    let apos: [u8; 4] = [0x61, 0x70, 0x6F, 0x73];
    let quot: [u8; 4] = [0x71, 0x75, 0x6F, 0x74];
    assert(lt@ =~= seq![0x6Cu8, 0x74u8]);
    assert(gt@ =~= seq![0x67u8, 0x74u8]);
    assert(amp@ =~= seq![0x61u8, 0x6Du8, 0x70u8]);
    assert(apos@ =~= seq![0x61u8, 0x70u8, 0x6Fu8, 0x73u8]);
    assert(quot@ =~= seq![0x71u8, 0x75u8, 0x6Fu8, 0x74u8]);
    if same_bytes(name, lt.as_slice()) {
        Some(0x3C)
    } else if same_bytes(name, gt.as_slice()) {
        Some(0x3E)
    } else if same_bytes(name, amp.as_slice()) {
        Some(0x26)
    } else if same_bytes(name, apos.as_slice()) {
        Some(0x27)
    } else if same_bytes(name, quot.as_slice()) {
        Some(0x22)
    } else {
        None
    }
}

/// The entities of a format as plain values: each with its name and the
/// text that it stands for.
pub open spec fn table_of(entities: Seq<(&str, &str)>) -> Seq<(Seq<char>, Seq<char>)> {
    Seq::new(entities.len(), |i: int| (entities[i].0@, entities[i].1@))
}

/// The text of the first entity with the given name from `from` on, in
/// UTF-8.
pub open spec fn replacement(table: Seq<(Seq<char>, Seq<char>)>, name: Seq<u8>, from: int) -> Option<
    Seq<u8>,
>
    decreases table.len() - from,
{
    if from < 0 || from >= table.len() {
        None
    } else if encode_utf8(table[from].0) == name {
        Some(encode_utf8(table[from].1))
    } else {
        replacement(table, name, from + 1)
    }
}

/// The text of the first entity with the given name.
pub fn look_up<'a>(entities: &'a [(&'a str, &'a str)], name: &[u8]) -> (text: Option<&'a str>)
    ensures
        match text {
            Some(text) => replacement(table_of(entities@), name@, 0) == Some(encode_utf8(text@)),
            None => replacement(table_of(entities@), name@, 0) is None,
        },
{
    let ghost table = table_of(entities@);
    let mut i: usize = 0;
    while i < entities.len()
        invariant
            i <= entities.len(),
            table == table_of(entities@),
            replacement(table, name@, i as int) == replacement(table, name@, 0),
        decreases entities.len() - i,
    {
        let (key, text) = entities[i];
        assert(table[i as int] == (key@, text@));
        if same_bytes(key.as_bytes(), name) {
            return Some(text);
        }
        i = i + 1;
    }
    None
}

/// What a reference stands for, in UTF-8. One that begins with `#` names
/// a character by its number. Otherwise the name is one of the five of
/// markup, or that of an entity of the table. A name that is neither is an
/// error to a strict reader; another leaves the reference as it is
/// written.
pub open spec fn reference(name: Seq<u8>, table: Seq<(Seq<char>, Seq<char>)>, strict: bool) -> Result<
    Seq<u8>,
    XmlError,
> {
    if name.len() > 0 && name[0] == 0x23 {
        match numbered(name.skip(1)) {
            Some(c) => Ok(encode_utf8(seq![c])),
            None => Err(XmlError::Malformed),
        }
    } else {
        match predefined(name) {
            Some(b) => Ok(seq![b]),
            None => match replacement(table, name, 0) {
                Some(bytes) => Ok(bytes),
                None => if strict {
                    Err(XmlError::UnknownEntity)
                } else {
                    Ok(seq![0x26u8] + name + seq![0x3Bu8])
                },
            },
        }
    }
}

/// Adds bytes behind others.
pub fn push_all(out: &mut Vec<u8>, bytes: &[u8])
    ensures
        final(out)@ == old(out)@ + bytes@,
{
    let mut i: usize = 0;
    while i < bytes.len()
        invariant
            i <= bytes.len(),
            out@ == old(out)@ + bytes@.take(i as int),
        decreases bytes.len() - i,
    {
        out.push(bytes[i]);
        assert(bytes@.take(i + 1) =~= bytes@.take(i as int).push(bytes@[i as int]));
        i = i + 1;
    }
    assert(bytes@.take(bytes@.len() as int) =~= bytes@);
}

/// Adds what a reference stands for behind the bytes in `out`, or tells
/// what is wrong with it and leaves `out` as it is.
pub fn resolve(out: &mut Vec<u8>, name: &[u8], entities: &[(&str, &str)], strict: bool) -> (done:
    Result<(), XmlError>)
    ensures
        match done {
            Ok(_) => reference(name@, table_of(entities@), strict) is Ok && final(out)@ == old(
                out,
            )@ + reference(name@, table_of(entities@), strict).unwrap(),
            Err(error) => reference(name@, table_of(entities@), strict) == Err::<
                Seq<u8>,
                XmlError,
            >(error) && final(out)@ == old(out)@,
        },
{
    if name.len() > 0 && name[0] == 0x23 {
        let digits = vstd::slice::slice_subrange(name, 1, name.len());
        assert(digits@ =~= name@.skip(1));
        match read_numbered(digits) {
            Some(c) => {
                let mut one = String::new();
                one.push(c);
                assert(one@ =~= seq![c]);
                push_all(out, one.as_str().as_bytes());
                Ok(())
            },
            None => Err(XmlError::Malformed),
        }
    } else {
        match read_predefined(name) {
            Some(b) => {
                out.push(b);
                assert(out@ =~= old(out)@ + seq![b]);
                Ok(())
            },
            None => match look_up(entities, name) {
                Some(text) => {
                    push_all(out, text.as_bytes());
                    Ok(())
                },
                None => {
                    if strict {
                        Err(XmlError::UnknownEntity)
                    } else {
                        out.push(0x26);
                        push_all(out, name);
                        out.push(0x3B);
                        assert(out@ =~= old(out)@ + (seq![0x26u8] + name@ + seq![0x3Bu8]));
                        Ok(())
                    }
                },
            },
        }
    }
}

/// Bytes in front of what follows, where there is no error in it.
pub open spec fn before(front: Seq<u8>, rest: Result<Seq<u8>, XmlError>) -> Result<
    Seq<u8>,
    XmlError,
> {
    match rest {
        Ok(rest) => Ok(front + rest),
        Err(error) => Err(error),
    }
}

/// The bytes of raw text from `i` on with each reference replaced by
/// what it stands for. A reference reaches from `&` to the next `;`, which
/// must come. The first reference that is wrong decides the error.
pub open spec fn expanded_from(
    raw: Seq<u8>,
    i: int,
    table: Seq<(Seq<char>, Seq<char>)>,
    strict: bool,
) -> Result<Seq<u8>, XmlError>
    decreases raw.len() - i,
{
    if i < 0 || i >= raw.len() {
        Ok(Seq::empty())
    } else if raw[i] != 0x26 {
        before(seq![raw[i]], expanded_from(raw, i + 1, table, strict))
    } else {
        match byte_at(raw, i + 1, 0x3B) {
            None => Err(XmlError::Malformed),
            Some(end) => if i < end < raw.len() {
                match reference(raw.subrange(i + 1, end), table, strict) {
                    Ok(bytes) => before(bytes, expanded_from(raw, end + 1, table, strict)),
                    Err(error) => Err(error),
                }
            } else {
                Err(XmlError::Malformed)
            },
        }
    }
}

/// The bytes of raw text with each reference replaced by what it stands
/// for.
pub open spec fn expanded(raw: Seq<u8>, table: Seq<(Seq<char>, Seq<char>)>, strict: bool) -> Result<
    Seq<u8>,
    XmlError,
> {
    expanded_from(raw, 0, table, strict)
}

/// Raw text without a reference stands for itself.
pub proof fn lemma_plain(raw: Seq<u8>, i: int, table: Seq<(Seq<char>, Seq<char>)>, strict: bool)
    requires
        0 <= i <= raw.len(),
        byte_at(raw, i, 0x26) is None,
    ensures
        expanded_from(raw, i, table, strict) == Ok::<Seq<u8>, XmlError>(raw.skip(i)),
    decreases raw.len() - i,
{
    if i < raw.len() {
        lemma_plain(raw, i + 1, table, strict);
        assert(seq![raw[i]] + raw.skip(i + 1) =~= raw.skip(i));
    } else {
        assert(raw.skip(i) =~= Seq::<u8>::empty());
    }
}

/// The bytes of raw text with each reference replaced by what it stands
/// for.
pub fn expand(raw: &[u8], entities: &[(&str, &str)], strict: bool) -> (bytes: Result<
    Vec<u8>,
    XmlError,
>)
    ensures
        match bytes {
            Ok(bytes) => expanded(raw@, table_of(entities@), strict) == Ok::<Seq<u8>, XmlError>(
                bytes@,
            ),
            Err(error) => expanded(raw@, table_of(entities@), strict) == Err::<Seq<u8>, XmlError>(
                error,
            ),
        },
{
    let ghost table = table_of(entities@);
    let mut out: Vec<u8> = Vec::new();
    let mut i: usize = 0;
    while i < raw.len()
        invariant
            i <= raw.len(),
            table == table_of(entities@),
            expanded(raw@, table, strict) == before(
                out@,
                expanded_from(raw@, i as int, table, strict),
            ),
        decreases raw.len() - i,
    {
        let ghost rest = expanded_from(raw@, i as int, table, strict);
        let ghost had = out@;
        if raw[i] != 0x26 {
            out.push(raw[i]);
            proof {
                let next = expanded_from(raw@, i + 1, table, strict);
                if let Ok(bytes) = next {
                    assert(had + (seq![raw@[i as int]] + bytes) =~= out@ + bytes);
                }
            }
            i = i + 1;
        } else {
            match find_byte(raw, i + 1, 0x3B) {
                None => {
                    return Err(XmlError::Malformed);
                },
                Some(end) => {
                    let name = vstd::slice::slice_subrange(raw, i + 1, end);
                    match resolve(&mut out, name, entities, strict) {
                        Ok(_) => {
                            proof {
                                let bytes = reference(name@, table, strict).unwrap();
                                let next = expanded_from(raw@, end + 1, table, strict);
                                if let Ok(more) = next {
                                    assert(had + (bytes + more) =~= out@ + more);
                                }
                            }
                            i = end + 1;
                        },
                        Err(error) => {
                            return Err(error);
                        },
                    }
                },
            }
        }
    }
    assert(out@ + Seq::<u8>::empty() =~= out@);
    Ok(out)
}

/// The text that raw bytes stand for: their references are replaced, and
/// what comes of it is read as UTF-8.
pub open spec fn text_of(raw: Seq<u8>, table: Seq<(Seq<char>, Seq<char>)>, strict: bool) -> Result<
    Seq<char>,
    XmlError,
> {
    match expanded(raw, table, strict) {
        Ok(bytes) => match decoded(bytes) {
            Some(text) => Ok(text),
            None => Err(XmlError::Encoding),
        },
        Err(error) => Err(error),
    }
}

/// Text of a document: a slice of it, or, where the text holds a
/// reference, text that was made from it.
#[derive(Debug)]
pub enum Chars<'a> {
    Raw(&'a str),
    Made(String),
}

impl<'a> View for Chars<'a> {
    type V = Seq<char>;

    open spec fn view(&self) -> Seq<char> {
        match self {
            Chars::Raw(text) => text@,
            Chars::Made(text) => text@,
        }
    }
}

impl<'a> Chars<'a> {
    /// The text as a slice.
    pub fn as_str(&self) -> (text: &str)
        ensures
            text@ == self@,
    {
        match self {
            Chars::Raw(text) => text,
            Chars::Made(text) => text.as_str(),
        }
    }
}

/// What the result of reading text stands for.
pub open spec fn text_read(text: Result<Chars, XmlError>) -> Result<Seq<char>, XmlError> {
    match text {
        Ok(text) => Ok(text@),
        Err(error) => Err(error),
    }
}

/// The text that raw bytes stand for. Text without a reference is a
/// slice of the document.
pub fn read_text<'a>(raw: &'a [u8], entities: &[(&str, &str)], strict: bool) -> (text: Result<
    Chars<'a>,
    XmlError,
>)
    ensures
        text_read(text) == text_of(raw@, table_of(entities@), strict),
{
    match find_byte(raw, 0, 0x26) {
        None => {
            proof {
                lemma_plain(raw@, 0, table_of(entities@), strict);
                assert(raw@.skip(0) =~= raw@);
            }
            match decode(raw) {
                Some(text) => Ok(Chars::Raw(text)),
                None => Err(XmlError::Encoding),
            }
        },
        Some(_) => {
            let bytes = expand(raw, entities, strict)?;
            match decode(bytes.as_slice()) {
                Some(text) => Ok(Chars::Made(String::from_str(text))),
                None => Err(XmlError::Encoding),
            }
        },
    }
}

} // verus!
