//! Clipboard contents: how they are labelled and how text in them is
//! cleaned up before it is looked up.
use std::borrow::Cow;
use vstd::prelude::*;

use vstd::string::*;
use vstd::utf8::encode_utf8;

use crate::text::same;

verus! {

/// Whether a character has the Unicode property `White_Space`.
pub uninterp spec fn white_space(c: char) -> bool;

/// `char::is_whitespace` tells whether a character has the Unicode property
/// `White_Space`. Which characters have it is a table of the standard
/// library, so the answer goes by a name.
pub assume_specification[ char::is_whitespace ](c: char) -> (b: bool)
    ensures
        b == white_space(c),
;

/// Whether a number is a Unicode scalar value: a code point that is not a
/// surrogate.
pub open spec fn is_scalar_value(v: u32) -> bool {
    v <= 0xD7FF || (0xE000 <= v && v <= 0x10FFFF)
}

/// `char::from_u32` gives the character with the given number exactly
/// where the number is a Unicode scalar value.
pub assume_specification[ char::from_u32 ](i: u32) -> (c: Option<char>)
    ensures
        match c {
            Some(c) => is_scalar_value(i) && c as u32 == i,
            None => !is_scalar_value(i),
        },
;

/// `String::push` appends one character.
pub assume_specification[ String::push ](s: &mut String, c: char)
    ensures
        final(s)@ == old(s)@.push(c),
;

/// The value of a hexadecimal digit in either case.
pub open spec fn hex_value(b: u8) -> Option<u32> {
    if 0x61 <= b && b <= 0x66 {
        Some((b - 0x61 + 10) as u32)
    } else if 0x41 <= b && b <= 0x46 {
        Some((b - 0x41 + 10) as u32)
    } else if 0x30 <= b && b <= 0x39 {
        Some((b - 0x30) as u32)
    } else {
        None
    }
}

/// The value of a hexadecimal digit in either case.
#[verifier::when_used_as_spec(hex_value)]
pub fn hex_digit(b: u8) -> (v: Option<u32>)
    ensures
        v == hex_value(b),
        v matches Some(n) ==> n < 16,
{
    if 0x61 <= b && b <= 0x66 {
        Some((b - 0x61 + 10) as u32)
    } else if 0x41 <= b && b <= 0x46 {
        Some((b - 0x41 + 10) as u32)
    } else if 0x30 <= b && b <= 0x39 {
        Some((b - 0x30) as u32)
    } else {
        None
    }
}

/// The number that four hexadecimal digits spell, if all are digits.
pub open spec fn hex_quad(a: u8, b: u8, c: u8, d: u8) -> Option<u32> {
    match (hex_value(a), hex_value(b), hex_value(c), hex_value(d)) {
        (Some(a), Some(b), Some(c), Some(d)) => Some((a * 4096 + b * 256 + c * 16 + d) as u32),
        _ => None,
    }
}

/// What stands at the head of escaped bytes: the character that it spells,
/// if it spells one, and the number of bytes that it takes up.
pub struct Token {
    pub spelled: Option<char>,
    pub width: nat,
}

/// The token at the head of `data`, which is not empty.
///
/// A backslash and `u` are followed by four hexadecimal digits, which name
/// one character; two backslashes stand for one. Any other byte stands for
/// itself if it is ASCII and for nothing if it is not. There is no token
/// where an escape is cut short, holds something other than digits, or
/// names a surrogate.
pub open spec fn head_token(data: Seq<u8>) -> Option<Token> {
    if data[0] == 0x5c && data.len() >= 2 && data[1] == 0x75 {
        if data.len() < 6 {
            None
        } else {
            match hex_quad(data[2], data[3], data[4], data[5]) {
                Some(v) => if is_scalar_value(v) {
                    Some(Token { spelled: Some(v as char), width: 6 })
                } else {
                    None
                },
                None => None,
            }
        }
    } else if data[0] == 0x5c && data.len() >= 2 && data[1] == 0x5c {
        Some(Token { spelled: Some('\\'), width: 2 })
    } else if data[0] < 128 {
        Some(Token { spelled: Some(data[0] as char), width: 1 })
    } else {
        Some(Token { spelled: None, width: 1 })
    }
}

/// The text that escaped bytes stand for: what their tokens spell, one
/// after the other. There is no text where one of them is no token.
pub open spec fn unescaped(data: Seq<u8>) -> Option<Seq<char>>
    decreases data.len(),
{
    if data.len() == 0 {
        Some(Seq::empty())
    } else {
        match head_token(data) {
            Some(token) => if 0 < token.width <= data.len() {
                match unescaped(data.skip(token.width as int)) {
                    Some(rest) => Some(
                        match token.spelled {
                            Some(c) => seq![c] + rest,
                            None => rest,
                        },
                    ),
                    None => None,
                }
            } else {
                None
            },
            None => None,
        }
    }
}

/// What an optional string spells.
pub open spec fn text_of(s: Option<String>) -> Option<Seq<char>> {
    match s {
        Some(s) => Some(s@),
        None => None,
    }
}

/// `text` followed by what the bytes from `from` on stand for.
spec fn continued(text: Seq<char>, data: Seq<u8>, from: int) -> Option<Seq<char>> {
    match unescaped(data.skip(from)) {
        Some(rest) => Some(text + rest),
        None => None,
    }
}

/// The token at `at`, as the character that it spells and the position
/// behind it.
fn token_at(data: &[u8], at: usize) -> (found: Option<(Option<char>, usize)>)
    requires
        at < data.len(),
    ensures
        match found {
            Some((spelled, next)) => head_token(data@.skip(at as int)) == Some(
                Token { spelled, width: (next - at) as nat },
            ) && at < next <= data.len(),
            None => head_token(data@.skip(at as int)) is None,
        },
{
    let ghost rest = data@.skip(at as int);
    let b = data[at];
    assert(rest.len() == data.len() - at);
    assert(rest[0] == b);
    if b == 0x5c && at + 1 < data.len() && data[at + 1] == 0x75 {
        assert(rest[1] == data@[at + 1]);
        if data.len() - at < 6 {
            return None;
        }
        assert(rest[2] == data@[at + 2] && rest[3] == data@[at + 3] && rest[4] == data@[at + 4]
            && rest[5] == data@[at + 5]);
        match (
            hex_digit(data[at + 2]),
            hex_digit(data[at + 3]),
            hex_digit(data[at + 4]),
            hex_digit(data[at + 5]),
        ) {
            (Some(a), Some(b), Some(c), Some(d)) => {
                let quad = a * 4096 + b * 256 + c * 16 + d;
                match char::from_u32(quad) {
                    Some(c) => {
                        proof {
                            vstd::utf8::char_u32_cast(c, quad);
                        }
                        Some((Some(c), at + 6))
                    },
                    None => None,
                }
            },
            _ => None,
        }
    } else if b == 0x5c && at + 1 < data.len() && data[at + 1] == 0x5c {
        assert(rest[1] == data@[at + 1]);
        Some((Some('\\'), at + 2))
    } else {
        proof {
            if rest.len() >= 2 {
                assert(rest[1] == data@[at + 1]);
            }
        }
        if b < 128 {
            Some((Some(b as char), at + 1))
        } else {
            Some((None, at + 1))
        }
    }
}

/// Decodes text in which characters outside ASCII are escaped.
pub fn decode_escaped(data: &[u8]) -> (text: Option<String>)
    ensures
        text_of(text) == unescaped(data@),
{
    let mut s = String::new();
    let mut i: usize = 0;
    proof {
        assert(data@.skip(0) =~= data@);
        if unescaped(data@) is Some {
            assert(s@ + unescaped(data@).unwrap() =~= unescaped(data@).unwrap());
        }
    }
    while i < data.len()
        invariant
            i <= data.len(),
            unescaped(data@) == continued(s@, data@, i as int),
        decreases data.len() - i,
    {
        let ghost rest = data@.skip(i as int);
        let ghost before = s@;
        match token_at(data, i) {
            Some((spelled, next)) => {
                proof {
                    assert(rest.skip(next - i) =~= data@.skip(next as int));
                }
                match spelled {
                    Some(c) => {
                        s.push(c);
                        proof {
                            let tail = unescaped(data@.skip(next as int));
                            if tail is Some {
                                assert(before + (seq![c] + tail.unwrap()) =~= s@ + tail.unwrap());
                            }
                        }
                    },
                    None => {},
                }
                i = next;
            },
            None => {
                return None;
            },
        }
    }
    proof {
        assert(data@.skip(i as int) =~= Seq::<u8>::empty());
        assert(s@ + Seq::<char>::empty() =~= s@);
    }
    Some(s)
}

/// Whether a character is kept when whitespace is taken out.
pub open spec fn is_kept(c: char) -> bool {
    !white_space(c)
}

/// `text` without its whitespace.
pub open spec fn without_whitespace(text: Seq<char>) -> Seq<char> {
    text.filter(|c: char| is_kept(c))
}

/// Whether `text` has whitespace in it.
pub open spec fn has_whitespace(text: Seq<char>) -> bool {
    exists|i: int| 0 <= i < text.len() && white_space(#[trigger] text[i])
}

proof fn lemma_filter_step(text: Seq<char>, n: int)
    requires
        0 <= n < text.len(),
    ensures
        without_whitespace(text.take(n + 1)) == if white_space(text[n]) {
            without_whitespace(text.take(n))
        } else {
            without_whitespace(text.take(n)).push(text[n])
        },
{
    reveal(Seq::filter);
    assert(text.take(n + 1).drop_last() =~= text.take(n));
    assert(text.take(n + 1).last() == text[n]);
}

/// Whether the character at a position is marked; one behind the marks is
/// not.
pub open spec fn is_marked(marks: Seq<bool>, i: int) -> bool {
    0 <= i < marks.len() && marks[i]
}

/// Whether one of the first `n` characters is marked.
pub open spec fn any_marked(marks: Seq<bool>, n: int) -> bool {
    exists|i: int| 0 <= i < n && is_marked(marks, i)
}

/// The first `n` characters of a text without those that are marked, in
/// their order.
pub open spec fn unmarked(text: Seq<char>, marks: Seq<bool>, n: int) -> Seq<char>
    decreases n,
{
    if n <= 0 {
        Seq::empty()
    } else if is_marked(marks, n - 1) {
        unmarked(text, marks, n - 1)
    } else {
        unmarked(text, marks, n - 1).push(text[n - 1])
    }
}

/// A text of which no character is marked is left as it is.
proof fn lemma_none_marked(text: Seq<char>, marks: Seq<bool>, n: int)
    requires
        0 <= n <= text.len(),
        !any_marked(marks, n),
    ensures
        unmarked(text, marks, n) == text.take(n),
    decreases n,
{
    if n == 0 {
        assert(text.take(0) =~= Seq::<char>::empty());
    } else {
        assert(!is_marked(marks, n - 1));
        assert forall|i: int| 0 <= i < n - 1 implies !is_marked(marks, i) by {
            assert(!any_marked(marks, n));
        }
        lemma_none_marked(text, marks, n - 1);
        assert(text.take(n - 1).push(text[n - 1]) =~= text.take(n));
    }
}

/// Whether one of the first `n` characters is marked.
fn some_marked(marks: &Vec<bool>, n: usize) -> (found: bool)
    ensures
        found == any_marked(marks@, n as int),
{
    let mut i: usize = 0;
    while i < n && i < marks.len()
        invariant
            forall|j: int| 0 <= j < i ==> !is_marked(marks@, j),
        decreases marks.len() - i,
    {
        if marks[i] {
            assert(is_marked(marks@, i as int));
            return true;
        }
        i = i + 1;
    }
    false
}

/// Takes the marked characters out of a text. `marks` tells of each
/// character, by its position, whether it is marked; characters behind
/// the marks are not. Text of which no character is marked is handed back
/// as it came, not copied.
pub fn without_marked<'a>(input: &'a str, marks: &Vec<bool>) -> (output: Cow<'a, str>)
    ensures
        output@ == unmarked(input@, marks@, input@.len() as int),
        output matches Cow::Borrowed(_) <==> !any_marked(marks@, input@.len() as int),
{
    let n = input.unicode_len();
    if !some_marked(marks, n) {
        proof {
            lemma_none_marked(input@, marks@, n as int);
            assert(input@.take(n as int) =~= input@);
        }
        return Cow::Borrowed(input);
    }
    let mut output = String::new();
    let mut i: usize = 0;
    for c in iter: input.chars()
        invariant
            iter.seq() == input@,
            n == input@.len(),
            i == iter.index(),
            output@ == unmarked(input@, marks@, i as int),
    {
        assert(input@[i as int] == c);
        if !(i < marks.len() && marks[i]) {
            output.push(c);
        }
        i = i + 1;
    }
    Cow::Owned(output)
}

/// What `char::is_whitespace` answers for each character of a text.
pub fn whitespace_marks(input: &str) -> (marks: Vec<bool>)
    ensures
        marks@.len() == input@.len(),
        forall|i: int| 0 <= i < marks@.len() ==> marks@[i] == white_space(input@[i]),
{
    let mut marks: Vec<bool> = Vec::new();
    for c in iter: input.chars()
        invariant
            iter.seq() == input@,
            marks@.len() == iter.index(),
            forall|i: int| 0 <= i < marks@.len() ==> marks@[i] == white_space(input@[i]),
    {
        assert(input@[iter.index() as int] == c);
        marks.push(c.is_whitespace());
    }
    marks
}

/// With whitespace marked, what is left unmarked is the text without its
/// whitespace.
proof fn lemma_unmarked_is_filtered(text: Seq<char>, marks: Seq<bool>, n: int)
    requires
        marks.len() == text.len(),
        forall|i: int| 0 <= i < marks.len() ==> marks[i] == white_space(text[i]),
        0 <= n <= text.len(),
    ensures
        unmarked(text, marks, n) == without_whitespace(text.take(n)),
        any_marked(marks, n) == has_whitespace(text.take(n)),
    decreases n,
{
    if n == 0 {
        reveal(Seq::filter);
        assert(text.take(0) =~= Seq::<char>::empty());
    } else {
        lemma_unmarked_is_filtered(text, marks, n - 1);
        lemma_filter_step(text, n - 1);
        if any_marked(marks, n) {
            let i = choose|i: int| 0 <= i < n && is_marked(marks, i);
            assert(white_space(text.take(n)[i]));
        }
        if has_whitespace(text.take(n)) {
            let i = choose|i: int| 0 <= i < text.take(n).len() && white_space(
                #[trigger] text.take(n)[i],
            );
            assert(is_marked(marks, i));
        }
    }
}

/// Takes the whitespace out of `input`. Text without any is handed back as
/// it came, not copied.
pub fn trim_whitespace(input: &str) -> (output: Cow<'_, str>)
    ensures
        output@ == without_whitespace(input@),
        output matches Cow::Borrowed(_) <==> !has_whitespace(input@),
{
    let marks = whitespace_marks(input);
    proof {
        lemma_unmarked_is_filtered(input@, marks@, input@.len() as int);
        assert(input@.take(input@.len() as int) =~= input@);
    }
    without_marked(input, &marks)
}

/// What is sent on to a client.
pub struct Parcel {
    pub ty: Option<Seq<char>>,
    pub data: Seq<u8>,
}

/// Clipboard contents on their way to a client: the bytes, and the type
/// they are of where it is known.
#[derive(Debug)]
pub struct SendClipboard {
    pub ty: Option<String>,
    pub data: Vec<u8>,
}

impl View for SendClipboard {
    type V = Parcel;

    open spec fn view(&self) -> Parcel {
        Parcel { ty: text_of(self.ty), data: self.data@ }
    }
}

/// The image formats in which text can be recognized.
#[derive(Clone, Copy, Debug, PartialEq, Eq, Structural, Hash)]
pub enum ImageKind {
    Png,
    Tiff,
    WebP,
    Jpeg,
}

/// The image format that a media type names, if it names one.
pub open spec fn image_kind_of(ty: Seq<char>) -> Option<ImageKind> {
    if ty == "image/png"@ {
        Some(ImageKind::Png)
    } else if ty == "image/tiff"@ {
        Some(ImageKind::Tiff)
    } else if ty == "image/webp"@ {
        Some(ImageKind::WebP)
    } else if ty == "image/jpeg"@ || ty == "image/jpg"@ {
        Some(ImageKind::Jpeg)
    } else {
        None
    }
}

/// The image format that a media type names, if it names one.
pub fn image_kind(ty: &str) -> (kind: Option<ImageKind>)
    ensures
        kind == image_kind_of(ty@),
{
    if same(ty, "image/png") {
        Some(ImageKind::Png)
    } else if same(ty, "image/tiff") {
        Some(ImageKind::Tiff)
    } else if same(ty, "image/webp") {
        Some(ImageKind::WebP)
    } else if same(ty, "image/jpeg") || same(ty, "image/jpg") {
        Some(ImageKind::Jpeg)
    } else {
        None
    }
}

/// What becomes of clipboard contents, as plain values.
pub enum Routing {
    Send(Parcel),
    Undecodable,
    Recognize(ImageKind, Seq<u8>),
    Ignore,
}

/// What becomes of clipboard contents.
#[derive(Debug)]
pub enum Delivery {
    /// They are sent on.
    Send(SendClipboard),
    /// They were labelled as escaped text and are none.
    Undecodable,
    /// They are an image, in which text is to be recognized first.
    Recognize(ImageKind, Vec<u8>),
    /// They are of no use.
    Ignore,
}

impl View for Delivery {
    type V = Routing;

    open spec fn view(&self) -> Routing {
        match self {
            Delivery::Send(parcel) => Routing::Send(parcel@),
            Delivery::Undecodable => Routing::Undecodable,
            Delivery::Recognize(kind, data) => Routing::Recognize(*kind, data@),
            Delivery::Ignore => Routing::Ignore,
        }
    }
}

/// What becomes of clipboard contents of the given media type.
///
/// Text in UTF-8 goes on as plain text, as it is. Text in the older
/// encodings is escaped: it goes on as plain text once decoded, and not at
/// all where it cannot be. JSON goes on under its own type. An image in a
/// known format is handed back for recognition. Nothing else is of use.
pub open spec fn routed(mimetype: Seq<char>, data: Seq<u8>) -> Routing {
    if mimetype == "UTF8_STRING"@ || mimetype == "text/plain;charset=utf-8"@ {
        Routing::Send(Parcel { ty: Some("text/plain"@), data })
    } else if mimetype == "STRING"@ || mimetype == "text/plain"@ {
        match unescaped(data) {
            Some(text) => Routing::Send(Parcel { ty: Some("text/plain"@), data: encode_utf8(text) }),
            None => Routing::Undecodable,
        }
    } else if mimetype == "application/json"@ {
        Routing::Send(Parcel { ty: Some(mimetype), data })
    } else {
        match image_kind_of(mimetype) {
            Some(kind) => Routing::Recognize(kind, data),
            None => Routing::Ignore,
        }
    }
}

/// Decides what becomes of clipboard contents of the given media type.
pub fn deliver(mimetype: &str, data: Vec<u8>) -> (delivery: Delivery)
    ensures
        delivery@ == routed(mimetype@, data@),
{
    if same(mimetype, "UTF8_STRING") || same(mimetype, "text/plain;charset=utf-8") {
        Delivery::Send(SendClipboard { ty: Some(String::from_str("text/plain")), data })
    } else if same(mimetype, "STRING") || same(mimetype, "text/plain") {
        match decode_escaped(data.as_slice()) {
            Some(text) => Delivery::Send(
                SendClipboard {
                    ty: Some(String::from_str("text/plain")),
                    data: text.as_str().as_bytes_vec(),
                },
            ),
            None => Delivery::Undecodable,
        }
    } else if same(mimetype, "application/json") {
        Delivery::Send(SendClipboard { ty: Some(String::from_str(mimetype)), data })
    } else {
        match image_kind(mimetype) {
            Some(kind) => Delivery::Recognize(kind, data),
            None => Delivery::Ignore,
        }
    }
}

/// Text recognized in an image, ready to be sent on: as plain text, with
/// its whitespace taken out.
pub fn recognized(text: &str) -> (parcel: SendClipboard)
    ensures
        parcel@ == (Parcel {
            ty: Some("text/plain"@),
            data: encode_utf8(without_whitespace(text@)),
        }),
{
    let data = match trim_whitespace(text) {
        Cow::Borrowed(kept) => kept.as_bytes_vec(),
        Cow::Owned(kept) => kept.as_str().as_bytes_vec(),
    };
    SendClipboard { ty: Some(String::from_str("text/plain")), data }
}

} // verus!
