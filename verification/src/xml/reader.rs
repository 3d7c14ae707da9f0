//! The pull reader: what the next event of a document is, and the reader
//! that gives it.
use vstd::prelude::*;
use vstd::slice::slice_subrange;

use super::expand::{Chars, read_text, table_of, text_of, XmlError};
use super::scan::{
    begins, begins_at, byte_at, comment_close, comment_open, doctype_end, find, find_byte, found,
    lemma_byte_at, local, local_name, Run, run_end, skip_doctype, skip_run,
};

use crate::text::{decode, decoded, same_bytes};

verus! {

/// A document as plain values: its bytes, the entities of its format,
/// and whether an entity that the table does not have is an error.
pub struct Document {
    pub bytes: Seq<u8>,
    pub table: Seq<(Seq<char>, Seq<char>)>,
    pub strict: bool,
}

/// Where a reader stands in a document.
pub struct Cursor {
    /// The position of the next byte.
    pub at: int,
    /// The names of the elements that are open, the innermost last.
    pub open: Seq<Seq<u8>>,
    /// Whether the innermost element was opened by a tag that also closes
    /// it, and has not been closed yet.
    pub closing: bool,
    /// Whether the root element has opened.
    pub rooted: bool,
}

/// What an [`Item`] holds.
pub enum ItemView {
    /// An element opens: its local name, and its attributes, each with
    /// its local name and its value.
    Open(Seq<char>, Seq<(Seq<char>, Seq<char>)>),
    /// Text inside an element.
    Text(Seq<char>),
    /// An element closes: its local name.
    Close(Seq<char>),
}

/// Where a reader stands after a step, and what the step gave: an event,
/// the end of the document, or what is wrong.
pub type Step = (Cursor, Result<Option<ItemView>, XmlError>);

/// The cursor at the beginning of a document.
pub open spec fn start() -> Cursor {
    Cursor { at: 0, open: Seq::empty(), closing: false, rooted: false }
}

/// Attributes in front of what follows them, where there is no error in
/// that.
pub open spec fn prepended(
    front: Seq<(Seq<char>, Seq<char>)>,
    rest: Result<(Seq<(Seq<char>, Seq<char>)>, int), XmlError>,
) -> Result<(Seq<(Seq<char>, Seq<char>)>, int), XmlError> {
    match rest {
        Ok((rest, end)) => Ok((front + rest, end)),
        Err(error) => Err(error),
    }
}

/// The attributes of a tag, read from `p` on, and the position of the
/// `>` or `/` that follows them. An attribute is a name, `=`, and a value
/// between two quotes of one kind; white space may stand around each of
/// these. The value is text, with its references replaced.
pub open spec fn attributes(doc: Document, p: int) -> Result<
    (Seq<(Seq<char>, Seq<char>)>, int),
    XmlError,
>
    decreases doc.bytes.len() - p,
{
    let s = doc.bytes;
    let q = run_end(s, p, Run::Spaces);
    if q < 0 || q >= s.len() {
        Err(XmlError::Truncated)
    } else if s[q] == 0x3E || s[q] == 0x2F {
        Ok((Seq::empty(), q))
    } else {
        let e = run_end(s, q, Run::Name);
        let eq = run_end(s, e, Run::Spaces);
        if e == q {
            Err(XmlError::Malformed)
        } else if eq < 0 || eq >= s.len() {
            Err(XmlError::Truncated)
        } else if s[eq] != 0x3D {
            Err(XmlError::Malformed)
        } else {
            let v = run_end(s, eq + 1, Run::Spaces);
            if v < 0 || v >= s.len() {
                Err(XmlError::Truncated)
            } else if s[v] != 0x22 && s[v] != 0x27 {
                Err(XmlError::Malformed)
            } else {
                match byte_at(s, v + 1, s[v]) {
                    None => Err(XmlError::Truncated),
                    Some(close) => if p <= close < s.len() {
                        match decoded(local(s.subrange(q, e))) {
                            None => Err(XmlError::Encoding),
                            Some(name) => match text_of(
                                s.subrange(v + 1, close),
                                doc.table,
                                doc.strict,
                            ) {
                                Err(error) => Err(error),
                                Ok(value) => prepended(
                                    seq![(name, value)],
                                    attributes(doc, close + 1),
                                ),
                            },
                        }
                    } else {
                        Err(XmlError::Malformed)
                    },
                }
            }
        }
    }
}

/// The event that closes the element of a name.
pub open spec fn close_of(name: Seq<u8>) -> Result<Option<ItemView>, XmlError> {
    match decoded(local(name)) {
        Some(name) => Ok(Some(ItemView::Close(name))),
        None => Err(XmlError::Encoding),
    }
}

/// `</`, which opens a closing tag.
pub open spec fn close_open() -> Seq<u8> {
    seq![0x3Cu8, 0x2Fu8]
}

/// `<?`, which opens a processing instruction.
pub open spec fn instruction_open() -> Seq<u8> {
    seq![0x3Cu8, 0x3Fu8]
}

/// `?>`, which closes a processing instruction.
pub open spec fn instruction_close() -> Seq<u8> {
    seq![0x3Fu8, 0x3Eu8]
}

/// `<!DOCTYPE`, which opens the declaration of the document type.
pub open spec fn doctype_open() -> Seq<u8> {
    seq![0x3Cu8, 0x21u8, 0x44u8, 0x4Fu8, 0x43u8, 0x54u8, 0x59u8, 0x50u8, 0x45u8]
}

/// The step over a closing tag, which begins at the cursor: a name, then
/// white space, then `>`. The name must be that of the innermost open
/// element.
pub open spec fn closing_tag(doc: Document, c: Cursor) -> Step {
    let s = doc.bytes;
    let a = c.at + 2;
    let e = run_end(s, a, Run::Name);
    let q = run_end(s, e, Run::Spaces);
    if q < 0 || q >= s.len() {
        (c, Err(XmlError::Truncated))
    } else if e == a || s[q] != 0x3E {
        (c, Err(XmlError::Malformed))
    } else if c.open.len() == 0 || c.open.last() != s.subrange(a, e) {
        (c, Err(XmlError::Malformed))
    } else {
        match close_of(s.subrange(a, e)) {
            Err(error) => (c, Err(error)),
            closed => (Cursor { at: q + 1, open: c.open.drop_last(), ..c }, closed),
        }
    }
}

/// The step over an opening tag, which begins at the cursor: a name, the
/// attributes, and `>`, or `/>` where the tag also closes the element.
/// There is one root element.
pub open spec fn opening_tag(doc: Document, c: Cursor) -> Step {
    let s = doc.bytes;
    let a = c.at + 1;
    let e = run_end(s, a, Run::Name);
    if a >= s.len() {
        (c, Err(XmlError::Truncated))
    } else if e == a {
        (c, Err(XmlError::Malformed))
    } else if c.open.len() == 0 && c.rooted {
        (c, Err(XmlError::Malformed))
    } else {
        match attributes(doc, e) {
            Err(error) => (c, Err(error)),
            Ok((attributes, q)) => match decoded(local(s.subrange(a, e))) {
                None => (c, Err(XmlError::Encoding)),
                Some(name) => {
                    let open = c.open.push(s.subrange(a, e));
                    let item = Ok(Some(ItemView::Open(name, attributes)));
                    if 0 <= q < s.len() && s[q] == 0x3E {
                        (Cursor { at: q + 1, open, closing: false, rooted: true }, item)
                    } else if q + 1 >= s.len() {
                        (c, Err(XmlError::Truncated))
                    } else if s[q + 1] != 0x3E {
                        (c, Err(XmlError::Malformed))
                    } else {
                        (Cursor { at: q + 2, open, closing: true, rooted: true }, item)
                    }
                },
            },
        }
    }
}

/// Where the text that begins at `p` ends: at the next `<`, or at the
/// end.
pub open spec fn text_end(s: Seq<u8>, p: int) -> int {
    match byte_at(s, p, 0x3C) {
        Some(q) => q,
        None => s.len() as int,
    }
}

/// The next step of a reader. An element that its own tag closes closes
/// first. At the end of the bytes the document ends, if its root element
/// has opened and closed. Text inside an element is an event, white space
/// and all; outside the root element there may be white space only, which
/// is passed over, as are processing instructions, comments, and the
/// declaration of the document type in front of the root element. Anything
/// else is a tag.
pub open spec fn next_item(doc: Document, c: Cursor) -> Step
    decreases doc.bytes.len() - c.at,
{
    let s = doc.bytes;
    if c.closing {
        if c.open.len() > 0 {
            (Cursor { open: c.open.drop_last(), closing: false, ..c }, close_of(c.open.last()))
        } else {
            (Cursor { closing: false, ..c }, Err(XmlError::Malformed))
        }
    } else if c.at < 0 || c.at >= s.len() {
        (
            c,
            if c.open.len() == 0 && c.rooted {
                Ok(None)
            } else {
                Err(XmlError::Truncated)
            },
        )
    } else if s[c.at] != 0x3C {
        let e = text_end(s, c.at);
        if c.open.len() == 0 {
            if run_end(s, c.at, Run::Spaces) >= e && c.at < e <= s.len() {
                next_item(doc, Cursor { at: e, ..c })
            } else {
                (c, Err(XmlError::Malformed))
            }
        } else {
            match text_of(s.subrange(c.at, e), doc.table, doc.strict) {
                Ok(text) => (Cursor { at: e, ..c }, Ok(Some(ItemView::Text(text)))),
                Err(error) => (c, Err(error)),
            }
        }
    } else if begins(s, c.at, instruction_open()) {
        match found(s, c.at + 2, instruction_close()) {
            Some(q) => if c.at < q && q + 2 <= s.len() {
                next_item(doc, Cursor { at: q + 2, ..c })
            } else {
                (c, Err(XmlError::Malformed))
            },
            None => (c, Err(XmlError::Truncated)),
        }
    } else if begins(s, c.at, comment_open()) {
        match found(s, c.at + 4, comment_close()) {
            Some(q) => if c.at < q && q + 3 <= s.len() {
                next_item(doc, Cursor { at: q + 3, ..c })
            } else {
                (c, Err(XmlError::Malformed))
            },
            None => (c, Err(XmlError::Truncated)),
        }
    } else if begins(s, c.at, doctype_open()) {
        if c.rooted {
            (c, Err(XmlError::Malformed))
        } else {
            match doctype_end(s, c.at + 9, false) {
                Some(q) => if c.at < q <= s.len() {
                    next_item(doc, Cursor { at: q, ..c })
                } else {
                    (c, Err(XmlError::Malformed))
                },
                None => (c, Err(XmlError::Truncated)),
            }
        }
    } else if begins(s, c.at, close_open()) {
        closing_tag(doc, c)
    } else {
        opening_tag(doc, c)
    }
}

/// An attribute of an element: its local name and its value.
#[derive(Debug)]
pub struct Attribute<'a> {
    pub name: &'a str,
    pub value: Chars<'a>,
}

/// What attributes hold.
pub open spec fn attribute_views(attributes: Seq<Attribute>) -> Seq<(Seq<char>, Seq<char>)> {
    Seq::new(attributes.len(), |i: int| (attributes[i].name@, attributes[i].value@))
}

/// One event of a document.
#[derive(Debug)]
pub enum Item<'a> {
    /// An element opens: its local name, and its attributes.
    Open(&'a str, Vec<Attribute<'a>>),
    /// Text inside an element.
    Text(Chars<'a>),
    /// An element closes: its local name.
    Close(&'a str),
}

impl<'a> View for Item<'a> {
    type V = ItemView;

    open spec fn view(&self) -> ItemView {
        match self {
            Item::Open(name, attributes) => ItemView::Open(name@, attribute_views(attributes@)),
            Item::Text(text) => ItemView::Text(text@),
            Item::Close(name) => ItemView::Close(name@),
        }
    }
}

/// What the result of a step stands for.
pub open spec fn outcome(item: Result<Option<Item>, XmlError>) -> Result<
    Option<ItemView>,
    XmlError,
> {
    match item {
        Ok(Some(item)) => Ok(Some(item@)),
        Ok(None) => Ok(None),
        Err(error) => Err(error),
    }
}

/// The names that slices hold.
pub open spec fn names(open: Seq<&[u8]>) -> Seq<Seq<u8>> {
    Seq::new(open.len(), |i: int| open[i]@)
}

/// The event that closes the element of a name.
fn close_item<'a>(name: &'a [u8]) -> (item: Result<Option<Item<'a>>, XmlError>)
    ensures
        outcome(item) == close_of(name@),
{
    match decode(local_name(name)) {
        Some(name) => Ok(Some(Item::Close(name))),
        None => Err(XmlError::Encoding),
    }
}

/// What the result of reading attributes stands for.
pub open spec fn attributes_read(read: Result<(Vec<Attribute>, usize), XmlError>) -> Result<
    (Seq<(Seq<char>, Seq<char>)>, int),
    XmlError,
> {
    match read {
        Ok((attributes, end)) => Ok((attribute_views(attributes@), end as int)),
        Err(error) => Err(error),
    }
}

/// A pull reader over the bytes of a document.
#[derive(Debug)]
pub struct Reader<'a> {
    input: &'a [u8],
    entities: &'a [(&'a str, &'a str)],
    strict: bool,
    at: usize,
    open: Vec<&'a [u8]>,
    closing: bool,
    rooted: bool,
}

impl<'a> Reader<'a> {
    /// The document that the reader reads.
    pub closed spec fn document(&self) -> Document {
        Document { bytes: self.input@, table: table_of(self.entities@), strict: self.strict }
    }

    /// Where the reader stands.
    pub closed spec fn cursor(&self) -> Cursor {
        Cursor {
            at: self.at as int,
            open: names(self.open@),
            closing: self.closing,
            rooted: self.rooted,
        }
    }

    /// A reader at the beginning of a document, with the entities of its
    /// format. A strict reader turns down a reference to an entity that
    /// the table does not have; another leaves it as it is written.
    pub fn new(input: &'a [u8], entities: &'a [(&'a str, &'a str)], strict: bool) -> (reader:
        Reader<'a>)
        ensures
            reader.document() == (Document {
                bytes: input@,
                table: table_of(entities@),
                strict,
            }),
            reader.cursor() == start(),
    {
        let reader = Reader {
            input,
            entities,
            strict,
            at: 0,
            open: Vec::new(),
            closing: false,
            rooted: false,
        };
        assert(names(reader.open@) =~= Seq::<Seq<u8>>::empty());
        reader
    }

    /// A reader never stands in front of its document.
    pub proof fn lemma_position(&self)
        ensures
            0 <= self.cursor().at,
    {
    }

    /// The position of the next byte.
    pub fn position(&self) -> (at: usize)
        ensures
            at == self.cursor().at,
    {
        self.at
    }

    /// The number of elements that are open.
    pub fn depth(&self) -> (n: usize)
        ensures
            n == self.cursor().open.len(),
    {
        self.open.len()
    }

    /// The attributes of a tag, read from `p` on, and the position of
    /// the `>` or `/` that follows them.
    #[verifier::loop_isolation(false)]
    fn read_attributes(&self, p: usize) -> (read: Result<(Vec<Attribute<'a>>, usize), XmlError>)
        requires
            p <= self.input@.len(),
        ensures
            attributes_read(read) == attributes(self.document(), p as int),
            read matches Ok((_, end)) ==> end < self.input@.len() && (self.input@[end as int]
                == 0x3E || self.input@[end as int] == 0x2F),
    {
        let ghost doc = self.document();
        let s = self.input;
        let mut list: Vec<Attribute<'a>> = Vec::new();
        let mut at: usize = p;
        assert(attribute_views(list@) =~= Seq::empty());
        loop
            invariant
                at <= s@.len(),
                s == self.input,
                doc == self.document(),
                attributes(doc, p as int) == prepended(
                    attribute_views(list@),
                    attributes(doc, at as int),
                ),
            decreases s@.len() - at,
        {
            let ghost had = attribute_views(list@);
            let q = skip_run(s, at, Run::Spaces);
            if q >= s.len() {
                return Err(XmlError::Truncated);
            }
            if s[q] == 0x3E || s[q] == 0x2F {
                assert(had + Seq::empty() =~= had);
                return Ok((list, q));
            }
            let e = skip_run(s, q, Run::Name);
            let eq = skip_run(s, e, Run::Spaces);
            if e == q {
                return Err(XmlError::Malformed);
            }
            if eq >= s.len() {
                return Err(XmlError::Truncated);
            }
            if s[eq] != 0x3D {
                return Err(XmlError::Malformed);
            }
            let v = skip_run(s, eq + 1, Run::Spaces);
            if v >= s.len() {
                return Err(XmlError::Truncated);
            }
            if s[v] != 0x22 && s[v] != 0x27 {
                return Err(XmlError::Malformed);
            }
            let close = match find_byte(s, v + 1, s[v]) {
                Some(close) => close,
                None => {
                    return Err(XmlError::Truncated);
                },
            };
            let name = match decode(local_name(slice_subrange(s, q, e))) {
                Some(name) => name,
                None => {
                    return Err(XmlError::Encoding);
                },
            };
            let value = match read_text(slice_subrange(s, v + 1, close), self.entities, self.strict) {
                Ok(value) => value,
                Err(error) => {
                    return Err(error);
                },
            };
            let ghost one = (name@, value@);
            list.push(Attribute { name, value });
            proof {
                assert(attribute_views(list@) =~= had + seq![one]);
                let rest = attributes(doc, close + 1);
                if let Ok((more, end)) = rest {
                    assert(had + (seq![one] + more) =~= attribute_views(list@) + more);
                }
            }
            at = close + 1;
        }
    }

    /// Steps over a closing tag.
    fn close_tag(&mut self) -> (item: Result<Option<Item<'a>>, XmlError>)
        requires
            begins(old(self).document().bytes, old(self).cursor().at, close_open()),
        ensures
            (final(self).cursor(), outcome(item)) == closing_tag(
                old(self).document(),
                old(self).cursor(),
            ),
            final(self).document() == old(self).document(),
    {
        let s = self.input;
        let len = s.len();
        assert(self.at + 2 <= len);
        let a = self.at + 2;
        let e = skip_run(s, a, Run::Name);
        let q = skip_run(s, e, Run::Spaces);
        if q >= s.len() {
            return Err(XmlError::Truncated);
        }
        if e == a || s[q] != 0x3E {
            return Err(XmlError::Malformed);
        }
        let name = slice_subrange(s, a, e);
        let n = self.open.len();
        if n == 0 {
            return Err(XmlError::Malformed);
        }
        assert(names(self.open@).last() == self.open@[n - 1]@);
        if !same_bytes(self.open[n - 1], name) {
            return Err(XmlError::Malformed);
        }
        match close_item(name) {
            Err(error) => Err(error),
            closed => {
                self.open.pop();
                self.at = q + 1;
                assert(names(self.open@) =~= names(old(self).open@).drop_last());
                closed
            },
        }
    }

    /// Steps over an opening tag.
    fn open_tag(&mut self) -> (item: Result<Option<Item<'a>>, XmlError>)
        requires
            old(self).cursor().at < old(self).document().bytes.len(),
        ensures
            (final(self).cursor(), outcome(item)) == opening_tag(
                old(self).document(),
                old(self).cursor(),
            ),
            final(self).document() == old(self).document(),
    {
        let s = self.input;
        let len = s.len();
        let a = self.at + 1;
        if a >= s.len() {
            return Err(XmlError::Truncated);
        }
        let e = skip_run(s, a, Run::Name);
        if e == a {
            return Err(XmlError::Malformed);
        }
        if self.open.len() == 0 && self.rooted {
            return Err(XmlError::Malformed);
        }
        let (attributes, q) = match self.read_attributes(e) {
            Ok(read) => read,
            Err(error) => {
                return Err(error);
            },
        };
        let full = slice_subrange(s, a, e);
        let name = match decode(local_name(full)) {
            Some(name) => name,
            None => {
                return Err(XmlError::Encoding);
            },
        };
        if s[q] == 0x3E {
            self.at = q + 1;
            self.closing = false;
        } else if q + 1 >= s.len() {
            return Err(XmlError::Truncated);
        } else if s[q + 1] != 0x3E {
            return Err(XmlError::Malformed);
        } else {
            self.at = q + 2;
            self.closing = true;
        }
        self.open.push(full);
        self.rooted = true;
        assert(names(self.open@) =~= names(old(self).open@).push(full@));
        Ok(Some(Item::Open(name, attributes)))
    }

    /// The next event of the document; nothing at its end; or what is
    /// wrong with it, in which case the reader stands in front of what is
    /// wrong, behind what it has passed over.
    #[verifier::loop_isolation(false)]
    pub fn next(&mut self) -> (item: Result<Option<Item<'a>>, XmlError>)
        ensures
            (final(self).cursor(), outcome(item)) == next_item(
                old(self).document(),
                old(self).cursor(),
            ),
            final(self).document() == old(self).document(),
    {
        if self.closing {
            self.closing = false;
            let n = self.open.len();
            if n == 0 {
                return Err(XmlError::Malformed);
            }
            assert(names(self.open@).last() == self.open@[n - 1]@);
            let name = self.open[n - 1];
            self.open.pop();
            assert(names(self.open@) =~= names(old(self).open@).drop_last());
            return close_item(name);
        }
        let ghost doc = self.document();
        let ghost began = self.cursor();
        let instruction: [u8; 2] = [0x3C, 0x3F];
        let instruction_end: [u8; 2] = [0x3F, 0x3E];
        let comment: [u8; 4] = [0x3C, 0x21, 0x2D, 0x2D];
        let comment_end: [u8; 3] = [0x2D, 0x2D, 0x3E];
        let doctype: [u8; 9] = [0x3C, 0x21, 0x44, 0x4F, 0x43, 0x54, 0x59, 0x50, 0x45];
        let closing: [u8; 2] = [0x3C, 0x2F];
        assert(instruction@ =~= instruction_open());
        assert(instruction_end@ =~= instruction_close());
        assert(comment@ =~= comment_open());
        assert(comment_end@ =~= comment_close());
        assert(doctype@ =~= doctype_open());
        assert(closing@ =~= close_open());
        let s = self.input;
        loop
            invariant
                s == self.input,
                self.document() == doc,
                !self.closing,
                next_item(doc, self.cursor()) == next_item(doc, began),
                instruction@ == instruction_open(),
                instruction_end@ == instruction_close(),
                comment@ == comment_open(),
                comment_end@ == comment_close(),
                doctype@ == doctype_open(),
                closing@ == close_open(),
            decreases s@.len() - self.at,
        {
            if self.at >= s.len() {
                return if self.open.len() == 0 && self.rooted {
                    Ok(None)
                } else {
                    Err(XmlError::Truncated)
                };
            }
            if s[self.at] != 0x3C {
                let end = match find_byte(s, self.at, 0x3C) {
                    Some(q) => q,
                    None => s.len(),
                };
                proof {
                    lemma_byte_at(s@, self.at as int, 0x3C);
                }
                if self.open.len() == 0 {
                    if skip_run(s, self.at, Run::Spaces) >= end {
                        self.at = end;
                    } else {
                        return Err(XmlError::Malformed);
                    }
                } else {
                    let raw = slice_subrange(s, self.at, end);
                    return match read_text(raw, self.entities, self.strict) {
                        Ok(text) => {
                            self.at = end;
                            Ok(Some(Item::Text(text)))
                        },
                        Err(error) => Err(error),
                    };
                }
            } else if begins_at(s, self.at, instruction.as_slice()) {
                match find(s, self.at + 2, instruction_end.as_slice()) {
                    Some(q) => {
                        self.at = q + 2;
                    },
                    None => {
                        return Err(XmlError::Truncated);
                    },
                }
            } else if begins_at(s, self.at, comment.as_slice()) {
                match find(s, self.at + 4, comment_end.as_slice()) {
                    Some(q) => {
                        self.at = q + 3;
                    },
                    None => {
                        return Err(XmlError::Truncated);
                    },
                }
            } else if begins_at(s, self.at, doctype.as_slice()) {
                if self.rooted {
                    return Err(XmlError::Malformed);
                }
                match skip_doctype(s, self.at + 9) {
                    Some(q) => {
                        self.at = q;
                    },
                    None => {
                        return Err(XmlError::Truncated);
                    },
                }
            } else if begins_at(s, self.at, closing.as_slice()) {
                return self.close_tag();
            } else {
                return self.open_tag();
            }
        }
    }
}

} // verus!
