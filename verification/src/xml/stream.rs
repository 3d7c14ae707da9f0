//! The events of a whole element, and why a reader comes to an end.
use vstd::prelude::*;

use super::expand::XmlError;
use super::reader::{attributes, Cursor, Document, Item, ItemView, next_item, Reader, text_end};
use super::scan::{lemma_byte_at, lemma_run_end, Run, run_end};

verus! {

/// What is left of a document at a cursor: it shrinks with every event.
pub open spec fn weight(doc: Document, c: Cursor) -> int {
    let left = if c.at < doc.bytes.len() {
        doc.bytes.len() - c.at
    } else {
        0
    };
    2 * left + if c.closing {
        1int
    } else {
        0int
    }
}

/// The attributes of a tag end within the bytes, at `>` or `/`.
pub proof fn lemma_attributes_end(doc: Document, p: int)
    requires
        0 <= p <= doc.bytes.len(),
    ensures
        attributes(doc, p) matches Ok((_, q)) ==> p <= q < doc.bytes.len() && (doc.bytes[q] == 0x3E
            || doc.bytes[q] == 0x2F),
    decreases doc.bytes.len() - p,
{
    let s = doc.bytes;
    let q = run_end(s, p, Run::Spaces);
    lemma_run_end(s, p, Run::Spaces);
    if q < s.len() && s[q] != 0x3E && s[q] != 0x2F {
        let e = run_end(s, q, Run::Name);
        lemma_run_end(s, q, Run::Name);
        let eq = run_end(s, e, Run::Spaces);
        lemma_run_end(s, e, Run::Spaces);
        if e != q && eq < s.len() && s[eq] == 0x3D {
            let v = run_end(s, eq + 1, Run::Spaces);
            lemma_run_end(s, eq + 1, Run::Spaces);
            if v < s.len() && (s[v] == 0x22 || s[v] == 0x27) {
                lemma_byte_at(s, v + 1, s[v]);
                match super::scan::byte_at(s, v + 1, s[v]) {
                    Some(close) => {
                        lemma_attributes_end(doc, close + 1);
                    },
                    None => {},
                }
            }
        }
    }
}

/// A step never moves the cursor back; a step that gives an event
/// leaves less of the document.
pub proof fn lemma_next_progress(doc: Document, c: Cursor)
    requires
        0 <= c.at,
    ensures
        c.at <= next_item(doc, c).0.at,
        0 <= weight(doc, next_item(doc, c).0),
        next_item(doc, c).1 matches Ok(Some(_)) ==> weight(doc, next_item(doc, c).0) < weight(
            doc,
            c,
        ),
    decreases doc.bytes.len() - c.at,
{
    let s = doc.bytes;
    if c.closing {
    } else if c.at >= s.len() {
    } else if s[c.at] != 0x3C {
        let e = text_end(s, c.at);
        lemma_byte_at(s, c.at, 0x3C);
        if c.open.len() == 0 {
            if run_end(s, c.at, Run::Spaces) >= e && c.at < e <= s.len() {
                lemma_next_progress(doc, Cursor { at: e, ..c });
            }
        }
    } else if super::scan::begins(s, c.at, super::reader::instruction_open()) {
        match super::scan::found(s, c.at + 2, super::reader::instruction_close()) {
            Some(q) => {
                if c.at < q && q + 2 <= s.len() {
                    lemma_next_progress(doc, Cursor { at: q + 2, ..c });
                }
            },
            None => {},
        }
    } else if super::scan::begins(s, c.at, super::scan::comment_open()) {
        match super::scan::found(s, c.at + 4, super::scan::comment_close()) {
            Some(q) => {
                if c.at < q && q + 3 <= s.len() {
                    lemma_next_progress(doc, Cursor { at: q + 3, ..c });
                }
            },
            None => {},
        }
    } else if super::scan::begins(s, c.at, super::reader::doctype_open()) {
        if !c.rooted {
            match super::scan::doctype_end(s, c.at + 9, false) {
                Some(q) => {
                    if c.at < q <= s.len() {
                        lemma_next_progress(doc, Cursor { at: q, ..c });
                    }
                },
                None => {},
            }
        }
    } else if super::scan::begins(s, c.at, super::reader::close_open()) {
        let a = c.at + 2;
        lemma_run_end(s, a, Run::Name);
        lemma_run_end(s, run_end(s, a, Run::Name), Run::Spaces);
    } else {
        let a = c.at + 1;
        if a < s.len() {
            lemma_run_end(s, a, Run::Name);
            lemma_attributes_end(doc, run_end(s, a, Run::Name));
        }
    }
}

/// An event in front of those that follow, where there is no error in
/// them.
pub open spec fn followed(item: ItemView, rest: (Cursor, Result<Seq<ItemView>, XmlError>)) -> (
    Cursor,
    Result<Seq<ItemView>, XmlError>,
) {
    match rest.1 {
        Ok(items) => (rest.0, Ok(seq![item] + items)),
        Err(error) => (rest.0, Err(error)),
    }
}

/// The events from the cursor up to the one that leaves fewer than
/// `depth` elements open, which is the last of them: with `depth` the
/// number of elements that are open at the cursor, these are the events
/// of the innermost element, up to the one that closes it. A document
/// that ends first is cut short.
pub open spec fn element(doc: Document, c: Cursor, depth: int) -> (
    Cursor,
    Result<Seq<ItemView>, XmlError>,
)
    decreases weight(doc, c),
{
    match next_item(doc, c) {
        (after, Ok(Some(item))) => if after.open.len() < depth {
            (after, Ok(seq![item]))
        } else if 0 <= weight(doc, after) < weight(doc, c) {
            followed(item, element(doc, after, depth))
        } else {
            (after, Err(XmlError::Malformed))
        },
        (after, Ok(None)) => (after, Err(XmlError::Truncated)),
        (after, Err(error)) => (after, Err(error)),
    }
}

/// The events of an element end behind the cursor that they were read
/// from, and leave less of the document.
pub proof fn lemma_element_progress(doc: Document, c: Cursor, depth: int)
    requires
        0 <= c.at,
    ensures
        c.at <= element(doc, c, depth).0.at,
        0 <= weight(doc, element(doc, c, depth).0),
        element(doc, c, depth).1 is Ok ==> weight(doc, element(doc, c, depth).0) < weight(doc, c),
    decreases weight(doc, c),
{
    lemma_next_progress(doc, c);
    match next_item(doc, c) {
        (after, Ok(Some(item))) => {
            if after.open.len() >= depth && 0 <= weight(doc, after) < weight(doc, c) {
                lemma_element_progress(doc, after, depth);
            }
        },
        _ => {},
    }
}

/// What events hold.
pub open spec fn item_views(items: Seq<Item>) -> Seq<ItemView> {
    Seq::new(items.len(), |i: int| items[i]@)
}

/// What the result of reading events stands for.
pub open spec fn items_read(items: Result<Vec<Item>, XmlError>) -> Result<Seq<ItemView>, XmlError> {
    match items {
        Ok(items) => Ok(item_views(items@)),
        Err(error) => Err(error),
    }
}

/// Events in front of those that follow, where there is no error in
/// them.
pub open spec fn after_all(
    front: Seq<ItemView>,
    rest: (Cursor, Result<Seq<ItemView>, XmlError>),
) -> (Cursor, Result<Seq<ItemView>, XmlError>) {
    match rest.1 {
        Ok(items) => (rest.0, Ok(front + items)),
        Err(error) => (rest.0, Err(error)),
    }
}

/// Reads the events up to the one that leaves fewer than `depth`
/// elements open.
#[verifier::loop_isolation(false)]
pub fn read_element<'a>(reader: &mut Reader<'a>, depth: usize) -> (items: Result<
    Vec<Item<'a>>,
    XmlError,
>)
    ensures
        final(reader).document() == old(reader).document(),
        (final(reader).cursor(), items_read(items)) == element(
            old(reader).document(),
            old(reader).cursor(),
            depth as int,
        ),
{
    let ghost doc = reader.document();
    let ghost began = reader.cursor();
    let mut items: Vec<Item<'a>> = Vec::new();
    assert(item_views(items@) =~= Seq::empty());
    proof {
        reader.lemma_position();
    }
    loop
        invariant
            reader.document() == doc,
            0 <= reader.cursor().at,
            element(doc, began, depth as int) == after_all(
                item_views(items@),
                element(doc, reader.cursor(), depth as int),
            ),
        decreases weight(doc, reader.cursor()),
    {
        let ghost had = item_views(items@);
        let ghost before = reader.cursor();
        proof {
            lemma_next_progress(doc, before);
        }
        match reader.next() {
            Ok(Some(item)) => {
                let ghost view = item@;
                items.push(item);
                assert(item_views(items@) =~= had + seq![view]);
                if reader.depth() < depth {
                    return Ok(items);
                }
                proof {
                    let rest = element(doc, reader.cursor(), depth as int);
                    if let Ok(more) = rest.1 {
                        assert(had + (seq![view] + more) =~= item_views(items@) + more);
                    }
                }
            },
            Ok(None) => {
                return Err(XmlError::Truncated);
            },
            Err(error) => {
                return Err(error);
            },
        }
    }
}

} // verus!
