//! Loading a dictionary: from the bytes of a document to the records of
//! a store, and to its image.
use vstd::prelude::*;
use vstd::string::*;

use crate::database::laws::lemma_store_round_trip;
use crate::database::model::opened;
use crate::database::store::{Store, StoreError, Tables};
use crate::jmdict::builder as entry_builder;
use crate::jmdict::entry::{Entry, EntryView};
use crate::kanjidic2::builder as character_builder;
use crate::kanjidic2::character::{Character, CharacterView};
use crate::parser::{Error, Event, Output, Poll, Rejection};
use crate::text::same;
use crate::xml::expand::{table_of, XmlError};
use crate::xml::reader::{
    attribute_views, Cursor, Document, Item, ItemView, next_item, Reader, start,
};
use crate::xml::stream::{
    element, item_views, lemma_element_progress, lemma_next_progress, read_element, weight,
};

verus! {

/// The elements that hold a record.
#[derive(Clone, Copy, Debug, PartialEq, Eq, Structural, Hash)]
pub enum Element {
    /// `entry`: an entry of the vocabulary.
    Entry,
    /// `character`: a character.
    Character,
}

/// The element of a name, if it holds a record.
pub open spec fn element_named(name: Seq<char>) -> Option<Element> {
    if name == "entry"@ {
        Some(Element::Entry)
    } else if name == "character"@ {
        Some(Element::Character)
    } else {
        None
    }
}

/// The element of a name, if it holds a record.
pub fn element_of(name: &str) -> (element: Option<Element>)
    ensures
        element == element_named(name@),
{
    if same(name, "entry") {
        Some(Element::Entry)
    } else if same(name, "character") {
        Some(Element::Character)
    } else {
        None
    }
}

/// What a [`Record`] holds.
pub enum RecordView {
    Entry(EntryView),
    Character(CharacterView),
}

/// A record of a dictionary.
#[derive(Debug)]
pub enum Record<'a> {
    Entry(Entry<'a>),
    Character(Character<'a>),
}

impl<'a> View for Record<'a> {
    type V = RecordView;

    open spec fn view(&self) -> RecordView {
        match self {
            Record::Entry(entry) => RecordView::Entry(entry@),
            Record::Character(character) => RecordView::Character(character@),
        }
    }
}

/// What the builder of a record has taken in.
pub enum Slots {
    Entry(entry_builder::Slots),
    Character(character_builder::Slots),
}

/// What the builder of a record answers, as plain values.
pub type Outcome = Result<Poll<RecordView>, Rejection>;

/// The slots of the builder of an element that has taken nothing in.
pub open spec fn fresh(element: Element) -> Slots {
    match element {
        Element::Entry => Slots::Entry(
            entry_builder::Slots {
                sequence: None,
                reading_elements: Seq::empty(),
                kanji_elements: Seq::empty(),
                senses: Seq::empty(),
                child: None,
            },
        ),
        Element::Character => Slots::Character(character_builder::empty()),
    }
}

/// Whether the builder of a record wants the text at this point.
pub open spec fn wants_text(slots: Slots) -> bool {
    match slots {
        Slots::Entry(slots) => entry_builder::wanted(slots),
        Slots::Character(slots) => slots.place is Leaf || slots.place is Reading
            || slots.place is Meaning,
    }
}

/// The slots of the builder of a record after an event, and the answer
/// to it.
pub open spec fn step(slots: Slots, event: Event) -> (Slots, Outcome) {
    match slots {
        Slots::Entry(slots) => match entry_builder::step(slots, event) {
            (slots, Ok(Poll::Pending)) => (Slots::Entry(slots), Ok(Poll::Pending)),
            (slots, Ok(Poll::Ready(entry))) => (
                Slots::Entry(slots),
                Ok(Poll::Ready(RecordView::Entry(entry))),
            ),
            (slots, Err(rejection)) => (Slots::Entry(slots), Err(rejection)),
        },
        Slots::Character(slots) => match character_builder::step(slots, event) {
            (slots, Ok(Poll::Pending)) => (Slots::Character(slots), Ok(Poll::Pending)),
            (slots, Ok(Poll::Ready(character))) => (
                Slots::Character(slots),
                Ok(Poll::Ready(RecordView::Character(character))),
            ),
            (slots, Err(rejection)) => (Slots::Character(slots), Err(rejection)),
        },
    }
}

/// The slots after the attributes of a tag from `j` on, each an event of
/// its own, and the answer to them: that to the first which is not taken
/// in and waited upon.
pub open spec fn with_attributes(
    slots: Slots,
    attributes: Seq<(Seq<char>, Seq<char>)>,
    j: int,
) -> (Slots, Outcome)
    decreases attributes.len() - j,
{
    if j < 0 || j >= attributes.len() {
        (slots, Ok(Poll::Pending))
    } else {
        match step(slots, Event::Attribute(attributes[j].0, attributes[j].1)) {
            (next, Ok(Poll::Pending)) => with_attributes(next, attributes, j + 1),
            other => other,
        }
    }
}

/// The slots after an event of the document, and the answer to it. A tag
/// that opens an element is the event that the element opens, and then
/// one for each attribute. Text is handed on where the builder wants it,
/// and dropped where it does not.
pub open spec fn item_step(slots: Slots, item: ItemView) -> (Slots, Outcome) {
    match item {
        ItemView::Open(name, attributes) => match step(slots, Event::Open(name)) {
            (next, Ok(Poll::Pending)) => with_attributes(next, attributes, 0),
            other => other,
        },
        ItemView::Text(text) => if wants_text(slots) {
            step(slots, Event::Text(text))
        } else {
            (slots, Ok(Poll::Pending))
        },
        ItemView::Close(_) => step(slots, Event::Close),
    }
}

/// Why a document is not loaded.
pub enum Failure {
    /// The document is not one.
    Xml(XmlError),
    /// A builder turned an event down.
    Rejected(Rejection),
    /// A builder gave its record before the element had closed, or none
    /// when it had.
    Unfinished,
    /// The store did not take a record in, or makes no image.
    Store(StoreError),
}

/// The record that a builder gives for the events of an element from `i`
/// on: each is handed to it in turn, and the last one must give the
/// record.
pub open spec fn assembled(slots: Slots, items: Seq<ItemView>, i: int) -> Result<
    RecordView,
    Failure,
>
    decreases items.len() - i,
{
    if i < 0 || i >= items.len() {
        Err(Failure::Unfinished)
    } else {
        match item_step(slots, items[i]) {
            (next, Ok(Poll::Pending)) => assembled(next, items, i + 1),
            (_, Ok(Poll::Ready(record))) => if i + 1 == items.len() {
                Ok(record)
            } else {
                Err(Failure::Unfinished)
            },
            (_, Err(rejection)) => Err(Failure::Rejected(rejection)),
        }
    }
}

/// What a store holds and what it has taken in.
pub struct Shelf {
    pub tables: Tables,
    pub entries: Seq<EntryView>,
    pub characters: Seq<CharacterView>,
}

/// The shelf of a store.
pub open spec fn shelf(store: Store) -> Shelf {
    Shelf { tables: store@, entries: store.entries(), characters: store.characters() }
}

/// The shelf after a record was taken in, or why it was not.
pub open spec fn taken(shelf: Shelf, record: RecordView) -> Result<Shelf, Failure> {
    match record {
        RecordView::Entry(entry) => match shelf.tables.inserted(entry) {
            Ok(tables) => Ok(Shelf { tables, entries: shelf.entries.push(entry), ..shelf }),
            Err(error) => Err(Failure::Store(error)),
        },
        RecordView::Character(character) => match shelf.tables.with_character(character) {
            Ok(tables) => Ok(
                Shelf { tables, characters: shelf.characters.push(character), ..shelf },
            ),
            Err(error) => Err(Failure::Store(error)),
        },
    }
}

/// The shelf at the end of a document whose root element has closed:
/// nothing but white space, comments and processing instructions may
/// follow.
pub open spec fn ended(doc: Document, c: Cursor, shelf: Shelf) -> Result<Shelf, Failure> {
    match next_item(doc, c).1 {
        Ok(None) => Ok(shelf),
        Ok(Some(_)) => Err(Failure::Xml(XmlError::Malformed)),
        Err(error) => Err(Failure::Xml(error)),
    }
}

/// The shelf after the rest of the root element, read from the cursor
/// on. Each child that holds a record gives one, built from the events
/// inside it, and the store takes it in; the attributes of the child
/// itself are passed over, as are the other children and the text between
/// them. The first thing that is wrong ends the loading.
pub open spec fn loaded(doc: Document, c: Cursor, shelf: Shelf) -> Result<Shelf, Failure>
    decreases weight(doc, c),
{
    match next_item(doc, c) {
        (_, Err(error)) => Err(Failure::Xml(error)),
        (_, Ok(None)) => Err(Failure::Xml(XmlError::Truncated)),
        (after, Ok(Some(item))) => if !(0 <= weight(doc, after) < weight(doc, c)) {
            Err(Failure::Xml(XmlError::Malformed))
        } else {
            match item {
                ItemView::Close(_) => ended(doc, after, shelf),
                ItemView::Text(_) => loaded(doc, after, shelf),
                ItemView::Open(name, _) => match element(doc, after, after.open.len() as int) {
                    (_, Err(error)) => Err(Failure::Xml(error)),
                    (behind, Ok(items)) => if !(0 <= weight(doc, behind) < weight(doc, c)) {
                        Err(Failure::Xml(XmlError::Malformed))
                    } else {
                        match element_named(name) {
                            None => loaded(doc, behind, shelf),
                            Some(kind) => match assembled(fresh(kind), items, 0) {
                                Err(failure) => Err(failure),
                                Ok(record) => match taken(shelf, record) {
                                    Err(failure) => Err(failure),
                                    Ok(shelf) => loaded(doc, behind, shelf),
                                },
                            },
                        }
                    },
                },
            }
        }
    }
}

/// The shelf after a document: its root element opens first, whatever
/// its name, and the rest is the rest of that element.
pub open spec fn document_loaded(doc: Document, shelf: Shelf) -> Result<Shelf, Failure> {
    match next_item(doc, start()) {
        (c, Ok(Some(_))) => loaded(doc, c, shelf),
        (_, Ok(None)) => Err(Failure::Xml(XmlError::Truncated)),
        (_, Err(error)) => Err(Failure::Xml(error)),
    }
}

/// An event that a builder turned down, kept beyond the document.
#[derive(Debug)]
pub enum Offence {
    Open(String),
    Attribute(String, String),
    Text(String),
    Close,
}

impl View for Offence {
    type V = Event;

    open spec fn view(&self) -> Event {
        match self {
            Offence::Open(name) => Event::Open(name@),
            Offence::Attribute(name, value) => Event::Attribute(name@, value@),
            Offence::Text(text) => Event::Text(text@),
            Offence::Close => Event::Close,
        }
    }
}

/// Why a builder turned an event down, kept beyond the document.
#[derive(Debug)]
pub enum Fault {
    /// The element closed without the named field.
    Missing(&'static str),
    /// The event has no place in the element, or its place is taken.
    Unsupported(Offence),
    /// The named field does not hold what it must.
    Invalid(&'static str),
}

impl View for Fault {
    type V = Rejection;

    open spec fn view(&self) -> Rejection {
        match self {
            Fault::Missing(field) => Rejection::Missing(field@),
            Fault::Unsupported(offence) => Rejection::Unsupported(offence@),
            Fault::Invalid(field) => Rejection::Invalid(field@),
        }
    }
}

/// Why a document is not loaded.
#[derive(Debug)]
pub enum LoadError {
    /// The document is not one.
    Xml(XmlError),
    /// A builder turned an event down.
    Rejected(Fault),
    /// A builder gave its record before the element had closed, or none
    /// when it had.
    Unfinished,
    /// The store did not take a record in, or makes no image.
    Store(StoreError),
}

impl View for LoadError {
    type V = Failure;

    open spec fn view(&self) -> Failure {
        match self {
            LoadError::Xml(error) => Failure::Xml(*error),
            LoadError::Rejected(fault) => Failure::Rejected(fault@),
            LoadError::Unfinished => Failure::Unfinished,
            LoadError::Store(error) => Failure::Store(*error),
        }
    }
}

/// Keeps what a builder said beyond the document.
fn kept(error: Error<'_>) -> (fault: Fault)
    ensures
        fault@ == error@,
{
    match error {
        Error::Missing(field) => Fault::Missing(field),
        Error::Invalid(field) => Fault::Invalid(field),
        Error::Unsupported(output) => Fault::Unsupported(
            match output {
                Output::Open(name) => Offence::Open(String::from_str(name)),
                Output::Attribute(name, value) => Offence::Attribute(
                    String::from_str(name),
                    String::from_str(value),
                ),
                Output::Text(text) => Offence::Text(String::from_str(text)),
                Output::Close => Offence::Close,
            },
        ),
    }
}

/// The builder of a record.
#[derive(Debug)]
enum Builder<'a> {
    Entry(entry_builder::Builder<'a>),
    Character(character_builder::Builder<'a>),
}

impl<'a> View for Builder<'a> {
    type V = Slots;

    closed spec fn view(&self) -> Slots {
        match self {
            Builder::Entry(builder) => Slots::Entry(builder@),
            Builder::Character(builder) => Slots::Character(builder@),
        }
    }
}

/// What an answer stands for.
pub open spec fn outcome_of(answer: Result<Poll<Record>, Error>) -> Outcome {
    match answer {
        Ok(Poll::Pending) => Ok(Poll::Pending),
        Ok(Poll::Ready(record)) => Ok(Poll::Ready(record@)),
        Err(error) => Err(error@),
    }
}

impl<'a> Builder<'a> {
    fn new(element: Element) -> (builder: Builder<'a>)
        ensures
            builder@ == fresh(element),
    {
        match element {
            Element::Entry => Builder::Entry(entry_builder::Builder::new()),
            Element::Character => Builder::Character(character_builder::Builder::new()),
        }
    }

    fn wants_text(&self) -> (wanted: bool)
        ensures
            wanted == wants_text(self@),
    {
        match self {
            Builder::Entry(builder) => builder.wants_text(),
            Builder::Character(builder) => builder.wants_text(),
        }
    }

    fn poll(&mut self, output: Output<'a>) -> (answer: Result<Poll<Record<'a>>, Error<'a>>)
        ensures
            (final(self)@, outcome_of(answer)) == step(old(self)@, output@),
    {
        match self {
            Builder::Entry(builder) => match builder.poll(output) {
                Ok(Poll::Pending) => Ok(Poll::Pending),
                Ok(Poll::Ready(entry)) => Ok(Poll::Ready(Record::Entry(entry))),
                Err(error) => Err(error),
            },
            Builder::Character(builder) => match builder.poll(output) {
                Ok(Poll::Pending) => Ok(Poll::Pending),
                Ok(Poll::Ready(character)) => Ok(Poll::Ready(Record::Character(character))),
                Err(error) => Err(error),
            },
        }
    }

    /// Takes the next event of the document.
    #[verifier::loop_isolation(false)]
    fn feed<'b>(&mut self, item: &'a Item<'b>) -> (answer: Result<Poll<Record<'a>>, Error<'a>>)
        ensures
            (final(self)@, outcome_of(answer)) == item_step(old(self)@, item@),
    {
        match item {
            Item::Open(name, attributes) => {
                match self.poll(Output::Open(name)) {
                    Ok(Poll::Pending) => {},
                    other => {
                        return other;
                    },
                }
                let ghost views = attribute_views(attributes@);
                let ghost opened = self@;
                let mut j: usize = 0;
                while j < attributes.len()
                    invariant
                        j <= attributes.len(),
                        views == attribute_views(attributes@),
                        with_attributes(opened, views, 0) == with_attributes(self@, views, j as int),
                    decreases attributes.len() - j,
                {
                    let attribute = &attributes[j];
                    assert(views[j as int] == (attribute.name@, attribute.value@));
                    match self.poll(Output::Attribute(attribute.name, attribute.value.as_str())) {
                        Ok(Poll::Pending) => {},
                        other => {
                            return other;
                        },
                    }
                    j = j + 1;
                }
                Ok(Poll::Pending)
            },
            Item::Text(text) => {
                if self.wants_text() {
                    self.poll(Output::Text(text.as_str()))
                } else {
                    Ok(Poll::Pending)
                }
            },
            Item::Close(_) => self.poll(Output::Close),
        }
    }
}

/// What the result of assembling a record stands for.
pub open spec fn record_read(record: Result<Record, LoadError>) -> Result<RecordView, Failure> {
    match record {
        Ok(record) => Ok(record@),
        Err(error) => Err(error@),
    }
}

/// The record that the events of an element give.
#[verifier::loop_isolation(false)]
pub fn assemble<'a, 'b>(element: Element, items: &'a Vec<Item<'b>>) -> (record: Result<
    Record<'a>,
    LoadError,
>)
    ensures
        record_read(record) == assembled(fresh(element), item_views(items@), 0),
{
    let ghost views = item_views(items@);
    let mut builder: Builder<'a> = Builder::new(element);
    let mut i: usize = 0;
    while i < items.len()
        invariant
            i <= items.len(),
            assembled(fresh(element), views, 0) == assembled(builder@, views, i as int),
        decreases items.len() - i,
    {
        assert(views[i as int] == items@[i as int]@);
        match builder.feed(&items[i]) {
            Ok(Poll::Pending) => {},
            Ok(Poll::Ready(record)) => {
                return if i + 1 == items.len() {
                    Ok(record)
                } else {
                    Err(LoadError::Unfinished)
                };
            },
            Err(error) => {
                return Err(LoadError::Rejected(kept(error)));
            },
        }
        i = i + 1;
    }
    Err(LoadError::Unfinished)
}

/// Hands a record to a store.
fn take(store: Store, record: &Record<'_>) -> (stored: Result<Store, LoadError>)
    requires
        store.wf(),
    ensures
        match stored {
            Ok(after) => after.wf() && taken(shelf(store), record@) == Ok::<Shelf, Failure>(
                shelf(after),
            ),
            Err(error) => taken(shelf(store), record@) == Err::<Shelf, Failure>(error@),
        },
{
    match record {
        Record::Entry(entry) => match store.insert(entry) {
            Ok(after) => Ok(after),
            Err(error) => Err(LoadError::Store(error)),
        },
        Record::Character(character) => match store.insert_character(character) {
            Ok(after) => Ok(after),
            Err(error) => Err(LoadError::Store(error)),
        },
    }
}

/// What the result of loading stands for.
pub open spec fn load_read(loaded: Result<Store, LoadError>) -> Result<Shelf, Failure> {
    match loaded {
        Ok(store) => Ok(shelf(store)),
        Err(error) => Err(error@),
    }
}

/// Loads the records of a document into a store, and hands the store
/// back; or tells what is wrong, and gives the store up.
#[verifier::loop_isolation(false)]
pub fn load(input: &[u8], entities: &[(&str, &str)], strict: bool, store: Store) -> (loaded: Result<
    Store,
    LoadError,
>)
    requires
        store.wf(),
    ensures
        load_read(loaded) == document_loaded(
            Document { bytes: input@, table: table_of(entities@), strict },
            shelf(store),
        ),
        loaded matches Ok(after) ==> after.wf(),
{
    let ghost doc = Document { bytes: input@, table: table_of(entities@), strict };
    let ghost first = shelf(store);
    let mut reader = Reader::new(input, entities, strict);
    proof {
        lemma_next_progress(doc, start());
    }
    match reader.next() {
        Ok(Some(_)) => {},
        Ok(None) => {
            return Err(LoadError::Xml(XmlError::Truncated));
        },
        Err(error) => {
            return Err(LoadError::Xml(error));
        },
    }
    let mut store = store;
    loop
        invariant
            store.wf(),
            reader.document() == doc,
            0 <= reader.cursor().at,
            document_loaded(doc, first) == loaded(doc, reader.cursor(), shelf(store)),
        decreases weight(doc, reader.cursor()),
    {
        let ghost c = reader.cursor();
        proof {
            lemma_next_progress(doc, c);
        }
        let item = match reader.next() {
            Ok(Some(item)) => item,
            Ok(None) => {
                return Err(LoadError::Xml(XmlError::Truncated));
            },
            Err(error) => {
                return Err(LoadError::Xml(error));
            },
        };
        match item {
            Item::Close(_) => {
                return match reader.next() {
                    Ok(None) => Ok(store),
                    Ok(Some(_)) => Err(LoadError::Xml(XmlError::Malformed)),
                    Err(error) => Err(LoadError::Xml(error)),
                };
            },
            Item::Text(_) => {},
            Item::Open(name, _) => {
                let ghost after = reader.cursor();
                let depth = reader.depth();
                proof {
                    lemma_element_progress(doc, after, depth as int);
                }
                let items = match read_element(&mut reader, depth) {
                    Ok(items) => items,
                    Err(error) => {
                        return Err(LoadError::Xml(error));
                    },
                };
                match element_of(name) {
                    None => {},
                    Some(kind) => {
                        let record = match assemble(kind, &items) {
                            Ok(record) => record,
                            Err(error) => {
                                return Err(error);
                            },
                        };
                        store = match take(store, &record) {
                            Ok(after) => after,
                            Err(error) => {
                                return Err(error);
                            },
                        };
                    },
                }
            },
        }
    }
}

/// The image of the dictionary that a document holds, or why there is
/// none.
pub open spec fn imaged(doc: Document) -> Result<Seq<u8>, Failure> {
    match document_loaded(
        doc,
        Shelf { tables: Tables::empty(), entries: Seq::empty(), characters: Seq::empty() },
    ) {
        Ok(shelf) => if shelf.tables.fits() {
            Ok(shelf.tables.image())
        } else {
            Err(Failure::Store(StoreError::TooLarge))
        },
        Err(failure) => Err(failure),
    }
}

/// Building is a function of what is read: documents with the same
/// bytes, read with the same entities and the same strictness, give the
/// same image, byte for byte, or fail alike.
pub proof fn lemma_same_bytes_same_image(a: Document, b: Document)
    requires
        a.bytes == b.bytes,
        a.table == b.table,
        a.strict == b.strict,
    ensures
        imaged(a) == imaged(b),
{
}

/// The records of the dictionary that a document holds; none where the
/// document is not loaded.
pub open spec fn records(doc: Document) -> Shelf {
    let none = Shelf { tables: Tables::empty(), entries: Seq::empty(), characters: Seq::empty() };
    match document_loaded(doc, none) {
        Ok(shelf) => shelf,
        Err(_) => none,
    }
}

/// What the result of building an image stands for.
pub open spec fn image_read(image: Result<Vec<u8>, LoadError>) -> Result<Seq<u8>, Failure> {
    match image {
        Ok(image) => Ok(image@),
        Err(error) => Err(error@),
    }
}

/// Builds the image of the dictionary that a document holds. The image
/// is a function of the bytes of the document, of the entities and of
/// the strictness alone; it opens, and what is read from it are the
/// records of the document, in their order and equal in every field.
pub fn build_image(input: &[u8], entities: &[(&str, &str)], strict: bool) -> (image: Result<
    Vec<u8>,
    LoadError,
>)
    ensures
        image_read(image) == imaged(Document { bytes: input@, table: table_of(entities@), strict }),
        image matches Ok(bytes) ==> ({
            let read = opened(bytes@);
            let all = records(Document { bytes: input@, table: table_of(entities@), strict });
            &&& read is Ok
            &&& read.unwrap().entries.len() == all.entries.len()
            &&& forall|i: int|
                0 <= i < all.entries.len() ==> #[trigger] read.unwrap().entry(i) == all.entries[i]
            &&& read.unwrap().characters.len() == all.characters.len()
            &&& forall|i: int|
                0 <= i < all.characters.len() ==> #[trigger] read.unwrap().character(i)
                    == all.characters[i]
        }),
{
    let store = Store::new();
    let store = match load(input, entities, strict, store) {
        Ok(store) => store,
        Err(error) => {
            return Err(error);
        },
    };
    proof {
        store.lemma_stands();
    }
    let ghost tables = store@;
    let ghost entries = store.entries();
    let ghost characters = store.characters();
    match store.finish() {
        Some(image) => {
            proof {
                lemma_store_round_trip(tables, entries, characters);
            }
            Ok(image)
        },
        None => Err(LoadError::Store(StoreError::TooLarge)),
    }
}

} // verus!
