//! The builder of an entry.
use vstd::prelude::*;

use super::entry::{
    contains_kanji, distinct_texts, has_kanji, kanji_views, Entry, EntryView, KanjiElement,
    KanjiElementView, ReadingElement, ReadingElementView, Sense, SenseView,
};
use super::kanji_element;
use super::reading_element;
use super::sense;
use crate::number::{digits_upto, parse_digits};
use crate::parser::{leaf_step, Error, Event, Leaf, LeafSlots, Output, Poll, Rejection};
use crate::text::same;

verus! {

/// The child that is open, and what it has taken in.
pub enum Opened {
    /// `ent_seq`: the sequence number.
    Sequence(LeafSlots),
    /// `k_ele`: a written form.
    Kanji(kanji_element::Slots),
    /// `r_ele`: a reading.
    Reading(reading_element::Slots),
    /// `sense`: a meaning; in the dictionary of names `trans`, what a
    /// name stands for.
    Sense(sense::Slots),
}

/// The child that a name opens, with nothing taken in yet, if it is one
/// of the element's.
pub open spec fn opened(name: Seq<char>) -> Option<Opened> {
    if name == "ent_seq"@ {
        Some(Opened::Sequence(LeafSlots { text: None, lang: None }))
    } else if name == "k_ele"@ {
        Some(
            Opened::Kanji(kanji_element::Slots { text: None, priority: Seq::empty(), child: None }),
        )
    } else if name == "r_ele"@ {
        Some(
            Opened::Reading(
                reading_element::Slots {
                    text: None,
                    no_kanji: false,
                    restrict: Seq::empty(),
                    child: None,
                },
            ),
        )
    } else if name == "sense"@ || name == "trans"@ {
        Some(
            Opened::Sense(
                sense::Slots {
                    glosses: Seq::empty(),
                    pos: crate::entities::PosSet::none(),
                    misc: Seq::empty(),
                    language: None,
                    child: None,
                },
            ),
        )
    } else {
        None
    }
}

/// What a [`Builder`] has taken in so far.
pub struct Slots {
    pub sequence: Option<u32>,
    pub reading_elements: Seq<ReadingElementView>,
    pub kanji_elements: Seq<KanjiElementView>,
    pub senses: Seq<SenseView>,
    pub child: Option<Opened>,
}

/// What a builder answers, as plain values.
pub type Outcome = Result<Poll<EntryView>, Rejection>;

/// The slots after the event of a child, and the answer to it. What a
/// child turns down is turned down. A child that closes hands in its
/// record: the sequence number, which must be a number of 32 bits in
/// digits and fills its slot once; a written form, which must differ from
/// those that are there; a reading; a sense.
pub open spec fn child_step(slots: Slots, child: Opened, event: Event) -> (Slots, Outcome) {
    let closed = Slots { child: None, ..slots };
    match child {
        Opened::Sequence(leaf) => match leaf_step(leaf, event) {
            (leaf, Ok(Poll::Pending)) => (
                Slots { child: Some(Opened::Sequence(leaf)), ..slots },
                Ok(Poll::Pending),
            ),
            (_, Ok(Poll::Ready(value))) => match digits_upto(value.text, u32::MAX as u64) {
                Some(n) => if slots.sequence is None {
                    (Slots { sequence: Some(n as u32), ..closed }, Ok(Poll::Pending))
                } else {
                    (closed, Err(Rejection::Unsupported(event)))
                },
                None => (closed, Err(Rejection::Invalid("ent_seq"@))),
            },
            (leaf, Err(rejection)) => (
                Slots { child: Some(Opened::Sequence(leaf)), ..slots },
                Err(rejection),
            ),
        },
        Opened::Kanji(kanji) => match kanji_element::step(kanji, event) {
            (kanji, Ok(Poll::Pending)) => (
                Slots { child: Some(Opened::Kanji(kanji)), ..slots },
                Ok(Poll::Pending),
            ),
            (_, Ok(Poll::Ready(element))) => if has_kanji(slots.kanji_elements, element.text) {
                (closed, Err(Rejection::Invalid("keb"@)))
            } else {
                (
                    Slots { kanji_elements: slots.kanji_elements.push(element), ..closed },
                    Ok(Poll::Pending),
                )
            },
            (kanji, Err(rejection)) => (
                Slots { child: Some(Opened::Kanji(kanji)), ..slots },
                Err(rejection),
            ),
        },
        Opened::Reading(reading) => match reading_element::step(reading, event) {
            (reading, Ok(Poll::Pending)) => (
                Slots { child: Some(Opened::Reading(reading)), ..slots },
                Ok(Poll::Pending),
            ),
            (_, Ok(Poll::Ready(element))) => (
                Slots { reading_elements: slots.reading_elements.push(element), ..closed },
                Ok(Poll::Pending),
            ),
            (reading, Err(rejection)) => (
                Slots { child: Some(Opened::Reading(reading)), ..slots },
                Err(rejection),
            ),
        },
        Opened::Sense(sense) => match sense::step(sense, event) {
            (sense, Ok(Poll::Pending)) => (
                Slots { child: Some(Opened::Sense(sense)), ..slots },
                Ok(Poll::Pending),
            ),
            (_, Ok(Poll::Ready(element))) => (
                Slots { senses: slots.senses.push(element), ..closed },
                Ok(Poll::Pending),
            ),
            (sense, Err(rejection)) => (
                Slots { child: Some(Opened::Sense(sense)), ..slots },
                Err(rejection),
            ),
        },
    }
}

/// The slots after an event, and the answer to it. While a child is open,
/// the event is the child's. Otherwise a child may open, or the element
/// closes, which gives the entry if it has its sequence number, a reading
/// and a sense. Anything else is turned down.
pub open spec fn step(slots: Slots, event: Event) -> (Slots, Outcome) {
    match slots.child {
        Some(child) => child_step(slots, child, event),
        None => match event {
            Event::Open(name) => match opened(name) {
                Some(child) => (Slots { child: Some(child), ..slots }, Ok(Poll::Pending)),
                None => (slots, Err(Rejection::Unsupported(event))),
            },
            Event::Close => match slots.sequence {
                None => (slots, Err(Rejection::Missing("ent_seq"@))),
                Some(sequence_number) => if slots.reading_elements.len() == 0 {
                    (slots, Err(Rejection::Missing("r_ele"@)))
                } else if slots.senses.len() == 0 {
                    (slots, Err(Rejection::Missing("sense"@)))
                } else {
                    (
                        Slots {
                            sequence: None,
                            reading_elements: Seq::empty(),
                            kanji_elements: Seq::empty(),
                            senses: Seq::empty(),
                            child: None,
                        },
                        Ok(
                            Poll::Ready(
                                EntryView {
                                    sequence_number,
                                    reading_elements: slots.reading_elements,
                                    kanji_elements: slots.kanji_elements,
                                    senses: slots.senses,
                                },
                            ),
                        ),
                    )
                },
            },
            _ => (slots, Err(Rejection::Unsupported(event))),
        },
    }
}

/// Whether a builder wants the text at this point: inside the sequence
/// number, and inside a written form, a reading or a sense where that has
/// a child open.
pub open spec fn wanted(slots: Slots) -> bool {
    match slots.child {
        Some(Opened::Sequence(_)) => true,
        Some(Opened::Kanji(kanji)) => kanji.child is Some,
        Some(Opened::Reading(reading)) => reading.child is Some,
        Some(Opened::Sense(sense)) => sense.child is Some,
        None => false,
    }
}

/// Every entry that a builder gives has a reading and a sense.
pub proof fn lemma_built_entry_is_well_formed(slots: Slots, event: Event)
    ensures
        step(slots, event).1 matches Ok(Poll::Ready(entry)) ==> entry.well_formed(),
{
}

/// A builder whose written forms differ keeps them so, and gives an
/// entry whose written forms differ.
pub proof fn lemma_built_kanji_are_distinct(slots: Slots, event: Event)
    requires
        distinct_texts(slots.kanji_elements),
    ensures
        distinct_texts(step(slots, event).0.kanji_elements),
        step(slots, event).1 matches Ok(Poll::Ready(entry)) ==> entry.distinct_kanji(),
{
    match slots.child {
        Some(Opened::Kanji(kanji)) => {
            match kanji_element::step(kanji, event) {
                (_, Ok(Poll::Ready(element))) => {
                    if !has_kanji(slots.kanji_elements, element.text) {
                        let grown = slots.kanji_elements.push(element);
                        assert forall|i: int, j: int| 0 <= i < j < grown.len() implies grown[i].text
                            != grown[j].text by {
                            if j == grown.len() - 1 {
                                assert(slots.kanji_elements[i].text != element.text);
                            }
                        }
                    }
                },
                _ => {},
            }
        },
        _ => {},
    }
}

/// What an answer stands for.
pub open spec fn outcome_of(answer: Result<Poll<Entry>, Error>) -> Outcome {
    match answer {
        Ok(Poll::Pending) => Ok(Poll::Pending),
        Ok(Poll::Ready(entry)) => Ok(Poll::Ready(entry@)),
        Err(error) => Err(error@),
    }
}

/// The child that is open.
#[derive(Debug)]
enum Child<'a> {
    Sequence(Leaf<'a>),
    Kanji(kanji_element::Builder<'a>),
    Reading(reading_element::Builder<'a>),
    Sense(sense::Builder<'a>),
}

impl<'a> View for Child<'a> {
    type V = Opened;

    closed spec fn view(&self) -> Opened {
        match self {
            Child::Sequence(leaf) => Opened::Sequence(leaf@),
            Child::Kanji(kanji) => Opened::Kanji(kanji@),
            Child::Reading(reading) => Opened::Reading(reading@),
            Child::Sense(sense) => Opened::Sense(sense@),
        }
    }
}

/// Assembles an [`Entry`] from the events of its element.
#[derive(Debug)]
pub struct Builder<'a> {
    sequence: Option<u32>,
    reading_elements: Vec<ReadingElement<'a>>,
    kanji_elements: Vec<KanjiElement<'a>>,
    senses: Vec<Sense<'a>>,
    child: Option<Child<'a>>,
}

impl<'a> View for Builder<'a> {
    type V = Slots;

    closed spec fn view(&self) -> Slots {
        Slots {
            sequence: self.sequence,
            reading_elements: self.reading_elements@.map_values(|r: ReadingElement<'a>| r@),
            kanji_elements: kanji_views(self.kanji_elements@),
            senses: self.senses@.map_values(|s: Sense<'a>| s@),
            child: match self.child {
                Some(child) => Some(child@),
                None => None,
            },
        }
    }
}

impl<'a> Builder<'a> {
    /// A builder with empty slots.
    pub fn new() -> (builder: Builder<'a>)
        ensures
            builder@ == (Slots {
                sequence: None,
                reading_elements: Seq::empty(),
                kanji_elements: Seq::empty(),
                senses: Seq::empty(),
                child: None,
            }),
    {
        let builder = Builder {
            sequence: None,
            reading_elements: Vec::new(),
            kanji_elements: Vec::new(),
            senses: Vec::new(),
            child: None,
        };
        assert(builder@.reading_elements =~= Seq::<ReadingElementView>::empty());
        assert(builder@.kanji_elements =~= Seq::<KanjiElementView>::empty());
        assert(builder@.senses =~= Seq::<SenseView>::empty());
        builder
    }

    /// Whether text at this point is to be handed on: where the child that
    /// is open wants it.
    pub fn wants_text(&self) -> (yes: bool)
        ensures
            yes == wanted(self@),
    {
        match &self.child {
            Some(Child::Sequence(leaf)) => leaf.wants_text(),
            Some(Child::Kanji(kanji)) => kanji.wants_text(),
            Some(Child::Reading(reading)) => reading.wants_text(),
            Some(Child::Sense(sense)) => sense.wants_text(),
            None => false,
        }
    }

    fn poll_child(&mut self, child: Child<'a>, output: Output<'a>) -> (answer: Result<
        Poll<Entry<'a>>,
        Error<'a>,
    >)
        requires
            old(self).child is None,
        ensures
            (final(self)@, outcome_of(answer)) == child_step(
                Slots { child: Some(child@), ..old(self)@ },
                child@,
                output@,
            ),
    {
        match child {
            Child::Sequence(mut leaf) => match leaf.poll(output) {
                Ok(Poll::Pending) => {
                    self.child = Some(Child::Sequence(leaf));
                    Ok(Poll::Pending)
                },
                Ok(Poll::Ready(value)) => match parse_digits(value.text, u32::MAX as u64) {
                    Some(n) => {
                        if self.sequence.is_none() {
                            self.sequence = Some(n as u32);
                            Ok(Poll::Pending)
                        } else {
                            Err(Error::Unsupported(output))
                        }
                    },
                    None => Err(Error::Invalid("ent_seq")),
                },
                Err(error) => {
                    self.child = Some(Child::Sequence(leaf));
                    Err(error)
                },
            },
            Child::Kanji(mut kanji) => match kanji.poll(output) {
                Ok(Poll::Pending) => {
                    self.child = Some(Child::Kanji(kanji));
                    Ok(Poll::Pending)
                },
                Ok(Poll::Ready(element)) => {
                    if contains_kanji(&self.kanji_elements, element.text) {
                        Err(Error::Invalid("keb"))
                    } else {
                        self.kanji_elements.push(element);
                        assert(self@.kanji_elements =~= old(self)@.kanji_elements.push(element@));
                        Ok(Poll::Pending)
                    }
                },
                Err(error) => {
                    self.child = Some(Child::Kanji(kanji));
                    Err(error)
                },
            },
            Child::Reading(mut reading) => match reading.poll(output) {
                Ok(Poll::Pending) => {
                    self.child = Some(Child::Reading(reading));
                    Ok(Poll::Pending)
                },
                Ok(Poll::Ready(element)) => {
                    self.reading_elements.push(element);
                    assert(self@.reading_elements =~= old(self)@.reading_elements.push(element@));
                    Ok(Poll::Pending)
                },
                Err(error) => {
                    self.child = Some(Child::Reading(reading));
                    Err(error)
                },
            },
            Child::Sense(mut sense) => match sense.poll(output) {
                Ok(Poll::Pending) => {
                    self.child = Some(Child::Sense(sense));
                    Ok(Poll::Pending)
                },
                Ok(Poll::Ready(element)) => {
                    self.senses.push(element);
                    assert(self@.senses =~= old(self)@.senses.push(element@));
                    Ok(Poll::Pending)
                },
                Err(error) => {
                    self.child = Some(Child::Sense(sense));
                    Err(error)
                },
            },
        }
    }

    /// Takes the next event of the element.
    pub fn poll(&mut self, output: Output<'a>) -> (answer: Result<Poll<Entry<'a>>, Error<'a>>)
        ensures
            (final(self)@, outcome_of(answer)) == step(old(self)@, output@),
            answer matches Ok(Poll::Ready(entry)) ==> entry@.well_formed(),
    {
        let mut open: Option<Child<'a>> = None;
        core::mem::swap(&mut open, &mut self.child);
        match open {
            Some(child) => self.poll_child(child, output),
            None => match output {
                Output::Open(name) => {
                    if same(name, "ent_seq") {
                        self.child = Some(Child::Sequence(Leaf::new()));
                    } else if same(name, "k_ele") {
                        self.child = Some(Child::Kanji(kanji_element::Builder::new()));
                    } else if same(name, "r_ele") {
                        self.child = Some(Child::Reading(reading_element::Builder::new()));
                    } else if same(name, "sense") || same(name, "trans") {
                        self.child = Some(Child::Sense(sense::Builder::new()));
                    } else {
                        return Err(Error::Unsupported(output));
                    }
                    Ok(Poll::Pending)
                },
                Output::Close => match self.sequence {
                    None => Err(Error::Missing("ent_seq")),
                    Some(sequence_number) => {
                        if self.reading_elements.len() == 0 {
                            Err(Error::Missing("r_ele"))
                        } else if self.senses.len() == 0 {
                            Err(Error::Missing("sense"))
                        } else {
                            let mut reading_elements: Vec<ReadingElement<'a>> = Vec::new();
                            let mut kanji_elements: Vec<KanjiElement<'a>> = Vec::new();
                            let mut senses: Vec<Sense<'a>> = Vec::new();
                            core::mem::swap(&mut reading_elements, &mut self.reading_elements);
                            core::mem::swap(&mut kanji_elements, &mut self.kanji_elements);
                            core::mem::swap(&mut senses, &mut self.senses);
                            self.sequence = None;
                            assert(self@.reading_elements =~= Seq::<ReadingElementView>::empty());
                            assert(self@.kanji_elements =~= Seq::<KanjiElementView>::empty());
                            assert(self@.senses =~= Seq::<SenseView>::empty());
                            Ok(
                                Poll::Ready(
                                    Entry {
                                        sequence_number,
                                        reading_elements,
                                        kanji_elements,
                                        senses,
                                    },
                                ),
                            )
                        }
                    },
                },
                _ => Err(Error::Unsupported(output)),
            },
        }
    }
}

} // verus!
