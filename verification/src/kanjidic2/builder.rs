//! The builder of a character.
use vstd::prelude::*;
use vstd::string::*;

use super::meaning;
use super::character::{
    Character, CharacterView, Meaning, MeaningView, ReadingMeaning, ReadingMeaningView,
};
use super::reading::{self, Reading, ReadingView};

use crate::number::{digits_upto, parse_digits};
use crate::parser::{
    Error, Event, Leaf, leaf_step, LeafSlots, Output, Poll, Rejection, Skip, skip_step, TextView,
};
use crate::text::same;

verus! {

/// The children of the element of a character that hold one value each.
#[derive(Clone, Copy, Debug, PartialEq, Eq, Structural, Hash)]
pub enum Field {
    /// `literal`: the character itself.
    Literal,
    /// `rad_value`, in `radical`: the number of a radical.
    RadicalValue,
    /// `stroke_count`, in `misc`: the number of strokes.
    StrokeCount,
}

/// The elements in which a child that is passed over may lie.
#[derive(Clone, Copy, Debug, PartialEq, Eq, Structural, Hash)]
pub enum Back {
    /// `character`.
    Top,
    /// `misc`.
    Misc,
    /// `reading_meaning`.
    ReadingMeaning,
}

/// Where in the element of a character a builder stands.
pub enum Place {
    /// In `character` itself.
    Top,
    /// In `radical`.
    Radical,
    /// In `misc`.
    Misc,
    /// In `reading_meaning`.
    ReadingMeaning,
    /// In `rmgroup`, in `reading_meaning`.
    Group,
    /// In a child that holds one value, with what it has taken in.
    Leaf(Field, LeafSlots),
    /// In `reading`, in `rmgroup`.
    Reading(reading::Slots),
    /// In `meaning`, in `rmgroup`.
    Meaning(meaning::Slots),
    /// In a child that is passed over, at a depth, and the element in
    /// which the child lies.
    Skipping(usize, Back),
}

/// What a [`Builder`] has taken in so far.
pub struct Slots {
    pub literal: Option<char>,
    pub radicals: Seq<u32>,
    pub stroke_count: Option<u8>,
    pub readings: Seq<ReadingView>,
    pub meanings: Seq<MeaningView>,
    pub place: Place,
}

/// What a builder answers, as plain values.
pub type Outcome = Result<Poll<CharacterView>, Rejection>;

/// The slots of a builder that has taken nothing in.
pub open spec fn empty() -> Slots {
    Slots {
        literal: None,
        radicals: Seq::empty(),
        stroke_count: None,
        readings: Seq::empty(),
        meanings: Seq::empty(),
        place: Place::Top,
    }
}

/// The element in which a child that holds one value lies.
pub open spec fn around(field: Field) -> Place {
    match field {
        Field::Literal => Place::Top,
        Field::RadicalValue => Place::Radical,
        Field::StrokeCount => Place::Misc,
    }
}

/// The place that a child which was passed over leaves for.
pub open spec fn back_to(back: Back) -> Place {
    match back {
        Back::Top => Place::Top,
        Back::Misc => Place::Misc,
        Back::ReadingMeaning => Place::ReadingMeaning,
    }
}

/// A child that holds one value, with nothing taken in yet.
pub open spec fn leaf(field: Field) -> Place {
    Place::Leaf(field, LeafSlots { text: None, lang: None })
}

/// The place that the child of a name opens, where the builder stands in
/// an element that has children. `character`, `misc` and
/// `reading_meaning` pass over the children that they do not keep;
/// `radical` and `rmgroup` have no others.
pub open spec fn opened(place: Place, name: Seq<char>) -> Option<Place> {
    match place {
        Place::Top => Some(
            if name == "literal"@ {
                leaf(Field::Literal)
            } else if name == "radical"@ {
                Place::Radical
            } else if name == "misc"@ {
                Place::Misc
            } else if name == "reading_meaning"@ {
                Place::ReadingMeaning
            } else {
                Place::Skipping(0, Back::Top)
            },
        ),
        Place::Radical => if name == "rad_value"@ {
            Some(leaf(Field::RadicalValue))
        } else {
            None
        },
        Place::Misc => Some(
            if name == "stroke_count"@ {
                leaf(Field::StrokeCount)
            } else {
                Place::Skipping(0, Back::Misc)
            },
        ),
        Place::ReadingMeaning => Some(
            if name == "rmgroup"@ {
                Place::Group
            } else {
                Place::Skipping(0, Back::ReadingMeaning)
            },
        ),
        Place::Group => if name == "reading"@ {
            Some(Place::Reading(reading::Slots { text: None, ty: None }))
        } else if name == "meaning"@ {
            Some(Place::Meaning(meaning::Slots { text: None, lang: None }))
        } else {
            None
        },
        _ => None,
    }
}

/// The place that an element inside `character` closes to.
pub open spec fn closed(place: Place) -> Place {
    match place {
        Place::Group => Place::ReadingMeaning,
        _ => Place::Top,
    }
}

/// The slots after a child has closed with `value`. The literal must be
/// one character, and fills its slot once; the number of a radical must
/// be a number of 32 bits in digits, and is added; the number of strokes
/// must be a number of 8 bits in digits, and the first one counts.
pub open spec fn taken(slots: Slots, field: Field, value: TextView, event: Event) -> (
    Slots,
    Outcome,
) {
    let left = Slots { place: around(field), ..slots };
    match field {
        Field::Literal => if value.text.len() != 1 {
            (left, Err(Rejection::Invalid("literal"@)))
        } else if slots.literal is Some {
            (left, Err(Rejection::Unsupported(event)))
        } else {
            (Slots { literal: Some(value.text[0]), ..left }, Ok(Poll::Pending))
        },
        Field::RadicalValue => match digits_upto(value.text, u32::MAX as u64) {
            Some(n) => (Slots { radicals: slots.radicals.push(n as u32), ..left }, Ok(Poll::Pending)),
            None => (left, Err(Rejection::Invalid("rad_value"@))),
        },
        Field::StrokeCount => match digits_upto(value.text, u8::MAX as u64) {
            Some(n) => (
                Slots {
                    stroke_count: if slots.stroke_count is None {
                        Some(n as u8)
                    } else {
                        slots.stroke_count
                    },
                    ..left
                },
                Ok(Poll::Pending),
            ),
            None => (left, Err(Rejection::Invalid("stroke_count"@))),
        },
    }
}

/// The slots after `character` has closed, and the answer: the character,
/// if it has its literal and the number of its strokes.
pub open spec fn finished(slots: Slots) -> (Slots, Outcome) {
    match (slots.literal, slots.stroke_count) {
        (None, _) => (slots, Err(Rejection::Missing("literal"@))),
        (Some(_), None) => (slots, Err(Rejection::Missing("stroke_count"@))),
        (Some(literal), Some(stroke_count)) => (
            empty(),
            Ok(
                Poll::Ready(
                    CharacterView {
                        literal,
                        radicals: slots.radicals,
                        stroke_count,
                        reading_meaning: ReadingMeaningView {
                            readings: slots.readings,
                            meanings: slots.meanings,
                        },
                    },
                ),
            ),
        ),
    }
}

/// The slots after an event in an element that has children, and the
/// answer to it. A child may open; an attribute is passed over; the
/// element closes; text is turned down.
pub open spec fn walked(slots: Slots, event: Event) -> (Slots, Outcome) {
    match event {
        Event::Open(name) => match opened(slots.place, name) {
            Some(place) => (Slots { place, ..slots }, Ok(Poll::Pending)),
            None => (slots, Err(Rejection::Unsupported(event))),
        },
        Event::Attribute(_, _) => (slots, Ok(Poll::Pending)),
        Event::Text(_) => (slots, Err(Rejection::Unsupported(event))),
        Event::Close => if slots.place is Top {
            finished(slots)
        } else {
            (Slots { place: closed(slots.place), ..slots }, Ok(Poll::Pending))
        },
    }
}

/// The slots after an event, and the answer to it. Inside a child that
/// the builder keeps or passes over the event is the child's, and what
/// the child turns down is turned down; a reading or a meaning that
/// closes is added.
pub open spec fn step(slots: Slots, event: Event) -> (Slots, Outcome) {
    match slots.place {
        Place::Leaf(field, leaf) => match leaf_step(leaf, event) {
            (leaf, Ok(Poll::Pending)) => (
                Slots { place: Place::Leaf(field, leaf), ..slots },
                Ok(Poll::Pending),
            ),
            (_, Ok(Poll::Ready(value))) => taken(slots, field, value, event),
            (leaf, Err(rejection)) => (
                Slots { place: Place::Leaf(field, leaf), ..slots },
                Err(rejection),
            ),
        },
        Place::Reading(reading) => match reading::step(reading, event) {
            (reading, Ok(Poll::Pending)) => (
                Slots { place: Place::Reading(reading), ..slots },
                Ok(Poll::Pending),
            ),
            (_, Ok(Poll::Ready(value))) => (
                Slots { place: Place::Group, readings: slots.readings.push(value), ..slots },
                Ok(Poll::Pending),
            ),
            (reading, Err(rejection)) => (
                Slots { place: Place::Reading(reading), ..slots },
                Err(rejection),
            ),
        },
        Place::Meaning(meaning) => match meaning::step(meaning, event) {
            (meaning, Ok(Poll::Pending)) => (
                Slots { place: Place::Meaning(meaning), ..slots },
                Ok(Poll::Pending),
            ),
            (_, Ok(Poll::Ready(value))) => (
                Slots { place: Place::Group, meanings: slots.meanings.push(value), ..slots },
                Ok(Poll::Pending),
            ),
            (meaning, Err(rejection)) => (
                Slots { place: Place::Meaning(meaning), ..slots },
                Err(rejection),
            ),
        },
        Place::Skipping(depth, back) => match skip_step(depth, event) {
            (depth, Ok(Poll::Pending)) => (
                Slots { place: Place::Skipping(depth, back), ..slots },
                Ok(Poll::Pending),
            ),
            (_, Ok(Poll::Ready(_))) => (Slots { place: back_to(back), ..slots }, Ok(Poll::Pending)),
            (depth, Err(rejection)) => (
                Slots { place: Place::Skipping(depth, back), ..slots },
                Err(rejection),
            ),
        },
        _ => walked(slots, event),
    }
}

/// What an answer stands for.
pub open spec fn outcome_of(answer: Result<Poll<Character>, Error>) -> Outcome {
    match answer {
        Ok(Poll::Pending) => Ok(Poll::Pending),
        Ok(Poll::Ready(character)) => Ok(Poll::Ready(character@)),
        Err(error) => Err(error@),
    }
}

/// Where a builder stands, with the child that is open.
#[derive(Debug)]
enum At<'a> {
    Top,
    Radical,
    Misc,
    ReadingMeaning,
    Group,
    Leaf(Field, Leaf<'a>),
    Reading(reading::Builder<'a>),
    Meaning(meaning::Builder<'a>),
    Skipping(Skip, Back),
}

impl<'a> View for At<'a> {
    type V = Place;

    closed spec fn view(&self) -> Place {
        match self {
            At::Top => Place::Top,
            At::Radical => Place::Radical,
            At::Misc => Place::Misc,
            At::ReadingMeaning => Place::ReadingMeaning,
            At::Group => Place::Group,
            At::Leaf(field, leaf) => Place::Leaf(*field, leaf@),
            At::Reading(reading) => Place::Reading(reading@),
            At::Meaning(meaning) => Place::Meaning(meaning@),
            At::Skipping(skip, back) => Place::Skipping(skip@, *back),
        }
    }
}

/// Assembles a [`Character`] from the events of its element.
#[derive(Debug)]
pub struct Builder<'a> {
    literal: Option<char>,
    radicals: Vec<u32>,
    stroke_count: Option<u8>,
    readings: Vec<Reading<'a>>,
    meanings: Vec<Meaning<'a>>,
    place: At<'a>,
}

impl<'a> View for Builder<'a> {
    type V = Slots;

    closed spec fn view(&self) -> Slots {
        Slots {
            literal: self.literal,
            radicals: self.radicals@,
            stroke_count: self.stroke_count,
            readings: self.readings@.map_values(|r: Reading<'a>| r@),
            meanings: self.meanings@.map_values(|m: Meaning<'a>| m@),
            place: self.place@,
        }
    }
}

impl<'a> Builder<'a> {
    /// A builder with empty slots.
    pub fn new() -> (builder: Builder<'a>)
        ensures
            builder@ == empty(),
    {
        let builder = Builder {
            literal: None,
            radicals: Vec::new(),
            stroke_count: None,
            readings: Vec::new(),
            meanings: Vec::new(),
            place: At::Top,
        };
        assert(builder@.readings =~= Seq::<ReadingView>::empty());
        assert(builder@.meanings =~= Seq::<MeaningView>::empty());
        builder
    }

    /// Whether text at this point is to be handed on: only inside a child
    /// that holds a value.
    pub fn wants_text(&self) -> (wanted: bool)
        ensures
            wanted == (self@.place is Leaf || self@.place is Reading || self@.place is Meaning),
    {
        match self.place {
            At::Leaf(_, _) | At::Reading(_) | At::Meaning(_) => true,
            _ => false,
        }
    }

    /// Takes the value of a child that has closed.
    fn take(&mut self, field: Field, value: crate::parser::Text<'a>, output: Output<'a>) -> (answer:
        Result<Poll<Character<'a>>, Error<'a>>)
        ensures
            (final(self)@, outcome_of(answer)) == taken(old(self)@, field, value@, output@),
    {
        match field {
            Field::Literal => {
                self.place = At::Top;
                if value.text.unicode_len() != 1 {
                    Err(Error::Invalid("literal"))
                } else if self.literal.is_some() {
                    Err(Error::Unsupported(output))
                } else {
                    self.literal = Some(value.text.get_char(0));
                    Ok(Poll::Pending)
                }
            },
            Field::RadicalValue => {
                self.place = At::Radical;
                match parse_digits(value.text, u32::MAX as u64) {
                    Some(n) => {
                        self.radicals.push(n as u32);
                        Ok(Poll::Pending)
                    },
                    None => Err(Error::Invalid("rad_value")),
                }
            },
            Field::StrokeCount => {
                self.place = At::Misc;
                match parse_digits(value.text, u8::MAX as u64) {
                    Some(n) => {
                        if self.stroke_count.is_none() {
                            self.stroke_count = Some(n as u8);
                        }
                        Ok(Poll::Pending)
                    },
                    None => Err(Error::Invalid("stroke_count")),
                }
            },
        }
    }

    /// Gives the character as `character` closes.
    fn finish(&mut self) -> (answer: Result<Poll<Character<'a>>, Error<'a>>)
        requires
            old(self)@.place is Top,
        ensures
            (final(self)@, outcome_of(answer)) == finished(old(self)@),
    {
        match (self.literal, self.stroke_count) {
            (None, _) => Err(Error::Missing("literal")),
            (Some(_), None) => Err(Error::Missing("stroke_count")),
            (Some(literal), Some(stroke_count)) => {
                let mut radicals: Vec<u32> = Vec::new();
                let mut readings: Vec<Reading<'a>> = Vec::new();
                let mut meanings: Vec<Meaning<'a>> = Vec::new();
                core::mem::swap(&mut radicals, &mut self.radicals);
                core::mem::swap(&mut readings, &mut self.readings);
                core::mem::swap(&mut meanings, &mut self.meanings);
                self.literal = None;
                self.stroke_count = None;
                assert(self@.readings =~= Seq::<ReadingView>::empty());
                assert(self@.meanings =~= Seq::<MeaningView>::empty());
                Ok(
                    Poll::Ready(
                        Character {
                            literal,
                            radicals,
                            stroke_count,
                            reading_meaning: ReadingMeaning { readings, meanings },
                        },
                    ),
                )
            },
        }
    }

    /// The place that the child of a name opens.
    fn open(place: &At<'a>, name: &str) -> (child: Option<At<'a>>)
        requires
            !(place@ is Leaf || place@ is Reading || place@ is Meaning || place@ is Skipping),
        ensures
            match child {
                Some(child) => opened(place@, name@) == Some(child@),
                None => opened(place@, name@) is None,
            },
    {
        match place {
            At::Top => Some(
                if same(name, "literal") {
                    At::Leaf(Field::Literal, Leaf::new())
                } else if same(name, "radical") {
                    At::Radical
                } else if same(name, "misc") {
                    At::Misc
                } else if same(name, "reading_meaning") {
                    At::ReadingMeaning
                } else {
                    At::Skipping(Skip::new(), Back::Top)
                },
            ),
            At::Radical => if same(name, "rad_value") {
                Some(At::Leaf(Field::RadicalValue, Leaf::new()))
            } else {
                None
            },
            At::Misc => Some(
                if same(name, "stroke_count") {
                    At::Leaf(Field::StrokeCount, Leaf::new())
                } else {
                    At::Skipping(Skip::new(), Back::Misc)
                },
            ),
            At::ReadingMeaning => Some(
                if same(name, "rmgroup") {
                    At::Group
                } else {
                    At::Skipping(Skip::new(), Back::ReadingMeaning)
                },
            ),
            At::Group => if same(name, "reading") {
                Some(At::Reading(reading::Builder::new()))
            } else if same(name, "meaning") {
                Some(At::Meaning(meaning::Builder::new()))
            } else {
                None
            },
            _ => None,
        }
    }

    /// Takes an event in an element that has children.
    fn walk(&mut self, output: Output<'a>) -> (answer: Result<Poll<Character<'a>>, Error<'a>>)
        requires
            !(old(self)@.place is Leaf || old(self)@.place is Reading || old(self)@.place is Meaning
                || old(self)@.place is Skipping),
        ensures
            (final(self)@, outcome_of(answer)) == walked(old(self)@, output@),
    {
        match output {
            Output::Open(name) => match Builder::open(&self.place, name) {
                Some(place) => {
                    self.place = place;
                    Ok(Poll::Pending)
                },
                None => Err(Error::Unsupported(output)),
            },
            Output::Attribute(_, _) => Ok(Poll::Pending),
            Output::Text(_) => Err(Error::Unsupported(output)),
            Output::Close => match self.place {
                At::Top => self.finish(),
                At::Group => {
                    self.place = At::ReadingMeaning;
                    Ok(Poll::Pending)
                },
                _ => {
                    self.place = At::Top;
                    Ok(Poll::Pending)
                },
            },
        }
    }

    /// Takes the next event of the element.
    pub fn poll(&mut self, output: Output<'a>) -> (answer: Result<Poll<Character<'a>>, Error<'a>>)
        ensures
            (final(self)@, outcome_of(answer)) == step(old(self)@, output@),
    {
        let mut place: At<'a> = At::Top;
        core::mem::swap(&mut place, &mut self.place);
        match place {
            At::Leaf(field, mut leaf) => match leaf.poll(output) {
                Ok(Poll::Pending) => {
                    self.place = At::Leaf(field, leaf);
                    Ok(Poll::Pending)
                },
                Ok(Poll::Ready(value)) => self.take(field, value, output),
                Err(error) => {
                    self.place = At::Leaf(field, leaf);
                    Err(error)
                },
            },
            At::Reading(mut reading) => match reading.poll(output) {
                Ok(Poll::Pending) => {
                    self.place = At::Reading(reading);
                    Ok(Poll::Pending)
                },
                Ok(Poll::Ready(value)) => {
                    self.place = At::Group;
                    self.readings.push(value);
                    assert(self@.readings =~= old(self)@.readings.push(value@));
                    Ok(Poll::Pending)
                },
                Err(error) => {
                    self.place = At::Reading(reading);
                    Err(error)
                },
            },
            At::Meaning(mut meaning) => match meaning.poll(output) {
                Ok(Poll::Pending) => {
                    self.place = At::Meaning(meaning);
                    Ok(Poll::Pending)
                },
                Ok(Poll::Ready(value)) => {
                    self.place = At::Group;
                    self.meanings.push(value);
                    assert(self@.meanings =~= old(self)@.meanings.push(value@));
                    Ok(Poll::Pending)
                },
                Err(error) => {
                    self.place = At::Meaning(meaning);
                    Err(error)
                },
            },
            At::Skipping(mut skip, back) => match skip.poll(output) {
                Ok(Poll::Pending) => {
                    self.place = At::Skipping(skip, back);
                    Ok(Poll::Pending)
                },
                Ok(Poll::Ready(_)) => {
                    self.place = match back {
                        Back::Top => At::Top,
                        Back::Misc => At::Misc,
                        Back::ReadingMeaning => At::ReadingMeaning,
                    };
                    Ok(Poll::Pending)
                },
                Err(error) => {
                    self.place = At::Skipping(skip, back);
                    Err(error)
                },
            },
            place => {
                self.place = place;
                self.walk(output)
            },
        }
    }
}

} // verus!
