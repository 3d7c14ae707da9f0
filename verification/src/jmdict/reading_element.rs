//! The builder of a reading.
use vstd::prelude::*;

use super::entry::{spellings, ReadingElement, ReadingElementView};
use crate::parser::{
    leaf_step, Error, Event, Leaf, LeafSlots, Output, Poll, Rejection, TextView,
};
use crate::text::same;

verus! {

/// The children of the element of a reading.
#[derive(Clone, Copy, Debug, PartialEq, Eq, Structural, Hash)]
pub enum Field {
    /// `reb`: the reading itself.
    Text,
    /// `re_nokanji`: the reading is no true reading of the written forms.
    NoKanji,
    /// `re_restr`: a written form that the reading is limited to.
    Restrict,
    /// `re_pri` and `re_inf`: a priority tag or a note, which are not kept.
    Other,
}

/// The child that a name opens, if it is one of the element's.
pub open spec fn field_named(name: Seq<char>) -> Option<Field> {
    if name == "reb"@ {
        Some(Field::Text)
    } else if name == "re_nokanji"@ {
        Some(Field::NoKanji)
    } else if name == "re_restr"@ {
        Some(Field::Restrict)
    } else if name == "re_pri"@ || name == "re_inf"@ {
        Some(Field::Other)
    } else {
        None
    }
}

/// What a [`Builder`] has taken in so far.
pub struct Slots {
    pub text: Option<Seq<char>>,
    pub no_kanji: bool,
    pub restrict: Seq<Seq<char>>,
    /// The child that is open, and what it has taken in.
    pub child: Option<(Field, LeafSlots)>,
}

/// What a builder answers, as plain values.
pub type Outcome = Result<Poll<ReadingElementView>, Rejection>;

/// The slots after a child has closed with `value`. The reading fills its
/// slot once; the mark sets the flag; a written form is added to the list;
/// anything else is dropped.
pub open spec fn taken(slots: Slots, field: Field, value: TextView, event: Event) -> (
    Slots,
    Outcome,
) {
    let closed = Slots { child: None, ..slots };
    match field {
        Field::Text => if slots.text is None {
            (Slots { text: Some(value.text), ..closed }, Ok(Poll::Pending))
        } else {
            (closed, Err(Rejection::Unsupported(event)))
        },
        Field::NoKanji => (Slots { no_kanji: true, ..closed }, Ok(Poll::Pending)),
        Field::Restrict => (
            Slots { restrict: slots.restrict.push(value.text), ..closed },
            Ok(Poll::Pending),
        ),
        Field::Other => (closed, Ok(Poll::Pending)),
    }
}

/// The slots after an event, and the answer to it. While a child is open,
/// the event is the child's. Otherwise a child may open, or the element
/// closes, which gives the reading if it has its text. Anything else is
/// turned down.
pub open spec fn step(slots: Slots, event: Event) -> (Slots, Outcome) {
    match slots.child {
        Some((field, leaf)) => match leaf_step(leaf, event) {
            (leaf, Ok(Poll::Pending)) => (
                Slots { child: Some((field, leaf)), ..slots },
                Ok(Poll::Pending),
            ),
            (_, Ok(Poll::Ready(value))) => taken(slots, field, value, event),
            (leaf, Err(rejection)) => (
                Slots { child: Some((field, leaf)), ..slots },
                Err(rejection),
            ),
        },
        None => match event {
            Event::Open(name) => match field_named(name) {
                Some(field) => (
                    Slots { child: Some((field, LeafSlots { text: None, lang: None })), ..slots },
                    Ok(Poll::Pending),
                ),
                None => (slots, Err(Rejection::Unsupported(event))),
            },
            Event::Close => match slots.text {
                Some(text) => (
                    Slots { restrict: Seq::empty(), ..slots },
                    Ok(
                        Poll::Ready(
                            ReadingElementView {
                                text,
                                no_kanji: slots.no_kanji,
                                restrict: slots.restrict,
                            },
                        ),
                    ),
                ),
                None => (slots, Err(Rejection::Missing("reb"@))),
            },
            _ => (slots, Err(Rejection::Unsupported(event))),
        },
    }
}

/// What an answer stands for.
pub open spec fn outcome_of(answer: Result<Poll<ReadingElement>, Error>) -> Outcome {
    match answer {
        Ok(Poll::Pending) => Ok(Poll::Pending),
        Ok(Poll::Ready(element)) => Ok(Poll::Ready(element@)),
        Err(error) => Err(error@),
    }
}

/// Assembles a [`ReadingElement`] from the events of its element.
#[derive(Debug)]
pub struct Builder<'a> {
    text: Option<&'a str>,
    no_kanji: bool,
    restrict: Vec<&'a str>,
    child: Option<(Field, Leaf<'a>)>,
}

impl<'a> View for Builder<'a> {
    type V = Slots;

    closed spec fn view(&self) -> Slots {
        Slots {
            text: crate::text::spelled(self.text),
            no_kanji: self.no_kanji,
            restrict: spellings(self.restrict@),
            child: match self.child {
                Some((field, leaf)) => Some((field, leaf@)),
                None => None,
            },
        }
    }
}

impl<'a> Builder<'a> {
    /// A builder with empty slots.
    pub fn new() -> (builder: Builder<'a>)
        ensures
            builder@ == (Slots {
                text: None,
                no_kanji: false,
                restrict: Seq::empty(),
                child: None,
            }),
    {
        let builder = Builder { text: None, no_kanji: false, restrict: Vec::new(), child: None };
        assert(spellings(builder.restrict@) =~= Seq::<Seq<char>>::empty());
        builder
    }

    /// Whether text at this point is to be handed on: only inside a child.
    pub fn wants_text(&self) -> (wanted: bool)
        ensures
            wanted == (self@.child is Some),
    {
        self.child.is_some()
    }

    /// Takes the next event of the element.
    pub fn poll(&mut self, output: Output<'a>) -> (answer: Result<
        Poll<ReadingElement<'a>>,
        Error<'a>,
    >)
        ensures
            (final(self)@, outcome_of(answer)) == step(old(self)@, output@),
    {
        match self.child {
            Some((field, mut leaf)) => {
                match leaf.poll(output) {
                    Ok(Poll::Pending) => {
                        self.child = Some((field, leaf));
                        Ok(Poll::Pending)
                    },
                    Ok(Poll::Ready(value)) => {
                        self.child = None;
                        match field {
                            Field::Text => {
                                if self.text.is_none() {
                                    self.text = Some(value.text);
                                    Ok(Poll::Pending)
                                } else {
                                    Err(Error::Unsupported(output))
                                }
                            },
                            Field::NoKanji => {
                                self.no_kanji = true;
                                Ok(Poll::Pending)
                            },
                            Field::Restrict => {
                                self.restrict.push(value.text);
                                assert(spellings(self.restrict@) =~= old(self)@.restrict.push(
                                    value.text@,
                                ));
                                Ok(Poll::Pending)
                            },
                            Field::Other => Ok(Poll::Pending),
                        }
                    },
                    Err(error) => {
                        self.child = Some((field, leaf));
                        Err(error)
                    },
                }
            },
            None => match output {
                Output::Open(name) => {
                    let field = if same(name, "reb") {
                        Field::Text
                    } else if same(name, "re_nokanji") {
                        Field::NoKanji
                    } else if same(name, "re_restr") {
                        Field::Restrict
                    } else if same(name, "re_pri") || same(name, "re_inf") {
                        Field::Other
                    } else {
                        return Err(Error::Unsupported(output));
                    };
                    self.child = Some((field, Leaf::new()));
                    Ok(Poll::Pending)
                },
                Output::Close => match self.text {
                    Some(text) => {
                        let mut restrict: Vec<&'a str> = Vec::new();
                        core::mem::swap(&mut restrict, &mut self.restrict);
                        assert(spellings(self.restrict@) =~= Seq::<Seq<char>>::empty());
                        Ok(
                            Poll::Ready(
                                ReadingElement { text, no_kanji: self.no_kanji, restrict },
                            ),
                        )
                    },
                    None => Err(Error::Missing("reb")),
                },
                _ => Err(Error::Unsupported(output)),
            },
        }
    }
}

} // verus!
