//! The builder of a written form.
use vstd::prelude::*;

use super::entry::{KanjiElement, KanjiElementView, Priority};
use crate::parser::{
    leaf_step, Error, Event, Leaf, LeafSlots, Output, Poll, Rejection, TextView,
};
use crate::text::same;

verus! {

/// The children of the element of a written form.
#[derive(Clone, Copy, Debug, PartialEq, Eq, Structural, Hash)]
pub enum Field {
    /// `keb`: the written form itself.
    Text,
    /// `ke_pri`: a priority tag.
    Priority,
    /// `ke_inf`: a note on the orthography, which is not kept.
    Info,
}

/// The child that a name opens, if it is one of the element's.
pub open spec fn field_named(name: Seq<char>) -> Option<Field> {
    if name == "keb"@ {
        Some(Field::Text)
    } else if name == "ke_pri"@ {
        Some(Field::Priority)
    } else if name == "ke_inf"@ {
        Some(Field::Info)
    } else {
        None
    }
}

/// What a [`Builder`] has taken in so far.
pub struct Slots {
    pub text: Option<Seq<char>>,
    pub priority: Seq<Priority>,
    /// The child that is open, and what it has taken in.
    pub child: Option<(Field, LeafSlots)>,
}

/// What a builder answers, as plain values.
pub type Outcome = Result<Poll<KanjiElementView>, Rejection>;

/// The slots after a child has closed with `value`. The written form
/// fills its slot once; a priority tag must name a priority, and is added;
/// a note is dropped.
pub open spec fn taken(slots: Slots, field: Field, value: TextView, event: Event) -> (
    Slots,
    Outcome,
) {
    let closed = Slots { child: None, ..slots };
    match field {
        Field::Text => if slots.text is None {
            (Slots { text: Some(value.text), ..closed }, Ok(Poll::Pending))
        } else {
            (closed, Err(Rejection::Unsupported(event)))
        },
        Field::Priority => match Priority::tagged(value.text) {
            Some(priority) => (
                Slots { priority: slots.priority.push(priority), ..closed },
                Ok(Poll::Pending),
            ),
            None => (closed, Err(Rejection::Invalid("ke_pri"@))),
        },
        Field::Info => (closed, Ok(Poll::Pending)),
    }
}

/// The slots after an event, and the answer to it. While a child is open,
/// the event is the child's. Otherwise a child may open, or the element
/// closes, which gives the written form if it has its text. Anything else
/// is turned down.
pub open spec fn step(slots: Slots, event: Event) -> (Slots, Outcome) {
    match slots.child {
        Some((field, leaf)) => match leaf_step(leaf, event) {
            (leaf, Ok(Poll::Pending)) => (
                Slots { child: Some((field, leaf)), ..slots },
                Ok(Poll::Pending),
            ),
            (_, Ok(Poll::Ready(value))) => taken(slots, field, value, event),
            (leaf, Err(rejection)) => (
                Slots { child: Some((field, leaf)), ..slots },
                Err(rejection),
            ),
        },
        None => match event {
            Event::Open(name) => match field_named(name) {
                Some(field) => (
                    Slots { child: Some((field, LeafSlots { text: None, lang: None })), ..slots },
                    Ok(Poll::Pending),
                ),
                None => (slots, Err(Rejection::Unsupported(event))),
            },
            Event::Close => match slots.text {
                Some(text) => (
                    Slots { priority: Seq::empty(), ..slots },
                    Ok(Poll::Ready(KanjiElementView { text, priority: slots.priority })),
                ),
                None => (slots, Err(Rejection::Missing("keb"@))),
            },
            _ => (slots, Err(Rejection::Unsupported(event))),
        },
    }
}

/// What an answer stands for.
pub open spec fn outcome_of(answer: Result<Poll<KanjiElement>, Error>) -> Outcome {
    match answer {
        Ok(Poll::Pending) => Ok(Poll::Pending),
        Ok(Poll::Ready(element)) => Ok(Poll::Ready(element@)),
        Err(error) => Err(error@),
    }
}

/// Assembles a [`KanjiElement`] from the events of its element.
#[derive(Debug)]
pub struct Builder<'a> {
    text: Option<&'a str>,
    priority: Vec<Priority>,
    child: Option<(Field, Leaf<'a>)>,
}

impl<'a> View for Builder<'a> {
    type V = Slots;

    closed spec fn view(&self) -> Slots {
        Slots {
            text: crate::text::spelled(self.text),
            priority: self.priority@,
            child: match self.child {
                Some((field, leaf)) => Some((field, leaf@)),
                None => None,
            },
        }
    }
}

impl<'a> Builder<'a> {
    /// A builder with empty slots.
    pub fn new() -> (builder: Builder<'a>)
        ensures
            builder@ == (Slots { text: None, priority: Seq::empty(), child: None }),
    {
        Builder { text: None, priority: Vec::new(), child: None }
    }

    /// Whether text at this point is to be handed on: only inside a child.
    pub fn wants_text(&self) -> (wanted: bool)
        ensures
            wanted == (self@.child is Some),
    {
        self.child.is_some()
    }

    /// Takes the next event of the element.
    pub fn poll(&mut self, output: Output<'a>) -> (answer: Result<
        Poll<KanjiElement<'a>>,
        Error<'a>,
    >)
        ensures
            (final(self)@, outcome_of(answer)) == step(old(self)@, output@),
    {
        match self.child {
            Some((field, mut leaf)) => {
                match leaf.poll(output) {
                    Ok(Poll::Pending) => {
                        self.child = Some((field, leaf));
                        Ok(Poll::Pending)
                    },
                    Ok(Poll::Ready(value)) => {
                        self.child = None;
                        match field {
                            Field::Text => {
                                if self.text.is_none() {
                                    self.text = Some(value.text);
                                    Ok(Poll::Pending)
                                } else {
                                    Err(Error::Unsupported(output))
                                }
                            },
                            Field::Priority => match Priority::parse(value.text) {
                                Some(priority) => {
                                    self.priority.push(priority);
                                    Ok(Poll::Pending)
                                },
                                None => Err(Error::Invalid("ke_pri")),
                            },
                            Field::Info => Ok(Poll::Pending),
                        }
                    },
                    Err(error) => {
                        self.child = Some((field, leaf));
                        Err(error)
                    },
                }
            },
            None => match output {
                Output::Open(name) => {
                    let field = if same(name, "keb") {
                        Field::Text
                    } else if same(name, "ke_pri") {
                        Field::Priority
                    } else if same(name, "ke_inf") {
                        Field::Info
                    } else {
                        return Err(Error::Unsupported(output));
                    };
                    self.child = Some((field, Leaf::new()));
                    Ok(Poll::Pending)
                },
                Output::Close => match self.text {
                    Some(text) => {
                        let mut priority: Vec<Priority> = Vec::new();
                        core::mem::swap(&mut priority, &mut self.priority);
                        Ok(Poll::Ready(KanjiElement { text, priority }))
                    },
                    None => Err(Error::Missing("keb")),
                },
                _ => Err(Error::Unsupported(output)),
            },
        }
    }
}

} // verus!
