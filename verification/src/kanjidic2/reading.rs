//! Readings of a character and the builder that assembles one.
use vstd::prelude::*;

use crate::parser::{Error, Event, Output, Poll, Rejection};
use crate::text::same;

verus! {

/// What a [`Reading`] holds.
pub struct ReadingView {
    pub text: Seq<char>,
    pub ty: Seq<char>,
}

/// A reading of a character, and the kind of reading it is, such as
/// `ja_on` or `ja_kun`.
#[derive(Clone, Copy, Debug)]
pub struct Reading<'a> {
    pub text: &'a str,
    pub ty: &'a str,
}

impl<'a> View for Reading<'a> {
    type V = ReadingView;

    open spec fn view(&self) -> ReadingView {
        ReadingView { text: self.text@, ty: self.ty@ }
    }
}

/// What a [`Builder`] has taken in so far.
pub struct Slots {
    pub text: Option<Seq<char>>,
    pub ty: Option<Seq<char>>,
}

/// What a builder answers, as plain values.
pub type Outcome = Result<Poll<ReadingView>, Rejection>;

/// The slots after an event, and the answer to it. Text fills the text
/// slot and the attribute `r_type` the kind, each once. Closing gives the
/// reading, which must have both. Anything else is turned down, and leaves
/// the slots as they were.
pub open spec fn step(slots: Slots, event: Event) -> (Slots, Outcome) {
    match event {
        Event::Text(text) if slots.text is None => (
            Slots { text: Some(text), ty: slots.ty },
            Ok(Poll::Pending),
        ),
        Event::Attribute(name, value) if name == "r_type"@ && slots.ty is None => (
            Slots { text: slots.text, ty: Some(value) },
            Ok(Poll::Pending),
        ),
        Event::Close => match (slots.text, slots.ty) {
            (Some(text), Some(ty)) => (slots, Ok(Poll::Ready(ReadingView { text, ty }))),
            (None, _) => (slots, Err(Rejection::Missing("text"@))),
            (Some(_), None) => (slots, Err(Rejection::Missing("r_type"@))),
        },
        _ => (slots, Err(Rejection::Unsupported(event))),
    }
}

/// What an answer stands for.
pub open spec fn outcome_of(answer: Result<Poll<Reading>, Error>) -> Outcome {
    match answer {
        Ok(Poll::Pending) => Ok(Poll::Pending),
        Ok(Poll::Ready(reading)) => Ok(Poll::Ready(reading@)),
        Err(error) => Err(error@),
    }
}

/// Assembles a [`Reading`] from the events of its element.
#[derive(Debug)]
pub struct Builder<'a> {
    text: Option<&'a str>,
    ty: Option<&'a str>,
}

impl<'a> View for Builder<'a> {
    type V = Slots;

    closed spec fn view(&self) -> Slots {
        Slots { text: crate::text::spelled(self.text), ty: crate::text::spelled(self.ty) }
    }
}

impl<'a> Builder<'a> {
    /// A builder with empty slots.
    pub fn new() -> (builder: Builder<'a>)
        ensures
            builder@ == (Slots { text: None, ty: None }),
    {
        Builder { text: None, ty: None }
    }

    /// Whether text inside the element is to be handed on.
    pub fn wants_text(&self) -> (wanted: bool)
        ensures
            wanted,
    {
        true
    }

    /// Takes the next event of the element.
    pub fn poll(&mut self, output: Output<'a>) -> (answer: Result<Poll<Reading<'a>>, Error<'a>>)
        ensures
            (final(self)@, outcome_of(answer)) == step(old(self)@, output@),
    {
        match output {
            Output::Text(text) => {
                if self.text.is_none() {
                    self.text = Some(text);
                    return Ok(Poll::Pending);
                }
            },
            Output::Attribute(name, value) => {
                if same(name, "r_type") && self.ty.is_none() {
                    self.ty = Some(value);
                    return Ok(Poll::Pending);
                }
            },
            Output::Close => {
                return match (self.text, self.ty) {
                    (Some(text), Some(ty)) => Ok(Poll::Ready(Reading { text, ty })),
                    (None, _) => Err(Error::Missing("text")),
                    (Some(_), None) => Err(Error::Missing("r_type")),
                };
            },
            _ => {},
        }
        Err(Error::Unsupported(output))
    }
}

} // verus!
