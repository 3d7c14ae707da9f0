//! The builder of a meaning of a character.
use vstd::prelude::*;

use super::character::{Meaning, MeaningView};
use crate::parser::{Error, Event, Output, Poll, Rejection};
use crate::text::{same, spelled};

verus! {

/// What a [`Builder`] has taken in so far.
pub struct Slots {
    pub text: Option<Seq<char>>,
    pub lang: Option<Seq<char>>,
}

/// What a builder answers, as plain values.
pub type Outcome = Result<Poll<MeaningView>, Rejection>;

/// The slots after an event, and the answer to it. Text fills the text
/// slot and the attribute `m_lang` the language, each once. Closing gives
/// the meaning, which must have its text. Anything else is turned down,
/// and leaves the slots as they were.
pub open spec fn step(slots: Slots, event: Event) -> (Slots, Outcome) {
    match event {
        Event::Text(text) if slots.text is None => (
            Slots { text: Some(text), lang: slots.lang },
            Ok(Poll::Pending),
        ),
        Event::Attribute(name, value) if name == "m_lang"@ && slots.lang is None => (
            Slots { text: slots.text, lang: Some(value) },
            Ok(Poll::Pending),
        ),
        Event::Close => match slots.text {
            Some(text) => (slots, Ok(Poll::Ready(MeaningView { text, lang: slots.lang }))),
            None => (slots, Err(Rejection::Missing("text"@))),
        },
        _ => (slots, Err(Rejection::Unsupported(event))),
    }
}

/// What an answer stands for.
pub open spec fn outcome_of(answer: Result<Poll<Meaning>, Error>) -> Outcome {
    match answer {
        Ok(Poll::Pending) => Ok(Poll::Pending),
        Ok(Poll::Ready(meaning)) => Ok(Poll::Ready(meaning@)),
        Err(error) => Err(error@),
    }
}

/// Assembles a [`Meaning`] from the events of its element.
#[derive(Debug)]
pub struct Builder<'a> {
    text: Option<&'a str>,
    lang: Option<&'a str>,
}

impl<'a> View for Builder<'a> {
    type V = Slots;

    closed spec fn view(&self) -> Slots {
        Slots { text: spelled(self.text), lang: spelled(self.lang) }
    }
}

impl<'a> Builder<'a> {
    /// A builder with empty slots.
    pub fn new() -> (builder: Builder<'a>)
        ensures
            builder@ == (Slots { text: None, lang: None }),
    {
        Builder { text: None, lang: None }
    }

    /// Whether text inside the element is to be handed on.
    pub fn wants_text(&self) -> (wanted: bool)
        ensures
            wanted,
    {
        true
    }

    /// Takes the next event of the element.
    pub fn poll(&mut self, output: Output<'a>) -> (answer: Result<Poll<Meaning<'a>>, Error<'a>>)
        ensures
            (final(self)@, outcome_of(answer)) == step(old(self)@, output@),
    {
        match output {
            Output::Text(text) => {
                if self.text.is_none() {
                    self.text = Some(text);
                    return Ok(Poll::Pending);
                }
            },
            Output::Attribute(name, value) => {
                if same(name, "m_lang") && self.lang.is_none() {
                    self.lang = Some(value);
                    return Ok(Poll::Pending);
                }
            },
            Output::Close => {
                return match self.text {
                    Some(text) => Ok(Poll::Ready(Meaning { text, lang: self.lang })),
                    None => Err(Error::Missing("text")),
                };
            },
            _ => {},
        }
        Err(Error::Unsupported(output))
    }
}

} // verus!
