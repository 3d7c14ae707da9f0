//! What the stream parser hands to the builders, and what a builder
//! answers.
use vstd::prelude::*;

use crate::text::{lemma_empty_literal, same, spelled};

verus! {

/// What an [`Output`] holds.
pub enum Event {
    Open(Seq<char>),
    Attribute(Seq<char>, Seq<char>),
    Text(Seq<char>),
    Close,
}

/// One event of the stream, within the element that a builder assembles.
#[derive(Clone, Copy, Debug)]
pub enum Output<'a> {
    /// A child element opens; the name is its local name.
    Open(&'a str),
    /// An attribute of the element, by name and value.
    Attribute(&'a str, &'a str),
    /// Text directly inside the element.
    Text(&'a str),
    /// The element closes.
    Close,
}

impl<'a> View for Output<'a> {
    type V = Event;

    open spec fn view(&self) -> Event {
        match *self {
            Output::Open(name) => Event::Open(name@),
            Output::Attribute(name, value) => Event::Attribute(name@, value@),
            Output::Text(text) => Event::Text(text@),
            Output::Close => Event::Close,
        }
    }
}

/// The answer of a builder to an event.
#[derive(Clone, Copy, Debug)]
pub enum Poll<T> {
    /// The element is not complete yet.
    Pending,
    /// The element closed, and this is its record.
    Ready(T),
}

/// Why a builder turned an event down.
pub enum Rejection {
    /// The element closed without the named field.
    Missing(Seq<char>),
    /// The event has no place in the element, or its place is taken.
    Unsupported(Event),
    /// The named field does not hold what it must.
    Invalid(Seq<char>),
}

/// Why a builder turned an event down.
#[derive(Clone, Copy, Debug)]
pub enum Error<'a> {
    /// The element closed without the named field.
    Missing(&'static str),
    /// The event has no place in the element, or its place is taken.
    Unsupported(Output<'a>),
    /// The named field does not hold what it must.
    Invalid(&'static str),
}

impl<'a> View for Error<'a> {
    type V = Rejection;

    open spec fn view(&self) -> Rejection {
        match *self {
            Error::Missing(field) => Rejection::Missing(field@),
            Error::Unsupported(output) => Rejection::Unsupported(output@),
            Error::Invalid(field) => Rejection::Invalid(field@),
        }
    }
}

/// What a [`Leaf`] has taken in so far.
pub struct LeafSlots {
    pub text: Option<Seq<char>>,
    pub lang: Option<Seq<char>>,
}

/// What a [`Text`] holds.
pub struct TextView {
    pub text: Seq<char>,
    pub lang: Option<Seq<char>>,
}

/// The content of an element that holds text only: the text, which is
/// empty where the element is, and the language where the element names
/// one.
#[derive(Clone, Copy, Debug)]
pub struct Text<'a> {
    pub text: &'a str,
    pub lang: Option<&'a str>,
}

impl<'a> View for Text<'a> {
    type V = TextView;

    open spec fn view(&self) -> TextView {
        TextView { text: self.text@, lang: spelled(self.lang) }
    }
}

/// The slots of a leaf after an event, and the answer to it. Text fills
/// the text slot and the attribute `lang` the language slot, each once;
/// other attributes are passed over. Closing gives the content. A child
/// element is turned down, as is a second text or language.
pub open spec fn leaf_step(slots: LeafSlots, event: Event) -> (
    LeafSlots,
    Result<Poll<TextView>, Rejection>,
) {
    match event {
        Event::Text(text) if slots.text is None => (
            LeafSlots { text: Some(text), lang: slots.lang },
            Ok(Poll::Pending),
        ),
        Event::Attribute(name, value) if name != "lang"@ => (slots, Ok(Poll::Pending)),
        Event::Attribute(name, value) if slots.lang is None => (
            LeafSlots { text: slots.text, lang: Some(value) },
            Ok(Poll::Pending),
        ),
        Event::Close => (
            slots,
            Ok(
                Poll::Ready(
                    TextView {
                        text: match slots.text {
                            Some(text) => text,
                            None => Seq::empty(),
                        },
                        lang: slots.lang,
                    },
                ),
            ),
        ),
        _ => (slots, Err(Rejection::Unsupported(event))),
    }
}

/// What the answer of a leaf stands for.
pub open spec fn leaf_outcome(answer: Result<Poll<Text>, Error>) -> Result<
    Poll<TextView>,
    Rejection,
> {
    match answer {
        Ok(Poll::Pending) => Ok(Poll::Pending),
        Ok(Poll::Ready(text)) => Ok(Poll::Ready(text@)),
        Err(error) => Err(error@),
    }
}

/// Assembles the content of an element that holds text only.
#[derive(Clone, Copy, Debug)]
pub struct Leaf<'a> {
    text: Option<&'a str>,
    lang: Option<&'a str>,
}

impl<'a> View for Leaf<'a> {
    type V = LeafSlots;

    closed spec fn view(&self) -> LeafSlots {
        LeafSlots { text: spelled(self.text), lang: spelled(self.lang) }
    }
}

impl<'a> Leaf<'a> {
    /// A builder with empty slots.
    pub fn new() -> (leaf: Leaf<'a>)
        ensures
            leaf@ == (LeafSlots { text: None, lang: None }),
    {
        Leaf { text: None, lang: None }
    }

    /// Whether text inside the element is to be handed on.
    pub fn wants_text(&self) -> (wanted: bool)
        ensures
            wanted,
    {
        true
    }

    /// Takes the next event of the element.
    pub fn poll(&mut self, output: Output<'a>) -> (answer: Result<Poll<Text<'a>>, Error<'a>>)
        ensures
            (final(self)@, leaf_outcome(answer)) == leaf_step(old(self)@, output@),
    {
        match output {
            Output::Text(text) => {
                if self.text.is_none() {
                    self.text = Some(text);
                    return Ok(Poll::Pending);
                }
            },
            Output::Attribute(name, value) => {
                if !same(name, "lang") {
                    return Ok(Poll::Pending);
                }
                if self.lang.is_none() {
                    self.lang = Some(value);
                    return Ok(Poll::Pending);
                }
            },
            Output::Close => {
                proof {
                    lemma_empty_literal();
                }
                let text = match self.text {
                    Some(text) => text,
                    None => "",
                };
                return Ok(Poll::Ready(Text { text, lang: self.lang }));
            },
            _ => {},
        }
        Err(Error::Unsupported(output))
    }
}

/// The depth of a skipper after an event, and whether the element that it
/// passes over has closed: a child that opens is one level deeper, one
/// that closes one level less, and the close at the top ends the element.
/// There is no answer where the depth does not fit.
pub open spec fn skip_step(depth: usize, event: Event) -> (
    usize,
    Result<Poll<()>, Rejection>,
) {
    match event {
        Event::Open(_) => if depth < usize::MAX {
            ((depth + 1) as usize, Ok(Poll::Pending))
        } else {
            (depth, Err(Rejection::Unsupported(event)))
        },
        Event::Close => if depth == 0 {
            (depth, Ok(Poll::Ready(())))
        } else {
            ((depth - 1) as usize, Ok(Poll::Pending))
        },
        _ => (depth, Ok(Poll::Pending)),
    }
}

/// What the answer of a skipper stands for.
pub open spec fn skip_outcome(answer: Result<Poll<()>, Error>) -> Result<Poll<()>, Rejection> {
    match answer {
        Ok(poll) => Ok(poll),
        Err(error) => Err(error@),
    }
}

/// Passes over an element and all that is in it.
#[derive(Clone, Copy, Debug)]
pub struct Skip {
    depth: usize,
}

impl View for Skip {
    type V = usize;

    closed spec fn view(&self) -> usize {
        self.depth
    }
}

impl Skip {
    /// A skipper at the top of its element.
    pub fn new() -> (skip: Skip)
        ensures
            skip@ == 0,
    {
        Skip { depth: 0 }
    }

    /// Takes the next event of the element.
    pub fn poll<'a>(&mut self, output: Output<'a>) -> (answer: Result<Poll<()>, Error<'a>>)
        ensures
            (final(self)@, skip_outcome(answer)) == skip_step(old(self)@, output@),
    {
        match output {
            Output::Open(_) => {
                if self.depth < usize::MAX {
                    self.depth = self.depth + 1;
                    Ok(Poll::Pending)
                } else {
                    Err(Error::Unsupported(output))
                }
            },
            Output::Close => {
                if self.depth == 0 {
                    Ok(Poll::Ready(()))
                } else {
                    self.depth = self.depth - 1;
                    Ok(Poll::Pending)
                }
            },
            _ => Ok(Poll::Pending),
        }
    }
}

} // verus!
