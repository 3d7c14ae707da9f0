//! The builder of a sense.
use vstd::prelude::*;

use super::entry::{spellings, Sense, SenseView};
use crate::entities::{PartOfSpeech, PosSet};
use crate::parser::{
    leaf_step, skip_step, Error, Event, Leaf, LeafSlots, Output, Poll, Rejection, Skip, TextView,
};
use crate::text::same;

verus! {

/// The children of the element of a sense whose text is read.
#[derive(Clone, Copy, Debug, PartialEq, Eq, Structural, Hash)]
pub enum Field {
    /// `pos`: a part of speech, by its tag.
    Pos,
    /// `misc`: a tag on usage; in the dictionary of names `name_type`,
    /// the kind of name.
    Misc,
    /// `gloss`: a meaning, and the language it is given in; in the
    /// dictionary of names `trans_det`, what the name stands for.
    Gloss,
}

/// The child that a name opens, if its text is read.
pub open spec fn field_named(name: Seq<char>) -> Option<Field> {
    if name == "pos"@ {
        Some(Field::Pos)
    } else if name == "misc"@ || name == "name_type"@ {
        Some(Field::Misc)
    } else if name == "gloss"@ || name == "trans_det"@ {
        Some(Field::Gloss)
    } else {
        None
    }
}

/// Whether a name opens a child that is passed over with all that is in
/// it: restrictions, references, fields of use, notes, sources, dialects
/// and examples.
pub open spec fn is_passed_over(name: Seq<char>) -> bool {
    name == "stagk"@ || name == "stagr"@ || name == "xref"@ || name == "ant"@ || name == "field"@
        || name == "s_inf"@ || name == "lsource"@ || name == "dial"@ || name == "example"@
}

/// The child that is open, and what it has taken in.
pub enum Opened {
    Leaf(Field, LeafSlots),
    Skip(usize),
}

/// What a [`Builder`] has taken in so far.
pub struct Slots {
    pub glosses: Seq<Seq<char>>,
    pub pos: PosSet,
    pub misc: Seq<Seq<char>>,
    pub language: Option<Seq<char>>,
    pub child: Option<Opened>,
}

/// What a builder answers, as plain values.
pub type Outcome = Result<Poll<SenseView>, Rejection>;

/// The slots after a child has closed with `value`. A part of speech must
/// be a known tag, and joins the set; a usage tag and a meaning are added
/// to their lists; the first meaning that names its language sets the
/// language of the sense.
pub open spec fn taken(slots: Slots, field: Field, value: TextView) -> (Slots, Outcome) {
    let closed = Slots { child: None, ..slots };
    match field {
        Field::Pos => match PartOfSpeech::tagged(value.text) {
            Some(pos) => (Slots { pos: slots.pos.with(pos), ..closed }, Ok(Poll::Pending)),
            None => (closed, Err(Rejection::Invalid("pos"@))),
        },
        Field::Misc => (Slots { misc: slots.misc.push(value.text), ..closed }, Ok(Poll::Pending)),
        Field::Gloss => (
            Slots {
                glosses: slots.glosses.push(value.text),
                language: if slots.language is None {
                    value.lang
                } else {
                    slots.language
                },
                ..closed
            },
            Ok(Poll::Pending),
        ),
    }
}

/// The slots after an event, and the answer to it. While a child is open,
/// the event is the child's. Otherwise a child may open, or the element
/// closes, which gives the sense if it has a meaning; its language is
/// English where no meaning names one. Anything else is turned down.
pub open spec fn step(slots: Slots, event: Event) -> (Slots, Outcome) {
    match slots.child {
        Some(Opened::Leaf(field, leaf)) => match leaf_step(leaf, event) {
            (leaf, Ok(Poll::Pending)) => (
                Slots { child: Some(Opened::Leaf(field, leaf)), ..slots },
                Ok(Poll::Pending),
            ),
            (_, Ok(Poll::Ready(value))) => taken(slots, field, value),
            (leaf, Err(rejection)) => (
                Slots { child: Some(Opened::Leaf(field, leaf)), ..slots },
                Err(rejection),
            ),
        },
        Some(Opened::Skip(depth)) => match skip_step(depth, event) {
            (depth, Ok(Poll::Pending)) => (
                Slots { child: Some(Opened::Skip(depth)), ..slots },
                Ok(Poll::Pending),
            ),
            (_, Ok(Poll::Ready(_))) => (Slots { child: None, ..slots }, Ok(Poll::Pending)),
            (depth, Err(rejection)) => (
                Slots { child: Some(Opened::Skip(depth)), ..slots },
                Err(rejection),
            ),
        },
        None => match event {
            Event::Open(name) => match field_named(name) {
                Some(field) => (
                    Slots {
                        child: Some(Opened::Leaf(field, LeafSlots { text: None, lang: None })),
                        ..slots
                    },
                    Ok(Poll::Pending),
                ),
                None => if is_passed_over(name) {
                    (Slots { child: Some(Opened::Skip(0)), ..slots }, Ok(Poll::Pending))
                } else {
                    (slots, Err(Rejection::Unsupported(event)))
                },
            },
            Event::Close => if slots.glosses.len() > 0 {
                (
                    Slots { glosses: Seq::empty(), misc: Seq::empty(), ..slots },
                    Ok(
                        Poll::Ready(
                            SenseView {
                                glosses: slots.glosses,
                                pos: slots.pos,
                                misc: slots.misc,
                                language: match slots.language {
                                    Some(language) => language,
                                    None => "eng"@,
                                },
                            },
                        ),
                    ),
                )
            } else {
                (slots, Err(Rejection::Missing("gloss"@)))
            },
            _ => (slots, Err(Rejection::Unsupported(event))),
        },
    }
}

/// What an answer stands for.
pub open spec fn outcome_of(answer: Result<Poll<Sense>, Error>) -> Outcome {
    match answer {
        Ok(Poll::Pending) => Ok(Poll::Pending),
        Ok(Poll::Ready(sense)) => Ok(Poll::Ready(sense@)),
        Err(error) => Err(error@),
    }
}

/// The child that is open.
#[derive(Clone, Copy, Debug)]
enum Child<'a> {
    Leaf(Field, Leaf<'a>),
    Skip(Skip),
}

/// Assembles a [`Sense`] from the events of its element.
#[derive(Debug)]
pub struct Builder<'a> {
    glosses: Vec<&'a str>,
    pos: PosSet,
    misc: Vec<&'a str>,
    language: Option<&'a str>,
    child: Option<Child<'a>>,
}

impl<'a> View for Builder<'a> {
    type V = Slots;

    closed spec fn view(&self) -> Slots {
        Slots {
            glosses: spellings(self.glosses@),
            pos: self.pos,
            misc: spellings(self.misc@),
            language: crate::text::spelled(self.language),
            child: match self.child {
                Some(Child::Leaf(field, leaf)) => Some(Opened::Leaf(field, leaf@)),
                Some(Child::Skip(skip)) => Some(Opened::Skip(skip@)),
                None => None,
            },
        }
    }
}

impl<'a> Builder<'a> {
    /// A builder with empty slots.
    pub fn new() -> (builder: Builder<'a>)
        ensures
            builder@ == (Slots {
                glosses: Seq::empty(),
                pos: PosSet::none(),
                misc: Seq::empty(),
                language: None,
                child: None,
            }),
    {
        let builder = Builder {
            glosses: Vec::new(),
            pos: PosSet::new(),
            misc: Vec::new(),
            language: None,
            child: None,
        };
        assert(spellings(builder.glosses@) =~= Seq::<Seq<char>>::empty());
        assert(spellings(builder.misc@) =~= Seq::<Seq<char>>::empty());
        builder
    }

    /// Whether text at this point is to be handed on: only inside a child.
    pub fn wants_text(&self) -> (wanted: bool)
        ensures
            wanted == (self@.child is Some),
    {
        self.child.is_some()
    }

    fn take(&mut self, field: Field, value: crate::parser::Text<'a>) -> (answer: Result<
        Poll<Sense<'a>>,
        Error<'a>,
    >)
        ensures
            (final(self)@, outcome_of(answer)) == taken(old(self)@, field, value@),
    {
        self.child = None;
        match field {
            Field::Pos => match PartOfSpeech::parse(value.text) {
                Some(pos) => {
                    self.pos.insert(pos);
                    Ok(Poll::Pending)
                },
                None => Err(Error::Invalid("pos")),
            },
            Field::Misc => {
                self.misc.push(value.text);
                assert(spellings(self.misc@) =~= old(self)@.misc.push(value.text@));
                Ok(Poll::Pending)
            },
            Field::Gloss => {
                self.glosses.push(value.text);
                assert(spellings(self.glosses@) =~= old(self)@.glosses.push(value.text@));
                if self.language.is_none() {
                    self.language = value.lang;
                }
                Ok(Poll::Pending)
            },
        }
    }

    /// Takes the next event of the element.
    pub fn poll(&mut self, output: Output<'a>) -> (answer: Result<Poll<Sense<'a>>, Error<'a>>)
        ensures
            (final(self)@, outcome_of(answer)) == step(old(self)@, output@),
    {
        match self.child {
            Some(Child::Leaf(field, mut leaf)) => {
                match leaf.poll(output) {
                    Ok(Poll::Pending) => {
                        self.child = Some(Child::Leaf(field, leaf));
                        Ok(Poll::Pending)
                    },
                    Ok(Poll::Ready(value)) => self.take(field, value),
                    Err(error) => {
                        self.child = Some(Child::Leaf(field, leaf));
                        Err(error)
                    },
                }
            },
            Some(Child::Skip(mut skip)) => {
                match skip.poll(output) {
                    Ok(Poll::Pending) => {
                        self.child = Some(Child::Skip(skip));
                        Ok(Poll::Pending)
                    },
                    Ok(Poll::Ready(_)) => {
                        self.child = None;
                        Ok(Poll::Pending)
                    },
                    Err(error) => {
                        self.child = Some(Child::Skip(skip));
                        Err(error)
                    },
                }
            },
            None => match output {
                Output::Open(name) => {
                    if same(name, "pos") {
                        self.child = Some(Child::Leaf(Field::Pos, Leaf::new()));
                    } else if same(name, "misc") || same(name, "name_type") {
                        self.child = Some(Child::Leaf(Field::Misc, Leaf::new()));
                    } else if same(name, "gloss") || same(name, "trans_det") {
                        self.child = Some(Child::Leaf(Field::Gloss, Leaf::new()));
                    } else if same(name, "stagk") || same(name, "stagr") || same(name, "xref")
                        || same(name, "ant") || same(name, "field") || same(name, "s_inf") || same(
                        name,
                        "lsource",
                    ) || same(name, "dial") || same(name, "example") {
                        self.child = Some(Child::Skip(Skip::new()));
                    } else {
                        return Err(Error::Unsupported(output));
                    }
                    Ok(Poll::Pending)
                },
                Output::Close => {
                    if self.glosses.len() > 0 {
                        let mut glosses: Vec<&'a str> = Vec::new();
                        let mut misc: Vec<&'a str> = Vec::new();
                        core::mem::swap(&mut glosses, &mut self.glosses);
                        core::mem::swap(&mut misc, &mut self.misc);
                        assert(spellings(self.glosses@) =~= Seq::<Seq<char>>::empty());
                        assert(spellings(self.misc@) =~= Seq::<Seq<char>>::empty());
                        let language = match self.language {
                            Some(language) => language,
                            None => "eng",
                        };
                        Ok(Poll::Ready(Sense { glosses, pos: self.pos, misc, language }))
                    } else {
                        Err(Error::Missing("gloss"))
                    }
                },
                _ => Err(Error::Unsupported(output)),
            },
        }
    }
}

} // verus!
