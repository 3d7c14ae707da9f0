//! Surface forms: a word as written and as read.
use vstd::prelude::*;
use vstd::string::*;

verus! {

/// What a surface form spells: the written stem, the read stem, and the
/// ending that both share.
pub struct Spelling {
    pub text: Seq<char>,
    pub reading: Seq<char>,
    pub suffix: Seq<char>,
}

impl Spelling {
    /// The written form in full.
    pub open spec fn written(self) -> Seq<char> {
        self.text + self.suffix
    }

    /// The reading in full.
    pub open spec fn read(self) -> Seq<char> {
        self.reading + self.suffix
    }

    /// The same stems with `tail` added to the ending.
    pub open spec fn extended(self, tail: Seq<char>) -> Spelling {
        Spelling { text: self.text, reading: self.reading, suffix: self.suffix + tail }
    }

    /// Whether nothing at all is spelled.
    pub open spec fn is_blank(self) -> bool {
        self.text.len() == 0 && self.reading.len() == 0 && self.suffix.len() == 0
    }
}

/// A complete surface form borrowed from a dictionary entry.
#[derive(Clone, Copy, Debug)]
pub struct Full<'a> {
    pub text: &'a str,
    pub reading: &'a str,
    pub suffix: &'a str,
}

impl<'a> View for Full<'a> {
    type V = Spelling;

    open spec fn view(&self) -> Spelling {
        Spelling { text: self.text@, reading: self.reading@, suffix: self.suffix@ }
    }
}

impl<'a> Full<'a> {
    pub fn new(text: &'a str, reading: &'a str, suffix: &'a str) -> (r: Full<'a>)
        ensures
            r@ == (Spelling { text: text@, reading: reading@, suffix: suffix@ }),
    {
        Full { text, reading, suffix }
    }

    /// The written form in full.
    pub fn text(&self) -> (s: String)
        ensures
            s@ == self@.written(),
    {
        String::from_str(self.text).concat(self.suffix)
    }

    /// The reading in full.
    pub fn reading(&self) -> (s: String)
        ensures
            s@ == self@.read(),
    {
        String::from_str(self.reading).concat(self.suffix)
    }
}

/// An inflected surface form.
///
/// The stems are borrowed, never copied: the written stem is one slice, the
/// read stem is a slice followed by an extension that only irregular verbs
/// written with a kanji stem use. The ending is owned, since it grows as
/// auxiliaries are attached.
#[derive(Debug)]
pub struct Fragments<'a> {
    text: &'a str,
    reading: [&'a str; 2],
    suffix: String,
}

impl<'a> View for Fragments<'a> {
    type V = Spelling;

    closed spec fn view(&self) -> Spelling {
        Spelling {
            text: self.text@,
            reading: self.reading[0]@ + self.reading[1]@,
            suffix: self.suffix@,
        }
    }
}

impl<'a> Fragments<'a> {
    /// A form made of a written stem, a read stem and an ending.
    pub fn new(text: &'a str, reading: &'a str, suffix: &str) -> (r: Fragments<'a>)
        ensures
            r@ == (Spelling { text: text@, reading: reading@, suffix: suffix@ }),
    {
        let r = Fragments { text, reading: [reading, ""], suffix: String::from_str(suffix) };
        proof {
            reveal_strlit("");
            assert(r@.reading =~= reading@);
        }
        r
    }

    /// A form whose reading continues past the read stem with `extension`,
    /// while the written stem stands for both.
    pub fn with_extension(
        text: &'a str,
        reading: &'a str,
        extension: &'a str,
        suffix: &str,
    ) -> (r: Fragments<'a>)
        ensures
            r@ == (Spelling { text: text@, reading: reading@ + extension@, suffix: suffix@ }),
    {
        Fragments { text, reading: [reading, extension], suffix: String::from_str(suffix) }
    }

    /// The same stems, with the three pieces added to the ending in order.
    pub fn concat(&self, first: &str, second: &str, third: &str) -> (r: Fragments<'a>)
        ensures
            r@ == self@.extended(first@ + second@ + third@),
    {
        let mut suffix = String::from_str(self.suffix.as_str());
        suffix.append(first);
        suffix.append(second);
        suffix.append(third);
        let r = Fragments { text: self.text, reading: [self.reading[0], self.reading[1]], suffix };
        proof {
            assert(r@.suffix =~= self@.suffix + (first@ + second@ + third@));
        }
        r
    }

    /// The same stems, with `tail` added to the ending.
    pub fn append(&self, tail: &str) -> (r: Fragments<'a>)
        ensures
            r@ == self@.extended(tail@),
    {
        let mut suffix = String::from_str(self.suffix.as_str());
        suffix.append(tail);
        Fragments { text: self.text, reading: [self.reading[0], self.reading[1]], suffix }
    }

    /// A copy of the form.
    pub fn duplicate(&self) -> (r: Fragments<'a>)
        ensures
            r@ == self@,
    {
        Fragments {
            text: self.text,
            reading: [self.reading[0], self.reading[1]],
            suffix: String::from_str(self.suffix.as_str()),
        }
    }

    /// Whether the form spells nothing at all.
    pub fn is_empty(&self) -> (b: bool)
        ensures
            b == self@.is_blank(),
    {
        self.text.is_empty() && self.reading[0].is_empty() && self.reading[1].is_empty()
            && self.suffix.as_str().is_empty()
    }

    /// The written form in full.
    pub fn text(&self) -> (s: String)
        ensures
            s@ == self@.written(),
    {
        String::from_str(self.text).concat(self.suffix.as_str())
    }

    /// The reading in full.
    pub fn reading(&self) -> (s: String)
        ensures
            s@ == self@.read(),
    {
        let s = String::from_str(self.reading[0]).concat(self.reading[1]).concat(
            self.suffix.as_str(),
        );
        s
    }
}

} // verus!
