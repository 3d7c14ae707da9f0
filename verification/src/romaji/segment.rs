//! Splitting Latin letters into syllables.
use vstd::prelude::*;
use vstd::string::*;

use super::table::{syllable, syllable_of, Kana};
use crate::query::Mode;

verus! {

/// What a [`Segment`] holds.
pub struct Piece {
    pub romaji: Seq<char>,
    pub hiragana: Seq<char>,
    pub katakana: Seq<char>,
}

/// A stretch of the input, and what it becomes in either kana. A stretch
/// that spells no syllable is kept as it is.
#[derive(Clone, Copy, Debug)]
pub struct Segment<'a> {
    pub romaji: &'a str,
    hiragana: &'a str,
    katakana: &'a str,
}

impl<'a> View for Segment<'a> {
    type V = Piece;

    closed spec fn view(&self) -> Piece {
        Piece { romaji: self.romaji@, hiragana: self.hiragana@, katakana: self.katakana@ }
    }
}

impl<'a> Segment<'a> {
    /// The stretch in hiragana.
    pub fn hiragana(&self) -> (kana: &'a str)
        ensures
            kana@ == self@.hiragana,
    {
        self.hiragana
    }

    /// The stretch in katakana.
    pub fn katakana(&self) -> (kana: &'a str)
        ensures
            kana@ == self@.katakana,
    {
        self.katakana
    }
}

/// Whether a letter is one that is doubled before a syllable to mark a
/// geminate: a consonant other than `n`.
pub open spec fn doubles(c: char) -> bool {
    'a' <= c && c <= 'z' && c != 'a' && c != 'i' && c != 'u' && c != 'e' && c != 'o' && c != 'n'
}

/// Whether the input opens with a geminate: a doubled consonant, or `t`
/// before `ch`.
pub open spec fn opens_geminate(input: Seq<char>) -> bool {
    ||| input.len() >= 2 && doubles(input[0]) && input[1] == input[0]
    ||| input.len() >= 3 && input[0] == 't' && input[1] == 'c' && input[2] == 'h'
}

/// A stretch that is written as the given kana.
pub open spec fn written(romaji: Seq<char>, kana: Kana) -> Piece {
    Piece { romaji, hiragana: kana.hiragana@, katakana: kana.katakana@ }
}

/// The first stretch of an input that is not empty: the longest syllable
/// of up to three letters; failing that, the first letter of a geminate,
/// as the small tsu; failing that, the first character as it is.
pub open spec fn head_piece(input: Seq<char>) -> Piece {
    if input.len() >= 3 && syllable_of(input.take(3)) is Some {
        written(input.take(3), syllable_of(input.take(3))->0)
    } else if input.len() >= 2 && syllable_of(input.take(2)) is Some {
        written(input.take(2), syllable_of(input.take(2))->0)
    } else if opens_geminate(input) {
        Piece { romaji: input.take(1), hiragana: "っ"@, katakana: "ッ"@ }
    } else if syllable_of(input.take(1)) is Some {
        written(input.take(1), syllable_of(input.take(1))->0)
    } else {
        Piece { romaji: input.take(1), hiragana: input.take(1), katakana: input.take(1) }
    }
}

/// The stretches of an input, in their order.
pub open spec fn segmented(input: Seq<char>) -> Seq<Piece>
    decreases input.len(),
{
    if input.len() == 0 {
        Seq::empty()
    } else {
        let head = head_piece(input);
        if 0 < head.romaji.len() <= input.len() {
            seq![head] + segmented(input.skip(head.romaji.len() as int))
        } else {
            Seq::empty()
        }
    }
}

/// What a list of segments holds.
pub open spec fn pieces(list: Seq<Segment>) -> Seq<Piece> {
    list.map_values(|s: Segment| s@)
}

/// The Latin letters of the stretches in a row.
pub open spec fn spelled_out(list: Seq<Piece>) -> Seq<char>
    decreases list.len(),
{
    if list.len() == 0 {
        Seq::empty()
    } else {
        list[0].romaji + spelled_out(list.skip(1))
    }
}

/// The stretches in a row, each in the kana of `mode`, or as it was typed
/// where the mode leaves input as it is.
pub open spec fn transliterated(list: Seq<Piece>, mode: Mode) -> Seq<char>
    decreases list.len(),
{
    if list.len() == 0 {
        Seq::empty()
    } else {
        transliterated(list.drop_last(), mode) + match mode {
            Mode::Unfiltered => list.last().romaji,
            Mode::Hiragana => list.last().hiragana,
            Mode::Katakana => list.last().katakana,
        }
    }
}

/// The stretches of an input spell the input: nothing is lost and nothing
/// is added.
pub proof fn lemma_segments_cover(input: Seq<char>)
    ensures
        spelled_out(segmented(input)) == input,
    decreases input.len(),
{
    if input.len() == 0 {
    } else {
        let head = head_piece(input);
        let rest = input.skip(head.romaji.len() as int);
        lemma_segments_cover(rest);
        let all = segmented(input);
        assert(all.skip(1) =~= segmented(rest));
        assert(head.romaji =~= input.take(head.romaji.len() as int));
        assert(input.take(head.romaji.len() as int) + rest =~= input);
    }
}

/// The segment at `at`, which lies within the input of `len` characters.
fn segment_at<'a>(input: &'a str, at: usize, len: usize) -> (found: (Segment<'a>, usize))
    requires
        len == input@.len(),
        at < len,
    ensures
        found.0@ == head_piece(input@.skip(at as int)),
        at < found.1 <= len,
        found.1 - at == found.0@.romaji.len(),
{
    let ghost rest = input@.skip(at as int);
    if len - at >= 3 {
        let three = input.substring_char(at, at + 3);
        assert(three@ =~= rest.take(3));
        match syllable(three) {
            Some(kana) => {
                return (
                    Segment { romaji: three, hiragana: kana.hiragana, katakana: kana.katakana },
                    at + 3,
                );
            },
            None => {},
        }
    }
    if len - at >= 2 {
        let two = input.substring_char(at, at + 2);
        assert(two@ =~= rest.take(2));
        match syllable(two) {
            Some(kana) => {
                return (
                    Segment { romaji: two, hiragana: kana.hiragana, katakana: kana.katakana },
                    at + 2,
                );
            },
            None => {},
        }
    }
    let one = input.substring_char(at, at + 1);
    assert(one@ =~= rest.take(1));
    let first = input.get_char(at);
    assert(rest[0] == first);
    let doubled = len - at >= 2 && {
        let second = input.get_char(at + 1);
        assert(rest[1] == second);
        'a' <= first && first <= 'z' && first != 'a' && first != 'i' && first != 'u' && first != 'e'
            && first != 'o' && first != 'n' && second == first
    };
    let tch = len - at >= 3 && first == 't' && {
        let second = input.get_char(at + 1);
        let third = input.get_char(at + 2);
        assert(rest[1] == second);
        assert(rest[2] == third);
        second == 'c' && third == 'h'
    };
    if doubled || tch {
        return (Segment { romaji: one, hiragana: "っ", katakana: "ッ" }, at + 1);
    }
    match syllable(one) {
        Some(kana) => (
            Segment { romaji: one, hiragana: kana.hiragana, katakana: kana.katakana },
            at + 1,
        ),
        None => (Segment { romaji: one, hiragana: one, katakana: one }, at + 1),
    }
}

/// `done` followed by the stretches of the input from `at` on.
spec fn continued(done: Seq<Piece>, input: Seq<char>, at: int) -> Seq<Piece> {
    done + segmented(input.skip(at))
}

/// Splits an input into stretches, each a syllable or a character that
/// is kept as it is.
pub fn analyze<'a>(input: &'a str) -> (segments: Vec<Segment<'a>>)
    ensures
        pieces(segments@) == segmented(input@),
        spelled_out(pieces(segments@)) == input@,
{
    let len = input.unicode_len();
    let mut segments: Vec<Segment<'a>> = Vec::new();
    let mut at: usize = 0;
    proof {
        assert(input@.skip(0) =~= input@);
        assert(pieces(segments@) + segmented(input@) =~= segmented(input@));
    }
    while at < len
        invariant
            at <= len,
            len == input@.len(),
            segmented(input@) == continued(pieces(segments@), input@, at as int),
        decreases len - at,
    {
        let ghost done = pieces(segments@);
        let ghost rest = input@.skip(at as int);
        let (segment, next) = segment_at(input, at, len);
        segments.push(segment);
        proof {
            assert(rest.skip(next - at) =~= input@.skip(next as int));
            assert(pieces(segments@) =~= done.push(segment@));
            assert(done + (seq![segment@] + segmented(input@.skip(next as int))) =~= done.push(
                segment@,
            ) + segmented(input@.skip(next as int)));
        }
        at = next;
    }
    proof {
        assert(input@.skip(len as int) =~= Seq::<char>::empty());
        assert(pieces(segments@) + Seq::<Piece>::empty() =~= pieces(segments@));
        lemma_segments_cover(input@);
    }
    segments
}

/// Writes an input in the kana of `mode`; in the mode that leaves input
/// as it is, the input comes back unchanged.
pub fn process_query(input: &str, mode: Mode) -> (out: String)
    ensures
        out@ == transliterated(segmented(input@), mode),
{
    let segments = analyze(input);
    let mut out = String::new();
    let mut n: usize = 0;
    let ghost all = pieces(segments@);
    assert(all.take(0) =~= Seq::<Piece>::empty());
    while n < segments.len()
        invariant
            n <= segments.len(),
            all == pieces(segments@),
            out@ == transliterated(all.take(n as int), mode),
        decreases segments.len() - n,
    {
        let segment = &segments[n];
        proof {
            assert(all.take(n + 1).drop_last() =~= all.take(n as int));
            assert(all.take(n + 1).last() == segment@);
        }
        match mode {
            Mode::Unfiltered => out.append(segment.romaji),
            Mode::Hiragana => out.append(segment.hiragana()),
            Mode::Katakana => out.append(segment.katakana()),
        }
        n = n + 1;
    }
    assert(all.take(segments.len() as int) =~= all);
    out
}

} // verus!
