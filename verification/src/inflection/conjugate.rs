//! The conjugation of an entry: every reading of it, as every part of
//! speech that one of its senses names.
use vstd::prelude::*;

use super::engine::{inflect, inflected, Kind};
use super::table::{surfaces_of, Inflections, InflectionsView};
use crate::query::texts;
use crate::entities::{PartOfSpeech, PosSet};
use crate::jmdict::entry::{Entry, EntryView};
use crate::kana::{Full, Spelling};
use crate::text::lemma_empty_literal;

verus! {

/// A value that may be absent, laid out for storage.
#[derive(Clone, Copy, Debug, PartialEq, Eq, Hash, PartialOrd, Ord)]
pub enum ReadingOption<T> {
    Absent,
    Present(T),
}

/// The reading which a set of inflections belongs to.
#[derive(Clone, Copy, Debug, PartialEq, Eq, Structural, Hash, PartialOrd, Ord)]
pub struct Reading {
    /// Index of the written form that the reading is paired with, or
    /// [`u8::MAX`] where it is paired with none.
    pub kanji: u8,
    /// Index of the reading.
    pub reading: u8,
}

/// One way to take an entry: a reading by its index and text, and the
/// written form that it is paired with, if any.
pub struct Pairing {
    pub kanji: Option<(usize, Seq<char>)>,
    pub reading: (usize, Seq<char>),
}

impl Pairing {
    /// The written form, or the reading where there is none.
    pub open spec fn text(self) -> Seq<char> {
        match self.kanji {
            Some((_, text)) => text,
            None => self.reading.1,
        }
    }

    /// The indices of the pairing, each reduced to eight bits; a pairing
    /// without a written form has [`u8::MAX`] in its place.
    pub open spec fn key(self) -> Reading {
        Reading {
            kanji: match self.kanji {
                Some((index, _)) => (index % 256) as u8,
                None => u8::MAX,
            },
            reading: (self.reading.0 % 256) as u8,
        }
    }
}

/// What a borrowed pairing stands for.
pub open spec fn pairing_of(p: (Option<(usize, &str)>, (usize, &str))) -> Pairing {
    Pairing {
        kanji: match p.0 {
            Some((index, text)) => Some((index, text@)),
            None => None,
        },
        reading: (p.1.0, p.1.1@),
    }
}

/// What a list of borrowed pairings stands for.
pub open spec fn pairings_of(list: Seq<(Option<(usize, &str)>, (usize, &str))>) -> Seq<Pairing> {
    list.map_values(|p: (Option<(usize, &str)>, (usize, &str))| pairing_of(p))
}

/// The pairings of reading `r` with those of the first `n` written forms
/// that it applies to, in their order.
pub open spec fn kanji_pairings(entry: EntryView, r: int, n: int) -> Seq<Pairing>
    decreases n,
{
    if n <= 0 {
        Seq::empty()
    } else {
        let rest = kanji_pairings(entry, r, n - 1);
        if entry.reading_elements[r].applies_to(entry.kanji_elements[n - 1].text) {
            rest.push(
                Pairing {
                    kanji: Some(((n - 1) as usize, entry.kanji_elements[n - 1].text)),
                    reading: (r as usize, entry.reading_elements[r].text),
                },
            )
        } else {
            rest
        }
    }
}

/// The pairings of reading `r`: the reading alone where it is marked as
/// standing alone or the entry has no written form, else one with each
/// written form that it applies to.
pub open spec fn reading_pairings(entry: EntryView, r: int) -> Seq<Pairing> {
    if entry.reading_elements[r].no_kanji || entry.kanji_elements.len() == 0 {
        seq![Pairing { kanji: None, reading: (r as usize, entry.reading_elements[r].text) }]
    } else {
        kanji_pairings(entry, r, entry.kanji_elements.len() as int)
    }
}

/// The pairings of the first `n` readings, in their order.
pub open spec fn pairings_upto(entry: EntryView, n: int) -> Seq<Pairing>
    decreases n,
{
    if n <= 0 {
        Seq::empty()
    } else {
        pairings_upto(entry, n - 1) + reading_pairings(entry, n - 1)
    }
}

/// All pairings of an entry: readings in their order, and for each reading
/// the written forms in theirs.
pub open spec fn pairings(entry: EntryView) -> Seq<Pairing> {
    pairings_upto(entry, entry.reading_elements.len() as int)
}

/// The ways to take an entry, each a reading and the written form that it
/// is paired with, both with their index in the entry.
pub fn reading_permutations<'a>(entry: &Entry<'a>) -> (readings: Vec<
    (Option<(usize, &'a str)>, (usize, &'a str)),
>)
    ensures
        pairings_of(readings@) == pairings(entry@),
{
    let mut readings: Vec<(Option<(usize, &'a str)>, (usize, &'a str))> = Vec::new();
    let mut r: usize = 0;
    while r < entry.reading_elements.len()
        invariant
            r <= entry.reading_elements.len(),
            pairings_of(readings@) == pairings_upto(entry@, r as int),
        decreases entry.reading_elements.len() - r,
    {
        let reading = &entry.reading_elements[r];
        let ghost before = readings@;
        assert(entry@.reading_elements[r as int] == reading@);
        if reading.no_kanji || entry.kanji_elements.len() == 0 {
            readings.push((None, (r, reading.text)));
            assert(pairings_of(readings@) =~= pairings_of(before) + reading_pairings(
                entry@,
                r as int,
            ));
        } else {
            let mut k: usize = 0;
            assert(pairings_of(readings@) =~= pairings_of(before) + kanji_pairings(
                entry@,
                r as int,
                0,
            ));
            while k < entry.kanji_elements.len()
                invariant
                    k <= entry.kanji_elements.len(),
                    r < entry.reading_elements.len(),
                    reading == &entry.reading_elements[r as int],
                    entry@.reading_elements[r as int] == reading@,
                    pairings_of(readings@) == pairings_of(before) + kanji_pairings(
                        entry@,
                        r as int,
                        k as int,
                    ),
                decreases entry.kanji_elements.len() - k,
            {
                let kanji = &entry.kanji_elements[k];
                let ghost sofar = readings@;
                assert(entry@.kanji_elements[k as int] == kanji@);
                if reading.applies_to(kanji.text) {
                    readings.push((Some((k, kanji.text)), (r, reading.text)));
                    assert(pairings_of(readings@) =~= pairings_of(sofar).push(
                        Pairing {
                            kanji: Some((k, kanji.text@)),
                            reading: (r, reading.text@),
                        },
                    ));
                }
                k = k + 1;
                assert(pairings_of(readings@) =~= pairings_of(before) + kanji_pairings(
                    entry@,
                    r as int,
                    k as int,
                ));
            }
        }
        r = r + 1;
    }
    readings
}

/// The parts of speech that the senses of an entry name.
pub fn parts_of_speech(entry: &Entry<'_>) -> (pos: PosSet)
    ensures
        pos@ == entry@.parts_of_speech(),
{
    let mut pos = PosSet::new();
    let mut i: usize = 0;
    while i < entry.senses.len()
        invariant
            i <= entry.senses.len(),
            pos@ == entry@.parts_of_speech_upto(i as int),
        decreases entry.senses.len() - i,
    {
        assert(entry@.senses[i as int] == entry.senses[i as int]@);
        pos = pos.union(entry.senses[i].pos);
        i = i + 1;
    }
    pos
}

/// One result of the conjugation: the reading it belongs to, the
/// inflections, and the kind of word.
pub type Conjugated = (Reading, InflectionsView, Kind);

/// What a list of results stands for.
pub open spec fn conjugations_of(list: Seq<(Reading, Inflections, Kind)>) -> Seq<Conjugated> {
    list.map_values(|c: (Reading, Inflections, Kind)| (c.0, c.1@, c.2))
}

/// What one pairing gives as one part of speech: a single result where the
/// word is inflected, none where it is not.
pub open spec fn conjugated_pairing(pos: PartOfSpeech, pairing: Pairing) -> Seq<Conjugated> {
    match inflected(pos, pairing.text(), pairing.reading.1) {
        Some((forms, kind)) => seq![
            (
                pairing.key(),
                InflectionsView {
                    dictionary: Spelling {
                        text: pairing.text(),
                        reading: pairing.reading.1,
                        suffix: Seq::empty(),
                    },
                    inflections: forms,
                },
                kind,
            ),
        ],
        None => Seq::empty(),
    }
}

/// What the pairings give as one part of speech, in their order.
pub open spec fn conjugated_as(pos: PartOfSpeech, pairings: Seq<Pairing>) -> Seq<Conjugated>
    decreases pairings.len(),
{
    if pairings.len() == 0 {
        Seq::empty()
    } else {
        conjugated_as(pos, pairings.drop_last()) + conjugated_pairing(pos, pairings.last())
    }
}

/// What pairings give one list after the other is what the first list
/// gives and then what the second gives.
pub proof fn lemma_conjugated_as_joined(pos: PartOfSpeech, first: Seq<Pairing>, second: Seq<Pairing>)
    ensures
        conjugated_as(pos, first + second) == conjugated_as(pos, first) + conjugated_as(
            pos,
            second,
        ),
    decreases second.len(),
{
    if second.len() == 0 {
        assert(first + second =~= first);
        assert(conjugated_as(pos, first) + Seq::<Conjugated>::empty() =~= conjugated_as(pos, first));
    } else {
        lemma_conjugated_as_joined(pos, first, second.drop_last());
        assert((first + second).drop_last() =~= first + second.drop_last());
        assert((first + second).last() == second.last());
        assert(conjugated_as(pos, first + second) =~= conjugated_as(pos, first) + conjugated_as(
            pos,
            second,
        ));
    }
}

/// A pairing that is not inflected as a part of speech is passed over,
/// and the pairings around it give what they give without it.
pub proof fn lemma_pairing_passed_over(
    pos: PartOfSpeech,
    before: Seq<Pairing>,
    pairing: Pairing,
    after: Seq<Pairing>,
)
    requires
        inflected(pos, pairing.text(), pairing.reading.1) is None,
    ensures
        conjugated_as(pos, before.push(pairing) + after) == conjugated_as(pos, before + after),
{
    lemma_conjugated_as_joined(pos, before.push(pairing), after);
    lemma_conjugated_as_joined(pos, before, after);
    assert(before.push(pairing).drop_last() =~= before);
    assert(conjugated_as(pos, before.push(pairing)) =~= conjugated_as(pos, before));
}

/// What the pairings give as each of the parts of speech, in their order.
pub open spec fn conjugated_all(parts: Seq<PartOfSpeech>, pairings: Seq<Pairing>) -> Seq<
    Conjugated,
>
    decreases parts.len(),
{
    if parts.len() == 0 {
        Seq::empty()
    } else {
        conjugated_all(parts.drop_last(), pairings) + conjugated_as(parts.last(), pairings)
    }
}

/// The conjugation of an entry: for each part of speech of its senses, in
/// the order of the closed list, and for each pairing, in the entry's
/// order, the inflections of the pairing where the part of speech is
/// inflected and the word has the shape of its class.
pub open spec fn conjugated(entry: EntryView) -> Seq<Conjugated> {
    conjugated_all(PosSet::ordered(entry.parts_of_speech()), pairings(entry))
}

/// Conjugates an entry.
pub fn conjugate<'a>(entry: &Entry<'a>) -> (output: Vec<(Reading, Inflections<'a>, Kind)>)
    ensures
        conjugations_of(output@) == conjugated(entry@),
{
    let mut output: Vec<(Reading, Inflections<'a>, Kind)> = Vec::new();
    let readings = reading_permutations(entry);
    let parts = parts_of_speech(entry).to_vec();
    let ghost pairs = pairings(entry@);
    let mut p: usize = 0;
    assert(parts@.take(0) =~= Seq::<PartOfSpeech>::empty());
    assert(conjugations_of(output@) =~= Seq::<Conjugated>::empty());
    while p < parts.len()
        invariant
            p <= parts.len(),
            pairings_of(readings@) == pairs,
            conjugations_of(output@) == conjugated_all(parts@.take(p as int), pairs),
        decreases parts.len() - p,
    {
        let pos = parts[p];
        let ghost before = conjugations_of(output@);
        let mut j: usize = 0;
        assert(pairs.take(0) =~= Seq::<Pairing>::empty());
        assert(conjugations_of(output@) =~= before + conjugated_as(pos, pairs.take(0)));
        assert(pairs.len() == readings@.len());
        while j < readings.len()
            invariant
                j <= readings.len(),
                pairs.len() == readings@.len(),
                pairings_of(readings@) == pairs,
                conjugations_of(output@) == before + conjugated_as(pos, pairs.take(j as int)),
            decreases readings.len() - j,
        {
            let (kanji, reading) = readings[j];
            let ghost pairing = pairs[j as int];
            let ghost sofar = conjugations_of(output@);
            assert(pairing == pairing_of(readings@[j as int]));
            let (_, kanji_text) = match kanji {
                Some(k) => k,
                None => reading,
            };
            let (reading_index, reading_text) = reading;
            proof {
                assert(pairs.take(j + 1).drop_last() =~= pairs.take(j as int));
                assert(pairs.take(j + 1).last() == pairing);
                lemma_empty_literal();
            }
            match inflect(pos, kanji_text, reading_text) {
                Some((forms, kind)) => {
                    let key = Reading {
                        kanji: match kanji {
                            Some((index, _)) => (index % 256) as u8,
                            None => u8::MAX,
                        },
                        reading: (reading_index % 256) as u8,
                    };
                    let inflections = Inflections {
                        dictionary: Full::new(kanji_text, reading_text, ""),
                        inflections: forms,
                    };
                    output.push((key, inflections, kind));
                    assert(conjugations_of(output@) =~= sofar + conjugated_pairing(pos, pairing));
                },
                None => {
                    assert(conjugations_of(output@) =~= sofar + conjugated_pairing(pos, pairing));
                },
            }
            j = j + 1;
        }
        proof {
            assert(pairs.take(readings.len() as int) =~= pairs);
            assert(parts@.take(p + 1).drop_last() =~= parts@.take(p as int));
            assert(parts@.take(p + 1).last() == pos);
        }
        p = p + 1;
    }
    assert(parts@.take(parts.len() as int) =~= parts@);
    output
}

/// The surface forms of the first `n` results of a conjugation, result
/// by result.
pub open spec fn conjugated_surfaces(list: Seq<Conjugated>, n: int) -> Seq<Seq<char>>
    decreases n,
{
    if n <= 0 {
        Seq::empty()
    } else {
        conjugated_surfaces(list, n - 1) + surfaces_of(list[n - 1].1.inflections)
    }
}

/// The inflected surface forms of an entry: those of each result of its
/// conjugation, as written and as read.
pub open spec fn entry_surfaces(entry: EntryView) -> Seq<Seq<char>> {
    conjugated_surfaces(conjugated(entry), conjugated(entry).len() as int)
}

/// The inflected surface forms of an entry.
pub fn surfaces(entry: &Entry<'_>) -> (out: Vec<String>)
    ensures
        texts(out@) == entry_surfaces(entry@),
{
    let list = conjugate(entry);
    let ghost all = conjugations_of(list@);
    let mut out: Vec<String> = Vec::new();
    let mut n: usize = 0;
    assert(texts(out@) =~= conjugated_surfaces(all, 0));
    while n < list.len()
        invariant
            n <= list.len(),
            all == conjugations_of(list@),
            all == conjugated(entry@),
            texts(out@) == conjugated_surfaces(all, n as int),
        decreases list.len() - n,
    {
        let ghost before = texts(out@);
        assert(all[n as int].1 == list@[n as int].1@);
        let mut forms = list[n].1.inflections.surfaces();
        let ghost added = texts(forms@);
        out.append(&mut forms);
        n = n + 1;
        assert(texts(out@) =~= before + added);
    }
    out
}

} // verus!
