//! The records of characters, and how each is laid out in words.
use vstd::prelude::*;

use vstd::string::*;
use vstd::utf8::encode_utf8;

use super::blobs::BLOB_MAX;
use super::interner::Arena;
use super::records::StrRef;
use crate::kanjidic2::character::{CharacterView, MeaningView};
use crate::kanjidic2::reading::ReadingView;

verus! {

/// What a [`CharacterRecord`] holds.
pub struct CharacterRow {
    pub literal: u32,
    pub stroke_count: u32,
    pub radicals: Seq<u32>,
    /// The readings, each as its text and its kind.
    pub readings: Seq<(StrRef, StrRef)>,
    /// The meanings, each as its text and its language, if it names one.
    pub meanings: Seq<(StrRef, Option<StrRef>)>,
}

/// A character as it lies in its column.
#[derive(Debug)]
pub struct CharacterRecord {
    pub literal: u32,
    pub stroke_count: u32,
    pub radicals: Vec<u32>,
    pub readings: Vec<(StrRef, StrRef)>,
    pub meanings: Vec<(StrRef, Option<StrRef>)>,
}

impl View for CharacterRecord {
    type V = CharacterRow;

    open spec fn view(&self) -> CharacterRow {
        CharacterRow {
            literal: self.literal,
            stroke_count: self.stroke_count,
            radicals: self.radicals@,
            readings: self.readings@,
            meanings: self.meanings@,
        }
    }
}

/// The words of readings, four each: the text, then the kind.
pub open spec fn pair_words(readings: Seq<(StrRef, StrRef)>) -> Seq<u32> {
    Seq::new(
        4 * readings.len(),
        |j: int|
            if j % 4 == 0 {
                readings[j / 4].0.offset
            } else if j % 4 == 1 {
                readings[j / 4].0.len
            } else if j % 4 == 2 {
                readings[j / 4].1.offset
            } else {
                readings[j / 4].1.len
            },
    )
}

/// The language of a meaning as words: where there is none, nothing at
/// the start of the arena.
pub open spec fn lang_ref(lang: Option<StrRef>) -> StrRef {
    match lang {
        Some(r) => r,
        None => StrRef { offset: 0, len: 0 },
    }
}

/// The words of meanings, five each: the text, whether there is a
/// language, and the language.
pub open spec fn meaning_words(meanings: Seq<(StrRef, Option<StrRef>)>) -> Seq<u32> {
    Seq::new(
        5 * meanings.len(),
        |j: int|
            if j % 5 == 0 {
                meanings[j / 5].0.offset
            } else if j % 5 == 1 {
                meanings[j / 5].0.len
            } else if j % 5 == 2 {
                if meanings[j / 5].1 is Some {
                    1u32
                } else {
                    0u32
                }
            } else if j % 5 == 3 {
                lang_ref(meanings[j / 5].1).offset
            } else {
                lang_ref(meanings[j / 5].1).len
            },
    )
}

/// The words of a character: the character, the number of its strokes,
/// the numbers of its radicals, readings and meanings, and then those.
pub open spec fn character_words(row: CharacterRow) -> Seq<u32> {
    seq![
        row.literal,
        row.stroke_count,
        row.radicals.len() as u32,
        row.readings.len() as u32,
        row.meanings.len() as u32,
    ] + row.radicals + pair_words(row.readings) + meaning_words(row.meanings)
}

/// Whether a character is short enough to be framed.
pub open spec fn character_fits(row: CharacterRow) -> bool {
    5 + row.radicals.len() + 4 * row.readings.len() + 5 * row.meanings.len() <= BLOB_MAX
}

/// The character that words hold, if they hold one.
pub open spec fn character_of(words: Seq<u32>) -> Option<CharacterRow> {
    if words.len() >= 5 && 5 + words[2] + 4 * words[3] + 5 * words[4] == words.len() && (forall|
        i: int,
    |
        0 <= i < words[4] ==> #[trigger] words[5 + words[2] + 4 * words[3] + 5 * i + 2] <= 1) {
        let radicals = 5;
        let readings = 5 + words[2];
        let meanings = 5 + words[2] + 4 * words[3];
        Some(
            CharacterRow {
                literal: words[0],
                stroke_count: words[1],
                radicals: words.subrange(radicals, readings),
                readings: Seq::new(
                    words[3] as nat,
                    |i: int|
                        (
                            StrRef {
                                offset: words[readings + 4 * i],
                                len: words[readings + 4 * i + 1],
                            },
                            StrRef {
                                offset: words[readings + 4 * i + 2],
                                len: words[readings + 4 * i + 3],
                            },
                        ),
                ),
                meanings: Seq::new(
                    words[4] as nat,
                    |i: int|
                        (
                            StrRef {
                                offset: words[meanings + 5 * i],
                                len: words[meanings + 5 * i + 1],
                            },
                            if words[meanings + 5 * i + 2] == 1 {
                                Some(
                                    StrRef {
                                        offset: words[meanings + 5 * i + 3],
                                        len: words[meanings + 5 * i + 4],
                                    },
                                )
                            } else {
                                None
                            },
                        ),
                ),
            },
        )
    } else {
        None
    }
}

/// A character is read back from its words.
pub proof fn lemma_character_round_trip(row: CharacterRow)
    requires
        character_fits(row),
    ensures
        character_of(character_words(row)) == Some(row),
{
    let words = character_words(row);
    let nr = row.radicals.len() as int;
    let nd = row.readings.len() as int;
    let nm = row.meanings.len() as int;
    assert(words.len() == 5 + nr + 4 * nd + 5 * nm);
    assert(words[2] == nr && words[3] == nd && words[4] == nm);
    assert forall|i: int| 0 <= i < nm implies #[trigger] words[5 + nr + 4 * nd + 5 * i + 2] <= 1 by {
        assert(words[5 + nr + 4 * nd + 5 * i + 2] == meaning_words(row.meanings)[5 * i + 2]);
    }
    let read = character_of(words).unwrap();
    assert(read.radicals =~= row.radicals);
    assert forall|i: int| 0 <= i < nd implies read.readings[i] == row.readings[i] by {
        assert(words[5 + nr + 4 * i] == pair_words(row.readings)[4 * i]);
        assert(words[5 + nr + 4 * i + 1] == pair_words(row.readings)[4 * i + 1]);
        assert(words[5 + nr + 4 * i + 2] == pair_words(row.readings)[4 * i + 2]);
        assert(words[5 + nr + 4 * i + 3] == pair_words(row.readings)[4 * i + 3]);
    }
    assert(read.readings =~= row.readings);
    assert forall|i: int| 0 <= i < nm implies read.meanings[i] == row.meanings[i] by {
        assert(words[5 + nr + 4 * nd + 5 * i] == meaning_words(row.meanings)[5 * i]);
        assert(words[5 + nr + 4 * nd + 5 * i + 1] == meaning_words(row.meanings)[5 * i + 1]);
        assert(words[5 + nr + 4 * nd + 5 * i + 2] == meaning_words(row.meanings)[5 * i + 2]);
        assert(words[5 + nr + 4 * nd + 5 * i + 3] == meaning_words(row.meanings)[5 * i + 3]);
        assert(words[5 + nr + 4 * nd + 5 * i + 4] == meaning_words(row.meanings)[5 * i + 4]);
    }
    assert(read.meanings =~= row.meanings);
}

impl CharacterRecord {
    /// The words of the character, unless it is too long to be framed.
    pub fn encode(&self) -> (words: Option<Vec<u32>>)
        ensures
            match words {
                Some(words) => character_fits(self@) && words@ == character_words(self@),
                None => !character_fits(self@),
            },
    {
        let limit = BLOB_MAX as u64;
        if self.radicals.len() as u64 > limit || self.readings.len() as u64 > limit
            || self.meanings.len() as u64 > limit {
            return None;
        }
        if 5 + self.radicals.len() as u64 + 4 * (self.readings.len() as u64) + 5 * (
        self.meanings.len() as u64) > limit {
            return None;
        }
        let mut words: Vec<u32> = Vec::new();
        words.push(self.literal);
        words.push(self.stroke_count);
        words.push(self.radicals.len() as u32);
        words.push(self.readings.len() as u32);
        words.push(self.meanings.len() as u32);
        let ghost head = words@;
        let mut n: usize = 0;
        assert(words@ =~= head + self.radicals@.take(0));
        while n < self.radicals.len()
            invariant
                n <= self.radicals.len(),
                words@ == head + self.radicals@.take(n as int),
            decreases self.radicals.len() - n,
        {
            words.push(self.radicals[n]);
            n = n + 1;
            assert(words@ =~= head + self.radicals@.take(n as int));
        }
        assert(self.radicals@.take(self.radicals.len() as int) =~= self.radicals@);
        let ghost with_radicals = words@;
        let mut n: usize = 0;
        assert(words@ =~= with_radicals + pair_words(self.readings@.take(0)));
        while n < self.readings.len()
            invariant
                n <= self.readings.len(),
                words@ == with_radicals + pair_words(self.readings@.take(n as int)),
            decreases self.readings.len() - n,
        {
            let (text, ty) = self.readings[n];
            words.push(text.offset);
            words.push(text.len);
            words.push(ty.offset);
            words.push(ty.len);
            n = n + 1;
            assert(words@ =~= with_radicals + pair_words(self.readings@.take(n as int)));
        }
        assert(self.readings@.take(self.readings.len() as int) =~= self.readings@);
        let ghost with_readings = words@;
        let mut n: usize = 0;
        assert(words@ =~= with_readings + meaning_words(self.meanings@.take(0)));
        while n < self.meanings.len()
            invariant
                n <= self.meanings.len(),
                words@ == with_readings + meaning_words(self.meanings@.take(n as int)),
            decreases self.meanings.len() - n,
        {
            let (text, lang) = self.meanings[n];
            words.push(text.offset);
            words.push(text.len);
            match lang {
                Some(lang) => {
                    words.push(1);
                    words.push(lang.offset);
                    words.push(lang.len);
                },
                None => {
                    words.push(0);
                    words.push(0);
                    words.push(0);
                },
            }
            n = n + 1;
            assert(words@ =~= with_readings + meaning_words(self.meanings@.take(n as int)));
        }
        assert(self.meanings@.take(self.meanings.len() as int) =~= self.meanings@);
        Some(words)
    }

    /// The character that words hold, if they hold one.
    #[verifier::loop_isolation(false)]
    pub fn decode(words: &Vec<u32>) -> (record: Option<CharacterRecord>)
        ensures
            match record {
                Some(record) => character_of(words@) == Some(record@),
                None => character_of(words@) is None,
            },
    {
        if words.len() < 5 {
            return None;
        }
        let nr = words[2] as u64;
        let nd = words[3] as u64;
        let nm = words[4] as u64;
        if 5 + nr + 4 * nd + 5 * nm != words.len() as u64 {
            return None;
        }
        let at_readings = 5 + words[2] as usize;
        let at_meanings = at_readings + 4 * (words[3] as usize);
        let mut radicals: Vec<u32> = Vec::new();
        let mut n: usize = 0;
        while n < words[2] as usize
            invariant
                n <= words[2],
                radicals@ == words@.subrange(5, 5 + n),
            decreases words[2] - n,
        {
            radicals.push(words[5 + n]);
            n = n + 1;
            assert(radicals@ =~= words@.subrange(5, 5 + n));
        }
        let mut readings: Vec<(StrRef, StrRef)> = Vec::new();
        let mut n: usize = 0;
        while n < words[3] as usize
            invariant
                n <= words[3],
                readings@.len() == n,
                forall|i: int|
                    0 <= i < n ==> readings@[i] == (
                        StrRef {
                            offset: words@[at_readings + 4 * i],
                            len: words@[at_readings + 4 * i + 1],
                        },
                        StrRef {
                            offset: words@[at_readings + 4 * i + 2],
                            len: words@[at_readings + 4 * i + 3],
                        },
                    ),
            decreases words[3] - n,
        {
            let at = at_readings + 4 * n;
            readings.push(
                (
                    StrRef { offset: words[at], len: words[at + 1] },
                    StrRef { offset: words[at + 2], len: words[at + 3] },
                ),
            );
            n = n + 1;
        }
        let mut meanings: Vec<(StrRef, Option<StrRef>)> = Vec::new();
        let mut n: usize = 0;
        while n < words[4] as usize
            invariant
                n <= words[4],
                meanings@.len() == n,
                forall|i: int| 0 <= i < n ==> #[trigger] words@[at_meanings + 5 * i + 2] <= 1,
                forall|i: int|
                    0 <= i < n ==> meanings@[i] == (
                        StrRef {
                            offset: words@[at_meanings + 5 * i],
                            len: words@[at_meanings + 5 * i + 1],
                        },
                        if words@[at_meanings + 5 * i + 2] == 1 {
                            Some(
                                StrRef {
                                    offset: words@[at_meanings + 5 * i + 3],
                                    len: words@[at_meanings + 5 * i + 4],
                                },
                            )
                        } else {
                            None::<StrRef>
                        },
                    ),
            decreases words[4] - n,
        {
            let at = at_meanings + 5 * n;
            if words[at + 2] > 1 {
                assert(!(words@[at_meanings + 5 * (n as int) + 2] <= 1));
                return None;
            }
            let lang = if words[at + 2] == 1 {
                Some(StrRef { offset: words[at + 3], len: words[at + 4] })
            } else {
                None
            };
            meanings.push((StrRef { offset: words[at], len: words[at + 1] }, lang));
            n = n + 1;
        }
        let record = CharacterRecord {
            literal: words[0],
            stroke_count: words[1],
            radicals,
            readings,
            meanings,
        };
        proof {
            let row = character_of(words@).unwrap();
            assert(record@.radicals =~= row.radicals);
            assert(record@.readings =~= row.readings);
            assert(record@.meanings =~= row.meanings);
        }
        Some(record)
    }
}

/// The arena after readings were handed in one after the other, each
/// with its text first and then its kind, and where each lies; nothing
/// where there is no room for one of them.
pub open spec fn stored_pairs(arena: Arena, readings: Seq<ReadingView>) -> Option<
    (Arena, Seq<(StrRef, StrRef)>),
>
    decreases readings.len(),
{
    if readings.len() == 0 {
        Some((arena, Seq::empty()))
    } else {
        match stored_pairs(arena, readings.drop_last()) {
            Some((arena, refs)) => match arena.interned(encode_utf8(readings.last().text)) {
                Some((arena, text)) => match arena.interned(encode_utf8(readings.last().ty)) {
                    Some((arena, ty)) => Some((arena, refs.push((text, ty)))),
                    None => None,
                },
                None => None,
            },
            None => None,
        }
    }
}

/// The arena after a meaning was handed in, its text first and then its
/// language, and where it lies.
pub open spec fn stored_meaning(arena: Arena, meaning: MeaningView) -> Option<
    (Arena, (StrRef, Option<StrRef>)),
> {
    match arena.interned(encode_utf8(meaning.text)) {
        Some((arena, text)) => match meaning.lang {
            Some(lang) => match arena.interned(encode_utf8(lang)) {
                Some((arena, lang)) => Some((arena, (text, Some(lang)))),
                None => None,
            },
            None => Some((arena, (text, None))),
        },
        None => None,
    }
}

/// The arena after meanings were handed in one after the other, and
/// where each lies; nothing where there is no room for one of them.
pub open spec fn stored_meanings(arena: Arena, meanings: Seq<MeaningView>) -> Option<
    (Arena, Seq<(StrRef, Option<StrRef>)>),
>
    decreases meanings.len(),
{
    if meanings.len() == 0 {
        Some((arena, Seq::empty()))
    } else {
        match stored_meanings(arena, meanings.drop_last()) {
            Some((arena, refs)) => match stored_meaning(arena, meanings.last()) {
                Some((arena, r)) => Some((arena, refs.push(r))),
                None => None,
            },
            None => None,
        }
    }
}

/// The arena after a character was handed in, and its record: the
/// readings go in first, then the meanings.
pub open spec fn stored_character(arena: Arena, character: CharacterView) -> Option<
    (Arena, CharacterRow),
> {
    match stored_pairs(arena, character.reading_meaning.readings) {
        Some((arena, readings)) => match stored_meanings(arena, character.reading_meaning.meanings) {
            Some((arena, meanings)) => {
                let row = CharacterRow {
                    literal: character.literal as u32,
                    stroke_count: character.stroke_count as u32,
                    radicals: character.radicals,
                    readings,
                    meanings,
                };
                if character_fits(row) {
                    Some((arena, row))
                } else {
                    None
                }
            },
            None => None,
        },
        None => None,
    }
}

/// How many of the first `n` literals of a map come before a character.
pub open spec fn count_below(literals: Seq<(u32, u32)>, literal: u32, n: int) -> int
    decreases n,
{
    if n <= 0 {
        0
    } else if literals[n - 1].0 < literal {
        count_below(literals, literal, n - 1) + 1
    } else {
        count_below(literals, literal, n - 1)
    }
}

/// Whether a map of literals lists a character.
pub open spec fn lists_literal(literals: Seq<(u32, u32)>, literal: u32) -> bool {
    exists|k: int| 0 <= k < literals.len() && (#[trigger] literals[k]).0 == literal
}

/// A map of literals with one more character listed, behind those that
/// come before it.
pub open spec fn with_literal(literals: Seq<(u32, u32)>, literal: u32, at: u32) -> Seq<(u32, u32)> {
    literals.insert(count_below(literals, literal, literals.len() as int), (literal, at))
}

/// Whether the literals of a map rise.
pub open spec fn literals_rise(literals: Seq<(u32, u32)>) -> bool {
    forall|i: int, j: int|
        0 <= i < j < literals.len() ==> (#[trigger] literals[i]).0 < (#[trigger] literals[j]).0
}

/// In a map whose literals rise, those that come before a character are
/// the first ones.
pub proof fn lemma_count_below(literals: Seq<(u32, u32)>, literal: u32, n: int)
    requires
        literals_rise(literals),
        0 <= n <= literals.len(),
    ensures
        0 <= count_below(literals, literal, n) <= n,
        forall|k: int|
            0 <= k < count_below(literals, literal, n) ==> (#[trigger] literals[k]).0 < literal,
        forall|k: int|
            count_below(literals, literal, n) <= k < n ==> (#[trigger] literals[k]).0 >= literal,
    decreases n,
{
    if n > 0 {
        lemma_count_below(literals, literal, n - 1);
        let c = count_below(literals, literal, n - 1);
        if literals[n - 1].0 < literal {
            assert forall|k: int| 0 <= k < c + 1 implies (#[trigger] literals[k]).0 < literal by {
                if k < n - 1 {
                    assert(literals[k].0 < literals[n - 1].0);
                }
            }
            assert(c == n - 1) by {
                if c < n - 1 {
                    assert(literals[c].0 >= literal);
                    assert(literals[c].0 < literals[n - 1].0);
                }
            }
        }
    }
}

/// A map whose literals rise keeps them rising when a character is
/// listed that it did not list.
pub proof fn lemma_with_literal(literals: Seq<(u32, u32)>, literal: u32, at: u32)
    requires
        literals_rise(literals),
        !lists_literal(literals, literal),
    ensures
        literals_rise(with_literal(literals, literal, at)),
        with_literal(literals, literal, at).len() == literals.len() + 1,
        forall|k: int|
            0 <= k < literals.len() ==> with_literal(literals, literal, at).contains(
                #[trigger] literals[k],
            ),
        with_literal(literals, literal, at).contains((literal, at)),
        forall|k: int|
            0 <= k < with_literal(literals, literal, at).len() ==> (#[trigger] with_literal(
                literals,
                literal,
                at,
            )[k]) == (literal, at) || literals.contains(with_literal(literals, literal, at)[k]),
{
    let n = literals.len() as int;
    lemma_count_below(literals, literal, n);
    let c = count_below(literals, literal, n);
    let after = with_literal(literals, literal, at);
    assert forall|i: int, j: int| 0 <= i < j < after.len() implies (#[trigger] after[i]).0 < (
    #[trigger] after[j]).0 by {
        if j < c {
            assert(after[i] == literals[i] && after[j] == literals[j]);
        } else if j == c {
            assert(after[i] == literals[i]);
        } else if i < c {
            assert(after[i] == literals[i] && after[j] == literals[j - 1]);
        } else if i == c {
            assert(after[j] == literals[j - 1]);
            assert(literals[j - 1].0 >= literal);
            assert(literals[j - 1].0 != literal);
        } else {
            assert(after[i] == literals[i - 1] && after[j] == literals[j - 1]);
        }
    }
    assert forall|k: int| 0 <= k < literals.len() implies after.contains(
        #[trigger] literals[k],
    ) by {
        if k < c {
            assert(after[k] == literals[k]);
        } else {
            assert(after[k + 1] == literals[k]);
        }
    }
    assert(after[c] == (literal, at));
    assert forall|k: int| 0 <= k < after.len() implies (#[trigger] after[k]) == (literal, at)
        || literals.contains(after[k]) by {
        if k < c {
            assert(after[k] == literals[k]);
        } else if k > c {
            assert(after[k] == literals[k - 1]);
        }
    }
}

/// The words of a map of literals: each character with the position of
/// its record.
pub open spec fn literal_words(literals: Seq<(u32, u32)>) -> Seq<u32> {
    Seq::new(
        2 * literals.len(),
        |j: int|
            if j % 2 == 0 {
                literals[j / 2].0
            } else {
                literals[j / 2].1
            },
    )
}

/// The map of literals that words hold, where their number is even.
pub open spec fn literals_of(words: Seq<u32>) -> Option<Seq<(u32, u32)>> {
    if words.len() % 2 == 0 {
        Some(Seq::new((words.len() / 2) as nat, |i: int| (words[2 * i], words[2 * i + 1])))
    } else {
        None
    }
}

/// A map of literals is read back from its words.
pub proof fn lemma_literals_round_trip(literals: Seq<(u32, u32)>)
    ensures
        literals_of(literal_words(literals)) == Some(literals),
{
    assert(literals_of(literal_words(literals)).unwrap() =~= literals);
}

/// The words of a map of literals.
pub fn encode_literals(literals: &Vec<(u32, u32)>) -> (words: Vec<u32>)
    ensures
        words@ == literal_words(literals@),
{
    let mut words: Vec<u32> = Vec::new();
    let mut n: usize = 0;
    assert(words@ =~= literal_words(literals@.take(0)));
    while n < literals.len()
        invariant
            n <= literals.len(),
            words@ == literal_words(literals@.take(n as int)),
        decreases literals.len() - n,
    {
        words.push(literals[n].0);
        words.push(literals[n].1);
        n = n + 1;
        assert(words@ =~= literal_words(literals@.take(n as int)));
    }
    assert(literals@.take(literals.len() as int) =~= literals@);
    words
}

/// The map of literals that words hold, where their number is even.
pub fn decode_literals(words: &Vec<u32>) -> (literals: Option<Vec<(u32, u32)>>)
    ensures
        match literals {
            Some(literals) => literals_of(words@) == Some(literals@),
            None => literals_of(words@) is None,
        },
{
    if words.len() % 2 != 0 {
        return None;
    }
    let count = words.len() / 2;
    let mut literals: Vec<(u32, u32)> = Vec::new();
    let mut n: usize = 0;
    while n < count
        invariant
            n <= count,
            2 * count == words.len(),
            literals@.len() == n,
            forall|i: int| 0 <= i < n ==> literals@[i] == (words@[2 * i], words@[2 * i + 1]),
        decreases count - n,
    {
        literals.push((words[2 * n], words[2 * n + 1]));
        n = n + 1;
    }
    assert(literals@ =~= literals_of(words@).unwrap());
    Some(literals)
}

} // verus!
