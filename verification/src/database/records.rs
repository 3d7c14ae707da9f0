//! The records of the columns, and how each is laid out in words.
use vstd::prelude::*;

use crate::jmdict::entry::{Priority, PriorityKind};

verus! {

/// A string in the arena: where it begins, and how many bytes it takes.
#[derive(Clone, Copy, Debug, PartialEq, Eq, Structural, Hash)]
pub struct StrRef {
    pub offset: u32,
    pub len: u32,
}

/// A run of records in a column: the position of the first, and their
/// number.
#[derive(Clone, Copy, Debug, PartialEq, Eq, Structural, Hash)]
pub struct Span {
    pub start: u32,
    pub count: u32,
}

/// References in a row, two words each.
pub open spec fn ref_words(refs: Seq<StrRef>) -> Seq<u32> {
    Seq::new(
        2 * refs.len(),
        |j: int|
            if j % 2 == 0 {
                refs[j / 2].offset
            } else {
                refs[j / 2].len
            },
    )
}

/// The references that words hold, where their number is even.
pub open spec fn refs_of(words: Seq<u32>) -> Option<Seq<StrRef>> {
    if words.len() % 2 == 0 {
        Some(
            Seq::new(
                (words.len() / 2) as nat,
                |i: int| StrRef { offset: words[2 * i], len: words[2 * i + 1] },
            ),
        )
    } else {
        None
    }
}

/// References are read back from their words.
pub proof fn lemma_refs_round_trip(refs: Seq<StrRef>)
    ensures
        refs_of(ref_words(refs)) == Some(refs),
{
    assert(refs_of(ref_words(refs)).unwrap() =~= refs);
}

/// Adds the words of references to a record.
pub fn put_refs(blob: &mut Vec<u32>, refs: &Vec<StrRef>)
    ensures
        final(blob)@ == old(blob)@ + ref_words(refs@),
{
    let mut n: usize = 0;
    assert(old(blob)@ + ref_words(refs@.take(0)) =~= old(blob)@);
    while n < refs.len()
        invariant
            n <= refs.len(),
            blob@ == old(blob)@ + ref_words(refs@.take(n as int)),
        decreases refs.len() - n,
    {
        blob.push(refs[n].offset);
        blob.push(refs[n].len);
        n = n + 1;
        assert(blob@ =~= old(blob)@ + ref_words(refs@.take(n as int)));
    }
    assert(refs@.take(refs.len() as int) =~= refs@);
}

/// The references that the words of a record hold from `from` up to `to`.
pub(crate) fn get_refs(blob: &Vec<u32>, from: usize, to: usize) -> (refs: Option<Vec<StrRef>>)
    requires
        from <= to <= blob.len(),
    ensures
        match refs {
            Some(refs) => refs_of(blob@.subrange(from as int, to as int)) == Some(refs@),
            None => refs_of(blob@.subrange(from as int, to as int)) is None,
        },
{
    if (to - from) % 2 != 0 {
        return None;
    }
    let count = (to - from) / 2;
    let ghost words = blob@.subrange(from as int, to as int);
    let mut refs: Vec<StrRef> = Vec::new();
    let mut n: usize = 0;
    while n < count
        invariant
            n <= count,
            2 * count == to - from,
            from <= to <= blob.len(),
            words == blob@.subrange(from as int, to as int),
            refs@.len() == n,
            forall|i: int|
                0 <= i < n ==> refs@[i] == (StrRef { offset: words[2 * i], len: words[2 * i + 1] }),
        decreases count - n,
    {
        refs.push(StrRef { offset: blob[from + 2 * n], len: blob[from + 2 * n + 1] });
        n = n + 1;
    }
    assert(refs@ =~= refs_of(words).unwrap());
    Some(refs)
}

/// The position of a family of priority tags.
pub open spec fn kind_index(kind: PriorityKind) -> u32 {
    match kind {
        PriorityKind::News => 0,
        PriorityKind::Ichi => 1,
        PriorityKind::Spec => 2,
        PriorityKind::Gai => 3,
        PriorityKind::Nf => 4,
    }
}

/// The word of a priority: its family in the higher byte, its level in the
/// lower.
pub open spec fn priority_word(priority: Priority) -> u32 {
    (kind_index(priority.kind) * 256 + priority.level) as u32
}

/// The priority that a word holds, if it holds one.
pub open spec fn priority_of(word: u32) -> Option<Priority> {
    let level = (word % 256) as u8;
    if word / 256 == 0 {
        Some(Priority { kind: PriorityKind::News, level })
    } else if word / 256 == 1 {
        Some(Priority { kind: PriorityKind::Ichi, level })
    } else if word / 256 == 2 {
        Some(Priority { kind: PriorityKind::Spec, level })
    } else if word / 256 == 3 {
        Some(Priority { kind: PriorityKind::Gai, level })
    } else if word / 256 == 4 {
        Some(Priority { kind: PriorityKind::Nf, level })
    } else {
        None
    }
}

/// The priorities that words hold, if each holds one.
pub open spec fn priorities_of(words: Seq<u32>) -> Option<Seq<Priority>> {
    if forall|i: int| 0 <= i < words.len() ==> (#[trigger] priority_of(words[i])) is Some {
        Some(Seq::new(words.len(), |i: int| priority_of(words[i]).unwrap()))
    } else {
        None
    }
}

/// The words of priorities.
pub open spec fn priority_words(priorities: Seq<Priority>) -> Seq<u32> {
    Seq::new(priorities.len(), |i: int| priority_word(priorities[i]))
}

/// Priorities are read back from their words.
pub proof fn lemma_priorities_round_trip(priorities: Seq<Priority>)
    ensures
        priorities_of(priority_words(priorities)) == Some(priorities),
{
    let words = priority_words(priorities);
    assert forall|i: int| 0 <= i < words.len() implies (#[trigger] priority_of(words[i])) == Some(
        priorities[i],
    ) by {}
    assert(priorities_of(words).unwrap() =~= priorities);
}

fn encode_priority(priority: Priority) -> (word: u32)
    ensures
        word == priority_word(priority),
{
    let kind: u32 = match priority.kind {
        PriorityKind::News => 0,
        PriorityKind::Ichi => 1,
        PriorityKind::Spec => 2,
        PriorityKind::Gai => 3,
        PriorityKind::Nf => 4,
    };
    kind * 256 + priority.level as u32
}

fn decode_priority(word: u32) -> (priority: Option<Priority>)
    ensures
        priority == priority_of(word),
{
    let level = (word % 256) as u8;
    let kind = word / 256;
    if kind == 0 {
        Some(Priority { kind: PriorityKind::News, level })
    } else if kind == 1 {
        Some(Priority { kind: PriorityKind::Ichi, level })
    } else if kind == 2 {
        Some(Priority { kind: PriorityKind::Spec, level })
    } else if kind == 3 {
        Some(Priority { kind: PriorityKind::Gai, level })
    } else if kind == 4 {
        Some(Priority { kind: PriorityKind::Nf, level })
    } else {
        None
    }
}

/// What a [`ReadingRecord`] holds.
pub struct ReadingRow {
    pub text: StrRef,
    pub no_kanji: bool,
    pub restrict: Seq<StrRef>,
}

/// A reading as it lies in its column.
#[derive(Debug)]
pub struct ReadingRecord {
    pub text: StrRef,
    pub no_kanji: bool,
    pub restrict: Vec<StrRef>,
}

impl View for ReadingRecord {
    type V = ReadingRow;

    open spec fn view(&self) -> ReadingRow {
        ReadingRow { text: self.text, no_kanji: self.no_kanji, restrict: self.restrict@ }
    }
}

/// The words of a reading: its text, its mark, and the written forms that
/// it is limited to.
pub open spec fn reading_words(row: ReadingRow) -> Seq<u32> {
    seq![
        row.text.offset,
        row.text.len,
        if row.no_kanji {
            1u32
        } else {
            0u32
        },
    ] + ref_words(row.restrict)
}

/// The reading that words hold, if they hold one.
pub open spec fn reading_of(words: Seq<u32>) -> Option<ReadingRow> {
    if words.len() >= 3 && words[2] <= 1 {
        match refs_of(words.subrange(3, words.len() as int)) {
            Some(restrict) => Some(
                ReadingRow {
                    text: StrRef { offset: words[0], len: words[1] },
                    no_kanji: words[2] == 1,
                    restrict,
                },
            ),
            None => None,
        }
    } else {
        None
    }
}

/// A reading is read back from its words.
pub proof fn lemma_reading_round_trip(row: ReadingRow)
    ensures
        reading_of(reading_words(row)) == Some(row),
{
    let words = reading_words(row);
    assert(words.subrange(3, words.len() as int) =~= ref_words(row.restrict));
    lemma_refs_round_trip(row.restrict);
}

impl ReadingRecord {
    /// The words of the reading.
    pub fn encode(&self) -> (words: Vec<u32>)
        ensures
            words@ == reading_words(self@),
    {
        let mut words: Vec<u32> = Vec::new();
        words.push(self.text.offset);
        words.push(self.text.len);
        words.push(if self.no_kanji { 1 } else { 0 });
        put_refs(&mut words, &self.restrict);
        words
    }

    /// The reading that words hold, if they hold one.
    pub fn decode(words: &Vec<u32>) -> (record: Option<ReadingRecord>)
        ensures
            match record {
                Some(record) => reading_of(words@) == Some(record@),
                None => reading_of(words@) is None,
            },
    {
        if words.len() < 3 || words[2] > 1 {
            return None;
        }
        match get_refs(words, 3, words.len()) {
            Some(restrict) => Some(
                ReadingRecord {
                    text: StrRef { offset: words[0], len: words[1] },
                    no_kanji: words[2] == 1,
                    restrict,
                },
            ),
            None => None,
        }
    }
}

/// What a [`KanjiRecord`] holds.
pub struct KanjiRow {
    pub text: StrRef,
    pub priority: Seq<Priority>,
}

/// A written form as it lies in its column.
#[derive(Debug)]
pub struct KanjiRecord {
    pub text: StrRef,
    pub priority: Vec<Priority>,
}

impl View for KanjiRecord {
    type V = KanjiRow;

    open spec fn view(&self) -> KanjiRow {
        KanjiRow { text: self.text, priority: self.priority@ }
    }
}

/// The words of a written form: its text, and its priorities.
pub open spec fn kanji_words(row: KanjiRow) -> Seq<u32> {
    seq![row.text.offset, row.text.len] + priority_words(row.priority)
}

/// The written form that words hold, if they hold one.
pub open spec fn kanji_of(words: Seq<u32>) -> Option<KanjiRow> {
    if words.len() >= 2 {
        match priorities_of(words.subrange(2, words.len() as int)) {
            Some(priority) => Some(
                KanjiRow { text: StrRef { offset: words[0], len: words[1] }, priority },
            ),
            None => None,
        }
    } else {
        None
    }
}

/// A written form is read back from its words.
pub proof fn lemma_kanji_round_trip(row: KanjiRow)
    ensures
        kanji_of(kanji_words(row)) == Some(row),
{
    let words = kanji_words(row);
    assert(words.subrange(2, words.len() as int) =~= priority_words(row.priority));
    lemma_priorities_round_trip(row.priority);
}

impl KanjiRecord {
    /// The words of the written form.
    pub fn encode(&self) -> (words: Vec<u32>)
        ensures
            words@ == kanji_words(self@),
    {
        let mut words: Vec<u32> = Vec::new();
        words.push(self.text.offset);
        words.push(self.text.len);
        let mut n: usize = 0;
        assert(words@ =~= seq![self.text.offset, self.text.len] + priority_words(
            self.priority@.take(0),
        ));
        while n < self.priority.len()
            invariant
                n <= self.priority.len(),
                words@ == seq![self.text.offset, self.text.len] + priority_words(
                    self.priority@.take(n as int),
                ),
            decreases self.priority.len() - n,
        {
            words.push(encode_priority(self.priority[n]));
            n = n + 1;
            assert(words@ =~= seq![self.text.offset, self.text.len] + priority_words(
                self.priority@.take(n as int),
            ));
        }
        assert(self.priority@.take(self.priority.len() as int) =~= self.priority@);
        words
    }

    /// The written form that words hold, if they hold one.
    #[verifier::loop_isolation(false)]
    pub fn decode(words: &Vec<u32>) -> (record: Option<KanjiRecord>)
        ensures
            match record {
                Some(record) => kanji_of(words@) == Some(record@),
                None => kanji_of(words@) is None,
            },
    {
        if words.len() < 2 {
            return None;
        }
        let ghost tail = words@.subrange(2, words.len() as int);
        let mut priority: Vec<Priority> = Vec::new();
        let mut n: usize = 2;
        while n < words.len()
            invariant
                2 <= n <= words.len(),
                priority@.len() == n - 2,
                forall|i: int|
                    0 <= i < n - 2 ==> (#[trigger] priority_of(tail[i])) == Some(priority@[i]),
            decreases words.len() - n,
        {
            assert(tail[n - 2] == words@[n as int]);
            match decode_priority(words[n]) {
                Some(p) => {
                    priority.push(p);
                },
                None => {
                    assert(priority_of(tail[n - 2]) is None);
                    return None;
                },
            }
            n = n + 1;
        }
        assert(priority@ =~= priorities_of(tail).unwrap());
        Some(KanjiRecord { text: StrRef { offset: words[0], len: words[1] }, priority })
    }
}

/// The four words of 128 bits, lowest first.
pub open spec fn bit_words(bits: u128) -> Seq<u32> {
    seq![
        (bits % 0x1_0000_0000) as u32,
        (bits / 0x1_0000_0000 % 0x1_0000_0000) as u32,
        (bits / 0x1_0000_0000_0000_0000 % 0x1_0000_0000) as u32,
        (bits / 0x1_0000_0000_0000_0000_0000_0000) as u32,
    ]
}

/// The 128 bits of four words, lowest first.
pub open spec fn bits_of(a: u32, b: u32, c: u32, d: u32) -> u128 {
    (a + b * 0x1_0000_0000 + c * 0x1_0000_0000_0000_0000 + d
        * 0x1_0000_0000_0000_0000_0000_0000) as u128
}

/// What a [`SenseRecord`] holds.
pub struct SenseRow {
    pub pos: u128,
    pub language: StrRef,
    pub glosses: Seq<StrRef>,
    pub misc: Seq<StrRef>,
}

/// A sense as it lies in its column.
#[derive(Debug)]
pub struct SenseRecord {
    pub pos: u128,
    pub language: StrRef,
    pub glosses: Vec<StrRef>,
    pub misc: Vec<StrRef>,
}

impl View for SenseRecord {
    type V = SenseRow;

    open spec fn view(&self) -> SenseRow {
        SenseRow { pos: self.pos, language: self.language, glosses: self.glosses@, misc: self.misc@ }
    }
}

/// The most glosses that the record of a sense can count.
pub const GLOSSES_MAX: usize = 0x7fff_ffff;

/// The words of a sense: the bits of its parts of speech, its language,
/// the number of its glosses, the glosses, and the usage tags.
pub open spec fn sense_words(row: SenseRow) -> Seq<u32> {
    bit_words(row.pos) + seq![row.language.offset, row.language.len, row.glosses.len() as u32]
        + ref_words(row.glosses) + ref_words(row.misc)
}

/// The sense that words hold, if they hold one.
pub open spec fn sense_of(words: Seq<u32>) -> Option<SenseRow> {
    if words.len() >= 7 && 7 + 2 * words[6] <= words.len() {
        match (
            refs_of(words.subrange(7, 7 + 2 * words[6])),
            refs_of(words.subrange(7 + 2 * words[6], words.len() as int)),
        ) {
            (Some(glosses), Some(misc)) => Some(
                SenseRow {
                    pos: bits_of(words[0], words[1], words[2], words[3]),
                    language: StrRef { offset: words[4], len: words[5] },
                    glosses,
                    misc,
                },
            ),
            _ => None,
        }
    } else {
        None
    }
}

/// A sense is read back from its words.
pub proof fn lemma_sense_round_trip(row: SenseRow)
    requires
        row.glosses.len() <= GLOSSES_MAX,
    ensures
        sense_of(sense_words(row)) == Some(row),
{
    let words = sense_words(row);
    let n = row.glosses.len() as int;
    assert(words[6] == n);
    assert(words.subrange(7, 7 + 2 * n) =~= ref_words(row.glosses));
    assert(words.subrange(7 + 2 * n, words.len() as int) =~= ref_words(row.misc));
    lemma_refs_round_trip(row.glosses);
    lemma_refs_round_trip(row.misc);
    assert(bits_of(words[0], words[1], words[2], words[3]) == row.pos);
}

impl SenseRecord {
    /// The words of the sense, unless it has too many glosses to count.
    pub fn encode(&self) -> (words: Option<Vec<u32>>)
        ensures
            match words {
                Some(words) => self@.glosses.len() <= GLOSSES_MAX && words@ == sense_words(self@),
                None => self@.glosses.len() > GLOSSES_MAX,
            },
    {
        if self.glosses.len() > GLOSSES_MAX {
            return None;
        }
        let mut words: Vec<u32> = Vec::new();
        words.push((self.pos % 0x1_0000_0000) as u32);
        words.push((self.pos / 0x1_0000_0000 % 0x1_0000_0000) as u32);
        words.push((self.pos / 0x1_0000_0000_0000_0000 % 0x1_0000_0000) as u32);
        words.push((self.pos / 0x1_0000_0000_0000_0000_0000_0000) as u32);
        words.push(self.language.offset);
        words.push(self.language.len);
        words.push(self.glosses.len() as u32);
        assert(words@ =~= bit_words(self.pos) + seq![
            self.language.offset,
            self.language.len,
            self.glosses@.len() as u32,
        ]);
        put_refs(&mut words, &self.glosses);
        put_refs(&mut words, &self.misc);
        Some(words)
    }

    /// The sense that words hold, if they hold one.
    pub fn decode(words: &Vec<u32>) -> (record: Option<SenseRecord>)
        ensures
            match record {
                Some(record) => sense_of(words@) == Some(record@),
                None => sense_of(words@) is None,
            },
    {
        if words.len() < 7 {
            return None;
        }
        let count = words[6] as usize;
        if count > (words.len() - 7) / 2 {
            return None;
        }
        let glosses = match get_refs(words, 7, 7 + 2 * count) {
            Some(glosses) => glosses,
            None => {
                return None;
            },
        };
        let misc = match get_refs(words, 7 + 2 * count, words.len()) {
            Some(misc) => misc,
            None => {
                return None;
            },
        };
        let pos = words[0] as u128 + words[1] as u128 * 0x1_0000_0000 + words[2] as u128
            * 0x1_0000_0000_0000_0000 + words[3] as u128 * 0x1_0000_0000_0000_0000_0000_0000;
        Some(
            SenseRecord {
                pos,
                language: StrRef { offset: words[4], len: words[5] },
                glosses,
                misc,
            },
        )
    }
}

/// An entry as it lies in its column: its sequence number, and the runs
/// of its readings, written forms and senses in their columns.
#[derive(Clone, Copy, Debug, PartialEq, Eq, Structural, Hash)]
pub struct EntryRecord {
    pub sequence_number: u32,
    pub readings: Span,
    pub kanji: Span,
    pub senses: Span,
}

/// The number of words of the record of an entry.
pub const ENTRY_WORDS: usize = 7;

/// The words of an entry.
pub open spec fn entry_words(row: EntryRecord) -> Seq<u32> {
    seq![
        row.sequence_number,
        row.readings.start,
        row.readings.count,
        row.kanji.start,
        row.kanji.count,
        row.senses.start,
        row.senses.count,
    ]
}

/// The words of entries in a row.
pub open spec fn entries_words(rows: Seq<EntryRecord>) -> Seq<u32> {
    Seq::new(
        (ENTRY_WORDS * rows.len()) as nat,
        |j: int| entry_words(rows[j / ENTRY_WORDS as int])[j % ENTRY_WORDS as int],
    )
}

/// The entries that a column holds, if it holds whole records.
pub open spec fn entries_of(words: Seq<u32>) -> Option<Seq<EntryRecord>> {
    if words.len() % ENTRY_WORDS as nat == 0 {
        Some(
            Seq::new(
                (words.len() / ENTRY_WORDS as nat) as nat,
                |i: int|
                    EntryRecord {
                        sequence_number: words[7 * i],
                        readings: Span { start: words[7 * i + 1], count: words[7 * i + 2] },
                        kanji: Span { start: words[7 * i + 3], count: words[7 * i + 4] },
                        senses: Span { start: words[7 * i + 5], count: words[7 * i + 6] },
                    },
            ),
        )
    } else {
        None
    }
}

/// Entries are read back from their words.
pub proof fn lemma_entries_round_trip(rows: Seq<EntryRecord>)
    ensures
        entries_of(entries_words(rows)) == Some(rows),
{
    let words = entries_words(rows);
    assert(words.len() == 7 * rows.len());
    assert(entries_of(words).unwrap() =~= rows);
}

/// The words of entries in a row.
pub fn encode_entries(rows: &Vec<EntryRecord>) -> (words: Vec<u32>)
    ensures
        words@ == entries_words(rows@),
{
    let mut words: Vec<u32> = Vec::new();
    let mut n: usize = 0;
    assert(words@ =~= entries_words(rows@.take(0)));
    while n < rows.len()
        invariant
            n <= rows.len(),
            words@ == entries_words(rows@.take(n as int)),
        decreases rows.len() - n,
    {
        let row = rows[n];
        let ghost before = words@;
        words.push(row.sequence_number);
        words.push(row.readings.start);
        words.push(row.readings.count);
        words.push(row.kanji.start);
        words.push(row.kanji.count);
        words.push(row.senses.start);
        words.push(row.senses.count);
        n = n + 1;
        assert(words@ =~= before + entry_words(row));
        assert(before + entry_words(row) =~= entries_words(rows@.take(n as int)));
    }
    assert(rows@.take(rows.len() as int) =~= rows@);
    words
}

/// The entries that a column holds, if it holds whole records.
pub fn decode_entries(words: &Vec<u32>) -> (rows: Option<Vec<EntryRecord>>)
    ensures
        match rows {
            Some(rows) => entries_of(words@) == Some(rows@),
            None => entries_of(words@) is None,
        },
{
    if words.len() % ENTRY_WORDS != 0 {
        return None;
    }
    let count = words.len() / ENTRY_WORDS;
    let mut rows: Vec<EntryRecord> = Vec::new();
    let mut n: usize = 0;
    while n < count
        invariant
            n <= count,
            7 * count == words.len(),
            rows@.len() == n,
            forall|i: int| 0 <= i < n ==> rows@[i] == entries_of(words@).unwrap()[i],
        decreases count - n,
    {
        rows.push(
            EntryRecord {
                sequence_number: words[7 * n],
                readings: Span { start: words[7 * n + 1], count: words[7 * n + 2] },
                kanji: Span { start: words[7 * n + 3], count: words[7 * n + 4] },
                senses: Span { start: words[7 * n + 5], count: words[7 * n + 6] },
            },
        );
        n = n + 1;
    }
    assert(rows@ =~= entries_of(words@).unwrap());
    Some(rows)
}

} // verus!
