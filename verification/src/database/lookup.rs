//! What a query finds in an open index: the entries that have it as a
//! form, and the characters that it is written with.
use vstd::prelude::*;
use vstd::string::*;

use super::index::Index;
use super::model::{IndexView, lemma_every_character_listed};
use super::search::{found, Hit, Match};

use crate::jmdict::entry::Entry;
use crate::kanjidic2::character::Character;

verus! {

/// Whether the character at a position of an index is the given one.
pub open spec fn is_at(view: IndexView, c: char, at: int) -> bool {
    0 <= at < view.characters.len() && view.characters[at].literal == c as u32
}

/// The position of a character in an index, if the index has it.
pub open spec fn position_of(view: IndexView, c: char) -> Option<int> {
    if exists|at: int| is_at(view, c, at) {
        Some(choose|at: int| is_at(view, c, at))
    } else {
        None
    }
}

/// An index that has passed its checks has a character at one position
/// only.
pub proof fn lemma_one_position(view: IndexView, c: char, a: int, b: int)
    requires
        view.in_range(),
        view.coherent(),
        is_at(view, c, a),
        is_at(view, c, b),
    ensures
        a == b,
{
    lemma_every_character_listed(view, a);
    lemma_every_character_listed(view, b);
    let i = choose|k: int|
        0 <= k < view.literals.len() && (#[trigger] view.literals[k]).1 == a && view.literals[k].0
            == view.characters[a].literal;
    let j = choose|k: int|
        0 <= k < view.literals.len() && (#[trigger] view.literals[k]).1 == b && view.literals[k].0
            == view.characters[b].literal;
    if i < j {
        assert(view.literals[i].0 < view.literals[j].0);
    } else if j < i {
        assert(view.literals[j].0 < view.literals[i].0);
    }
}

/// The positions of the characters that the first `n` characters of a
/// query are and the index has: each once, in the order in which the
/// query has them first.
pub open spec fn written_with(view: IndexView, query: Seq<char>, n: int) -> Seq<int>
    decreases n,
{
    if n <= 0 {
        Seq::empty()
    } else {
        let before = written_with(view, query, n - 1);
        match position_of(view, query[n - 1]) {
            Some(at) => if before.contains(at) {
                before
            } else {
                before.push(at)
            },
            None => before,
        }
    }
}

/// What a query finds.
#[derive(Debug)]
pub struct Found<'a> {
    /// The entries that have the query as a form, each with the phrase
    /// that matched and its key, in the order of the keys.
    pub entries: Vec<(Hit, Entry<'a>)>,
    /// The characters of the query that the dictionary has.
    pub characters: Vec<Character<'a>>,
}

/// The hits of the entries that were found.
pub open spec fn hits_of(entries: Seq<(Hit, Entry)>) -> Seq<Hit> {
    Seq::new(entries.len(), |i: int| entries[i].0)
}

/// Whether a list holds a position.
fn holds(list: &Vec<usize>, at: usize) -> (b: bool)
    ensures
        b == list@.contains(at),
{
    let mut i: usize = 0;
    while i < list.len()
        invariant
            i <= list.len(),
            forall|j: int| 0 <= j < i ==> list@[j] != at,
        decreases list.len() - i,
    {
        if list[i] == at {
            return true;
        }
        i = i + 1;
    }
    false
}

/// The positions of the characters that a query is written with.
#[verifier::loop_isolation(false)]
fn positions(index: &Index<'_>, query: &str) -> (list: Vec<usize>)
    ensures
        list@.len() == written_with(index@, query@, query@.len() as int).len(),
        forall|j: int|
            0 <= j < list@.len() ==> list@[j] as int == written_with(
                index@,
                query@,
                query@.len() as int,
            )[j],
        forall|j: int| 0 <= j < list@.len() ==> (#[trigger] list@[j]) < index@.characters.len(),
{
    index.checked();
    let ghost view = index@;
    let n = query.unicode_len();
    let mut list: Vec<usize> = Vec::new();
    let mut i: usize = 0;
    while i < n
        invariant
            i <= n,
            n == query@.len(),
            list@.len() == written_with(view, query@, i as int).len(),
            forall|j: int|
                0 <= j < list@.len() ==> list@[j] as int == written_with(view, query@, i as int)[j],
            forall|j: int| 0 <= j < list@.len() ==> (#[trigger] list@[j]) < view.characters.len(),
        decreases n - i,
    {
        let c = query.get_char(i);
        let ghost before = written_with(view, query@, i as int);
        match index.literal_position(c) {
            Some(at) => {
                proof {
                    assert(is_at(view, c, at as int));
                    let chosen = choose|p: int| is_at(view, c, p);
                    lemma_one_position(view, c, at as int, chosen);
                    assert(position_of(view, c) == Some(at as int));
                    if list@.contains(at) {
                        let j = choose|j: int| 0 <= j < list@.len() && list@[j] == at;
                        assert(before[j] == at as int);
                    }
                    if before.contains(at as int) {
                        let j = choose|j: int| 0 <= j < before.len() && before[j] == at as int;
                        assert(list@[j] == at);
                    }
                }
                if !holds(&list, at) {
                    list.push(at);
                }
            },
            None => {
                assert(position_of(view, c) is None);
            },
        }
        i = i + 1;
    }
    list
}

/// What a query finds in an index: the entries that have it as a reading,
/// as a written form or as an inflected form, and the characters that it
/// is written with.
#[verifier::loop_isolation(false)]
pub fn search<'a>(index: &Index<'a>, query: &str) -> (result: Found<'a>)
    ensures
        found(index@, query@, Match::Exact, hits_of(result.entries@)),
        forall|a: int, b: int|
            0 <= a < b < result.entries@.len() ==> (#[trigger] result.entries@[a]).0.key.le(
                (#[trigger] result.entries@[b]).0.key,
            ),
        forall|i: int|
            0 <= i < result.entries@.len() ==> (#[trigger] result.entries@[i]).1@ == index@.entry(
                result.entries@[i].0.entry as int,
            ),
        result.characters@.len() == written_with(index@, query@, query@.len() as int).len(),
        forall|j: int|
            0 <= j < result.characters@.len() ==> (#[trigger] result.characters@[j])@
                == index@.character(written_with(index@, query@, query@.len() as int)[j]),
{
    index.checked();
    let hits = index.search_exact(query);
    let mut entries: Vec<(Hit, Entry<'a>)> = Vec::new();
    let mut i: usize = 0;
    while i < hits.len()
        invariant
            i <= hits.len(),
            entries@.len() == i,
            forall|k: int| 0 <= k < i ==> (#[trigger] entries@[k]).0 == hits@[k],
            forall|k: int|
                0 <= k < i ==> (#[trigger] entries@[k]).1@ == index@.entry(hits@[k].entry as int),
        decreases hits.len() - i,
    {
        let hit = hits[i];
        assert(hit.phrase < index@.phrases.len());
        assert(index@.phrases[hit.phrase as int].entry < index@.entries.len());
        match index.entry(hit.entry) {
            Some(entry) => {
                entries.push((hit, entry));
            },
            None => {},
        }
        i = i + 1;
    }
    assert(hits_of(entries@) =~= hits@);
    let places = positions(index, query);
    let mut characters: Vec<Character<'a>> = Vec::new();
    let mut j: usize = 0;
    while j < places.len()
        invariant
            j <= places.len(),
            characters@.len() == j,
            forall|k: int|
                0 <= k < j ==> (#[trigger] characters@[k])@ == index@.character(places@[k] as int),
        decreases places.len() - j,
    {
        match index.character(places[j]) {
            Some(character) => {
                characters.push(character);
            },
            None => {},
        }
        j = j + 1;
    }
    Found { entries, characters }
}

} // verus!
