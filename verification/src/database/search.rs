//! Looking phrases up in an open index.
use vstd::prelude::*;

use super::model::{bytes_at, IndexView};
use super::order::{
    begins_with, lemma_lex_antisym, lemma_lex_refl, lemma_prefix_between, lemma_prefix_first,
    lex_le,
};
use super::phrases::{ascending, phrase_le};
use super::ranking::EntryKey;

verus! {

/// How a phrase is to match what is asked for.
#[derive(Clone, Copy, Debug, PartialEq, Eq, Structural, Hash)]
pub enum Match {
    /// The phrase is what is asked for.
    Exact,
    /// The phrase begins with what is asked for.
    Prefix,
}

impl IndexView {
    /// The bytes of the form of the phrase at a position of the index.
    pub open spec fn phrase_bytes(self, k: int) -> Seq<u8> {
        bytes_at(self.strings, self.phrases[k].text)
    }

    /// Whether the phrase at a position of the index matches.
    pub open spec fn matches(self, k: int, query: Seq<u8>, how: Match) -> bool {
        match how {
            Match::Exact => self.phrase_bytes(k) == query,
            Match::Prefix => begins_with(self.phrase_bytes(k), query),
        }
    }

    /// How far the phrase at a position of the index is from what is
    /// asked for: the number of characters that it is longer, as far as
    /// 32 bits count.
    pub open spec fn weight(self, k: int, query: Seq<char>) -> u32 {
        let extra = self.text(self.phrases[k].text).len() - query.len();
        if extra <= 0 {
            0
        } else if extra >= u32::MAX {
            u32::MAX
        } else {
            extra as u32
        }
    }

    /// The key of an entry in a result.
    pub open spec fn key(self, at: int, weight: u32) -> EntryKey {
        EntryKey {
            priority: self.bucket(at),
            weight,
            sequence: self.entries[at].sequence_number,
        }
    }
}

/// Phrases in order have their forms in order.
pub proof fn lemma_forms_ordered(view: IndexView, i: int, j: int)
    requires
        ascending(view.strings, view.phrases),
        0 <= i <= j < view.phrases.len(),
    ensures
        lex_le(view.phrase_bytes(i), view.phrase_bytes(j)),
{
    lemma_lex_refl(view.phrase_bytes(i));
    if i < j {
        assert(phrase_le(view.strings, view.phrases[i], view.phrases[j]));
    }
}

/// The phrases that match lie in a row: behind the last phrase that
/// comes before what is asked for, up to the first that does not match.
pub proof fn lemma_matches_in_a_row(
    view: IndexView,
    query: Seq<u8>,
    how: Match,
    low: int,
    high: int,
)
    requires
        ascending(view.strings, view.phrases),
        0 <= low <= high <= view.phrases.len(),
        forall|k: int| 0 <= k < low ==> !lex_le(query, #[trigger] view.phrase_bytes(k)),
        forall|k: int|
            low <= k < view.phrases.len() ==> lex_le(query, #[trigger] view.phrase_bytes(k)),
        forall|k: int| low <= k < high ==> view.matches(k, query, how),
        high < view.phrases.len() ==> !view.matches(high, query, how),
    ensures
        forall|k: int|
            0 <= k < view.phrases.len() ==> (#[trigger] view.matches(k, query, how) <==> low <= k
                < high),
{
    assert forall|k: int| 0 <= k < view.phrases.len() implies (#[trigger] view.matches(
        k,
        query,
        how,
    ) <==> low <= k < high) by {
        let bytes = view.phrase_bytes(k);
        if k < low {
            if view.matches(k, query, how) {
                match how {
                    Match::Exact => lemma_lex_refl(query),
                    Match::Prefix => lemma_prefix_first(query, bytes),
                }
            }
        } else if k >= high {
            if view.matches(k, query, how) {
                let edge = view.phrase_bytes(high);
                lemma_forms_ordered(view, high, k);
                match how {
                    Match::Exact => {
                        lemma_lex_antisym(query, edge);
                    },
                    Match::Prefix => {
                        lemma_prefix_between(query, edge, bytes);
                    },
                }
            }
        }
    }
}

/// A phrase of the index that matched: the key of its entry, the
/// position of the entry, and the position of the phrase in the index.
#[derive(Clone, Copy, Debug, PartialEq, Eq, Structural, Hash)]
pub struct Hit {
    pub key: EntryKey,
    pub entry: usize,
    pub phrase: usize,
}

/// Whether hits are the phrases of an index that match, each once, with
/// the keys of their entries, bucket by bucket and within a bucket in the
/// order of the index.
pub open spec fn found(view: IndexView, query: Seq<char>, how: Match, hits: Seq<Hit>) -> bool {
    let bytes = vstd::utf8::encode_utf8(query);
    &&& forall|a: int|
        0 <= a < hits.len() ==> {
            let hit = #[trigger] hits[a];
            &&& hit.phrase < view.phrases.len()
            &&& view.matches(hit.phrase as int, bytes, how)
            &&& hit.entry == view.phrases[hit.phrase as int].entry
            &&& hit.key == view.key(hit.entry as int, view.weight(hit.phrase as int, query))
        }
    &&& forall|k: int|
        0 <= k < view.phrases.len() && #[trigger] view.matches(k, bytes, how) ==> exists|a: int|
            0 <= a < hits.len() && (#[trigger] hits[a]).phrase == k
    &&& forall|a: int, b: int|
        0 <= a < b < hits.len() ==> (#[trigger] hits[a]).key.priority < (
        #[trigger] hits[b]).key.priority || (hits[a].key.priority == hits[b].key.priority
            && hits[a].phrase < hits[b].phrase)
}

/// The hits of an exact match come in the order of their keys: the key
/// of a hit is the key of the hit that follows, or comes before it.
pub proof fn lemma_exact_hits_ordered(view: IndexView, query: Seq<char>, hits: Seq<Hit>)
    requires
        view.in_range(),
        view.coherent(),
        found(view, query, Match::Exact, hits),
    ensures
        forall|a: int, b: int|
            0 <= a < b < hits.len() ==> (#[trigger] hits[a]).key.le(#[trigger] hits[b].key),
{
    let bytes = vstd::utf8::encode_utf8(query);
    assert forall|a: int, b: int| 0 <= a < b < hits.len() implies (#[trigger] hits[a]).key.le(
        #[trigger] hits[b].key,
    ) by {
        let x = hits[a];
        let y = hits[b];
        if x.key.priority == y.key.priority {
            let i = x.phrase as int;
            let j = y.phrase as int;
            assert(view.matches(i, bytes, Match::Exact));
            assert(view.matches(j, bytes, Match::Exact));
            assert(phrase_le(view.strings, view.phrases[i], view.phrases[j]));
            assert(view.weight(i, query) == view.weight(j, query));
            let p = view.phrases[i].entry as int;
            let q = view.phrases[j].entry as int;
            if p < q {
                assert(view.entries[p].sequence_number < view.entries[q].sequence_number);
            }
        }
    }
}

/// Whether a hit comes before another in a result: by the bucket, and
/// within a bucket by the position of the phrase.
pub open spec fn comes_before(a: Hit, b: Hit) -> bool {
    a.key.priority < b.key.priority || (a.key.priority == b.key.priority && a.phrase < b.phrase)
}

/// Two lists that hold the same hits, each in rising order, are the same
/// list.
proof fn lemma_same_hits(x: Seq<Hit>, y: Seq<Hit>)
    requires
        forall|a: int, b: int| 0 <= a < b < x.len() ==> comes_before(x[a], x[b]),
        forall|a: int, b: int| 0 <= a < b < y.len() ==> comes_before(y[a], y[b]),
        forall|h: Hit| x.contains(h) <==> y.contains(h),
    ensures
        x == y,
    decreases x.len(),
{
    if x.len() == 0 {
        if y.len() > 0 {
            assert(y.contains(y[0]));
        }
        assert(x =~= y);
    } else {
        assert(x.contains(x[0]));
        let j = choose|j: int| 0 <= j < y.len() && y[j] == x[0];
        assert(y.contains(y[0]));
        let i = choose|i: int| 0 <= i < x.len() && x[i] == y[0];
        if j > 0 {
            assert(comes_before(y[0], y[j]));
            if i > 0 {
                assert(comes_before(x[0], x[i]));
            }
        }
        assert(x[0] == y[0]);
        let xs = x.skip(1);
        let ys = y.skip(1);
        assert forall|h: Hit| xs.contains(h) <==> ys.contains(h) by {
            if xs.contains(h) {
                let a = choose|a: int| 0 <= a < xs.len() && xs[a] == h;
                assert(x[a + 1] == h);
                assert(x.contains(h));
                let b = choose|b: int| 0 <= b < y.len() && y[b] == h;
                if b == 0 {
                    assert(comes_before(x[0], x[a + 1]));
                }
                assert(ys[b - 1] == h);
            }
            if ys.contains(h) {
                let b = choose|b: int| 0 <= b < ys.len() && ys[b] == h;
                assert(y[b + 1] == h);
                assert(y.contains(h));
                let a = choose|a: int| 0 <= a < x.len() && x[a] == h;
                if a == 0 {
                    assert(comes_before(y[0], y[b + 1]));
                }
                assert(xs[a - 1] == h);
            }
        }
        assert forall|a: int, b: int| 0 <= a < b < xs.len() implies comes_before(xs[a], xs[b]) by {
            assert(comes_before(x[a + 1], x[b + 1]));
        }
        assert forall|a: int, b: int| 0 <= a < b < ys.len() implies comes_before(ys[a], ys[b]) by {
            assert(comes_before(y[a + 1], y[b + 1]));
        }
        lemma_same_hits(xs, ys);
        assert(x =~= seq![x[0]] + xs);
        assert(y =~= seq![y[0]] + ys);
    }
}

/// What a query finds is one list: whoever asks again is given the same
/// hits in the same order.
pub proof fn lemma_hits_unique(
    view: IndexView,
    query: Seq<char>,
    how: Match,
    x: Seq<Hit>,
    y: Seq<Hit>,
)
    requires
        found(view, query, how, x),
        found(view, query, how, y),
    ensures
        x == y,
{
    let bytes = vstd::utf8::encode_utf8(query);
    assert forall|h: Hit| x.contains(h) <==> y.contains(h) by {
        if x.contains(h) {
            let a = choose|a: int| 0 <= a < x.len() && x[a] == h;
            assert(view.matches(x[a].phrase as int, bytes, how));
            let b = choose|b: int| 0 <= b < y.len() && (#[trigger] y[b]).phrase == h.phrase;
            assert(y[b] == h);
        }
        if y.contains(h) {
            let b = choose|b: int| 0 <= b < y.len() && y[b] == h;
            assert(view.matches(y[b].phrase as int, bytes, how));
            let a = choose|a: int| 0 <= a < x.len() && (#[trigger] x[a]).phrase == h.phrase;
            assert(x[a] == h);
        }
    }
    assert forall|a: int, b: int| 0 <= a < b < x.len() implies comes_before(x[a], x[b]) by {
        assert(x[a].key.priority < x[b].key.priority || (x[a].key.priority == x[b].key.priority
            && x[a].phrase < x[b].phrase));
    }
    assert forall|a: int, b: int| 0 <= a < b < y.len() implies comes_before(y[a], y[b]) by {
        assert(y[a].key.priority < y[b].key.priority || (y[a].key.priority == y[b].key.priority
            && y[a].phrase < y[b].phrase));
    }
    lemma_same_hits(x, y);
}

} // verus!
