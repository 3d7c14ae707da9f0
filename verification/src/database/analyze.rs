//! The sentence analyzer: which entries a stretch of text begins with.
use vstd::prelude::*;
use vstd::string::*;
use vstd::utf8::encode_utf8;

use super::index::Index;
use super::model::IndexView;
use super::ranking::EntryKey;
use super::search::{found, Hit, Match};
use crate::inflection::conjugate::{conjugate, conjugated, conjugations_of, Conjugated};
use crate::inflection::form::Inflection;
use crate::inflection::table::{listing, listing_keys, Inflections, InflectionsView};
use crate::jmdict::entry::Entry;
use crate::text::{byte_offset, char_position, lemma_offsets_rise, same};

verus! {

impl IndexView {
    /// Whether the entry at a position has the given surface form.
    pub open spec fn has_form(self, at: int, text: Seq<char>) -> bool {
        exists|k: int|
            0 <= k < self.phrases.len() && (#[trigger] self.phrases[k]).entry == at
                && self.phrase_bytes(k) == encode_utf8(text)
    }
}

/// How many characters of a text lie behind its first `len`, as far as
/// 32 bits count.
pub open spec fn left_over(text: Seq<char>, len: int) -> u32 {
    if text.len() - len >= u32::MAX {
        u32::MAX
    } else {
        (text.len() - len) as u32
    }
}

/// The first of the first `n` feature sets of the listing under which a
/// table has a form that is written or read as the text.
pub open spec fn identified_upto(forms: InflectionsView, text: Seq<char>, n: int) -> Option<
    Inflection,
>
    decreases n,
{
    if n <= 0 {
        None
    } else {
        match identified_upto(forms, text, n - 1) {
            Some(key) => Some(key),
            None => {
                let key = listing()[n - 1];
                if forms.inflections.contains_key(key) && (forms.inflections[key].written() == text
                    || forms.inflections[key].read() == text) {
                    Some(key)
                } else {
                    None
                }
            },
        }
    }
}

/// The feature set under which the first of the first `n` results of a
/// conjugation has a form that is written or read as the text.
pub open spec fn identified(list: Seq<Conjugated>, text: Seq<char>, n: int) -> Option<Inflection>
    decreases n,
{
    if n <= 0 {
        None
    } else {
        match identified(list, text, n - 1) {
            Some(key) => Some(key),
            None => identified_upto(list[n - 1].1, text, listing().len() as int),
        }
    }
}

/// A feature set that is found among the first of the listing is the one
/// that is found in all of it.
proof fn lemma_identified_upto(forms: InflectionsView, text: Seq<char>, n: int, m: int)
    requires
        0 <= n <= m,
        identified_upto(forms, text, n) is Some,
    ensures
        identified_upto(forms, text, m) == identified_upto(forms, text, n),
    decreases m - n,
{
    if n < m {
        lemma_identified_upto(forms, text, n, m - 1);
    }
}

/// A feature set that is found among the first results is the one that
/// is found in all of them.
proof fn lemma_identified(list: Seq<Conjugated>, text: Seq<char>, n: int, m: int)
    requires
        0 <= n <= m,
        identified(list, text, n) is Some,
    ensures
        identified(list, text, m) == identified(list, text, n),
    decreases m - n,
{
    if n < m {
        lemma_identified(list, text, n, m - 1);
    }
}

/// A stretch at the head of a text that is a surface form of an entry.
#[derive(Debug)]
pub struct Segment {
    /// The key of the entry: its bucket, the number of characters that
    /// the stretch leaves over, and its sequence number.
    pub key: EntryKey,
    /// The position of the entry.
    pub entry: usize,
    /// The length of the stretch in characters.
    pub len: usize,
    /// The stretch.
    pub text: String,
    /// The features of the inflected form that the stretch is; none
    /// where it is no inflected form of the entry.
    pub inflection: Option<Inflection>,
}

/// Whether a segment is a stretch at the head of a text that is a
/// surface form of its entry, and the longest such stretch; with the key
/// of the entry and the features of the form.
pub open spec fn segment_stands(view: IndexView, text: Seq<char>, segment: Segment) -> bool {
    &&& 0 < segment.len <= text.len()
    &&& segment.entry < view.entries.len()
    &&& segment.text@ == text.take(segment.len as int)
    &&& view.has_form(segment.entry as int, segment.text@)
    &&& forall|longer: int|
        segment.len < longer <= text.len() ==> !#[trigger] view.has_form(
            segment.entry as int,
            text.take(longer),
        )
    &&& segment.key == view.key(segment.entry as int, left_over(text, segment.len as int))
    &&& segment.inflection == identified(
        conjugated(view.entry(segment.entry as int)),
        segment.text@,
        conjugated(view.entry(segment.entry as int)).len() as int,
    )
}

/// Whether one of the segments is of the entry at a position.
pub open spec fn covers(segments: Seq<Segment>, at: int) -> bool {
    exists|a: int| 0 <= a < segments.len() && (#[trigger] segments[a]).entry == at
}

/// Whether the segments come in the order of their keys.
pub open spec fn in_key_order(segments: Seq<Segment>) -> bool {
    forall|a: int, b: int|
        0 <= a < b < segments.len() ==> (#[trigger] segments[a]).key.lt(
            (#[trigger] segments[b]).key,
        )
}

/// Whether segments are the analysis of a text: for each entry that has
/// a stretch at the head of the text as a surface form, the longest such
/// stretch, with the key of the entry and the features of the form; and
/// the segments come in the order of their keys.
pub open spec fn analyzed(view: IndexView, text: Seq<char>, segments: Seq<Segment>) -> bool {
    &&& forall|a: int| 0 <= a < segments.len() ==> segment_stands(view, text, #[trigger] segments[a])
    &&& forall|at: int, len: int|
        0 <= at < view.entries.len() && 0 < len <= text.len() && #[trigger] view.has_form(
            at,
            text.take(len),
        ) ==> covers(segments, at)
    &&& in_key_order(segments)
}

/// The first feature set of the listing under which a table has a form
/// that is written or read as the text.
fn identify_in(forms: &Inflections<'_>, text: &str) -> (key: Option<Inflection>)
    ensures
        key == identified_upto(forms@, text@, listing().len() as int),
{
    let keys = listing_keys();
    let mut n: usize = 0;
    while n < keys.len()
        invariant
            n <= keys.len(),
            keys@ == listing(),
            identified_upto(forms@, text@, n as int) is None,
        decreases keys.len() - n,
    {
        match forms.get(keys[n]) {
            Some(form) => {
                let written = form.text();
                let read = form.reading();
                if same(written.as_str(), text) || same(read.as_str(), text) {
                    proof {
                        lemma_identified_upto(forms@, text@, n + 1, listing().len() as int);
                    }
                    return Some(keys[n]);
                }
            },
            None => {},
        }
        n = n + 1;
    }
    None
}

/// The feature set under which an entry has the text as an inflected
/// form.
pub fn identify(entry: &Entry<'_>, text: &str) -> (key: Option<Inflection>)
    ensures
        key == identified(conjugated(entry@), text@, conjugated(entry@).len() as int),
{
    let list = conjugate(entry);
    let ghost all = conjugations_of(list@);
    let mut n: usize = 0;
    while n < list.len()
        invariant
            n <= list.len(),
            all == conjugations_of(list@),
            all == conjugated(entry@),
            identified(all, text@, n as int) is None,
        decreases list.len() - n,
    {
        assert(all[n as int].1 == list@[n as int].1@);
        match identify_in(&list[n].1, text) {
            Some(key) => {
                proof {
                    lemma_identified(all, text@, n + 1, all.len() as int);
                }
                return Some(key);
            },
            None => {},
        }
        n = n + 1;
    }
    None
}

/// Whether one of the segments is of the entry at a position.
fn is_covered(segments: &Vec<Segment>, at: usize) -> (b: bool)
    ensures
        b == covers(segments@, at as int),
{
    let mut n: usize = 0;
    while n < segments.len()
        invariant
            n <= segments.len(),
            forall|a: int| 0 <= a < n ==> (#[trigger] segments@[a]).entry != at,
        decreases segments.len() - n,
    {
        if segments[n].entry == at {
            return true;
        }
        n = n + 1;
    }
    false
}

/// Puts a segment among segments that are in the order of their keys,
/// where its key belongs.
fn put(segments: &mut Vec<Segment>, segment: Segment)
    requires
        in_key_order(old(segments)@),
        forall|a: int| 0 <= a < old(segments)@.len() ==> (#[trigger] old(segments)@[a]).key
            != segment.key,
    ensures
        in_key_order(final(segments)@),
        exists|at: int|
            0 <= at <= old(segments)@.len() && final(segments)@ == #[trigger] old(
                segments,
            )@.insert(at, segment),
{
    let mut at: usize = 0;
    while at < segments.len() && segments[at].key.precedes(segment.key)
        invariant
            at <= segments.len(),
            segments@ == old(segments)@,
            forall|a: int| 0 <= a < at ==> (#[trigger] segments@[a]).key.lt(segment.key),
        decreases segments.len() - at,
    {
        at = at + 1;
    }
    let ghost before = segments@;
    segments.insert(at, segment);
    proof {
        assert forall|a: int, b: int| 0 <= a < b < segments@.len() implies (
        #[trigger] segments@[a]).key.lt((#[trigger] segments@[b]).key) by {
            if a < at && b > at {
                assert(before[a].key.lt(before[b - 1].key));
            } else if a == at {
                assert(before[at as int].key != segment.key);
                if b - 1 > at {
                    assert(before[at as int].key.lt(before[b - 1].key));
                }
            } else if b < at {
                assert(before[a].key.lt(before[b].key));
            } else if a > at {
                assert(before[a - 1].key.lt(before[b - 1].key));
            }
        }
    }
}

/// Whether every segment stands.
pub open spec fn all_stand(view: IndexView, text: Seq<char>, segments: Seq<Segment>) -> bool {
    forall|a: int| 0 <= a < segments.len() ==> segment_stands(view, text, #[trigger] segments[a])
}

/// Whether every entry that has a stretch of more than `len` characters
/// as a surface form has a segment.
pub open spec fn covered_beyond(
    view: IndexView,
    text: Seq<char>,
    len: int,
    segments: Seq<Segment>,
) -> bool {
    forall|at: int, longer: int|
        0 <= at < view.entries.len() && len < longer <= text.len() && #[trigger] view.has_form(
            at,
            text.take(longer),
        ) ==> covers(segments, at)
}

/// Segments with one more among them cover what they covered, and stand
/// if they stood and the one more stands.
proof fn lemma_put(
    view: IndexView,
    text: Seq<char>,
    before: Seq<Segment>,
    at: int,
    segment: Segment,
)
    requires
        0 <= at <= before.len(),
        all_stand(view, text, before),
        segment_stands(view, text, segment),
    ensures
        all_stand(view, text, before.insert(at, segment)),
        covers(before.insert(at, segment), segment.entry as int),
        forall|e: int| covers(before, e) ==> covers(before.insert(at, segment), e),
{
    let after = before.insert(at, segment);
    assert forall|a: int| 0 <= a < after.len() implies segment_stands(
        view,
        text,
        #[trigger] after[a],
    ) by {
        if a < at {
            assert(after[a] == before[a]);
        } else if a > at {
            assert(after[a] == before[a - 1]);
        }
    }
    assert(after[at].entry == segment.entry);
    assert forall|e: int| covers(before, e) implies covers(after, e) by {
        let a = choose|a: int| 0 <= a < before.len() && (#[trigger] before[a]).entry == e;
        if a < at {
            assert(after[a].entry == e);
        } else {
            assert(after[a + 1].entry == e);
        }
    }
}

/// No segment that stands has the key of an entry that has no segment.
proof fn lemma_key_is_new(view: IndexView, text: Seq<char>, segments: Seq<Segment>, segment: Segment)
    requires
        view.coherent(),
        all_stand(view, text, segments),
        segment_stands(view, text, segment),
        !covers(segments, segment.entry as int),
    ensures
        forall|a: int| 0 <= a < segments.len() ==> (#[trigger] segments[a]).key != segment.key,
{
    assert forall|a: int| 0 <= a < segments.len() implies (#[trigger] segments[a]).key
        != segment.key by {
        let other = segments[a];
        assert(segment_stands(view, text, other));
        if other.key == segment.key {
            let x = other.entry as int;
            let y = segment.entry as int;
            if x < y {
                assert(view.entries[x].sequence_number < view.entries[y].sequence_number);
            } else if y < x {
                assert(view.entries[y].sequence_number < view.entries[x].sequence_number);
            }
        }
    }
}

/// The segment of an entry for a stretch that is one of its surface
/// forms, where no longer stretch is.
fn segment_of<'a>(index: &Index<'a>, text: &str, total: usize, len: usize, prefix: &str, hit: Hit) -> (segment: Segment)
    requires
        0 < len <= total,
        total == text@.len(),
        prefix@ == text@.take(len as int),
        index@.in_range(),
        index@.coherent(),
        hit.entry < index@.entries.len(),
        hit.key.priority == index@.bucket(hit.entry as int),
        hit.key.sequence == index@.entries[hit.entry as int].sequence_number,
        index@.has_form(hit.entry as int, prefix@),
        forall|longer: int|
            len < longer <= total ==> !#[trigger] index@.has_form(
                hit.entry as int,
                text@.take(longer),
            ),
    ensures
        segment_stands(index@, text@, segment),
        segment.entry == hit.entry,
{
    let inflection = match index.entry(hit.entry) {
        Some(entry) => identify(&entry, prefix),
        None => None,
    };
    let weight = if total - len >= u32::MAX as usize {
        u32::MAX
    } else {
        (total - len) as u32
    };
    Segment {
        key: EntryKey { priority: hit.key.priority, weight, sequence: hit.key.sequence },
        entry: hit.entry,
        len,
        text: String::from_str(prefix),
        inflection,
    }
}

/// Takes the hits of one stretch in: each entry that has no segment yet
/// gets one.
fn take_hits<'a>(
    index: &Index<'a>,
    text: &str,
    total: usize,
    len: usize,
    prefix: &str,
    hits: &Vec<Hit>,
    segments: &mut Vec<Segment>,
)
    requires
        0 < len <= total,
        total == text@.len(),
        prefix@ == text@.take(len as int),
        index@.in_range(),
        index@.coherent(),
        found(index@, prefix@, Match::Exact, hits@),
        in_key_order(old(segments)@),
        all_stand(index@, text@, old(segments)@),
        covered_beyond(index@, text@, len as int, old(segments)@),
    ensures
        in_key_order(final(segments)@),
        all_stand(index@, text@, final(segments)@),
        forall|at: int| covers(old(segments)@, at) ==> covers(final(segments)@, at),
        forall|h: int|
            0 <= h < hits@.len() ==> covers(final(segments)@, (#[trigger] hits@[h]).entry as int),
{
    let ghost view = index@;
    let ghost bytes = encode_utf8(prefix@);
    let mut h: usize = 0;
    while h < hits.len()
        invariant
            h <= hits.len(),
            0 < len <= total,
            total == text@.len(),
            prefix@ == text@.take(len as int),
            view == index@,
            view.in_range(),
            view.coherent(),
            bytes == encode_utf8(prefix@),
            found(view, prefix@, Match::Exact, hits@),
            in_key_order(segments@),
            all_stand(view, text@, segments@),
            covered_beyond(view, text@, len as int, segments@),
            forall|at: int| covers(old(segments)@, at) ==> covers(segments@, at),
            forall|j: int| 0 <= j < h ==> covers(segments@, (#[trigger] hits@[j]).entry as int),
        decreases hits.len() - h,
    {
        let hit = hits[h];
        let ghost k = hit.phrase as int;
        assert(view.matches(k, bytes, Match::Exact));
        assert(view.phrases[k].entry == hit.entry);
        assert(hit.entry < view.entries.len());
        assert(hit.key == view.key(hit.entry as int, view.weight(k, prefix@)));
        if !is_covered(segments, hit.entry) {
            let ghost before = segments@;
            proof {
                assert(view.has_form(hit.entry as int, prefix@));
                assert forall|longer: int| len < longer <= total implies !#[trigger] view.has_form(
                    hit.entry as int,
                    text@.take(longer),
                ) by {
                    if view.has_form(hit.entry as int, text@.take(longer)) {
                        assert(covers(before, hit.entry as int));
                    }
                }
            }
            let segment = segment_of(index, text, total, len, prefix, hit);
            proof {
                lemma_key_is_new(view, text@, before, segment);
            }
            put(segments, segment);
            proof {
                let at = choose|at: int|
                    0 <= at <= before.len() && segments@ == #[trigger] before.insert(at, segment);
                lemma_put(view, text@, before, at, segment);
            }
        }
        h = h + 1;
    }
}

/// Analyzes a text from a position, counted in characters: tells which
/// entries the text begins with there, each with the longest stretch
/// that is one of its surface forms, in the order of their keys.
fn analyze_behind<'a>(index: &Index<'a>, query: &str, start: usize) -> (segments: Vec<Segment>)
    ensures
        analyzed(
            index@,
            if start <= query@.len() {
                query@.skip(start as int)
            } else {
                Seq::empty()
            },
            segments@,
        ),
{
    index.checked();
    let ghost view = index@;
    let mut segments: Vec<Segment> = Vec::new();
    let whole = query.unicode_len();
    if start >= whole {
        proof {
            if start == whole {
                assert(query@.skip(start as int) =~= Seq::<char>::empty());
            }
        }
        return segments;
    }
    let text = query.substring_char(start, whole);
    assert(text@ =~= query@.skip(start as int));
    let total = whole - start;
    let mut len = total;
    while len > 0
        invariant
            len <= total,
            total == text@.len(),
            view == index@,
            view.in_range(),
            view.coherent(),
            in_key_order(segments@),
            all_stand(view, text@, segments@),
            covered_beyond(view, text@, len as int, segments@),
        decreases len,
    {
        let prefix = text.substring_char(0, len);
        assert(prefix@ =~= text@.take(len as int));
        let hits = index.search_exact(prefix);
        let ghost before = segments@;
        take_hits(index, text, total, len, prefix, &hits, &mut segments);
        proof {
            let bytes = encode_utf8(prefix@);
            assert forall|at: int, longer: int|
                0 <= at < view.entries.len() && len - 1 < longer <= total
                    && #[trigger] view.has_form(at, text@.take(longer)) implies covers(
                segments@,
                at,
            ) by {
                if longer == len {
                    let k = choose|k: int|
                        0 <= k < view.phrases.len() && (#[trigger] view.phrases[k]).entry == at
                            && view.phrase_bytes(k) == encode_utf8(text@.take(longer));
                    assert(view.matches(k, bytes, Match::Exact));
                    let a = choose|a: int| 0 <= a < hits@.len() && (#[trigger] hits@[a]).phrase == k;
                    assert(hits@[a].entry == at);
                    assert(covers(segments@, hits@[a].entry as int));
                } else {
                    assert(covers(before, at));
                }
            }
        }
        len = len - 1;
    }
    segments
}

/// What stands in a text from a byte offset of its encoding on, where
/// the offset is that of a character or the length of the encoding; and
/// nothing where the offset lies inside a character or behind the text.
pub open spec fn text_from(text: Seq<char>, start: int) -> Seq<char> {
    if exists|n: int| 0 <= n <= text.len() && byte_offset(text, n) == start {
        text.skip(choose|n: int| 0 <= n <= text.len() && byte_offset(text, n) == start)
    } else {
        Seq::empty()
    }
}

/// Analyzes a text from a byte offset of its encoding in UTF-8 on: tells
/// which entries the text begins with there, each with the longest
/// stretch that is one of its surface forms, in the order of their keys.
/// An offset that lies inside a character or behind the text gives
/// nothing.
pub fn analyze<'a>(index: &Index<'a>, query: &str, start: usize) -> (segments: Vec<Segment>)
    ensures
        analyzed(index@, text_from(query@, start as int), segments@),
{
    match char_position(query, start) {
        Some(position) => {
            proof {
                let chosen = choose|n: int|
                    0 <= n <= query@.len() && byte_offset(query@, n) == start;
                if chosen < position {
                    lemma_offsets_rise(query@, chosen, position as int);
                } else if position < chosen {
                    lemma_offsets_rise(query@, position as int, chosen);
                }
            }
            analyze_behind(index, query, position)
        },
        None => {
            let beyond = query.unicode_len();
            proof {
                assert(query@.skip(beyond as int) =~= Seq::<char>::empty());
            }
            analyze_behind(index, query, beyond)
        },
    }
}

/// Whether a text is the stretch of one of the segments.
pub open spec fn is_stretch(segments: Seq<Segment>, text: Seq<char>) -> bool {
    exists|a: int| 0 <= a < segments.len() && (#[trigger] segments[a]).text@ == text
}

/// Whether a text is one of the texts of a list.
pub open spec fn is_listed(list: Seq<String>, text: Seq<char>) -> bool {
    exists|i: int| 0 <= i < list.len() && (#[trigger] list[i])@ == text
}

fn lists(list: &Vec<String>, text: &str) -> (b: bool)
    ensures
        b == is_listed(list@, text@),
{
    let mut i: usize = 0;
    while i < list.len()
        invariant
            i <= list.len(),
            forall|j: int| 0 <= j < i ==> (#[trigger] list@[j])@ != text@,
        decreases list.len() - i,
    {
        if same(list[i].as_str(), text) {
            return true;
        }
        i = i + 1;
    }
    false
}

/// The stretches of segments in their order, each once.
pub fn stretches(segments: &Vec<Segment>) -> (out: Vec<String>)
    ensures
        forall|text: Seq<char>| is_listed(out@, text) <==> is_stretch(segments@, text),
        forall|i: int, j: int|
            0 <= i < j < out@.len() ==> (#[trigger] out@[i])@ != (#[trigger] out@[j])@,
{
    let mut out: Vec<String> = Vec::new();
    let mut n: usize = 0;
    while n < segments.len()
        invariant
            n <= segments.len(),
            forall|text: Seq<char>|
                #![trigger is_listed(out@, text)]
                #![trigger is_stretch(segments@.take(n as int), text)]
                is_listed(out@, text) <==> is_stretch(segments@.take(n as int), text),
            forall|i: int, j: int|
                0 <= i < j < out@.len() ==> (#[trigger] out@[i])@ != (#[trigger] out@[j])@,
        decreases segments.len() - n,
    {
        let text = segments[n].text.as_str();
        let ghost before = out@;
        let ghost sofar = segments@.take(n as int);
        let ghost next = segments@.take(n + 1);
        let known = lists(&out, text);
        if !known {
            out.push(String::from_str(text));
        }
        proof {
            assert forall|t: Seq<char>| is_listed(out@, t) <==> is_stretch(next, t) by {
                assert(is_listed(before, t) <==> is_stretch(sofar, t));
                if is_listed(out@, t) {
                    let i = choose|i: int| 0 <= i < out@.len() && (#[trigger] out@[i])@ == t;
                    if i < before.len() {
                        assert(before[i]@ == t);
                        assert(is_listed(before, t));
                        let a = choose|a: int|
                            0 <= a < sofar.len() && (#[trigger] sofar[a]).text@ == t;
                        assert(next[a].text@ == t);
                    } else {
                        assert(next[n as int].text@ == t);
                    }
                }
                if is_stretch(next, t) {
                    let a = choose|a: int| 0 <= a < next.len() && (#[trigger] next[a]).text@ == t;
                    if a < n {
                        assert(sofar[a].text@ == t);
                        assert(is_stretch(sofar, t));
                        let i = choose|i: int|
                            0 <= i < before.len() && (#[trigger] before[i])@ == t;
                        assert(out@[i]@ == t);
                    } else if known {
                        let i = choose|i: int|
                            0 <= i < before.len() && (#[trigger] before[i])@ == t;
                        assert(out@[i]@ == t);
                    } else {
                        assert(out@[before.len() as int]@ == t);
                    }
                }
            }
        }
        n = n + 1;
    }
    assert(segments@.take(segments.len() as int) =~= segments@);
    out
}

} // verus!
