//! The prompt: how its query changes with what the user does and with
//! what the server answers.
use vstd::prelude::*;
use vstd::string::*;
use vstd::utf8::encode_utf8;

use crate::clipboard::text_of;
use crate::query::{raw_view, texts, Mode, Query, QueryView};
use crate::romaji::segment::{process_query, segmented, transliterated};
use crate::text::{byte_offset, lemma_offset_step, lemma_offsets_rise, same, utf8_width};

verus! {

/// What a [`Msg`] holds.
pub enum Message {
    Mode(Mode),
    Change(Seq<char>),
    ForceChange(Seq<char>, Option<Seq<char>>),
    Analyzed(Seq<Seq<char>>),
    AnalyzeResponse(Seq<Seq<char>>),
    AnalyzeCycle,
    HistoryChanged(Seq<(Seq<char>, Seq<char>)>),
}

/// What happens to a prompt.
#[derive(Debug)]
pub enum Msg {
    /// The input mode was chosen.
    Mode(Mode),
    /// The text was edited.
    Change(String),
    /// Another text, with its translation if it has one, takes the place
    /// of the text.
    ForceChange(String, Option<String>),
    /// The text was analyzed on the spot, with these segments.
    Analyzed(Vec<String>),
    /// The server answered a request for analysis with these segments.
    AnalyzeResponse(Vec<String>),
    /// The selected segment was clicked.
    AnalyzeCycle,
    /// The address changed to one with these parameters.
    HistoryChanged(Vec<(String, String)>),
}

impl View for Msg {
    type V = Message;

    open spec fn view(&self) -> Message {
        match self {
            Msg::Mode(mode) => Message::Mode(*mode),
            Msg::Change(input) => Message::Change(input@),
            Msg::ForceChange(input, translation) => Message::ForceChange(
                input@,
                text_of(*translation),
            ),
            Msg::Analyzed(segments) => Message::Analyzed(texts(segments@)),
            Msg::AnalyzeResponse(segments) => Message::AnalyzeResponse(texts(segments@)),
            Msg::AnalyzeCycle => Message::AnalyzeCycle,
            Msg::HistoryChanged(raw) => Message::HistoryChanged(raw_view(raw@)),
        }
    }
}

/// What [`Effects`] hold.
pub struct Outcome {
    pub refresh: Option<Seq<char>>,
    pub save: Option<bool>,
    pub render: bool,
}

/// What is to be done after a message.
#[derive(Debug)]
pub struct Effects {
    /// Look this text up.
    pub refresh: Option<String>,
    /// Write the query to the address: as a new entry of the history where
    /// the flag is set, in place of the current one where it is not.
    pub save: Option<bool>,
    /// Draw the prompt anew.
    pub render: bool,
}

impl View for Effects {
    type V = Outcome;

    open spec fn view(&self) -> Outcome {
        Outcome { refresh: text_of(self.refresh), save: self.save, render: self.render }
    }
}

/// The query after an analysis gave `segments`, and what is to be done:
/// the first segment is looked up, and where the segments or the selection
/// change, they are saved as a new entry of the history.
pub open spec fn analyzed(query: QueryView, segments: Seq<Seq<char>>) -> (QueryView, Outcome) {
    let refresh = if segments.len() > 0 {
        Some(segments[0])
    } else {
        None
    };
    if query.a != segments || query.i != 0 {
        (
            QueryView { a: segments, i: 0, ..query },
            Outcome { refresh, save: Some(true), render: true },
        )
    } else {
        (query, Outcome { refresh, save: None, render: true })
    }
}

/// The query after a message, and what is to be done.
pub open spec fn updated(query: QueryView, message: Message) -> (QueryView, Outcome) {
    match message {
        Message::Mode(mode) => (
            QueryView { mode, q: transliterated(segmented(query.q), mode), ..query },
            Outcome { refresh: None, save: Some(false), render: true },
        ),
        Message::Change(input) => {
            let input = transliterated(segmented(input), query.mode);
            if query.q != input || query.a.len() != 0 {
                (
                    QueryView { q: input, a: Seq::empty(), translation: None, ..query },
                    Outcome { refresh: Some(input), save: Some(false), render: true },
                )
            } else {
                (query, Outcome { refresh: Some(input), save: None, render: true })
            }
        },
        Message::ForceChange(input, translation) => {
            let input = transliterated(segmented(input), query.mode);
            (
                QueryView { q: input, translation, a: Seq::empty(), ..query },
                Outcome { refresh: Some(input), save: Some(true), render: true },
            )
        },
        Message::Analyzed(segments) => if segments.len() == 0 {
            (query, Outcome { refresh: None, save: None, render: true })
        } else {
            analyzed(query, segments)
        },
        Message::AnalyzeResponse(segments) => analyzed(query, segments),
        Message::AnalyzeCycle => if query.i < query.a.len() {
            (
                QueryView { i: ((query.i + 1) % query.a.len() as int) as usize, ..query },
                Outcome { refresh: Some(query.a[query.i as int]), save: Some(true), render: true },
            )
        } else {
            (query, Outcome { refresh: None, save: None, render: false })
        },
        Message::HistoryChanged(raw) => {
            let query = QueryView::blank().with_parameters(raw);
            (query, Outcome { refresh: Some(query.input()), save: None, render: true })
        },
    }
}

/// Whether two lists hold the same texts.
pub fn same_texts(a: &Vec<String>, b: &Vec<String>) -> (eq: bool)
    ensures
        eq == (texts(a@) == texts(b@)),
{
    if a.len() != b.len() {
        assert(texts(a@).len() != texts(b@).len());
        return false;
    }
    let mut n: usize = 0;
    while n < a.len()
        invariant
            n <= a.len(),
            a.len() == b.len(),
            forall|j: int| 0 <= j < n ==> texts(a@)[j] == texts(b@)[j],
        decreases a.len() - n,
    {
        if !same(a[n].as_str(), b[n].as_str()) {
            assert(texts(a@)[n as int] != texts(b@)[n as int]);
            return false;
        }
        n = n + 1;
    }
    assert(texts(a@) =~= texts(b@));
    true
}

fn analysis(query: &mut Query, segments: Vec<String>) -> (effects: Effects)
    ensures
        (final(query)@, effects@) == analyzed(old(query)@, texts(segments@)),
{
    let refresh = if segments.len() > 0 {
        Some(String::from_str(segments[0].as_str()))
    } else {
        None
    };
    if !same_texts(&query.a, &segments) || query.i != 0 {
        query.a = segments;
        query.i = 0;
        Effects { refresh, save: Some(true), render: true }
    } else {
        Effects { refresh, save: None, render: true }
    }
}

/// Takes a message in: changes the query, and tells what is to be done.
pub fn update(query: &mut Query, msg: Msg) -> (effects: Effects)
    ensures
        (final(query)@, effects@) == updated(old(query)@, msg@),
{
    match msg {
        Msg::Mode(mode) => {
            query.mode = mode;
            query.q = process_query(query.q.as_str(), mode);
            Effects { refresh: None, save: Some(false), render: true }
        },
        Msg::Change(input) => {
            let input = process_query(input.as_str(), query.mode);
            let refresh = Some(String::from_str(input.as_str()));
            if !same(query.q.as_str(), input.as_str()) || query.a.len() != 0 {
                query.q = input;
                query.a = Vec::new();
                query.translation = None;
                assert(texts(query.a@) =~= Seq::<Seq<char>>::empty());
                Effects { refresh, save: Some(false), render: true }
            } else {
                Effects { refresh, save: None, render: true }
            }
        },
        Msg::ForceChange(input, translation) => {
            let input = process_query(input.as_str(), query.mode);
            let refresh = Some(String::from_str(input.as_str()));
            query.q = input;
            query.translation = translation;
            query.a = Vec::new();
            assert(texts(query.a@) =~= Seq::<Seq<char>>::empty());
            Effects { refresh, save: Some(true), render: true }
        },
        Msg::Analyzed(segments) => {
            if segments.len() == 0 {
                Effects { refresh: None, save: None, render: true }
            } else {
                analysis(query, segments)
            }
        },
        Msg::AnalyzeResponse(segments) => analysis(query, segments),
        Msg::AnalyzeCycle => {
            if query.i < query.a.len() {
                let refresh = Some(String::from_str(query.a[query.i].as_str()));
                query.i = (query.i + 1) % query.a.len();
                Effects { refresh, save: Some(true), render: true }
            } else {
                Effects { refresh: None, save: None, render: false }
            }
        },
        Msg::HistoryChanged(raw) => {
            *query = Query::deserialize(raw);
            let input = query.input();
            Effects { refresh: Some(input), save: None, render: true }
        },
    }
}

/// One character of the text as the prompt shows it.
#[derive(Clone, Copy, Debug, PartialEq, Eq, Structural)]
pub struct Span {
    /// The byte offset of the character in the text as it is encoded in
    /// UTF-8.
    pub at: usize,
    pub ch: char,
    /// The character belongs to the selected segment.
    pub active: bool,
    /// A click on the character does something.
    pub clickable: bool,
    /// A click selects the next segment; else it asks for the analysis of
    /// the text from this character on.
    pub cycles: bool,
}

/// Whether `text` has `segment` at position `at`.
pub open spec fn has_at(text: Seq<char>, segment: Seq<char>, at: int) -> bool {
    at + segment.len() <= text.len() && text.subrange(at, at + segment.len()) == segment
}

/// Whether the selected segment begins at position `at`, given that
/// `remaining` characters of an earlier occurrence are still to come.
pub open spec fn begins(query: QueryView, at: int, remaining: nat) -> bool {
    query.i < query.a.len() && remaining == 0 && has_at(query.q, query.a[query.i as int], at)
}

/// The characters of the selected segment that are still to come at
/// position `at`, this one included: every occurrence of the segment that
/// begins where no earlier one is under way counts.
pub open spec fn remaining_at(query: QueryView, at: int) -> nat
    decreases at,
{
    if at <= 0 {
        if begins(query, 0, 0) {
            query.a[query.i as int].len()
        } else {
            0
        }
    } else {
        let before = remaining_at(query, at - 1);
        let left = if before > 0 {
            (before - 1) as nat
        } else {
            0
        };
        if begins(query, at, left) {
            query.a[query.i as int].len()
        } else {
            left
        }
    }
}

/// What is left of the characters still to come, behind position `at`.
pub open spec fn left_after(query: QueryView, at: int) -> nat {
    if at < 0 {
        0
    } else if remaining_at(query, at) > 0 {
        (remaining_at(query, at) - 1) as nat
    } else {
        0
    }
}

/// The character at position `at` as the prompt shows it, with its byte
/// offset. It is active within an occurrence of the selected segment.
/// Where an occurrence begins, a click selects the next segment, which
/// does something only if there is more than one; elsewhere a click asks
/// for an analysis of the text from the byte offset of the character on.
pub open spec fn span_at(query: QueryView, at: int) -> Span {
    let cycles = begins(query, at, left_after(query, at - 1));
    Span {
        at: byte_offset(query.q, at) as usize,
        ch: query.q[at],
        active: remaining_at(query, at) > 0,
        clickable: !(cycles && query.a.len() <= 1),
        cycles,
    }
}

/// The characters of the text as the prompt shows them.
pub open spec fn spans(query: QueryView) -> Seq<Span> {
    Seq::new(query.q.len(), |at: int| span_at(query, at))
}

/// Whether `text` has `segment` at position `at`.
fn found_at(text: &str, len: usize, segment: &str, at: usize) -> (found: bool)
    requires
        len == text@.len(),
        at <= len,
    ensures
        found == has_at(text@, segment@, at as int),
{
    let n = segment.unicode_len();
    if n > len - at {
        return false;
    }
    let mut k: usize = 0;
    while k < n
        invariant
            k <= n,
            n == segment@.len(),
            len == text@.len(),
            at + n <= len,
            forall|j: int| 0 <= j < k ==> text@[at + j] == segment@[j],
        decreases n - k,
    {
        if text.get_char(at + k) != segment.get_char(k) {
            assert(text@.subrange(at as int, at + n)[k as int] != segment@[k as int]);
            return false;
        }
        k = k + 1;
    }
    assert(text@.subrange(at as int, at + n) =~= segment@);
    true
}

/// Lays the text of a query out for the prompt, character by character.
pub fn highlight(query: &Query) -> (out: Vec<Span>)
    ensures
        out@ == spans(query@),
{
    let text = query.q.as_str();
    let len = text.unicode_len();
    let total = text.as_bytes().len();
    let mut out: Vec<Span> = Vec::new();
    let mut remaining: usize = 0;
    let mut at: usize = 0;
    let mut offset: usize = 0;
    proof {
        lemma_offsets_rise(text@, 0, 0);
    }
    while at < len
        invariant
            at <= len,
            len == query@.q.len(),
            text@ == query@.q,
            total == encode_utf8(text@).len(),
            offset == byte_offset(text@, at as int),
            offset <= total,
            out@.len() == at,
            forall|j: int| 0 <= j < at ==> out@[j] == span_at(query@, j),
            remaining == left_after(query@, at - 1),
        decreases len - at,
    {
        let begins = query.i < query.a.len() && remaining == 0 && {
            assert(query@.a[query.i as int] == query.a@[query.i as int]@);
            found_at(text, len, query.a[query.i].as_str(), at)
        };
        if begins {
            remaining = query.a[query.i].as_str().unicode_len();
        }
        assert(remaining == remaining_at(query@, at as int));
        let ch = text.get_char(at);
        let w = utf8_width(ch);
        proof {
            lemma_offset_step(text@, at as int);
            lemma_offsets_rise(text@, at + 1, len as int);
        }
        out.push(
            Span {
                at: offset,
                ch,
                active: remaining > 0,
                clickable: !(begins && query.a.len() <= 1),
                cycles: begins,
            },
        );
        assert(texts(query.a@).len() == query.a@.len());
        if remaining > 0 {
            remaining = remaining - 1;
        }
        offset = offset + w;
        at = at + 1;
    }
    assert(out@ =~= spans(query@));
    out
}

} // verus!
