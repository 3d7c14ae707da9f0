//! The query that a prompt holds, and its form as the parameters of an
//! address.
use std::borrow::Cow;
use vstd::prelude::*;
use vstd::string::*;

use crate::number::{decimal, format_decimal, number_upto, parse_decimal};
use crate::text::same;

verus! {

/// How typed input is turned into kana.
#[derive(Clone, Copy, Debug, PartialEq, Eq, Structural, Hash)]
pub enum Mode {
    /// The input is left as it is.
    Unfiltered,
    Hiragana,
    Katakana,
}

/// What a list of strings spells.
pub open spec fn texts(list: Seq<String>) -> Seq<Seq<char>> {
    list.map_values(|s: String| s@)
}

/// What a [`Query`] holds.
pub struct QueryView {
    pub q: Seq<char>,
    pub translation: Option<Seq<char>>,
    pub a: Seq<Seq<char>>,
    pub i: usize,
    pub mode: Mode,
}

/// A query: the text that was typed, a translation shown with it, the
/// segments that the analysis of the text gave, the segment that is
/// selected, and the input mode.
#[derive(Debug)]
pub struct Query {
    pub q: String,
    pub translation: Option<String>,
    pub a: Vec<String>,
    pub i: usize,
    pub mode: Mode,
}

impl View for Query {
    type V = QueryView;

    open spec fn view(&self) -> QueryView {
        QueryView {
            q: self.q@,
            translation: crate::clipboard::text_of(self.translation),
            a: texts(self.a@),
            i: self.i,
            mode: self.mode,
        }
    }
}

/// The mode that a parameter names; anything but the two kana is the mode
/// that leaves input as it is.
pub open spec fn mode_named(value: Seq<char>) -> Mode {
    if value == "hiragana"@ {
        Mode::Hiragana
    } else if value == "katakana"@ {
        Mode::Katakana
    } else {
        Mode::Unfiltered
    }
}

impl QueryView {
    /// The query that nothing was typed into.
    pub open spec fn blank() -> QueryView {
        QueryView {
            q: Seq::empty(),
            translation: None,
            a: Seq::empty(),
            i: 0,
            mode: Mode::Unfiltered,
        }
    }

    /// The query with one parameter taken in: `q` sets the text, `t` the
    /// translation, `a` adds a segment, `i` selects one where its value is a
    /// number that fits, `mode` sets the mode. Any other parameter is passed
    /// over.
    pub open spec fn with_parameter(self, key: Seq<char>, value: Seq<char>) -> QueryView {
        if key == "q"@ {
            QueryView { q: value, ..self }
        } else if key == "t"@ {
            QueryView { translation: Some(value), ..self }
        } else if key == "a"@ {
            QueryView { a: self.a.push(value), ..self }
        } else if key == "i"@ {
            match number_upto(value, usize::MAX as u64) {
                Some(i) => QueryView { i: i as usize, ..self },
                None => self,
            }
        } else if key == "mode"@ {
            QueryView { mode: mode_named(value), ..self }
        } else {
            self
        }
    }

    /// The query with the parameters taken in, in their order.
    pub open spec fn with_parameters(self, raw: Seq<(Seq<char>, Seq<char>)>) -> QueryView
        decreases raw.len(),
    {
        if raw.len() == 0 {
            self
        } else {
            self.with_parameters(raw.drop_last()).with_parameter(raw.last().0, raw.last().1)
        }
    }

    /// The parameters of the query: the text unless it is empty, the
    /// translation if there is one, each segment, the selection unless it is
    /// the first, and the mode unless it leaves input as it is.
    pub open spec fn parameters(self) -> Seq<(Seq<char>, Seq<char>)> {
        let q = if self.q.len() == 0 {
            Seq::empty()
        } else {
            seq![("q"@, self.q)]
        };
        let t = match self.translation {
            Some(t) => seq![("t"@, t)],
            None => Seq::empty(),
        };
        let a = self.a.map_values(|segment: Seq<char>| ("a"@, segment));
        let i = if self.i != 0 {
            seq![("i"@, decimal(self.i as nat))]
        } else {
            Seq::empty()
        };
        let mode = match self.mode {
            Mode::Unfiltered => Seq::empty(),
            Mode::Hiragana => seq![("mode"@, "hiragana"@)],
            Mode::Katakana => seq![("mode"@, "katakana"@)],
        };
        q + t + a + i + mode
    }

    /// The text that is looked up: the selected segment where there is one,
    /// else the text that was typed.
    pub open spec fn input(self) -> Seq<char> {
        if self.i < self.a.len() {
            self.a[self.i as int]
        } else {
            self.q
        }
    }
}

/// Parameters taken in one list after the other are taken in as one
/// list.
pub proof fn lemma_parameters_joined(
    query: QueryView,
    first: Seq<(Seq<char>, Seq<char>)>,
    second: Seq<(Seq<char>, Seq<char>)>,
)
    ensures
        query.with_parameters(first + second) == query.with_parameters(first).with_parameters(
            second,
        ),
    decreases second.len(),
{
    if second.len() == 0 {
        assert(first + second =~= first);
    } else {
        lemma_parameters_joined(query, first, second.drop_last());
        assert((first + second).drop_last() =~= first + second.drop_last());
        assert((first + second).last() == second.last());
    }
}

/// The names of the parameters differ from one another.
proof fn lemma_names_differ()
    ensures
        "q"@ != "t"@,
        "q"@ != "a"@,
        "q"@ != "i"@,
        "q"@ != "mode"@,
        "t"@ != "a"@,
        "t"@ != "i"@,
        "t"@ != "mode"@,
        "a"@ != "i"@,
        "a"@ != "mode"@,
        "i"@ != "mode"@,
        "hiragana"@ != "katakana"@,
{
    reveal_strlit("q");
    reveal_strlit("t");
    reveal_strlit("a");
    reveal_strlit("i");
    reveal_strlit("mode");
    reveal_strlit("hiragana");
    reveal_strlit("katakana");
    assert("q"@[0] == 'q');
    assert("t"@[0] == 't');
    assert("a"@[0] == 'a');
    assert("i"@[0] == 'i');
    assert("mode"@.len() == 4);
    assert("hiragana"@[0] == 'h');
    assert("katakana"@[0] == 'k');
}

/// Segments taken in as parameters are added behind those that are
/// there.
proof fn lemma_segments_taken(query: QueryView, segments: Seq<Seq<char>>)
    ensures
        query.with_parameters(segments.map_values(|segment: Seq<char>| ("a"@, segment)))
            == (QueryView { a: query.a + segments, ..query }),
    decreases segments.len(),
{
    lemma_names_differ();
    let raw = segments.map_values(|segment: Seq<char>| ("a"@, segment));
    if segments.len() == 0 {
        assert(query.a + segments =~= query.a);
    } else {
        let front = segments.drop_last();
        lemma_segments_taken(query, front);
        assert(raw.drop_last() =~= front.map_values(|segment: Seq<char>| ("a"@, segment)));
        assert(raw.last() == ("a"@, segments.last()));
        assert((query.a + front).push(segments.last()) =~= query.a + segments);
    }
}

/// A query that is written as the parameters of an address is read back
/// from them: the same text, translation, segments, selection and mode.
pub proof fn lemma_query_round_trip(query: QueryView)
    ensures
        QueryView::blank().with_parameters(query.parameters()) == query,
{
    lemma_names_differ();
    let blank = QueryView::blank();
    let q = if query.q.len() == 0 {
        Seq::empty()
    } else {
        seq![("q"@, query.q)]
    };
    let t = match query.translation {
        Some(t) => seq![("t"@, t)],
        None => Seq::empty(),
    };
    let a = query.a.map_values(|segment: Seq<char>| ("a"@, segment));
    let i = if query.i != 0 {
        seq![("i"@, decimal(query.i as nat))]
    } else {
        Seq::empty()
    };
    let mode = match query.mode {
        Mode::Unfiltered => Seq::empty(),
        Mode::Hiragana => seq![("mode"@, "hiragana"@)],
        Mode::Katakana => seq![("mode"@, "katakana"@)],
    };
    let one = blank.with_parameters(q);
    assert(one == (QueryView { q: query.q, ..blank })) by {
        if query.q.len() > 0 {
            assert(q.drop_last() =~= Seq::empty());
            assert(blank.with_parameters(q.drop_last()) == blank);
        } else {
            assert(query.q =~= Seq::<char>::empty());
        }
    }
    let two = one.with_parameters(t);
    assert(two == (QueryView { translation: query.translation, ..one })) by {
        if query.translation is Some {
            assert(t.drop_last() =~= Seq::empty());
            assert(one.with_parameters(t.drop_last()) == one);
        }
    }
    let three = two.with_parameters(a);
    lemma_segments_taken(two, query.a);
    assert(two.a + query.a =~= query.a);
    let four = three.with_parameters(i);
    assert(four == (QueryView { i: query.i, ..three })) by {
        if query.i != 0 {
            crate::number::lemma_decimal_read_back(query.i as nat);
            assert(i.drop_last() =~= Seq::empty());
            assert(three.with_parameters(i.drop_last()) == three);
        }
    }
    let five = four.with_parameters(mode);
    assert(five == (QueryView { mode: query.mode, ..four })) by {
        if !(query.mode is Unfiltered) {
            assert(mode.drop_last() =~= Seq::empty());
            assert(four.with_parameters(mode.drop_last()) == four);
        }
    }
    lemma_parameters_joined(blank, q, t);
    lemma_parameters_joined(blank, q + t, a);
    lemma_parameters_joined(blank, q + t + a, i);
    lemma_parameters_joined(blank, q + t + a + i, mode);
}

/// What raw parameters spell.
pub open spec fn raw_view(raw: Seq<(String, String)>) -> Seq<(Seq<char>, Seq<char>)> {
    raw.map_values(|p: (String, String)| (p.0@, p.1@))
}

/// What parameters spell.
pub open spec fn parameters_view(list: Seq<(&'static str, Cow<'_, str>)>) -> Seq<
    (Seq<char>, Seq<char>),
> {
    list.map_values(|p: (&'static str, Cow<'_, str>)| (p.0@, p.1@))
}

impl Query {
    /// The query that nothing was typed into.
    pub fn new() -> (query: Query)
        ensures
            query@ == QueryView::blank(),
    {
        let query = Query {
            q: String::new(),
            translation: None,
            a: Vec::new(),
            i: 0,
            mode: Mode::Unfiltered,
        };
        assert(texts(query.a@) =~= Seq::<Seq<char>>::empty());
        query
    }

    /// Reads a query from the parameters of an address.
    pub fn deserialize(raw: Vec<(String, String)>) -> (query: Query)
        ensures
            query@ == QueryView::blank().with_parameters(raw_view(raw@)),
    {
        let mut this = Query::new();
        let mut n: usize = 0;
        assert(raw_view(raw@).take(0) =~= Seq::<(Seq<char>, Seq<char>)>::empty());
        while n < raw.len()
            invariant
                n <= raw.len(),
                this@ == QueryView::blank().with_parameters(raw_view(raw@).take(n as int)),
            decreases raw.len() - n,
        {
            let key = raw[n].0.as_str();
            let value = raw[n].1.as_str();
            let ghost before = this@;
            proof {
                let all = raw_view(raw@);
                assert(all.take(n + 1).drop_last() =~= all.take(n as int));
                assert(all.take(n + 1).last() == (key@, value@));
            }
            if same(key, "q") {
                this.q = String::from_str(value);
            } else if same(key, "t") {
                this.translation = Some(String::from_str(value));
            } else if same(key, "a") {
                this.a.push(String::from_str(value));
                assert(texts(this.a@) =~= before.a.push(value@));
            } else if same(key, "i") {
                match parse_decimal(value, usize::MAX as u64) {
                    Some(i) => {
                        this.i = i as usize;
                    },
                    None => {},
                }
            } else if same(key, "mode") {
                this.mode = if same(value, "hiragana") {
                    Mode::Hiragana
                } else if same(value, "katakana") {
                    Mode::Katakana
                } else {
                    Mode::Unfiltered
                };
            }
            assert(this@ == before.with_parameter(key@, value@));
            n = n + 1;
        }
        assert(raw_view(raw@).take(raw.len() as int) =~= raw_view(raw@));
        this
    }

    /// Writes the query as the parameters of an address.
    pub fn serialize(&self) -> (out: Vec<(&'static str, Cow<'_, str>)>)
        ensures
            parameters_view(out@) == self@.parameters(),
    {
        let mut out: Vec<(&'static str, Cow<'_, str>)> = Vec::new();
        let ghost q = if self@.q.len() == 0 {
            Seq::<(Seq<char>, Seq<char>)>::empty()
        } else {
            seq![("q"@, self@.q)]
        };
        let ghost t = match self@.translation {
            Some(t) => seq![("t"@, t)],
            None => Seq::<(Seq<char>, Seq<char>)>::empty(),
        };
        if !self.q.as_str().is_empty() {
            out.push(("q", Cow::Borrowed(self.q.as_str())));
        }
        assert(parameters_view(out@) =~= q);
        match &self.translation {
            Some(t) => {
                out.push(("t", Cow::Borrowed(t.as_str())));
            },
            None => {},
        }
        assert(parameters_view(out@) =~= q + t);
        let ghost segments = self@.a.map_values(|segment: Seq<char>| ("a"@, segment));
        let mut n: usize = 0;
        assert(parameters_view(out@) =~= q + t + segments.take(0));
        while n < self.a.len()
            invariant
                n <= self.a.len(),
                segments == self@.a.map_values(|segment: Seq<char>| ("a"@, segment)),
                parameters_view(out@) == q + t + segments.take(n as int),
            decreases self.a.len() - n,
        {
            let ghost before = parameters_view(out@);
            out.push(("a", Cow::Borrowed(self.a[n].as_str())));
            proof {
                assert(self@.a[n as int] == self.a@[n as int]@);
                assert(segments[n as int] == ("a"@, self@.a[n as int]));
                assert(parameters_view(out@) =~= before.push(("a"@, self.a@[n as int]@)));
                assert(segments.take(n + 1) =~= segments.take(n as int).push(segments[n as int]));
                assert(before.push(segments[n as int]) =~= q + t + segments.take(n + 1));
            }
            n = n + 1;
        }
        assert(segments.take(self.a.len() as int) =~= segments);
        let ghost i = if self.i != 0 {
            seq![("i"@, decimal(self.i as nat))]
        } else {
            Seq::<(Seq<char>, Seq<char>)>::empty()
        };
        if self.i != 0 {
            out.push(("i", Cow::Owned(format_decimal(self.i as u64))));
        }
        assert(parameters_view(out@) =~= q + t + segments + i);
        let ghost mode = match self.mode {
            Mode::Unfiltered => Seq::<(Seq<char>, Seq<char>)>::empty(),
            Mode::Hiragana => seq![("mode"@, "hiragana"@)],
            Mode::Katakana => seq![("mode"@, "katakana"@)],
        };
        match self.mode {
            Mode::Unfiltered => {},
            Mode::Hiragana => {
                out.push(("mode", Cow::Borrowed("hiragana")));
            },
            Mode::Katakana => {
                out.push(("mode", Cow::Borrowed("katakana")));
            },
        }
        assert(parameters_view(out@) =~= q + t + segments + i + mode);
        out
    }

    /// The text that is looked up: the selected segment where there is one,
    /// else the text that was typed.
    pub fn input(&self) -> (input: String)
        ensures
            input@ == self@.input(),
    {
        if self.i < self.a.len() {
            String::from_str(self.a[self.i].as_str())
        } else {
            String::from_str(self.q.as_str())
        }
    }
}

/// Reads the query of an address, which may have none that can be read,
/// and tells what to look up.
pub fn decode_query(raw: Option<Vec<(String, String)>>) -> (decoded: (Query, String))
    ensures
        decoded.0@ == QueryView::blank().with_parameters(
            match raw {
                Some(raw) => raw_view(raw@),
                None => Seq::empty(),
            },
        ),
        decoded.1@ == decoded.0@.input(),
{
    let raw = match raw {
        Some(raw) => raw,
        None => {
            let raw: Vec<(String, String)> = Vec::new();
            assert(raw_view(raw@) =~= Seq::<(Seq<char>, Seq<char>)>::empty());
            raw
        },
    };
    let query = Query::deserialize(raw);
    let input = query.input();
    (query, input)
}

} // verus!
