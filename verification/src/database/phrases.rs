//! The index of phrases: every surface form with the entry that has it,
//! in the order of the forms.
use vstd::prelude::*;
use vstd::slice::slice_subrange;

use super::model::{bytes_at, lies_in};
use super::order::{
    compare, lemma_lex_antisym, lemma_lex_refl, lemma_lex_total, lemma_lex_trans, lex_le, Order,
};
use super::records::StrRef;

verus! {

/// A surface form and the position of an entry that has it.
#[derive(Clone, Copy, Debug, PartialEq, Eq, Structural, Hash)]
pub struct Phrase {
    pub text: StrRef,
    pub entry: u32,
}

/// Whether one phrase comes before another or is the same: by their
/// forms, and among equal forms by the position of the entry.
pub open spec fn phrase_le(strings: Seq<u8>, x: Phrase, y: Phrase) -> bool {
    let a = bytes_at(strings, x.text);
    let b = bytes_at(strings, y.text);
    if a == b {
        x.entry <= y.entry
    } else {
        lex_le(a, b)
    }
}

/// Of two phrases one comes before the other.
pub proof fn lemma_phrase_total(strings: Seq<u8>, x: Phrase, y: Phrase)
    ensures
        phrase_le(strings, x, y) || phrase_le(strings, y, x),
{
    lemma_lex_total(bytes_at(strings, x.text), bytes_at(strings, y.text));
}

/// The order of phrases is transitive.
pub proof fn lemma_phrase_trans(strings: Seq<u8>, x: Phrase, y: Phrase, z: Phrase)
    requires
        phrase_le(strings, x, y),
        phrase_le(strings, y, z),
    ensures
        phrase_le(strings, x, z),
{
    let a = bytes_at(strings, x.text);
    let b = bytes_at(strings, y.text);
    let c = bytes_at(strings, z.text);
    lemma_lex_refl(a);
    lemma_lex_refl(b);
    lemma_lex_refl(c);
    if a == c && a != b {
        lemma_lex_antisym(a, b);
    } else {
        lemma_lex_trans(a, b, c);
    }
}

/// Whether the forms of all phrases lie in the strings.
pub open spec fn phrases_lie_in(strings: Seq<u8>, rows: Seq<Phrase>) -> bool {
    forall|i: int| 0 <= i < rows.len() ==> lies_in(strings, (#[trigger] rows[i]).text)
}

/// Whether phrases are in order.
pub open spec fn ascending(strings: Seq<u8>, rows: Seq<Phrase>) -> bool {
    forall|i: int, j: int|
        0 <= i < j < rows.len() ==> phrase_le(strings, #[trigger] rows[i], #[trigger] rows[j])
}

/// Two runs of phrases merged into one: the phrase that comes first of
/// the two heads is taken, the head of the first run where both are the
/// same.
pub open spec fn merged(strings: Seq<u8>, a: Seq<Phrase>, b: Seq<Phrase>) -> Seq<Phrase>
    decreases a.len() + b.len(),
{
    if a.len() == 0 {
        b
    } else if b.len() == 0 {
        a
    } else if phrase_le(strings, a[0], b[0]) {
        seq![a[0]] + merged(strings, a.skip(1), b)
    } else {
        seq![b[0]] + merged(strings, a, b.skip(1))
    }
}

/// Phrases put in order: each half is put in order, and the halves are
/// merged.
pub open spec fn sorted(strings: Seq<u8>, rows: Seq<Phrase>) -> Seq<Phrase>
    decreases rows.len(),
{
    if rows.len() <= 1 {
        rows
    } else {
        let mid = (rows.len() / 2) as int;
        merged(strings, sorted(strings, rows.take(mid)), sorted(strings, rows.skip(mid)))
    }
}

/// Merging keeps every phrase and adds none.
pub proof fn lemma_merged_holds(strings: Seq<u8>, a: Seq<Phrase>, b: Seq<Phrase>)
    ensures
        merged(strings, a, b).len() == a.len() + b.len(),
        forall|x: Phrase|
            #[trigger] merged(strings, a, b).contains(x) <==> a.contains(x) || b.contains(x),
    decreases a.len() + b.len(),
{
    let m = merged(strings, a, b);
    if a.len() == 0 || b.len() == 0 {
        assert forall|x: Phrase| #[trigger] m.contains(x) <==> a.contains(x) || b.contains(x) by {
            if a.len() == 0 && a.contains(x) {
                let i = choose|i: int| 0 <= i < a.len() && a[i] == x;
            }
            if b.len() == 0 && b.contains(x) {
                let i = choose|i: int| 0 <= i < b.len() && b[i] == x;
            }
        }
    } else if phrase_le(strings, a[0], b[0]) {
        lemma_merged_holds(strings, a.skip(1), b);
        let rest = merged(strings, a.skip(1), b);
        assert forall|x: Phrase| #[trigger] m.contains(x) <==> a.contains(x) || b.contains(x) by {
            if m.contains(x) {
                let i = choose|i: int| 0 <= i < m.len() && m[i] == x;
                if i == 0 {
                    assert(a[0] == x);
                } else {
                    assert(rest[i - 1] == x);
                    assert(rest.contains(x));
                    if a.skip(1).contains(x) {
                        let k = choose|k: int| 0 <= k < a.skip(1).len() && a.skip(1)[k] == x;
                        assert(a[k + 1] == x);
                    }
                }
            }
            if a.contains(x) {
                let k = choose|k: int| 0 <= k < a.len() && a[k] == x;
                if k == 0 {
                    assert(m[0] == x);
                } else {
                    assert(a.skip(1)[k - 1] == x);
                    assert(rest.contains(x));
                    let i = choose|i: int| 0 <= i < rest.len() && rest[i] == x;
                    assert(m[i + 1] == x);
                }
            }
            if b.contains(x) {
                assert(rest.contains(x));
                let i = choose|i: int| 0 <= i < rest.len() && rest[i] == x;
                assert(m[i + 1] == x);
            }
        }
    } else {
        lemma_merged_holds(strings, a, b.skip(1));
        let rest = merged(strings, a, b.skip(1));
        assert forall|x: Phrase| #[trigger] m.contains(x) <==> a.contains(x) || b.contains(x) by {
            if m.contains(x) {
                let i = choose|i: int| 0 <= i < m.len() && m[i] == x;
                if i == 0 {
                    assert(b[0] == x);
                } else {
                    assert(rest[i - 1] == x);
                    assert(rest.contains(x));
                    if b.skip(1).contains(x) {
                        let k = choose|k: int| 0 <= k < b.skip(1).len() && b.skip(1)[k] == x;
                        assert(b[k + 1] == x);
                    }
                }
            }
            if b.contains(x) {
                let k = choose|k: int| 0 <= k < b.len() && b[k] == x;
                if k == 0 {
                    assert(m[0] == x);
                } else {
                    assert(b.skip(1)[k - 1] == x);
                    assert(rest.contains(x));
                    let i = choose|i: int| 0 <= i < rest.len() && rest[i] == x;
                    assert(m[i + 1] == x);
                }
            }
            if a.contains(x) {
                assert(rest.contains(x));
                let i = choose|i: int| 0 <= i < rest.len() && rest[i] == x;
                assert(m[i + 1] == x);
            }
        }
    }
}

/// Runs that are in order are in order when merged.
pub proof fn lemma_merged_ascending(strings: Seq<u8>, a: Seq<Phrase>, b: Seq<Phrase>)
    requires
        ascending(strings, a),
        ascending(strings, b),
    ensures
        ascending(strings, merged(strings, a, b)),
    decreases a.len() + b.len(),
{
    let m = merged(strings, a, b);
    if a.len() == 0 || b.len() == 0 {
    } else if phrase_le(strings, a[0], b[0]) {
        let rest = merged(strings, a.skip(1), b);
        assert(ascending(strings, a.skip(1))) by {
            assert forall|i: int, j: int| 0 <= i < j < a.skip(1).len() implies phrase_le(
                strings,
                #[trigger] a.skip(1)[i],
                #[trigger] a.skip(1)[j],
            ) by {
                assert(phrase_le(strings, a[i + 1], a[j + 1]));
            }
        }
        lemma_merged_ascending(strings, a.skip(1), b);
        lemma_merged_holds(strings, a.skip(1), b);
        assert forall|i: int, j: int| 0 <= i < j < m.len() implies phrase_le(
            strings,
            #[trigger] m[i],
            #[trigger] m[j],
        ) by {
            if i == 0 {
                let x = rest[j - 1];
                assert(rest.contains(x));
                if a.skip(1).contains(x) {
                    let k = choose|k: int| 0 <= k < a.skip(1).len() && a.skip(1)[k] == x;
                    assert(phrase_le(strings, a[0], a[k + 1]));
                } else {
                    let k = choose|k: int| 0 <= k < b.len() && b[k] == x;
                    if k > 0 {
                        assert(phrase_le(strings, b[0], b[k]));
                        lemma_phrase_trans(strings, a[0], b[0], b[k]);
                    }
                }
            } else {
                assert(phrase_le(strings, rest[i - 1], rest[j - 1]));
            }
        }
    } else {
        let rest = merged(strings, a, b.skip(1));
        lemma_phrase_total(strings, a[0], b[0]);
        assert(ascending(strings, b.skip(1))) by {
            assert forall|i: int, j: int| 0 <= i < j < b.skip(1).len() implies phrase_le(
                strings,
                #[trigger] b.skip(1)[i],
                #[trigger] b.skip(1)[j],
            ) by {
                assert(phrase_le(strings, b[i + 1], b[j + 1]));
            }
        }
        lemma_merged_ascending(strings, a, b.skip(1));
        lemma_merged_holds(strings, a, b.skip(1));
        assert forall|i: int, j: int| 0 <= i < j < m.len() implies phrase_le(
            strings,
            #[trigger] m[i],
            #[trigger] m[j],
        ) by {
            if i == 0 {
                let x = rest[j - 1];
                assert(rest.contains(x));
                if b.skip(1).contains(x) {
                    let k = choose|k: int| 0 <= k < b.skip(1).len() && b.skip(1)[k] == x;
                    assert(phrase_le(strings, b[0], b[k + 1]));
                } else {
                    let k = choose|k: int| 0 <= k < a.len() && a[k] == x;
                    if k > 0 {
                        assert(phrase_le(strings, a[0], a[k]));
                        lemma_phrase_trans(strings, b[0], a[0], a[k]);
                    }
                }
            } else {
                assert(phrase_le(strings, rest[i - 1], rest[j - 1]));
            }
        }
    }
}

/// Phrases that were put in order are in order, and are the phrases that
/// were there.
pub proof fn lemma_sorted(strings: Seq<u8>, rows: Seq<Phrase>)
    ensures
        ascending(strings, sorted(strings, rows)),
        sorted(strings, rows).len() == rows.len(),
        forall|x: Phrase| #[trigger] sorted(strings, rows).contains(x) <==> rows.contains(x),
    decreases rows.len(),
{
    if rows.len() > 1 {
        let mid = (rows.len() / 2) as int;
        let left = rows.take(mid);
        let right = rows.skip(mid);
        lemma_sorted(strings, left);
        lemma_sorted(strings, right);
        lemma_merged_ascending(strings, sorted(strings, left), sorted(strings, right));
        lemma_merged_holds(strings, sorted(strings, left), sorted(strings, right));
        assert forall|x: Phrase| #[trigger] sorted(strings, rows).contains(x) <==> rows.contains(
            x,
        ) by {
            if left.contains(x) {
                let k = choose|k: int| 0 <= k < left.len() && left[k] == x;
                assert(rows[k] == x);
            }
            if right.contains(x) {
                let k = choose|k: int| 0 <= k < right.len() && right[k] == x;
                assert(rows[k + mid] == x);
            }
            if rows.contains(x) {
                let k = choose|k: int| 0 <= k < rows.len() && rows[k] == x;
                if k < mid {
                    assert(left[k] == x);
                } else {
                    assert(right[k - mid] == x);
                }
            }
        }
    }
}

/// Phrases without those that repeat the phrase before them.
pub open spec fn distinct(rows: Seq<Phrase>) -> Seq<Phrase>
    decreases rows.len(),
{
    if rows.len() == 0 {
        rows
    } else {
        let rest = distinct(rows.drop_last());
        if rest.len() > 0 && rest.last() == rows.last() {
            rest
        } else {
            rest.push(rows.last())
        }
    }
}

/// Taking repeated phrases out keeps every phrase once, adds none, and
/// keeps the order.
pub proof fn lemma_distinct(strings: Seq<u8>, rows: Seq<Phrase>)
    ensures
        distinct(rows).len() <= rows.len(),
        forall|x: Phrase| #[trigger] distinct(rows).contains(x) <==> rows.contains(x),
        ascending(strings, rows) ==> ascending(strings, distinct(rows)),
    decreases rows.len(),
{
    if rows.len() > 0 {
        let front = rows.drop_last();
        let last = rows.last();
        lemma_distinct(strings, front);
        let rest = distinct(front);
        let all = distinct(rows);
        assert forall|x: Phrase| #[trigger] all.contains(x) <==> rows.contains(x) by {
            if all.contains(x) {
                let i = choose|i: int| 0 <= i < all.len() && all[i] == x;
                if i < rest.len() {
                    assert(rest[i] == x);
                    assert(rest.contains(x));
                    let k = choose|k: int| 0 <= k < front.len() && front[k] == x;
                    assert(rows[k] == x);
                } else {
                    assert(rows[rows.len() - 1] == x);
                }
            }
            if rows.contains(x) {
                let k = choose|k: int| 0 <= k < rows.len() && rows[k] == x;
                if k < front.len() {
                    assert(front[k] == x);
                    assert(rest.contains(x));
                    let i = choose|i: int| 0 <= i < rest.len() && rest[i] == x;
                    assert(all[i] == x);
                } else if rest.len() > 0 && rest.last() == last {
                    assert(all[rest.len() - 1] == x);
                } else {
                    assert(all[rest.len() as int] == x);
                }
            }
        }
        if ascending(strings, rows) {
            assert(ascending(strings, front)) by {
                assert forall|i: int, j: int| 0 <= i < j < front.len() implies phrase_le(
                    strings,
                    #[trigger] front[i],
                    #[trigger] front[j],
                ) by {
                    assert(phrase_le(strings, rows[i], rows[j]));
                }
            }
            assert forall|i: int, j: int| 0 <= i < j < all.len() implies phrase_le(
                strings,
                #[trigger] all[i],
                #[trigger] all[j],
            ) by {
                if j < rest.len() {
                    assert(phrase_le(strings, rest[i], rest[j]));
                } else {
                    assert(rest.contains(rest[i]));
                    let k = choose|k: int| 0 <= k < front.len() && front[k] == rest[i];
                    assert(phrase_le(strings, rows[k], rows[rows.len() - 1]));
                }
            }
        }
    }
}

/// Takes the phrases out that repeat the phrase before them.
pub fn dedup(rows: &Vec<Phrase>) -> (out: Vec<Phrase>)
    ensures
        out@ == distinct(rows@),
{
    let mut out: Vec<Phrase> = Vec::new();
    let mut n: usize = 0;
    assert(rows@.take(0) =~= Seq::<Phrase>::empty());
    while n < rows.len()
        invariant
            n <= rows.len(),
            out@ == distinct(rows@.take(n as int)),
        decreases rows.len() - n,
    {
        proof {
            assert(rows@.take(n + 1).drop_last() =~= rows@.take(n as int));
            assert(rows@.take(n + 1).last() == rows@[n as int]);
        }
        let row = rows[n];
        let repeated = out.len() > 0 && {
            let last = out[out.len() - 1];
            last.text.offset == row.text.offset && last.text.len == row.text.len && last.entry
                == row.entry
        };
        if !repeated {
            out.push(row);
        }
        n = n + 1;
    }
    assert(rows@.take(rows.len() as int) =~= rows@);
    out
}

/// Whether one phrase comes before another or is the same.
pub(crate) fn precedes(strings: &[u8], x: Phrase, y: Phrase) -> (b: bool)
    requires
        lies_in(strings@, x.text),
        lies_in(strings@, y.text),
    ensures
        b == phrase_le(strings@, x, y),
{
    let size = strings.len();
    let a = slice_subrange(strings, x.text.offset as usize, x.text.offset as usize + x.text.len as usize);
    let b = slice_subrange(strings, y.text.offset as usize, y.text.offset as usize + y.text.len as usize);
    match compare(a, b) {
        Order::Before => true,
        Order::Same => x.entry <= y.entry,
        Order::After => false,
    }
}

/// Merges two runs of phrases into one.
pub(crate) fn merge(strings: &[u8], a: &Vec<Phrase>, b: &Vec<Phrase>) -> (out: Vec<Phrase>)
    requires
        phrases_lie_in(strings@, a@),
        phrases_lie_in(strings@, b@),
    ensures
        out@ == merged(strings@, a@, b@),
{
    let mut out: Vec<Phrase> = Vec::new();
    let mut i: usize = 0;
    let mut j: usize = 0;
    proof {
        assert(a@.skip(0) =~= a@);
        assert(b@.skip(0) =~= b@);
        assert(out@ + merged(strings@, a@, b@) =~= merged(strings@, a@, b@));
    }
    while i < a.len() && j < b.len()
        invariant
            i <= a.len(),
            j <= b.len(),
            phrases_lie_in(strings@, a@),
            phrases_lie_in(strings@, b@),
            merged(strings@, a@, b@) == out@ + merged(
                strings@,
                a@.skip(i as int),
                b@.skip(j as int),
            ),
        decreases a.len() - i + b.len() - j,
    {
        let ghost before = out@;
        let ghost x = a@.skip(i as int);
        let ghost y = b@.skip(j as int);
        assert(x[0] == a@[i as int] && y[0] == b@[j as int]);
        if precedes(strings, a[i], b[j]) {
            out.push(a[i]);
            i = i + 1;
            proof {
                assert(x.skip(1) =~= a@.skip(i as int));
                assert(before + (seq![x[0]] + merged(strings@, x.skip(1), y)) =~= out@ + merged(
                    strings@,
                    x.skip(1),
                    y,
                ));
            }
        } else {
            out.push(b[j]);
            j = j + 1;
            proof {
                assert(y.skip(1) =~= b@.skip(j as int));
                assert(before + (seq![y[0]] + merged(strings@, x, y.skip(1))) =~= out@ + merged(
                    strings@,
                    x,
                    y.skip(1),
                ));
            }
        }
    }
    proof {
        let x = a@.skip(i as int);
        let y = b@.skip(j as int);
        assert(merged(strings@, x, y) =~= x + y);
        assert(out@ + (x + y) =~= out@ + x + y);
    }
    while i < a.len()
        invariant
            i <= a.len(),
            j <= b.len(),
            merged(strings@, a@, b@) == out@ + a@.skip(i as int) + b@.skip(j as int),
        decreases a.len() - i,
    {
        let ghost before = out@;
        out.push(a[i]);
        proof {
            assert(before + a@.skip(i as int) =~= out@ + a@.skip(i + 1));
        }
        i = i + 1;
    }
    proof {
        assert(a@.skip(a.len() as int) =~= Seq::<Phrase>::empty());
        assert(out@ + Seq::<Phrase>::empty() =~= out@);
    }
    while j < b.len()
        invariant
            j <= b.len(),
            i == a.len(),
            merged(strings@, a@, b@) == out@ + b@.skip(j as int),
        decreases b.len() - j,
    {
        let ghost before = out@;
        out.push(b[j]);
        proof {
            assert(before + b@.skip(j as int) =~= out@ + b@.skip(j + 1));
        }
        j = j + 1;
    }
    proof {
        assert(a@.skip(a.len() as int) =~= Seq::<Phrase>::empty());
        assert(b@.skip(b.len() as int) =~= Seq::<Phrase>::empty());
        assert(out@ + Seq::<Phrase>::empty() =~= out@);
    }
    out
}

/// The phrases from `from` up to `to`.
fn part(rows: &Vec<Phrase>, from: usize, to: usize) -> (out: Vec<Phrase>)
    requires
        from <= to <= rows.len(),
    ensures
        out@ == rows@.subrange(from as int, to as int),
{
    let mut out: Vec<Phrase> = Vec::new();
    let mut n: usize = from;
    while n < to
        invariant
            from <= n <= to <= rows.len(),
            out@ == rows@.subrange(from as int, n as int),
        decreases to - n,
    {
        out.push(rows[n]);
        n = n + 1;
        assert(out@ =~= rows@.subrange(from as int, n as int));
    }
    out
}

/// Puts phrases in order.
pub(crate) fn sort(strings: &[u8], rows: Vec<Phrase>) -> (out: Vec<Phrase>)
    requires
        phrases_lie_in(strings@, rows@),
    ensures
        out@ == sorted(strings@, rows@),
    decreases rows@.len(),
{
    if rows.len() <= 1 {
        return rows;
    }
    let mid = rows.len() / 2;
    let left = part(&rows, 0, mid);
    let right = part(&rows, mid, rows.len());
    proof {
        assert(left@ =~= rows@.take(mid as int));
        assert(right@ =~= rows@.skip(mid as int));
        assert forall|i: int| 0 <= i < left@.len() implies lies_in(
            strings@,
            (#[trigger] left@[i]).text,
        ) by {
            assert(left@[i] == rows@[i]);
        }
        assert forall|i: int| 0 <= i < right@.len() implies lies_in(
            strings@,
            (#[trigger] right@[i]).text,
        ) by {
            assert(right@[i] == rows@[i + mid]);
        }
    }
    let left = sort(strings, left);
    let right = sort(strings, right);
    proof {
        lemma_sorted(strings@, rows@.take(mid as int));
        lemma_sorted(strings@, rows@.skip(mid as int));
        assert forall|i: int| 0 <= i < left@.len() implies lies_in(
            strings@,
            (#[trigger] left@[i]).text,
        ) by {
            assert(left@.contains(left@[i]));
            assert(rows@.take(mid as int).contains(left@[i]));
            let k = choose|k: int|
                0 <= k < rows@.take(mid as int).len() && rows@.take(mid as int)[k] == left@[i];
            assert(rows@[k] == left@[i]);
        }
        assert forall|i: int| 0 <= i < right@.len() implies lies_in(
            strings@,
            (#[trigger] right@[i]).text,
        ) by {
            assert(right@.contains(right@[i]));
            assert(rows@.skip(mid as int).contains(right@[i]));
            let k = choose|k: int|
                0 <= k < rows@.skip(mid as int).len() && rows@.skip(mid as int)[k] == right@[i];
            assert(rows@[k + mid] == right@[i]);
        }
    }
    merge(strings, &left, &right)
}

/// The words of phrases: the form and the entry of each.
pub open spec fn phrase_words(rows: Seq<Phrase>) -> Seq<u32> {
    Seq::new(
        3 * rows.len(),
        |j: int|
            if j % 3 == 0 {
                rows[j / 3].text.offset
            } else if j % 3 == 1 {
                rows[j / 3].text.len
            } else {
                rows[j / 3].entry
            },
    )
}

/// The phrases that a column holds, if it holds whole records.
pub open spec fn phrases_of(words: Seq<u32>) -> Option<Seq<Phrase>> {
    if words.len() % 3 == 0 {
        Some(
            Seq::new(
                (words.len() / 3) as nat,
                |i: int|
                    Phrase {
                        text: StrRef { offset: words[3 * i], len: words[3 * i + 1] },
                        entry: words[3 * i + 2],
                    },
            ),
        )
    } else {
        None
    }
}

/// Phrases are read back from their words.
pub proof fn lemma_phrases_round_trip(rows: Seq<Phrase>)
    ensures
        phrases_of(phrase_words(rows)) == Some(rows),
{
    assert(phrases_of(phrase_words(rows)).unwrap() =~= rows);
}

/// The words of phrases.
pub fn encode_phrases(rows: &Vec<Phrase>) -> (words: Vec<u32>)
    ensures
        words@ == phrase_words(rows@),
{
    let mut words: Vec<u32> = Vec::new();
    let mut n: usize = 0;
    assert(words@ =~= phrase_words(rows@.take(0)));
    while n < rows.len()
        invariant
            n <= rows.len(),
            words@ == phrase_words(rows@.take(n as int)),
        decreases rows.len() - n,
    {
        let row = rows[n];
        words.push(row.text.offset);
        words.push(row.text.len);
        words.push(row.entry);
        n = n + 1;
        assert(words@ =~= phrase_words(rows@.take(n as int)));
    }
    assert(rows@.take(rows.len() as int) =~= rows@);
    words
}

/// The phrases that a column holds, if it holds whole records.
pub fn decode_phrases(words: &Vec<u32>) -> (rows: Option<Vec<Phrase>>)
    ensures
        match rows {
            Some(rows) => phrases_of(words@) == Some(rows@),
            None => phrases_of(words@) is None,
        },
{
    if words.len() % 3 != 0 {
        return None;
    }
    let count = words.len() / 3;
    let mut rows: Vec<Phrase> = Vec::new();
    let mut n: usize = 0;
    while n < count
        invariant
            n <= count,
            3 * count == words.len(),
            rows@.len() == n,
            forall|i: int| 0 <= i < n ==> rows@[i] == phrases_of(words@).unwrap()[i],
        decreases count - n,
    {
        rows.push(
            Phrase {
                text: StrRef { offset: words[3 * n], len: words[3 * n + 1] },
                entry: words[3 * n + 2],
            },
        );
        n = n + 1;
    }
    assert(rows@ =~= phrases_of(words@).unwrap());
    Some(rows)
}

} // verus!
