//! The ranking of entries: how common an entry is, by the priority tags
//! of its written forms.
use vstd::prelude::*;

use super::records::{EntryRecord, KanjiRecord, KanjiRow, Span};
use super::store::kanji_rows;
use crate::jmdict::entry::{Priority, PriorityKind};

verus! {

/// The bucket of entries without any priority tag, which is the last.
pub const UNRANKED: u8 = 3;

/// The number of buckets.
pub const BUCKETS: u8 = 4;

/// The bucket of a priority tag: the first for the first level of the
/// news, basic, special and loanword lists, the second for their second
/// level and for the first twenty-four ranks of the frequency list, the
/// third for the further ranks.
pub open spec fn rank(p: Priority) -> u8 {
    match p.kind {
        PriorityKind::Nf => if p.level <= 24 {
            1
        } else {
            2
        },
        _ => if p.level <= 1 {
            0
        } else {
            1
        },
    }
}

/// The smaller of two buckets.
pub open spec fn lower(a: u8, b: u8) -> u8 {
    if a <= b {
        a
    } else {
        b
    }
}

/// The best bucket among the first `n` tags; the last bucket where there
/// is no tag.
pub open spec fn best(tags: Seq<Priority>, n: int) -> u8
    decreases n,
{
    if n <= 0 {
        UNRANKED
    } else {
        lower(best(tags, n - 1), rank(tags[n - 1]))
    }
}

/// The best bucket among the first `n` written forms of a run.
pub open spec fn best_of_run(kanji: Seq<KanjiRow>, start: int, n: int) -> u8
    decreases n,
{
    if n <= 0 {
        UNRANKED
    } else {
        lower(
            best_of_run(kanji, start, n - 1),
            best(kanji[start + n - 1].priority, kanji[start + n - 1].priority.len() as int),
        )
    }
}

/// The bucket of an entry: the best among the tags of its written forms.
pub open spec fn bucket(entries: Seq<EntryRecord>, kanji: Seq<KanjiRow>, at: int) -> u8 {
    best_of_run(kanji, entries[at].kanji.start as int, entries[at].kanji.count as int)
}

/// Every bucket is one of the four.
pub proof fn lemma_best_bounded(tags: Seq<Priority>, n: int)
    ensures
        best(tags, n) <= UNRANKED,
    decreases n,
{
    if n > 0 {
        lemma_best_bounded(tags, n - 1);
    }
}

/// Every bucket is one of the four.
pub proof fn lemma_run_bounded(kanji: Seq<KanjiRow>, start: int, n: int)
    ensures
        best_of_run(kanji, start, n) <= UNRANKED,
    decreases n,
{
    if n > 0 {
        lemma_run_bounded(kanji, start, n - 1);
    }
}

/// The key by which the entries of a result are ordered: the bucket of
/// the entry, how far the form that matched is from what was asked for,
/// and the sequence number.
#[derive(Clone, Copy, Debug, PartialEq, Eq, Structural, Hash)]
pub struct EntryKey {
    pub priority: u8,
    pub weight: u32,
    pub sequence: u32,
}

impl EntryKey {
    /// Whether the key comes before another: by the bucket, then by the
    /// weight, then by the sequence number.
    pub open spec fn lt(self, other: EntryKey) -> bool {
        self.priority < other.priority || (self.priority == other.priority && (self.weight
            < other.weight || (self.weight == other.weight && self.sequence < other.sequence)))
    }

    /// Whether the key comes before another or is the same.
    pub open spec fn le(self, other: EntryKey) -> bool {
        self == other || self.lt(other)
    }

    /// Whether the key comes before another.
    #[verifier::when_used_as_spec(lt)]
    pub fn precedes(self, other: EntryKey) -> (b: bool)
        ensures
            b == self.lt(other),
    {
        self.priority < other.priority || (self.priority == other.priority && (self.weight
            < other.weight || (self.weight == other.weight && self.sequence < other.sequence)))
    }
}

fn rank_of(p: Priority) -> (r: u8)
    ensures
        r == rank(p),
{
    match p.kind {
        PriorityKind::Nf => if p.level <= 24 {
            1
        } else {
            2
        },
        _ => if p.level <= 1 {
            0
        } else {
            1
        },
    }
}

/// The best bucket among tags.
pub fn best_rank(tags: &Vec<Priority>) -> (b: u8)
    ensures
        b == best(tags@, tags@.len() as int),
{
    let mut b: u8 = UNRANKED;
    let mut n: usize = 0;
    while n < tags.len()
        invariant
            n <= tags.len(),
            b == best(tags@, n as int),
        decreases tags.len() - n,
    {
        let r = rank_of(tags[n]);
        if r < b {
            b = r;
        }
        n = n + 1;
    }
    b
}

/// The bucket of the entry whose written forms are the given run.
pub(crate) fn bucket_of(kanji: &Vec<KanjiRecord>, span: Span) -> (b: u8)
    requires
        span.start + span.count <= kanji@.len(),
    ensures
        b == best_of_run(kanji_rows(kanji@), span.start as int, span.count as int),
{
    let total = kanji.len();
    let mut b: u8 = UNRANKED;
    let mut n: usize = 0;
    while n < span.count as usize
        invariant
            n <= span.count,
            total == kanji@.len(),
            span.start + span.count <= kanji@.len(),
            b == best_of_run(kanji_rows(kanji@), span.start as int, n as int),
        decreases span.count - n,
    {
        let record = &kanji[span.start as usize + n];
        assert(kanji_rows(kanji@)[span.start + n] == record@);
        let r = best_rank(&record.priority);
        if r < b {
            b = r;
        }
        n = n + 1;
    }
    b
}

/// The positions among the first `n` whose bucket is `b`, in their order.
pub open spec fn ranked(buckets: Seq<u8>, b: u8, n: int) -> Seq<u32>
    decreases n,
{
    if n <= 0 {
        Seq::empty()
    } else if buckets[n - 1] == b {
        ranked(buckets, b, n - 1).push((n - 1) as u32)
    } else {
        ranked(buckets, b, n - 1)
    }
}

/// The positions of the first `upto` buckets, bucket by bucket, and
/// within a bucket in their order.
pub open spec fn prioritized_upto(buckets: Seq<u8>, upto: int) -> Seq<u32>
    decreases upto,
{
    if upto <= 0 {
        Seq::empty()
    } else {
        prioritized_upto(buckets, upto - 1) + ranked(
            buckets,
            (upto - 1) as u8,
            buckets.len() as int,
        )
    }
}

/// All positions, bucket by bucket, and within a bucket in their order.
pub open spec fn prioritized(buckets: Seq<u8>) -> Seq<u32> {
    prioritized_upto(buckets, BUCKETS as int)
}

/// The positions, bucket by bucket, of entries with the given buckets.
pub(crate) fn prioritize(buckets: &Vec<u8>) -> (out: Vec<u32>)
    requires
        buckets@.len() <= u32::MAX,
    ensures
        out@ == prioritized(buckets@),
{
    let mut out: Vec<u32> = Vec::new();
    let mut b: u8 = 0;
    while b < BUCKETS
        invariant
            b <= BUCKETS,
            buckets@.len() <= u32::MAX,
            out@ == prioritized_upto(buckets@, b as int),
        decreases BUCKETS - b,
    {
        let ghost before = out@;
        let mut n: usize = 0;
        assert(out@ =~= before + ranked(buckets@, b, 0));
        while n < buckets.len()
            invariant
                n <= buckets.len(),
                buckets@.len() <= u32::MAX,
                out@ == before + ranked(buckets@, b, n as int),
            decreases buckets.len() - n,
        {
            if buckets[n] == b {
                out.push(n as u32);
            }
            n = n + 1;
            assert(out@ =~= before + ranked(buckets@, b, n as int));
        }
        b = b + 1;
    }
    out
}

/// Whether `order` lists the positions of the keys, each once, in the
/// order of the keys; positions of the same key stay in their order.
pub open spec fn in_order_of(keys: Seq<EntryKey>, order: Seq<usize>) -> bool {
    &&& order.len() == keys.len()
    &&& forall|a: int| 0 <= a < order.len() ==> (#[trigger] order[a]) < keys.len()
    &&& forall|a: int, b: int|
        0 <= a < b < order.len() ==> keys[(#[trigger] order[a]) as int].lt(
            keys[(#[trigger] order[b]) as int],
        ) || (keys[order[a] as int] == keys[order[b] as int] && order[a] < order[b])
}

/// The positions of keys in the order of the keys: by the bucket, then by
/// the weight, then by the sequence number. Positions of the same key
/// stay in their order.
pub fn by_key(keys: &Vec<EntryKey>) -> (order: Vec<usize>)
    ensures
        in_order_of(keys@, order@),
{
    let mut order: Vec<usize> = Vec::new();
    let mut n: usize = 0;
    while n < keys.len()
        invariant
            n <= keys.len(),
            order@.len() == n,
            forall|a: int| 0 <= a < order@.len() ==> (#[trigger] order@[a]) < n,
            forall|a: int, b: int|
                0 <= a < b < order@.len() ==> keys@[(#[trigger] order@[a]) as int].lt(
                    keys@[(#[trigger] order@[b]) as int],
                ) || (keys@[order@[a] as int] == keys@[order@[b] as int] && order@[a] < order@[b]),
        decreases keys.len() - n,
    {
        let key = keys[n];
        let mut p: usize = order.len();
        while p > 0 && key.precedes(keys[order[p - 1]])
            invariant
                p <= order@.len(),
                n < keys.len(),
                key == keys@[n as int],
                forall|a: int| 0 <= a < order@.len() ==> (#[trigger] order@[a]) < n,
                forall|b: int|
                    p <= b < order@.len() ==> key.lt(keys@[(#[trigger] order@[b]) as int]),
            decreases p,
        {
            p = p - 1;
        }
        let ghost before = order@;
        order.insert(p, n);
        proof {
            assert forall|a: int, b: int| 0 <= a < b < order@.len() implies keys@[(
            #[trigger] order@[a]) as int].lt(keys@[(#[trigger] order@[b]) as int]) || (
            keys@[order@[a] as int] == keys@[order@[b] as int] && order@[a] < order@[b]) by {
                if b == p {
                    // What stands before the new position does not come behind the key.
                    assert(order@[a] == before[a]);
                    assert(!key.lt(keys@[before[p - 1] as int]));
                    if a < p - 1 {
                        assert(keys@[before[a] as int].lt(keys@[before[p - 1] as int]) || (
                        keys@[before[a] as int] == keys@[before[p - 1] as int]));
                    }
                } else if a == p {
                    assert(order@[b] == before[b - 1]);
                } else {
                    let x = if a < p {
                        a
                    } else {
                        a - 1
                    };
                    let y = if b < p {
                        b
                    } else {
                        b - 1
                    };
                    assert(order@[a] == before[x]);
                    assert(order@[b] == before[y]);
                }
            }
            assert forall|a: int| 0 <= a < order@.len() implies (#[trigger] order@[a]) < n + 1 by {
                if a < p {
                    assert(order@[a] == before[a]);
                } else if a > p {
                    assert(order@[a] == before[a - 1]);
                }
            }
        }
        n = n + 1;
    }
    order
}

} // verus!
