//! Columns of records of varying length: each record is a row of words
//! that its length precedes.
use vstd::prelude::*;

verus! {

/// The most words that one record can hold.
pub const BLOB_MAX: usize = 0xffff_ffff;

/// A record as it lies in a column: its length, then its words.
pub open spec fn framed(blob: Seq<u32>) -> Seq<u32> {
    seq![blob.len() as u32] + blob
}

/// The records in a row, each framed.
pub open spec fn joined(blobs: Seq<Seq<u32>>) -> Seq<u32>
    decreases blobs.len(),
{
    if blobs.len() == 0 {
        Seq::empty()
    } else {
        joined(blobs.drop_last()) + framed(blobs.last())
    }
}

/// The records that a column holds, if it holds framed records and nothing
/// else.
pub open spec fn split(words: Seq<u32>) -> Option<Seq<Seq<u32>>>
    decreases words.len(),
{
    if words.len() == 0 {
        Some(Seq::empty())
    } else if 1 + words[0] <= words.len() {
        match split(words.skip(1 + words[0])) {
            Some(rest) => Some(seq![words.subrange(1, 1 + words[0])] + rest),
            None => None,
        }
    } else {
        None
    }
}

/// Whether each record is short enough to be framed.
pub open spec fn framable(blobs: Seq<Seq<u32>>) -> bool {
    forall|i: int| 0 <= i < blobs.len() ==> (#[trigger] blobs[i]).len() <= BLOB_MAX
}

/// A record in front of a column is split off first.
proof fn lemma_split_front(blob: Seq<u32>, rest: Seq<u32>)
    requires
        blob.len() <= BLOB_MAX,
    ensures
        split(framed(blob) + rest) == match split(rest) {
            Some(others) => Some(seq![blob] + others),
            None => None,
        },
{
    let words = framed(blob) + rest;
    assert(words[0] == blob.len());
    assert(words.skip(1 + words[0]) =~= rest);
    assert(words.subrange(1, 1 + words[0]) =~= blob);
}

/// The records in a row are the first of them and the others in a row.
proof fn lemma_joined_front(blobs: Seq<Seq<u32>>)
    requires
        blobs.len() > 0,
    ensures
        joined(blobs) == framed(blobs[0]) + joined(blobs.skip(1)),
    decreases blobs.len(),
{
    if blobs.len() == 1 {
        assert(blobs.drop_last() =~= Seq::<Seq<u32>>::empty());
        assert(blobs.skip(1) =~= Seq::<Seq<u32>>::empty());
        assert(joined(blobs) =~= framed(blobs[0]) + joined(blobs.skip(1)));
    } else {
        lemma_joined_front(blobs.drop_last());
        assert(blobs.drop_last().skip(1) =~= blobs.skip(1).drop_last());
        assert(joined(blobs) =~= framed(blobs[0]) + joined(blobs.skip(1)));
    }
}

/// Records that were joined are split into the same records.
pub proof fn lemma_blobs_round_trip(blobs: Seq<Seq<u32>>)
    requires
        framable(blobs),
    ensures
        split(joined(blobs)) == Some(blobs),
    decreases blobs.len(),
{
    if blobs.len() > 0 {
        lemma_joined_front(blobs);
        assert(framable(blobs.skip(1))) by {
            assert forall|i: int| 0 <= i < blobs.skip(1).len() implies (
            #[trigger] blobs.skip(1)[i]).len() <= BLOB_MAX by {
                assert(blobs.skip(1)[i] == blobs[i + 1]);
            }
        }
        lemma_blobs_round_trip(blobs.skip(1));
        lemma_split_front(blobs[0], joined(blobs.skip(1)));
        assert(seq![blobs[0]] + blobs.skip(1) =~= blobs);
    }
}

/// What records hold, as rows of words.
pub open spec fn blob_rows(blobs: Seq<Vec<u32>>) -> Seq<Seq<u32>> {
    blobs.map_values(|b: Vec<u32>| b@)
}

/// Adds a record to a column, unless it is too long to be framed.
pub fn push_blob(column: &mut Vec<u32>, blob: &Vec<u32>) -> (pushed: bool)
    ensures
        pushed == (blob@.len() <= BLOB_MAX),
        final(column)@ == if pushed {
            old(column)@ + framed(blob@)
        } else {
            old(column)@
        },
{
    if blob.len() > BLOB_MAX {
        return false;
    }
    column.push(blob.len() as u32);
    let mut n: usize = 0;
    while n < blob.len()
        invariant
            n <= blob.len(),
            column@ == old(column)@ + seq![blob@.len() as u32] + blob@.take(n as int),
        decreases blob.len() - n,
    {
        column.push(blob[n]);
        n = n + 1;
        assert(column@ =~= old(column)@ + seq![blob@.len() as u32] + blob@.take(n as int));
    }
    assert(blob@.take(blob.len() as int) =~= blob@);
    assert(column@ =~= old(column)@ + framed(blob@));
    true
}

/// `done` followed by the records that the column holds from `at` on.
spec fn continued(done: Seq<Seq<u32>>, words: Seq<u32>, at: int) -> Option<Seq<Seq<u32>>> {
    match split(words.skip(at)) {
        Some(rest) => Some(done + rest),
        None => None,
    }
}

/// The records that a column holds, if it holds framed records and nothing
/// else.
pub fn split_blobs(words: &Vec<u32>) -> (blobs: Option<Vec<Vec<u32>>>)
    ensures
        match blobs {
            Some(blobs) => split(words@) == Some(blob_rows(blobs@)),
            None => split(words@) is None,
        },
{
    let mut blobs: Vec<Vec<u32>> = Vec::new();
    let mut at: usize = 0;
    proof {
        assert(words@.skip(0) =~= words@);
        if split(words@) is Some {
            assert(blob_rows(blobs@) + split(words@).unwrap() =~= split(words@).unwrap());
        }
    }
    while at < words.len()
        invariant
            at <= words.len(),
            split(words@) == continued(blob_rows(blobs@), words@, at as int),
        decreases words.len() - at,
    {
        let ghost rest = words@.skip(at as int);
        let ghost done = blob_rows(blobs@);
        let len = words[at] as usize;
        assert(rest[0] == words@[at as int]);
        if len > words.len() - at - 1 {
            return None;
        }
        let mut blob: Vec<u32> = Vec::new();
        let mut n: usize = 0;
        while n < len
            invariant
                n <= len,
                at + 1 + len <= words.len(),
                blob@ == words@.subrange(at + 1, at + 1 + n),
            decreases len - n,
        {
            blob.push(words[at + 1 + n]);
            n = n + 1;
            assert(blob@ =~= words@.subrange(at + 1, at + 1 + n));
        }
        blobs.push(blob);
        proof {
            assert(blob@ =~= rest.subrange(1, 1 + len));
            assert(rest.skip(1 + len) =~= words@.skip(at + 1 + len));
            assert(blob_rows(blobs@) =~= done.push(blob@));
            let tail = split(words@.skip(at + 1 + len));
            if tail is Some {
                assert(done + (seq![blob@] + tail.unwrap()) =~= done.push(blob@) + tail.unwrap());
            }
        }
        at = at + 1 + len;
    }
    proof {
        assert(words@.skip(at as int) =~= Seq::<u32>::empty());
        assert(blob_rows(blobs@) + Seq::<Seq<u32>>::empty() =~= blob_rows(blobs@));
    }
    Some(blobs)
}

} // verus!
