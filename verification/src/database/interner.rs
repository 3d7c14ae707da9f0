//! The string arena: every string is stored once, and found again by a
//! hash of what it holds.
use std::collections::HashMap;
use vstd::prelude::*;
use vstd::slice::slice_subrange;
use vstd::std_specs::hash::*;

use super::records::StrRef;
use crate::text::same_bytes;

verus! {

broadcast use vstd::std_specs::hash::group_hash_axioms;

/// The most bytes that the arena can hold.
pub const ARENA_MAX: usize = 0xffff_ffff;

/// What an [`Interner`] holds: the bytes of the arena, and where each
/// string lies in them, in the order in which the strings came.
pub struct Arena {
    pub bytes: Seq<u8>,
    pub known: Seq<StrRef>,
}

impl Arena {
    /// The bytes that a reference names, where it lies in the arena.
    pub open spec fn slice(self, r: StrRef) -> Seq<u8> {
        self.bytes.subrange(r.offset as int, r.offset + r.len)
    }

    /// Whether a reference lies in the arena.
    pub open spec fn holds(self, r: StrRef) -> bool {
        r.offset + r.len <= self.bytes.len()
    }

    /// The last of the first `n` strings that holds exactly `s`, if there
    /// is one.
    pub open spec fn lookup(self, s: Seq<u8>, n: int) -> Option<StrRef>
        decreases n,
    {
        if n <= 0 {
            None
        } else if self.slice(self.known[n - 1]) == s {
            Some(self.known[n - 1])
        } else {
            self.lookup(s, n - 1)
        }
    }

    /// The arena after a string was handed in, and where the string lies:
    /// where it was if it is known, else at the end, where it is added.
    /// There is no room for a string that would make the arena longer than
    /// [`ARENA_MAX`].
    pub open spec fn interned(self, s: Seq<u8>) -> Option<(Arena, StrRef)> {
        match self.lookup(s, self.known.len() as int) {
            Some(r) => Some((self, r)),
            None => if self.bytes.len() + s.len() <= ARENA_MAX {
                let r = StrRef { offset: self.bytes.len() as u32, len: s.len() as u32 };
                Some((Arena { bytes: self.bytes + s, known: self.known.push(r) }, r))
            } else {
                None
            },
        }
    }

    /// Every string lies in the arena, and no two are the same.
    pub open spec fn sound(self) -> bool {
        &&& self.bytes.len() <= ARENA_MAX
        &&& forall|k: int| 0 <= k < self.known.len() ==> self.holds(#[trigger] self.known[k])
        &&& forall|j: int, k: int|
            0 <= j < k < self.known.len() ==> self.slice(#[trigger] self.known[j]) != self.slice(
                #[trigger] self.known[k],
            )
    }

    /// The empty arena.
    pub open spec fn empty() -> Arena {
        Arena { bytes: Seq::empty(), known: Seq::empty() }
    }
}

/// A string that is found is one of the strings, and holds what was
/// looked for; a string that is not found is none of them.
pub proof fn lemma_lookup(arena: Arena, s: Seq<u8>, n: int)
    requires
        0 <= n <= arena.known.len(),
    ensures
        match arena.lookup(s, n) {
            Some(r) => arena.slice(r) == s && exists|k: int|
                0 <= k < n && #[trigger] arena.known[k] == r,
            None => forall|k: int| 0 <= k < n ==> arena.slice(#[trigger] arena.known[k]) != s,
        },
    decreases n,
{
    if n > 0 {
        if arena.slice(arena.known[n - 1]) == s {
            assert(arena.known[n - 1] == arena.lookup(s, n).unwrap());
        } else {
            lemma_lookup(arena, s, n - 1);
            match arena.lookup(s, n - 1) {
                Some(r) => {
                    let k = choose|k: int| 0 <= k < n - 1 && #[trigger] arena.known[k] == r;
                    assert(arena.known[k] == r);
                },
                None => {},
            }
        }
    }
}

/// In a sound arena, a string that holds what is looked for is the one
/// that is found.
pub proof fn lemma_lookup_finds(arena: Arena, s: Seq<u8>, k: int)
    requires
        arena.sound(),
        0 <= k < arena.known.len(),
        arena.slice(arena.known[k]) == s,
    ensures
        arena.lookup(s, arena.known.len() as int) == Some(arena.known[k]),
{
    lemma_lookup(arena, s, arena.known.len() as int);
    match arena.lookup(s, arena.known.len() as int) {
        Some(r) => {
            let j = choose|j: int| 0 <= j < arena.known.len() && #[trigger] arena.known[j] == r;
            if j != k {
                if j < k {
                    assert(arena.slice(arena.known[j]) != arena.slice(arena.known[k]));
                } else {
                    assert(arena.slice(arena.known[k]) != arena.slice(arena.known[j]));
                }
            }
        },
        None => {
            assert(arena.slice(arena.known[k]) != s);
        },
    }
}

/// Handing a string in keeps the arena sound, keeps what earlier
/// references name, and gives a reference that names the string.
pub proof fn lemma_interned(arena: Arena, s: Seq<u8>)
    requires
        arena.sound(),
        arena.interned(s) is Some,
    ensures
        arena.interned(s).unwrap().0.sound(),
        arena.interned(s).unwrap().0.holds(arena.interned(s).unwrap().1),
        arena.interned(s).unwrap().0.slice(arena.interned(s).unwrap().1) == s,
        arena.bytes.len() <= arena.interned(s).unwrap().0.bytes.len(),
        forall|r: StrRef|
            arena.holds(r) ==> arena.interned(s).unwrap().0.holds(r) && #[trigger] arena.interned(
                s,
            ).unwrap().0.slice(r) == arena.slice(r),
{
    let (after, found) = arena.interned(s).unwrap();
    lemma_lookup(arena, s, arena.known.len() as int);
    match arena.lookup(s, arena.known.len() as int) {
        Some(r) => {
            let k = choose|k: int| 0 <= k < arena.known.len() && #[trigger] arena.known[k] == r;
            assert(arena.holds(arena.known[k]));
        },
        None => {
            assert forall|r: StrRef| arena.holds(r) implies after.holds(r) && #[trigger] after.slice(
                r,
            ) == arena.slice(r) by {
                assert(after.slice(r) =~= arena.slice(r));
            }
            assert(after.slice(found) =~= s);
            assert forall|k: int| 0 <= k < after.known.len() implies after.holds(
                #[trigger] after.known[k],
            ) by {
                if k < arena.known.len() {
                    assert(arena.holds(arena.known[k]));
                }
            }
            assert forall|j: int, k: int| 0 <= j < k < after.known.len() implies after.slice(
                #[trigger] after.known[j],
            ) != after.slice(#[trigger] after.known[k]) by {
                assert(arena.holds(arena.known[j]));
                assert(after.slice(arena.known[j]) == arena.slice(arena.known[j]));
                if k < arena.known.len() {
                    assert(arena.holds(arena.known[k]));
                    assert(after.slice(arena.known[k]) == arena.slice(arena.known[k]));
                } else {
                    assert(arena.slice(arena.known[j]) != s);
                }
            }
        },
    }
}

/// The hash of bytes: each byte in turn is added to the hash so far times
/// a prime, modulo 2 to the 64.
pub open spec fn hash_of(bytes: Seq<u8>) -> u64
    decreases bytes.len(),
{
    if bytes.len() == 0 {
        0xcbf29ce484222325
    } else {
        ((hash_of(bytes.drop_last()) * 0x100000001b3 + bytes.last()) % 0x1_0000_0000_0000_0000) as u64
    }
}

/// The hash of bytes.
pub fn hash(bytes: &[u8]) -> (h: u64)
    ensures
        h == hash_of(bytes@),
{
    let mut h: u64 = 0xcbf29ce484222325;
    let mut n: usize = 0;
    assert(bytes@.take(0) =~= Seq::<u8>::empty());
    while n < bytes.len()
        invariant
            n <= bytes.len(),
            h == hash_of(bytes@.take(n as int)),
        decreases bytes.len() - n,
    {
        proof {
            assert(bytes@.take(n + 1).drop_last() =~= bytes@.take(n as int));
            assert(bytes@.take(n + 1).last() == bytes@[n as int]);
        }
        h = ((h as u128 * 0x100000001b3 + bytes[n] as u128) % 0x1_0000_0000_0000_0000) as u64;
        n = n + 1;
    }
    assert(bytes@.take(bytes.len() as int) =~= bytes@);
    h
}

/// The string arena under construction.
pub struct Interner {
    arena: Vec<u8>,
    known: Vec<StrRef>,
    buckets: HashMap<u64, Vec<usize>>,
}

impl View for Interner {
    type V = Arena;

    closed spec fn view(&self) -> Arena {
        Arena { bytes: self.arena@, known: self.known@ }
    }
}

impl Interner {
    /// The arena is sound, and every string is listed under its hash.
    pub closed spec fn wf(&self) -> bool {
        &&& self@.sound()
        &&& forall|k: int|
            0 <= k < self.known@.len() ==> {
                let h = hash_of(self@.slice(#[trigger] self.known@[k]));
                self.buckets@.contains_key(h) && self.buckets@[h]@.contains(k as usize)
            }
        &&& forall|h: u64, i: int|
            self.buckets@.contains_key(h) && 0 <= i < self.buckets@[h]@.len() ==> (
            #[trigger] self.buckets@[h]@[i]) < self.known@.len()
    }

    /// An interner with an empty arena.
    pub fn new() -> (interner: Interner)
        ensures
            interner.wf(),
            interner@ == Arena::empty(),
    {
        Interner { arena: Vec::new(), known: Vec::new(), buckets: HashMap::new() }
    }

    /// The bytes of the arena.
    pub fn bytes(&self) -> (bytes: &[u8])
        ensures
            bytes@ == self@.bytes,
    {
        self.arena.as_slice()
    }

    /// The known string that holds `s`, if there is one.
    fn find(&self, s: &[u8], h: u64) -> (found: Option<StrRef>)
        requires
            self.wf(),
            h == hash_of(s@),
        ensures
            found == self@.lookup(s@, self@.known.len() as int),
    {
        let count = self.known.len();
        proof {
            lemma_lookup(self@, s@, self@.known.len() as int);
        }
        match self.buckets.get(&h) {
            Some(bucket) => {
                let mut i: usize = 0;
                while i < bucket.len()
                    invariant
                        i <= bucket.len(),
                        self.wf(),
                        self.buckets@.contains_key(h),
                        self.buckets@[h] == *bucket,
                        forall|j: int|
                            0 <= j < i ==> self@.slice(self.known@[bucket@[j] as int]) != s@,
                    decreases bucket.len() - i,
                {
                    let k = bucket[i];
                    assert(k < self.known@.len());
                    let r = self.known[k];
                    assert(self@.holds(self@.known[k as int]));
                    let held = slice_subrange(
                        self.arena.as_slice(),
                        r.offset as usize,
                        r.offset as usize + r.len as usize,
                    );
                    if same_bytes(held, s) {
                        proof {
                            lemma_lookup_finds(self@, s@, k as int);
                        }
                        return Some(r);
                    }
                    i = i + 1;
                }
                proof {
                    if self@.lookup(s@, self@.known.len() as int) is Some {
                        let r = self@.lookup(s@, self@.known.len() as int).unwrap();
                        let k = choose|k: int|
                            0 <= k < self@.known.len() && #[trigger] self@.known[k] == r;
                        assert(self@.slice(self.known@[k]) == s@);
                        assert(hash_of(self@.slice(self.known@[k])) == h);
                        assert(self.known@.len() == count);
                        assert(self.buckets@[h]@.contains(k as usize));
                        let j = choose|j: int|
                            0 <= j < bucket@.len() && bucket@[j] == k as usize;
                        assert(self@.slice(self.known@[bucket@[j] as int]) != s@);
                        assert(false);
                    }
                }
                None
            },
            None => {
                proof {
                    if self@.lookup(s@, self@.known.len() as int) is Some {
                        let r = self@.lookup(s@, self@.known.len() as int).unwrap();
                        let k = choose|k: int|
                            0 <= k < self@.known.len() && #[trigger] self@.known[k] == r;
                        assert(self@.slice(self.known@[k]) == s@);
                        assert(self.buckets@.contains_key(hash_of(self@.slice(self.known@[k]))));
                        assert(false);
                    }
                }
                None
            },
        }
    }

    /// Hands a string in, and tells where it lies in the arena. A string
    /// that is known is found again; one that is new is added at the end,
    /// unless there is no room for it.
    pub fn intern(&mut self, s: &[u8]) -> (found: Option<StrRef>)
        requires
            old(self).wf(),
        ensures
            final(self).wf(),
            match found {
                Some(r) => old(self)@.interned(s@) == Some((final(self)@, r)),
                None => old(self)@.interned(s@) is None && final(self)@ == old(self)@,
            },
    {
        let h = hash(s);
        match self.find(s, h) {
            Some(r) => {
                return Some(r);
            },
            None => {},
        }
        if s.len() > ARENA_MAX - self.arena.len() {
            return None;
        }
        let r = StrRef { offset: self.arena.len() as u32, len: s.len() as u32 };
        let k = self.known.len();
        proof {
            lemma_interned(old(self)@, s@);
        }
        let mut bytes = vstd::slice::slice_to_vec(s);
        self.arena.append(&mut bytes);
        self.known.push(r);
        let mut bucket = match self.buckets.remove(&h) {
            Some(bucket) => bucket,
            None => Vec::new(),
        };
        let ghost before = bucket@;
        bucket.push(k);
        self.buckets.insert(h, bucket);
        proof {
            let after = self@;
            assert(after == old(self)@.interned(s@).unwrap().0);
            assert forall|j: int| 0 <= j < self.known@.len() implies {
                let g = hash_of(self@.slice(#[trigger] self.known@[j]));
                self.buckets@.contains_key(g) && self.buckets@[g]@.contains(j as usize)
            } by {
                let g = hash_of(self@.slice(self.known@[j]));
                if j < k {
                    assert(old(self)@.holds(old(self)@.known[j]));
                    assert(self@.slice(self.known@[j]) == old(self)@.slice(old(self).known@[j]));
                    assert(old(self).buckets@.contains_key(g) && old(self).buckets@[g]@.contains(
                        j as usize,
                    ));
                    if g == h {
                        let i = choose|i: int| 0 <= i < before.len() && before[i] == j as usize;
                        assert(self.buckets@[g]@[i] == j as usize);
                    }
                } else {
                    assert(self.buckets@[h]@[before.len() as int] == k);
                }
            }
            assert forall|g: u64, i: int|
                self.buckets@.contains_key(g) && 0 <= i < self.buckets@[g]@.len() implies (
            #[trigger] self.buckets@[g]@[i]) < self.known@.len() by {
                if g == h {
                    if i < before.len() {
                        assert(old(self).buckets@[h]@[i] < old(self).known@.len());
                    }
                } else {
                    assert(old(self).buckets@[g]@[i] < old(self).known@.len());
                }
            }
        }
        Some(r)
    }
}

} // verus!
