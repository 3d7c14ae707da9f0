//! Scanning the bytes of a document: runs of spaces and of names, and
//! where a byte or a short sequence of bytes comes next.
use vstd::prelude::*;
use vstd::slice::slice_subrange;

verus! {

/// Whether a byte is white space: a blank, a tab, a line feed or a
/// carriage return.
pub open spec fn is_space(b: u8) -> bool {
    b == 0x20 || b == 0x09 || b == 0x0A || b == 0x0D
}

/// Whether a byte may stand in a name: any byte but white space and the
/// bytes `/ > < = " ' & ! ?`.
pub open spec fn is_name_byte(b: u8) -> bool {
    !is_space(b) && b != 0x2F && b != 0x3E && b != 0x3C && b != 0x3D && b != 0x22 && b != 0x27
        && b != 0x26 && b != 0x21 && b != 0x3F
}

/// The two kinds of run that the reader passes over.
#[derive(Clone, Copy, Debug, PartialEq, Eq, Structural, Hash)]
pub enum Run {
    Spaces,
    Name,
}

/// Whether a byte belongs to a run of a kind.
pub open spec fn belongs(run: Run, b: u8) -> bool {
    match run {
        Run::Spaces => is_space(b),
        Run::Name => is_name_byte(b),
    }
}

/// Whether a byte belongs to a run of a kind.
pub fn in_run(run: Run, b: u8) -> (r: bool)
    ensures
        r == belongs(run, b),
{
    let space = b == 0x20 || b == 0x09 || b == 0x0A || b == 0x0D;
    match run {
        Run::Spaces => space,
        Run::Name => !space && b != 0x2F && b != 0x3E && b != 0x3C && b != 0x3D && b != 0x22 && b
            != 0x27 && b != 0x26 && b != 0x21 && b != 0x3F,
    }
}

/// Where the run of a kind that begins at `p` ends: the first position
/// from `p` on whose byte does not belong to it, or the end.
pub open spec fn run_end(s: Seq<u8>, p: int, run: Run) -> int
    decreases s.len() - p,
{
    if 0 <= p < s.len() && belongs(run, s[p]) {
        run_end(s, p + 1, run)
    } else {
        p
    }
}

/// A run ends at or behind its beginning, within the bytes.
pub proof fn lemma_run_end(s: Seq<u8>, p: int, run: Run)
    requires
        0 <= p <= s.len(),
    ensures
        p <= run_end(s, p, run) <= s.len(),
        run_end(s, p, run) < s.len() ==> !belongs(run, s[run_end(s, p, run)]),
    decreases s.len() - p,
{
    if p < s.len() && belongs(run, s[p]) {
        lemma_run_end(s, p + 1, run);
    }
}

/// Where the run of a kind that begins at `p` ends.
pub fn skip_run(s: &[u8], p: usize, run: Run) -> (q: usize)
    ensures
        q == run_end(s@, p as int, run),
        p <= q,
        p <= s.len() ==> q <= s.len(),
{
    let mut q: usize = p;
    while q < s.len() && in_run(run, s[q])
        invariant
            p <= q,
            p <= s.len() ==> q <= s.len(),
            run_end(s@, q as int, run) == run_end(s@, p as int, run),
        decreases s.len() - q,
    {
        q = q + 1;
    }
    q
}

/// The first position from `p` on that holds the byte `b`.
pub open spec fn byte_at(s: Seq<u8>, p: int, b: u8) -> Option<int>
    decreases s.len() - p,
{
    if p < 0 || p >= s.len() {
        None
    } else if s[p] == b {
        Some(p)
    } else {
        byte_at(s, p + 1, b)
    }
}

/// A byte that is found lies at or behind the position that the search
/// began at, and is the first one there.
pub proof fn lemma_byte_at(s: Seq<u8>, p: int, b: u8)
    requires
        0 <= p,
    ensures
        match byte_at(s, p, b) {
            Some(q) => p <= q < s.len() && s[q] == b && forall|i: int| p <= i < q ==> s[i] != b,
            None => forall|i: int| p <= i < s.len() ==> s[i] != b,
        },
    decreases s.len() - p,
{
    if p < s.len() && s[p] != b {
        lemma_byte_at(s, p + 1, b);
    }
}

/// The first position from `p` on that holds the byte `b`.
pub fn find_byte(s: &[u8], p: usize, b: u8) -> (at: Option<usize>)
    ensures
        match at {
            Some(q) => byte_at(s@, p as int, b) == Some(q as int) && p <= q < s.len(),
            None => byte_at(s@, p as int, b) is None,
        },
{
    let mut q: usize = p;
    while q < s.len()
        invariant
            p <= q,
            byte_at(s@, q as int, b) == byte_at(s@, p as int, b),
        decreases s.len() - q,
    {
        if s[q] == b {
            return Some(q);
        }
        q = q + 1;
    }
    None
}

/// Whether the bytes of `pattern` stand at `p`.
pub open spec fn begins(s: Seq<u8>, p: int, pattern: Seq<u8>) -> bool {
    0 <= p && p + pattern.len() <= s.len() && s.subrange(p, p + pattern.len()) == pattern
}

/// Whether the bytes of `pattern` stand at `p`.
pub fn begins_at(s: &[u8], p: usize, pattern: &[u8]) -> (r: bool)
    ensures
        r == begins(s@, p as int, pattern@),
{
    if p > s.len() || pattern.len() > s.len() - p {
        return false;
    }
    let mut i: usize = 0;
    while i < pattern.len()
        invariant
            i <= pattern.len(),
            p + pattern.len() <= s.len(),
            forall|j: int| 0 <= j < i ==> s@[p + j] == pattern@[j],
        decreases pattern.len() - i,
    {
        if s[p + i] != pattern[i] {
            assert(s@.subrange(p as int, p + pattern@.len())[i as int] != pattern@[i as int]);
            return false;
        }
        i = i + 1;
    }
    assert(s@.subrange(p as int, p + pattern@.len()) =~= pattern@);
    true
}

/// The first position from `p` on at which the bytes of `pattern` stand.
pub open spec fn found(s: Seq<u8>, p: int, pattern: Seq<u8>) -> Option<int>
    decreases s.len() - p,
{
    if p < 0 || p + pattern.len() > s.len() {
        None
    } else if begins(s, p, pattern) {
        Some(p)
    } else if p < s.len() {
        found(s, p + 1, pattern)
    } else {
        None
    }
}

/// A pattern that is found lies at or behind the position that the
/// search began at, within the bytes.
pub proof fn lemma_found(s: Seq<u8>, p: int, pattern: Seq<u8>)
    requires
        0 <= p,
    ensures
        found(s, p, pattern) matches Some(q) ==> p <= q && q + pattern.len() <= s.len() && begins(
            s,
            q,
            pattern,
        ),
    decreases s.len() - p,
{
    if p + pattern.len() <= s.len() && !begins(s, p, pattern) && p < s.len() {
        lemma_found(s, p + 1, pattern);
    }
}

/// The first position from `p` on at which the bytes of `pattern` stand.
pub fn find(s: &[u8], p: usize, pattern: &[u8]) -> (at: Option<usize>)
    ensures
        match at {
            Some(q) => found(s@, p as int, pattern@) == Some(q as int) && p <= q && q
                + pattern@.len() <= s.len(),
            None => found(s@, p as int, pattern@) is None,
        },
{
    if p > s.len() || pattern.len() > s.len() {
        return None;
    }
    if pattern.len() == 0 {
        assert(s@.subrange(p as int, p as int) =~= pattern@);
        return Some(p);
    }
    let last = s.len() - pattern.len();
    let mut q: usize = p;
    while q <= last
        invariant
            p <= q,
            pattern.len() > 0,
            last == s.len() - pattern.len(),
            found(s@, q as int, pattern@) == found(s@, p as int, pattern@),
        decreases last + 1 - q,
    {
        if begins_at(s, q, pattern) {
            return Some(q);
        }
        q = q + 1;
    }
    None
}

/// `<!--`, which opens a comment.
pub open spec fn comment_open() -> Seq<u8> {
    seq![0x3Cu8, 0x21u8, 0x2Du8, 0x2Du8]
}

/// `-->`, which closes a comment.
pub open spec fn comment_close() -> Seq<u8> {
    seq![0x2Du8, 0x2Du8, 0x3Eu8]
}

/// Where the declaration of the document type ends, read from `p` on:
/// behind the first `>` that stands outside the internal subset, which
/// square brackets enclose, outside a quoted string and outside a
/// comment. `inside` tells whether `p` lies in the internal subset. There
/// is no end where the bytes end first.
pub open spec fn doctype_end(s: Seq<u8>, p: int, inside: bool) -> Option<int>
    decreases s.len() - p,
{
    if p < 0 || p >= s.len() {
        None
    } else if s[p] == 0x22 || s[p] == 0x27 {
        match byte_at(s, p + 1, s[p]) {
            Some(q) => if p < q < s.len() {
                doctype_end(s, q + 1, inside)
            } else {
                None
            },
            None => None,
        }
    } else if begins(s, p, comment_open()) {
        match found(s, p + 4, comment_close()) {
            Some(q) => if p < q && q + 3 <= s.len() {
                doctype_end(s, q + 3, inside)
            } else {
                None
            },
            None => None,
        }
    } else if s[p] == 0x5B {
        doctype_end(s, p + 1, true)
    } else if s[p] == 0x5D {
        doctype_end(s, p + 1, false)
    } else if s[p] == 0x3E && !inside {
        Some(p + 1)
    } else {
        doctype_end(s, p + 1, inside)
    }
}

/// Where the declaration of the document type ends, read from `p` on.
pub fn skip_doctype(s: &[u8], p: usize) -> (end: Option<usize>)
    ensures
        match end {
            Some(q) => doctype_end(s@, p as int, false) == Some(q as int) && p < q <= s.len(),
            None => doctype_end(s@, p as int, false) is None,
        },
{
    let opening: [u8; 4] = [0x3C, 0x21, 0x2D, 0x2D];
    let closing: [u8; 3] = [0x2D, 0x2D, 0x3E];
    assert(opening@ =~= comment_open());
    assert(closing@ =~= comment_close());
    let mut q: usize = p;
    let mut inside = false;
    while q < s.len()
        invariant
            p <= q,
            opening@ == comment_open(),
            closing@ == comment_close(),
            doctype_end(s@, q as int, inside) == doctype_end(s@, p as int, false),
        decreases s.len() - q,
    {
        let b = s[q];
        if b == 0x22 || b == 0x27 {
            match find_byte(s, q + 1, b) {
                Some(e) => {
                    q = e + 1;
                },
                None => {
                    return None;
                },
            }
        } else if begins_at(s, q, opening.as_slice()) {
            match find(s, q + 4, closing.as_slice()) {
                Some(e) => {
                    q = e + 3;
                },
                None => {
                    return None;
                },
            }
        } else if b == 0x5B {
            inside = true;
            q = q + 1;
        } else if b == 0x5D {
            inside = false;
            q = q + 1;
        } else if b == 0x3E && !inside {
            return Some(q + 1);
        } else {
            q = q + 1;
        }
    }
    None
}

/// Where the local part of a name begins, from `from` on: behind its
/// last colon.
pub open spec fn local_start(name: Seq<u8>, from: int) -> int
    decreases name.len() - from,
{
    match byte_at(name, from, 0x3A) {
        Some(i) => if from <= i < name.len() {
            local_start(name, i + 1)
        } else {
            from
        },
        None => from,
    }
}

/// The local part of a name: what stands behind its last colon, or all
/// of it.
pub open spec fn local(name: Seq<u8>) -> Seq<u8> {
    name.skip(local_start(name, 0))
}

/// The local part of a name.
pub fn local_name<'a>(name: &'a [u8]) -> (part: &'a [u8])
    ensures
        part@ == local(name@),
{
    let mut from: usize = 0;
    loop
        invariant
            from <= name.len(),
            local_start(name@, from as int) == local_start(name@, 0),
        ensures
            local_start(name@, 0) == from,
        decreases name.len() - from,
    {
        match find_byte(name, from, 0x3A) {
            Some(i) => {
                from = i + 1;
            },
            None => {
                assert(local_start(name@, from as int) == from);
                break ;
            },
        }
    }
    let part = slice_subrange(name, from, name.len());
    assert(part@ =~= name@.skip(from as int));
    part
}

} // verus!
