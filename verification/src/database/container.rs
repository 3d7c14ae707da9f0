//! The container of an image: a header, the string arena, the columns, and
//! a directory that tells where each of them lies.
use vstd::prelude::*;
use vstd::slice::slice_subrange;

use super::words::{
    bytes_to_words, le_words, lemma_le_words_len, lemma_words_round_trip, words_of, words_to_bytes,
};

verus! {

/// The first word of an image: the letters `JPV1`.
pub const MAGIC: u32 = 0x3156504A;

/// The version of the format, with the reserved half of its word.
pub const VERSION: u32 = 1;

/// The length of the header in bytes.
pub const HEADER_LEN: usize = 16;

/// The id of the column of strings; the other columns follow it in order.
pub const STRINGS: u32 = 1;

/// What is wrong with an image.
#[derive(Clone, Copy, Debug, PartialEq, Eq, Structural, Hash)]
pub enum ImageError {
    /// The image does not begin with the header of the format.
    BadMagic,
    /// The image is of a version that is not read.
    UnsupportedVersion,
    /// The directory does not lie in the image, or does not list the
    /// columns of the format in their order.
    CorruptDirectory,
    /// A column, or something that a record refers to, does not lie where
    /// it should.
    OutOfRange,
    /// A column does not hold records of its kind.
    CorruptColumn,
}

/// The low half of a 64-bit number.
pub open spec fn low(x: int) -> u32 {
    (x % 0x1_0000_0000) as u32
}

/// The high half of a 64-bit number.
pub open spec fn high(x: int) -> u32 {
    (x / 0x1_0000_0000) as u32
}

/// The number of two halves.
pub open spec fn wide(low: u32, high: u32) -> int {
    low + high * 0x1_0000_0000
}

/// The header of an image whose directory lies at `directory`.
pub open spec fn header_words(directory: int) -> Seq<u32> {
    seq![MAGIC, VERSION, low(directory), high(directory)]
}

/// The line of the directory for the column `id`.
pub open spec fn line_words(id: u32, offset: int, len: int) -> Seq<u32> {
    seq![id, low(offset), high(offset), low(len), high(len)]
}

/// The byte length of the strings and of the first `n` columns.
pub open spec fn body_len(strings: Seq<u8>, columns: Seq<Seq<u32>>, n: int) -> int
    decreases n,
{
    if n <= 0 {
        strings.len() as int
    } else {
        body_len(strings, columns, n - 1) + 4 * columns[n - 1].len()
    }
}

/// The strings and the first `n` columns in a row.
pub open spec fn body(strings: Seq<u8>, columns: Seq<Seq<u32>>, n: int) -> Seq<u8>
    decreases n,
{
    if n <= 0 {
        strings
    } else {
        body(strings, columns, n - 1) + le_words(columns[n - 1])
    }
}

/// The lines of the directory for the first `n` columns.
pub open spec fn lines(strings: Seq<u8>, columns: Seq<Seq<u32>>, n: int) -> Seq<u32>
    decreases n,
{
    if n <= 0 {
        Seq::empty()
    } else {
        lines(strings, columns, n - 1) + line_words(
            (STRINGS + n) as u32,
            HEADER_LEN + body_len(strings, columns, n - 1),
            4 * columns[n - 1].len() as int,
        )
    }
}

/// The directory: the number of columns, the line of the strings, and the
/// lines of the other columns.
pub open spec fn directory_words(strings: Seq<u8>, columns: Seq<Seq<u32>>) -> Seq<u32> {
    seq![(columns.len() + 1) as u32] + line_words(STRINGS, HEADER_LEN as int, strings.len() as int)
        + lines(strings, columns, columns.len() as int)
}

/// Whether strings and columns make an image whose offsets fit the format.
pub open spec fn fits(strings: Seq<u8>, columns: Seq<Seq<u32>>) -> bool {
    columns.len() < 0x1000 && HEADER_LEN + body_len(strings, columns, columns.len() as int) + 4
        * directory_words(strings, columns).len() <= u64::MAX
}

/// The image of strings and columns: the header, the strings, the columns
/// in their order, and the directory.
pub open spec fn image_of(strings: Seq<u8>, columns: Seq<Seq<u32>>) -> Seq<u8> {
    le_words(header_words(HEADER_LEN + body_len(strings, columns, columns.len() as int))) + body(
        strings,
        columns,
        columns.len() as int,
    ) + le_words(directory_words(strings, columns))
}

/// What an image holds.
pub struct Contents {
    pub strings: Seq<u8>,
    pub columns: Seq<Seq<u32>>,
}

/// The stretch of an image that a line of the directory names, if it lies
/// in the image. The line is the one at position `k` of the directory's
/// words behind the count.
pub open spec fn stretch(image: Seq<u8>, directory: Seq<u32>, k: int) -> Option<Seq<u8>> {
    let offset = wide(directory[1 + 5 * k + 1], directory[1 + 5 * k + 2]);
    let len = wide(directory[1 + 5 * k + 3], directory[1 + 5 * k + 4]);
    if offset + len <= image.len() {
        Some(image.subrange(offset, offset + len))
    } else {
        None
    }
}

/// The directory of an image that is to hold `n` columns beside the
/// strings: the words at the place that the header names, where they begin
/// with the number of lines and each line names the column of its position.
pub open spec fn directory_of(image: Seq<u8>, n: int) -> Option<Seq<u32>> {
    match words_of(image.subrange(0, HEADER_LEN as int)) {
        Some(header) => {
            let at = wide(header[2], header[3]);
            let len = 4 * (1 + 5 * (n + 1));
            if at + len <= image.len() {
                match words_of(image.subrange(at, at + len)) {
                    Some(directory) => if directory[0] == n + 1 && (forall|k: int|
                        0 <= k <= n ==> #[trigger] directory[1 + 5 * k] == STRINGS + k) {
                        Some(directory)
                    } else {
                        None
                    },
                    None => None,
                }
            } else {
                None
            }
        },
        None => None,
    }
}

/// The columns that the directory names, as rows of words.
pub open spec fn columns_of(image: Seq<u8>, directory: Seq<u32>, n: int) -> Seq<Seq<u32>> {
    Seq::new(n as nat, |k: int| words_of(stretch(image, directory, k + 1).unwrap()).unwrap())
}

/// What an image holds that is to have `n` columns beside the strings, or
/// what is wrong with it. The checks are made in this order: the magic
/// word, the version, the directory, then the stretch of each column; the
/// stretch of a column other than the strings must hold whole words.
pub open spec fn contents_of(image: Seq<u8>, n: int) -> Result<Contents, ImageError> {
    if image.len() < HEADER_LEN {
        Err(ImageError::BadMagic)
    } else {
        let header = words_of(image.subrange(0, HEADER_LEN as int)).unwrap();
        if header[0] != MAGIC {
            Err(ImageError::BadMagic)
        } else if header[1] != VERSION {
            Err(ImageError::UnsupportedVersion)
        } else {
            match directory_of(image, n) {
                None => Err(ImageError::CorruptDirectory),
                Some(directory) => if forall|k: int|
                    0 <= k <= n ==> (#[trigger] stretch(image, directory, k)) is Some && (k > 0
                        ==> words_of(stretch(image, directory, k).unwrap()) is Some) {
                    Ok(
                        Contents {
                            strings: stretch(image, directory, 0).unwrap(),
                            columns: columns_of(image, directory, n),
                        },
                    )
                } else {
                    Err(ImageError::OutOfRange)
                },
            }
        }
    }
}

/// The halves of a number make up the number.
pub proof fn lemma_wide(x: int)
    requires
        0 <= x <= u64::MAX,
    ensures
        wide(low(x), high(x)) == x,
{
}

/// The body grows with each column.
pub proof fn lemma_body_len_grows(strings: Seq<u8>, columns: Seq<Seq<u32>>, k: int, n: int)
    requires
        0 <= k <= n,
    ensures
        strings.len() <= body_len(strings, columns, k) <= body_len(strings, columns, n),
    decreases n,
{
    if n > 0 {
        if k < n {
            lemma_body_len_grows(strings, columns, k, n - 1);
        } else {
            lemma_body_len_grows(strings, columns, k - 1, n - 1);
        }
    }
}

/// The body is as long as its parts together.
pub proof fn lemma_body_len(strings: Seq<u8>, columns: Seq<Seq<u32>>, n: int)
    requires
        0 <= n,
    ensures
        body(strings, columns, n).len() == body_len(strings, columns, n),
    decreases n,
{
    if n > 0 {
        lemma_body_len(strings, columns, n - 1);
        lemma_le_words_len(columns[n - 1]);
    }
}

/// The directory has five words for each line.
pub proof fn lemma_lines_len(strings: Seq<u8>, columns: Seq<Seq<u32>>, n: int)
    requires
        0 <= n,
    ensures
        lines(strings, columns, n).len() == 5 * n,
    decreases n,
{
    if n > 0 {
        lemma_lines_len(strings, columns, n - 1);
    }
}

fn put_line(directory: &mut Vec<u32>, id: u32, offset: u64, len: u64)
    ensures
        final(directory)@ == old(directory)@ + line_words(id, offset as int, len as int),
{
    directory.push(id);
    directory.push((offset % 0x1_0000_0000) as u32);
    directory.push((offset / 0x1_0000_0000) as u32);
    directory.push((len % 0x1_0000_0000) as u32);
    directory.push((len / 0x1_0000_0000) as u32);
    assert(directory@ =~= old(directory)@ + line_words(id, offset as int, len as int));
}

/// Puts strings and columns together into an image, unless they are too
/// large for its offsets.
pub fn assemble(strings: &[u8], columns: &Vec<Vec<u32>>) -> (image: Option<Vec<u8>>)
    ensures
        match image {
            Some(image) => fits(strings@, columns@.map_values(|c: Vec<u32>| c@)) && image@
                == image_of(strings@, columns@.map_values(|c: Vec<u32>| c@)),
            None => !fits(strings@, columns@.map_values(|c: Vec<u32>| c@)),
        },
{
    let ghost cols = columns@.map_values(|c: Vec<u32>| c@);
    let n = columns.len();
    if n >= 0x1000 {
        return None;
    }
    let mut rest: Vec<u8> = Vec::new();
    let mut directory: Vec<u32> = Vec::new();
    directory.push((n + 1) as u32);
    if strings.len() as u64 > u64::MAX - 16 {
        proof {
            lemma_body_len_grows(strings@, cols, 0, n as int);
        }
        return None;
    }
    put_line(&mut directory, STRINGS, 16, strings.len() as u64);
    let mut offset: u64 = 16 + strings.len() as u64;
    let mut k: usize = 0;
    proof {
        assert(directory@ =~= seq![(n + 1) as u32] + line_words(
            STRINGS,
            HEADER_LEN as int,
            strings@.len() as int,
        ) + lines(strings@, cols, 0));
    }
    while k < n
        invariant
            k <= n,
            n == columns.len(),
            n < 0x1000,
            cols == columns@.map_values(|c: Vec<u32>| c@),
            offset == HEADER_LEN + body_len(strings@, cols, k as int),
            strings@ + rest@ == body(strings@, cols, k as int),
            directory@ == seq![(n + 1) as u32] + line_words(
                STRINGS,
                HEADER_LEN as int,
                strings@.len() as int,
            ) + lines(strings@, cols, k as int),
        decreases n - k,
    {
        let column = &columns[k];
        assert(cols[k as int] == column@);
        if column.len() as u64 > (u64::MAX - offset) / 4 {
            proof {
                lemma_body_len_grows(strings@, cols, k + 1, n as int);
            }
            return None;
        }
        let len = 4 * column.len() as u64;
        let ghost before = directory@;
        put_line(&mut directory, (k + 2) as u32, offset, len);
        let mut bytes = words_to_bytes(column);
        let ghost sofar = rest@;
        rest.append(&mut bytes);
        offset = offset + len;
        k = k + 1;
        proof {
            assert(strings@ + rest@ =~= (strings@ + sofar) + le_words(column@));
            assert(directory@ =~= seq![(n + 1) as u32] + line_words(
                STRINGS,
                HEADER_LEN as int,
                strings@.len() as int,
            ) + lines(strings@, cols, k as int));
        }
    }
    proof {
        lemma_lines_len(strings@, cols, n as int);
    }
    if (4 * directory.len()) as u64 > u64::MAX - offset {
        return None;
    }
    let mut header: Vec<u32> = Vec::new();
    header.push(MAGIC);
    header.push(VERSION);
    header.push((offset % 0x1_0000_0000) as u32);
    header.push((offset / 0x1_0000_0000) as u32);
    assert(header@ =~= header_words(offset as int));
    let mut image = words_to_bytes(&header);
    let ghost held = rest@;
    let mut arena = vstd::slice::slice_to_vec(strings);
    image.append(&mut arena);
    image.append(&mut rest);
    let mut tail = words_to_bytes(&directory);
    image.append(&mut tail);
    proof {
        assert(image@ =~= le_words(header_words(offset as int)) + (strings@ + held) + le_words(
            directory_words(strings@, cols),
        ));
    }
    Some(image)
}

/// Line `k` of the directory is the line of column `k`.
proof fn lemma_line(strings: Seq<u8>, columns: Seq<Seq<u32>>, k: int, n: int)
    requires
        1 <= k <= n,
    ensures
        lines(strings, columns, n).len() == 5 * n,
        lines(strings, columns, n).subrange(5 * (k - 1), 5 * k) == line_words(
            (STRINGS + k) as u32,
            HEADER_LEN + body_len(strings, columns, k - 1),
            4 * columns[k - 1].len() as int,
        ),
    decreases n,
{
    lemma_lines_len(strings, columns, n);
    lemma_lines_len(strings, columns, n - 1);
    let all = lines(strings, columns, n);
    let last = line_words(
        (STRINGS + n) as u32,
        HEADER_LEN + body_len(strings, columns, n - 1),
        4 * columns[n - 1].len() as int,
    );
    if k == n {
        assert(all.subrange(5 * (k - 1), 5 * k) =~= last);
    } else {
        lemma_line(strings, columns, k, n - 1);
        assert(all.subrange(5 * (k - 1), 5 * k) =~= lines(strings, columns, n - 1).subrange(
            5 * (k - 1),
            5 * k,
        ));
    }
}

/// Column `k` lies in the body where the columns before it end.
proof fn lemma_body_part(strings: Seq<u8>, columns: Seq<Seq<u32>>, k: int, n: int)
    requires
        1 <= k <= n,
    ensures
        body(strings, columns, n).len() == body_len(strings, columns, n),
        body_len(strings, columns, k) <= body_len(strings, columns, n),
        body(strings, columns, n).subrange(
            body_len(strings, columns, k - 1),
            body_len(strings, columns, k),
        ) == le_words(columns[k - 1]),
    decreases n,
{
    lemma_body_len(strings, columns, n);
    lemma_body_len(strings, columns, n - 1);
    lemma_body_len_grows(strings, columns, k, n);
    lemma_body_len_grows(strings, columns, k - 1, n);
    lemma_le_words_len(columns[n - 1]);
    let all = body(strings, columns, n);
    if k == n {
        assert(all.subrange(body_len(strings, columns, k - 1), body_len(strings, columns, k))
            =~= le_words(columns[k - 1]));
    } else {
        lemma_body_part(strings, columns, k, n - 1);
        assert(all.subrange(body_len(strings, columns, k - 1), body_len(strings, columns, k))
            =~= body(strings, columns, n - 1).subrange(
            body_len(strings, columns, k - 1),
            body_len(strings, columns, k),
        ));
    }
}

/// The strings lie at the head of the body.
proof fn lemma_body_head(strings: Seq<u8>, columns: Seq<Seq<u32>>, n: int)
    requires
        0 <= n,
    ensures
        body(strings, columns, n).len() == body_len(strings, columns, n),
        strings.len() <= body_len(strings, columns, n),
        body(strings, columns, n).subrange(0, strings.len() as int) == strings,
    decreases n,
{
    lemma_body_len(strings, columns, n);
    lemma_body_len_grows(strings, columns, 0, n);
    if n == 0 {
        assert(strings.subrange(0, strings.len() as int) =~= strings);
    } else {
        lemma_body_head(strings, columns, n - 1);
        assert(body(strings, columns, n).subrange(0, strings.len() as int) =~= body(
            strings,
            columns,
            n - 1,
        ).subrange(0, strings.len() as int));
    }
}

/// An image holds the strings and the columns that it was made of.
pub proof fn lemma_container_round_trip(strings: Seq<u8>, columns: Seq<Seq<u32>>)
    requires
        fits(strings, columns),
    ensures
        contents_of(image_of(strings, columns), columns.len() as int) == Ok::<
            Contents,
            ImageError,
        >(Contents { strings, columns }),
{
    let n = columns.len() as int;
    let total = body_len(strings, columns, n);
    let header = header_words(HEADER_LEN + total);
    let directory = directory_words(strings, columns);
    let h = le_words(header);
    let b = body(strings, columns, n);
    let d = le_words(directory);
    let image = image_of(strings, columns);
    lemma_le_words_len(header);
    lemma_le_words_len(directory);
    lemma_body_head(strings, columns, n);
    lemma_lines_len(strings, columns, n);
    lemma_words_round_trip(header);
    lemma_words_round_trip(directory);
    lemma_wide(HEADER_LEN + total);
    lemma_wide(HEADER_LEN as int);
    lemma_wide(strings.len() as int);
    assert(image.subrange(0, HEADER_LEN as int) =~= h);
    let at = HEADER_LEN + total;
    assert(image.subrange(at, at + 4 * (1 + 5 * (n + 1))) =~= d);
    assert forall|k: int| 0 <= k <= n implies #[trigger] directory[1 + 5 * k] == STRINGS + k by {
        if k > 0 {
            lemma_line(strings, columns, k, n);
            let line = lines(strings, columns, n).subrange(5 * (k - 1), 5 * k);
            assert(directory[1 + 5 * k] == line[0]);
        }
    }
    assert(directory_of(image, n) == Some(directory));
    assert(stretch(image, directory, 0) == Some(strings)) by {
        assert(image.subrange(HEADER_LEN as int, HEADER_LEN + strings.len()) =~= b.subrange(
            0,
            strings.len() as int,
        ));
    }
    assert forall|k: int| 1 <= k <= n implies stretch(image, directory, k) == Some(
        le_words(columns[k - 1]),
    ) by {
        lemma_line(strings, columns, k, n);
        lemma_body_part(strings, columns, k, n);
        lemma_body_len_grows(strings, columns, k - 1, n);
        lemma_le_words_len(columns[k - 1]);
        let line = lines(strings, columns, n).subrange(5 * (k - 1), 5 * k);
        let from = HEADER_LEN + body_len(strings, columns, k - 1);
        let len = 4 * columns[k - 1].len() as int;
        assert(directory[1 + 5 * k + 1] == line[1]);
        assert(directory[1 + 5 * k + 2] == line[2]);
        assert(directory[1 + 5 * k + 3] == line[3]);
        assert(directory[1 + 5 * k + 4] == line[4]);
        lemma_wide(from);
        lemma_wide(len);
        assert(image.subrange(from, from + len) =~= b.subrange(
            body_len(strings, columns, k - 1),
            body_len(strings, columns, k),
        ));
    }
    assert forall|k: int| 0 <= k <= n implies (#[trigger] stretch(image, directory, k)) is Some
        && (k > 0 ==> words_of(stretch(image, directory, k).unwrap()) is Some) by {
        if k > 0 {
            lemma_words_round_trip(columns[k - 1]);
        }
    }
    assert(columns_of(image, directory, n) =~= columns) by {
        assert forall|k: int| 0 <= k < n implies columns_of(image, directory, n)[k]
            == columns[k] by {
            lemma_words_round_trip(columns[k]);
            assert(stretch(image, directory, k + 1) == Some(le_words(columns[k])));
        }
    }
}

fn join(low: u32, high: u32) -> (x: u64)
    ensures
        x == wide(low, high),
{
    low as u64 + high as u64 * 0x1_0000_0000
}

/// The stretch that line `k` of the directory names, if it lies in the
/// image.
fn stretch_of<'a>(image: &'a [u8], directory: &Vec<u32>, k: usize) -> (found: Option<&'a [u8]>)
    requires
        1 + 5 * k + 4 < directory.len(),
    ensures
        match found {
            Some(bytes) => stretch(image@, directory@, k as int) == Some(bytes@),
            None => stretch(image@, directory@, k as int) is None,
        },
{
    let offset = join(directory[1 + 5 * k + 1], directory[1 + 5 * k + 2]);
    let len = join(directory[1 + 5 * k + 3], directory[1 + 5 * k + 4]);
    let size = image.len() as u64;
    if offset > size || len > size - offset {
        None
    } else {
        Some(slice_subrange(image, offset as usize, (offset + len) as usize))
    }
}

/// The directory of an image of at least the header's length.
#[verifier::loop_isolation(false)]
fn read_directory(image: &[u8], header: &Vec<u32>, n: usize) -> (found: Option<Vec<u32>>)
    requires
        n < 0x1000,
        image@.len() >= HEADER_LEN,
        words_of(image@.subrange(0, HEADER_LEN as int)) == Some(header@),
    ensures
        match found {
            Some(directory) => directory_of(image@, n as int) == Some(directory@),
            None => directory_of(image@, n as int) is None,
        },
{
    let at = join(header[2], header[3]);
    let len = 4 * (1 + 5 * (n + 1));
    let size = image.len() as u64;
    if at > size || len as u64 > size - at {
        return None;
    }
    let directory = match bytes_to_words(slice_subrange(image, at as usize, at as usize + len)) {
        Some(directory) => directory,
        None => {
            return None;
        },
    };
    if directory[0] != (n + 1) as u32 {
        return None;
    }
    let mut k: usize = 0;
    while k <= n
        invariant
            k <= n + 1,
            n < 0x1000,
            directory@.len() == 1 + 5 * (n + 1),
            forall|j: int| 0 <= j < k ==> #[trigger] directory@[1 + 5 * j] == STRINGS + j,
        decreases n + 1 - k,
    {
        if directory[1 + 5 * k] != STRINGS + k as u32 {
            assert(directory@[1 + 5 * (k as int)] != STRINGS + k);
            return None;
        }
        k = k + 1;
    }
    Some(directory)
}

/// What columns hold, as rows of words.
pub open spec fn rows(columns: Seq<Vec<u32>>) -> Seq<Seq<u32>> {
    columns.map_values(|c: Vec<u32>| c@)
}

/// Takes an image apart that is to have `n` columns beside the strings.
#[verifier::loop_isolation(false)]
pub(crate) fn take_apart<'a>(image: &'a [u8], n: usize) -> (found: Result<
    (&'a [u8], Vec<Vec<u32>>),
    ImageError,
>)
    requires
        n < 0x1000,
    ensures
        match found {
            Ok((strings, columns)) => columns@.len() == n && contents_of(image@, n as int) == Ok::<
                Contents,
                ImageError,
            >(Contents { strings: strings@, columns: rows(columns@) }),
            Err(error) => contents_of(image@, n as int) == Err::<Contents, ImageError>(error),
        },
{
    if image.len() < HEADER_LEN {
        return Err(ImageError::BadMagic);
    }
    let header = match bytes_to_words(slice_subrange(image, 0, HEADER_LEN)) {
        Some(header) => header,
        None => {
            return Err(ImageError::BadMagic);
        },
    };
    if header[0] != MAGIC {
        return Err(ImageError::BadMagic);
    }
    if header[1] != VERSION {
        return Err(ImageError::UnsupportedVersion);
    }
    let directory = match read_directory(image, &header, n) {
        Some(directory) => directory,
        None => {
            return Err(ImageError::CorruptDirectory);
        },
    };
    let strings = match stretch_of(image, &directory, 0) {
        Some(strings) => strings,
        None => {
            assert(stretch(image@, directory@, 0) is None);
            return Err(ImageError::OutOfRange);
        },
    };
    let mut columns: Vec<Vec<u32>> = Vec::new();
    let mut k: usize = 1;
    while k <= n
        invariant
            1 <= k <= n + 1,
            n < 0x1000,
            directory@.len() == 1 + 5 * (n + 1),
            columns@.len() == k - 1,
            forall|j: int|
                0 <= j < k ==> (#[trigger] stretch(image@, directory@, j)) is Some && (j > 0
                    ==> words_of(stretch(image@, directory@, j).unwrap()) == Some(
                    columns@[j - 1]@,
                )),
        decreases n + 1 - k,
    {
        let bytes = match stretch_of(image, &directory, k) {
            Some(bytes) => bytes,
            None => {
                assert(stretch(image@, directory@, k as int) is None);
                return Err(ImageError::OutOfRange);
            },
        };
        match bytes_to_words(bytes) {
            Some(words) => {
                columns.push(words);
            },
            None => {
                assert(words_of(stretch(image@, directory@, k as int).unwrap()) is None);
                return Err(ImageError::OutOfRange);
            },
        }
        k = k + 1;
    }
    proof {
        assert(rows(columns@) =~= columns_of(image@, directory@, n as int));
    }
    Ok((strings, columns))
}

} // verus!
