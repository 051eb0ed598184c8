use vstd::prelude::*;
use vstd::utf8::*;
use vstd::string::*;
use crate::value::Ptr;

verus! {

pub const NULL: u8 = 0u8;

/// The eight bytes of a word, least significant first.
pub open spec fn spec_word_bytes(word: u64) -> Seq<u8> {
    seq![
        (word % 256) as u8,
        ((word / 0x100) % 256) as u8,
        ((word / 0x1_0000) % 256) as u8,
        ((word / 0x100_0000) % 256) as u8,
        ((word / 0x1_0000_0000) % 256) as u8,
        ((word / 0x100_0000_0000) % 256) as u8,
        ((word / 0x1_0000_0000_0000) % 256) as u8,
        ((word / 0x100_0000_0000_0000) % 256) as u8,
    ]
}

/// The word whose eight bytes, least significant first, stand at `at`.
pub open spec fn spec_word_at(bytes: Seq<u8>, at: int) -> u64
    recommends
        0 <= at,
        at + 8 <= bytes.len(),
{
    (bytes[at] as int + bytes[at + 1] as int * 0x100 + bytes[at + 2] as int * 0x1_0000 + bytes[at
        + 3] as int * 0x100_0000 + bytes[at + 4] as int * 0x1_0000_0000 + bytes[at + 5] as int
        * 0x100_0000_0000 + bytes[at + 6] as int * 0x1_0000_0000_0000 + bytes[at + 7] as int
        * 0x100_0000_0000_0000) as u64
}

/// `bytes` with `patch` written over it from `at` on.
pub open spec fn overwrite(bytes: Seq<u8>, at: int, patch: Seq<u8>) -> Seq<u8> {
    Seq::new(
        bytes.len(),
        |i: int|
            if at <= i < at + patch.len() {
                patch[i - at]
            } else {
                bytes[i]
            },
    )
}

/// The index of the first zero byte at or after `at`, or the length where
/// there is none.
pub open spec fn null_position(bytes: Seq<u8>, at: int) -> int
    decreases bytes.len() - at,
{
    if at < 0 || at >= bytes.len() {
        bytes.len() as int
    } else if bytes[at] == NULL {
        at
    } else {
        null_position(bytes, at + 1)
    }
}

/// The bytes from `at` up to the first zero byte.
pub open spec fn null_run(bytes: Seq<u8>, at: int) -> Seq<u8> {
    bytes.subrange(at, null_position(bytes, at))
}

pub proof fn lemma_null_position(bytes: Seq<u8>, at: int)
    requires
        0 <= at <= bytes.len(),
    ensures
        at <= null_position(bytes, at) <= bytes.len(),
        null_position(bytes, at) < bytes.len() ==> bytes[null_position(bytes, at)] == NULL,
        forall|i: int| at <= i < null_position(bytes, at) ==> bytes[i] != NULL,
    decreases bytes.len() - at,
{
    if at < bytes.len() && bytes[at] != NULL {
        lemma_null_position(bytes, at + 1);
    }
}

/// The first zero byte is where a zero byte stands and none stands before it.
pub proof fn lemma_null_position_is(bytes: Seq<u8>, at: int, end: int)
    requires
        0 <= at <= end <= bytes.len(),
        end < bytes.len() ==> bytes[end] == NULL,
        forall|i: int| at <= i < end ==> bytes[i] != NULL,
    ensures
        null_position(bytes, at) == end,
    decreases end - at,
{
    if at < end {
        lemma_null_position_is(bytes, at + 1, end);
    }
}

/// A word is read back from its eight bytes.
pub proof fn lemma_word_round_trip(word: u64)
    ensures
        spec_word_at(spec_word_bytes(word), 0) == word,
        spec_word_bytes(word).len() == 8,
{
    let q1 = word / 0x100;
    let q2 = q1 / 0x100;
    let q3 = q2 / 0x100;
    let q4 = q3 / 0x100;
    let q5 = q4 / 0x100;
    let q6 = q5 / 0x100;
    let q7 = q6 / 0x100;
    assert(word / 0x1_0000 == q2);
    assert(word / 0x100_0000 == q3);
    assert(word / 0x1_0000_0000 == q4);
    assert(word / 0x100_0000_0000 == q5);
    assert(word / 0x1_0000_0000_0000 == q6);
    assert(word / 0x100_0000_0000_0000 == q7);
    assert(q7 < 256);
}

/// A word written over a buffer is read back from where it was written.
pub proof fn lemma_overwrite_word_same(bytes: Seq<u8>, at: int, word: u64)
    requires
        0 <= at,
        at + 8 <= bytes.len(),
    ensures
        spec_word_at(overwrite(bytes, at, spec_word_bytes(word)), at) == word,
{
    lemma_word_round_trip(word);
}

/// A word that stands clear of a patch is not changed by it.
pub proof fn lemma_overwrite_word_other(bytes: Seq<u8>, at: int, patch: Seq<u8>, from: int)
    requires
        0 <= at,
        at + patch.len() <= bytes.len(),
        0 <= from,
        from + 8 <= bytes.len(),
        from + 8 <= at || at + patch.len() <= from,
    ensures
        spec_word_at(overwrite(bytes, at, patch), from) == spec_word_at(bytes, from),
{
}

// > Readers

pub fn read_byte(entry: &Vec<u8>, at: usize) -> (byte: u8)
    requires
        at < entry.len(),
    ensures
        byte == entry[at as int],
{
    entry[at]
}

pub fn read_bytes(entry: &Vec<u8>, at: usize, len: usize) -> (bytes: Vec<u8>)
    requires
        at + len <= entry.len(),
    ensures
        bytes@ == entry@.subrange(at as int, at + len),
{
    let mut bytes: Vec<u8> = Vec::new();
    let mut i: usize = 0;
    while i < len
        invariant
            i <= len,
            at + len <= entry.len(),
            bytes@ == entry@.subrange(at as int, at + i),
        decreases len - i,
    {
        bytes.push(entry[at + i]);
        i = i + 1;
        assert(bytes@ =~= entry@.subrange(at as int, at + i));
    }
    bytes
}

pub fn read_bytes_until_null(entry: &Vec<u8>, at: usize) -> (bytes: Vec<u8>)
    requires
        at <= entry.len(),
    ensures
        bytes@ == null_run(entry@, at as int),
{
    let mut bytes: Vec<u8> = Vec::new();
    let mut i: usize = at;
    while i < entry.len() && entry[i] != NULL
        invariant
            at <= i <= entry.len(),
            bytes@ == entry@.subrange(at as int, i as int),
            forall|j: int| at <= j < i ==> entry[j] != NULL,
        decreases entry.len() - i,
    {
        bytes.push(entry[i]);
        i = i + 1;
        assert(bytes@ =~= entry@.subrange(at as int, i as int));
    }
    proof {
        lemma_null_position_is(entry@, at as int, i as int);
    }
    bytes
}

pub fn read_number(entry: &Vec<u8>, at: usize) -> (word: u64)
    requires
        at + 8 <= entry.len(),
    ensures
        word == spec_word_at(entry@, at as int),
{
    entry[at] as u64 + entry[at + 1] as u64 * 0x100 + entry[at + 2] as u64 * 0x1_0000 + entry[at
        + 3] as u64 * 0x100_0000 + entry[at + 4] as u64 * 0x1_0000_0000 + entry[at + 5] as u64
        * 0x100_0000_0000 + entry[at + 6] as u64 * 0x1_0000_0000_0000 + entry[at + 7] as u64
        * 0x100_0000_0000_0000
}

/// `String::from_utf8_lossy`, made into an owned string: bytes that are valid
/// UTF-8 come back as the text they encode. Of other bytes nothing is claimed.
#[verifier::external_body]
pub(crate) fn text_of_bytes(bytes: &Vec<u8>) -> (text: String)
    ensures
        valid_utf8(bytes@) ==> text@ == decode_utf8(bytes@),
{
    String::from_utf8_lossy(bytes).into_owned()
}

/// The text that stands at `at`, up to the first zero byte.
pub fn read_string(entry: &Vec<u8>, at: usize) -> (text: String)
    requires
        at <= entry.len(),
    ensures
        valid_utf8(null_run(entry@, at as int)) ==> text@ == decode_utf8(
            null_run(entry@, at as int),
        ),
{
    let bytes = read_bytes_until_null(entry, at);
    text_of_bytes(&bytes)
}

pub fn read_pointer(entry: &Vec<u8>, at: usize) -> (ptr: Ptr)
    requires
        at + 8 <= entry.len(),
    ensures
        ptr == spec_word_at(entry@, at as int),
{
    read_number(entry, at)
}

// < Readers
// > Writers

pub fn write_byte(dest: &mut Vec<u8>, at: usize, byte: u8)
    requires
        at < old(dest).len(),
    ensures
        final(dest)@ == old(dest)@.update(at as int, byte),
{
    dest[at] = byte;
}

pub fn write_bytes(dest: &mut Vec<u8>, at: usize, bytes: &Vec<u8>)
    requires
        at + bytes.len() <= old(dest).len(),
    ensures
        final(dest)@ == overwrite(old(dest)@, at as int, bytes@),
{
    let mut i: usize = 0;
    while i < bytes.len()
        invariant
            i <= bytes.len(),
            at + bytes.len() <= dest.len(),
            dest@ == overwrite(old(dest)@, at as int, bytes@.subrange(0, i as int)),
        decreases bytes.len() - i,
    {
        write_byte(dest, at + i, bytes[i]);
        i = i + 1;
        assert(dest@ =~= overwrite(old(dest)@, at as int, bytes@.subrange(0, i as int)));
    }
    assert(bytes@.subrange(0, i as int) =~= bytes@);
}

/// Writes the bytes of a text and a zero byte after them.
pub fn write_string(dest: &mut Vec<u8>, at: usize, string: String)
    requires
        at + encode_utf8(string@).len() + 1 <= old(dest).len(),
    ensures
        final(dest)@ == overwrite(
            old(dest)@,
            at as int,
            encode_utf8(string@).push(NULL),
        ),
{
    let bytes = string.as_str().as_bytes_vec();
    let len = bytes.len();
    write_bytes(dest, at, &bytes);
    write_byte(dest, at + len, NULL);
    assert(dest@ =~= overwrite(old(dest)@, at as int, encode_utf8(string@).push(NULL)));
}

/// The eight bytes of a word, least significant first.
pub fn number_bytes(num: u64) -> (bytes: Vec<u8>)
    ensures
        bytes@ == spec_word_bytes(num),
{
    let mut bytes: Vec<u8> = Vec::new();
    bytes.push((num % 256) as u8);
    bytes.push(((num / 0x100) % 256) as u8);
    bytes.push(((num / 0x1_0000) % 256) as u8);
    bytes.push(((num / 0x100_0000) % 256) as u8);
    bytes.push(((num / 0x1_0000_0000) % 256) as u8);
    bytes.push(((num / 0x100_0000_0000) % 256) as u8);
    bytes.push(((num / 0x1_0000_0000_0000) % 256) as u8);
    bytes.push(((num / 0x100_0000_0000_0000) % 256) as u8);
    assert(bytes@ =~= spec_word_bytes(num));
    bytes
}

pub fn write_number(dest: &mut Vec<u8>, at: usize, num: u64)
    requires
        at + 8 <= old(dest).len(),
    ensures
        final(dest)@ == overwrite(old(dest)@, at as int, spec_word_bytes(num)),
{
    let bytes = number_bytes(num);
    write_bytes(dest, at, &bytes);
}

pub fn write_pointer(dest: &mut Vec<u8>, at: usize, ptr: Ptr)
    requires
        at + 8 <= old(dest).len(),
    ensures
        final(dest)@ == overwrite(old(dest)@, at as int, spec_word_bytes(ptr)),
{
    write_number(dest, at, ptr);
}

pub fn write_bool(dest: &mut Vec<u8>, at: usize, val: bool)
    requires
        at < old(dest).len(),
    ensures
        final(dest)@ == old(dest)@.update(
            at as int,
            if val {
                1u8
            } else {
                0u8
            },
        ),
{
    write_byte(dest, at, if val { 1 } else { 0 });
}

// < Writers

} // verus!
