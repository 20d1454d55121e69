//! The MessagePack values the framing protocol is built from: what their
//! encodings look like on the wire, and the calls into `rmp` that write and
//! read them.
use vstd::prelude::*;
use vstd::utf8::*;

verus! {

/// The outcome of reading one value from the front of a byte sequence:
/// the value and how many bytes it took, or not enough bytes yet, or bytes
/// that can never start such a value.
pub enum Step<T> {
    Done(T, nat),
    Short,
    Bad,
}

// ---------------------------------------------------------------------------
// Big-endian integers

pub open spec fn be16(s: Seq<u8>, i: int) -> u16 {
    ((s[i] as u16) << 8u16) | (s[i + 1] as u16)
}

pub open spec fn be32(s: Seq<u8>, i: int) -> u32 {
    ((s[i] as u32) << 24u32) | ((s[i + 1] as u32) << 16u32) | ((s[i + 2] as u32) << 8u32) | (s[i
        + 3] as u32)
}

pub open spec fn be64(s: Seq<u8>, i: int) -> u64 {
    ((s[i] as u64) << 56u64) | ((s[i + 1] as u64) << 48u64) | ((s[i + 2] as u64) << 40u64) | ((s[i
        + 3] as u64) << 32u64) | ((s[i + 4] as u64) << 24u64) | ((s[i + 5] as u64) << 16u64) | ((s[i
        + 6] as u64) << 8u64) | (s[i + 7] as u64)
}

pub open spec fn u16_bytes(v: u16) -> Seq<u8> {
    seq![(v >> 8u16) as u8, v as u8]
}

pub open spec fn u32_bytes(v: u32) -> Seq<u8> {
    seq![(v >> 24u32) as u8, (v >> 16u32) as u8, (v >> 8u32) as u8, v as u8]
}

pub open spec fn u64_bytes(v: u64) -> Seq<u8> {
    seq![
        (v >> 56u64) as u8,
        (v >> 48u64) as u8,
        (v >> 40u64) as u8,
        (v >> 32u64) as u8,
        (v >> 24u64) as u8,
        (v >> 16u64) as u8,
        (v >> 8u64) as u8,
        v as u8,
    ]
}

// ---------------------------------------------------------------------------
// Encodings written by `rmp::encode`

/// `write_array_len`: the shortest array header for `len`.
pub open spec fn array_len_bytes(len: u32) -> Seq<u8> {
    if len < 16 {
        seq![(0x90u32 + len) as u8]
    } else if len <= 0xffff {
        seq![0xdcu8] + u16_bytes(len as u16)
    } else {
        seq![0xddu8] + u32_bytes(len)
    }
}

/// `write_bin_len`: the shortest binary header for `len`.
pub open spec fn bin_len_bytes(len: u32) -> Seq<u8> {
    if len < 256 {
        seq![0xc4u8, len as u8]
    } else if len <= 0xffff {
        seq![0xc5u8] + u16_bytes(len as u16)
    } else {
        seq![0xc6u8] + u32_bytes(len)
    }
}

/// `write_str_len`: the shortest string header for `len`.
pub open spec fn str_len_bytes(len: u32) -> Seq<u8> {
    if len < 32 {
        seq![(0xa0u32 + len) as u8]
    } else if len < 256 {
        seq![0xd9u8, len as u8]
    } else if len <= 0xffff {
        seq![0xdau8] + u16_bytes(len as u16)
    } else {
        seq![0xdbu8] + u32_bytes(len)
    }
}

/// `write_i8`: always the two-byte form.
pub open spec fn i8_bytes(v: i8) -> Seq<u8> {
    seq![0xd0u8, v as u8]
}

/// `write_i32`: always the five-byte form.
pub open spec fn i32_bytes(v: i32) -> Seq<u8> {
    seq![0xd2u8] + u32_bytes(v as u32)
}

/// `write_i64`: always the nine-byte form.
pub open spec fn i64_bytes(v: i64) -> Seq<u8> {
    seq![0xd3u8] + u64_bytes(v as u64)
}

/// `write_u64`: always the nine-byte form.
pub open spec fn u64_value_bytes(v: u64) -> Seq<u8> {
    seq![0xcfu8] + u64_bytes(v)
}

/// `write_bin`: the header for the length (as `rmp` takes it, modulo 2^32)
/// followed by the data.
pub open spec fn bin_bytes(data: Seq<u8>) -> Seq<u8> {
    bin_len_bytes(data.len() as u32) + data
}

/// `write_str`: the header for the UTF-8 length (modulo 2^32) followed by
/// the UTF-8 bytes of the text.
pub open spec fn str_bytes(text: Seq<char>) -> Seq<u8> {
    str_len_bytes(encode_utf8(text).len() as u32) + encode_utf8(text)
}

// ---------------------------------------------------------------------------
// Values read by `rmp::decode`

/// `read_int`: any MessagePack integer, whatever its width, as a
/// mathematical integer.
#[verifier::opaque]
pub open spec fn int_value(s: Seq<u8>) -> Step<int> {
    if s.len() == 0 {
        Step::Short
    } else {
        let m = s[0];
        if m <= 0x7f {
            Step::Done(m as int, 1)
        } else if m >= 0xe0 {
            Step::Done(m as int - 256, 1)
        } else if m == 0xcc {
            if s.len() < 2 { Step::Short } else { Step::Done(s[1] as int, 2) }
        } else if m == 0xcd {
            if s.len() < 3 { Step::Short } else { Step::Done(be16(s, 1) as int, 3) }
        } else if m == 0xce {
            if s.len() < 5 { Step::Short } else { Step::Done(be32(s, 1) as int, 5) }
        } else if m == 0xcf {
            if s.len() < 9 { Step::Short } else { Step::Done(be64(s, 1) as int, 9) }
        } else if m == 0xd0 {
            if s.len() < 2 { Step::Short } else { Step::Done((s[1] as i8) as int, 2) }
        } else if m == 0xd1 {
            if s.len() < 3 { Step::Short } else { Step::Done((be16(s, 1) as i16) as int, 3) }
        } else if m == 0xd2 {
            if s.len() < 5 { Step::Short } else { Step::Done((be32(s, 1) as i32) as int, 5) }
        } else if m == 0xd3 {
            if s.len() < 9 { Step::Short } else { Step::Done((be64(s, 1) as i64) as int, 9) }
        } else {
            Step::Bad
        }
    }
}

/// `read_int::<u64>`: an integer that fits in `u64`.
pub open spec fn u64_value(s: Seq<u8>) -> Step<int> {
    match int_value(s) {
        Step::Done(v, n) => if 0 <= v <= u64::MAX { Step::Done(v, n) } else { Step::Bad },
        Step::Short => Step::Short,
        Step::Bad => Step::Bad,
    }
}

/// `read_int::<i64>`: an integer that fits in `i64`.
pub open spec fn i64_value(s: Seq<u8>) -> Step<int> {
    match int_value(s) {
        Step::Done(v, n) => if i64::MIN <= v <= i64::MAX { Step::Done(v, n) } else { Step::Bad },
        Step::Short => Step::Short,
        Step::Bad => Step::Bad,
    }
}

/// `read_array_len`: the element count of an array header.
#[verifier::opaque]
pub open spec fn array_len(s: Seq<u8>) -> Step<nat> {
    if s.len() == 0 {
        Step::Short
    } else {
        let m = s[0];
        if 0x90 <= m <= 0x9f {
            Step::Done((m - 0x90) as nat, 1)
        } else if m == 0xdc {
            if s.len() < 3 { Step::Short } else { Step::Done(be16(s, 1) as nat, 3) }
        } else if m == 0xdd {
            if s.len() < 5 { Step::Short } else { Step::Done(be32(s, 1) as nat, 5) }
        } else {
            Step::Bad
        }
    }
}

/// `read_bin_len`: the byte count of a binary header.
#[verifier::opaque]
pub open spec fn bin_len(s: Seq<u8>) -> Step<nat> {
    if s.len() == 0 {
        Step::Short
    } else {
        let m = s[0];
        if m == 0xc4 {
            if s.len() < 2 { Step::Short } else { Step::Done(s[1] as nat, 2) }
        } else if m == 0xc5 {
            if s.len() < 3 { Step::Short } else { Step::Done(be16(s, 1) as nat, 3) }
        } else if m == 0xc6 {
            if s.len() < 5 { Step::Short } else { Step::Done(be32(s, 1) as nat, 5) }
        } else {
            Step::Bad
        }
    }
}

/// `read_str_len`: the byte count of a string header.
#[verifier::opaque]
pub open spec fn str_len(s: Seq<u8>) -> Step<nat> {
    if s.len() == 0 {
        Step::Short
    } else {
        let m = s[0];
        if 0xa0 <= m <= 0xbf {
            Step::Done((m - 0xa0) as nat, 1)
        } else if m == 0xd9 {
            if s.len() < 2 { Step::Short } else { Step::Done(s[1] as nat, 2) }
        } else if m == 0xda {
            if s.len() < 3 { Step::Short } else { Step::Done(be16(s, 1) as nat, 3) }
        } else if m == 0xdb {
            if s.len() < 5 { Step::Short } else { Step::Done(be32(s, 1) as nat, 5) }
        } else {
            Step::Bad
        }
    }
}

/// A binary value: its header, then as many bytes as the header counts.
pub open spec fn bin_value(s: Seq<u8>) -> Step<Seq<u8>> {
    match bin_len(s) {
        Step::Done(len, n) => if s.len() < n + len {
            Step::Short
        } else {
            Step::Done(s.subrange(n as int, (n + len) as int), n + len)
        },
        Step::Short => Step::Short,
        Step::Bad => Step::Bad,
    }
}

/// A string value: its header, then as many bytes as the header counts,
/// which must be UTF-8.
pub open spec fn str_value(s: Seq<u8>) -> Step<Seq<char>> {
    match str_len(s) {
        Step::Done(len, n) => if s.len() < n + len {
            Step::Short
        } else if valid_utf8(s.subrange(n as int, (n + len) as int)) {
            Step::Done(decode_utf8(s.subrange(n as int, (n + len) as int)), n + len)
        } else {
            Step::Bad
        },
        Step::Short => Step::Short,
        Step::Bad => Step::Bad,
    }
}

/// A value read from the front of a sequence takes at least one byte and no
/// more than the sequence holds.
pub broadcast proof fn lemma_int_value_len(s: Seq<u8>)
    ensures
        #[trigger] int_value(s) matches Step::Done(_, n) ==> 0 < n <= s.len(),
{
    reveal(int_value);
}

pub broadcast proof fn lemma_array_len_len(s: Seq<u8>)
    ensures
        #[trigger] array_len(s) matches Step::Done(_, n) ==> 0 < n <= s.len(),
{
    reveal(array_len);
}

pub broadcast proof fn lemma_bin_len_len(s: Seq<u8>)
    ensures
        #[trigger] bin_len(s) matches Step::Done(_, n) ==> 0 < n <= s.len(),
{
    reveal(bin_len);
}

pub broadcast proof fn lemma_str_len_len(s: Seq<u8>)
    ensures
        #[trigger] str_len(s) matches Step::Done(_, n) ==> 0 < n <= s.len(),
{
    reveal(str_len);
}

pub broadcast group group_step_len {
    lemma_int_value_len,
    lemma_array_len_len,
    lemma_bin_len_len,
    lemma_str_len_len,
}

// ---------------------------------------------------------------------------
// What is written reads back

proof fn lemma_u16_bytes(v: u16)
    ensures
        ((((v >> 8u16) as u8) as u16) << 8u16) | ((v as u8) as u16) == v,
{
    assert(((((v >> 8u16) as u8) as u16) << 8u16) | ((v as u8) as u16) == v) by (bit_vector);
}

proof fn lemma_u32_bytes(v: u32)
    ensures
        ((((v >> 24u32) as u8) as u32) << 24u32) | ((((v >> 16u32) as u8) as u32) << 16u32) | ((((v
            >> 8u32) as u8) as u32) << 8u32) | ((v as u8) as u32) == v,
{
    assert(((((v >> 24u32) as u8) as u32) << 24u32) | ((((v >> 16u32) as u8) as u32) << 16u32) | ((
    ((v >> 8u32) as u8) as u32) << 8u32) | ((v as u8) as u32) == v) by (bit_vector);
}

proof fn lemma_u64_bytes(v: u64)
    ensures
        ((((v >> 56u64) as u8) as u64) << 56u64) | ((((v >> 48u64) as u8) as u64) << 48u64) | ((((v
            >> 40u64) as u8) as u64) << 40u64) | ((((v >> 32u64) as u8) as u64) << 32u64) | ((((v
            >> 24u64) as u8) as u64) << 24u64) | ((((v >> 16u64) as u8) as u64) << 16u64) | ((((v
            >> 8u64) as u8) as u64) << 8u64) | ((v as u8) as u64) == v,
{
    assert(((((v >> 56u64) as u8) as u64) << 56u64) | ((((v >> 48u64) as u8) as u64) << 48u64) | ((
    ((v >> 40u64) as u8) as u64) << 40u64) | ((((v >> 32u64) as u8) as u64) << 32u64) | ((((v
        >> 24u64) as u8) as u64) << 24u64) | ((((v >> 16u64) as u8) as u64) << 16u64) | ((((v
        >> 8u64) as u8) as u64) << 8u64) | ((v as u8) as u64) == v) by (bit_vector);
}

/// Big-endian bytes read back as the integer they were made from.
pub proof fn lemma_be16_of(v: u16, s: Seq<u8>, i: int)
    requires
        0 <= i,
        i + 2 <= s.len(),
        s.subrange(i, i + 2) == u16_bytes(v),
    ensures
        be16(s, i) == v,
{
    assert(s[i] == s.subrange(i, i + 2)[0]);
    assert(s[i + 1] == s.subrange(i, i + 2)[1]);
    lemma_u16_bytes(v);
}

pub proof fn lemma_be32_of(v: u32, s: Seq<u8>, i: int)
    requires
        0 <= i,
        i + 4 <= s.len(),
        s.subrange(i, i + 4) == u32_bytes(v),
    ensures
        be32(s, i) == v,
{
    let t = s.subrange(i, i + 4);
    assert(s[i] == t[0] && s[i + 1] == t[1] && s[i + 2] == t[2] && s[i + 3] == t[3]);
    lemma_u32_bytes(v);
}

pub proof fn lemma_be64_of(v: u64, s: Seq<u8>, i: int)
    requires
        0 <= i,
        i + 8 <= s.len(),
        s.subrange(i, i + 8) == u64_bytes(v),
    ensures
        be64(s, i) == v,
{
    let t = s.subrange(i, i + 8);
    assert(s[i] == t[0] && s[i + 1] == t[1] && s[i + 2] == t[2] && s[i + 3] == t[3]);
    assert(s[i + 4] == t[4] && s[i + 5] == t[5] && s[i + 6] == t[6] && s[i + 7] == t[7]);
    lemma_u64_bytes(v);
}

/// An array header reads back as its element count.
pub proof fn lemma_array_len_bytes(len: u32, rest: Seq<u8>)
    ensures
        array_len(array_len_bytes(len) + rest) == Step::Done(
            len as nat,
            array_len_bytes(len).len(),
        ),
{
    reveal(array_len);
    let s = array_len_bytes(len) + rest;
    if len < 16 {
        assert(s[0] == (0x90u32 + len) as u8);
    } else if len <= 0xffff {
        assert(s.subrange(1, 3) =~= u16_bytes(len as u16));
        lemma_be16_of(len as u16, s, 1);
    } else {
        assert(s.subrange(1, 5) =~= u32_bytes(len));
        lemma_be32_of(len, s, 1);
    }
}

/// `write_u64` reads back as the same number.
pub proof fn lemma_u64_value_bytes(v: u64, rest: Seq<u8>)
    ensures
        u64_value(u64_value_bytes(v) + rest) == Step::Done(v as int, 9),
{
    reveal(int_value);
    let s = u64_value_bytes(v) + rest;
    assert(s[0] == 0xcfu8);
    assert(s.subrange(1, 9) =~= u64_bytes(v));
    lemma_be64_of(v, s, 1);
}

/// `write_i32` of a non-negative number reads back as that number.
pub proof fn lemma_i32_bytes(v: i32, rest: Seq<u8>)
    requires
        0 <= v,
    ensures
        u64_value(i32_bytes(v) + rest) == Step::Done(v as int, 5),
{
    reveal(int_value);
    let s = i32_bytes(v) + rest;
    assert(s[0] == 0xd2u8);
    assert(s.subrange(1, 5) =~= u32_bytes(v as u32));
    lemma_be32_of(v as u32, s, 1);
    assert((v as u32) as i32 == v) by (bit_vector);
}

/// `write_i64` of a non-negative number reads back as that number.
pub proof fn lemma_i64_bytes(v: i64, rest: Seq<u8>)
    requires
        0 <= v,
    ensures
        u64_value(i64_bytes(v) + rest) == Step::Done(v as int, 9),
{
    reveal(int_value);
    let s = i64_bytes(v) + rest;
    assert(s[0] == 0xd3u8);
    assert(s.subrange(1, 9) =~= u64_bytes(v as u64));
    lemma_be64_of(v as u64, s, 1);
    assert((v as u64) as i64 == v) by (bit_vector);
}

/// `write_i8` reads back as the same number.
pub proof fn lemma_i8_bytes(v: i8, rest: Seq<u8>)
    ensures
        i64_value(i8_bytes(v) + rest) == Step::Done(v as int, 2),
{
    reveal(int_value);
    let s = i8_bytes(v) + rest;
    assert(s[0] == 0xd0u8);
    assert(s[1] == v as u8);
    assert((v as u8) as i8 == v) by (bit_vector);
}

/// `write_bin` reads back as the same bytes, when their length fits the
/// header.
pub proof fn lemma_bin_bytes(data: Seq<u8>, rest: Seq<u8>)
    requires
        data.len() <= u32::MAX,
    ensures
        bin_value(bin_bytes(data) + rest) == Step::Done(data, bin_bytes(data).len()),
{
    reveal(bin_len);
    let len = data.len() as u32;
    let h = bin_len_bytes(len);
    let s = bin_bytes(data) + rest;
    assert(s =~= h + (data + rest));
    if len < 256 {
        assert(s[0] == 0xc4u8 && s[1] == len as u8);
        assert(bin_len(s) == Step::Done(len as nat, 2));
    } else if len <= 0xffff {
        assert(s.subrange(1, 3) =~= u16_bytes(len as u16));
        lemma_be16_of(len as u16, s, 1);
        assert(bin_len(s) == Step::Done(len as nat, 3));
    } else {
        assert(s.subrange(1, 5) =~= u32_bytes(len));
        lemma_be32_of(len, s, 1);
        assert(bin_len(s) == Step::Done(len as nat, 5));
    }
    assert(s.subrange(h.len() as int, (h.len() + data.len()) as int) =~= data);
}

/// `write_str` reads back as the same text, when its UTF-8 length fits the
/// header.
pub proof fn lemma_str_bytes(text: Seq<char>, rest: Seq<u8>)
    requires
        encode_utf8(text).len() <= u32::MAX,
    ensures
        str_value(str_bytes(text) + rest) == Step::Done(text, str_bytes(text).len()),
{
    reveal(str_len);
    let data = encode_utf8(text);
    let len = data.len() as u32;
    let h = str_len_bytes(len);
    let s = str_bytes(text) + rest;
    assert(s =~= h + (data + rest));
    if len < 32 {
        assert(s[0] == (0xa0u32 + len) as u8);
        assert(str_len(s) == Step::Done(len as nat, 1));
    } else if len < 256 {
        assert(s[0] == 0xd9u8 && s[1] == len as u8);
        assert(str_len(s) == Step::Done(len as nat, 2));
    } else if len <= 0xffff {
        assert(s.subrange(1, 3) =~= u16_bytes(len as u16));
        lemma_be16_of(len as u16, s, 1);
        assert(str_len(s) == Step::Done(len as nat, 3));
    } else {
        assert(s.subrange(1, 5) =~= u32_bytes(len));
        lemma_be32_of(len, s, 1);
        assert(str_len(s) == Step::Done(len as nat, 5));
    }
    assert(s.subrange(h.len() as int, (h.len() + data.len()) as int) =~= data);
    encode_utf8_valid_utf8(text);
    encode_utf8_decode_utf8(text);
}

// ---------------------------------------------------------------------------
// Bytes that arrive later change nothing once a value is decided

/// `later` agrees with `first` wherever `first` is decided: a value read
/// stays the same value taking the same bytes, and bytes that cannot start
/// a value still cannot.
pub open spec fn settled<T>(first: Step<T>, later: Step<T>) -> bool {
    match first {
        Step::Done(v, n) => later == Step::Done(v, n),
        Step::Bad => later is Bad,
        Step::Short => true,
    }
}

proof fn lemma_prefix_bytes(s: Seq<u8>, t: Seq<u8>, k: int)
    requires
        0 <= k <= s.len(),
    ensures
        forall|i: int| 0 <= i < k ==> (s + t)[i] == s[i],
{
}

pub proof fn lemma_int_value_prefix(s: Seq<u8>, t: Seq<u8>)
    ensures
        settled(int_value(s), int_value(s + t)),
{
    reveal(int_value);
    let u = s + t;
    if s.len() > 0 {
        assert(u[0] == s[0]);
        if s.len() >= 9 {
            lemma_prefix_bytes(s, t, 9);
            assert(be64(u, 1) == be64(s, 1));
        }
        if s.len() >= 5 {
            lemma_prefix_bytes(s, t, 5);
            assert(be32(u, 1) == be32(s, 1));
        }
        if s.len() >= 3 {
            lemma_prefix_bytes(s, t, 3);
            assert(be16(u, 1) == be16(s, 1));
        }
        if s.len() >= 2 {
            assert(u[1] == s[1]);
        }
    }
}

pub proof fn lemma_u64_value_prefix(s: Seq<u8>, t: Seq<u8>)
    ensures
        settled(u64_value(s), u64_value(s + t)),
{
    lemma_int_value_prefix(s, t);
}

pub proof fn lemma_i64_value_prefix(s: Seq<u8>, t: Seq<u8>)
    ensures
        settled(i64_value(s), i64_value(s + t)),
{
    lemma_int_value_prefix(s, t);
}

pub proof fn lemma_array_len_prefix(s: Seq<u8>, t: Seq<u8>)
    ensures
        settled(array_len(s), array_len(s + t)),
{
    reveal(array_len);
    let u = s + t;
    if s.len() > 0 {
        assert(u[0] == s[0]);
        if s.len() >= 5 {
            lemma_prefix_bytes(s, t, 5);
            assert(be32(u, 1) == be32(s, 1));
        }
        if s.len() >= 3 {
            lemma_prefix_bytes(s, t, 3);
            assert(be16(u, 1) == be16(s, 1));
        }
    }
}

proof fn lemma_bin_len_prefix(s: Seq<u8>, t: Seq<u8>)
    ensures
        settled(bin_len(s), bin_len(s + t)),
{
    reveal(bin_len);
    let u = s + t;
    if s.len() > 0 {
        assert(u[0] == s[0]);
        if s.len() >= 5 {
            lemma_prefix_bytes(s, t, 5);
            assert(be32(u, 1) == be32(s, 1));
        }
        if s.len() >= 3 {
            lemma_prefix_bytes(s, t, 3);
            assert(be16(u, 1) == be16(s, 1));
        }
        if s.len() >= 2 {
            assert(u[1] == s[1]);
        }
    }
}

proof fn lemma_str_len_prefix(s: Seq<u8>, t: Seq<u8>)
    ensures
        settled(str_len(s), str_len(s + t)),
{
    reveal(str_len);
    let u = s + t;
    if s.len() > 0 {
        assert(u[0] == s[0]);
        if s.len() >= 5 {
            lemma_prefix_bytes(s, t, 5);
            assert(be32(u, 1) == be32(s, 1));
        }
        if s.len() >= 3 {
            lemma_prefix_bytes(s, t, 3);
            assert(be16(u, 1) == be16(s, 1));
        }
        if s.len() >= 2 {
            assert(u[1] == s[1]);
        }
    }
}

pub proof fn lemma_str_value_prefix(s: Seq<u8>, t: Seq<u8>)
    ensures
        settled(str_value(s), str_value(s + t)),
{
    lemma_str_len_prefix(s, t);
    if let Step::Done(len, n) = str_len(s) {
        if s.len() >= n + len {
            assert((s + t).subrange(n as int, (n + len) as int) =~= s.subrange(
                n as int,
                (n + len) as int,
            ));
        }
    }
}

pub proof fn lemma_bin_value_prefix(s: Seq<u8>, t: Seq<u8>)
    ensures
        settled(bin_value(s), bin_value(s + t)),
{
    lemma_bin_len_prefix(s, t);
    if let Step::Done(len, n) = bin_len(s) {
        if s.len() >= n + len {
            assert((s + t).subrange(n as int, (n + len) as int) =~= s.subrange(
                n as int,
                (n + len) as int,
            ));
        }
    }
}

// ---------------------------------------------------------------------------
// Writing with `rmp::encode` into a vector. Writing to a `Vec<u8>` through
// `std::io::Write` never fails, so the `Result` these functions return is
// always `Ok` and is dropped.

/// Calls `rmp::encode::write_array_len`: appends the shortest array header
/// for `len`.
#[verifier::external_body]
pub(crate) fn write_array_len(buf: &mut Vec<u8>, len: u32)
    ensures
        final(buf)@ == old(buf)@ + array_len_bytes(len),
{
    let _ = rmp::encode::write_array_len(buf, len);
}

/// Calls `rmp::encode::write_i8`: appends marker `0xd0` and the byte.
#[verifier::external_body]
pub(crate) fn write_i8(buf: &mut Vec<u8>, v: i8)
    ensures
        final(buf)@ == old(buf)@ + i8_bytes(v),
{
    let _ = rmp::encode::write_i8(buf, v);
}

/// Calls `rmp::encode::write_i32`: appends marker `0xd2` and the four
/// big-endian bytes.
#[verifier::external_body]
pub(crate) fn write_i32(buf: &mut Vec<u8>, v: i32)
    ensures
        final(buf)@ == old(buf)@ + i32_bytes(v),
{
    let _ = rmp::encode::write_i32(buf, v);
}

/// Calls `rmp::encode::write_i64`: appends marker `0xd3` and the eight
/// big-endian bytes.
#[verifier::external_body]
pub(crate) fn write_i64(buf: &mut Vec<u8>, v: i64)
    ensures
        final(buf)@ == old(buf)@ + i64_bytes(v),
{
    let _ = rmp::encode::write_i64(buf, v);
}

/// Calls `rmp::encode::write_u64`: appends marker `0xcf` and the eight
/// big-endian bytes.
#[verifier::external_body]
pub(crate) fn write_u64(buf: &mut Vec<u8>, v: u64)
    ensures
        final(buf)@ == old(buf)@ + u64_value_bytes(v),
{
    let _ = rmp::encode::write_u64(buf, v);
}

/// Calls `rmp::encode::write_bin`: appends the shortest binary header for
/// the data's length taken modulo 2^32, then the data.
#[verifier::external_body]
pub(crate) fn write_bin(buf: &mut Vec<u8>, data: &[u8])
    ensures
        final(buf)@ == old(buf)@ + bin_bytes(data@),
{
    let _ = rmp::encode::write_bin(buf, data);
}

/// Calls `rmp::encode::write_str`: appends the shortest string header for
/// the text's UTF-8 length taken modulo 2^32, then its UTF-8 bytes.
#[verifier::external_body]
pub(crate) fn write_str(buf: &mut Vec<u8>, text: &str)
    ensures
        final(buf)@ == old(buf)@ + str_bytes(text@),
{
    let _ = rmp::encode::write_str(buf, text);
}

// ---------------------------------------------------------------------------
// Reading with `rmp::decode` from the front of a slice.

/// Why a value could not be read from the front of a slice.
#[derive(Debug, Clone, Copy, PartialEq, Eq, Structural)]
pub enum ReadFail {
    /// The slice ends before the value does.
    Short,
    /// The bytes cannot start such a value.
    Malformed,
}

/// Calls `rmp::decode::read_int::<u64>` on the slice: reads any integer
/// encoding whose value fits `u64`, and hands back the bytes after it. Over
/// a slice the only I/O failure is running out of bytes.
#[verifier::external_body]
pub(crate) fn read_u64(s: &[u8]) -> (r: Result<(u64, &[u8]), ReadFail>)
    ensures
        match r {
            Ok((v, rest)) => u64_value(s@) matches Step::Done(x, n) && x == v && rest@ == s@.skip(
                n as int,
            ),
            Err(ReadFail::Short) => u64_value(s@) is Short,
            Err(ReadFail::Malformed) => u64_value(s@) is Bad,
        },
{
    let mut rd = rmp::decode::Bytes::new(s);
    match rmp::decode::read_int::<u64, _>(&mut rd) {
        Ok(v) => Ok((v, rd.remaining_slice())),
        Err(rmp::decode::NumValueReadError::InvalidMarkerRead(_)) => Err(ReadFail::Short),
        Err(rmp::decode::NumValueReadError::InvalidDataRead(_)) => Err(ReadFail::Short),
        Err(rmp::decode::NumValueReadError::TypeMismatch(_)) => Err(ReadFail::Malformed),
        Err(rmp::decode::NumValueReadError::OutOfRange) => Err(ReadFail::Malformed),
    }
}

/// Calls `rmp::decode::read_int::<i64>` on the slice: reads any integer
/// encoding whose value fits `i64`, and hands back the bytes after it.
#[verifier::external_body]
pub(crate) fn read_i64(s: &[u8]) -> (r: Result<(i64, &[u8]), ReadFail>)
    ensures
        match r {
            Ok((v, rest)) => i64_value(s@) matches Step::Done(x, n) && x == v && rest@ == s@.skip(
                n as int,
            ),
            Err(ReadFail::Short) => i64_value(s@) is Short,
            Err(ReadFail::Malformed) => i64_value(s@) is Bad,
        },
{
    let mut rd = rmp::decode::Bytes::new(s);
    match rmp::decode::read_int::<i64, _>(&mut rd) {
        Ok(v) => Ok((v, rd.remaining_slice())),
        Err(rmp::decode::NumValueReadError::InvalidMarkerRead(_)) => Err(ReadFail::Short),
        Err(rmp::decode::NumValueReadError::InvalidDataRead(_)) => Err(ReadFail::Short),
        Err(rmp::decode::NumValueReadError::TypeMismatch(_)) => Err(ReadFail::Malformed),
        Err(rmp::decode::NumValueReadError::OutOfRange) => Err(ReadFail::Malformed),
    }
}

/// Calls `rmp::decode::read_array_len` on the slice: reads an array header
/// and hands back the bytes after it.
#[verifier::external_body]
pub(crate) fn read_array_len(s: &[u8]) -> (r: Result<(u32, &[u8]), ReadFail>)
    ensures
        match r {
            Ok((v, rest)) => array_len(s@) matches Step::Done(x, n) && x == v && rest@ == s@.skip(
                n as int,
            ),
            Err(ReadFail::Short) => array_len(s@) is Short,
            Err(ReadFail::Malformed) => array_len(s@) is Bad,
        },
{
    let mut rd = rmp::decode::Bytes::new(s);
    match rmp::decode::read_array_len(&mut rd) {
        Ok(v) => Ok((v, rd.remaining_slice())),
        Err(rmp::decode::ValueReadError::InvalidMarkerRead(_)) => Err(ReadFail::Short),
        Err(rmp::decode::ValueReadError::InvalidDataRead(_)) => Err(ReadFail::Short),
        Err(rmp::decode::ValueReadError::TypeMismatch(_)) => Err(ReadFail::Malformed),
    }
}

/// Calls `rmp::decode::read_bin_len` on the slice: reads a binary header
/// and hands back the bytes after it.
#[verifier::external_body]
pub(crate) fn read_bin_len(s: &[u8]) -> (r: Result<(u32, &[u8]), ReadFail>)
    ensures
        match r {
            Ok((v, rest)) => bin_len(s@) matches Step::Done(x, n) && x == v && rest@ == s@.skip(
                n as int,
            ),
            Err(ReadFail::Short) => bin_len(s@) is Short,
            Err(ReadFail::Malformed) => bin_len(s@) is Bad,
        },
{
    let mut rd = rmp::decode::Bytes::new(s);
    match rmp::decode::read_bin_len(&mut rd) {
        Ok(v) => Ok((v, rd.remaining_slice())),
        Err(rmp::decode::ValueReadError::InvalidMarkerRead(_)) => Err(ReadFail::Short),
        Err(rmp::decode::ValueReadError::InvalidDataRead(_)) => Err(ReadFail::Short),
        Err(rmp::decode::ValueReadError::TypeMismatch(_)) => Err(ReadFail::Malformed),
    }
}

/// Calls `rmp::decode::read_str_len` on the slice: reads a string header
/// and hands back the bytes after it.
#[verifier::external_body]
pub(crate) fn read_str_len(s: &[u8]) -> (r: Result<(u32, &[u8]), ReadFail>)
    ensures
        match r {
            Ok((v, rest)) => str_len(s@) matches Step::Done(x, n) && x == v && rest@ == s@.skip(
                n as int,
            ),
            Err(ReadFail::Short) => str_len(s@) is Short,
            Err(ReadFail::Malformed) => str_len(s@) is Bad,
        },
{
    let mut rd = rmp::decode::Bytes::new(s);
    match rmp::decode::read_str_len(&mut rd) {
        Ok(v) => Ok((v, rd.remaining_slice())),
        Err(rmp::decode::ValueReadError::InvalidMarkerRead(_)) => Err(ReadFail::Short),
        Err(rmp::decode::ValueReadError::InvalidDataRead(_)) => Err(ReadFail::Short),
        Err(rmp::decode::ValueReadError::TypeMismatch(_)) => Err(ReadFail::Malformed),
    }
}

/// Calls `String::from_utf8`: it succeeds exactly on well-formed UTF-8, and
/// the string then holds the characters those bytes encode.
#[verifier::external_body]
pub(crate) fn string_from_utf8(bytes: Vec<u8>) -> (r: Option<String>)
    ensures
        match r {
            Some(text) => valid_utf8(bytes@) && text@ == decode_utf8(bytes@),
            None => !valid_utf8(bytes@),
        },
{
    String::from_utf8(bytes).ok()
}

} // verus!
