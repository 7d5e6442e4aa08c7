use vstd::prelude::*;

verus! {

/// Number of bytes in one word of the encoding.
pub const WORD_SIZE: usize = 32;

/// A run of `n` zero bytes.
pub open spec fn zeros(n: nat) -> Seq<u8> {
    Seq::new(n, |i: int| 0u8)
}

/// A run of `n` bytes `0xFF`.
pub open spec fn ones(n: nat) -> Seq<u8> {
    Seq::new(n, |i: int| 0xFFu8)
}

/// 256 to the power of `n`.
pub open spec fn pow256(n: nat) -> nat
    decreases n,
{
    if n == 0 {
        1
    } else {
        256 * pow256((n - 1) as nat)
    }
}

/// The number that `bytes` writes, the most significant byte first.
pub open spec fn be_value(bytes: Seq<u8>) -> nat
    decreases bytes.len(),
{
    if bytes.len() == 0 {
        0
    } else {
        256 * be_value(bytes.drop_last()) + bytes.last() as nat
    }
}

/// The `len` least significant base-256 digits of `v`, most significant first.
///
/// Division and remainder round towards negative infinity, so a negative `v`
/// yields its two's-complement representation.
pub open spec fn be_bytes(v: int, len: nat) -> Seq<u8>
    decreases len,
{
    if len == 0 {
        Seq::empty()
    } else {
        be_bytes(v / 256, (len - 1) as nat).push((v % 256) as u8)
    }
}

/// The word that holds the integer `v`: big-endian, sign-extended to 32 bytes.
pub open spec fn int_word(v: int) -> Seq<u8> {
    be_bytes(v, 32)
}

/// The word that holds a boolean: all zero but for the last byte, which is 0 or 1.
pub open spec fn bool_word(b: bool) -> Seq<u8> {
    int_word(if b { 1 } else { 0 })
}

/// `bytes` preceded by as many zero bytes as it takes to fill a word.
pub open spec fn left_pad(bytes: Seq<u8>) -> Seq<u8> {
    if bytes.len() >= 32 {
        bytes
    } else {
        zeros((32 - bytes.len()) as nat) + bytes
    }
}

/// `bytes` followed by as many zero bytes as it takes to reach `n` bytes.
pub open spec fn right_pad(bytes: Seq<u8>, n: nat) -> Seq<u8> {
    if bytes.len() >= n {
        bytes
    } else {
        bytes + zeros((n - bytes.len()) as nat)
    }
}

/// Number of zero bytes that bring a run of `len` bytes to a word boundary.
pub open spec fn padding(len: nat) -> nat {
    ((32 - len % 32) % 32) as nat
}

/// A value of variable length: a word holding its length, then its bytes,
/// then zero bytes up to the next word boundary.
pub open spec fn blob(bytes: Seq<u8>) -> Seq<u8> {
    int_word(bytes.len() as int) + bytes + zeros(padding(bytes.len()))
}

/// `be_bytes` yields exactly as many bytes as it is asked for.
pub proof fn lemma_be_bytes_len(v: int, len: nat)
    ensures
        be_bytes(v, len).len() == len,
    decreases len,
{
    if len > 0 {
        lemma_be_bytes_len(v / 256, (len - 1) as nat);
    }
}

/// The digits of zero are all zero.
pub proof fn lemma_be_bytes_zero(len: nat)
    ensures
        be_bytes(0, len) == zeros(len),
    decreases len,
{
    if len > 0 {
        lemma_be_bytes_zero((len - 1) as nat);
        assert(zeros((len - 1) as nat).push(0u8) =~= zeros(len));
    } else {
        assert(be_bytes(0, len) =~= zeros(len));
    }
}

/// A value below 256 fills only the last byte of its word.
pub proof fn lemma_int_word_small(v: int)
    requires
        0 <= v < 256,
    ensures
        int_word(v) == zeros(31).push(v as u8),
{
    lemma_be_bytes_zero(31);
    assert(be_bytes(v, 32) == be_bytes(v / 256, 31).push((v % 256) as u8));
}

/// The digits of minus one are all `0xFF`.
pub proof fn lemma_be_bytes_minus_one(len: nat)
    ensures
        be_bytes(-1, len) == ones(len),
    decreases len,
{
    if len > 0 {
        lemma_be_bytes_minus_one((len - 1) as nat);
        assert(ones((len - 1) as nat).push(0xFFu8) =~= ones(len));
    } else {
        assert(be_bytes(-1, len) =~= ones(len));
    }
}

/// Read back as a number, the digits of a value that fits are the value:
/// the encoding is big-endian.
pub proof fn lemma_be_bytes_value(v: int, len: nat)
    requires
        0 <= v < pow256(len),
    ensures
        be_value(be_bytes(v, len)) == v,
    decreases len,
{
    if len > 0 {
        let rest = be_bytes(v / 256, (len - 1) as nat);
        lemma_be_bytes_value(v / 256, (len - 1) as nat);
        assert(rest.push((v % 256) as u8).drop_last() =~= rest);
    }
}

/// A negative value that fits has the digits of the value plus `256^len`:
/// the encoding is two's complement.
pub proof fn lemma_be_bytes_twos_complement(v: int, len: nat)
    requires
        -pow256(len) <= v < 0,
    ensures
        be_bytes(v, len) == be_bytes(v + pow256(len), len),
    decreases len,
{
    if len > 0 {
        let p = pow256((len - 1) as nat);
        assert(pow256(len) == 256 * p);
        assert((v + 256 * p) / 256 == v / 256 + p);
        assert((v + 256 * p) % 256 == v % 256);
        lemma_be_bytes_twos_complement(v / 256, (len - 1) as nat);
    }
}

/// More digits than a value needs are filled in at the front: with zero
/// bytes for a value that is not negative, with `0xFF` for a negative one.
pub proof fn lemma_be_bytes_extension(v: int, len: nat, extra: nat)
    ensures
        0 <= v < pow256(len) ==> be_bytes(v, len + extra) == zeros(extra) + be_bytes(v, len),
        -pow256(len) <= v < 0 ==> be_bytes(v, len + extra) == ones(extra) + be_bytes(v, len),
    decreases len,
{
    if len > 0 {
        let p = pow256((len - 1) as nat);
        assert(pow256(len) == 256 * p);
        lemma_be_bytes_extension(v / 256, (len - 1) as nat, extra);
        let digit = (v % 256) as u8;
        if 0 <= v < pow256(len) {
            assert(be_bytes(v, len + extra) == be_bytes(v / 256, (len - 1 + extra) as nat).push(
                digit,
            ));
            assert((zeros(extra) + be_bytes(v / 256, (len - 1) as nat)).push(digit) =~= zeros(extra)
                + be_bytes(v, len));
        }
        if -pow256(len) <= v < 0 {
            assert(be_bytes(v, len + extra) == be_bytes(v / 256, (len - 1 + extra) as nat).push(
                digit,
            ));
            assert((ones(extra) + be_bytes(v / 256, (len - 1) as nat)).push(digit) =~= ones(extra)
                + be_bytes(v, len));
        }
    } else {
        lemma_be_bytes_zero(extra);
        lemma_be_bytes_minus_one(extra);
        assert(zeros(extra) + be_bytes(v, 0) =~= zeros(extra));
        assert(ones(extra) + be_bytes(v, 0) =~= ones(extra));
    }
}

/// Padding a value that fits yields exactly `n` bytes: the value, then
/// zero bytes.
pub proof fn lemma_right_pad(bytes: Seq<u8>, n: nat)
    requires
        bytes.len() <= n,
    ensures
        right_pad(bytes, n).len() == n,
        right_pad(bytes, n) == bytes + zeros((n - bytes.len()) as nat),
        right_pad(bytes, n).subrange(0, bytes.len() as int) == bytes,
        forall|i: int| bytes.len() <= i < n ==> right_pad(bytes, n)[i] == 0,
{
    assert(bytes + zeros(0) =~= bytes);
    assert(right_pad(bytes, n).subrange(0, bytes.len() as int) =~= bytes);
}

/// Padding a value of at most 32 bytes at its front yields exactly one word
/// that ends in the value.
pub proof fn lemma_left_pad(bytes: Seq<u8>)
    requires
        bytes.len() <= 32,
    ensures
        left_pad(bytes).len() == 32,
        left_pad(bytes).subrange(32 - bytes.len(), 32) == bytes,
        forall|i: int| 0 <= i < 32 - bytes.len() ==> left_pad(bytes)[i] == 0,
{
    assert(left_pad(bytes).subrange(32 - bytes.len(), 32) =~= bytes);
}

/// A blob takes a whole number of words: one for the length and as many as
/// its bytes need.
pub proof fn lemma_blob_len(bytes: Seq<u8>)
    ensures
        blob(bytes).len() == 32 + bytes.len() + padding(bytes.len()),
        blob(bytes).len() % 32 == 0,
        padding(bytes.len()) < 32,
{
    lemma_be_bytes_len(bytes.len() as int, 32);
}

/// The word for `magnitude`, or for `-1 - magnitude` when `negative` is set.
fn complement_word(magnitude: u128, negative: bool) -> (word: Vec<u8>)
    ensures
        word@ == int_word(
            if negative {
                -1 - magnitude
            } else {
                magnitude as int
            },
        ),
{
    let ghost v: int = if negative { -1 - magnitude } else { magnitude as int };
    let mut word: Vec<u8> = vec![0u8; 32];
    let mut rest: u128 = magnitude;
    let mut k: usize = 0;
    while k < 32
        invariant
            k <= 32,
            word@.len() == 32,
            int_word(v) == be_bytes(
                if negative {
                    -1 - rest
                } else {
                    rest as int
                },
                (32 - k) as nat,
            ) + word@.subrange(32 - k, 32),
        decreases 32 - k,
    {
        let ghost before: Seq<u8> = word@;
        let ghost cur: int = if negative { -1 - rest } else { rest as int };
        let digit: u8 = (rest % 256) as u8;
        let byte: u8 = if negative { 255 - digit } else { digit };
        word.set(31 - k, byte);
        rest = rest / 256;
        proof {
            let next: int = if negative { -1 - rest } else { rest as int };
            assert(cur % 256 == byte as int);
            assert(cur / 256 == next);
            assert(be_bytes(cur, (32 - k) as nat) == be_bytes(next, (31 - k) as nat).push(byte));
            assert(be_bytes(next, (31 - k) as nat).push(byte) + before.subrange(32 - k, 32)
                =~= be_bytes(next, (31 - k) as nat) + word@.subrange(31 - k, 32));
        }
        k += 1;
    }
    assert(be_bytes(if negative { -1 - rest } else { rest as int }, 0) + word@.subrange(0, 32)
        =~= word@);
    word
}

/// Encodes an unsigned integer as one word.
pub fn encode_unsigned(value: u128) -> (word: Vec<u8>)
    ensures
        word@ == int_word(value as int),
{
    complement_word(value, false)
}

/// Encodes a signed integer as one word, in two's complement.
pub fn encode_signed(value: i128) -> (word: Vec<u8>)
    ensures
        word@ == int_word(value as int),
{
    if value < 0 {
        complement_word((-(value + 1)) as u128, true)
    } else {
        complement_word(value as u128, false)
    }
}

/// Encodes a boolean as one word.
pub fn encode_bool(value: bool) -> (word: Vec<u8>)
    ensures
        word@ == bool_word(value),
{
    if value {
        complement_word(1, false)
    } else {
        complement_word(0, false)
    }
}

/// Appends `count` zero bytes to `bytes`.
pub fn push_zeros(bytes: &mut Vec<u8>, count: usize)
    ensures
        final(bytes)@ == old(bytes)@ + zeros(count as nat),
{
    let mut i: usize = 0;
    while i < count
        invariant
            i <= count,
            bytes@ == old(bytes)@ + zeros(i as nat),
        decreases count - i,
    {
        bytes.push(0u8);
        i += 1;
        assert(bytes@ =~= old(bytes)@ + zeros(i as nat));
    }
}

/// Appends a copy of `source` to `bytes`.
pub fn push_bytes(bytes: &mut Vec<u8>, source: &[u8])
    ensures
        final(bytes)@ == old(bytes)@ + source@,
{
    let mut i: usize = 0;
    while i < source.len()
        invariant
            i <= source@.len(),
            bytes@ == old(bytes)@ + source@.subrange(0, i as int),
        decreases source@.len() - i,
    {
        bytes.push(source[i]);
        i += 1;
        assert(bytes@ =~= old(bytes)@ + source@.subrange(0, i as int));
    }
    assert(source@.subrange(0, source@.len() as int) =~= source@);
}

/// Fills a word with `bytes` at its end and zero bytes before them; a value
/// of 32 bytes or more is copied as it is.
pub fn left_pad_word(bytes: &[u8]) -> (word: Vec<u8>)
    ensures
        word@ == left_pad(bytes@),
{
    let mut word: Vec<u8> = Vec::new();
    if bytes.len() < WORD_SIZE {
        push_zeros(&mut word, WORD_SIZE - bytes.len());
    }
    push_bytes(&mut word, bytes);
    assert(word@ =~= left_pad(bytes@));
    word
}

/// Fills a word with `bytes` at its start and zero bytes after them; a value
/// of 32 bytes or more is copied as it is.
pub fn right_pad_word(bytes: &[u8]) -> (word: Vec<u8>)
    ensures
        word@ == right_pad(bytes@, 32),
{
    let mut word: Vec<u8> = Vec::new();
    push_bytes(&mut word, bytes);
    if bytes.len() < WORD_SIZE {
        push_zeros(&mut word, WORD_SIZE - bytes.len());
    }
    assert(word@ =~= right_pad(bytes@, 32));
    word
}

/// Encodes a value of variable length: its length, its bytes, and the zero
/// bytes that complete the last word.
pub fn encode_blob(bytes: &[u8]) -> (out: Vec<u8>)
    ensures
        out@ == blob(bytes@),
{
    let mut out: Vec<u8> = encode_unsigned(bytes.len() as u128);
    push_bytes(&mut out, bytes);
    let over: usize = bytes.len() % WORD_SIZE;
    if over != 0 {
        push_zeros(&mut out, WORD_SIZE - over);
    }
    assert(out@ =~= blob(bytes@));
    out
}

} // verus!
