//! Unsigned LEB128 integers: seven bits per byte, least significant group
//! first, the high bit set on every byte but the last.

use vstd::prelude::*;

verus! {

/// The longest varint that is read: ten groups of seven bits reach past 64 bits.
pub const MAX_VARINT_LEN: usize = 10;

/// What the front of a byte sequence holds, read as a varint.
#[derive(Clone, Copy, Debug, PartialEq, Eq, Structural)]
pub enum Varint {
    /// A whole varint of `consumed` bytes.
    Complete { value: u64, consumed: usize },
    /// Every byte so far asks for another one, and fewer than
    /// `MAX_VARINT_LEN` bytes are there.
    Incomplete,
    /// `MAX_VARINT_LEN` bytes in a row ask for another one.
    Malformed,
}

/// The mathematical reading of a varint at the front of a sequence.
pub enum Parsed {
    Value { value: nat, len: nat },
    Incomplete,
    Malformed,
}

/// Reads at most `budget` bytes from the front of `bytes`.
pub open spec fn parse(bytes: Seq<u8>, budget: nat) -> Parsed
    decreases budget,
{
    if budget == 0 {
        Parsed::Malformed
    } else if bytes.len() == 0 {
        Parsed::Incomplete
    } else if bytes[0] < 128 {
        Parsed::Value { value: bytes[0] as nat, len: 1 }
    } else {
        match parse(bytes.skip(1), (budget - 1) as nat) {
            Parsed::Value { value, len } => Parsed::Value {
                value: (bytes[0] - 128) as nat + 128 * value,
                len: len + 1,
            },
            Parsed::Incomplete => Parsed::Incomplete,
            Parsed::Malformed => Parsed::Malformed,
        }
    }
}

/// What `decode_varint` returns: the value is kept modulo 2^64, so the bits
/// of a tenth byte above the lowest one are dropped.
pub open spec fn spec_decode(bytes: Seq<u8>) -> Varint {
    match parse(bytes, MAX_VARINT_LEN as nat) {
        Parsed::Value { value, len } => Varint::Complete {
            value: (value % 0x1_0000_0000_0000_0000) as u64,
            consumed: len as usize,
        },
        Parsed::Incomplete => Varint::Incomplete,
        Parsed::Malformed => Varint::Malformed,
    }
}

/// The shortest varint that holds `value`.
pub open spec fn encoding(value: nat) -> Seq<u8>
    decreases value,
{
    if value < 128 {
        seq![value as u8]
    } else {
        seq![(value % 128 + 128) as u8] + encoding(value / 128)
    }
}

/// 128 to the power `n`.
pub open spec fn pow128(n: nat) -> nat
    decreases n,
{
    if n == 0 {
        1
    } else {
        128 * pow128((n - 1) as nat)
    }
}

/// Up to the tenth, the powers of 128 grow with `n` and stay within 2^70.
pub proof fn lemma_pow128_bound(n: nat)
    requires
        n <= 10,
    ensures
        1 <= pow128(n) <= 0x40_0000_0000_0000_0000,
        pow128(10) == 0x40_0000_0000_0000_0000,
{
    assert(pow128(0) == 1);
    assert(pow128(1) == 0x80);
    assert(pow128(2) == 0x4000);
    assert(pow128(3) == 0x20_0000);
    assert(pow128(4) == 0x1000_0000);
    assert(pow128(5) == 0x8_0000_0000);
    assert(pow128(6) == 0x400_0000_0000);
    assert(pow128(7) == 0x2_0000_0000_0000);
    assert(pow128(8) == 0x100_0000_0000_0000);
    assert(pow128(9) == 0x8000_0000_0000_0000);
    assert(pow128(10) == 0x40_0000_0000_0000_0000);
}

/// An encoding of a value below `128^k` has between one and `k` bytes.
pub proof fn lemma_encoding_len(value: nat, k: nat)
    requires
        k >= 1,
        value < pow128(k),
    ensures
        1 <= encoding(value).len() <= k,
    decreases value,
{
    if value >= 128 {
        assert(k >= 2) by {
            reveal_with_fuel(pow128, 2);
        }
        assert(value / 128 < pow128((k - 1) as nat));
        lemma_encoding_len(value / 128, (k - 1) as nat);
    }
}

/// Every 64-bit value is encoded in at most `MAX_VARINT_LEN` bytes.
pub proof fn lemma_encoding_len_u64(value: u64)
    ensures
        1 <= encoding(value as nat).len() <= MAX_VARINT_LEN,
{
    lemma_pow128_bound(10);
    lemma_encoding_len(value as nat, 10);
}

/// Reading an encoding gives the value back and stops at its last byte,
/// whatever follows it.
pub proof fn lemma_parse_encoding(value: nat, rest: Seq<u8>, budget: nat)
    requires
        encoding(value).len() <= budget,
    ensures
        parse(encoding(value) + rest, budget) == (Parsed::Value {
            value,
            len: encoding(value).len(),
        }),
    decreases value,
{
    let whole = encoding(value) + rest;
    if value < 128 {
        assert(whole[0] == value as u8);
    } else {
        let tail = encoding(value / 128);
        assert(whole[0] == (value % 128 + 128) as u8);
        assert(whole.skip(1) =~= tail + rest);
        lemma_parse_encoding(value / 128, rest, (budget - 1) as nat);
    }
}

/// Decoding an encoded 64-bit value gives it back, whatever follows it.
pub proof fn lemma_decode_encoding(value: u64, rest: Seq<u8>)
    ensures
        spec_decode(encoding(value as nat) + rest) == (Varint::Complete {
            value,
            consumed: encoding(value as nat).len() as usize,
        }),
{
    lemma_encoding_len_u64(value);
    lemma_parse_encoding(value as nat, rest, MAX_VARINT_LEN as nat);
}

/// A value is read from at least one and at most `budget` bytes that are
/// there; a read is incomplete only on fewer than `budget` bytes, and refused
/// only on at least `budget` of them.
pub proof fn lemma_parse_bounds(bytes: Seq<u8>, budget: nat)
    ensures
        match parse(bytes, budget) {
            Parsed::Value { value, len } => 1 <= len <= budget && len <= bytes.len() && value
                < pow128(len),
            Parsed::Incomplete => bytes.len() < budget,
            Parsed::Malformed => budget <= bytes.len(),
        },
    decreases budget,
{
    if budget > 0 && bytes.len() > 0 {
        if bytes[0] < 128 {
            assert(pow128(1) == 128) by {
                reveal_with_fuel(pow128, 2);
            }
        } else {
            lemma_parse_bounds(bytes.skip(1), (budget - 1) as nat);
        }
    }
}

/// Once the front of a sequence reads as a value, or is refused, bytes
/// appended to the sequence change nothing.
pub proof fn lemma_parse_extend(bytes: Seq<u8>, more: Seq<u8>, budget: nat)
    requires
        !(parse(bytes, budget) is Incomplete),
    ensures
        parse(bytes + more, budget) == parse(bytes, budget),
    decreases budget,
{
    if budget > 0 && bytes.len() > 0 {
        assert((bytes + more)[0] == bytes[0]);
        if bytes[0] >= 128 {
            assert((bytes + more).skip(1) =~= bytes.skip(1) + more);
            lemma_parse_extend(bytes.skip(1), more, (budget - 1) as nat);
        }
    }
}

/// The bounds of `lemma_parse_bounds`, for `spec_decode`.
pub proof fn lemma_decode_bounds(bytes: Seq<u8>)
    ensures
        match spec_decode(bytes) {
            Varint::Complete { value, consumed } => 1 <= consumed <= MAX_VARINT_LEN && consumed
                <= bytes.len(),
            Varint::Incomplete => bytes.len() < MAX_VARINT_LEN,
            Varint::Malformed => MAX_VARINT_LEN <= bytes.len(),
        },
{
    lemma_parse_bounds(bytes, MAX_VARINT_LEN as nat);
}

/// A decoded varint, or a refusal, does not depend on the bytes that follow.
pub proof fn lemma_decode_extend(bytes: Seq<u8>, more: Seq<u8>)
    requires
        !(spec_decode(bytes) is Incomplete),
    ensures
        spec_decode(bytes + more) == spec_decode(bytes),
{
    lemma_parse_extend(bytes, more, MAX_VARINT_LEN as nat);
}

/// A run of `n` bytes that all ask for more leaves the verdict to what
/// follows it, unless a value follows.
pub proof fn lemma_parse_after_run(bytes: Seq<u8>, n: nat, budget: nat)
    requires
        n <= bytes.len(),
        n <= budget,
        forall|k: int| 0 <= k < n ==> bytes[k] >= 128,
    ensures
        parse(bytes.skip(n as int), (budget - n) as nat) is Incomplete ==> parse(bytes, budget)
            is Incomplete,
        parse(bytes.skip(n as int), (budget - n) as nat) is Malformed ==> parse(bytes, budget)
            is Malformed,
        parse(bytes.skip(n as int), (budget - n) as nat) is Value ==> parse(bytes, budget)
            is Value && parse(bytes, budget)->len == parse(
            bytes.skip(n as int),
            (budget - n) as nat,
        )->len + n,
    decreases n,
{
    if n == 0 {
        assert(bytes.skip(0) =~= bytes);
    } else {
        let tail = bytes.skip(1);
        assert(tail.skip(n - 1) =~= bytes.skip(n as int));
        assert forall|k: int| 0 <= k < n - 1 implies tail[k] >= 128 by {
            assert(tail[k] == bytes[k + 1]);
        }
        lemma_parse_after_run(tail, (n - 1) as nat, (budget - 1) as nat);
    }
}

/// Reads a varint from the front of `bytes`.
///
/// The value is what the low seven bits of each byte write in base 128,
/// least significant group first, kept modulo 2^64. `Incomplete` says that
/// more bytes are needed to decide, `Malformed` that no more bytes can help.
pub fn decode_varint(bytes: &[u8]) -> (r: Varint)
    ensures
        r == spec_decode(bytes@),
{
    let mut end: usize = 0;
    while end < bytes.len() && end < MAX_VARINT_LEN && bytes[end] >= 128
        invariant
            end <= bytes.len(),
            end <= MAX_VARINT_LEN,
            forall|k: int| 0 <= k < end ==> bytes@[k] >= 128,
        decreases MAX_VARINT_LEN - end,
    {
        end += 1;
    }
    if end == MAX_VARINT_LEN {
        proof {
            lemma_parse_after_run(bytes@, end as nat, MAX_VARINT_LEN as nat);
        }
        return Varint::Malformed;
    }
    if end == bytes.len() {
        proof {
            lemma_parse_after_run(bytes@, end as nat, MAX_VARINT_LEN as nat);
        }
        return Varint::Incomplete;
    }
    let mut acc: u128 = bytes[end] as u128;
    let mut at: usize = end;
    proof {
        lemma_pow128_bound(1);
    }
    while at > 0
        invariant
            at <= end < MAX_VARINT_LEN,
            end < bytes.len(),
            forall|k: int| 0 <= k < end ==> bytes@[k] >= 128,
            acc < pow128((end + 1 - at) as nat),
            parse(bytes@.skip(at as int), (MAX_VARINT_LEN - at) as nat) == (Parsed::Value {
                value: acc as nat,
                len: (end + 1 - at) as nat,
            }),
        decreases at,
    {
        proof {
            lemma_pow128_bound((end + 1 - at) as nat);
            lemma_pow128_bound((end + 2 - at) as nat);
            assert(bytes@.skip(at - 1).skip(1) =~= bytes@.skip(at as int));
        }
        at -= 1;
        acc = acc * 128 + (bytes[at] - 128) as u128;
    }
    assert(bytes@.skip(0) =~= bytes@);
    Varint::Complete { value: (acc % 0x1_0000_0000_0000_0000) as u64, consumed: end + 1 }
}

/// Appends the shortest varint that holds `value` to `out`. What is
/// appended has at most `MAX_VARINT_LEN` bytes and decodes to `value`.
pub fn encode_varint(value: u64, out: &mut Vec<u8>)
    ensures
        final(out)@ == old(out)@ + encoding(value as nat),
        final(out)@.len() - old(out)@.len() <= MAX_VARINT_LEN,
        spec_decode(final(out)@.skip(old(out)@.len() as int)) == (Varint::Complete {
            value,
            consumed: (final(out)@.len() - old(out)@.len()) as usize,
        }),
{
    let mut rest: u64 = value;
    while rest >= 128
        invariant
            old(out)@ + encoding(value as nat) == out@ + encoding(rest as nat),
        decreases rest,
    {
        let ghost before = out@;
        out.push((rest % 128 + 128) as u8);
        proof {
            let low = seq![(rest % 128 + 128) as u8];
            assert(before.push((rest % 128 + 128) as u8) + encoding((rest / 128) as nat) =~= before
                + (low + encoding((rest / 128) as nat)));
        }
        rest = rest / 128;
    }
    let ghost before = out@;
    out.push(rest as u8);
    proof {
        assert(before.push(rest as u8) =~= before + encoding(rest as nat));
        lemma_decode_encoding(value, Seq::empty());
        lemma_encoding_len_u64(value);
        assert(encoding(value as nat) + Seq::<u8>::empty() =~= encoding(value as nat));
        assert(out@.skip(old(out)@.len() as int) =~= encoding(value as nat));
    }
}

} // verus!
