use vstd::prelude::*;

use crate::packets::PacketError;
use crate::stream::ByteStream;

verus! {

/// The little-endian base-128 encoding of an unsigned 32-bit pattern: each
/// byte carries seven value bits, and its high bit says whether more follow.
pub open spec fn varint_encoding(v: nat) -> Seq<u8>
    decreases v via varint_encoding_decreases
{
    if v < 128 {
        seq![v as u8]
    } else {
        seq![(v % 128 + 128) as u8] + varint_encoding(v / 128)
    }
}

#[via_fn]
proof fn varint_encoding_decreases(v: nat) {
    if v >= 128 {
        vstd::arithmetic::div_mod::lemma_div_decreases(v as int, 128);
    }
}

/// A varint terminates within `fuel` bytes of the stream: some byte among the
/// first `fuel` lacks the continuation bit.
pub open spec fn varint_terminates(s: Seq<u8>, fuel: nat) -> bool
    decreases fuel,
{
    if fuel == 0 || s.len() == 0 {
        false
    } else if s[0] < 128 {
        true
    } else {
        varint_terminates(s.skip(1), (fuel - 1) as nat)
    }
}

/// How many bytes the varint at the head of `s` occupies (meaningful when it
/// terminates).
pub open spec fn varint_size(s: Seq<u8>) -> int
    decreases s.len(),
{
    if s.len() == 0 {
        0
    } else if s[0] < 128 {
        1
    } else {
        1 + varint_size(s.skip(1))
    }
}

/// The unsigned value carried by the varint at the head of `s`, before any
/// truncation to 32 bits (meaningful when it terminates).
pub open spec fn varint_raw_value(s: Seq<u8>) -> nat
    decreases s.len(),
{
    if s.len() == 0 {
        0
    } else if s[0] < 128 {
        s[0] as nat
    } else {
        (s[0] - 128) as nat + 128 * varint_raw_value(s.skip(1))
    }
}

/// Reinterpretation of an unsigned accumulation as a two's-complement i32,
/// after truncation to 32 bits.
pub open spec fn as_signed_32(u: nat) -> int {
    if u % 0x1_0000_0000 < 0x8000_0000 {
        (u % 0x1_0000_0000) as int
    } else {
        u % 0x1_0000_0000 - 0x1_0000_0000
    }
}

/// Reinterpretation of an i32 as its 32-bit unsigned pattern.
pub open spec fn as_unsigned_32(n: int) -> nat {
    if n >= 0 {
        n as nat
    } else {
        (n + 0x1_0000_0000) as nat
    }
}

/// The unsigned 32-bit pattern of `n`, as an executable value.
pub fn unsigned_pattern(n: i32) -> (u: u32)
    ensures
        u as nat == as_unsigned_32(n as int),
{
    if n >= 0 {
        n as u32
    } else {
        ((n as i64) + 0x1_0000_0000i64) as u32
    }
}

/// The wire bytes of `n`: its unsigned 32-bit pattern in base-128 groups.
pub open spec fn spec_encode(n: int) -> Seq<u8> {
    varint_encoding(as_unsigned_32(n))
}

/// Encodes `n` as a varint of one to five bytes; negative values are encoded
/// as their unsigned 32-bit pattern and so always take five bytes.
pub fn encode(n: i32) -> (res: Vec<u8>)
    ensures
        res@ == spec_encode(n as int),
        1 <= res@.len() <= 5,
{
    proof {
        lemma_varint_encoding_len(as_unsigned_32(n as int));
    }
    let mut res = Vec::<u8>::new();
    let mut cur: u32 = if n >= 0 {
        n as u32
    } else {
        ((n as i64) + 0x1_0000_0000i64) as u32
    };
    proof {
        assert(cur as nat == as_unsigned_32(n as int));
        assert(varint_encoding(as_unsigned_32(n as int)) =~= res@ + varint_encoding(cur as nat));
    }
    loop
        invariant
            varint_encoding(as_unsigned_32(n as int)) == res@ + varint_encoding(cur as nat),
            varint_encoding(as_unsigned_32(n as int)).len() <= 5,
        decreases cur,
    {
        let b: u8 = (cur % 128) as u8;
        let next: u32 = cur / 128;
        proof {
            if cur >= 128 {
                vstd::arithmetic::div_mod::lemma_div_decreases(cur as int, 128);
            }
            lemma_varint_encoding_len_lower(cur as nat);
        }
        if next == 0 {
            let ghost prev = res@;
            res.push(b);
            proof {
                assert(varint_encoding(cur as nat) =~= seq![b]);
                assert(res@ =~= prev + varint_encoding(cur as nat));
            }
            return res;
        }
        proof {
            assert(res@ + seq![(b + 128) as u8] + varint_encoding(next as nat) =~= res@ + varint_encoding(cur as nat));
        }
        res.push(b + 128);
        cur = next;
    }
}

/// Every varint encoding has at least one byte.
proof fn lemma_varint_encoding_len_lower(v: nat)
    ensures
        varint_encoding(v).len() >= 1,
{
}

/// A varint's encoding never exceeds five bytes for a 32-bit value.
proof fn lemma_varint_encoding_len(v: nat)
    requires
        v < 0x1_0000_0000,
    ensures
        1 <= varint_encoding(v).len() <= 5,
    decreases v,
{
    if v >= 128 {
        lemma_varint_encoding_len(v / 128);
        if varint_encoding(v / 128).len() == 5 {
            // a value below 2^32 / 128 cannot need five base-128 groups
            lemma_varint_value_bound(v / 128, 5);
            assert(vstd::arithmetic::power::pow(128, 4) == 0x1000_0000) by {
                reveal_with_fuel(vstd::arithmetic::power::pow, 5);
            }
            assert(false);
        }
    }
}

/// If the encoding of `v` has at least `k` groups, `k` at least two, then
/// `v` is at least 128^(k-1).
proof fn lemma_varint_value_bound(v: nat, k: nat)
    requires
        varint_encoding(v).len() >= k,
        k >= 2,
    ensures
        v >= vstd::arithmetic::power::pow(128, (k - 1) as nat),
    decreases k,
{
    assert(v >= 128);
    vstd::arithmetic::power::lemma_pow1(128);
    if k > 2 {
        lemma_varint_value_bound(v / 128, (k - 1) as nat);
        assert(vstd::arithmetic::power::pow(128, (k - 1) as nat) == 128
            * vstd::arithmetic::power::pow(128, (k - 2) as nat)) by {
            vstd::arithmetic::power::lemma_pow_adds(128, 1, (k - 2) as nat);
        }
        assert(v >= 128 * (v / 128)) by {
            vstd::arithmetic::div_mod::lemma_fundamental_div_mod(v as int, 128);
            vstd::arithmetic::div_mod::lemma_mod_bound(v as int, 128);
        }
        assert(128 * (v / 128) >= 128 * vstd::arithmetic::power::pow(128, (k - 2) as nat))
            by (nonlinear_arith)
            requires
                v / 128 >= vstd::arithmetic::power::pow(128, (k - 2) as nat),
        ;
    }
}

/// What reading one varint from the head of a stream yields.
pub enum VarintRead {
    /// The stream is empty: the peer closed before the value.
    Closed,
    /// The stream ends mid-varint.
    Short,
    /// Five continuation bytes in a row.
    Overlong,
    /// A complete varint: its signed 32-bit value and its byte count.
    Value(int, int),
}

/// The outcome of reading one varint at the head of `s`.
pub open spec fn sp_varint(s: Seq<u8>) -> VarintRead {
    if s.len() == 0 {
        VarintRead::Closed
    } else if varint_terminates(s, 5) {
        VarintRead::Value(as_signed_32(varint_raw_value(s)), varint_size(s))
    } else if s.len() < 5 {
        VarintRead::Short
    } else {
        VarintRead::Overlong
    }
}

/// A byte without the continuation bit at index `j` makes the varint
/// terminate within any fuel beyond `j`.
proof fn lemma_terminates_at(s: Seq<u8>, j: int, fuel: nat)
    requires
        0 <= j < fuel,
        j < s.len(),
        s[j] < 128,
    ensures
        varint_terminates(s, fuel),
    decreases j,
{
    if s[0] >= 128 {
        lemma_terminates_at(s.skip(1), j - 1, (fuel - 1) as nat);
    }
}

/// A stream whose first `fuel` bytes (or all of them, if fewer) carry the
/// continuation bit has no terminating byte within `fuel`.
proof fn lemma_cont_not_terminates(s: Seq<u8>, fuel: nat)
    requires
        forall|i: int| 0 <= i < fuel && i < s.len() ==> s[i] >= 128,
    ensures
        !varint_terminates(s, fuel),
    decreases fuel,
{
    if fuel > 0 && s.len() > 0 {
        assert(s[0] >= 128);
        assert(forall|i: int| 0 <= i < fuel - 1 && i < s.skip(1).len() ==> s.skip(1)[i] >= 128);
        lemma_cont_not_terminates(s.skip(1), (fuel - 1) as nat);
    }
}

/// Reads one varint from the stream, a byte at a time. Succeeds exactly when
/// a terminating byte appears among the next five; the value is the base-128
/// accumulation truncated to 32 bits. An empty stream means the peer closed;
/// a stream that ends mid-varint reads as an I/O failure; five continuation
/// bytes in a row are malformed.
pub fn decode_stream(s: &mut ByteStream) -> (r: Result<i32, PacketError>)
    requires
        old(s).wf(),
    ensures
        final(s).wf(),
        final(s).data@ == old(s).data@,
        match r {
            Ok(n) => (sp_varint(old(s).remaining()) matches VarintRead::Value(v, k) && n as int == v
                && final(s).pos == old(s).pos + k && 1 <= k <= 5 && k
                <= old(s).remaining().len()),
            Err(e) => match e {
                PacketError::ClosedError => sp_varint(old(s).remaining()) is Closed && final(s).pos
                    == old(s).pos,
                PacketError::IOError => sp_varint(old(s).remaining()) is Short && final(s).pos
                    == old(s).data@.len(),
                PacketError::MalformedVarint => sp_varint(old(s).remaining()) is Overlong
                    && final(s).pos == old(s).pos + 5,
                _ => false,
            },
        },
{
    let ghost start = old(s).remaining();
    let mut result: u64 = 0;
    let mut mult: u64 = 1;
    let mut count: usize = 0;
    proof {
        assert(start.skip(0) =~= start);
    }
    loop
        invariant
            s.wf(),
            s.data@ == old(s).data@,
            count <= 4,
            s.pos == old(s).pos + count,
            start == old(s).remaining(),
            s.remaining() =~= start.skip(count as int),
            count == 0 ==> mult == 1,
            count == 1 ==> mult == 128,
            count == 2 ==> mult == 0x4000,
            count == 3 ==> mult == 0x20_0000,
            count == 4 ==> mult == 0x1000_0000,
            mult <= 0x1000_0000,
            result < mult,
            varint_raw_value(start) == result + mult * varint_raw_value(start.skip(count as int)),
            varint_size(start) == count + varint_size(start.skip(count as int)),
            forall|i: int| 0 <= i < count ==> start[i] >= 128,
        decreases 5 - count,
    {
        let ghost rest = start.skip(count as int);
        let b = match s.read_u8() {
            Some(b) => b,
            None => {
                proof {
                    assert(rest.len() == 0);
                    assert(start.len() == count);
                }
                if count == 0 {
                    return Err(PacketError::ClosedError);
                } else {
                    proof {
                        lemma_cont_not_terminates(start, 5);
                    }
                    return Err(PacketError::IOError);
                }
            },
        };
        let low: u8 = b & 0x7f;
        let cont: bool = b & 0x80 != 0;
        proof {
            assert(low == b % 128 && (cont <==> b >= 128)) by (bit_vector)
                requires
                    low == b & 0x7f,
                    cont == (b & 0x80 != 0),
            ;
            assert(rest[0] == b);
            assert(rest.skip(1) =~= start.skip(count + 1));
            assert(result + mult * (low as nat) < mult * 128) by (nonlinear_arith)
                requires
                    result < mult,
                    low < 128,
                    mult >= 1,
            ;
        }
        let new_result: u64 = result + mult * (low as u64);
        if !cont {
            proof {
                assert(varint_raw_value(rest) == b as nat);
                assert(varint_size(rest) == 1);
                lemma_terminates_at(start, count as int, 5);
            }
            let truncated: u32 = #[verifier::truncate] (new_result as u32);
            let value: i32 = #[verifier::truncate] (truncated as i32);
            proof {
                assert(truncated == new_result % 0x1_0000_0000) by (bit_vector)
                    requires
                        truncated == new_result as u32,
                ;
                lemma_signed_reinterpret(new_result, truncated, value);
            }
            return Ok(value);
        }
        proof {
            assert(varint_raw_value(rest) == (b - 128) as nat + 128 * varint_raw_value(rest.skip(1)));
            assert(varint_size(rest) == 1 + varint_size(rest.skip(1)));
            assert(result + mult * (low as nat) + (mult * 128) * varint_raw_value(rest.skip(1)) == result
                + mult * varint_raw_value(rest)) by (nonlinear_arith)
                requires
                    varint_raw_value(rest) == (low as nat) + 128 * varint_raw_value(rest.skip(1)),
            ;
        }
        if count == 4 {
            proof {
                assert(start[4] == rest[0]);
                assert(forall|i: int| 0 <= i < 5 ==> start[i] >= 128);
                lemma_cont_not_terminates(start, 5);
            }
            return Err(PacketError::MalformedVarint);
        }
        result = new_result;
        mult = mult * 128;
        count = count + 1;
    }
}

/// Truncating the accumulated value to 32 bits and reinterpreting it as
/// signed reads back `as_signed_32` of the accumulation.
proof fn lemma_signed_reinterpret(acc: u64, truncated: u32, value: i32)
    requires
        truncated == acc % 0x1_0000_0000,
        value == truncated as i32,
    ensures
        value as int == as_signed_32(acc as nat),
{
    assert(value as int == if truncated < 0x8000_0000 {
        truncated as int
    } else {
        truncated - 0x1_0000_0000
    }) by (bit_vector)
        requires
            value == truncated as i32,
    ;
}

/// Decoding reads back exactly what encoding wrote: for every 32-bit value,
/// the varint round trip is the identity, whatever bytes follow on the wire.
pub proof fn lemma_varint_round_trip(n: i32, rest: Seq<u8>)
    ensures
        sp_varint(spec_encode(n as int) + rest) == VarintRead::Value(
            n as int,
            spec_encode(n as int).len() as int,
        ),
{
    let u = as_unsigned_32(n as int);
    lemma_varint_encoding_len(u);
    lemma_encoding_reads_back(u, rest);
    lemma_terminates_at(
        varint_encoding(u) + rest,
        varint_encoding(u).len() - 1,
        5,
    );
    assert(u % 0x1_0000_0000 == u);
}

/// The encoding of `v` followed by anything reads back as `v`, consuming
/// exactly the encoding, and its last byte lacks the continuation bit.
proof fn lemma_encoding_reads_back(v: nat, rest: Seq<u8>)
    ensures
        varint_raw_value(varint_encoding(v) + rest) == v,
        varint_size(varint_encoding(v) + rest) == varint_encoding(v).len(),
        varint_encoding(v)[varint_encoding(v).len() - 1] < 128,
    decreases v,
{
    let s = varint_encoding(v) + rest;
    if v < 128 {
        assert(s[0] == v as u8);
    } else {
        vstd::arithmetic::div_mod::lemma_div_decreases(v as int, 128);
        vstd::arithmetic::div_mod::lemma_mod_bound(v as int, 128);
        assert(s[0] == (v % 128 + 128) as u8);
        assert(s.skip(1) =~= varint_encoding(v / 128) + rest);
        lemma_encoding_reads_back(v / 128, rest);
        vstd::arithmetic::div_mod::lemma_fundamental_div_mod(v as int, 128);
        assert((s[0] - 128) as nat + 128 * varint_raw_value(s.skip(1)) == v % 128 + 128 * (v / 128));
        assert(128 * (v / 128) == (v / 128) * 128) by (nonlinear_arith);
    }
}

} // verus!
