//! The variable-length unsigned integer of the native protocol (LEB128):
//! seven bits per byte, least significant group first, the high bit set on
//! every byte but the last. `128` is written `[0x80, 0x01]`.

use vstd::prelude::*;

verus! {

/// The encoding of `v`.
pub open spec fn var_uint_bytes(v: nat) -> Seq<u8>
    decreases v,
{
    if v < 128 {
        seq![v as u8]
    } else {
        seq![(v % 128 + 128) as u8] + var_uint_bytes(v / 128)
    }
}

/// The integer at the front of `b` and the number of bytes it takes; `None`
/// when `b` ends before a byte without the high bit.
pub open spec fn var_uint_decode(b: Seq<u8>) -> Option<(nat, nat)>
    decreases b.len(),
{
    if b.len() == 0 {
        None
    } else if b[0] < 128 {
        Some((b[0] as nat, 1))
    } else {
        match var_uint_decode(b.drop_first()) {
            Some((v, n)) => Some(((b[0] - 128) as nat + 128 * v, n + 1)),
            None => None,
        }
    }
}

/// `128` to the power `k`.
pub open spec fn pow128(k: nat) -> nat
    decreases k,
{
    if k == 0 {
        1
    } else {
        128 * pow128((k - 1) as nat)
    }
}

/// Decoding the encoding of `v`, whatever follows it, gives back `v` and the
/// length of the encoding.
pub proof fn var_uint_round_trip(v: nat, rest: Seq<u8>)
    ensures
        var_uint_decode(var_uint_bytes(v) + rest) == Some((v, var_uint_bytes(v).len())),
    decreases v,
{
    let b = var_uint_bytes(v) + rest;
    if v >= 128 {
        var_uint_round_trip(v / 128, rest);
        assert(b.drop_first() =~= var_uint_bytes(v / 128) + rest);
    }
}

/// A value below `128^k` takes at most `k` bytes.
pub proof fn var_uint_len_bound(v: nat, k: nat)
    requires
        v < pow128(k),
        k >= 1,
    ensures
        var_uint_bytes(v).len() <= k,
    decreases k,
{
    if v >= 128 {
        assert(k > 1) by {
            if k == 0 {
            } else if k == 1 {
                assert(pow128(1) == 128 * pow128(0));
            }
        }
        assert(v / 128 < pow128((k - 1) as nat)) by (nonlinear_arith)
            requires
                v < 128 * pow128((k - 1) as nat),
        ;
        var_uint_len_bound(v / 128, (k - 1) as nat);
    }
}

proof fn pow128_facts()
    ensures
        pow128(9) == 0x8000_0000_0000_0000,
        pow128(10) == 128 * pow128(9),
{
    reveal_with_fuel(pow128, 11);
}

/// Every `u64` takes at most ten bytes.
pub proof fn var_uint_u64_len(v: u64)
    ensures
        1 <= var_uint_bytes(v as nat).len() <= 10,
{
    pow128_facts();
    var_uint_len_bound(v as nat, 10);
    reveal_with_fuel(var_uint_bytes, 2);
}

/// What `put_var_uint` writes for a `u64`, `read_var_uint` reads back whole,
/// whatever follows it.
pub proof fn var_uint_u64_round_trip(v: u64, rest: Seq<u8>)
    ensures
        var_uint_decode(var_uint_bytes(v as nat) + rest) == Some(
            (v as nat, var_uint_bytes(v as nat).len()),
        ),
        var_uint_bytes(v as nat).len() <= 10,
{
    var_uint_round_trip(v as nat, rest);
    var_uint_u64_len(v);
}

/// Appends the encoding of `v` to `writer`.
pub fn put_var_uint(writer: &mut Vec<u8>, v: u64)
    ensures
        final(writer)@ == old(writer)@ + var_uint_bytes(v as nat),
{
    let mut x: u64 = v;
    while x >= 128
        invariant
            writer@ + var_uint_bytes(x as nat) == old(writer)@ + var_uint_bytes(v as nat),
        decreases x,
    {
        let b: u8 = (x % 128 + 128) as u8;
        let ghost before = writer@;
        writer.push(b);
        assert(before + var_uint_bytes(x as nat) =~= writer@ + var_uint_bytes((x / 128) as nat));
        x = x / 128;
    }
    let ghost before = writer@;
    writer.push(x as u8);
    assert(writer@ =~= before + var_uint_bytes(x as nat));
}

proof fn decode_step(s: Seq<u8>)
    requires
        s.len() > 0,
        s[0] >= 128,
    ensures
        var_uint_decode(s) == match var_uint_decode(s.subrange(1, s.len() as int)) {
            Some((v, n)) => Some(((s[0] - 128) as nat + 128 * v, n + 1)),
            None => None::<(nat, nat)>,
        },
{
    assert(s.drop_first() =~= s.subrange(1, s.len() as int));
}

/// Reads an integer from the front of `bytes`: its value and the number of
/// bytes it takes. `None` where `bytes` ends first, where the encoding runs
/// over ten bytes, or where the value does not fit in a `u64`.
pub fn read_var_uint(bytes: &[u8]) -> (r: Option<(u64, usize)>)
    ensures
        r matches Some((v, n)) ==> var_uint_decode(bytes@) == Some((v as nat, n as nat)),
        r is None <==> !(var_uint_decode(bytes@) matches Some((v, n)) && v <= u64::MAX && n
            <= 10),
{
    let mut acc: u64 = 0;
    let mut shift: u64 = 1;
    let mut i: usize = 0;
    proof {
        pow128_facts();
        assert(bytes@.subrange(0, bytes@.len() as int) =~= bytes@);
    }
    while i < bytes.len()
        invariant
            i <= 9,
            i <= bytes.len(),
            shift as nat == pow128(i as nat),
            acc < shift,
            shift <= 0x8000_0000_0000_0000u64,
            pow128(9) == 0x8000_0000_0000_0000,
            match var_uint_decode(bytes@.subrange(i as int, bytes@.len() as int)) {
                Some((v, n)) => var_uint_decode(bytes@) == Some(((acc + shift * v) as nat, (i + n) as nat)),
                None => var_uint_decode(bytes@) is None,
            },
        decreases bytes.len() - i,
    {
        proof {
            if i < 9 {
                assert(pow128((i + 1) as nat) == 128 * pow128(i as nat));
                lemma_pow128_mono((i + 1) as nat, 9);
            }
        }
        let b = bytes[i];
        let ghost tail = bytes@.subrange(i as int, bytes@.len() as int);
        assert(tail[0] == b);
        if b < 128 {
            assert(var_uint_decode(tail) == Some((b as nat, 1nat)));
            if i == 9 && b > 1 {
                assert(acc + shift * b > u64::MAX) by (nonlinear_arith)
                    requires
                        shift == 0x8000_0000_0000_0000u64,
                        b >= 2,
                ;
                return None;
            }
            assert(shift * b <= u64::MAX && acc + shift * b <= u64::MAX) by (nonlinear_arith)
                requires
                    acc < shift,
                    b < 128,
                    shift * 128 <= 0x8000_0000_0000_0000u64 || (shift
                        == 0x8000_0000_0000_0000u64 && b <= 1),
            ;
            return Some((acc + shift * (b as u64), i + 1));
        }
        proof {
            decode_step(tail);
            assert(tail.subrange(1, tail.len() as int) =~= bytes@.subrange(
                i + 1,
                bytes@.len() as int,
            ));
        }
        if i == 9 {
            proof {
                match var_uint_decode(bytes@.subrange(i + 1, bytes@.len() as int)) {
                    Some((v, n)) => {
                        assert(n >= 1) by {
                            let s = bytes@.subrange(i + 1, bytes@.len() as int);
                            reveal_with_fuel(var_uint_decode, 1);
                        }
                    },
                    None => {},
                }
            }
            return None;
        }
        let ghost old_acc = acc;
        let ghost old_shift = shift;
        assert(acc + (b - 128) * shift < shift * 128) by (nonlinear_arith)
            requires
                acc < shift,
                128 <= b < 256,
        ;
        acc = acc + (b - 128) as u64 * shift;
        shift = shift * 128;
        i = i + 1;
        proof {
            match var_uint_decode(bytes@.subrange(i as int, bytes@.len() as int)) {
                Some((v, n)) => {
                    assert(old_acc + old_shift * ((b - 128) as nat + 128 * v) == acc + shift * v)
                        by (nonlinear_arith)
                        requires
                            b >= 128,
                            acc == old_acc + (b - 128) * old_shift,
                            shift == old_shift * 128,
                    ;
                },
                None => {},
            }
        }
    }
    assert(bytes@.subrange(i as int, bytes@.len() as int).len() == 0);
    None
}

proof fn lemma_pow128_mono(a: nat, b: nat)
    requires
        a <= b,
    ensures
        pow128(a) <= pow128(b),
    decreases b - a,
{
    if a < b {
        lemma_pow128_mono(a, (b - 1) as nat);
        assert(pow128(b) == 128 * pow128((b - 1) as nat));
    }
}

} // verus!
