//! Reading columns back: the mirror of the serializers. A column is read
//! from the front of a byte buffer, given its type and its row count; the
//! result is its rows (`None` for a null row) and the number of bytes used.

use crate::binary::fixed_payload;
use crate::binary::fixed_row;
use crate::binary::payload;
use crate::binary::var_payload;
use crate::binary::var_row;
use crate::error::Error;
use crate::null::null_mask;
use crate::null::null_mask_output;
use crate::varint::var_uint_bytes;
use crate::varint::var_uint_u64_round_trip;
use crate::types::leaf_codec;
use crate::types::spec_leaf_codec;
use crate::types::LeafCodec;
use crate::types::Type;
use crate::varint::read_var_uint;
use crate::varint::var_uint_decode;
use vstd::prelude::*;

verus! {

/// The views of a sequence of byte vectors.
pub open spec fn byte_views(vs: Seq<Vec<u8>>) -> Seq<Seq<u8>> {
    vs.map_values(|v: Vec<u8>| v@)
}

/// `rows` length-prefixed values read from the front of `b`, and the number
/// of bytes they take; `None` where `b` ends early or a length prefix is not
/// one `read_var_uint` reads.
pub open spec fn var_values_decode(b: Seq<u8>, rows: nat) -> Option<(Seq<Seq<u8>>, nat)>
    decreases rows,
{
    if rows == 0 {
        Some((Seq::empty(), 0))
    } else {
        match var_values_decode(b, (rows - 1) as nat) {
            Some((vals, used)) => match var_uint_decode(b.skip(used as int)) {
                Some((len, k)) => if len <= u64::MAX && k <= 10 && used + k + len <= b.len() {
                    Some((vals.push(b.subrange((used + k) as int, (used + k + len) as int)), used + k + len))
                } else {
                    None
                },
                None => None,
            },
            None => None,
        }
    }
}

/// `rows` values of `n` bytes each read from the front of `b`, and the
/// number of bytes they take; `None` where `b` is shorter than that.
pub open spec fn fixed_values_decode(b: Seq<u8>, rows: nat, n: nat) -> Option<(Seq<Seq<u8>>, nat)> {
    if rows * n <= b.len() {
        Some((Seq::new(rows, |i: int| b.subrange(i * n, i * n + n)), rows * n))
    } else {
        None
    }
}

/// The null flags of `rows` rows read from a mask at the front of `b`: a
/// non-zero byte marks a null row. `None` where `b` is shorter than `rows`.
pub open spec fn null_flags_decode(b: Seq<u8>, rows: nat) -> Option<Seq<bool>> {
    if rows <= b.len() {
        Some(Seq::new(rows, |i: int| b[i] != 0))
    } else {
        None
    }
}

proof fn var_uint_decode_len(s: Seq<u8>)
    ensures
        var_uint_decode(s) matches Some((v, n)) ==> 1 <= n <= s.len(),
    decreases s.len(),
{
    if s.len() > 0 && s[0] >= 128 {
        var_uint_decode_len(s.drop_first());
    }
}

proof fn var_values_decode_len(b: Seq<u8>, rows: nat)
    ensures
        var_values_decode(b, rows) matches Some((vals, used)) ==> vals.len() == rows && used
            <= b.len(),
    decreases rows,
{
    if rows > 0 {
        var_values_decode_len(b, (rows - 1) as nat);
    }
}

proof fn var_values_decode_stays_none(b: Seq<u8>, a: nat, c: nat)
    requires
        a <= c,
        var_values_decode(b, a) is None,
    ensures
        var_values_decode(b, c) is None,
    decreases c - a,
{
    if a < c {
        var_values_decode_stays_none(b, a, (c - 1) as nat);
    }
}

/// Reads `rows` length-prefixed values from the front of `bytes`.
pub fn read_var_values(bytes: &[u8], rows: usize) -> (r: Option<(Vec<Vec<u8>>, usize)>)
    ensures
        match var_values_decode(bytes@, rows as nat) {
            Some((vals, used)) => r matches Some((vs, u)) && byte_views(vs@) == vals && u == used
                && vs@.len() == rows,
            None => r is None,
        },
{
    let mut vals: Vec<Vec<u8>> = Vec::new();
    let mut pos: usize = 0;
    let mut i: usize = 0;
    assert(byte_views(vals@) =~= Seq::<Seq<u8>>::empty());
    while i < rows
        invariant
            i <= rows,
            pos <= bytes@.len(),
            vals@.len() == i,
            var_values_decode(bytes@, i as nat) == Some((byte_views(vals@), pos as nat)),
        decreases rows - i,
    {
        let rest = &bytes[pos..bytes.len()];
        assert(rest@ == bytes@.skip(pos as int));
        proof {
            var_uint_decode_len(rest@);
        }
        match read_var_uint(rest) {
            None => {
                proof {
                    var_values_decode_stays_none(bytes@, (i + 1) as nat, rows as nat);
                }
                return None;
            },
            Some((len, k)) => {
                let avail = rest.len() - k;
                if len > avail as u64 {
                    proof {
                        var_values_decode_stays_none(bytes@, (i + 1) as nat, rows as nat);
                    }
                    return None;
                }
                let start = pos + k;
                let end = start + len as usize;
                let mut v: Vec<u8> = Vec::new();
                v.extend_from_slice(&bytes[start..end]);
                assert(v@ =~= bytes@.subrange(start as int, end as int));
                let ghost before = vals@;
                vals.push(v);
                assert(byte_views(vals@) =~= byte_views(before).push(v@));
                pos = end;
            },
        }
        i = i + 1;
    }
    Some((vals, pos))
}

/// Reads `rows` values of `n` bytes each from the front of `bytes`.
pub fn read_fixed_values(bytes: &[u8], rows: usize, n: usize) -> (r: Option<(Vec<Vec<u8>>, usize)>)
    ensures
        match fixed_values_decode(bytes@, rows as nat, n as nat) {
            Some((vals, used)) => r matches Some((vs, u)) && byte_views(vs@) == vals && u == used
                && vs@.len() == rows,
            None => r is None,
        },
{
    let blen = bytes.len();
    let total = match rows.checked_mul(n) {
        Some(t) => t,
        None => {
            return None;
        },
    };
    if total > blen {
        return None;
    }
    let mut vals: Vec<Vec<u8>> = Vec::new();
    let mut i: usize = 0;
    let mut pos: usize = 0;
    while i < rows
        invariant
            i <= rows,
            total == rows * n,
            total <= bytes@.len(),
            pos == i * n,
            vals@.len() == i,
            forall|j: int|
                0 <= j < i ==> #[trigger] vals@[j]@ == bytes@.subrange(j * n, j * n + n),
        decreases rows - i,
    {
        assert(pos + n <= total) by (nonlinear_arith)
            requires
                pos == i * n,
                i < rows,
                total == rows * n,
        ;
        let mut v: Vec<u8> = Vec::new();
        v.extend_from_slice(&bytes[pos..pos + n]);
        assert(v@ =~= bytes@.subrange(pos as int, pos + n));
        vals.push(v);
        pos = pos + n;
        i = i + 1;
        assert(pos == i * n) by (nonlinear_arith)
            requires
                pos == (i - 1) * n + n,
        ;
    }
    assert(byte_views(vals@) =~= Seq::new(rows as nat, |j: int| bytes@.subrange(j * n, j * n + n)));
    Some((vals, total))
}

/// Reads the null flags of `rows` rows from the mask at the front of `bytes`.
pub fn read_null_flags(bytes: &[u8], rows: usize) -> (r: Option<Vec<bool>>)
    ensures
        match null_flags_decode(bytes@, rows as nat) {
            Some(flags) => r matches Some(f) && f@ == flags,
            None => r is None,
        },
{
    if rows > bytes.len() {
        return None;
    }
    let mut flags: Vec<bool> = Vec::new();
    let mut i: usize = 0;
    while i < rows
        invariant
            i <= rows,
            rows <= bytes@.len(),
            flags@.len() == i,
            forall|j: int| 0 <= j < i ==> #[trigger] flags@[j] == (bytes@[j] != 0),
        decreases rows - i,
    {
        flags.push(bytes[i] != 0);
        i = i + 1;
    }
    assert(flags@ =~= Seq::new(rows as nat, |j: int| bytes@[j] != 0));
    Some(flags)
}

/// The values of a column read by the given codec.
pub open spec fn values_decode(codec: LeafCodec, b: Seq<u8>, rows: nat) -> Option<
    (Seq<Seq<u8>>, nat),
> {
    match codec {
        LeafCodec::VarString | LeafCodec::VarBinary => var_values_decode(b, rows),
        LeafCodec::FixedString(n) | LeafCodec::FixedBinary(n) => fixed_values_decode(b, rows, n as nat),
    }
}

/// A column of type `t` and `rows` rows read from the front of `b`, and the
/// number of bytes it takes: under a `Nullable` type the null mask, then the
/// values, a flagged row reading as `None`; otherwise the values alone.
pub open spec fn column_decode(t: Type, b: Seq<u8>, rows: nat) -> Option<
    (Seq<Option<Seq<u8>>>, nat),
> {
    match spec_leaf_codec(t) {
        None => None,
        Some(codec) => if t is Nullable {
            match null_flags_decode(b, rows) {
                Some(flags) => match values_decode(codec, b.skip(rows as int), rows) {
                    Some((vals, used)) => Some(
                        (
                            Seq::new(rows, |i: int| if flags[i] { None } else { Some(vals[i]) }),
                            rows + used,
                        ),
                    ),
                    None => None,
                },
                None => None,
            }
        } else {
            match values_decode(codec, b, rows) {
                Some((vals, used)) => Some((vals.map_values(|v: Seq<u8>| Some(v)), used)),
                None => None,
            }
        },
    }
}

/// The views of a sequence of optional byte vectors.
pub open spec fn row_views(vs: Seq<Option<Vec<u8>>>) -> Seq<Option<Seq<u8>>> {
    vs.map_values(
        |o: Option<Vec<u8>>|
            match o {
                Some(v) => Some(v@),
                None => None,
            },
    )
}

/// The message of the error for bytes that end before the column does.
pub open spec fn short_input_message() -> Seq<char> {
    "Not enough bytes for the column"@
}

fn short_input_error() -> (r: Error)
    ensures
        r matches Error::ArrowDeserialize(m) && m@ == short_input_message(),
{
    Error::ArrowDeserialize("Not enough bytes for the column".to_owned())
}

fn read_values(codec: LeafCodec, bytes: &[u8], rows: usize) -> (r: Option<(Vec<Vec<u8>>, usize)>)
    ensures
        match values_decode(codec, bytes@, rows as nat) {
            Some((vals, used)) => r matches Some((vs, u)) && byte_views(vs@) == vals && u == used
                && vs@.len() == rows,
            None => r is None,
        },
{
    match codec {
        LeafCodec::VarString | LeafCodec::VarBinary => read_var_values(bytes, rows),
        LeafCodec::FixedString(n) | LeafCodec::FixedBinary(n) => read_fixed_values(bytes, rows, n),
    }
}

/// Reads a column of type `type_hint` and `rows` rows from the front of
/// `bytes`: its rows, `None` for a null row of a `Nullable` column, and the
/// number of bytes it takes. A type with no byte codec is `UnsupportedType`;
/// bytes that end before the column does are `ArrowDeserialize`.
pub fn deserialize(type_hint: &Type, rows: usize, bytes: &[u8]) -> (r: Result<
    (Vec<Option<Vec<u8>>>, usize),
    Error,
>)
    ensures
        match spec_leaf_codec(*type_hint) {
            None => r == Err::<(Vec<Option<Vec<u8>>>, usize), Error>(
                Error::UnsupportedType(*type_hint),
            ),
            Some(_) => match column_decode(*type_hint, bytes@, rows as nat) {
                Some((vals, used)) => r matches Ok((vs, u)) && row_views(vs@) == vals && u
                    == used,
                None => r matches Err(Error::ArrowDeserialize(m)) && m@ == short_input_message(),
            },
        },
{
    let codec = match leaf_codec(type_hint) {
        Some(c) => c,
        None => {
            return Err(Error::UnsupportedType(type_hint.duplicate()));
        },
    };
    if matches!(type_hint, Type::Nullable(_)) {
        let flags = match read_null_flags(bytes, rows) {
            Some(f) => f,
            None => {
                return Err(short_input_error());
            },
        };
        let rest = &bytes[rows..bytes.len()];
        assert(rest@ == bytes@.skip(rows as int));
        let (mut vals, used) = match read_values(codec, rest, rows) {
            Some(x) => x,
            None => {
                return Err(short_input_error());
            },
        };
        let ghost read = byte_views(vals@);
        let mut out: Vec<Option<Vec<u8>>> = Vec::new();
        let mut i: usize = 0;
        assert(forall|j: int| 0 <= j < rows ==> #[trigger] vals@[j]@ == read[j]);
        while i < rows
            invariant
                i <= rows,
                flags@.len() == rows,
                vals@.len() == rows,
                read.len() == rows,
                forall|j: int| i <= j < rows ==> #[trigger] vals@[j]@ == read[j],
                out@.len() == i,
                forall|j: int|
                    0 <= j < i ==> #[trigger] row_views(out@)[j] == (if flags@[j] {
                        None
                    } else {
                        Some(read[j])
                    }),
            decreases rows - i,
        {
            let mut v: Vec<u8> = Vec::new();
            vals.set_and_swap(i, &mut v);
            let ghost before = out@;
            if flags[i] {
                out.push(None);
            } else {
                out.push(Some(v));
            }
            assert forall|j: int| 0 <= j <= i implies #[trigger] row_views(out@)[j] == (if flags@[j] {
                None
            } else {
                Some(read[j])
            }) by {
                if j < i {
                    assert(row_views(out@)[j] == row_views(before)[j]);
                }
            }
            i = i + 1;
        }
        assert(row_views(out@) =~= Seq::new(
            rows as nat,
            |j: int| if flags@[j] { None } else { Some(read[j]) },
        ));
        Ok((out, rows + used))
    } else {
        let (mut vals, used) = match read_values(codec, bytes, rows) {
            Some(x) => x,
            None => {
                return Err(short_input_error());
            },
        };
        let ghost read = byte_views(vals@);
        let mut out: Vec<Option<Vec<u8>>> = Vec::new();
        let mut i: usize = 0;
        assert(forall|j: int| 0 <= j < rows ==> #[trigger] vals@[j]@ == read[j]);
        while i < rows
            invariant
                i <= rows,
                vals@.len() == rows,
                read.len() == rows,
                forall|j: int| i <= j < rows ==> #[trigger] vals@[j]@ == read[j],
                out@.len() == i,
                forall|j: int| 0 <= j < i ==> #[trigger] row_views(out@)[j] == Some(read[j]),
            decreases rows - i,
        {
            let mut v: Vec<u8> = Vec::new();
            vals.set_and_swap(i, &mut v);
            let ghost before = out@;
            out.push(Some(v));
            assert forall|j: int| 0 <= j <= i implies #[trigger] row_views(out@)[j] == Some(read[j]) by {
                if j < i {
                    assert(row_views(out@)[j] == row_views(before)[j]);
                }
            }
            i = i + 1;
        }
        assert(row_views(out@) =~= read.map_values(|v: Seq<u8>| Some(v)));
        Ok((out, used))
    }
}

/// The value a row reads back as under a codec: a null row as the value it
/// was written as (empty, or `n` zero bytes), a fixed-width value cut or
/// padded to `n` bytes.
pub open spec fn cell_read_back(codec: LeafCodec, row: Option<Seq<u8>>) -> Seq<u8> {
    match codec {
        LeafCodec::VarString | LeafCodec::VarBinary => match row {
            Some(v) => v,
            None => Seq::empty(),
        },
        LeafCodec::FixedString(n) | LeafCodec::FixedBinary(n) => fixed_row(row, n as nat),
    }
}

/// The rows a column of type `t` reads back as: a null row of a `Nullable`
/// column stays null; every other row reads back as `cell_read_back` says.
pub open spec fn read_back(t: Type, codec: LeafCodec, rows: Seq<Option<Seq<u8>>>) -> Seq<
    Option<Seq<u8>>,
> {
    Seq::new(
        rows.len(),
        |i: int|
            if t is Nullable && rows[i] is None {
                None
            } else {
                Some(cell_read_back(codec, rows[i]))
            },
    )
}

/// Every value is short enough for its length to be written.
pub open spec fn lengths_fit(rows: Seq<Option<Seq<u8>>>) -> bool {
    forall|i: int| 0 <= i < rows.len() ==> (#[trigger] rows[i] matches Some(v) ==> v.len() <= u64::MAX)
}

/// The null mask of a column's rows, whatever follows it, reads back as the
/// rows' null flags.
pub proof fn null_mask_round_trip(rows: Seq<Option<Seq<u8>>>, rest: Seq<u8>)
    ensures
        null_flags_decode(null_mask(rows) + rest, rows.len()) == Some(
            Seq::new(rows.len(), |i: int| rows[i] is None),
        ),
{
    let b = null_mask(rows) + rest;
    assert(Seq::new(rows.len(), |i: int| b[i] != 0) =~= Seq::new(
        rows.len(),
        |i: int| rows[i] is None,
    ));
}

proof fn var_payload_decodes(rows: Seq<Option<Seq<u8>>>, rest: Seq<u8>)
    requires
        lengths_fit(rows),
    ensures
        var_values_decode(var_payload(rows) + rest, rows.len()) == Some(
            (
                rows.map_values(|r: Option<Seq<u8>>| cell_read_back(LeafCodec::VarBinary, r)),
                var_payload(rows).len(),
            ),
        ),
    decreases rows.len(),
{
    let f = |r: Option<Seq<u8>>| cell_read_back(LeafCodec::VarBinary, r);
    if rows.len() == 0 {
        assert(rows.map_values(f) =~= Seq::<Seq<u8>>::empty());
    } else {
        let front = rows.drop_last();
        let last = rows.last();
        let v = cell_read_back(LeafCodec::VarBinary, last);
        assert(lengths_fit(front)) by {
            assert forall|i: int| 0 <= i < front.len() implies (#[trigger] front[i] matches Some(
                w,
            ) ==> w.len() <= u64::MAX) by {
                assert(front[i] == rows[i]);
            }
        }
        assert(rows[rows.len() - 1] == last);
        assert(v.len() <= u64::MAX);
        var_payload_decodes(front, var_row(last) + rest);
        let b = var_payload(rows) + rest;
        assert(b =~= var_payload(front) + (var_row(last) + rest));
        let used = var_payload(front).len();
        assert(var_row(last) == var_uint_bytes(v.len()) + v) by {
            reveal_with_fuel(var_uint_bytes, 1);
            if last is None {
                assert(v =~= Seq::<u8>::empty());
                assert(var_uint_bytes(0) + v =~= var_uint_bytes(0));
            }
        }
        var_uint_u64_round_trip(v.len() as u64, v + rest);
        let k = var_uint_bytes(v.len()).len();
        assert(b.skip(used as int) =~= var_uint_bytes(v.len()) + (v + rest));
        assert(b.subrange((used + k) as int, (used + k + v.len()) as int) =~= v);
        assert(rows.map_values(f) =~= front.map_values(f).push(v));
    }
}

proof fn fixed_payload_layout(rows: Seq<Option<Seq<u8>>>, n: nat)
    ensures
        fixed_payload(rows, n).len() == rows.len() * n,
        forall|i: int|
            0 <= i < rows.len() ==> #[trigger] fixed_payload(rows, n).subrange(i * n, i * n + n)
                == fixed_row(rows[i], n),
    decreases rows.len(),
{
    if rows.len() > 0 {
        let front = rows.drop_last();
        let k = rows.len();
        fixed_payload_layout(front, n);
        let p = fixed_payload(rows, n);
        let pf = fixed_payload(front, n);
        assert(pf.len() + n == k * n) by (nonlinear_arith)
            requires
                pf.len() == (k - 1) * n,
        ;
        assert forall|i: int| 0 <= i < k implies #[trigger] p.subrange(i * n, i * n + n)
            == fixed_row(rows[i], n) by {
            if i < k - 1 {
                assert(i * n + n <= (k - 1) * n) by (nonlinear_arith)
                    requires
                        i < k - 1,
                ;
                assert(i * n >= 0) by (nonlinear_arith)
                    requires
                        i >= 0,
                ;
                assert(p.subrange(i * n, i * n + n) =~= pf.subrange(i * n, i * n + n));
                assert(front[i] == rows[i]);
            } else {
                assert(i * n == (k - 1) * n);
                assert(p.subrange(i * n, i * n + n) =~= fixed_row(rows[i], n));
            }
        }
    }
}

proof fn fixed_payload_decodes(rows: Seq<Option<Seq<u8>>>, n: nat, rest: Seq<u8>)
    ensures
        fixed_values_decode(fixed_payload(rows, n) + rest, rows.len(), n) == Some(
            (rows.map_values(|r: Option<Seq<u8>>| fixed_row(r, n)), fixed_payload(rows, n).len()),
        ),
{
    fixed_payload_layout(rows, n);
    let p = fixed_payload(rows, n);
    let b = p + rest;
    let k = rows.len();
    assert forall|i: int| 0 <= i < k implies #[trigger] b.subrange(i * n, i * n + n) == fixed_row(
        rows[i],
        n,
    ) by {
        assert(i * n + n <= k * n && i * n >= 0) by (nonlinear_arith)
            requires
                0 <= i < k,
        ;
        assert(b.subrange(i * n, i * n + n) =~= p.subrange(i * n, i * n + n));
    }
    assert(Seq::new(k, |i: int| b.subrange(i * n, i * n + n)) =~= rows.map_values(
        |r: Option<Seq<u8>>| fixed_row(r, n),
    ));
}

proof fn payload_decodes(codec: LeafCodec, rows: Seq<Option<Seq<u8>>>, rest: Seq<u8>)
    requires
        lengths_fit(rows),
    ensures
        values_decode(codec, payload(codec, rows) + rest, rows.len()) == Some(
            (
                rows.map_values(|r: Option<Seq<u8>>| cell_read_back(codec, r)),
                payload(codec, rows).len(),
            ),
        ),
{
    match codec {
        LeafCodec::VarString | LeafCodec::VarBinary => {
            var_payload_decodes(rows, rest);
            assert(rows.map_values(|r: Option<Seq<u8>>| cell_read_back(codec, r)) =~= rows.map_values(
                |r: Option<Seq<u8>>| cell_read_back(LeafCodec::VarBinary, r),
            ));
        },
        LeafCodec::FixedString(n) | LeafCodec::FixedBinary(n) => {
            fixed_payload_decodes(rows, n as nat, rest);
            assert(rows.map_values(|r: Option<Seq<u8>>| cell_read_back(codec, r)) =~= rows.map_values(
                |r: Option<Seq<u8>>| fixed_row(r, n as nat),
            ));
        },
    }
}

/// What `serialize_column` writes for a column, `deserialize` reads back
/// whole, whatever follows it: the same rows, but that a null row of a column
/// that is not `Nullable` reads back as the value it was written as, and a
/// fixed-width value as written, cut or padded.
pub proof fn column_round_trip(t: Type, rows: Seq<Option<Seq<u8>>>, rest: Seq<u8>)
    requires
        spec_leaf_codec(t) is Some,
        lengths_fit(rows),
    ensures
        ({
            let codec = spec_leaf_codec(t)->0;
            let written = (if t is Nullable {
                null_mask_output(t, rows)
            } else {
                Seq::empty()
            }) + payload(codec, rows);
            column_decode(t, written + rest, rows.len()) == Some(
                (read_back(t, codec, rows), written.len()),
            )
        }),
{
    let codec = spec_leaf_codec(t)->0;
    let k = rows.len();
    let p = payload(codec, rows);
    payload_decodes(codec, rows, rest);
    let vals = rows.map_values(|r: Option<Seq<u8>>| cell_read_back(codec, r));
    if t is Nullable {
        let mask = null_mask(rows);
        assert(null_mask_output(t, rows) == mask);
        let b = (mask + p) + rest;
        assert(b.skip(k as int) =~= p + rest);
        assert(b =~= mask + (p + rest));
        null_mask_round_trip(rows, p + rest);
        let flags = Seq::new(k, |i: int| rows[i] is None);
        assert(Seq::new(k, |i: int| if flags[i] { None } else { Some(vals[i]) }) =~= read_back(
            t,
            codec,
            rows,
        ));
    } else {
        let b = (Seq::<u8>::empty() + p) + rest;
        assert(b =~= p + rest);
        assert(vals.map_values(|v: Seq<u8>| Some(v)) =~= read_back(t, codec, rows));
    }
}

} // verus!
