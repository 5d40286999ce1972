//! Integer framings of the compact binary codec: a variable-length framing with seven
//! data bits per byte, and a fixed-width big-endian framing sized by a known maximum.

use vstd::prelude::*;
use crate::error::{deserialize_error, serialize_error, ModelsError};

verus! {

/// Number of big-endian bytes that hold every value up to `max`.
pub open spec fn be_min_width(max: nat) -> nat {
    if max == 0 {
        0
    } else if max < 0x100 {
        1
    } else if max < 0x1_0000 {
        2
    } else if max < 0x100_0000 {
        3
    } else {
        4
    }
}

/// `256` to the power `width`.
pub open spec fn pow256(width: nat) -> nat
    decreases width,
{
    if width == 0 {
        1
    } else {
        256 * pow256((width - 1) as nat)
    }
}

/// The `width` low-order base-256 digits of `v`, most significant first.
pub open spec fn be_bytes(v: nat, width: nat) -> Seq<u8>
    decreases width,
{
    if width == 0 {
        Seq::<u8>::empty()
    } else {
        be_bytes(v / 256, (width - 1) as nat).push((v % 256) as u8)
    }
}

/// The number that the `width` bytes of `s` from `pos` on spell, most significant first.
pub open spec fn be_value(s: Seq<u8>, pos: int, width: nat) -> nat
    decreases width,
{
    if width == 0 {
        0
    } else {
        be_value(s, pos, (width - 1) as nat) * 256 + s[pos + width - 1] as nat
    }
}

/// What reading a bounded big-endian integer at `pos` yields: the value and the position
/// behind it, or nothing when bytes are missing or the value exceeds `max`.
pub open spec fn parse_be_min(s: Seq<u8>, pos: int, max: nat) -> Option<(nat, int)> {
    let width = be_min_width(max);
    if pos < 0 || pos + width > s.len() {
        None
    } else if be_value(s, pos, width) > max {
        None
    } else {
        Some((be_value(s, pos, width), pos + width))
    }
}

/// The variable-length form of `v`: seven bits per byte, least significant group first,
/// the high bit set on every byte but the last.
pub open spec fn varint_bytes(v: nat) -> Seq<u8>
    decreases v,
{
    if v < 128 {
        seq![v as u8]
    } else {
        seq![(v % 128 + 128) as u8] + varint_bytes(v / 128)
    }
}

/// What reading a variable-length integer at `pos` yields: the value and the position
/// behind its last byte. Only the shortest form of a value is read: a group of
/// continuation bytes followed by a zero byte is refused.
pub open spec fn parse_varint(s: Seq<u8>, pos: int) -> Option<(nat, int)>
    decreases s.len() - pos,
{
    if pos < 0 || pos >= s.len() {
        None
    } else if s[pos] < 128 {
        Some((s[pos] as nat, pos + 1))
    } else {
        match parse_varint(s, pos + 1) {
            Some((high, end)) => if high == 0 {
                None
            } else {
                Some(((s[pos] - 128) as nat + 128 * high, end))
            },
            None => None,
        }
    }
}

/// `parse_varint`, refusing values above `max`.
pub open spec fn parse_varint_bounded(s: Seq<u8>, pos: int, max: nat) -> Option<(nat, int)> {
    match parse_varint(s, pos) {
        Some((v, end)) => if v <= max {
            Some((v, end))
        } else {
            None
        },
        None => None,
    }
}

/// True when the bytes `bytes` stand in `s` from `pos` on.
pub open spec fn holds_at(s: Seq<u8>, pos: int, bytes: Seq<u8>) -> bool {
    &&& 0 <= pos
    &&& pos + bytes.len() <= s.len()
    &&& s.subrange(pos, pos + bytes.len()) == bytes
}

/// A part of what stands at `pos` stands there too, at its own offset.
pub proof fn lemma_holds_at_part(s: Seq<u8>, pos: int, a: Seq<u8>, b: Seq<u8>)
    requires
        holds_at(s, pos, a + b),
    ensures
        holds_at(s, pos, a),
        holds_at(s, pos + a.len(), b),
{
    let whole = s.subrange(pos, pos + (a + b).len());
    assert(s.subrange(pos, pos + a.len()) =~= whole.subrange(0, a.len() as int));
    assert(whole.subrange(0, a.len() as int) =~= a);
    assert(s.subrange(pos + a.len(), pos + a.len() + b.len()) =~= whole.subrange(
        a.len() as int,
        (a + b).len() as int,
    ));
    assert(whole.subrange(a.len() as int, (a + b).len() as int) =~= b);
}

/// Reading the variable-length form of `v` gives `v` back and stops right behind it.
pub proof fn lemma_varint_round_trip(s: Seq<u8>, pos: int, v: nat)
    requires
        holds_at(s, pos, varint_bytes(v)),
    ensures
        parse_varint(s, pos) == Some((v, pos + varint_bytes(v).len())),
    decreases v,
{
    let bytes = varint_bytes(v);
    assert(s[pos] == s.subrange(pos, pos + bytes.len())[0]);
    if v >= 128 {
        let head = seq![(v % 128 + 128) as u8];
        lemma_holds_at_part(s, pos, head, varint_bytes(v / 128));
        lemma_varint_round_trip(s, pos + 1, v / 128);
    }
}

/// The bytes that `parse_varint` accepts are the variable-length form of the value it
/// returns: every value has one form only.
pub proof fn lemma_varint_canonical(s: Seq<u8>, pos: int)
    requires
        parse_varint(s, pos).is_some(),
    ensures
        holds_at(s, pos, varint_bytes(parse_varint(s, pos).unwrap().0)),
        parse_varint(s, pos).unwrap().1 == pos + varint_bytes(parse_varint(s, pos).unwrap().0).len(),
    decreases s.len() - pos,
{
    let (v, end) = parse_varint(s, pos).unwrap();
    if s[pos] < 128 {
        assert(s.subrange(pos, pos + 1) =~= varint_bytes(v));
    } else {
        lemma_varint_canonical(s, pos + 1);
        let (high, _e) = parse_varint(s, pos + 1).unwrap();
        assert(v / 128 == high && v % 128 == s[pos] - 128) by (nonlinear_arith)
            requires
                v == (s[pos] - 128) + 128 * high,
                128 <= s[pos] < 256,
        ;
        assert(s.subrange(pos, end) =~= seq![s[pos]] + s.subrange(pos + 1, end));
    }
}

/// Reading the big-endian form of a value that fits the width gives the value back.
pub proof fn lemma_be_round_trip(s: Seq<u8>, pos: int, v: nat, width: nat)
    requires
        holds_at(s, pos, be_bytes(v, width)),
        v < pow256(width),
    ensures
        be_bytes(v, width).len() == width,
        be_value(s, pos, width) == v,
    decreases width,
{
    lemma_be_len(v, width);
    if width > 0 {
        let w1 = (width - 1) as nat;
        let front = be_bytes(v / 256, w1);
        lemma_be_len(v / 256, w1);
        assert(be_bytes(v, width) =~= front + seq![(v % 256) as u8]);
        lemma_holds_at_part(s, pos, front, seq![(v % 256) as u8]);
        assert(v / 256 < pow256(w1)) by (nonlinear_arith)
            requires
                v < 256 * pow256(w1),
        ;
        lemma_be_round_trip(s, pos, v / 256, w1);
        assert(s[pos + width - 1] == s.subrange(pos + w1, pos + w1 + 1)[0]);
    }
}

/// The big-endian form has exactly `width` bytes.
pub proof fn lemma_be_len(v: nat, width: nat)
    ensures
        be_bytes(v, width).len() == width,
    decreases width,
{
    if width > 0 {
        lemma_be_len(v / 256, (width - 1) as nat);
    }
}

/// Every value up to `max` fits the width chosen for `max`.
pub proof fn lemma_be_min_width_fits(v: nat, max: nat)
    requires
        v <= max,
        max <= u32::MAX,
    ensures
        v < pow256(be_min_width(max)),
{
    reveal_with_fuel(pow256, 5);
}

/// Width, in bytes, of the bounded big-endian framing for values up to `max`.
pub fn be_bytes_min_length(max: u32) -> (n: usize)
    ensures
        n == be_min_width(max as nat),
{
    if max == 0 {
        0
    } else if max < 0x100 {
        1
    } else if max < 0x1_0000 {
        2
    } else if max < 0x100_0000 {
        3
    } else {
        4
    }
}

/// Writes `value` in the bounded big-endian framing for values up to `max`.
/// A value above `max` is refused.
pub fn to_be_bytes_min(value: u32, max: u32) -> (r: Result<Vec<u8>, ModelsError>)
    ensures
        value <= max ==> r.is_ok() && r.unwrap()@ == be_bytes(
            value as nat,
            be_min_width(max as nat),
        ),
        value > max ==> r.is_err() && r.unwrap_err().is_serialize(),
{
    if value > max {
        return Err(serialize_error("integer out of bounds"));
    }
    let width = be_bytes_min_length(max);
    let digits: [u8; 4] = [
        (value / 0x100_0000) as u8,
        ((value / 0x1_0000) % 0x100) as u8,
        ((value / 0x100) % 0x100) as u8,
        (value % 0x100) as u8,
    ];
    let mut out: Vec<u8> = Vec::new();
    let mut k: usize = 4 - width;
    proof {
        reveal_with_fuel(be_bytes, 5);
    }
    let ghost target = be_bytes(value as nat, width as nat);
    assert(target.len() == width) by {
        lemma_be_len(value as nat, width as nat);
    }
    assert(forall|j: int| 0 <= j < width ==> target[j] == digits@[4 - width + j]);
    while k < 4
        invariant
            width <= 4,
            4 - width <= k <= 4,
            target.len() == width,
            out@.len() == k - (4 - width),
            forall|j: int| 0 <= j < width ==> target[j] == digits@[4 - width + j],
            forall|j: int| 0 <= j < out@.len() ==> out@[j] == target[j],
        decreases 4 - k,
    {
        out.push(digits[k]);
        k = k + 1;
    }
    assert(out@ =~= target);
    Ok(out)
}

/// Reads a bounded big-endian integer at `pos`: the value and the position behind it.
pub fn from_be_bytes_min(buffer: &[u8], pos: usize, max: u32) -> (r: Result<
    (u32, usize),
    ModelsError,
>)
    ensures
        match parse_be_min(buffer@, pos as int, max as nat) {
            Some((v, end)) => r.is_ok() && r.unwrap().0 == v && r.unwrap().1 == end,
            None => r.is_err() && r.unwrap_err().is_deserialize(),
        },
{
    let width = be_bytes_min_length(max);
    if pos > buffer.len() || buffer.len() - pos < width {
        return Err(deserialize_error("unexpected buffer end"));
    }
    let mut value: u64 = 0;
    let mut k: usize = 0;
    while k < width
        invariant
            width <= 4,
            k <= width,
            pos + width <= buffer@.len() <= usize::MAX,
            value == be_value(buffer@, pos as int, k as nat),
            value < pow256(k as nat),
        decreases width - k,
    {
        proof {
            reveal_with_fuel(pow256, 5);
        }
        value = value * 256 + buffer[pos + k] as u64;
        k = k + 1;
    }
    if value > max as u64 {
        return Err(deserialize_error("integer outside of bounds"));
    }
    Ok((value as u32, pos + width))
}

/// `128` to the power `n`.
pub open spec fn pow128(n: nat) -> nat
    decreases n,
{
    if n == 0 {
        1
    } else {
        128 * pow128((n - 1) as nat)
    }
}

/// What a reader that has consumed `count` continuation bytes, holding the groups
/// `low` so far, makes of the rest `tail` of the integer.
pub open spec fn varint_join(tail: Option<(nat, int)>, low: nat, count: nat) -> Option<
    (nat, int),
> {
    match tail {
        Some((high, end)) => if count > 0 && high == 0 {
            None
        } else {
            Some((low + pow128(count) * high, end))
        },
        None => None,
    }
}

/// Consuming one more continuation byte keeps the reading unchanged.
proof fn lemma_varint_join_step(s: Seq<u8>, at: int, low: nat, count: nat)
    requires
        0 <= at < s.len(),
        s[at] >= 128,
    ensures
        varint_join(parse_varint(s, at), low, count) == varint_join(
            parse_varint(s, at + 1),
            low + pow128(count) * (s[at] - 128) as nat,
            count + 1,
        ),
{
    let group = (s[at] - 128) as nat;
    let scale = pow128(count);
    assert(pow128(count + 1) == 128 * scale);
    match parse_varint(s, at + 1) {
        Some((high, end)) => {
            if high != 0 {
                assert(low + scale * (group + 128 * high) == low + scale * group + (128 * scale)
                    * high) by (nonlinear_arith);
                assert(group + 128 * high > 0);
            }
        },
        None => {},
    }
}

/// A reading that continues behind `count` continuation bytes is at least
/// `128` to the power `count`.
proof fn lemma_varint_join_lower_bound(tail: Option<(nat, int)>, low: nat, count: nat)
    requires
        count > 0,
    ensures
        varint_join(tail, low, count) matches Some((v, _e)) ==> v >= pow128(count),
{
    match tail {
        Some((high, end)) => {
            if high != 0 {
                assert(pow128(count) * high >= pow128(count)) by (nonlinear_arith)
                    requires
                        high >= 1,
                ;
            }
        },
        None => {},
    }
}

/// Writes `value` in the variable-length framing.
pub fn to_varint_bytes(value: u64) -> (out: Vec<u8>)
    ensures
        out@ == varint_bytes(value as nat),
{
    let mut out: Vec<u8> = Vec::new();
    let mut rest: u64 = value;
    while rest >= 128
        invariant
            varint_bytes(value as nat) == out@ + varint_bytes(rest as nat),
        decreases rest,
    {
        let ghost before = out@;
        out.push((rest % 128 + 128) as u8);
        proof {
            assert(out@ + varint_bytes((rest / 128) as nat) =~= before + (seq![
                (rest % 128 + 128) as u8,
            ] + varint_bytes((rest / 128) as nat)));
        }
        rest = rest / 128;
    }
    let ghost before = out@;
    out.push(rest as u8);
    assert(out@ =~= before + varint_bytes(rest as nat));
    out
}

/// Reads a variable-length integer at `pos` and refuses values above `max`: the value
/// and the position behind it.
pub fn from_varint_bytes_bounded(buffer: &[u8], pos: usize, max: u64) -> (r: Result<
    (u64, usize),
    ModelsError,
>)
    ensures
        match parse_varint_bounded(buffer@, pos as int, max as nat) {
            Some((v, end)) => r.is_ok() && r.unwrap().0 == v && r.unwrap().1 == end,
            None => r.is_err() && r.unwrap_err().is_deserialize(),
        },
{
    let mut low: u128 = 0;
    let mut scale: u128 = 1;
    let mut count: usize = 0;
    let total = buffer.len();
    while count < 10
        invariant
            count < 10,
            total == buffer@.len(),
            pos + count <= buffer@.len() || count == 0,
            buffer@.len() <= usize::MAX,
            scale == pow128(count as nat),
            low < scale,
            scale <= 0x4000_0000_0000_0000_0000,
            parse_varint(buffer@, pos as int) == varint_join(
                parse_varint(buffer@, pos + count),
                low as nat,
                count as nat,
            ),
        decreases 10 - count,
    {
        proof {
            reveal_with_fuel(pow128, 11);
        }
        if pos >= total || total - pos <= count {
            return Err(deserialize_error("unexpected buffer end"));
        }
        let byte: u8 = buffer[pos + count];
        if byte < 128 {
            if count > 0 && byte == 0 {
                return Err(deserialize_error("integer is not in its shortest form"));
            }
            assert(scale * byte <= 0x4000_0000_0000_0000_0000 * 128) by (nonlinear_arith)
                requires
                    scale <= 0x4000_0000_0000_0000_0000,
                    byte < 128,
            ;
            let value: u128 = low + scale * (byte as u128);
            if value > max as u128 {
                return Err(deserialize_error("integer outside of bounds"));
            }
            return Ok((value as u64, pos + count + 1));
        }
        proof {
            lemma_varint_join_step(buffer@, pos + count, low as nat, count as nat);
            assert(scale * (byte - 128) <= scale * 127) by (nonlinear_arith)
                requires
                    128 <= byte < 256,
                    scale >= 0,
            ;
        }
        low = low + scale * ((byte - 128) as u128);
        if count < 9 {
            scale = scale * 128;
        }
        count = count + 1;
        if count == 10 {
            proof {
                lemma_varint_join_lower_bound(
                    parse_varint(buffer@, pos + count),
                    low as nat,
                    count as nat,
                );
            }
            return Err(deserialize_error("integer outside of bounds"));
        }
    }
    Err(deserialize_error("integer outside of bounds"))
}

/// Reads a variable-length integer of at most 32 bits at `pos`, refusing values above
/// `max`.
pub fn from_varint_bytes_bounded_u32(buffer: &[u8], pos: usize, max: u32) -> (r: Result<
    (u32, usize),
    ModelsError,
>)
    ensures
        match parse_varint_bounded(buffer@, pos as int, max as nat) {
            Some((v, end)) => r.is_ok() && r.unwrap().0 == v && r.unwrap().1 == end,
            None => r.is_err() && r.unwrap_err().is_deserialize(),
        },
{
    match from_varint_bytes_bounded(buffer, pos, max as u64) {
        Ok((v, end)) => Ok((v as u32, end)),
        Err(e) => Err(e),
    }
}

/// Reads a variable-length integer of at most 64 bits at `pos`.
pub fn from_varint_bytes(buffer: &[u8], pos: usize) -> (r: Result<(u64, usize), ModelsError>)
    ensures
        match parse_varint_bounded(buffer@, pos as int, u64::MAX as nat) {
            Some((v, end)) => r.is_ok() && r.unwrap().0 == v && r.unwrap().1 == end,
            None => r.is_err() && r.unwrap_err().is_deserialize(),
        },
{
    from_varint_bytes_bounded(buffer, pos, u64::MAX)
}

/// Reads one byte at `pos`.
pub fn u8_from_slice(buffer: &[u8], pos: usize) -> (r: Result<u8, ModelsError>)
    ensures
        pos < buffer@.len() ==> r == Ok::<u8, ModelsError>(buffer@[pos as int]) && pos
            < usize::MAX,
        pos >= buffer@.len() ==> r.is_err() && r.unwrap_err().is_deserialize(),
{
    if pos >= buffer.len() {
        return Err(deserialize_error("buffer too small"));
    }
    Ok(buffer[pos])
}

/// Appends the bytes of `part` to `out`.
pub fn extend_bytes(out: &mut Vec<u8>, part: &[u8])
    ensures
        final(out)@ == old(out)@ + part@,
{
    let ghost before = out@;
    let mut k: usize = 0;
    while k < part.len()
        invariant
            k <= part@.len(),
            out@ == before + part@.subrange(0, k as int),
        decreases part@.len() - k,
    {
        out.push(part[k]);
        assert(out@ =~= before + part@.subrange(0, k + 1));
        k = k + 1;
    }
    assert(part@.subrange(0, part@.len() as int) =~= part@);
}

/// The forms of `items`, one behind the other.
pub open spec fn concat_bytes<T>(items: Seq<T>, form: spec_fn(T) -> Seq<u8>) -> Seq<u8>
    decreases items.len(),
{
    if items.len() == 0 {
        Seq::<u8>::empty()
    } else {
        concat_bytes(items.drop_last(), form) + form(items.last())
    }
}

/// What reading `count` items one behind the other yields, each read by `one`: the
/// items and the position behind the last. Nothing as soon as one item cannot be read.
pub open spec fn parse_many<T>(
    s: Seq<u8>,
    pos: int,
    count: nat,
    one: spec_fn(Seq<u8>, int) -> Option<(T, int)>,
) -> Option<(Seq<T>, int)>
    decreases count,
{
    if count == 0 {
        Some((Seq::<T>::empty(), pos))
    } else {
        match parse_many(s, pos, (count - 1) as nat, one) {
            Some((front, at)) => match one(s, at) {
                Some((item, end)) => Some((front.push(item), end)),
                None => None,
            },
            None => None,
        }
    }
}

/// Once an item cannot be read, no longer run of items can.
pub proof fn lemma_parse_many_fails<T>(
    s: Seq<u8>,
    pos: int,
    failed: nat,
    count: nat,
    one: spec_fn(Seq<u8>, int) -> Option<(T, int)>,
)
    requires
        parse_many(s, pos, failed, one).is_none(),
        failed <= count,
    ensures
        parse_many(s, pos, count, one).is_none(),
    decreases count,
{
    if count > failed {
        lemma_parse_many_fails(s, pos, failed, (count - 1) as nat, one);
    }
}

/// Where the forms of `items` stand one behind the other, the forms of the first `n`
/// stand too, and behind them the form of item `n`.
pub proof fn lemma_concat_item_at<T>(
    s: Seq<u8>,
    pos: int,
    items: Seq<T>,
    form: spec_fn(T) -> Seq<u8>,
    n: int,
)
    requires
        holds_at(s, pos, concat_bytes(items, form)),
        0 <= n <= items.len(),
    ensures
        holds_at(s, pos, concat_bytes(items.take(n), form)),
        n < items.len() ==> holds_at(
            s,
            pos + concat_bytes(items.take(n), form).len(),
            form(items[n]),
        ),
        n < items.len() ==> concat_bytes(items.take(n + 1), form) == concat_bytes(
            items.take(n),
            form,
        ) + form(items[n]),
    decreases items.len() - n,
{
    if n == items.len() {
        assert(items.take(n) =~= items);
    } else {
        lemma_concat_item_at(s, pos, items, form, n + 1);
        let longer = items.take(n + 1);
        assert(longer.drop_last() =~= items.take(n));
        assert(longer.last() == items[n]);
        lemma_holds_at_part(s, pos, concat_bytes(items.take(n), form), form(items[n]));
    }
}

/// The forms of the first `n + 1` items are the forms of the first `n`, then the form
/// of item `n`.
pub proof fn lemma_concat_step<T>(items: Seq<T>, form: spec_fn(T) -> Seq<u8>, n: int)
    requires
        0 <= n <= items.len(),
    ensures
        n < items.len() ==> concat_bytes(items.take(n + 1), form) == concat_bytes(
            items.take(n),
            form,
        ) + form(items[n]),
        concat_bytes(items.take(0), form) == Seq::<u8>::empty(),
{
    if n < items.len() {
        let longer = items.take(n + 1);
        assert(longer.drop_last() =~= items.take(n));
        assert(longer.last() == items[n]);
    }
}

/// Reading a run of items where their forms stand one behind the other gives the
/// items back, provided each item is read back at its own place.
pub proof fn lemma_parse_many_round_trip<T>(
    s: Seq<u8>,
    pos: int,
    items: Seq<T>,
    form: spec_fn(T) -> Seq<u8>,
    one: spec_fn(Seq<u8>, int) -> Option<(T, int)>,
    n: int,
)
    requires
        0 <= n <= items.len(),
        forall|i: int|
            0 <= i < items.len() ==> #[trigger] one(
                s,
                pos + concat_bytes(items.take(i), form).len(),
            ) == Some((items[i], pos + concat_bytes(items.take(i + 1), form).len())),
    ensures
        parse_many(s, pos, n as nat, one) == Some(
            (items.take(n), pos + concat_bytes(items.take(n), form).len()),
        ),
    decreases n,
{
    if n == 0 {
        assert(items.take(0) =~= Seq::<T>::empty());
    } else {
        lemma_parse_many_round_trip(s, pos, items, form, one, n - 1);
        assert(items.take(n - 1).push(items[n - 1]) =~= items.take(n));
        assert(one(s, pos + concat_bytes(items.take(n - 1), form).len()) == Some(
            (items[n - 1], pos + concat_bytes(items.take(n - 1 + 1), form).len()),
        ));
    }
}

} // verus!
