//! Presence-bitmap and delta encoding of optional integer columns.

use vstd::prelude::*;

verus! {

/// Bytes needed for a presence bitmap of `n` rows.
pub open spec fn bitmap_len(n: int) -> int {
    n / 8 + if n % 8 != 0 { 1int } else { 0int }
}

/// Row `i` is marked present: bit `i % 8` of byte `i / 8`.
pub open spec fn bit_set(p: Seq<u8>, i: int) -> bool {
    (p[i / 8] >> ((i % 8) as u8)) & 1u8 == 1u8
}

/// Number of rows among `0..n` marked present.
pub open spec fn present_before(p: Seq<u8>, n: int) -> nat
    decreases n,
{
    if n <= 0 {
        0
    } else {
        present_before(p, n - 1) + if bit_set(p, n - 1) { 1nat } else { 0nat }
    }
}

/// The present values of a column, in row order.
pub open spec fn present_values(values: Seq<Option<i64>>) -> Seq<i64>
    decreases values.len(),
{
    if values.len() == 0 {
        Seq::empty()
    } else {
        let rest = present_values(values.drop_last());
        match values.last() {
            Some(v) => rest.push(v),
            None => rest,
        }
    }
}

/// Successive differences of `pv`, starting from zero, in two's-complement arithmetic.
pub open spec fn delta_encode(pv: Seq<i64>) -> Seq<i64>
    decreases pv.len(),
{
    if pv.len() == 0 {
        Seq::empty()
    } else {
        let previous: i64 = if pv.len() >= 2 { pv[pv.len() - 2] } else { 0 };
        delta_encode(pv.drop_last()).push(wrapping_delta(pv.last(), previous))
    }
}

/// `x - y` in two's-complement 64-bit arithmetic.
pub open spec fn wrapping_delta(x: i64, y: i64) -> i64 {
    if x - y > i64::MAX {
        (x - y - 0x1_0000_0000_0000_0000) as i64
    } else if x - y < i64::MIN {
        (x - y + 0x1_0000_0000_0000_0000) as i64
    } else {
        (x - y) as i64
    }
}

/// Sum of the first `j` deltas.
pub open spec fn prefix_sum(d: Seq<i64>, j: int) -> int
    decreases j,
{
    if j <= 0 || d.len() == 0 {
        0
    } else if j > d.len() {
        prefix_sum(d, d.len() as int)
    } else {
        prefix_sum(d, j - 1) + d[j - 1]
    }
}

/// Some running total over the first `j` deltas leaves the `i64` range.
pub open spec fn prefix_overflows(d: Seq<i64>, j: int) -> bool {
    exists|k: int| 1 <= k <= j && #[trigger] prefix_sum(d, k) != (prefix_sum(d, k) as i64)
}

/// Presence bitmap and delta list that encode `values`.
pub open spec fn column_spec(values: Seq<Option<i64>>) -> (Seq<u8>, Seq<i64>) {
    (
        Seq::new(
            bitmap_len(values.len() as int) as nat,
            |b: int|
                bitmap_byte(values, b),
        ),
        delta_encode(present_values(values)),
    )
}

/// Byte `b` of the presence bitmap of `values`.
pub open spec fn bitmap_byte(values: Seq<Option<i64>>, b: int) -> u8
    decreases 8int,
{
    byte_from_bits(values, b, 8)
}

/// The low `k` bits of byte `b` of the presence bitmap of `values`.
pub open spec fn byte_from_bits(values: Seq<Option<i64>>, b: int, k: int) -> u8
    decreases k,
{
    if k <= 0 {
        0u8
    } else {
        let lower = byte_from_bits(values, b, k - 1);
        let row = b * 8 + k - 1;
        if 0 <= row < values.len() && values[row] is Some {
            lower | (1u8 << ((k - 1) as u8))
        } else {
            lower
        }
    }
}

/// Decoded values of a column: present rows take the running delta total.
pub open spec fn expanded_values(p: Seq<u8>, d: Seq<i64>, count: int) -> Seq<Option<i64>> {
    Seq::new(
        count as nat,
        |i: int|
            if bit_set(p, i) {
                Some(prefix_sum(d, present_before(p, i) as int + 1) as i64)
            } else {
                None
            },
    )
}

#[derive(Clone, Copy, Debug, PartialEq, Eq, Structural)]
pub enum SegmentCodecError {
    /// Segment points must be non-empty and strictly ordered.
    UnorderedPoints,
    /// Segment size is unsupported.
    Size,
    /// Segment arithmetic overflowed.
    Overflow,
    /// Segment compression failed.
    Compression,
    /// Segment protobuf is malformed.
    Protobuf,
    /// Segment integrity verification failed.
    Integrity,
}

impl SegmentCodecError {
    /// Operator-facing description of the failure.
    pub fn message(&self) -> (r: &'static str)
        ensures
            r@ == match *self {
                SegmentCodecError::UnorderedPoints => "segment points must be non-empty and strictly ordered"@,
                SegmentCodecError::Size => "segment size is unsupported"@,
                SegmentCodecError::Overflow => "segment arithmetic overflowed"@,
                SegmentCodecError::Compression => "segment compression failed"@,
                SegmentCodecError::Protobuf => "segment protobuf is malformed"@,
                SegmentCodecError::Integrity => "segment integrity verification failed"@,
            },
    {
        match self {
            SegmentCodecError::UnorderedPoints => "segment points must be non-empty and strictly ordered",
            SegmentCodecError::Size => "segment size is unsupported",
            SegmentCodecError::Overflow => "segment arithmetic overflowed",
            SegmentCodecError::Compression => "segment compression failed",
            SegmentCodecError::Protobuf => "segment protobuf is malformed",
            SegmentCodecError::Integrity => "segment integrity verification failed",
        }
    }
}

/// Outcome of decoding one column of `count` rows.
pub open spec fn expand_spec(p: Seq<u8>, d: Seq<i64>, count: int) -> Result<
    Seq<Option<i64>>,
    SegmentCodecError,
> {
    let m = present_before(p, count);
    let l = if m < d.len() { m as int } else { d.len() as int };
    if p.len() != bitmap_len(count) {
        Err(SegmentCodecError::Integrity)
    } else if prefix_overflows(d, l) {
        Err(SegmentCodecError::Overflow)
    } else if m != d.len() {
        Err(SegmentCodecError::Integrity)
    } else {
        Ok(expanded_values(p, d, count))
    }
}

proof fn lemma_bit_or(b: u8, s: u8, t: u8)
    requires
        s < 8,
        t < 8,
    ensures
        ((b | (1u8 << s)) >> t) & 1u8 == (if s == t { 1u8 } else { (b >> t) & 1u8 }),
{
    assert(((b | (1u8 << s)) >> t) & 1u8 == (if s == t { 1u8 } else { (b >> t) & 1u8 }))
        by (bit_vector)
        requires
            s < 8,
            t < 8,
    ;
}

proof fn lemma_zero_bits(t: u8)
    requires
        t < 8,
    ensures
        (0u8 >> t) & 1u8 == 0u8,
{
    assert((0u8 >> t) & 1u8 == 0u8) by (bit_vector);
}

proof fn lemma_present_values_push(values: Seq<Option<i64>>, v: Option<i64>)
    ensures
        present_values(values.push(v)) == (match v {
            Some(x) => present_values(values).push(x),
            None => present_values(values),
        }),
{
    assert(values.push(v).drop_last() =~= values);
}

proof fn lemma_delta_encode_push(pv: Seq<i64>, x: i64)
    ensures
        delta_encode(pv.push(x)) == delta_encode(pv).push(
            wrapping_delta(x, if pv.len() >= 1 { pv[pv.len() - 1] } else { 0i64 }),
        ),
{
    assert(pv.push(x).drop_last() =~= pv);
}

/// Bits of row `i` in the byte built from the low `k` rows of byte `b`.
proof fn lemma_byte_from_bits(values: Seq<Option<i64>>, b: int, k: int, t: int)
    requires
        0 <= k <= 8,
        0 <= t < 8,
        b >= 0,
    ensures
        ((byte_from_bits(values, b, k) >> (t as u8)) & 1u8 == 1u8) == (t < k && 0 <= b * 8 + t
            < values.len() && values[b * 8 + t] is Some),
    decreases k,
{
    if k > 0 {
        lemma_byte_from_bits(values, b, k - 1, t);
        let lower = byte_from_bits(values, b, k - 1);
        let row = b * 8 + k - 1;
        if 0 <= row < values.len() && values[row] is Some {
            lemma_bit_or(lower, (k - 1) as u8, t as u8);
        }
    } else {
        lemma_zero_bits(t as u8);
    }
}

/// Encodes optional integer values as a presence bitmap and the deltas between successive
/// present values, starting from zero.
pub fn column(values: &Vec<Option<i64>>) -> (r: (Vec<u8>, Vec<i64>))
    ensures
        r.0@ == column_spec(values@).0,
        r.1@ == column_spec(values@).1,
        forall|i: int| 0 <= i < values.len() ==> (bit_set(r.0@, i) <==> (#[trigger] values@[i]) is Some),
{
    let n = values.len();
    let bytes = n / 8 + if n % 8 != 0 { 1 } else { 0 };
    let mut presence: Vec<u8> = Vec::new();
    let mut b: usize = 0;
    while b < bytes
        invariant
            bytes == bitmap_len(n as int),
            n == values.len(),
            b <= bytes,
            presence.len() == b,
            forall|j: int| 0 <= j < b ==> #[trigger] presence@[j] == bitmap_byte(values@, j),
        decreases bytes - b,
    {
        let mut byte: u8 = 0;
        let mut k: usize = 0;
        while k < 8
            invariant
                k <= 8,
                b < bytes,
                bytes == bitmap_len(n as int),
                n == values.len(),
                byte == byte_from_bits(values@, b as int, k as int),
            decreases 8 - k,
        {
            let row_is_valid = k < n && b <= (n - 1 - k) / 8;
            if row_is_valid {
                proof {
                    assert(b * 8 + k <= n - 1) by (nonlinear_arith)
                        requires
                            k < n,
                            b <= (n - 1 - k) / 8,
                    ;
                }
                let row = b * 8 + k;
                if values[row].is_some() {
                    byte = byte | (1u8 << (k as u8));
                }
            } else {
                proof {
                    assert(!(0 <= b * 8 + k < values.len())) by (nonlinear_arith)
                        requires
                            !(k < n && b <= (n - 1 - k) / 8),
                            n == values.len(),
                    ;
                }
            }
            k += 1;
        }
        presence.push(byte);
        b += 1;
    }
    proof {
        assert(presence@ =~= column_spec(values@).0);
    }
    let mut deltas: Vec<i64> = Vec::new();
    let mut previous: i64 = 0;
    let mut i: usize = 0;
    while i < n
        invariant
            i <= n,
            n == values.len(),
            deltas@ == delta_encode(present_values(values@.take(i as int))),
            present_values(values@.take(i as int)).len() > 0 ==> previous == present_values(
                values@.take(i as int),
            ).last(),
            present_values(values@.take(i as int)).len() == 0 ==> previous == 0,
        decreases n - i,
    {
        proof {
            assert(values@.take(i as int + 1) =~= values@.take(i as int).push(values@[i as int]));
            lemma_present_values_push(values@.take(i as int), values@[i as int]);
        }
        match values[i] {
            Some(value) => {
                proof {
                    lemma_delta_encode_push(present_values(values@.take(i as int)), value);
                }
                deltas.push(value.wrapping_sub(previous));
                previous = value;
            },
            None => {},
        }
        i += 1;
    }
    proof {
        assert(values@.take(n as int) =~= values@);
        assert forall|i: int| 0 <= i < values.len() implies (bit_set(presence@, i) <==> (
        #[trigger] values@[i]) is Some) by {
            lemma_byte_from_bits(values@, i / 8, 8, i % 8);
        }
    }
    (presence, deltas)
}

proof fn lemma_present_before_monotone(p: Seq<u8>, a: int, b: int)
    requires
        0 <= a <= b,
    ensures
        present_before(p, a) <= present_before(p, b),
    decreases b - a,
{
    if a < b {
        lemma_present_before_monotone(p, a, b - 1);
    }
}

proof fn lemma_prefix_overflows_monotone(d: Seq<i64>, a: int, b: int)
    requires
        a <= b,
        prefix_overflows(d, a),
    ensures
        prefix_overflows(d, b),
{
    let k = choose|k: int| 1 <= k <= a && #[trigger] prefix_sum(d, k) != (prefix_sum(d, k) as i64);
    assert(1 <= k <= b && prefix_sum(d, k) != (prefix_sum(d, k) as i64));
}

proof fn lemma_prefix_overflows_step(d: Seq<i64>, j: int)
    requires
        0 <= j,
        !prefix_overflows(d, j),
        prefix_sum(d, j + 1) == (prefix_sum(d, j + 1) as i64),
    ensures
        !prefix_overflows(d, j + 1),
{
    assert forall|k: int| 1 <= k <= j + 1 implies #[trigger] prefix_sum(d, k) == (prefix_sum(d, k) as i64) by {
        if k <= j {
            assert(!(prefix_sum(d, k) != (prefix_sum(d, k) as i64)));
        }
    }
}

/// Decodes a presence bitmap and delta list back into `count` optional values.
pub fn expand(presence: &[u8], deltas: &[i64], count: usize) -> (r: Result<
    Vec<Option<i64>>,
    SegmentCodecError,
>)
    ensures
        match expand_spec(presence@, deltas@, count as int) {
            Ok(v) => r matches Ok(x) && x@ == v,
            Err(e) => r == Err::<Vec<Option<i64>>, SegmentCodecError>(e),
        },
{
    let bytes = count / 8 + if count % 8 != 0 { 1 } else { 0 };
    if presence.len() != bytes {
        return Err(SegmentCodecError::Integrity);
    }
    let ghost p = presence@;
    let ghost d = deltas@;
    let mut values: Vec<Option<i64>> = Vec::new();
    let mut delta_index: usize = 0;
    let mut previous: i64 = 0;
    let mut index: usize = 0;
    proof {
        assert(!prefix_overflows(d, 0));
    }
    while index < count
        invariant
            p == presence@,
            d == deltas@,
            p.len() == bitmap_len(count as int),
            index <= count,
            delta_index == present_before(p, index as int),
            delta_index <= d.len(),
            previous == prefix_sum(d, delta_index as int),
            !prefix_overflows(d, delta_index as int),
            values@ == expanded_values(p, d, index as int),
        decreases count - index,
    {
        proof {
            assert(index / 8 < bitmap_len(count as int)) by (nonlinear_arith)
                requires
                    index < count,
            ;
            lemma_present_before_monotone(p, index as int + 1, count as int);
        }
        let bit = (presence[index / 8] >> ((index % 8) as u8)) & 1u8;
        if bit != 1 {
            values.push(None);
        } else {
            if delta_index >= deltas.len() {
                return Err(SegmentCodecError::Integrity);
            }
            let next = match previous.checked_add(deltas[delta_index]) {
                Some(v) => v,
                None => {
                    proof {
                        assert(prefix_sum(d, delta_index as int + 1) == prefix_sum(d, delta_index as int)
                            + d[delta_index as int]);
                        assert(prefix_overflows(d, delta_index as int + 1));
                        lemma_prefix_overflows_monotone(
                            d,
                            delta_index as int + 1,
                            if present_before(p, count as int) < d.len() {
                                present_before(p, count as int) as int
                            } else {
                                d.len() as int
                            },
                        );
                    }
                    return Err(SegmentCodecError::Overflow);
                },
            };
            proof {
                assert(prefix_sum(d, delta_index as int + 1) == prefix_sum(d, delta_index as int)
                    + d[delta_index as int]);
                lemma_prefix_overflows_step(d, delta_index as int);
            }
            values.push(Some(next));
            previous = next;
            delta_index += 1;
        }
        proof {
            assert(values@ =~= expanded_values(p, d, index as int + 1));
        }
        index += 1;
    }
    if delta_index != deltas.len() {
        return Err(SegmentCodecError::Integrity);
    }
    Ok(values)
}

/// The running totals of the encoded deltas stay within `i64`, so decoding can rebuild every
/// value; this fails only when two successive present values are further apart than `i64` spans.
pub open spec fn column_decodable(values: Seq<Option<i64>>) -> bool {
    !prefix_overflows(column_spec(values).1, present_values(values).len() as int)
}

proof fn lemma_bitmap_bit(values: Seq<Option<i64>>, i: int)
    requires
        0 <= i < values.len(),
    ensures
        bit_set(column_spec(values).0, i) == values[i] is Some,
{
    let p = column_spec(values).0;
    let b = i / 8;
    let t = i % 8;
    assert(b < bitmap_len(values.len() as int));
    assert(p[b] == bitmap_byte(values, b));
    lemma_byte_from_bits(values, b, 8, t);
    assert(b * 8 + t == i);
}

proof fn lemma_present_before_column(values: Seq<Option<i64>>, n: int)
    requires
        0 <= n <= values.len(),
    ensures
        present_before(column_spec(values).0, n) == present_values(values.take(n)).len(),
    decreases n,
{
    if n > 0 {
        lemma_present_before_column(values, n - 1);
        lemma_bitmap_bit(values, n - 1);
        assert(values.take(n) =~= values.take(n - 1).push(values[n - 1]));
        lemma_present_values_push(values.take(n - 1), values[n - 1]);
    } else {
        assert(values.take(0) =~= Seq::<Option<i64>>::empty());
    }
}

proof fn lemma_present_values_prefix(values: Seq<Option<i64>>, n: int, m: int)
    requires
        0 <= n <= m <= values.len(),
    ensures
        present_values(values.take(n)).len() <= present_values(values.take(m)).len(),
        forall|k: int|
            0 <= k < present_values(values.take(n)).len() ==> present_values(values.take(m))[k]
                == #[trigger] present_values(values.take(n))[k],
    decreases m - n,
{
    if n < m {
        lemma_present_values_prefix(values, n, m - 1);
        assert(values.take(m) =~= values.take(m - 1).push(values[m - 1]));
        lemma_present_values_push(values.take(m - 1), values[m - 1]);
    }
}

proof fn lemma_delta_encode_index(pv: Seq<i64>)
    ensures
        delta_encode(pv).len() == pv.len(),
        forall|k: int|
            0 <= k < pv.len() ==> #[trigger] delta_encode(pv)[k] == wrapping_delta(
                pv[k],
                if k > 0 { pv[k - 1] } else { 0i64 },
            ),
    decreases pv.len(),
{
    if pv.len() > 0 {
        let t = pv.drop_last();
        lemma_delta_encode_index(t);
        assert forall|k: int| 0 <= k < pv.len() implies #[trigger] delta_encode(pv)[k] == wrapping_delta(
            pv[k],
            if k > 0 { pv[k - 1] } else { 0i64 },
        ) by {
            if k < pv.len() - 1 {
                assert(t[k] == pv[k]);
                if k > 0 {
                    assert(t[k - 1] == pv[k - 1]);
                }
            }
        }
    }
}

proof fn lemma_prefix_sum_decodes(pv: Seq<i64>, j: int)
    requires
        1 <= j <= pv.len(),
        !prefix_overflows(delta_encode(pv), pv.len() as int),
    ensures
        prefix_sum(delta_encode(pv), j) == pv[j - 1],
    decreases j,
{
    let d = delta_encode(pv);
    lemma_delta_encode_index(pv);
    assert(!(prefix_sum(d, j) != (prefix_sum(d, j) as i64)));
    if j > 1 {
        lemma_prefix_sum_decodes(pv, j - 1);
    }
    let previous: int = if j > 1 { pv[j - 2] as int } else { 0 };
    assert(d.len() == pv.len());
    assert(prefix_sum(d, j) == prefix_sum(d, j - 1) + d[j - 1]);
    assert(prefix_sum(d, j - 1) == previous);
    assert(prefix_sum(d, j) == previous + d[j - 1]);
    assert(d[j - 1] == wrapping_delta(pv[j - 1], if j > 1 { pv[j - 2] } else { 0i64 }));
}

/// The difference between present value `k` and the one before it.
pub open spec fn gap(pv: Seq<i64>, k: int) -> int {
    pv[k] - pv[k - 1]
}

/// Two successive values of `pv` differ by more than `i64` holds.
pub open spec fn gap_overflows(pv: Seq<i64>) -> bool {
    exists|k: int| 1 <= k < pv.len() && !(i64::MIN <= #[trigger] gap(pv, k) <= i64::MAX)
}

/// Two successive present values of a column differ by more than `i64` holds, so that their
/// delta cannot be stored.
pub open spec fn successive_gap_overflows(values: Seq<Option<i64>>) -> bool {
    gap_overflows(present_values(values))
}

proof fn lemma_prefix_sum_push(d: Seq<i64>, x: i64, k: int)
    requires
        0 <= k <= d.len(),
    ensures
        prefix_sum(d.push(x), k) == prefix_sum(d, k),
    decreases k,
{
    if k > 0 {
        lemma_prefix_sum_push(d, x, k - 1);
        assert(d.push(x)[k - 1] == d[k - 1]);
    }
}

/// The running totals of the deltas of `pv` stay within `i64` exactly when no two successive
/// values differ by more than `i64` holds; then the total of all deltas is the last value.
proof fn lemma_decodable_iff_gaps_fit(pv: Seq<i64>)
    ensures
        !prefix_overflows(delta_encode(pv), pv.len() as int) <==> !gap_overflows(pv),
        !gap_overflows(pv) && pv.len() >= 1 ==> prefix_sum(delta_encode(pv), pv.len() as int) == pv.last(),
    decreases pv.len(),
{
    let n = pv.len() as int;
    if n > 0 {
        let t = pv.drop_last();
        let x = pv.last();
        assert(pv =~= t.push(x));
        lemma_decodable_iff_gaps_fit(t);
        lemma_delta_encode_push(t, x);
        lemma_delta_encode_index(t);
        let dt = delta_encode(t);
        let d = delta_encode(pv);
        let prev: i64 = if t.len() >= 1 { t[t.len() - 1] } else { 0i64 };
        assert(d == dt.push(wrapping_delta(x, prev)));
        assert forall|k: int| 0 <= k <= n - 1 implies #[trigger] prefix_sum(d, k) == prefix_sum(dt, k) by {
            lemma_prefix_sum_push(dt, wrapping_delta(x, prev), k);
        }
        assert(prefix_sum(d, n) == prefix_sum(d, n - 1) + d[n - 1]);
        assert(d[n - 1] == wrapping_delta(x, prev));
        if gap_overflows(t) {
            let k = choose|k: int| 1 <= k < t.len() && !(i64::MIN <= #[trigger] gap(t, k) <= i64::MAX);
            assert(gap(pv, k) == gap(t, k));
            let j = choose|j: int| 1 <= j <= n - 1 && #[trigger] prefix_sum(dt, j) != (prefix_sum(dt, j) as i64);
            assert(prefix_sum(d, j) == prefix_sum(dt, j));
            assert(prefix_overflows(d, n));
        } else {
            assert(prefix_sum(dt, n - 1) == prev as int) by {
                if n - 1 == 0 {
                    assert(prefix_sum(dt, 0) == 0);
                }
            }
            assert forall|k: int| 1 <= k < n - 1 implies i64::MIN <= #[trigger] gap(pv, k) <= i64::MAX by {
                assert(gap(pv, k) == gap(t, k));
            }
            if n >= 2 && !(i64::MIN <= gap(pv, n - 1) <= i64::MAX) {
                assert(gap(pv, n - 1) == x - prev);
                assert(prefix_sum(d, n) != (prefix_sum(d, n) as i64));
                assert(gap_overflows(pv));
                assert(prefix_overflows(d, n));
            } else {
                assert(prefix_sum(d, n) == x);
                assert(!gap_overflows(pv)) by {
                    if gap_overflows(pv) {
                        let k = choose|k: int| 1 <= k < pv.len() && !(i64::MIN <= #[trigger] gap(pv, k) <= i64::MAX);
                        if k < n - 1 {
                            assert(gap(pv, k) == gap(t, k));
                        }
                    }
                }
                assert(!prefix_overflows(d, n)) by {
                    if prefix_overflows(d, n) {
                        let j = choose|j: int| 1 <= j <= n && #[trigger] prefix_sum(d, j) != (prefix_sum(d, j) as i64);
                        if j <= n - 1 {
                            assert(prefix_sum(d, j) == prefix_sum(dt, j));
                            assert(prefix_overflows(dt, n - 1));
                        }
                    }
                }
            }
        }
    }
}

/// A column can be decoded exactly when no two successive present values differ by more than
/// `i64` holds.
pub proof fn column_decodable_iff_gaps_fit(values: Seq<Option<i64>>)
    ensures
        column_decodable(values) <==> !successive_gap_overflows(values),
        column_spec(values).1.len() == present_values(values).len(),
        (forall|i: int| 0 <= i < values.len() ==> (#[trigger] values[i]) is None) ==> !successive_gap_overflows(
            values,
        ),
{
    lemma_decodable_iff_gaps_fit(present_values(values));
    lemma_delta_encode_index(present_values(values));
    if forall|i: int| 0 <= i < values.len() ==> (#[trigger] values[i]) is None {
        lemma_present_values_none(values);
    }
}

proof fn lemma_present_values_none(values: Seq<Option<i64>>)
    requires
        forall|i: int| 0 <= i < values.len() ==> (#[trigger] values[i]) is None,
    ensures
        present_values(values).len() == 0,
    decreases values.len(),
{
    if values.len() > 0 {
        let t = values.drop_last();
        assert forall|i: int| 0 <= i < t.len() implies (#[trigger] t[i]) is None by {
            assert(t[i] == values[i]);
        }
        lemma_present_values_none(t);
    }
}

/// Whether every running total of the deltas `d` stays within `i64`.
pub(crate) fn deltas_fit(d: &Vec<i64>) -> (r: bool)
    ensures
        r == !prefix_overflows(d@, d@.len() as int),
{
    let mut total: i64 = 0;
    let mut k: usize = 0;
    while k < d.len()
        invariant
            k <= d.len(),
            total == prefix_sum(d@, k as int),
            !prefix_overflows(d@, k as int),
        decreases d.len() - k,
    {
        assert(prefix_sum(d@, k + 1) == prefix_sum(d@, k as int) + d@[k as int]);
        match total.checked_add(d[k]) {
            Some(t) => {
                proof {
                    lemma_prefix_overflows_step(d@, k as int);
                }
                total = t;
            },
            None => {
                proof {
                    assert(prefix_sum(d@, k + 1) != (prefix_sum(d@, k + 1) as i64));
                    assert(prefix_overflows(d@, k + 1));
                    lemma_prefix_overflows_monotone(d@, k + 1, d@.len() as int);
                }
                return false;
            },
        }
        k += 1;
    }
    true
}

/// Decoding a column gives back exactly the values it encodes, whenever the running totals of its
/// deltas stay within `i64`.
pub proof fn column_round_trip(values: Seq<Option<i64>>)
    requires
        column_decodable(values),
    ensures
        expand_spec(column_spec(values).0, column_spec(values).1, values.len() as int) == Ok::<
            Seq<Option<i64>>,
            SegmentCodecError,
        >(values),
{
    let p = column_spec(values).0;
    let d = column_spec(values).1;
    let pv = present_values(values);
    let count = values.len() as int;
    lemma_delta_encode_index(pv);
    lemma_present_before_column(values, count);
    assert(values.take(count) =~= values);
    assert forall|i: int| 0 <= i < count implies #[trigger] expanded_values(p, d, count)[i] == values[i] by {
        lemma_bitmap_bit(values, i);
        if values[i] is Some {
            lemma_present_before_column(values, i);
            lemma_present_values_prefix(values, i + 1, count);
            assert(values.take(i + 1) =~= values.take(i).push(values[i]));
            lemma_present_values_push(values.take(i), values[i]);
            let q = present_values(values.take(i)).len() as int;
            assert(present_values(values.take(i + 1))[q] == values[i]->Some_0);
            lemma_prefix_sum_decodes(pv, q + 1);
        }
    }
    assert(expanded_values(p, d, count) =~= values);
}

} // verus!
