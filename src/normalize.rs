use vstd::prelude::*;
use vstd::relations::{sorted_by, total_ordering};
use vstd::seq_lib::lemma_sorted_unique;

use crate::config::POINTS_PER_CURVE;

verus! {

broadcast use vstd::seq_lib::group_to_multiset_ensures;

/// Number of (current, voltage) pairs decoded from a buffer of `len` bytes:
/// one per complete four-byte quad, at most `POINTS_PER_CURVE`.
pub open spec fn pair_count(len: nat) -> nat {
    if len / 4 < POINTS_PER_CURVE {
        len / 4
    } else {
        POINTS_PER_CURVE as nat
    }
}

/// The unsigned 16-bit value stored little-endian in `lo`, `hi`.
pub open spec fn le_u16(lo: u8, hi: u8) -> u16 {
    (lo as int + 256 * hi as int) as u16
}

/// Raw current samples: the first two bytes of each quad.
pub open spec fn raw_currents(data: Seq<u8>) -> Seq<u16> {
    Seq::new(pair_count(data.len()), |i: int| le_u16(data[4 * i], data[4 * i + 1]))
}

/// Raw voltage samples: the last two bytes of each quad.
pub open spec fn raw_voltages(data: Seq<u8>) -> Seq<u16> {
    Seq::new(pair_count(data.len()), |i: int| le_u16(data[4 * i + 2], data[4 * i + 3]))
}

/// The order in which samples are sorted.
pub open spec fn sample_leq() -> spec_fn(u16, u16) -> bool {
    |a: u16, b: u16| a <= b
}

/// The median used for centring: the element at index `len / 2` of the sorted
/// samples (the lower middle one for an even count).
pub open spec fn median(s: Seq<u16>) -> u16 {
    s.sort_by(sample_leq())[s.len() as int / 2]
}

/// The samples with their median subtracted, in the order they came.
pub open spec fn centered(s: Seq<u16>) -> Seq<int> {
    Seq::new(s.len(), |i: int| s[i] as int - median(s) as int)
}

/// Largest absolute value in `s`, zero for an empty sequence.
pub open spec fn max_abs(s: Seq<int>) -> nat
    decreases s.len(),
{
    if s.len() == 0 {
        0
    } else {
        let a = if s.last() < 0 { -s.last() } else { s.last() };
        let m = max_abs(s.drop_last());
        if a > m { a as nat } else { m }
    }
}

/// The common divisor of all centred values: the largest magnitude among
/// both sequences, and never below one.
pub open spec fn scale_of(current: Seq<int>, voltage: Seq<int>) -> nat {
    let m = if max_abs(current) > max_abs(voltage) { max_abs(current) } else { max_abs(voltage) };
    if m > 1 { m } else { 1 }
}

/// The values of a sequence of `i32`, as integers.
pub open spec fn ints(s: Seq<i32>) -> Seq<int> {
    Seq::new(s.len(), |i: int| s[i] as int)
}

/// A normalised curve. The display value of sample `i` is
/// `voltage[i] / scale` (resp. `current[i] / scale`); the division is left to
/// the consumer, so that the values here are exact.
pub struct NormalizedCurve {
    pub voltage: Vec<i32>,
    pub current: Vec<i32>,
    pub scale: u32,
}

/// Why a buffer could not be normalised.
#[derive(Debug, Clone, Copy, PartialEq, Eq, Structural)]
pub enum NormalizeError {
    /// The buffer does not hold a single complete quad.
    NoData,
}

/// `n` is the normalisation of the raw buffer `data`.
pub open spec fn normalized(data: Seq<u8>, n: NormalizedCurve) -> bool {
    let c = centered(raw_currents(data));
    let v = centered(raw_voltages(data));
    &&& ints(n.current@) == c
    &&& ints(n.voltage@) == v
    &&& n.scale as nat == scale_of(c, v)
}

/// Centred 16-bit samples lie strictly between -65536 and 65536.
proof fn lemma_centered_bounds(s: Seq<u16>)
    ensures
        forall|i: int| 0 <= i < s.len() ==> -65536 < #[trigger] centered(s)[i] < 65536,
{
}

/// Relies on byteorder's `LittleEndian::read_u16`, which reads the first two
/// bytes of `buf` as a little-endian `u16` and panics when fewer are given.
#[verifier::external_body]
fn read_u16_le(buf: &[u8]) -> (r: u16)
    requires
        buf@.len() >= 2,
    ensures
        r == le_u16(buf@[0], buf@[1]),
{
    <byteorder::LittleEndian as byteorder::ByteOrder>::read_u16(buf)
}

/// Decodes the (current, voltage) pairs of a raw frame buffer.
pub fn decode_pairs(data: &[u8]) -> (r: (Vec<u16>, Vec<u16>))
    ensures
        r.0@ == raw_currents(data@),
        r.1@ == raw_voltages(data@),
{
    let mut currents: Vec<u16> = Vec::new();
    let mut voltages: Vec<u16> = Vec::new();
    let mut off: usize = 0;
    let mut count: usize = 0;
    while count < POINTS_PER_CURVE && off + 4 <= data.len()
        invariant
            off == 4 * count,
            off <= data@.len(),
            count <= POINTS_PER_CURVE,
            count <= pair_count(data@.len()),
            currents@ == raw_currents(data@).take(count as int),
            voltages@ == raw_voltages(data@).take(count as int),
        decreases POINTS_PER_CURVE - count,
    {
        let c = read_u16_le(&data[off..off + 2]);
        let v = read_u16_le(&data[off + 2..off + 4]);
        currents.push(c);
        voltages.push(v);
        assert(currents@ =~= raw_currents(data@).take(count + 1));
        assert(voltages@ =~= raw_voltages(data@).take(count + 1));
        off = off + 4;
        count = count + 1;
    }
    assert(count == pair_count(data@.len()));
    assert(currents@ =~= raw_currents(data@));
    assert(voltages@ =~= raw_voltages(data@));
    (currents, voltages)
}

proof fn lemma_sample_leq_total()
    ensures
        total_ordering(sample_leq()),
{
}

/// The sorted samples: a sorted sequence with the same elements is the one
/// `sort_by` describes.
proof fn lemma_sorted_is_sort_by(s: Seq<u16>, t: Seq<u16>)
    requires
        sorted_by(t, sample_leq()),
        t.to_multiset() == s.to_multiset(),
    ensures
        t == s.sort_by(sample_leq()),
{
    lemma_sample_leq_total();
    s.lemma_sort_by_ensures(sample_leq());
    lemma_sorted_unique(t, s.sort_by(sample_leq()), sample_leq());
}

/// Returns the samples sorted in ascending order.
pub fn sort_samples(s: &Vec<u16>) -> (r: Vec<u16>)
    ensures
        r@ == s@.sort_by(sample_leq()),
{
    let mut out: Vec<u16> = Vec::new();
    let mut i: usize = 0;
    while i < s.len()
        invariant
            i <= s@.len(),
            out@.len() == i,
            sorted_by(out@, sample_leq()),
            out@.to_multiset() == s@.take(i as int).to_multiset(),
        decreases s@.len() - i,
    {
        let x = s[i];
        let mut pos: usize = 0;
        while pos < out.len() && out[pos] <= x
            invariant
                pos <= out@.len(),
                forall|k: int| 0 <= k < pos ==> out@[k] <= x,
            decreases out@.len() - pos,
        {
            pos += 1;
        }
        proof {
            assert forall|k: int| pos <= k < out@.len() implies x < out@[k] by {
                if pos < out@.len() {
                    assert(sample_leq()(out@[pos as int], out@[k]) || k == pos);
                }
            }
        }
        let ghost before = out@;
        out.insert(pos, x);
        proof {
            assert(s@.take(i + 1) =~= s@.take(i as int).push(x));
            assert forall|a: int, b: int| 0 <= a < b < out@.len() implies
                #[trigger] sample_leq()(out@[a], out@[b]) by {
                if b < pos {
                    assert(sample_leq()(before[a], before[b]));
                } else if a > pos {
                    assert(sample_leq()(before[a - 1], before[b - 1]));
                } else if a == pos {
                } else {
                }
            }
        }
        i += 1;
    }
    proof {
        assert(s@.take(s@.len() as int) =~= s@);
        lemma_sorted_is_sort_by(s@, out@);
    }
    out
}

/// The median of a non-empty sequence of samples.
pub fn median_of(s: &Vec<u16>) -> (r: u16)
    requires
        s@.len() > 0,
    ensures
        r == median(s@),
{
    let sorted = sort_samples(s);
    proof {
        s@.lemma_sort_by_ensures(sample_leq());
        assert(sorted@.len() == sorted@.to_multiset().len());
    }
    sorted[s.len() / 2]
}

/// Subtracts the median from every sample, keeping the order.
pub fn center(s: &Vec<u16>) -> (r: Vec<i32>)
    requires
        s@.len() > 0,
    ensures
        ints(r@) == centered(s@),
{
    let m = median_of(s);
    let mut out: Vec<i32> = Vec::new();
    let mut i: usize = 0;
    while i < s.len()
        invariant
            i <= s@.len(),
            m == median(s@),
            out@.len() == i,
            ints(out@) == centered(s@).take(i as int),
        decreases s@.len() - i,
    {
        let ghost prev = out@;
        out.push(s[i] as i32 - m as i32);
        assert forall|k: int| 0 <= k < i implies ints(out@)[k] == centered(s@)[k] by {
            assert(out@[k] == prev[k]);
            assert(ints(prev)[k] == centered(s@).take(i as int)[k]);
        }
        assert(ints(out@) =~= centered(s@).take(i + 1));
        i += 1;
    }
    assert(ints(out@) =~= centered(s@));
    out
}

/// Largest absolute value among `v`.
pub fn max_magnitude(v: &Vec<i32>) -> (r: u32)
    requires
        forall|i: int| 0 <= i < v@.len() ==> -65536 < #[trigger] v@[i] < 65536,
    ensures
        r as nat == max_abs(ints(v@)),
        r < 65536,
{
    let mut m: u32 = 0;
    let mut i: usize = 0;
    while i < v.len()
        invariant
            i <= v@.len(),
            forall|i: int| 0 <= i < v@.len() ==> -65536 < #[trigger] v@[i] < 65536,
            m as nat == max_abs(ints(v@).take(i as int)),
            m < 65536,
        decreases v@.len() - i,
    {
        let x = v[i];
        let a: u32 = if x < 0 { (-x) as u32 } else { x as u32 };
        assert(ints(v@).take(i + 1).drop_last() =~= ints(v@).take(i as int));
        if a > m {
            m = a;
        }
        i += 1;
    }
    assert(ints(v@).take(v@.len() as int) =~= ints(v@));
    m
}

/// Decodes a raw frame buffer and centres each of its two sample series on
/// its own median. The result carries voltage first, then current, and the
/// common scale that brings every value into `[-1, 1]`.
pub fn parse_and_normalize_curve_data(data: &[u8]) -> (r: Result<NormalizedCurve, NormalizeError>)
    ensures
        pair_count(data@.len()) == 0 <==> r is Err,
        r is Err ==> r == Err::<NormalizedCurve, NormalizeError>(NormalizeError::NoData),
        r is Ok ==> normalized(data@, r->Ok_0),
{
    let (currents, voltages) = decode_pairs(data);
    if currents.len() == 0 {
        return Err(NormalizeError::NoData);
    }
    let i_vec = center(&currents);
    let v_vec = center(&voltages);
    proof {
        lemma_centered_bounds(currents@);
        lemma_centered_bounds(voltages@);
        assert forall|i: int| 0 <= i < i_vec@.len() implies -65536 < #[trigger] i_vec@[i] < 65536 by {
            assert(ints(i_vec@).len() == centered(currents@).len());
            assert(ints(i_vec@)[i] == centered(currents@)[i]);
            assert(ints(i_vec@)[i] == i_vec@[i] as int);
        }
        assert forall|i: int| 0 <= i < v_vec@.len() implies -65536 < #[trigger] v_vec@[i] < 65536 by {
            assert(ints(v_vec@).len() == centered(voltages@).len());
            assert(ints(v_vec@)[i] == centered(voltages@)[i]);
            assert(ints(v_vec@)[i] == v_vec@[i] as int);
        }
    }
    let max_i = max_magnitude(&i_vec);
    let max_v = max_magnitude(&v_vec);
    let m = if max_i > max_v { max_i } else { max_v };
    let scale = if m > 1 { m } else { 1 };
    Ok(NormalizedCurve { voltage: v_vec, current: i_vec, scale })
}

/// Mapping every element of two sequences with the same elements gives two
/// sequences with the same elements.
proof fn lemma_map_same_elements(x: Seq<u16>, y: Seq<u16>, f: spec_fn(u16) -> u16)
    requires
        x.to_multiset() == y.to_multiset(),
    ensures
        x.map_values(f).to_multiset() == y.map_values(f).to_multiset(),
    decreases x.len(),
{
    broadcast use vstd::multiset::group_multiset_axioms;

    if x.len() == 0 {
        assert(x.to_multiset().len() == 0);
        assert(y.to_multiset().len() == y.len());
        assert(x.map_values(f) =~= y.map_values(f));
    } else {
        let v = x[0];
        assert(x.to_multiset().count(v) > 0);
        assert(y.contains(v));
        let m = choose|m: int| 0 <= m < y.len() && y[m] == v;
        let x1 = x.remove(0);
        let y1 = y.remove(m);
        assert(x1.to_multiset() == x.to_multiset().remove(v));
        assert(y1.to_multiset() == y.to_multiset().remove(v));
        lemma_map_same_elements(x1, y1, f);
        let fx = x.map_values(f);
        let fy = y.map_values(f);
        assert(fx.remove(0) =~= x1.map_values(f));
        assert(fy.remove(m) =~= y1.map_values(f));
        assert(fx.remove(0).to_multiset() == fx.to_multiset().remove(f(v)));
        assert(fy.remove(m).to_multiset() == fy.to_multiset().remove(f(v)));
        assert(fx.to_multiset().count(f(v)) > 0);
        assert(fy.to_multiset().count(f(v)) > 0);
        let mx = fx.to_multiset();
        let my = fy.to_multiset();
        assert forall|z: u16| mx.count(z) == my.count(z) by {
            assert(mx.remove(f(v)).count(z) == my.remove(f(v)).count(z));
        }
        assert(mx =~= my);
    }
}

/// Every element of the sorted samples is one of the samples.
proof fn lemma_sorted_element_in(s: Seq<u16>, i: int)
    requires
        0 <= i < s.len(),
    ensures
        s.sort_by(sample_leq()).len() == s.len(),
        exists|j: int| 0 <= j < s.len() && s[j] == #[trigger] s.sort_by(sample_leq())[i],
{
    let ss = s.sort_by(sample_leq());
    s.lemma_sort_by_ensures(sample_leq());
    assert(ss.len() == ss.to_multiset().len());
    assert(ss.to_multiset().count(ss[i]) > 0);
    assert(s.contains(ss[i]));
}

/// Shifting every sample by the same amount shifts the median by it.
pub proof fn lemma_median_shift(s: Seq<u16>, t: Seq<u16>, k: int)
    requires
        t.len() == s.len(),
        s.len() > 0,
        forall|i: int| 0 <= i < s.len() ==> #[trigger] t[i] as int == s[i] as int + k,
    ensures
        median(t) as int == median(s) as int + k,
{
    let f = |v: u16| (v as int + k) as u16;
    let ss = s.sort_by(sample_leq());
    s.lemma_sort_by_ensures(sample_leq());
    assert(ss.len() == ss.to_multiset().len());
    assert forall|i: int| 0 <= i < ss.len() implies 0 <= #[trigger] ss[i] as int + k <= 0xffff by {
        lemma_sorted_element_in(s, i);
        let j = choose|j: int| 0 <= j < s.len() && s[j] == ss[i];
        assert(t[j] as int == s[j] as int + k);
    }
    let ts = ss.map_values(f);
    assert(t =~= s.map_values(f));
    lemma_map_same_elements(ss, s, f);
    assert forall|a: int, b: int| 0 <= a < b < ts.len() implies #[trigger] sample_leq()(ts[a], ts[b]) by {
        assert(sample_leq()(ss[a], ss[b]));
    }
    lemma_sorted_is_sort_by(t, ts);
}

/// Normalisation ignores a constant offset: adding the same amount to every
/// raw current, and another to every raw voltage, changes nothing in the
/// normalised curve.
pub proof fn lemma_offset_invariance(d1: Seq<u8>, d2: Seq<u8>, kc: int, kv: int)
    requires
        pair_count(d1.len()) == pair_count(d2.len()),
        forall|i: int| 0 <= i < pair_count(d1.len()) ==>
            #[trigger] raw_currents(d2)[i] as int == raw_currents(d1)[i] as int + kc,
        forall|i: int| 0 <= i < pair_count(d1.len()) ==>
            #[trigger] raw_voltages(d2)[i] as int == raw_voltages(d1)[i] as int + kv,
    ensures
        centered(raw_currents(d2)) == centered(raw_currents(d1)),
        centered(raw_voltages(d2)) == centered(raw_voltages(d1)),
        forall|n: NormalizedCurve| normalized(d1, n) <==> #[trigger] normalized(d2, n),
{
    let c1 = raw_currents(d1);
    let c2 = raw_currents(d2);
    let v1 = raw_voltages(d1);
    let v2 = raw_voltages(d2);
    if pair_count(d1.len()) > 0 {
        lemma_median_shift(c1, c2, kc);
        lemma_median_shift(v1, v2, kv);
    }
    assert(centered(c2) =~= centered(c1));
    assert(centered(v2) =~= centered(v1));
}

/// When every raw current is the same and every raw voltage is the same,
/// all normalised values are zero and the scale is one, so nothing is
/// divided by zero.
pub proof fn lemma_constant_input(data: Seq<u8>)
    requires
        forall|i: int| 0 <= i < pair_count(data.len()) ==>
            #[trigger] raw_currents(data)[i] == raw_currents(data)[0],
        forall|i: int| 0 <= i < pair_count(data.len()) ==>
            #[trigger] raw_voltages(data)[i] == raw_voltages(data)[0],
    ensures
        forall|n: NormalizedCurve| #[trigger] normalized(data, n) ==> {
            &&& forall|i: int| 0 <= i < n.current@.len() ==> #[trigger] n.current@[i] == 0
            &&& forall|i: int| 0 <= i < n.voltage@.len() ==> #[trigger] n.voltage@[i] == 0
            &&& n.scale == 1
        },
{
    lemma_constant_centered(raw_currents(data));
    lemma_constant_centered(raw_voltages(data));
    assert forall|n: NormalizedCurve| #[trigger] normalized(data, n) implies {
        &&& forall|i: int| 0 <= i < n.current@.len() ==> #[trigger] n.current@[i] == 0
        &&& forall|i: int| 0 <= i < n.voltage@.len() ==> #[trigger] n.voltage@[i] == 0
        &&& n.scale == 1
    } by {
        assert forall|i: int| 0 <= i < n.current@.len() implies #[trigger] n.current@[i] == 0 by {
            assert(ints(n.current@)[i] == centered(raw_currents(data))[i]);
        }
        assert forall|i: int| 0 <= i < n.voltage@.len() implies #[trigger] n.voltage@[i] == 0 by {
            assert(ints(n.voltage@)[i] == centered(raw_voltages(data))[i]);
        }
    }
}

/// A constant sequence is centred to zeros, whose largest magnitude is zero.
proof fn lemma_constant_centered(s: Seq<u16>)
    requires
        forall|i: int| 0 <= i < s.len() ==> #[trigger] s[i] == s[0],
    ensures
        forall|i: int| 0 <= i < s.len() ==> #[trigger] centered(s)[i] == 0,
        max_abs(centered(s)) == 0,
{
    if s.len() > 0 {
        lemma_sorted_element_in(s, s.len() as int / 2);
    }
    lemma_max_abs_zeros(centered(s));
}

proof fn lemma_max_abs_zeros(s: Seq<int>)
    requires
        forall|i: int| 0 <= i < s.len() ==> #[trigger] s[i] == 0,
    ensures
        max_abs(s) == 0,
    decreases s.len(),
{
    if s.len() > 0 {
        lemma_max_abs_zeros(s.drop_last());
    }
}

} // verus!
