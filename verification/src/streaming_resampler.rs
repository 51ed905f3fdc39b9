//! Streaming sample-rate conversion by linear interpolation.
//!
//! The read position is kept as an exact fraction, so the number of output
//! samples and the place each one is read from do not depend on how the
//! input stream is cut into chunks.

use vstd::prelude::*;
use vstd::arithmetic::div_mod::*;
use vstd::arithmetic::mul::*;

verus! {

/// The fraction `n / d` rounded to the nearest integer, halves away from zero.
pub open spec fn round_half_away(n: int, d: int) -> int
    recommends
        d > 0,
{
    if n >= 0 {
        (2 * n + d) / (2 * d)
    } else {
        -((d - 2 * n) / (2 * d))
    }
}

/// The point `a + (num / den) * (b - a)` between two samples, rounded to the
/// nearest integer.
pub open spec fn interpolate(a: i16, b: i16, num: int, den: int) -> int
    recommends
        0 <= num < den,
{
    round_half_away(a * den + (b - a) * num, den)
}

/// What a resampler remembers between two chunks.
///
/// Positions are measured in units of `1 / output_rate` of an input sample,
/// so that one output sample advances the position by exactly `input_rate`.
pub struct ResamplerModel {
    /// Rate of the input stream in Hz.
    pub input_rate: nat,
    /// Rate of the output stream in Hz.
    pub output_rate: nat,
    /// Position of the next output sample, counted from the start of the
    /// next chunk.
    pub phase: nat,
    /// Last sample of the previous chunk, if there was one.
    pub carried: Option<i16>,
}

impl ResamplerModel {
    /// Both rates are positive and the next output lies less than one output
    /// period past the end of what was consumed.
    pub open spec fn wf(self) -> bool {
        &&& 0 < self.input_rate
        &&& 0 < self.output_rate
        &&& self.phase < self.input_rate
    }

    /// The state of a resampler that has seen no input.
    pub open spec fn fresh(input_rate: nat, output_rate: nat) -> ResamplerModel {
        ResamplerModel { input_rate, output_rate, phase: 0, carried: None }
    }

    /// Read position of the `k`-th output sample of the next chunk.
    pub open spec fn position(self, k: nat) -> nat {
        self.phase + k * self.input_rate
    }

    /// Number of output samples produced by a chunk of `n` input samples:
    /// the least `c` with `position(c) >= n * output_rate`.
    pub open spec fn output_count(self, n: nat) -> nat {
        if self.phase >= n * self.output_rate {
            0
        } else {
            ((n * self.output_rate - self.phase + self.input_rate - 1) / (
            self.input_rate as int)) as nat
        }
    }

    /// Whether the `k`-th output sample starts from the carried sample
    /// instead of the first sample of the chunk: it is read at index 0, less
    /// than a thousandth of a sample into the chunk.
    pub open spec fn bridges(self, k: nat) -> bool {
        &&& self.position(k) / self.output_rate == 0
        &&& (self.position(k) % self.output_rate) * 1000 < self.output_rate
    }

    /// The sample that stands in front of `input`: the carried one, or the
    /// first of `input` on the very first chunk.
    pub open spec fn lead_in(self, input: Seq<i16>) -> i16
        recommends
            input.len() > 0,
    {
        match self.carried {
            Some(s) => s,
            None => input[0],
        }
    }

    /// Value of the `k`-th output sample of the chunk `input`.
    pub open spec fn output_sample(self, input: Seq<i16>, k: nat) -> i16
        recommends
            self.wf(),
            input.len() > 0,
    {
        let index = (self.position(k) / self.output_rate) as int;
        let num = (self.position(k) % self.output_rate) as int;
        let a = if self.bridges(k) {
            self.lead_in(input)
        } else {
            input[index]
        };
        let b = if index + 1 < input.len() {
            input[index + 1]
        } else {
            input[index]
        };
        interpolate(a, b, num, self.output_rate as int) as i16
    }

    /// All output samples of the chunk `input`, in order.
    pub open spec fn outputs(self, input: Seq<i16>) -> Seq<i16> {
        Seq::new(self.output_count(input.len()), |k: int| self.output_sample(input, k as nat))
    }

    /// The state after the chunk `input` was consumed.
    pub open spec fn advance(self, input: Seq<i16>) -> ResamplerModel {
        if input.len() == 0 {
            self
        } else {
            ResamplerModel {
                phase: (self.position(self.output_count(input.len())) - input.len()
                    * self.output_rate) as nat,
                carried: Some(input.last()),
                ..self
            }
        }
    }
}

/// A rounded fraction lies between the bounds of the fraction itself.
pub proof fn lemma_round_half_away_bounds(n: int, d: int, lo: int, hi: int)
    requires
        d > 0,
        lo * d <= n <= hi * d,
    ensures
        lo <= round_half_away(n, d) <= hi,
{
    if n >= 0 {
        let q = (2 * n + d) / (2 * d);
        lemma_fundamental_div_mod(2 * n + d, 2 * d);
        lemma_mod_bound(2 * n + d, 2 * d);
        assert(q <= hi) by (nonlinear_arith)
            requires
                d > 0,
                n <= hi * d,
                2 * n + d == (2 * d) * q + (2 * n + d) % (2 * d),
                0 <= (2 * n + d) % (2 * d),
        ;
        assert(lo <= q) by (nonlinear_arith)
            requires
                d > 0,
                lo * d <= n,
                2 * n + d == (2 * d) * q + (2 * n + d) % (2 * d),
                (2 * n + d) % (2 * d) < 2 * d,
        ;
    } else {
        let q = (d - 2 * n) / (2 * d);
        lemma_fundamental_div_mod(d - 2 * n, 2 * d);
        lemma_mod_bound(d - 2 * n, 2 * d);
        assert(-q <= hi) by (nonlinear_arith)
            requires
                d > 0,
                n <= hi * d,
                d - 2 * n == (2 * d) * q + (d - 2 * n) % (2 * d),
                (d - 2 * n) % (2 * d) < 2 * d,
        ;
        assert(lo <= -q) by (nonlinear_arith)
            requires
                d > 0,
                lo * d <= n,
                d - 2 * n == (2 * d) * q + (d - 2 * n) % (2 * d),
                0 <= (d - 2 * n) % (2 * d),
        ;
    }
}

/// An interpolated sample lies between the two samples it is taken from.
pub proof fn lemma_interpolate_between(a: i16, b: i16, num: int, den: int)
    requires
        0 <= num < den,
    ensures
        a <= b ==> a <= interpolate(a, b, num, den) <= b,
        b <= a ==> b <= interpolate(a, b, num, den) <= a,
        num == 0 ==> interpolate(a, b, num, den) == a,
{
    let n = a * den + (b - a) * num;
    if a <= b {
        assert(a * den <= n <= b * den) by (nonlinear_arith)
            requires
                n == a * den + (b - a) * num,
                0 <= num < den,
                a <= b,
        ;
        lemma_round_half_away_bounds(n, den, a as int, b as int);
    }
    if b <= a {
        assert(b * den <= n <= a * den) by (nonlinear_arith)
            requires
                n == a * den + (b - a) * num,
                0 <= num < den,
                b <= a,
        ;
        lemma_round_half_away_bounds(n, den, b as int, a as int);
    }
    if num == 0 {
        assert((b - a) * num == 0) by (nonlinear_arith)
            requires
                num == 0,
        ;
        lemma_round_half_away_bounds(n, den, a as int, a as int);
    }
}

/// `output_count` is the number of read positions that fall inside the chunk.
pub proof fn lemma_output_count_is_least(m: ResamplerModel, n: nat)
    requires
        m.wf(),
    ensures
        forall|k: nat| k < m.output_count(n) <==> #[trigger] m.position(k) < n * m.output_rate,
{
    let step = m.input_rate as int;
    let end = (n * m.output_rate) as int;
    let c = m.output_count(n) as int;
    if m.phase >= end {
        assert forall|k: nat| k < m.output_count(n) <==> #[trigger] m.position(k) < end by {
            assert(k * step >= 0) by (nonlinear_arith)
                requires
                    step > 0,
                    k >= 0,
            ;
        }
    } else {
        let gap = end - m.phase;
        lemma_fundamental_div_mod(gap + step - 1, step);
        lemma_mod_bound(gap + step - 1, step);
        let r = (gap + step - 1) % step;
        assert(gap + step - 1 == step * c + r);
        assert forall|k: nat| k < m.output_count(n) <==> #[trigger] m.position(k) < end by {
            if k < c {
                assert(k * step < gap) by (nonlinear_arith)
                    requires
                        k + 1 <= c,
                        step > 0,
                        gap + step - 1 == step * c + r,
                        0 <= r,
                ;
            } else {
                assert(k * step >= gap) by (nonlinear_arith)
                    requires
                        k >= c,
                        step > 0,
                        gap + step - 1 == step * c + r,
                        r < step,
                ;
            }
        }
    }
}

/// Converter from one sample rate to another, fed chunk by chunk.
pub struct StreamingResampler {
    input_rate: u32,
    output_rate: u32,
    phase: u32,
    prev_sample: i16,
    initialized: bool,
}

impl View for StreamingResampler {
    type V = ResamplerModel;

    closed spec fn view(&self) -> ResamplerModel {
        ResamplerModel {
            input_rate: self.input_rate as nat,
            output_rate: self.output_rate as nat,
            phase: self.phase as nat,
            carried: if self.initialized {
                Some(self.prev_sample)
            } else {
                None
            },
        }
    }
}

/// Computes `interpolate` in machine integers.
fn lerp(a: i16, b: i16, num: u32, den: u32) -> (r: i16)
    requires
        num < den,
    ensures
        r == interpolate(a, b, num as int, den as int),
{
    let d: i64 = den as i64;
    let t: i64 = num as i64;
    proof {
        lemma_interpolate_between(a, b, num as int, den as int);
        assert(-0x8000_0000_0000 <= a * d <= 0x8000_0000_0000) by (nonlinear_arith)
            requires
                -0x8000 <= a <= 0x7fff,
                0 < d <= 0xffff_ffff,
        ;
        assert(-0x1_0000_0000_0000 <= (b - a) * t <= 0x1_0000_0000_0000) by (nonlinear_arith)
            requires
                -0xffff <= b - a <= 0xffff,
                0 <= t <= 0xffff_ffff,
        ;
    }
    let w: i64 = (a as i64) * d + ((b as i64) - (a as i64)) * t;
    let twice: u64 = 2 * (den as u64);
    if w >= 0 {
        let q: u64 = (2 * (w as u64) + (den as u64)) / twice;
        q as i16
    } else {
        let q: u64 = ((den as u64) + 2 * ((-w) as u64)) / twice;
        (-(q as i64)) as i16
    }
}

impl StreamingResampler {
    #[verifier::type_invariant]
    spec fn inv(&self) -> bool {
        self@.wf()
    }

    /// Creates a resampler from `input_rate` Hz to `output_rate` Hz that has
    /// seen no input.
    pub fn new(input_rate: u32, output_rate: u32) -> (r: Self)
        requires
            input_rate > 0,
            output_rate > 0,
        ensures
            r@ == ResamplerModel::fresh(input_rate as nat, output_rate as nat),
            r@.wf(),
    {
        StreamingResampler { input_rate, output_rate, phase: 0, prev_sample: 0, initialized: false }
    }

    /// Rate of the input stream in Hz.
    pub fn input_rate(&self) -> (r: u32)
        ensures
            r == self@.input_rate,
            self@.wf(),
    {
        proof {
            use_type_invariant(self);
        }
        self.input_rate
    }

    /// Rate of the output stream in Hz.
    pub fn output_rate(&self) -> (r: u32)
        ensures
            r == self@.output_rate,
            self@.wf(),
    {
        proof {
            use_type_invariant(self);
        }
        self.output_rate
    }

    /// Converts one chunk and returns every output sample whose read
    /// position falls inside it. The position carries over to the next
    /// chunk, and so does the last sample of `input`.
    pub fn resample(&mut self, input: &[i16]) -> (output: Vec<i16>)
        ensures
            output@ == old(self)@.outputs(input@),
            final(self)@ == old(self)@.advance(input@),
            final(self)@.wf(),
    {
        proof {
            use_type_invariant(&*self);
        }
        let ghost model = self@;
        let n: usize = input.len();
        let mut output: Vec<i16> = Vec::new();
        if n == 0 {
            assert(model.output_count(0) == 0) by (nonlinear_arith)
                requires
                    model.output_count(0) == if model.phase >= 0 * model.output_rate {
                        0
                    } else {
                        ((0 * model.output_rate - model.phase + model.input_rate - 1) / (
                        model.input_rate as int)) as nat
                    },
            ;
            return output;
        }
        let step: u128 = self.input_rate as u128;
        let unit: u128 = self.output_rate as u128;
        assert(n * unit <= 0xffff_ffff_ffff_ffff * 0xffff_ffff) by (nonlinear_arith)
            requires
                0 <= n <= 0xffff_ffff_ffff_ffff,
                0 <= unit <= 0xffff_ffff,
        ;
        let end: u128 = (n as u128) * unit;
        let lead_in: i16 = if self.initialized {
            self.prev_sample
        } else {
            input[0]
        };
        let mut pos: u128 = self.phase as u128;
        assert(pos == model.position(0)) by (nonlinear_arith)
            requires
                pos == model.phase,
                model.position(0) == model.phase + 0 * model.input_rate,
        ;
        while pos < end
            invariant
                model.wf(),
                model == old(self)@,
                self.output_rate == model.output_rate,
                step == model.input_rate,
                unit == model.output_rate,
                n == input@.len(),
                n > 0,
                end == n * unit,
                end <= 0xffff_ffff_ffff_ffff * 0xffff_ffff,
                lead_in == model.lead_in(input@),
                pos == model.position(output@.len()),
                output@.len() == 0 ==> pos == model.phase,
                output@.len() > 0 ==> pos - step < end,
                forall|k: int|
                    0 <= k < output@.len() ==> output@[k] == model.output_sample(input@, k as nat),
            decreases end + step - pos,
        {
            let ghost k = output@.len();
            let quotient: u128 = pos / unit;
            let remainder: u128 = pos % unit;
            proof {
                lemma_fundamental_div_mod(pos as int, unit as int);
                lemma_mod_bound(pos as int, unit as int);
                assert(pos / unit < n) by (nonlinear_arith)
                    requires
                        pos < n * unit,
                        unit > 0,
                        pos == unit * (pos / unit) + pos % unit,
                        0 <= pos % unit,
                ;
            }
            let index: usize = quotient as usize;
            let num: u32 = remainder as u32;
            let a: i16 = if index == 0 && (num as u64) * 1000 < (unit as u64) {
                lead_in
            } else {
                input[index]
            };
            let b: i16 = if index + 1 < n {
                input[index + 1]
            } else {
                input[index]
            };
            let sample: i16 = lerp(a, b, num, self.output_rate);
            output.push(sample);
            assert(model.position(k + 1) == model.position(k) + model.input_rate)
                by (nonlinear_arith)
                requires
                    model.position(k + 1) == model.phase + (k + 1) * model.input_rate,
                    model.position(k) == model.phase + k * model.input_rate,
            ;
            pos = pos + step;
        }
        proof {
            let c = output@.len();
            if c > 0 {
                assert(model.position((c - 1) as nat) + model.input_rate == model.position(c))
                    by (nonlinear_arith)
                    requires
                        c > 0,
                        model.position((c - 1) as nat) == model.phase + (c - 1) * model.input_rate,
                        model.position(c) == model.phase + c * model.input_rate,
                ;
            }
            lemma_output_count_unique(model, n as nat, c);
        }
        self.phase = (pos - end) as u32;
        self.prev_sample = input[n - 1];
        self.initialized = true;
        output
    }

    /// Forgets the read position and the carried sample, as if no input had
    /// been seen. The rates stay.
    pub fn reset(&mut self)
        ensures
            final(self)@ == ResamplerModel::fresh(old(self)@.input_rate, old(self)@.output_rate),
            final(self)@.wf(),
    {
        proof {
            use_type_invariant(&*self);
        }
        self.phase = 0;
        self.prev_sample = 0;
        self.initialized = false;
    }
}

/// Read positions grow with the index of the output sample.
pub proof fn lemma_position_monotonic(m: ResamplerModel, j: nat, k: nat)
    requires
        j <= k,
    ensures
        m.position(j) <= m.position(k),
{
    assert(j * m.input_rate <= k * m.input_rate) by (nonlinear_arith)
        requires
            j <= k,
            m.input_rate >= 0,
    ;
}

/// The number of output samples is the least count whose read position
/// lies at or behind the end of the chunk.
pub proof fn lemma_output_count_unique(m: ResamplerModel, n: nat, c: nat)
    requires
        m.wf(),
        m.position(c) >= n * m.output_rate,
        c > 0 ==> m.position((c - 1) as nat) < n * m.output_rate,
    ensures
        c == m.output_count(n),
{
    lemma_output_count_is_least(m, n);
    let want = m.output_count(n);
    if want < c {
        lemma_position_monotonic(m, want, (c - 1) as nat);
        assert(m.position(want) < n * m.output_rate);
    }
    if c < want {
        assert(m.position(c) < n * m.output_rate);
    }
}

/// The state after a chunk is well formed, and its phase is the distance
/// from the end of the chunk to the first read position behind it.
pub proof fn lemma_advance_wf(m: ResamplerModel, input: Seq<i16>)
    requires
        m.wf(),
    ensures
        m.advance(input).wf(),
        m.advance(input).input_rate == m.input_rate,
        m.advance(input).output_rate == m.output_rate,
        m.advance(input).phase + input.len() * m.output_rate == m.position(
            m.output_count(input.len()),
        ),
{
    let n = input.len();
    let c = m.output_count(n);
    lemma_output_count_is_least(m, n);
    assert(!(m.position(c) < n * m.output_rate));
    if c > 0 {
        assert(m.position((c - 1) as nat) < n * m.output_rate);
        assert(m.position((c - 1) as nat) + m.input_rate == m.position(c)) by (nonlinear_arith)
            requires
                c > 0,
                m.position((c - 1) as nat) == m.phase + (c - 1) * m.input_rate,
                m.position(c) == m.phase + c * m.input_rate,
        ;
    } else {
        assert(m.position(0) == m.phase) by (nonlinear_arith)
            requires
                m.position(0) == m.phase + 0 * m.input_rate,
        ;
    }
    if n == 0 {
        assert(n * m.output_rate == 0) by (nonlinear_arith)
            requires
                n == 0,
        ;
        assert(c == 0);
    }
}

/// Whether the `k`-th output sample is read across the seam between a
/// first chunk of `first` samples and a second chunk of `second` samples:
/// behind the last sample of the first chunk, and less than a thousandth of
/// a sample into the second.
pub open spec fn reads_across_seam(m: ResamplerModel, k: nat, first: nat, second: nat) -> bool {
    &&& first > 0
    &&& second > 0
    &&& (first - 1) * m.output_rate < m.position(k)
    &&& (m.position(k) - first * m.output_rate) * 1000 < m.output_rate
}

/// Cutting the input in two changes neither the number of output samples
/// nor the state that is left, and it changes no output sample but those
/// that are read across the seam.
pub proof fn lemma_chunking_independence(m: ResamplerModel, first: Seq<i16>, second: Seq<i16>)
    requires
        m.wf(),
    ensures
        m.advance(first).wf(),
        m.advance(first + second) == m.advance(first).advance(second),
        m.outputs(first + second).len() == m.outputs(first).len() + m.advance(first).outputs(
            second,
        ).len(),
        forall|k: int|
            0 <= k < m.outputs(first + second).len() && !reads_across_seam(
                m,
                k as nat,
                first.len(),
                second.len(),
            ) ==> #[trigger] m.outputs(first + second)[k] == (m.outputs(first) + m.advance(
                first,
            ).outputs(second))[k],
{
    let whole = first + second;
    let n1 = first.len();
    let n2 = second.len();
    let mid = m.advance(first);
    let c1 = m.output_count(n1);
    let c2 = mid.output_count(n2);
    let unit = m.output_rate as int;
    lemma_advance_wf(m, first);
    lemma_advance_wf(m, whole);
    lemma_advance_wf(mid, second);
    lemma_output_count_is_least(m, n1);
    lemma_output_count_is_least(mid, n2);
    assert((n1 + n2) * unit == n1 * unit + n2 * unit) by (nonlinear_arith);
    // Read positions of the second chunk are those of the whole, shifted.
    assert forall|j: nat| #[trigger] mid.position(j) + n1 * unit == m.position(c1 + j) by {
        assert(mid.position(j) + n1 * unit == m.position(c1 + j)) by (nonlinear_arith)
            requires
                mid.position(j) == mid.phase + j * mid.input_rate,
                mid.input_rate == m.input_rate,
                mid.phase + n1 * unit == m.position(c1),
                m.position(c1) == m.phase + c1 * m.input_rate,
                m.position(c1 + j) == m.phase + (c1 + j) * m.input_rate,
        ;
    }
    assert(m.position(c1 + c2) >= (n1 + n2) * unit) by {
        assert(mid.position(c2) + n1 * unit == m.position(c1 + c2));
        assert(!(mid.position(c2) < n2 * mid.output_rate));
    }
    if c1 + c2 > 0 {
        if c2 > 0 {
            assert(mid.position((c2 - 1) as nat) + n1 * unit == m.position(
                c1 + (c2 - 1) as nat,
            ));
            assert(mid.position((c2 - 1) as nat) < n2 * mid.output_rate);
        } else {
            assert(m.position((c1 - 1) as nat) < n1 * unit);
            assert(n2 * unit >= 0) by (nonlinear_arith)
                requires
                    n2 >= 0,
                    unit >= 0,
            ;
        }
        assert(m.position((c1 + c2 - 1) as nat) < (n1 + n2) * unit);
    }
    lemma_output_count_unique(m, n1 + n2, c1 + c2);
    lemma_output_count_is_least(m, n1 + n2);
    assert(m.output_count(whole.len()) == c1 + c2);
    if n1 == 0 {
        assert(whole =~= second);
        assert(mid == m);
        assert(c1 == 0);
        assert(m.outputs(first) + mid.outputs(second) =~= m.outputs(whole));
    } else if n2 == 0 {
        assert(whole =~= first);
        assert(c2 == 0);
        assert(m.outputs(first) + mid.outputs(second) =~= m.outputs(whole));
    } else {
        assert(whole.last() == second.last());
        assert(m.advance(whole) == mid.advance(second));
        assert forall|k: int|
            0 <= k < m.outputs(whole).len() && !reads_across_seam(
                m,
                k as nat,
                n1,
                n2,
            ) implies #[trigger] m.outputs(whole)[k] == (m.outputs(first) + mid.outputs(second))[k] by {
            let pos = m.position(k as nat) as int;
            let index = pos / unit;
            let num = pos % unit;
            lemma_fundamental_div_mod(pos, unit);
            lemma_mod_bound(pos, unit);
            assert(m.position(k as nat) < (n1 + n2) * unit);
            if k < c1 {
                assert(pos < n1 * unit);
                assert(index < n1) by (nonlinear_arith)
                    requires
                        pos < n1 * unit,
                        unit > 0,
                        pos == unit * index + num,
                        0 <= num,
                ;
                assert(0 <= index) by (nonlinear_arith)
                    requires
                        pos >= 0,
                        unit > 0,
                        pos == unit * index + num,
                        num < unit,
                ;
                assert(whole[index] == first[index]);
                assert(whole[0] == first[0]);
                assert(m.lead_in(whole) == m.lead_in(first));
                if index + 1 < n1 {
                    assert(whole[index + 1] == first[index + 1]);
                } else {
                    // Read at the last sample of the first chunk: off the
                    // seam only if it is read exactly there.
                    assert(num == 0) by (nonlinear_arith)
                        requires
                            !((n1 - 1) * unit < pos),
                            index == n1 - 1,
                            pos == unit * index + num,
                            0 <= num,
                    ;
                    lemma_interpolate_between(whole[index], whole[index + 1], 0, unit);
                    lemma_interpolate_between(whole[index], first[index], 0, unit);
                    lemma_interpolate_between(m.lead_in(whole), whole[index + 1], 0, unit);
                    lemma_interpolate_between(m.lead_in(whole), first[index], 0, unit);
                }
                assert(m.outputs(whole)[k] == m.output_sample(whole, k as nat));
                assert((m.outputs(first) + mid.outputs(second))[k] == m.output_sample(
                    first,
                    k as nat,
                ));
            } else {
                let j = (k - c1) as nat;
                assert(mid.position(j) + n1 * unit == m.position(c1 + j));
                let shifted = mid.position(j) as int;
                assert(!(m.position(k as nat) < n1 * unit));
                lemma_fundamental_div_mod(shifted, unit);
                lemma_mod_bound(shifted, unit);
                let local = shifted / unit;
                assert(pos == (local + n1) * unit + shifted % unit) by (nonlinear_arith)
                    requires
                        pos == shifted + n1 * unit,
                        shifted == unit * local + shifted % unit,
                ;
                lemma_fundamental_div_mod_converse(pos, unit, local + n1, shifted % unit);
                assert(index == local + n1);
                assert(num == shifted % unit);
                assert(0 <= local) by (nonlinear_arith)
                    requires
                        shifted >= 0,
                        unit > 0,
                        shifted == unit * local + shifted % unit,
                        shifted % unit < unit,
                ;
                assert(local < n2) by (nonlinear_arith)
                    requires
                        shifted < n2 * unit,
                        unit > 0,
                        shifted == unit * local + shifted % unit,
                        0 <= shifted % unit,
                ;
                assert(whole[index] == second[local]);
                if local + 1 < n2 {
                    assert(whole[index + 1] == second[local + 1]);
                }
                assert(!m.bridges(k as nat));
                if mid.bridges(j) {
                    assert(shifted == num) by (nonlinear_arith)
                        requires
                            local == 0,
                            shifted == unit * local + num,
                    ;
                    assert(reads_across_seam(m, k as nat, n1, n2)) by (nonlinear_arith)
                        requires
                            n1 > 0,
                            n2 > 0,
                            unit > 0,
                            pos == shifted + n1 * unit,
                            shifted == num,
                            0 <= num,
                            num * 1000 < unit,
                            pos == m.position(k as nat),
                            unit == m.output_rate,
                    ;
                }
                assert(m.outputs(whole)[k] == m.output_sample(whole, k as nat));
                assert((m.outputs(first) + mid.outputs(second))[k] == mid.output_sample(
                    second,
                    j,
                ));
            }
        }
    }
}

/// The chunks of a stream, joined in order.
pub open spec fn concat(chunks: Seq<Seq<i16>>) -> Seq<i16>
    decreases chunks.len(),
{
    if chunks.len() == 0 {
        Seq::empty()
    } else {
        concat(chunks.drop_last()) + chunks.last()
    }
}

impl ResamplerModel {
    /// The state after the chunks were consumed one after the other.
    pub open spec fn advance_all(self, chunks: Seq<Seq<i16>>) -> ResamplerModel
        decreases chunks.len(),
    {
        if chunks.len() == 0 {
            self
        } else {
            self.advance_all(chunks.drop_last()).advance(chunks.last())
        }
    }

    /// The output of the chunks, consumed one after the other, joined in
    /// order.
    pub open spec fn outputs_all(self, chunks: Seq<Seq<i16>>) -> Seq<i16>
        decreases chunks.len(),
    {
        if chunks.len() == 0 {
            Seq::empty()
        } else {
            self.outputs_all(chunks.drop_last()) + self.advance_all(chunks.drop_last()).outputs(
                chunks.last(),
            )
        }
    }
}

/// Whether the `k`-th output sample of the stream is read across the seam
/// between any two of its chunks.
pub open spec fn reads_across_any_seam(m: ResamplerModel, k: nat, chunks: Seq<Seq<i16>>) -> bool
    decreases chunks.len(),
{
    if chunks.len() == 0 {
        false
    } else {
        ||| reads_across_any_seam(m, k, chunks.drop_last())
        ||| reads_across_seam(m, k, concat(chunks.drop_last()).len(), chunks.last().len())
    }
}

/// Chunking independence: however a stream is cut into chunks, the
/// resampler ends in the same state and produces the same number of output
/// samples as for the stream in one piece, and every output sample that is
/// not read across a seam between two chunks has the same value.
pub proof fn lemma_chunking_independence_all(m: ResamplerModel, chunks: Seq<Seq<i16>>)
    requires
        m.wf(),
    ensures
        m.advance_all(chunks).wf(),
        m.advance_all(chunks) == m.advance(concat(chunks)),
        m.outputs_all(chunks).len() == m.outputs(concat(chunks)).len(),
        forall|k: int|
            0 <= k < m.outputs_all(chunks).len() && !reads_across_any_seam(m, k as nat, chunks)
                ==> #[trigger] m.outputs_all(chunks)[k] == m.outputs(concat(chunks))[k],
    decreases chunks.len(),
{
    if chunks.len() == 0 {
        assert(0 * m.output_rate == 0) by (nonlinear_arith);
        assert(m.output_count(0) == 0);
    } else {
        let init = chunks.drop_last();
        let last = chunks.last();
        lemma_chunking_independence_all(m, init);
        lemma_chunking_independence(m, concat(init), last);
        lemma_advance_wf(m, concat(chunks));
        let joined = m.outputs(concat(init)) + m.advance(concat(init)).outputs(last);
        assert forall|k: int|
            0 <= k < m.outputs_all(chunks).len() && !reads_across_any_seam(
                m,
                k as nat,
                chunks,
            ) implies #[trigger] m.outputs_all(chunks)[k] == m.outputs(concat(chunks))[k] by {
            assert(m.outputs(concat(chunks))[k] == joined[k]);
            if k < m.outputs_all(init).len() {
                assert(m.outputs_all(init)[k] == m.outputs(concat(init))[k]);
            }
        }
    }
}

/// Chunking independence without exception: where no output sample is
/// read across a seam between two chunks, the outputs of the chunks
/// joined in order are the output of the stream in one piece.
pub proof fn lemma_chunking_exact(m: ResamplerModel, chunks: Seq<Seq<i16>>)
    requires
        m.wf(),
        forall|k: nat|
            k < m.output_count(concat(chunks).len()) ==> !reads_across_any_seam(m, k, chunks),
    ensures
        m.outputs_all(chunks) == m.outputs(concat(chunks)),
{
    lemma_chunking_independence_all(m, chunks);
    assert forall|k: int| 0 <= k < m.outputs_all(chunks).len() implies m.outputs_all(chunks)[k]
        == m.outputs(concat(chunks))[k] by {
        assert(!reads_across_any_seam(m, k as nat, chunks));
    }
    assert(m.outputs_all(chunks) =~= m.outputs(concat(chunks)));
}

/// Rate correctness: a resampler that starts at phase zero turns `n` input
/// samples, in whatever chunks they come, into the least number of output
/// samples that covers `n * output_rate / input_rate`, which is that
/// quotient rounded down or one more.
pub proof fn lemma_rate_correctness(m: ResamplerModel, chunks: Seq<Seq<i16>>)
    requires
        m.wf(),
        m.phase == 0,
    ensures
        (m.outputs_all(chunks).len() - 1) * m.input_rate < concat(chunks).len() * m.output_rate
            <= m.outputs_all(chunks).len() * m.input_rate,
        (concat(chunks).len() * m.output_rate) / m.input_rate <= m.outputs_all(chunks).len() <= (
        concat(chunks).len() * m.output_rate) / m.input_rate + 1,
{
    let n = concat(chunks).len();
    let total = m.outputs_all(chunks).len();
    let step = m.input_rate as int;
    let span = (n * m.output_rate) as int;
    lemma_chunking_independence_all(m, chunks);
    lemma_output_count_is_least(m, n);
    assert(total == m.output_count(n));
    assert(m.position(total) == total * step) by (nonlinear_arith)
        requires
            m.position(total) == m.phase + total * m.input_rate,
            m.phase == 0,
            step == m.input_rate,
    ;
    assert(!(m.position(total) < n * m.output_rate));
    if total > 0 {
        assert(m.position((total - 1) as nat) == (total - 1) * step) by (nonlinear_arith)
            requires
                total > 0,
                m.position((total - 1) as nat) == m.phase + (total - 1) * m.input_rate,
                m.phase == 0,
                step == m.input_rate,
        ;
        assert(m.position((total - 1) as nat) < n * m.output_rate);
    } else {
        assert(span >= 0) by (nonlinear_arith)
            requires
                span == n * m.output_rate,
        ;
        assert((total - 1) * step < span) by (nonlinear_arith)
            requires
                total == 0,
                step > 0,
                span >= 0,
        ;
    }
    lemma_fundamental_div_mod(span, step);
    lemma_mod_bound(span, step);
    let q = span / step;
    assert(q <= total <= q + 1) by (nonlinear_arith)
        requires
            (total - 1) * step < span <= total * step,
            span == step * q + span % step,
            0 <= span % step < step,
            step > 0,
    ;
}

} // verus!
