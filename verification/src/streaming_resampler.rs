use vstd::prelude::*;

verus! {

/// Mathematical state of a streaming resampler.
///
/// The read cursor is an exact rational: `phase / output_rate` input samples past the start of
/// the next chunk. One output sample advances it by `input_rate / output_rate`.
pub struct ResamplerModel {
    /// Rate of the incoming stream, in hertz.
    pub input_rate: nat,
    /// Rate of the outgoing stream, in hertz.
    pub output_rate: nat,
    /// Numerator of the cursor, over the denominator `output_rate`.
    pub phase: nat,
    /// Last sample of the previous chunk, once a chunk has been consumed.
    pub boundary: Option<i32>,
}

impl ResamplerModel {
    /// Both rates are positive and the cursor lies less than one output step into the next chunk.
    pub open spec fn wf(self) -> bool {
        &&& self.input_rate > 0
        &&& self.output_rate > 0
        &&& self.phase < self.input_rate
    }

    /// State of a resampler that has consumed nothing yet.
    pub open spec fn fresh(input_rate: nat, output_rate: nat) -> ResamplerModel {
        ResamplerModel { input_rate, output_rate, phase: 0, boundary: None }
    }

    /// Cursor numerator of the output sample `j` of the next chunk.
    pub open spec fn tap(self, j: nat) -> nat {
        self.phase + j * self.input_rate
    }

    /// Number of output samples that a chunk of `len` input samples yields: the number of
    /// cursor positions `tap(0), tap(1), ..` that fall inside the chunk.
    pub open spec fn output_count(self, len: nat) -> nat {
        let span = len * self.output_rate;
        if self.phase >= span {
            0
        } else {
            ((span - self.phase + self.input_rate - 1) / (self.input_rate as int)) as nat
        }
    }

    /// Cursor numerator relative to the start of the chunk after one of `len` samples.
    pub open spec fn phase_after(self, len: nat) -> nat {
        (self.phase + self.output_count(len) * self.input_rate - len * self.output_rate) as nat
    }

    /// The sample that stands in for the one before the chunk's first.
    pub open spec fn boundary_sample(self, input: Seq<i32>) -> i32 {
        match self.boundary {
            Some(s) => s,
            None => input[0],
        }
    }

    /// Whether the cursor numerator `p` lies in the first thousandth of the chunk's first sample
    /// interval, where the left neighbour is taken from the previous chunk.
    pub open spec fn at_seam(self, p: nat) -> bool {
        p / self.output_rate == 0 && 1000 * (p % self.output_rate) < self.output_rate
    }

    /// Left neighbour of the cursor numerator `p`.
    pub open spec fn left_sample(self, input: Seq<i32>, p: nat) -> i32 {
        if self.at_seam(p) {
            self.boundary_sample(input)
        } else {
            input[(p / self.output_rate) as int]
        }
    }

    /// Right neighbour of the cursor numerator `p`; the last sample of a chunk is its own
    /// right neighbour.
    pub open spec fn right_sample(self, input: Seq<i32>, p: nat) -> i32 {
        let idx = (p / self.output_rate) as int;
        if idx + 1 < input.len() {
            input[idx + 1]
        } else {
            input[idx]
        }
    }

    /// Output sample `j` of the chunk `input`.
    pub open spec fn output_sample(self, input: Seq<i32>, j: nat) -> i16 {
        let p = self.tap(j);
        clamp_to_i16(
            interpolate(
                self.left_sample(input, p) as int,
                self.right_sample(input, p) as int,
                (p % self.output_rate) as int,
                self.output_rate as int,
            ),
        )
    }

    /// All output samples of the chunk `input`, in order.
    pub open spec fn resampled(self, input: Seq<i32>) -> Seq<i16> {
        Seq::new(self.output_count(input.len()), |j: int| self.output_sample(input, j as nat))
    }

    /// State after the chunk `input` has been consumed. An empty chunk changes nothing.
    pub open spec fn advanced(self, input: Seq<i32>) -> ResamplerModel {
        if input.len() == 0 {
            self
        } else {
            ResamplerModel {
                input_rate: self.input_rate,
                output_rate: self.output_rate,
                phase: self.phase_after(input.len()),
                boundary: Some(input.last()),
            }
        }
    }
}

/// Quotient of `n` by a positive `d`, rounded towards zero.
pub open spec fn truncating_div(n: int, d: int) -> int {
    if n >= 0 {
        n / d
    } else {
        -((-n) / d)
    }
}

/// The point `r / d` of the way from `a` to `b`, rounded towards zero.
pub open spec fn interpolate(a: int, b: int, r: int, d: int) -> int {
    truncating_div(a * d + (b - a) * r, d)
}

/// `v` limited to the range of a signed 16-bit sample.
pub open spec fn clamp_to_i16(v: int) -> i16 {
    if v < -32768 {
        -32768i16
    } else if v > 32767 {
        32767i16
    } else {
        v as i16
    }
}

/// Streaming linear-interpolation resampler. An input sample is a fixed-point level on the
/// 16-bit scale, on which full scale is 32767, and may lie beyond full scale; an output sample
/// is a signed 16-bit level, limited to its range after interpolation. Cursor and boundary
/// sample carry over from chunk to chunk, so that a stream may arrive in chunks of any length.
pub struct StreamingResampler {
    input_rate: u32,
    output_rate: u32,
    position: u64,
    prev_sample: i32,
    initialized: bool,
}

impl View for StreamingResampler {
    type V = ResamplerModel;

    closed spec fn view(&self) -> ResamplerModel {
        ResamplerModel {
            input_rate: self.input_rate as nat,
            output_rate: self.output_rate as nat,
            phase: self.position as nat,
            boundary: if self.initialized {
                Some(self.prev_sample)
            } else {
                None
            },
        }
    }
}

impl StreamingResampler {
    #[verifier::type_invariant]
    spec fn inv(self) -> bool {
        self@.wf()
    }

    /// A resampler that has consumed nothing yet.
    pub fn new(input_sample_rate: u32, output_sample_rate: u32) -> (resampler: Self)
        requires
            input_sample_rate > 0,
            output_sample_rate > 0,
        ensures
            resampler@ == ResamplerModel::fresh(
                input_sample_rate as nat,
                output_sample_rate as nat,
            ),
            resampler@.wf(),
    {
        StreamingResampler {
            input_rate: input_sample_rate,
            output_rate: output_sample_rate,
            position: 0,
            prev_sample: 0,
            initialized: false,
        }
    }

    /// Rate of the incoming stream, in hertz.
    pub fn input_sample_rate(&self) -> (rate: u32)
        ensures
            rate == self@.input_rate,
            self@.wf(),
    {
        proof {
            use_type_invariant(self);
        }
        self.input_rate
    }

    /// Rate of the outgoing stream, in hertz.
    pub fn output_sample_rate(&self) -> (rate: u32)
        ensures
            rate == self@.output_rate,
            self@.wf(),
    {
        proof {
            use_type_invariant(self);
        }
        self.output_rate
    }

    /// Converts the next chunk of the stream and moves the cursor past it.
    pub fn resample(&mut self, input: &[i32]) -> (output: Vec<i16>)
        ensures
            output@ == old(self)@.resampled(input@),
            final(self)@ == old(self)@.advanced(input@),
            old(self)@.wf(),
            final(self)@.wf(),
    {
        proof {
            use_type_invariant(&*self);
        }
        let ghost m = self@;
        let len = input.len();
        if len == 0 {
            proof {
                assert(0 * m.output_rate == 0) by (nonlinear_arith);
            }
            return Vec::new();
        }
        let in_rate: u128 = self.input_rate as u128;
        let out_rate: u128 = self.output_rate as u128;
        let boundary: i32 = if self.initialized {
            self.prev_sample
        } else {
            input[0]
        };
        assert((len as int) * (out_rate as int) <= 0xffff_ffff_ffff_ffff * 0xffff_ffff)
            by (nonlinear_arith)
            requires
                0 <= len <= 0xffff_ffff_ffff_ffff,
                0 <= out_rate <= 0xffff_ffff,
        ;
        let span: u128 = (len as u128) * out_rate;
        let mut pos: u128 = self.position as u128;
        let mut output: Vec<i16> = Vec::new();
        proof {
            lemma_tap_step(m, 0);
        }
        while pos < span
            invariant
                m.wf(),
                m == old(self)@,
                in_rate == m.input_rate,
                out_rate == m.output_rate,
                len == input.len(),
                len > 0,
                span == len * out_rate,
                span <= 0xffff_ffff_ffff_ffff * 0xffff_ffff,
                boundary == m.boundary_sample(input@),
                pos == m.tap(output.len() as nat),
                output.len() > 0 ==> m.tap((output.len() - 1) as nat) < span,
                forall|j: int|
                    0 <= j < output.len() ==> output[j] == m.output_sample(input@, j as nat),
            decreases span + in_rate - pos,
        {
            let idx_wide: u128 = pos / out_rate;
            let frac: u128 = pos % out_rate;
            proof {
                lemma_index_in_chunk(pos as int, out_rate as int, len as int);
            }
            let idx: usize = idx_wide as usize;
            let left: i32 = if idx == 0 && 1000 * frac < out_rate {
                boundary
            } else {
                input[idx]
            };
            let right: i32 = if idx + 1 < len {
                input[idx + 1]
            } else {
                input[idx]
            };
            let sample = interpolate_sample(left, right, frac as u32, self.output_rate);
            proof {
                lemma_tap_step(m, output.len() as nat);
            }
            output.push(sample);
            pos = pos + in_rate;
        }
        proof {
            lemma_count_is_least(m, len as nat, output.len() as nat);
        }
        self.position = (pos - span) as u64;
        self.prev_sample = input[len - 1];
        self.initialized = true;
        output
    }
}

/// The sample at the point `frac / output_rate` of the way from `left` to `right`, rounded
/// towards zero and limited to the 16-bit range.
fn interpolate_sample(left: i32, right: i32, frac: u32, output_rate: u32) -> (sample: i16)
    requires
        frac < output_rate,
    ensures
        sample == clamp_to_i16(
            interpolate(left as int, right as int, frac as int, output_rate as int),
        ),
{
    let a: i128 = left as i128;
    let b: i128 = right as i128;
    let r: i128 = frac as i128;
    let d: i128 = output_rate as i128;
    assert(-0x8000_0000 * 0x1_0000_0000 <= a * d <= 0x8000_0000 * 0x1_0000_0000)
        by (nonlinear_arith)
        requires
            -0x8000_0000 <= a <= 0x8000_0000,
            0 <= d <= 0x1_0000_0000,
    ;
    assert(-0x1_0000_0000 * 0x1_0000_0000 <= (b - a) * r <= 0x1_0000_0000 * 0x1_0000_0000)
        by (nonlinear_arith)
        requires
            -0x1_0000_0000 <= b - a <= 0x1_0000_0000,
            0 <= r <= 0x1_0000_0000,
    ;
    let numerator: i128 = a * d + (b - a) * r;
    let value: i128 = numerator / d;
    if value < -32768 {
        -32768
    } else if value > 32767 {
        32767
    } else {
        value as i16
    }
}

/// A cursor inside a chunk of `len` samples points at one of its samples.
proof fn lemma_index_in_chunk(p: int, d: int, len: int)
    by (nonlinear_arith)
    requires
        0 <= p < len * d,
        d > 0,
    ensures
        0 <= p / d < len,
        0 <= p % d < d,
{
}

/// The first cursor is the carried phase, and each output moves the cursor by one input rate.
pub proof fn lemma_tap_step(m: ResamplerModel, j: nat)
    ensures
        m.tap(0) == m.phase,
        m.tap(j + 1) == m.tap(j) + m.input_rate,
{
    assert(m.phase + (j + 1) * m.input_rate == m.phase + j * m.input_rate + m.input_rate)
        by (nonlinear_arith);
}

/// `k` is the number of outputs of a chunk of `len` samples as soon as the cursor of output `k`
/// lies past the chunk and that of output `k - 1`, if there is one, inside it.
pub proof fn lemma_count_is_least(m: ResamplerModel, len: nat, k: nat)
    requires
        m.wf(),
        m.tap(k) >= len * m.output_rate,
        k > 0 ==> m.tap((k - 1) as nat) < len * m.output_rate,
    ensures
        m.output_count(len) == k,
        m.phase_after(len) == m.tap(k) - len * m.output_rate,
        m.phase_after(len) < m.input_rate,
{
    let span = (len * m.output_rate) as int;
    let step = m.input_rate as int;
    let phase = m.phase as int;
    if k == 0 {
        lemma_tap_step(m, 0);
    } else {
        assert(m.tap(0) <= m.tap((k - 1) as nat)) by (nonlinear_arith)
            requires
                m.tap(0) == phase + 0 * step,
                m.tap((k - 1) as nat) == phase + (k - 1) * step,
                k >= 1,
                step > 0,
        ;
        let x = span - phase;
        assert((x + step - 1) / step == k) by (nonlinear_arith)
            requires
                step > 0,
                k >= 1,
                (k - 1) * step < x,
                x <= k * step,
        ;
        assert(m.tap(k) - span < step) by (nonlinear_arith)
            requires
                m.tap(k) == phase + k * step,
                m.tap((k - 1) as nat) == phase + (k - 1) * step,
                m.tap((k - 1) as nat) < span,
        ;
    }
}

} // verus!
