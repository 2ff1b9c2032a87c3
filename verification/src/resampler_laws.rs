use crate::streaming_resampler::{
    clamp_to_i16, interpolate, lemma_count_is_least, lemma_tap_step, ResamplerModel,
};
use vstd::arithmetic::div_mod::{
    lemma_div_multiples_vanish, lemma_fundamental_div_mod, lemma_fundamental_div_mod_converse,
};
use vstd::prelude::*;

verus! {

/// The cursor of the last output lies inside the chunk and that of the next one past it.
pub proof fn lemma_count_brackets_chunk(m: ResamplerModel, len: nat)
    requires
        m.wf(),
    ensures
        m.tap(m.output_count(len)) >= len * m.output_rate,
        m.output_count(len) > 0 ==> m.tap((m.output_count(len) - 1) as nat) < len * m.output_rate,
        m.phase_after(len) == m.tap(m.output_count(len)) - len * m.output_rate,
        m.phase_after(len) < m.input_rate,
{
    let span = (len * m.output_rate) as int;
    let step = m.input_rate as int;
    let phase = m.phase as int;
    let k = m.output_count(len);
    lemma_tap_step(m, 0);
    if phase < span {
        let x = span - phase;
        assert(k >= 1 && (k - 1) * step < x && x <= k * step) by (nonlinear_arith)
            requires
                step > 0,
                x > 0,
                k == (x + step - 1) / step,
        ;
    }
    lemma_count_is_least(m, len, k);
}

/// An empty chunk yields nothing and leaves the state as it is.
pub proof fn lemma_empty_chunk(m: ResamplerModel, input: Seq<i32>)
    requires
        input.len() == 0,
    ensures
        m.resampled(input) == Seq::<i16>::empty(),
        m.advanced(input) == m,
{
    assert(0 * m.output_rate == 0) by (nonlinear_arith);
}

/// Rate law. A chunk of `len` samples yields `len * output_rate / input_rate` samples, give or
/// take less than one: the outputs times the input rate differ from the inputs times the output
/// rate by less than one input rate. From a cursor at zero the count is that quotient rounded up.
pub proof fn lemma_rate_law(m: ResamplerModel, len: nat)
    requires
        m.wf(),
    ensures
        len * m.output_rate - m.phase <= m.output_count(len) * m.input_rate,
        m.output_count(len) * m.input_rate < len * m.output_rate - m.phase + m.input_rate,
        -(m.input_rate as int) < m.output_count(len) * m.input_rate - len * m.output_rate
            < m.input_rate as int,
        m.phase == 0 ==> m.output_count(len) == (len * m.output_rate + m.input_rate - 1) / (
        m.input_rate as int),
{
    lemma_count_brackets_chunk(m, len);
    let span = (len * m.output_rate) as int;
    let step = m.input_rate as int;
    if span == 0 {
        assert((span + step - 1) / step == 0) by (nonlinear_arith)
            requires
                span == 0,
                step > 0,
        ;
    }
}

/// A cursor that is moved by whole samples keeps its fraction and moves its index by as many.
proof fn lemma_shifted_cursor(p: int, n: int, d: int)
    requires
        d > 0,
    ensures
        (p + n * d) / d == p / d + n,
        (p + n * d) % d == p % d,
{
    lemma_fundamental_div_mod(p, d);
    assert(p + n * d == (p / d + n) * d + p % d) by (nonlinear_arith)
        requires
            p == d * (p / d) + (p % d),
    ;
    lemma_fundamental_div_mod_converse(p + n * d, d, p / d + n, p % d);
}

/// Output `k + j` of a stream is output `j` of the chunk that starts after `k` outputs and `n`
/// input samples.
proof fn lemma_tap_of_later_chunk(m: ResamplerModel, later: ResamplerModel, k: nat, n: nat, j: nat)
    requires
        later.input_rate == m.input_rate,
        later.output_rate == m.output_rate,
        later.phase == m.tap(k) - n * m.output_rate,
    ensures
        m.tap(k + j) == later.tap(j) + n * m.output_rate,
{
    assert(m.phase + (k + j) * m.input_rate == m.phase + k * m.input_rate + j * m.input_rate)
        by (nonlinear_arith);
}

/// Splitting a chunk in two changes neither the number of outputs nor the cursor left behind.
pub proof fn lemma_count_splits(m: ResamplerModel, n1: nat, n2: nat)
    requires
        m.wf(),
    ensures
        m.output_count(n1 + n2) == m.output_count(n1) + (ResamplerModel {
            phase: m.phase_after(n1),
            ..m
        }).output_count(n2),
        m.phase_after(n1 + n2) == (ResamplerModel {
            phase: m.phase_after(n1),
            ..m
        }).phase_after(n2),
{
    let later = ResamplerModel { phase: m.phase_after(n1), ..m };
    let k1 = m.output_count(n1);
    let k2 = later.output_count(n2);
    let d = m.output_rate as int;
    lemma_count_brackets_chunk(m, n1);
    lemma_count_brackets_chunk(later, n2);
    lemma_tap_of_later_chunk(m, later, k1, n1, k2);
    assert((n1 + n2) * d == n1 * d + n2 * d) by (nonlinear_arith);
    assert(n2 * d >= 0) by (nonlinear_arith)
        requires
            n2 >= 0,
            d >= 0,
    ;
    if k2 > 0 {
        lemma_tap_of_later_chunk(m, later, k1, n1, (k2 - 1) as nat);
    }
    lemma_count_is_least(m, n1 + n2, k1 + k2);
}

/// Continuity across a seam. Feeding a stream in two chunks yields as many samples as feeding
/// it in one, leaves the same state behind, and yields the same sample wherever both
/// neighbours of the cursor lie in one chunk: everywhere but at a cursor whose right neighbour
/// would be the first sample of the second chunk, and at one in the first thousandth of the
/// second chunk, where the left neighbour is the last sample of the first.
pub proof fn lemma_chunked_matches_whole(m: ResamplerModel, a: Seq<i32>, b: Seq<i32>)
    requires
        m.wf(),
    ensures
        m.resampled(a + b).len() == m.resampled(a).len() + m.advanced(a).resampled(b).len(),
        m.advanced(a).advanced(b) == m.advanced(a + b),
        m.advanced(a).wf(),
        forall|j: int|
            0 <= j < m.resampled(a).len() && m.tap(j as nat) / m.output_rate + 1 < a.len()
                ==> m.resampled(a + b)[j] == #[trigger] m.resampled(a)[j],
        forall|j: int|
            0 <= j < m.advanced(a).resampled(b).len() && !m.advanced(a).at_seam(
                m.advanced(a).tap(j as nat),
            ) ==> m.resampled(a + b)[m.resampled(a).len() + j] == #[trigger] m.advanced(
                a,
            ).resampled(b)[j],
{
    let later = m.advanced(a);
    let n1 = a.len();
    let n2 = b.len();
    let d = m.output_rate as int;
    let k1 = m.output_count(n1);
    lemma_count_splits(m, n1, n2);
    lemma_count_brackets_chunk(m, n1);
    if n1 == 0 {
        lemma_empty_chunk(m, a);
        assert(a + b =~= b);
    } else {
        assert(later.output_count(n2) == (ResamplerModel { phase: m.phase_after(n1), ..m })
            .output_count(n2));
        assert(later.phase_after(n2) == (ResamplerModel { phase: m.phase_after(n1), ..m })
            .phase_after(n2));
    }
    if n2 == 0 {
        assert(a + b =~= a);
        lemma_tap_step(later, 0);
        assert(0 * later.output_rate == 0) by (nonlinear_arith);
    } else {
        assert((a + b).last() == b.last());
    }
    assert forall|j: int|
        0 <= j < m.resampled(a).len() && m.tap(j as nat) / m.output_rate + 1 < a.len()
        implies m.resampled(a + b)[j] == #[trigger] m.resampled(a)[j] by {
        let p = m.tap(j as nat);
        lemma_fundamental_div_mod(p as int, d);
        assert(p / m.output_rate >= 0);
        assert(m.boundary_sample(a + b) == m.boundary_sample(a));
        assert(m.left_sample(a + b, p) == m.left_sample(a, p));
        assert(m.right_sample(a + b, p) == m.right_sample(a, p));
    }
    assert forall|j: int|
        0 <= j < later.resampled(b).len() && !later.at_seam(later.tap(j as nat))
        implies m.resampled(a + b)[m.resampled(a).len() + j] == #[trigger] later.resampled(
        b,
    )[j] by {
        if n1 > 0 {
            let q = later.tap(j as nat);
            let p = m.tap((k1 + j) as nat);
            lemma_tap_of_later_chunk(m, later, k1, n1, j as nat);
            lemma_shifted_cursor(q as int, n1 as int, d);
            lemma_tap_in_chunk(later, n2, j as nat);
            assert(q / later.output_rate < n2);
            assert(p / m.output_rate == q / later.output_rate + n1);
            assert(p % m.output_rate == q % later.output_rate);
            assert(!m.at_seam(p));
            assert(m.left_sample(a + b, p) == later.left_sample(b, q));
            assert(m.right_sample(a + b, p) == later.right_sample(b, q));
        }
    }
}

/// The cursor of every output of a chunk points at one of the chunk's samples.
pub proof fn lemma_tap_in_chunk(m: ResamplerModel, len: nat, j: nat)
    requires
        m.wf(),
        j < m.output_count(len),
    ensures
        m.tap(j) < len * m.output_rate,
        m.tap(j) / m.output_rate < len,
{
    let k = m.output_count(len);
    lemma_count_brackets_chunk(m, len);
    assert(m.tap(j) <= m.tap((k - 1) as nat)) by (nonlinear_arith)
        requires
            m.tap(j) == m.phase + j * m.input_rate,
            m.tap((k - 1) as nat) == m.phase + (k - 1) * m.input_rate,
            j <= k - 1,
    ;
    assert(m.tap(j) / m.output_rate < len) by (nonlinear_arith)
        requires
            0 <= m.tap(j) < len * m.output_rate,
            m.output_rate > 0,
    ;
}

/// The interpolated value lies between its two neighbours.
pub proof fn lemma_interpolation_is_between(a: int, b: int, r: int, d: int)
    requires
        0 <= r < d,
    ensures
        a <= b ==> a <= interpolate(a, b, r, d) <= b,
        b <= a ==> b <= interpolate(a, b, r, d) <= a,
{
    let n = a * d + (b - a) * r;
    let low = if a <= b { a } else { b };
    let high = if a <= b { b } else { a };
    assert(low * d <= n <= high * d) by (nonlinear_arith)
        requires
            n == a * d + (b - a) * r,
            0 <= r < d,
            low == if a <= b { a } else { b },
            high == if a <= b { b } else { a },
    ;
    if n >= 0 {
        assert(low <= n / d <= high) by (nonlinear_arith)
            requires
                low * d <= n <= high * d,
                d > 0,
        ;
    } else {
        let q = (-n) / d;
        assert(-high <= q <= -low) by (nonlinear_arith)
            requires
                low * d <= n <= high * d,
                d > 0,
                q == (-n) / d,
        ;
    }
}

/// The sample before index `i` of a chunk: for the first index the boundary sample.
pub open spec fn sample_before(m: ResamplerModel, stream: Seq<i32>, i: int) -> i32 {
    if i > 0 {
        stream[i - 1]
    } else {
        m.boundary_sample(stream)
    }
}

/// The sample after index `i` of a chunk: for the last index that sample itself.
pub open spec fn sample_after(stream: Seq<i32>, i: int) -> i32 {
    if i + 1 < stream.len() {
        stream[i + 1]
    } else {
        stream[i]
    }
}

/// The output `v` lies within the range of the three input samples around index `i`, limited
/// to 16 bits.
pub open spec fn within_window(m: ResamplerModel, stream: Seq<i32>, i: int, v: i16) -> bool {
    let x = sample_before(m, stream, i);
    let y = stream[i];
    let z = sample_after(stream, i);
    &&& v >= clamp_to_i16(x as int) || v >= clamp_to_i16(y as int) || v >= clamp_to_i16(z as int)
    &&& v <= clamp_to_i16(x as int) || v <= clamp_to_i16(y as int) || v <= clamp_to_i16(z as int)
}

/// An output sample lies between its two neighbours, limited to 16 bits.
pub proof fn lemma_output_between_neighbours(m: ResamplerModel, input: Seq<i32>, j: nat)
    requires
        m.wf(),
    ensures
        ({
            let left = clamp_to_i16(m.left_sample(input, m.tap(j)) as int);
            let right = clamp_to_i16(m.right_sample(input, m.tap(j)) as int);
            let v = m.output_sample(input, j);
            (left <= v <= right) || (right <= v <= left)
        }),
{
    let p = m.tap(j);
    let d = m.output_rate as int;
    assert(0 <= p % m.output_rate < d) by (nonlinear_arith)
        requires
            p >= 0,
            d > 0,
            d == m.output_rate,
    ;
    lemma_interpolation_is_between(
        m.left_sample(input, p) as int,
        m.right_sample(input, p) as int,
        (p % m.output_rate) as int,
        d,
    );
}

/// Error at a seam. Whether a stream is fed in one piece or in two chunks, every output sample
/// lies within the range of the three input samples around its cursor: the one the cursor
/// points at, the one before and the one after. So where the two ways differ, they differ by
/// no more than neighbouring input samples do.
pub proof fn lemma_seam_error_is_bounded(m: ResamplerModel, a: Seq<i32>, b: Seq<i32>, j: int)
    requires
        m.wf(),
        0 <= j < m.resampled(a + b).len(),
    ensures
        m.resampled(a + b).len() == (m.resampled(a) + m.advanced(a).resampled(b)).len(),
        within_window(m, a + b, (m.tap(j as nat) / m.output_rate) as int, m.resampled(a + b)[j]),
        within_window(
            m,
            a + b,
            (m.tap(j as nat) / m.output_rate) as int,
            (m.resampled(a) + m.advanced(a).resampled(b))[j],
        ),
{
    let whole = a + b;
    let later = m.advanced(a);
    let n1 = a.len();
    let n2 = b.len();
    let d = m.output_rate as int;
    let k1 = m.output_count(n1);
    let p = m.tap(j as nat);
    let i = (p / m.output_rate) as int;
    lemma_chunked_matches_whole(m, a, b);
    lemma_tap_in_chunk(m, n1 + n2, j as nat);
    lemma_fundamental_div_mod(p as int, d);
    lemma_output_between_neighbours(m, whole, j as nat);
    assert(0 <= i < whole.len());
    if j < k1 {
        lemma_tap_in_chunk(m, n1, j as nat);
        lemma_output_between_neighbours(m, a, j as nat);
        assert(m.boundary_sample(whole) == m.boundary_sample(a));
        assert(a[i] == whole[i]);
        assert((m.resampled(a) + later.resampled(b))[j] == m.output_sample(a, j as nat));
    } else {
        let t = (j - k1) as nat;
        let q = later.tap(t);
        lemma_count_brackets_chunk(m, n1);
        if n1 > 0 {
            lemma_tap_of_later_chunk(m, later, k1, n1, t);
            lemma_shifted_cursor(q as int, n1 as int, d);
        } else {
            lemma_empty_chunk(m, a);
            assert(whole =~= b);
        }
        lemma_output_between_neighbours(later, b, t);
        let i2 = (q / later.output_rate) as int;
        assert(b[i2] == whole[i]);
        assert((m.resampled(a) + later.resampled(b))[j] == later.output_sample(b, t));
    }
}

/// Total length of a stream that arrives in `chunks`.
pub open spec fn stream_len(chunks: Seq<Seq<i32>>) -> nat
    decreases chunks.len(),
{
    if chunks.len() == 0 {
        0
    } else {
        stream_len(chunks.drop_last()) + chunks.last().len()
    }
}

/// State after the chunks have been consumed one after the other.
pub open spec fn state_after(m: ResamplerModel, chunks: Seq<Seq<i32>>) -> ResamplerModel
    decreases chunks.len(),
{
    if chunks.len() == 0 {
        m
    } else {
        state_after(m, chunks.drop_last()).advanced(chunks.last())
    }
}

/// Number of samples that come out while the chunks are consumed one after the other.
pub open spec fn stream_output_len(m: ResamplerModel, chunks: Seq<Seq<i32>>) -> nat
    decreases chunks.len(),
{
    if chunks.len() == 0 {
        0
    } else {
        stream_output_len(m, chunks.drop_last()) + state_after(
            m,
            chunks.drop_last(),
        ).resampled(chunks.last()).len()
    }
}

/// Rate law for a stream. However a stream is cut into chunks, as many samples come out as if
/// it had arrived in one piece, and the cursor ends where it would have ended; so the total
/// stays within one sample of the stream's length times `output_rate / input_rate`.
pub proof fn lemma_stream_rate_law(m: ResamplerModel, chunks: Seq<Seq<i32>>)
    requires
        m.wf(),
    ensures
        state_after(m, chunks).wf(),
        state_after(m, chunks).input_rate == m.input_rate,
        state_after(m, chunks).output_rate == m.output_rate,
        state_after(m, chunks).phase == m.phase_after(stream_len(chunks)),
        stream_output_len(m, chunks) == m.output_count(stream_len(chunks)),
        -(m.input_rate as int) < stream_output_len(m, chunks) * m.input_rate - stream_len(chunks)
            * m.output_rate < m.input_rate as int,
    decreases chunks.len(),
{
    if chunks.len() == 0 {
        assert(0 * m.output_rate == 0) by (nonlinear_arith);
    } else {
        let head = chunks.drop_last();
        let n1 = stream_len(head);
        let n2 = chunks.last().len();
        let before = state_after(m, head);
        lemma_stream_rate_law(m, head);
        lemma_count_splits(m, n1, n2);
        let shifted = ResamplerModel { phase: m.phase_after(n1), ..m };
        assert(before.output_count(n2) == shifted.output_count(n2));
        assert(before.phase_after(n2) == shifted.phase_after(n2));
        if n2 == 0 {
            lemma_tap_step(before, 0);
            lemma_count_brackets_chunk(before, 0);
        }
    }
    lemma_rate_law(m, stream_len(chunks));
}

/// Equal rates copy the stream. With the cursor at zero every input sample comes out once,
/// limited to the 16-bit range, and the cursor stays at zero; the one exception is the first
/// sample of a later chunk, in whose place the last sample of the chunk before comes out.
pub proof fn lemma_equal_rates_copy(m: ResamplerModel, input: Seq<i32>)
    requires
        m.wf(),
        m.input_rate == m.output_rate,
        m.phase == 0,
    ensures
        m.resampled(input).len() == input.len(),
        m.advanced(input).phase == 0,
        forall|j: int|
            0 <= j < input.len() && (j > 0 || m.boundary is None) ==> #[trigger] m.resampled(
                input,
            )[j] == clamp_to_i16(input[j] as int),
        input.len() > 0 && m.boundary is Some ==> m.resampled(input)[0] == clamp_to_i16(
            m.boundary->Some_0 as int,
        ),
{
    let d = m.output_rate as int;
    let len = input.len();
    assert(m.tap(len) == len * d) by (nonlinear_arith)
        requires
            m.tap(len) == m.phase + len * m.input_rate,
            m.phase == 0,
            m.input_rate == d,
    ;
    if len > 0 {
        assert(m.tap((len - 1) as nat) < len * d) by (nonlinear_arith)
            requires
                m.tap((len - 1) as nat) == m.phase + (len - 1) * m.input_rate,
                m.phase == 0,
                m.input_rate == d,
                d > 0,
        ;
    }
    lemma_count_is_least(m, len, len);
    assert forall|j: int|
        0 <= j < input.len() && (j > 0 || m.boundary is None) implies #[trigger] m.resampled(
        input,
    )[j] == clamp_to_i16(input[j] as int) by {
        let p = m.tap(j as nat);
        lemma_equal_rates_tap(m, j as nat);
        lemma_exact_point(
            m.left_sample(input, p) as int,
            m.right_sample(input, p) as int,
            d,
        );
        assert(m.left_sample(input, p) == input[j]);
    }
    if input.len() > 0 && m.boundary is Some {
        let p = m.tap(0);
        lemma_equal_rates_tap(m, 0);
        lemma_exact_point(
            m.left_sample(input, p) as int,
            m.right_sample(input, p) as int,
            d,
        );
    }
}

/// With equal rates and the cursor at zero, output `j` stands exactly on input sample `j`.
proof fn lemma_equal_rates_tap(m: ResamplerModel, j: nat)
    requires
        m.wf(),
        m.input_rate == m.output_rate,
        m.phase == 0,
    ensures
        m.tap(j) / m.output_rate == j,
        m.tap(j) % m.output_rate == 0,
{
    let d = m.output_rate as int;
    assert(m.tap(j) == j * d + 0) by (nonlinear_arith)
        requires
            m.tap(j) == m.phase + j * m.input_rate,
            m.phase == 0,
            m.input_rate == d,
    ;
    lemma_fundamental_div_mod_converse(m.tap(j) as int, d, j as int, 0);
}

/// At a cursor without a fraction the interpolated value is the left neighbour.
pub proof fn lemma_exact_point(a: int, b: int, d: int)
    requires
        d > 0,
    ensures
        interpolate(a, b, 0, d) == a,
{
    assert(a * d + (b - a) * 0 == a * d) by (nonlinear_arith);
    if a >= 0 {
        assert(a * d >= 0 && d * a == a * d) by (nonlinear_arith)
            requires
                a >= 0,
                d > 0,
        ;
        lemma_div_multiples_vanish(a, d);
    } else {
        assert(a * d < 0 && d * (-a) == -(a * d)) by (nonlinear_arith)
            requires
                a < 0,
                d > 0,
        ;
        lemma_div_multiples_vanish(-a, d);
    }
}

} // verus!
