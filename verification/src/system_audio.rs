use crate::streaming_resampler::truncating_div;
use vstd::prelude::*;
use vstd::slice::slice_to_vec;

verus! {

/// The 32-bit word whose little-endian encoding starts at byte `4 * i`.
pub open spec fn word_at(bytes: Seq<u8>, i: int) -> u32 {
    (bytes[4 * i] + 256 * bytes[4 * i + 1] + 65536 * bytes[4 * i + 2] + 16777216 * bytes[4 * i
        + 3]) as u32
}

/// The whole little-endian 32-bit words of a packet, in order. Bytes behind the last whole word
/// are left out.
pub open spec fn sample_words(bytes: Seq<u8>) -> Seq<u32> {
    Seq::new(bytes.len() / 4, |i: int| word_at(bytes, i))
}

/// Splits a packet into the little-endian 32-bit words that hold its samples.
pub fn bytes_to_words(bytes: &[u8]) -> (words: Vec<u32>)
    ensures
        words@ == sample_words(bytes@),
{
    let count: usize = bytes.len() / 4;
    let mut words: Vec<u32> = Vec::new();
    let mut i: usize = 0;
    while i < count
        invariant
            count == bytes.len() / 4,
            i <= count,
            words@.len() == i,
            forall|k: int| 0 <= k < i ==> words@[k] == word_at(bytes@, k),
        decreases count - i,
    {
        let b0: u32 = bytes[4 * i] as u32;
        let b1: u32 = bytes[4 * i + 1] as u32;
        let b2: u32 = bytes[4 * i + 2] as u32;
        let b3: u32 = bytes[4 * i + 3] as u32;
        words.push(b0 + 256 * b1 + 65536 * b2 + 16777216 * b3);
        i = i + 1;
    }
    words
}

/// Sum of the samples from index `from` up to, not including, `to`.
pub open spec fn range_sum(samples: Seq<i32>, from: int, to: int) -> int
    decreases to - from,
{
    if to <= from {
        0
    } else {
        range_sum(samples, from, to - 1) + samples[to - 1]
    }
}

/// Number of frames in `len` interleaved samples of `channels` channels; a last frame that
/// lacks channels counts.
pub open spec fn frame_count(len: nat, channels: nat) -> nat {
    ((len + channels - 1) / (channels as int)) as nat
}

/// End of frame `i`: the start of the next one, or the end of the samples for a last frame
/// that lacks channels.
pub open spec fn frame_end(len: nat, channels: nat, i: int) -> int {
    if (i + 1) * channels <= len {
        (i + 1) * channels
    } else {
        len as int
    }
}

/// Mono sample of frame `i`: the sum of its samples over the number of channels, rounded
/// towards zero.
pub open spec fn frame_mean(samples: Seq<i32>, channels: nat, i: int) -> i32 {
    truncating_div(
        range_sum(samples, i * channels, frame_end(samples.len(), channels, i)),
        channels as int,
    ) as i32
}

/// The mono stream of interleaved samples: with more than one channel the mean of each frame,
/// else the samples themselves.
pub open spec fn downmixed(samples: Seq<i32>, channels: nat) -> Seq<i32> {
    if channels > 1 {
        Seq::new(frame_count(samples.len(), channels), |i: int| frame_mean(samples, channels, i))
    } else {
        samples
    }
}

/// Mixes interleaved samples down to mono by averaging the channels of each frame.
pub fn downmix(samples: &[i32], channels: u32) -> (mono: Vec<i32>)
    ensures
        mono@ == downmixed(samples@, channels as nat),
{
    if channels <= 1 {
        return slice_to_vec(samples);
    }
    let width: usize = channels as usize;
    let len: usize = samples.len();
    let mut mono: Vec<i32> = Vec::new();
    let mut start: usize = 0;
    proof {
        lemma_frame_count(len as nat, width as nat, 0);
    }
    while start < len
        invariant
            width == channels,
            width > 1,
            len == samples.len(),
            start <= len,
            start == mono.len() * width || (start == len && mono.len() == frame_count(
                len as nat,
                width as nat,
            )),
            start == len ==> mono.len() == frame_count(len as nat, width as nat),
            forall|k: int|
                0 <= k < mono.len() ==> mono@[k] == frame_mean(samples@, width as nat, k),
        decreases len - start,
    {
        let ghost i: int = mono.len() as int;
        let end: usize = if len - start > width {
            start + width
        } else {
            len
        };
        proof {
            assert((i + 1) * width == i * width + width) by (nonlinear_arith);
            lemma_frame_count(len as nat, width as nat, i + 1);
        }
        let mut sum: i64 = 0;
        let mut j: usize = start;
        while j < end
            invariant
                start <= j <= end <= len,
                len == samples.len(),
                end - start <= width,
                width <= 0xffff_ffff,
                sum == range_sum(samples@, start as int, j as int),
                -0x8000_0000 * (j - start) <= sum <= 0x7fff_ffff * (j - start),
            decreases end - j,
        {
            sum = sum + samples[j] as i64;
            j = j + 1;
        }
        let mean: i64 = sum / (width as i64);
        assert(-0x8000_0000 <= mean <= 0x7fff_ffff) by (nonlinear_arith)
            requires
                mean == truncating_div(sum as int, width as int),
                -0x8000_0000 * width <= sum <= 0x7fff_ffff * width,
                width > 0,
        ;
        mono.push(mean as i32);
        start = end;
    }
    mono
}

/// Whether a poll goes on to read another packet: as long as no stop is requested and the
/// device, asked for the size of its next packet, names a size above zero. No answer, or a size
/// of zero, ends the poll.
pub fn packet_pending(stop_requested: bool, next_packet_size: Option<u32>) -> (pending: bool)
    ensures
        pending <==> !stop_requested && (next_packet_size matches Some(size) && size > 0),
{
    match next_packet_size {
        Some(size) => !stop_requested && size > 0,
        None => false,
    }
}

/// The mono samples gathered from the packets of one poll of the device.
pub struct PacketDrain {
    channels: u32,
    samples: Vec<i32>,
}

impl View for PacketDrain {
    type V = Seq<i32>;

    closed spec fn view(&self) -> Seq<i32> {
        self.samples@
    }
}

impl PacketDrain {
    /// Number of channels of the device's packets.
    pub closed spec fn channels(&self) -> nat {
        self.channels as nat
    }

    /// A poll that has gathered nothing yet, on a device with packets of `channels` channels.
    pub fn new(channels: u32) -> (drain: Self)
        ensures
            drain@ == Seq::<i32>::empty(),
            drain.channels() == channels,
    {
        PacketDrain { channels, samples: Vec::new() }
    }

    /// Takes in one packet of interleaved samples: mixes it down to mono and puts it behind
    /// what was gathered before. A packet that could not be read is not handed in, and
    /// leaves no trace.
    pub fn push_packet(&mut self, interleaved: &[i32])
        ensures
            final(self)@ == old(self)@ + downmixed(interleaved@, old(self).channels()),
            final(self).channels() == old(self).channels(),
    {
        let mono = downmix(interleaved, self.channels);
        self.samples.extend_from_slice(mono.as_slice());
    }

    /// Ends the poll and hands out what was gathered, in the order of arrival.
    pub fn finish(self) -> (samples: Vec<i32>)
        ensures
            samples@ == self@,
    {
        self.samples
    }
}

/// Frames of `channels` samples that end at or before `len` number at most `frame_count`, and
/// a frame that reaches `len` is the last one.
proof fn lemma_frame_count(len: nat, channels: nat, i: int)
    requires
        channels > 0,
        i >= 0,
    ensures
        i * channels == len ==> frame_count(len, channels) == i,
        (i - 1) * channels < len <= i * channels ==> frame_count(len, channels) == i,
{
    let c = channels as int;
    if (i - 1) * c < len <= i * c {
        assert((len + c - 1) / c == i) by (nonlinear_arith)
            requires
                c > 0,
                (i - 1) * c < len,
                len <= i * c,
        ;
    }
    if i * c == len {
        assert((len + c - 1) / c == i) by (nonlinear_arith)
            requires
                c > 0,
                i * c == len,
        ;
    }
}

} // verus!
