use vstd::prelude::*;

verus! {

/// The sample as an unsigned 16-bit number in two's complement.
pub open spec fn as_unsigned(sample: i16) -> int {
    if sample < 0 {
        sample + 65536
    } else {
        sample as int
    }
}

/// Byte `k` of the little-endian 16-bit encoding of the samples: the low byte of a sample
/// comes first.
pub open spec fn encoded_byte(samples: Seq<i16>, k: int) -> u8 {
    if k % 2 == 0 {
        (as_unsigned(samples[k / 2]) % 256) as u8
    } else {
        (as_unsigned(samples[k / 2]) / 256) as u8
    }
}

/// The samples as little-endian 16-bit PCM, two bytes each.
pub open spec fn encoded(samples: Seq<i16>) -> Seq<u8> {
    Seq::new(2 * samples.len(), |k: int| encoded_byte(samples, k))
}

/// Encodes the samples as little-endian 16-bit PCM.
pub fn encode_pcm(samples: &[i16]) -> (bytes: Vec<u8>)
    ensures
        bytes@ == encoded(samples@),
        bytes@.len() == 2 * samples@.len(),
{
    let mut bytes: Vec<u8> = Vec::new();
    let mut i: usize = 0;
    while i < samples.len()
        invariant
            i <= samples.len(),
            bytes@.len() == 2 * i,
            forall|k: int| 0 <= k < 2 * i ==> bytes@[k] == encoded_byte(samples@, k),
        decreases samples.len() - i,
    {
        let sample: i16 = samples[i];
        let unsigned: u32 = if sample < 0 {
            (sample as i32 + 65536) as u32
        } else {
            sample as u32
        };
        bytes.push((unsigned % 256) as u8);
        bytes.push((unsigned / 256) as u8);
        i = i + 1;
    }
    bytes
}

} // verus!
