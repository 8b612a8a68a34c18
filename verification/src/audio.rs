//! Audio output that is not there, and the packing of a stereo sample.

use vstd::prelude::*;

verus! {

/// The sample rate that the silent player asks for.
pub const NULL_SAMPLE_RATE: u32 = 5512;

/// An audio player that throws every sample away.
pub struct NullAudioPlayer;

impl NullAudioPlayer {
    /// Takes the samples and does nothing with them.
    pub fn play(&mut self, _output_buffer: &[u16]) {
    }

    /// The number of samples per second that the player wants.
    pub fn samples_rate(&self) -> (rate: u32)
        ensures
            rate == NULL_SAMPLE_RATE,
    {
        NULL_SAMPLE_RATE
    }

    /// Whether the player has run out of samples, which it never does.
    pub fn underflowed(&self) -> (underflowed: bool)
        ensures
            !underflowed,
    {
        false
    }
}

/// One 32-bit word with `high` in its upper half and `low` in its lower half.
pub fn combine_u16_to_u32(high: u16, low: u16) -> (combined: u32)
    ensures
        combined == high as int * 0x1_0000 + low as int,
{
    let upper: u32 = (high as u32) << 16;
    proof {
        assert(((high as u32) << 16) == (high as u32) * 0x1_0000) by (bit_vector);
        assert((((high as u32) << 16) | (low as u32)) == ((high as u32) << 16) + (low as u32))
            by (bit_vector);
    }
    upper | (low as u32)
}

/// How many times each stereo frame is written out for the output stage.
pub const FRAME_REPEAT: usize = 8;

/// The word for the stereo frame `frame` of `samples`, which holds the left
/// and the right sample of each frame side by side.
pub open spec fn frame_word(samples: Seq<u16>, frame: int) -> int {
    samples[2 * frame] as int * 0x1_0000 + samples[2 * frame + 1] as int
}

/// The words for the output stage: one word for each stereo frame, the left
/// sample above the right one, written out eight times in a row.
pub fn pack_frames(samples: &[u16]) -> (words: Vec<u32>)
    requires
        samples@.len() % 2 == 0,
    ensures
        words@.len() == samples@.len() / 2 * FRAME_REPEAT,
        forall|j: int|
            0 <= j < words@.len() ==> #[trigger] words@[j] as int == frame_word(
                samples@,
                j / FRAME_REPEAT as int,
            ),
{
    let length = samples.len();
    let frames = length / 2;
    let mut words: Vec<u32> = Vec::new();
    let mut i: usize = 0;
    while i < frames
        invariant
            length == samples@.len(),
            frames == samples@.len() / 2,
            samples@.len() % 2 == 0,
            i <= frames,
            words@.len() == i * FRAME_REPEAT,
            forall|j: int|
                0 <= j < words@.len() ==> #[trigger] words@[j] as int == frame_word(
                    samples@,
                    j / FRAME_REPEAT as int,
                ),
        decreases frames - i,
    {
        assert(2 * i + 1 < length);
        let combined = combine_u16_to_u32(samples[2 * i], samples[2 * i + 1]);
        let mut k: usize = 0;
        while k < FRAME_REPEAT
            invariant
                k <= FRAME_REPEAT,
                i < frames,
                combined as int == frame_word(samples@, i as int),
                words@.len() == i * FRAME_REPEAT + k,
                forall|j: int|
                    0 <= j < words@.len() ==> #[trigger] words@[j] as int == frame_word(
                        samples@,
                        j / FRAME_REPEAT as int,
                    ),
            decreases FRAME_REPEAT - k,
        {
            words.push(combined);
            k += 1;
        }
        i += 1;
    }
    words
}

} // verus!
