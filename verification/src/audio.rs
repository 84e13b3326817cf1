//! Filling an interleaved output buffer from the engine.
//!
//! The engine is monophonic. An output buffer holds frames of one sample per
//! channel; every frame takes one sample from the engine and holds it on all
//! its channels. A buffer that ends in the middle of a frame gets a last,
//! shorter frame.

use crate::synth::Synth;
use vstd::arithmetic::div_mod::lemma_fundamental_div_mod_converse;
use vstd::prelude::*;

verus! {

/// The number of frames in a buffer of `len` samples with `channels` samples
/// per frame, the last one counted even if it is cut short.
pub open spec fn frame_count(len: int, channels: int) -> int {
    (len + channels - 1) / channels
}

/// The sample with the index `i` belongs to the frame `frame` exactly when
/// it lies in that frame's range.
proof fn lemma_frame_of(i: int, frame: int, channels: int)
    requires
        0 < channels,
        frame * channels <= i < frame * channels + channels,
    ensures
        i / channels == frame,
{
    lemma_fundamental_div_mod_converse(i, channels, frame, i - frame * channels);
}

/// Fills `output` with samples from `synth`, one new sample per frame of
/// `channels` samples.
pub fn write_data(output: &mut [i64], channels: usize, synth: &mut Synth)
    requires
        channels > 0,
        old(synth).wf(),
    ensures
        final(output)@.len() == old(output)@.len(),
        forall|i: int|
            0 <= i < final(output)@.len() ==> #[trigger] final(output)@[i] == old(
                synth,
            )@.after_samples((i / channels as int) as nat).output(),
        final(synth)@ == old(synth)@.after_samples(
            frame_count(old(output)@.len() as int, channels as int) as nat,
        ),
        final(synth).wf(),
{
    let ghost start = synth@;
    let len = output.len();
    let mut done: usize = 0;
    let ghost mut frame: int = 0;
    while done < len
        invariant
            channels > 0,
            output@.len() == len,
            done <= len,
            0 <= frame,
            frame > 0 ==> (frame - 1) * channels < len,
            done == if frame * channels <= len {
                frame * channels
            } else {
                len as int
            },
            synth.wf(),
            synth@ == start.after_samples(frame as nat),
            forall|i: int|
                0 <= i < done ==> #[trigger] output@[i] == start.after_samples(
                    (i / channels as int) as nat,
                ).output(),
        decreases len - done,
    {
        let value = synth.generate_sample();
        let end: usize = if channels > len - done {
            len
        } else {
            done + channels
        };
        let mut k: usize = done;
        while k < end
            invariant
                channels > 0,
                output@.len() == len,
                done <= k <= end <= len,
                done == frame * channels,
                end <= done + channels,
                value == start.after_samples(frame as nat).output(),
                forall|i: int|
                    0 <= i < k ==> #[trigger] output@[i] == start.after_samples(
                        (i / channels as int) as nat,
                    ).output(),
            decreases end - k,
        {
            proof {
                lemma_frame_of(k as int, frame, channels as int);
            }
            output[k] = value;
            k += 1;
        }
        proof {
            assert((frame + 1) * channels == frame * channels + channels) by (nonlinear_arith);
            frame = frame + 1;
        }
        done = end;
    }
    proof {
        // The frames are counted up to the one that holds the last sample.
        assert((frame - 1) * channels == frame * channels - channels) by (nonlinear_arith);
        if frame > 0 {
            lemma_frame_of(len + channels - 1, frame, channels as int);
        } else {
            assert(frame * channels == 0) by (nonlinear_arith)
                requires
                    frame == 0,
            ;
            lemma_frame_of(channels - 1, 0, channels as int);
        }
    }
}

} // verus!
