//! The round-trip invariant: demodulated bit content is stable across one
//! encode/decode cycle, even though the exact microsecond values shift to
//! the protocols' typical timings.
//!
//! The invariant cannot hold for every decodable input.  Stitching replaces
//! each frame's trailing space with the inter-frame gap, so a frame with no
//! bits loses its leader's space (and with it its classification), and a
//! pulse-distance frame whose last bit is zero re-decodes that bit as one,
//! the gap being far longer than twice the mark.  The lemma therefore asks
//! that every decoded frame carries at least one bit and, for the
//! pulse-distance protocols, ends in a one bit — which holds of any real
//! capture, where the trailing space of a frame is the inter-frame silence.

use vstd::prelude::*;

use crate::decode::spec_bits_all_valid;
use crate::decode::spec_decode;
use crate::decode::spec_demodulate;
use crate::decode::spec_is_gap;
use crate::decode::spec_pdm_bit;
use crate::decode::spec_pwm_bit;
use crate::decode::spec_segment;
use crate::decode::spec_segment_rec;
use crate::decode::DemodulatedFrameView;
use crate::encode::lemma_modulate_bits_index;
use crate::encode::spec_encode;
use crate::encode::spec_frame_encodable;
use crate::encode::spec_modulate_bit;
use crate::encode::spec_remodulate;
use crate::encode::spec_replace_trailing_gap;
use crate::encode::spec_stitch;
use crate::protocols::spec_aeha_bit_one;
use crate::protocols::spec_aeha_bit_zero;
use crate::protocols::spec_aeha_leader;
use crate::protocols::spec_leader_in_window;
use crate::protocols::spec_nec_bit_one;
use crate::protocols::spec_nec_bit_zero;
use crate::protocols::spec_nec_leader;
use crate::protocols::spec_sirc_bit_one;
use crate::protocols::spec_sirc_bit_zero;
use crate::protocols::spec_sirc_leader;
use crate::units::MarkAndSpaceMicros;

verus! {

/// Whether one decoded frame survives an encode/decode cycle unchanged: it
/// carries a known protocol, at least one bit, and — under pulse-distance
/// modulation, where the regenerated trailing gap always reads as one — a
/// final one bit.
pub open spec fn spec_frame_round_trippable(d: DemodulatedFrameView) -> bool {
    match d {
        DemodulatedFrameView::Aeha(bits) => bits.len() > 0 && bits.last().0 == 1,
        DemodulatedFrameView::Nec(bits) => bits.len() > 0 && bits.last().0 == 1,
        DemodulatedFrameView::Sirc(bits) => bits.len() > 0,
        DemodulatedFrameView::Unknown(_) => false,
    }
}

/// Demodulation only ever produces zero and one bits.
proof fn lemma_demodulate_bits_valid(frame: Seq<MarkAndSpaceMicros>)
    ensures
        match spec_demodulate(frame) {
            DemodulatedFrameView::Aeha(bits) => spec_bits_all_valid(bits),
            DemodulatedFrameView::Nec(bits) => spec_bits_all_valid(bits),
            DemodulatedFrameView::Sirc(bits) => spec_bits_all_valid(bits),
            DemodulatedFrameView::Unknown(_) => true,
        },
{
    match spec_demodulate(frame) {
        DemodulatedFrameView::Aeha(bits) => {
            assert forall|i: int| 0 <= i < bits.len() implies (#[trigger] bits[i]).0 <= 1 by {
                assert(bits[i] == spec_pdm_bit(frame.skip(1)[i]));
            }
        },
        DemodulatedFrameView::Nec(bits) => {
            assert forall|i: int| 0 <= i < bits.len() implies (#[trigger] bits[i]).0 <= 1 by {
                assert(bits[i] == spec_pdm_bit(frame.skip(1)[i]));
            }
        },
        DemodulatedFrameView::Sirc(bits) => {
            assert forall|i: int| 0 <= i < bits.len() implies (#[trigger] bits[i]).0 <= 1 by {
                assert(bits[i] == spec_pwm_bit(frame.skip(1)[i]));
            }
        },
        DemodulatedFrameView::Unknown(_) => {},
    }
}

/// A re-modulated frame holds the leader and one pulse per bit, and every
/// one of its pulses — built from the timing tables alone — falls short of
/// the inter-frame gap threshold.
proof fn lemma_remodulated_shape(d: DemodulatedFrameView)
    requires
        spec_frame_encodable(d),
        spec_frame_round_trippable(d),
    ensures
        ({
            let f = spec_remodulate(d);
            &&& f.len() >= 2
            &&& forall|j: int| 0 <= j < f.len() ==> !spec_is_gap(#[trigger] f[j])
        }),
{
    let f = spec_remodulate(d);
    match d {
        DemodulatedFrameView::Aeha(bits) => {
            lemma_modulate_bits_index(bits, spec_aeha_bit_zero(), spec_aeha_bit_one());
            assert forall|j: int| 0 <= j < f.len() implies !spec_is_gap(#[trigger] f[j]) by {
                if j > 0 {
                    assert(f[j] == spec_modulate_bit(
                        bits[j - 1],
                        spec_aeha_bit_zero(),
                        spec_aeha_bit_one(),
                    ));
                }
            }
        },
        DemodulatedFrameView::Nec(bits) => {
            lemma_modulate_bits_index(bits, spec_nec_bit_zero(), spec_nec_bit_one());
            assert forall|j: int| 0 <= j < f.len() implies !spec_is_gap(#[trigger] f[j]) by {
                if j > 0 {
                    assert(f[j] == spec_modulate_bit(
                        bits[j - 1],
                        spec_nec_bit_zero(),
                        spec_nec_bit_one(),
                    ));
                }
            }
        },
        DemodulatedFrameView::Sirc(bits) => {
            lemma_modulate_bits_index(bits, spec_sirc_bit_zero(), spec_sirc_bit_one());
            assert forall|j: int| 0 <= j < f.len() implies !spec_is_gap(#[trigger] f[j]) by {
                if j > 0 {
                    assert(f[j] == spec_modulate_bit(
                        bits[j - 1],
                        spec_sirc_bit_zero(),
                        spec_sirc_bit_one(),
                    ));
                }
            }
        },
        DemodulatedFrameView::Unknown(_) => {},
    }
}

/// Re-modulating a round-trippable frame, replacing its trailing space with
/// the inter-frame gap, and demodulating again gives the frame back.
proof fn lemma_demodulate_of_remodulated(d: DemodulatedFrameView)
    requires
        spec_frame_encodable(d),
        spec_frame_round_trippable(d),
    ensures
        spec_demodulate(spec_replace_trailing_gap(spec_remodulate(d))) == d,
{
    let f = spec_remodulate(d);
    let b = spec_replace_trailing_gap(f);
    lemma_remodulated_shape(d);
    assert(b.len() == f.len());
    assert(b[0] == f[0]);
    let tail = b.skip(1);
    match d {
        DemodulatedFrameView::Aeha(bits) => {
            lemma_modulate_bits_index(bits, spec_aeha_bit_zero(), spec_aeha_bit_one());
            assert(b[0] == spec_aeha_leader());
            assert(spec_leader_in_window(b[0], spec_aeha_leader()));
            let demod_bits = tail.map_values(|x: MarkAndSpaceMicros| spec_pdm_bit(x));
            assert forall|k: int| 0 <= k < bits.len() implies demod_bits[k] == #[trigger] bits[k] by {
                assert(tail[k] == b[k + 1]);
                if k < bits.len() - 1 {
                    assert(b[k + 1] == f[k + 1]);
                    assert(f[k + 1] == spec_modulate_bit(
                        bits[k],
                        spec_aeha_bit_zero(),
                        spec_aeha_bit_one(),
                    ));
                } else {
                    assert(f.last().mark == spec_modulate_bit(
                        bits[k],
                        spec_aeha_bit_zero(),
                        spec_aeha_bit_one(),
                    ).mark);
                    assert(b[k + 1].space.0 == 8000);
                    assert(bits[k].0 == 1);
                }
            }
            assert(demod_bits =~= bits);
        },
        DemodulatedFrameView::Nec(bits) => {
            lemma_modulate_bits_index(bits, spec_nec_bit_zero(), spec_nec_bit_one());
            assert(b[0] == spec_nec_leader());
            assert(!spec_leader_in_window(b[0], spec_aeha_leader()));
            assert(spec_leader_in_window(b[0], spec_nec_leader()));
            let demod_bits = tail.map_values(|x: MarkAndSpaceMicros| spec_pdm_bit(x));
            assert forall|k: int| 0 <= k < bits.len() implies demod_bits[k] == #[trigger] bits[k] by {
                assert(tail[k] == b[k + 1]);
                if k < bits.len() - 1 {
                    assert(b[k + 1] == f[k + 1]);
                    assert(f[k + 1] == spec_modulate_bit(
                        bits[k],
                        spec_nec_bit_zero(),
                        spec_nec_bit_one(),
                    ));
                } else {
                    assert(f.last().mark == spec_modulate_bit(
                        bits[k],
                        spec_nec_bit_zero(),
                        spec_nec_bit_one(),
                    ).mark);
                    assert(b[k + 1].space.0 == 8000);
                    assert(bits[k].0 == 1);
                }
            }
            assert(demod_bits =~= bits);
        },
        DemodulatedFrameView::Sirc(bits) => {
            lemma_modulate_bits_index(bits, spec_sirc_bit_zero(), spec_sirc_bit_one());
            assert(b[0] == spec_sirc_leader());
            assert(!spec_leader_in_window(b[0], spec_aeha_leader()));
            assert(!spec_leader_in_window(b[0], spec_nec_leader()));
            assert(spec_leader_in_window(b[0], spec_sirc_leader()));
            let demod_bits = tail.map_values(|x: MarkAndSpaceMicros| spec_pwm_bit(x));
            assert forall|k: int| 0 <= k < bits.len() implies demod_bits[k] == #[trigger] bits[k] by {
                assert(tail[k] == b[k + 1]);
                assert(f[k + 1] == spec_modulate_bit(
                    bits[k],
                    spec_sirc_bit_zero(),
                    spec_sirc_bit_one(),
                ));
                if k < bits.len() - 1 {
                    assert(b[k + 1] == f[k + 1]);
                } else {
                    assert(b[k + 1].mark == f[k + 1].mark);
                }
            }
            assert(demod_bits =~= bits);
        },
        DemodulatedFrameView::Unknown(_) => {},
    }
}

/// Segmenting `block + rest`, where every pulse of `block` but its last is
/// short of the gap threshold and its last reaches it, closes `acc + block`
/// as one frame and goes on with `rest` afresh.
proof fn lemma_segment_rec_prepend(
    block: Seq<MarkAndSpaceMicros>,
    rest: Seq<MarkAndSpaceMicros>,
    acc: Seq<MarkAndSpaceMicros>,
)
    requires
        block.len() > 0,
        forall|j: int| 0 <= j < block.len() - 1 ==> !spec_is_gap(#[trigger] block[j]),
        spec_is_gap(block.last()),
    ensures
        spec_segment_rec(block + rest, acc) == seq![acc + block] + spec_segment_rec(
            rest,
            Seq::empty(),
        ),
    decreases block.len(),
{
    let s = block + rest;
    assert(s.len() > 0);
    assert(s[0] == block[0]);
    if block.len() == 1 {
        assert(spec_is_gap(s[0]));
        assert(s.skip(1) =~= rest);
        assert(acc.push(s[0]) =~= acc + block);
    } else {
        assert(!spec_is_gap(s[0]));
        assert(s.skip(1) =~= block.skip(1) + rest);
        assert(forall|j: int|
            0 <= j < block.skip(1).len() - 1 ==> !spec_is_gap(#[trigger] block.skip(1)[j]));
        assert(block.skip(1).last() == block.last());
        lemma_segment_rec_prepend(block.skip(1), rest, acc.push(block[0]));
        assert(acc.push(block[0]) + block.skip(1) =~= acc + block);
    }
}

/// Segmenting a stitched pulse sequence recovers exactly the stitched
/// frames: each one ends with the regenerated gap and holds no earlier gap.
proof fn lemma_segment_of_stitched(frames: Seq<Seq<MarkAndSpaceMicros>>)
    requires
        forall|i: int| 0 <= i < frames.len() ==> (#[trigger] frames[i]).len() > 0,
        forall|i: int, j: int|
            0 <= i < frames.len() && 0 <= j < frames[i].len() - 1 ==> !spec_is_gap(
                #[trigger] frames[i][j],
            ),
    ensures
        spec_segment(spec_stitch(frames)) == Seq::new(
            frames.len(),
            |i: int| spec_replace_trailing_gap(frames[i]),
        ),
    decreases frames.len(),
{
    if frames.len() == 0 {
        assert(spec_segment(spec_stitch(frames)) =~= Seq::new(
            frames.len(),
            |i: int| spec_replace_trailing_gap(frames[i]),
        ));
    } else {
        let b = spec_replace_trailing_gap(frames[0]);
        assert(b.len() == frames[0].len());
        assert(forall|j: int| 0 <= j < b.len() - 1 ==> b[j] == frames[0][j]);
        assert(spec_is_gap(b.last()));
        lemma_segment_rec_prepend(b, spec_stitch(frames.skip(1)), Seq::empty());
        assert(Seq::empty() + b =~= b);
        assert(forall|i: int|
            0 <= i < frames.skip(1).len() ==> (#[trigger] frames.skip(1)[i]).len() > 0);
        assert forall|i: int, j: int|
            0 <= i < frames.skip(1).len() && 0 <= j < frames.skip(1)[i].len() - 1
            implies !spec_is_gap(#[trigger] frames.skip(1)[i][j]) by {
            assert(frames.skip(1)[i] == frames[i + 1]);
        }
        lemma_segment_of_stitched(frames.skip(1));
        assert(spec_segment(spec_stitch(frames)) =~= Seq::new(
            frames.len(),
            |i: int| spec_replace_trailing_gap(frames[i]),
        ));
    }
}

/// Round-trip invariant: for a decodable pulse sequence whose decoded
/// frames all carry a known protocol, at least one bit, and — under
/// pulse-distance modulation — a final one bit, re-encoding and decoding
/// again reproduces the demodulated frames exactly.
pub proof fn lemma_round_trip(s: Seq<MarkAndSpaceMicros>)
    requires
        forall|i: int|
            0 <= i < spec_decode(s).len() ==> spec_frame_round_trippable(
                #[trigger] spec_decode(s)[i],
            ),
    ensures
        spec_decode(spec_encode(spec_decode(s))) == spec_decode(s),
{
    let ds = spec_decode(s);
    assert forall|i: int| 0 <= i < ds.len() implies spec_frame_encodable(#[trigger] ds[i]) by {
        assert(ds[i] == spec_demodulate(spec_segment(s)[i]));
        lemma_demodulate_bits_valid(spec_segment(s)[i]);
    }
    let fs = ds.map_values(|d: DemodulatedFrameView| spec_remodulate(d));
    assert(spec_encode(ds) == spec_stitch(fs));
    assert forall|i: int| 0 <= i < fs.len() implies (#[trigger] fs[i]).len() > 0 by {
        lemma_remodulated_shape(ds[i]);
    }
    assert forall|i: int, j: int|
        0 <= i < fs.len() && 0 <= j < fs[i].len() - 1 implies !spec_is_gap(
        #[trigger] fs[i][j],
    ) by {
        lemma_remodulated_shape(ds[i]);
    }
    lemma_segment_of_stitched(fs);
    let blocks = Seq::new(fs.len(), |i: int| spec_replace_trailing_gap(fs[i]));
    assert forall|i: int| 0 <= i < blocks.len() implies spec_demodulate(#[trigger] blocks[i])
        == ds[i] by {
        lemma_demodulate_of_remodulated(ds[i]);
    }
    assert(spec_decode(spec_encode(ds)) =~= ds);
}

} // verus!
