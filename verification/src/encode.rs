//! Encode direction: re-modulation of demodulated frames into pulse trains,
//! stitching of the frames with regenerated inter-frame gaps, and rendering
//! as the hexadecimal wire format.

use vstd::prelude::*;
use vstd::slice::slice_to_vec;
use vstd::string::StringExecFns;

use crate::decode::spec_bits_all_valid;
use crate::decode::spec_views_of_demods;
use crate::decode::spec_views_of_frames;
use crate::decode::Bit;
use crate::decode::DemodulatedFrameView;
use crate::decode::InfraredRemoteDemodulatedFrame;
use crate::decode::InfraredRemoteFrame;
use crate::protocols::spec_aeha_bit_one;
use crate::protocols::spec_aeha_bit_zero;
use crate::protocols::spec_aeha_leader;
use crate::protocols::spec_nec_bit_one;
use crate::protocols::spec_nec_bit_zero;
use crate::protocols::spec_nec_leader;
use crate::protocols::spec_sirc_bit_one;
use crate::protocols::spec_sirc_bit_zero;
use crate::protocols::spec_sirc_leader;
use crate::protocols::aeha_bit_one;
use crate::protocols::aeha_bit_zero;
use crate::protocols::aeha_leader;
use crate::protocols::nec_bit_one;
use crate::protocols::nec_bit_zero;
use crate::protocols::nec_leader;
use crate::protocols::sirc_bit_one;
use crate::protocols::sirc_bit_zero;
use crate::protocols::sirc_leader;
use crate::protocols::THRESHOLD_FRAME_GAP_US;
use crate::units::spec_hex4_le;
use crate::units::spec_us_to_ticks;
use crate::units::MarkAndSpace;
use crate::units::MarkAndSpaceIrCarrier;
use crate::units::MarkAndSpaceMicros;
use crate::units::Microseconds;

verus! {

/// The pulse standing for one bit, given a protocol's zero and one pulses.
pub open spec fn spec_modulate_bit(
    b: Bit,
    zero: MarkAndSpaceMicros,
    one: MarkAndSpaceMicros,
) -> MarkAndSpaceMicros
    recommends
        b.0 <= 1,
{
    if b.0 == 0 {
        zero
    } else {
        one
    }
}

/// Whether a demodulated frame can be re-modulated: it must carry a known
/// protocol tag and every bit must be zero or one.
pub open spec fn spec_frame_encodable(d: DemodulatedFrameView) -> bool {
    match d {
        DemodulatedFrameView::Aeha(bits) => spec_bits_all_valid(bits),
        DemodulatedFrameView::Nec(bits) => spec_bits_all_valid(bits),
        DemodulatedFrameView::Sirc(bits) => spec_bits_all_valid(bits),
        DemodulatedFrameView::Unknown(_) => false,
    }
}

/// The pulses standing for a bit sequence, one typical pulse per bit.
pub open spec fn spec_modulate_bits(
    bits: Seq<Bit>,
    zero: MarkAndSpaceMicros,
    one: MarkAndSpaceMicros,
) -> Seq<MarkAndSpaceMicros>
    decreases bits.len(),
{
    if bits.len() == 0 {
        Seq::empty()
    } else {
        seq![spec_modulate_bit(bits[0], zero, one)] + spec_modulate_bits(bits.skip(1), zero, one)
    }
}

/// Modulation maps a bit sequence pointwise: the result has one pulse per
/// bit, and the pulse at each position is the typical pulse of the bit
/// there.
pub proof fn lemma_modulate_bits_index(
    bits: Seq<Bit>,
    zero: MarkAndSpaceMicros,
    one: MarkAndSpaceMicros,
)
    ensures
        spec_modulate_bits(bits, zero, one).len() == bits.len(),
        forall|k: int|
            0 <= k < bits.len() ==> spec_modulate_bits(bits, zero, one)[k] == spec_modulate_bit(
                #[trigger] bits[k],
                zero,
                one,
            ),
    decreases bits.len(),
{
    if bits.len() > 0 {
        lemma_modulate_bits_index(bits.skip(1), zero, one);
        assert forall|k: int|
            0 <= k < bits.len() implies spec_modulate_bits(bits, zero, one)[k]
            == spec_modulate_bit(#[trigger] bits[k], zero, one) by {
            if k > 0 {
                assert(bits.skip(1)[k - 1] == bits[k]);
            }
        }
    }
}

/// The pulse train regenerated from a demodulated frame: the protocol's
/// leader pulse followed by one typical pulse per bit.
pub open spec fn spec_remodulate(d: DemodulatedFrameView) -> Seq<MarkAndSpaceMicros>
    recommends
        spec_frame_encodable(d),
{
    match d {
        DemodulatedFrameView::Aeha(bits) => seq![spec_aeha_leader()] + spec_modulate_bits(
            bits,
            spec_aeha_bit_zero(),
            spec_aeha_bit_one(),
        ),
        DemodulatedFrameView::Nec(bits) => seq![spec_nec_leader()] + spec_modulate_bits(
            bits,
            spec_nec_bit_zero(),
            spec_nec_bit_one(),
        ),
        DemodulatedFrameView::Sirc(bits) => seq![spec_sirc_leader()] + spec_modulate_bits(
            bits,
            spec_sirc_bit_zero(),
            spec_sirc_bit_one(),
        ),
        DemodulatedFrameView::Unknown(_) => Seq::empty(),
    }
}

/// The error reported when a frame cannot be re-modulated.
pub open spec fn spec_phase1_err_msg(d: DemodulatedFrameView) -> Seq<char> {
    if d is Unknown {
        "encode_phase1: an unknown protocol cannot be modulated."@
    } else {
        "encode_phase1: a bit value other than zero or one cannot be modulated."@
    }
}

fn modulate_all(bits: &Vec<Bit>, zero: MarkAndSpaceMicros, one: MarkAndSpaceMicros) -> (r: Option<
    Vec<MarkAndSpaceMicros>,
>)
    ensures
        r is Some <==> spec_bits_all_valid(bits@),
        r matches Some(v) ==> v@ == spec_modulate_bits(bits@, zero, one),
{
    let mut pulses: Vec<MarkAndSpaceMicros> = Vec::new();
    let mut i: usize = 0;
    proof {
        assert(bits@.skip(0) =~= bits@);
        assert(pulses@ + spec_modulate_bits(bits@, zero, one) =~= spec_modulate_bits(
            bits@,
            zero,
            one,
        ));
    }
    while i < bits.len()
        invariant
            i <= bits@.len(),
            forall|k: int| 0 <= k < i ==> (#[trigger] bits@[k]).0 <= 1,
            spec_modulate_bits(bits@, zero, one) == pulses@ + spec_modulate_bits(
                bits@.skip(i as int),
                zero,
                one,
            ),
        decreases bits@.len() - i,
    {
        let ghost prefix = pulses@;
        let ghost rest = bits@.skip(i as int);
        let b = bits[i];
        proof {
            assert(rest[0] == bits@[i as int]);
        }
        if b.0 == 0 {
            pulses.push(zero);
        } else if b.0 == 1 {
            pulses.push(one);
        } else {
            proof {
                assert(!spec_bits_all_valid(bits@));
            }
            return None;
        }
        proof {
            assert(rest.skip(1) =~= bits@.skip(i as int + 1));
            assert(prefix + (seq![spec_modulate_bit(rest[0], zero, one)] + spec_modulate_bits(
                rest.skip(1),
                zero,
                one,
            )) =~= pulses@ + spec_modulate_bits(bits@.skip(i as int + 1), zero, one));
        }
        i = i + 1;
    }
    proof {
        assert(bits@.skip(i as int) =~= Seq::<Bit>::empty());
        assert(pulses@ + Seq::<MarkAndSpaceMicros>::empty() =~= pulses@);
    }
    Some(pulses)
}

/// Re-modulates one demodulated frame into a pulse train: the protocol's
/// leader pulse followed by the typical pulse of each bit.  An `Unknown`
/// frame, or a bit value other than zero or one, cannot be re-modulated and
/// is reported as an error.
pub fn encode_phase1(input: &InfraredRemoteDemodulatedFrame) -> (r: Result<
    InfraredRemoteFrame,
    String,
>)
    ensures
        r is Ok <==> spec_frame_encodable(input@),
        r matches Ok(f) ==> f@ == spec_remodulate(input@),
        r matches Err(e) ==> e@ == spec_phase1_err_msg(input@),
{
    match input {
        InfraredRemoteDemodulatedFrame::Aeha(bits) => {
            match modulate_all(bits, aeha_bit_zero(), aeha_bit_one()) {
                Some(pulses) => {
                    let mut frame: Vec<MarkAndSpaceMicros> = Vec::new();
                    frame.push(aeha_leader());
                    let mut trailer = pulses;
                    frame.append(&mut trailer);
                    proof {
                        assert(frame@ =~= spec_remodulate(input@));
                    }
                    Ok(InfraredRemoteFrame(frame))
                },
                None => Err(
                    String::from_str(
                        "encode_phase1: a bit value other than zero or one cannot be modulated.",
                    ),
                ),
            }
        },
        InfraredRemoteDemodulatedFrame::Nec(bits) => {
            match modulate_all(bits, nec_bit_zero(), nec_bit_one()) {
                Some(pulses) => {
                    let mut frame: Vec<MarkAndSpaceMicros> = Vec::new();
                    frame.push(nec_leader());
                    let mut trailer = pulses;
                    frame.append(&mut trailer);
                    proof {
                        assert(frame@ =~= spec_remodulate(input@));
                    }
                    Ok(InfraredRemoteFrame(frame))
                },
                None => Err(
                    String::from_str(
                        "encode_phase1: a bit value other than zero or one cannot be modulated.",
                    ),
                ),
            }
        },
        InfraredRemoteDemodulatedFrame::Sirc(bits) => {
            match modulate_all(bits, sirc_bit_zero(), sirc_bit_one()) {
                Some(pulses) => {
                    let mut frame: Vec<MarkAndSpaceMicros> = Vec::new();
                    frame.push(sirc_leader());
                    let mut trailer = pulses;
                    frame.append(&mut trailer);
                    proof {
                        assert(frame@ =~= spec_remodulate(input@));
                    }
                    Ok(InfraredRemoteFrame(frame))
                },
                None => Err(
                    String::from_str(
                        "encode_phase1: a bit value other than zero or one cannot be modulated.",
                    ),
                ),
            }
        },
        InfraredRemoteDemodulatedFrame::Unknown(_) => Err(
            String::from_str("encode_phase1: an unknown protocol cannot be modulated."),
        ),
    }
}

/// A frame with the space of its final pulse replaced by the inter-frame
/// gap, regenerating the silence that segmentation consumed as a delimiter.
pub open spec fn spec_replace_trailing_gap(f: Seq<MarkAndSpaceMicros>) -> Seq<MarkAndSpaceMicros> {
    if f.len() == 0 {
        f
    } else {
        f.update(
            f.len() - 1,
            MarkAndSpace { mark: f.last().mark, space: Microseconds(THRESHOLD_FRAME_GAP_US) },
        )
    }
}

/// The flat pulse sequence stitched from re-modulated frames: each frame's
/// trailing space becomes the inter-frame gap (the last frame's included),
/// and the frames' pulses are concatenated in order.
pub open spec fn spec_stitch(frames: Seq<Seq<MarkAndSpaceMicros>>) -> Seq<MarkAndSpaceMicros>
    decreases frames.len(),
{
    if frames.len() == 0 {
        Seq::empty()
    } else {
        spec_replace_trailing_gap(frames[0]) + spec_stitch(frames.skip(1))
    }
}

/// Stitches re-modulated frames into one flat pulse sequence, replacing
/// every frame's trailing space — the last frame's too — with the
/// inter-frame gap.
pub fn encode_phase2(input: &[InfraredRemoteFrame]) -> (r: Vec<MarkAndSpaceMicros>)
    ensures
        r@ == spec_stitch(spec_views_of_frames(input@)),
{
    let mut flat: Vec<MarkAndSpaceMicros> = Vec::new();
    let mut i: usize = 0;
    proof {
        let all = spec_views_of_frames(input@);
        assert(all.skip(0) =~= all);
        assert(flat@ + spec_stitch(all) =~= spec_stitch(all));
    }
    while i < input.len()
        invariant
            i <= input@.len(),
            spec_stitch(spec_views_of_frames(input@)) == flat@ + spec_stitch(
                spec_views_of_frames(input@).skip(i as int),
            ),
        decreases input@.len() - i,
    {
        let ghost all = spec_views_of_frames(input@);
        let ghost rest = all.skip(i as int);
        let ghost prefix = flat@;
        let mut x: Vec<MarkAndSpaceMicros> = slice_to_vec(input[i].0.as_slice());
        if x.len() > 0 {
            let last_index = x.len() - 1;
            let kept_mark = x[last_index].mark;
            x[last_index] = MarkAndSpace {
                mark: kept_mark,
                space: Microseconds(THRESHOLD_FRAME_GAP_US),
            };
        }
        proof {
            assert(rest[0] == input@[i as int]@);
            assert(x@ =~= spec_replace_trailing_gap(rest[0]));
        }
        flat.append(&mut x);
        proof {
            assert(rest.skip(1) =~= all.skip(i as int + 1));
            assert(prefix + (spec_replace_trailing_gap(rest[0]) + spec_stitch(
                all.skip(i as int + 1),
            )) =~= (prefix + spec_replace_trailing_gap(rest[0])) + spec_stitch(
                all.skip(i as int + 1),
            ));
        }
        i = i + 1;
    }
    proof {
        let all = spec_views_of_frames(input@);
        assert(all.skip(i as int) =~= Seq::<Seq<MarkAndSpaceMicros>>::empty());
        assert(flat@ + Seq::<MarkAndSpaceMicros>::empty() =~= flat@);
    }
    flat
}

/// Whether every frame of a demodulated sequence can be re-modulated.
pub open spec fn spec_all_encodable(ds: Seq<DemodulatedFrameView>) -> bool {
    forall|i: int| 0 <= i < ds.len() ==> spec_frame_encodable(#[trigger] ds[i])
}

/// The index of the first frame that cannot be re-modulated.
pub open spec fn spec_first_unencodable(ds: Seq<DemodulatedFrameView>) -> int
    decreases ds.len(),
{
    if ds.len() == 0 {
        0
    } else if !spec_frame_encodable(ds[0]) {
        0
    } else {
        1 + spec_first_unencodable(ds.skip(1))
    }
}

proof fn lemma_first_unencodable(ds: Seq<DemodulatedFrameView>, i: int)
    requires
        0 <= i < ds.len(),
        forall|k: int| 0 <= k < i ==> spec_frame_encodable(#[trigger] ds[k]),
        !spec_frame_encodable(ds[i]),
    ensures
        spec_first_unencodable(ds) == i,
    decreases ds.len(),
{
    if i == 0 {
    } else {
        assert(spec_frame_encodable(ds[0]));
        assert(forall|k: int|
            0 <= k < i - 1 ==> spec_frame_encodable(#[trigger] ds.skip(1)[k]));
        assert(ds.skip(1)[i - 1] == ds[i]);
        lemma_first_unencodable(ds.skip(1), i - 1);
    }
}

/// The whole pulse sequence encoded from demodulated frames: each frame is
/// re-modulated, then the frames are stitched with inter-frame gaps.
pub open spec fn spec_encode(ds: Seq<DemodulatedFrameView>) -> Seq<MarkAndSpaceMicros>
    recommends
        spec_all_encodable(ds),
{
    spec_stitch(ds.map_values(|d: DemodulatedFrameView| spec_remodulate(d)))
}

/// Re-modulates every demodulated frame and stitches the results into one
/// flat pulse sequence.  Fails on the first frame that cannot be
/// re-modulated, with that frame's error.
pub fn encode_to_mark_and_spaces(input: &[InfraredRemoteDemodulatedFrame]) -> (r: Result<
    Vec<MarkAndSpaceMicros>,
    String,
>)
    ensures
        r is Ok <==> spec_all_encodable(spec_views_of_demods(input@)),
        r matches Ok(v) ==> v@ == spec_encode(spec_views_of_demods(input@)),
        r matches Err(e) ==> e@ == spec_phase1_err_msg(
            spec_views_of_demods(input@)[spec_first_unencodable(spec_views_of_demods(input@))],
        ),
{
    let ghost ds = spec_views_of_demods(input@);
    let ghost rm = |d: DemodulatedFrameView| spec_remodulate(d);
    let mut frames: Vec<InfraredRemoteFrame> = Vec::new();
    let mut i: usize = 0;
    while i < input.len()
        invariant
            i <= input@.len(),
            ds == spec_views_of_demods(input@),
            forall|k: int| 0 <= k < i ==> spec_frame_encodable(#[trigger] ds[k]),
            frames@.len() == i,
            forall|k: int| 0 <= k < i ==> #[trigger] frames@[k]@ == spec_remodulate(ds[k]),
        decreases input@.len() - i,
    {
        match encode_phase1(&input[i]) {
            Ok(frame) => {
                frames.push(frame);
            },
            Err(e) => {
                proof {
                    assert(ds[i as int] == input@[i as int]@);
                    assert(!spec_frame_encodable(ds[i as int]));
                    lemma_first_unencodable(ds, i as int);
                }
                return Err(e);
            },
        }
        i = i + 1;
    }
    let flat = encode_phase2(frames.as_slice());
    proof {
        assert(spec_views_of_frames(frames@) =~= ds.map_values(rm));
    }
    Ok(flat)
}

/// The wire rendering of one pulse: mark then space, each converted to
/// carrier ticks and rendered as four byte-swapped hexadecimal digits.
pub open spec fn spec_pulse_hex(p: MarkAndSpaceMicros) -> Seq<char> {
    spec_hex4_le(spec_us_to_ticks(p.mark.0 as int)) + spec_hex4_le(
        spec_us_to_ticks(p.space.0 as int),
    )
}

/// The wire rendering of a flat pulse sequence: the pulses' renderings
/// concatenated with no separators.
pub open spec fn spec_wire_format(s: Seq<MarkAndSpaceMicros>) -> Seq<char>
    decreases s.len(),
{
    if s.len() == 0 {
        Seq::empty()
    } else {
        spec_pulse_hex(s[0]) + spec_wire_format(s.skip(1))
    }
}

/// Renders a flat pulse sequence as the transmit string: each pulse's mark
/// and space as carrier ticks in byte-swapped hexadecimal, concatenated.
pub fn encode_phase3(input: &[MarkAndSpaceMicros]) -> (r: String)
    ensures
        r@ == spec_wire_format(input@),
{
    let mut s = String::new();
    let mut i: usize = 0;
    proof {
        assert(input@.skip(0) =~= input@);
        assert(s@ + spec_wire_format(input@) =~= spec_wire_format(input@));
    }
    while i < input.len()
        invariant
            i <= input@.len(),
            spec_wire_format(input@) == s@ + spec_wire_format(input@.skip(i as int)),
        decreases input@.len() - i,
    {
        let ghost prefix = s@;
        let ghost rest = input@.skip(i as int);
        let pulse_hex = MarkAndSpaceIrCarrier::from(input[i]).to_string_littel_endian_u16();
        proof {
            assert(rest[0] == input@[i as int]);
            assert(pulse_hex@ =~= spec_pulse_hex(rest[0]));
        }
        s.append(pulse_hex.as_str());
        proof {
            assert(rest.skip(1) =~= input@.skip(i as int + 1));
            assert(prefix + (spec_pulse_hex(rest[0]) + spec_wire_format(rest.skip(1))) =~= prefix
                + spec_pulse_hex(rest[0]) + spec_wire_format(input@.skip(i as int + 1)));
        }
        i = i + 1;
    }
    proof {
        assert(input@.skip(i as int) =~= Seq::<MarkAndSpaceMicros>::empty());
        assert(s@ + Seq::<char>::empty() =~= s@);
    }
    s
}

/// The whole encode direction: re-modulates the frames, stitches them, and
/// renders the transmit string.  Fails on the first frame that cannot be
/// re-modulated, with that frame's error.
pub fn encode_infrared_remote_code(input: &[InfraredRemoteDemodulatedFrame]) -> (r: Result<
    String,
    String,
>)
    ensures
        r is Ok <==> spec_all_encodable(spec_views_of_demods(input@)),
        r matches Ok(s) ==> s@ == spec_wire_format(spec_encode(spec_views_of_demods(input@))),
        r matches Err(e) ==> e@ == spec_phase1_err_msg(
            spec_views_of_demods(input@)[spec_first_unencodable(spec_views_of_demods(input@))],
        ),
{
    match encode_to_mark_and_spaces(input) {
        Ok(v) => Ok(encode_phase3(v.as_slice())),
        Err(e) => Err(e),
    }
}

} // verus!
