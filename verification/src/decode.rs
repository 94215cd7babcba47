//! Decode direction: segmentation of a pulse sequence into frames, protocol
//! classification against the leader tolerance windows, and demodulation of
//! the remaining pulses into bits.

use vstd::prelude::*;
use vstd::slice::slice_subrange;
use vstd::slice::slice_to_vec;
use vstd::string::StringExecFns;

use crate::protocols::spec_aeha_leader;
use crate::protocols::spec_leader_in_window;
use crate::protocols::spec_nec_leader;
use crate::protocols::spec_sirc_leader;
use crate::protocols::aeha_leader;
use crate::protocols::nec_leader;
use crate::protocols::sirc_leader;
use crate::protocols::THRESHOLD_FRAME_GAP_US;
use crate::protocols::TOLERANCE_US;
use crate::units::MarkAndSpaceMicros;

verus! {

/// Center of the SIRC pulse-width window: a mark near 1200 us is a one bit.
pub const SIRC_PWM_THRESHOLD_US: u32 = 1200;

/// Half-width of the SIRC pulse-width window: 100 us on either side.
pub const SIRC_PWM_TOLERANCE_US: u32 = 100;

/// Whether this pulse's space is long enough to end a frame.
pub open spec fn spec_is_gap(p: MarkAndSpaceMicros) -> bool {
    p.space.0 >= THRESHOLD_FRAME_GAP_US
}

/// One complete transmitted signal between inter-frame gaps: a non-empty
/// run of pulses produced by segmentation.
#[derive(Clone, Debug, PartialEq, Eq)]
pub struct InfraredRemoteFrame(pub Vec<MarkAndSpaceMicros>);

impl View for InfraredRemoteFrame {
    type V = Seq<MarkAndSpaceMicros>;

    open spec fn view(&self) -> Seq<MarkAndSpaceMicros> {
        self.0@
    }
}

impl InfraredRemoteFrame {
    /// The frame's first pulse, its leader.
    pub fn head(&self) -> (r: MarkAndSpaceMicros)
        requires
            self@.len() > 0,
        ensures
            r == self@[0],
    {
        self.0[0]
    }

    /// Every pulse after the leader.
    pub fn tail(&self) -> (r: &[MarkAndSpaceMicros])
        requires
            self@.len() > 0,
        ensures
            r@ == self@.skip(1),
    {
        let t = slice_subrange(self.0.as_slice(), 1, self.0.len());
        proof {
            assert(t@ =~= self@.skip(1));
        }
        t
    }
}

/// The frames cut out of `s`, built left to right; `acc` holds the pulses of
/// the frame currently being collected.  A pulse whose space reaches the gap
/// threshold closes the current frame and stays in it; a last, gap-less run
/// still forms a frame of its own.
pub open spec fn spec_segment_rec(
    s: Seq<MarkAndSpaceMicros>,
    acc: Seq<MarkAndSpaceMicros>,
) -> Seq<Seq<MarkAndSpaceMicros>>
    decreases s.len(),
{
    if s.len() == 0 {
        if acc.len() == 0 {
            Seq::empty()
        } else {
            seq![acc]
        }
    } else if spec_is_gap(s[0]) {
        seq![acc.push(s[0])] + spec_segment_rec(s.skip(1), Seq::empty())
    } else {
        spec_segment_rec(s.skip(1), acc.push(s[0]))
    }
}

/// The frames cut out of a pulse sequence at the inter-frame gap threshold.
pub open spec fn spec_segment(s: Seq<MarkAndSpaceMicros>) -> Seq<Seq<MarkAndSpaceMicros>> {
    spec_segment_rec(s, Seq::empty())
}

/// The views of a sequence of frames, element by element.
pub open spec fn spec_views_of_frames(v: Seq<InfraredRemoteFrame>) -> Seq<Seq<MarkAndSpaceMicros>> {
    Seq::new(v.len(), |i: int| v[i]@)
}

proof fn lemma_segment_rec_partition(s: Seq<MarkAndSpaceMicros>, acc: Seq<MarkAndSpaceMicros>)
    requires
        forall|j: int| 0 <= j < acc.len() ==> !spec_is_gap(#[trigger] acc[j]),
    ensures
        ({
            let frames = spec_segment_rec(s, acc);
            &&& frames.flatten() == acc + s
            &&& forall|i: int| 0 <= i < frames.len() ==> (#[trigger] frames[i]).len() > 0
            &&& forall|i: int, j: int|
                0 <= i < frames.len() && 0 <= j < frames[i].len() - 1 ==> !spec_is_gap(
                    #[trigger] frames[i][j],
                )
            &&& forall|i: int| 0 <= i < frames.len() - 1 ==> spec_is_gap(
                (#[trigger] frames[i]).last(),
            )
        }),
    decreases s.len(),
{
    let frames = spec_segment_rec(s, acc);
    if s.len() == 0 {
        if acc.len() == 0 {
            assert(frames.flatten() =~= acc + s);
        } else {
            assert(frames =~= seq![acc]);
            frames.lemma_flatten_one_element();
            assert(frames.first() == acc);
            assert(frames.flatten() =~= acc + s);
        }
    } else if spec_is_gap(s[0]) {
        let first = acc.push(s[0]);
        let rest = spec_segment_rec(s.skip(1), Seq::empty());
        lemma_segment_rec_partition(s.skip(1), Seq::empty());
        assert(frames == seq![first] + rest);
        assert(frames.first() == first);
        assert(frames.drop_first() =~= rest);
        assert(rest.flatten() == Seq::empty() + s.skip(1));
        assert(frames.flatten() =~= acc + s);
        assert forall|i: int| 0 <= i < frames.len() implies (#[trigger] frames[i]).len() > 0 by {
            if i > 0 {
                assert(frames[i] == rest[i - 1]);
            }
        }
        assert forall|i: int, j: int|
            0 <= i < frames.len() && 0 <= j < frames[i].len() - 1 implies !spec_is_gap(
            #[trigger] frames[i][j],
        ) by {
            if i == 0 {
                assert(frames[0] == first);
                assert(first[j] == acc[j]);
            } else {
                assert(frames[i] == rest[i - 1]);
            }
        }
        assert forall|i: int| 0 <= i < frames.len() - 1 implies spec_is_gap(
            (#[trigger] frames[i]).last(),
        ) by {
            if i == 0 {
                assert(first.last() == s[0]);
            } else {
                assert(frames[i] == rest[i - 1]);
            }
        }
    } else {
        let acc2 = acc.push(s[0]);
        assert(forall|j: int| 0 <= j < acc2.len() ==> !spec_is_gap(#[trigger] acc2[j]));
        lemma_segment_rec_partition(s.skip(1), acc2);
        assert(frames == spec_segment_rec(s.skip(1), acc2));
        assert(frames.flatten() == acc2 + s.skip(1));
        assert(frames.flatten() =~= acc + s);
    }
}

/// Segmentation boundary: segmentation partitions the input exactly — the
/// frames concatenate back to the input, no frame is empty, a space that
/// reaches the gap threshold is always the last pulse of its frame (and is
/// retained in it), and every frame except possibly the final one ends with
/// such a gap pulse.
pub proof fn lemma_segmentation_boundary(s: Seq<MarkAndSpaceMicros>)
    ensures
        spec_segment(s).flatten() == s,
        forall|i: int| 0 <= i < spec_segment(s).len() ==> (#[trigger] spec_segment(s)[i]).len() > 0,
        forall|i: int, j: int|
            0 <= i < spec_segment(s).len() && 0 <= j < spec_segment(s)[i].len() - 1
                ==> !spec_is_gap(#[trigger] spec_segment(s)[i][j]),
        forall|i: int|
            0 <= i < spec_segment(s).len() - 1 ==> spec_is_gap(
                (#[trigger] spec_segment(s)[i]).last(),
            ),
{
    lemma_segment_rec_partition(s, Seq::empty());
    assert(Seq::empty() + s =~= s);
}

/// Splits a pulse sequence into per-button-press frames at the inter-frame
/// gap threshold; an empty input is rejected.
pub fn decode_phase1(input: &[MarkAndSpaceMicros]) -> (r: Result<
    Vec<InfraredRemoteFrame>,
    String,
>)
    ensures
        r is Err <==> input@.len() == 0,
        r matches Err(e) ==> e@ == "decode_phase1: input is empty."@,
        r matches Ok(frames) ==> spec_views_of_frames(frames@) == spec_segment(input@),
{
    if input.len() < 1 {
        return Err(String::from_str("decode_phase1: input is empty."));
    }
    let mut result: Vec<InfraredRemoteFrame> = Vec::new();
    let mut current: Vec<MarkAndSpaceMicros> = Vec::new();
    let mut i: usize = 0;
    proof {
        assert(input@.skip(0) =~= input@);
        assert(spec_views_of_frames(result@) =~= Seq::<Seq<MarkAndSpaceMicros>>::empty());
        assert(Seq::<Seq<MarkAndSpaceMicros>>::empty() + spec_segment_rec(input@, current@)
            =~= spec_segment_rec(input@, current@));
    }
    while i < input.len()
        invariant
            i <= input@.len(),
            spec_segment(input@) == spec_views_of_frames(result@) + spec_segment_rec(
                input@.skip(i as int),
                current@,
            ),
        decreases input@.len() - i,
    {
        let p = input[i];
        proof {
            assert(input@.skip(i as int)[0] == input@[i as int]);
            assert(input@.skip(i as int).skip(1) =~= input@.skip(i as int + 1));
        }
        current.push(p);
        if p.space.0 >= THRESHOLD_FRAME_GAP_US {
            let frame = current;
            current = Vec::new();
            let ghost old_result = result@;
            result.push(InfraredRemoteFrame(frame));
            proof {
                assert(spec_views_of_frames(result@) =~= spec_views_of_frames(old_result).push(
                    frame@,
                ));
                assert(spec_views_of_frames(old_result).push(frame@) + spec_segment_rec(
                    input@.skip(i as int + 1),
                    Seq::empty(),
                ) =~= spec_views_of_frames(old_result) + (seq![frame@] + spec_segment_rec(
                    input@.skip(i as int + 1),
                    Seq::empty(),
                )));
            }
        }
        i = i + 1;
    }
    proof {
        assert(input@.skip(i as int) =~= Seq::<MarkAndSpaceMicros>::empty());
    }
    if current.len() > 0 {
        let ghost old_result = result@;
        let frame = current;
        result.push(InfraredRemoteFrame(frame));
        proof {
            assert(spec_views_of_frames(result@) =~= spec_views_of_frames(old_result).push(frame@));
            assert(spec_views_of_frames(old_result).push(frame@) =~= spec_views_of_frames(
                old_result,
            ) + seq![frame@]);
        }
    } else {
        proof {
            assert(spec_views_of_frames(result@) + Seq::<Seq<MarkAndSpaceMicros>>::empty()
                =~= spec_views_of_frames(result@));
        }
    }
    Ok(result)
}

/// A single bit; only the values zero and one are meaningful.
#[derive(Clone, Copy, Debug, PartialEq, Eq, Structural)]
pub struct Bit(pub u8);

impl Bit {
    /// Builds a bit from zero or one; any other value is a contract
    /// violation and is excluded by the precondition.
    pub fn new(init: u8) -> (r: Self)
        requires
            init <= 1,
        ensures
            r.0 == init,
    {
        if init == 0 {
            Self(0)
        } else {
            Self(1)
        }
    }
}

/// Whether every bit of a sequence holds zero or one.
pub open spec fn spec_bits_all_valid(bits: Seq<Bit>) -> bool {
    forall|i: int| 0 <= i < bits.len() ==> (#[trigger] bits[i]).0 <= 1
}

/// The bit demodulated from one pulse under pulse-distance modulation
/// (AEHA, NEC): one exactly when the space lasts at least twice the mark.
pub open spec fn spec_pdm_bit(x: MarkAndSpaceMicros) -> Bit {
    if x.space.0 >= 2 * x.mark.0 {
        Bit(1)
    } else {
        Bit(0)
    }
}

/// Pulse-distance demodulation for AEHA and NEC: the bit is one if and only
/// if `space >= 2 * mark`; equality gives one.  There is no tolerance window
/// here — this is a hard inequality on the raw measured values.
pub fn demodulate_pulse_distance_modulation(x: MarkAndSpaceMicros) -> (r: Bit)
    ensures
        r == spec_pdm_bit(x),
        r.0 == 1 <==> x.space.0 >= 2 * x.mark.0,
        r.0 == 0 || r.0 == 1,
{
    if x.space.0 as u64 >= 2 * (x.mark.0 as u64) {
        Bit(1)
    } else {
        Bit(0)
    }
}

/// The bit demodulated from one pulse under pulse-width modulation (SIRC):
/// one exactly when the mark lies in the window around 1200 us.
pub open spec fn spec_pwm_bit(x: MarkAndSpaceMicros) -> Bit {
    if SIRC_PWM_THRESHOLD_US - SIRC_PWM_TOLERANCE_US <= x.mark.0
        <= SIRC_PWM_THRESHOLD_US + SIRC_PWM_TOLERANCE_US {
        Bit(1)
    } else {
        Bit(0)
    }
}

/// Pulse-width demodulation for SIRC: the bit is one if and only if the mark
/// lies between 1100 us and 1300 us, both ends included.
pub fn demodulate_pulse_width_modulation(x: MarkAndSpaceMicros) -> (r: Bit)
    ensures
        r == spec_pwm_bit(x),
        r.0 == 1 <==> SIRC_PWM_THRESHOLD_US - SIRC_PWM_TOLERANCE_US <= x.mark.0
            <= SIRC_PWM_THRESHOLD_US + SIRC_PWM_TOLERANCE_US,
        r.0 == 0 || r.0 == 1,
{
    let lower = SIRC_PWM_THRESHOLD_US - SIRC_PWM_TOLERANCE_US;
    let upper = SIRC_PWM_THRESHOLD_US + SIRC_PWM_TOLERANCE_US;
    if lower <= x.mark.0 && x.mark.0 <= upper {
        Bit(1)
    } else {
        Bit(0)
    }
}

/// A demodulated frame at the specification level: the protocol tag with the
/// mathematical sequence of bits, or the raw pulses of an unrecognized frame.
pub enum DemodulatedFrameView {
    Aeha(Seq<Bit>),
    Nec(Seq<Bit>),
    Sirc(Seq<Bit>),
    Unknown(Seq<MarkAndSpaceMicros>),
}

/// A frame after classification and demodulation: the protocol tag with the
/// demodulated bits, or `Unknown` carrying the original pulses verbatim.
#[derive(Clone, Debug, PartialEq, Eq)]
pub enum InfraredRemoteDemodulatedFrame {
    Aeha(Vec<Bit>),
    Nec(Vec<Bit>),
    Sirc(Vec<Bit>),
    Unknown(Vec<MarkAndSpaceMicros>),
}

impl View for InfraredRemoteDemodulatedFrame {
    type V = DemodulatedFrameView;

    open spec fn view(&self) -> DemodulatedFrameView {
        match self {
            InfraredRemoteDemodulatedFrame::Aeha(bits) => DemodulatedFrameView::Aeha(bits@),
            InfraredRemoteDemodulatedFrame::Nec(bits) => DemodulatedFrameView::Nec(bits@),
            InfraredRemoteDemodulatedFrame::Sirc(bits) => DemodulatedFrameView::Sirc(bits@),
            InfraredRemoteDemodulatedFrame::Unknown(pulses) => DemodulatedFrameView::Unknown(
                pulses@,
            ),
        }
    }
}

/// Classification and demodulation of one non-empty frame: the first
/// protocol, in the order AEHA, NEC, SIRC, whose leader window contains the
/// frame's first pulse wins, and its modulation scheme demodulates the rest;
/// a frame matching no window is `Unknown` with its pulses kept verbatim.
pub open spec fn spec_demodulate(frame: Seq<MarkAndSpaceMicros>) -> DemodulatedFrameView
    recommends
        frame.len() > 0,
{
    let leader = frame[0];
    let tail = frame.skip(1);
    if spec_leader_in_window(leader, spec_aeha_leader()) {
        DemodulatedFrameView::Aeha(tail.map_values(|x: MarkAndSpaceMicros| spec_pdm_bit(x)))
    } else if spec_leader_in_window(leader, spec_nec_leader()) {
        DemodulatedFrameView::Nec(tail.map_values(|x: MarkAndSpaceMicros| spec_pdm_bit(x)))
    } else if spec_leader_in_window(leader, spec_sirc_leader()) {
        DemodulatedFrameView::Sirc(tail.map_values(|x: MarkAndSpaceMicros| spec_pwm_bit(x)))
    } else {
        DemodulatedFrameView::Unknown(frame)
    }
}

/// Classification exclusivity: the three protocols' leader tolerance windows
/// are disjoint, so at most one protocol matches any leader pulse.
pub proof fn lemma_classification_exclusive(leader: MarkAndSpaceMicros)
    ensures
        spec_leader_in_window(leader, spec_aeha_leader()) ==> !spec_leader_in_window(
            leader,
            spec_nec_leader(),
        ) && !spec_leader_in_window(leader, spec_sirc_leader()),
        spec_leader_in_window(leader, spec_nec_leader()) ==> !spec_leader_in_window(
            leader,
            spec_aeha_leader(),
        ) && !spec_leader_in_window(leader, spec_sirc_leader()),
        spec_leader_in_window(leader, spec_sirc_leader()) ==> !spec_leader_in_window(
            leader,
            spec_aeha_leader(),
        ) && !spec_leader_in_window(leader, spec_nec_leader()),
{
}

fn leader_in_window(leader: MarkAndSpaceMicros, table: MarkAndSpaceMicros) -> (r: bool)
    requires
        table.mark.0 >= TOLERANCE_US,
        table.space.0 >= TOLERANCE_US,
        table.mark.0 + TOLERANCE_US <= u32::MAX,
        table.space.0 + TOLERANCE_US <= u32::MAX,
    ensures
        r == spec_leader_in_window(leader, table),
{
    table.mark.0 - TOLERANCE_US <= leader.mark.0 && leader.mark.0 < table.mark.0 + TOLERANCE_US
        && table.space.0 - TOLERANCE_US <= leader.space.0 && leader.space.0 < table.space.0
        + TOLERANCE_US
}

fn demodulate_pdm_all(tail: &[MarkAndSpaceMicros]) -> (r: Vec<Bit>)
    ensures
        r@ == tail@.map_values(|x: MarkAndSpaceMicros| spec_pdm_bit(x)),
{
    let mut bits: Vec<Bit> = Vec::new();
    let mut i: usize = 0;
    while i < tail.len()
        invariant
            i <= tail@.len(),
            bits@ =~= tail@.subrange(0, i as int).map_values(
                |x: MarkAndSpaceMicros| spec_pdm_bit(x),
            ),
        decreases tail@.len() - i,
    {
        bits.push(demodulate_pulse_distance_modulation(tail[i]));
        proof {
            assert(bits@ =~= tail@.subrange(0, i as int + 1).map_values(
                |x: MarkAndSpaceMicros| spec_pdm_bit(x),
            ));
        }
        i = i + 1;
    }
    proof {
        assert(tail@.subrange(0, tail@.len() as int) =~= tail@);
    }
    bits
}

fn demodulate_pwm_all(tail: &[MarkAndSpaceMicros]) -> (r: Vec<Bit>)
    ensures
        r@ == tail@.map_values(|x: MarkAndSpaceMicros| spec_pwm_bit(x)),
{
    let mut bits: Vec<Bit> = Vec::new();
    let mut i: usize = 0;
    while i < tail.len()
        invariant
            i <= tail@.len(),
            bits@ =~= tail@.subrange(0, i as int).map_values(
                |x: MarkAndSpaceMicros| spec_pwm_bit(x),
            ),
        decreases tail@.len() - i,
    {
        bits.push(demodulate_pulse_width_modulation(tail[i]));
        proof {
            assert(bits@ =~= tail@.subrange(0, i as int + 1).map_values(
                |x: MarkAndSpaceMicros| spec_pwm_bit(x),
            ));
        }
        i = i + 1;
    }
    proof {
        assert(tail@.subrange(0, tail@.len() as int) =~= tail@);
    }
    bits
}

/// Classifies one frame by its leader pulse and demodulates the remaining
/// pulses under the matching protocol's modulation scheme.  This function is
/// total: an unrecognized frame becomes `Unknown`, never an error.
pub fn decode_phase2(input: &InfraredRemoteFrame) -> (r: InfraredRemoteDemodulatedFrame)
    requires
        input@.len() > 0,
    ensures
        r@ == spec_demodulate(input@),
{
    let leader_pulse = input.head();
    let tail = input.tail();
    proof {
        assert(tail@ == input@.skip(1));
    }
    if leader_in_window(leader_pulse, aeha_leader()) {
        InfraredRemoteDemodulatedFrame::Aeha(demodulate_pdm_all(tail))
    } else if leader_in_window(leader_pulse, nec_leader()) {
        InfraredRemoteDemodulatedFrame::Nec(demodulate_pdm_all(tail))
    } else if leader_in_window(leader_pulse, sirc_leader()) {
        InfraredRemoteDemodulatedFrame::Sirc(demodulate_pwm_all(tail))
    } else {
        InfraredRemoteDemodulatedFrame::Unknown(slice_to_vec(input.0.as_slice()))
    }
}

/// The character shown for one bit: '0', '1', or 'X' for a value that is
/// neither.
pub open spec fn spec_bit_char(b: Bit) -> char {
    if b.0 == 0 {
        '0'
    } else if b.0 == 1 {
        '1'
    } else {
        'X'
    }
}

/// The rendering of a bit sequence whose first element sits at position
/// `idx` of the whole pattern: one character per bit, with a blank after
/// every eighth position.
pub open spec fn spec_bit_pattern(s: Seq<Bit>, idx: int) -> Seq<char>
    decreases s.len(),
{
    if s.len() == 0 {
        Seq::empty()
    } else {
        let sep: Seq<char> = if idx % 8 == 7 {
            seq![' ']
        } else {
            Seq::empty()
        };
        seq![spec_bit_char(s[0])] + sep + spec_bit_pattern(s.skip(1), idx + 1)
    }
}

fn bit_char_str(b: Bit) -> (r: &'static str)
    ensures
        r@ == seq![spec_bit_char(b)],
{
    if b.0 == 0 {
        proof {
            reveal_strlit("0");
            assert("0"@ =~= seq!['0']);
        }
        "0"
    } else if b.0 == 1 {
        proof {
            reveal_strlit("1");
            assert("1"@ =~= seq!['1']);
        }
        "1"
    } else {
        proof {
            reveal_strlit("X");
            assert("X"@ =~= seq!['X']);
        }
        "X"
    }
}

/// Renders a bit sequence as '0'/'1' characters ('X' for an out-of-range
/// value), with a blank after every eighth bit.
pub fn show_bit_pattern(input: &[Bit]) -> (r: String)
    ensures
        r@ == spec_bit_pattern(input@, 0),
{
    let mut s = String::new();
    let mut i: usize = 0;
    proof {
        assert(input@.skip(0) =~= input@);
        assert(s@ + spec_bit_pattern(input@, 0) =~= spec_bit_pattern(input@, 0));
    }
    while i < input.len()
        invariant
            i <= input@.len(),
            spec_bit_pattern(input@, 0) == s@ + spec_bit_pattern(
                input@.skip(i as int),
                i as int,
            ),
        decreases input@.len() - i,
    {
        let ghost prefix = s@;
        let ghost rest = input@.skip(i as int);
        s.append(bit_char_str(input[i]));
        if i % 8 == 7 {
            proof {
                reveal_strlit(" ");
                assert(" "@ =~= seq![' ']);
            }
            s.append(" ");
        }
        proof {
            assert(rest[0] == input@[i as int]);
            assert(rest.skip(1) =~= input@.skip(i as int + 1));
            let sep: Seq<char> = if (i as int) % 8 == 7 {
                seq![' ']
            } else {
                Seq::empty()
            };
            assert(s@ =~= prefix + (seq![spec_bit_char(rest[0])] + sep));
            assert(prefix + (seq![spec_bit_char(rest[0])] + sep) + spec_bit_pattern(
                input@.skip(i as int + 1),
                i as int + 1,
            ) =~= prefix + spec_bit_pattern(rest, i as int));
        }
        i = i + 1;
    }
    proof {
        assert(input@.skip(i as int) =~= Seq::<Bit>::empty());
        assert(s@ + Seq::<char>::empty() =~= s@);
    }
    s
}

/// The demodulated views of the frames cut out of a pulse sequence: the
/// whole decode direction at the specification level.
pub open spec fn spec_decode(s: Seq<MarkAndSpaceMicros>) -> Seq<DemodulatedFrameView> {
    spec_segment(s).map_values(|f: Seq<MarkAndSpaceMicros>| spec_demodulate(f))
}

/// The views of a sequence of demodulated frames, element by element.
pub open spec fn spec_views_of_demods(
    v: Seq<InfraredRemoteDemodulatedFrame>,
) -> Seq<DemodulatedFrameView> {
    Seq::new(v.len(), |i: int| v[i]@)
}

/// The whole decode direction: segments the pulses into frames, then
/// classifies and demodulates each frame.  Fails only on an empty input.
pub fn decode(input: &[MarkAndSpaceMicros]) -> (r: Result<
    Vec<InfraredRemoteDemodulatedFrame>,
    String,
>)
    ensures
        r is Err <==> input@.len() == 0,
        r matches Err(e) ==> e@ == "decode_phase1: input is empty."@,
        r matches Ok(v) ==> spec_views_of_demods(v@) == spec_decode(input@),
{
    let frames = match decode_phase1(input) {
        Ok(frames) => frames,
        Err(e) => {
            return Err(e);
        },
    };
    proof {
        lemma_segmentation_boundary(input@);
    }
    let mut result: Vec<InfraredRemoteDemodulatedFrame> = Vec::new();
    let mut i: usize = 0;
    while i < frames.len()
        invariant
            i <= frames@.len(),
            spec_views_of_frames(frames@) == spec_segment(input@),
            forall|k: int|
                0 <= k < spec_segment(input@).len() ==> (#[trigger] spec_segment(input@)[k]).len()
                    > 0,
            result@.len() == i,
            forall|k: int|
                0 <= k < i ==> #[trigger] result@[k]@ == spec_demodulate(spec_segment(input@)[k]),
        decreases frames@.len() - i,
    {
        let frame = &frames[i];
        proof {
            assert(spec_views_of_frames(frames@)[i as int] == frame@);
        }
        result.push(decode_phase2(frame));
        i = i + 1;
    }
    proof {
        assert(spec_views_of_demods(result@) =~= spec_decode(input@));
    }
    Ok(result)
}

} // verus!
