//! Decoding and encoding of consumer infrared remote-control signals.
//!
//! A captured signal is a sequence of mark/space pulse durations.  The decode
//! direction segments the pulses into frames at long inter-frame gaps,
//! classifies each frame's leader pulse against the timing tables of the
//! AEHA, NEC and SIRC protocols, and demodulates the remaining pulses into
//! bits.  The encode direction re-modulates tagged bitstreams back into pulse
//! trains and renders them as the compact hexadecimal wire format.

mod decode;
mod encode;
mod parsing;
mod protocols;
mod roundtrip;
mod units;

pub use units::IR_CARRIER_FREQ;
pub use units::IrCarrierCounter;
pub use units::MarkAndSpace;
pub use units::MarkAndSpaceIrCarrier;
pub use units::MarkAndSpaceMicros;
pub use units::Microseconds;
pub use units::spec_carrier_to_micros;
pub use units::spec_hex4_le;
pub use units::spec_hex_byte;
pub use units::spec_hex_digit;
pub use units::spec_micros_to_carrier;
pub use units::spec_ticks_to_us;
pub use units::spec_us_to_ticks;

pub use protocols::AEHA_TIME_BASE_US;
pub use protocols::NEC_TIME_BASE_US;
pub use protocols::SIRC_TIME_BASE_US;
pub use protocols::THRESHOLD_FRAME_GAP_US;
pub use protocols::TOLERANCE_US;
pub use protocols::aeha_bit_one;
pub use protocols::aeha_bit_zero;
pub use protocols::aeha_leader;
pub use protocols::nec_bit_one;
pub use protocols::nec_bit_zero;
pub use protocols::nec_leader;
pub use protocols::sirc_bit_one;
pub use protocols::sirc_bit_zero;
pub use protocols::sirc_leader;
pub use protocols::spec_aeha_bit_one;
pub use protocols::spec_aeha_bit_zero;
pub use protocols::spec_aeha_leader;
pub use protocols::spec_leader_in_window;
pub use protocols::spec_nec_bit_one;
pub use protocols::spec_nec_bit_zero;
pub use protocols::spec_nec_leader;
pub use protocols::spec_sirc_bit_one;
pub use protocols::spec_sirc_bit_zero;
pub use protocols::spec_sirc_leader;

pub use decode::Bit;
pub use decode::DemodulatedFrameView;
pub use decode::InfraredRemoteDemodulatedFrame;
pub use decode::InfraredRemoteFrame;
pub use decode::SIRC_PWM_THRESHOLD_US;
pub use decode::SIRC_PWM_TOLERANCE_US;
pub use decode::decode;
pub use decode::decode_phase1;
pub use decode::decode_phase2;
pub use decode::demodulate_pulse_distance_modulation;
pub use decode::demodulate_pulse_width_modulation;
pub use decode::lemma_classification_exclusive;
pub use decode::lemma_segmentation_boundary;
pub use decode::show_bit_pattern;
pub use decode::spec_bit_char;
pub use decode::spec_bit_pattern;
pub use decode::spec_bits_all_valid;
pub use decode::spec_decode;
pub use decode::spec_demodulate;
pub use decode::spec_is_gap;
pub use decode::spec_pdm_bit;
pub use decode::spec_pwm_bit;
pub use decode::spec_segment;
pub use decode::spec_segment_rec;
pub use decode::spec_views_of_demods;
pub use decode::spec_views_of_frames;

pub use encode::encode_infrared_remote_code;
pub use encode::encode_phase1;
pub use encode::encode_phase2;
pub use encode::encode_phase3;
pub use encode::encode_to_mark_and_spaces;
pub use encode::lemma_modulate_bits_index;
pub use encode::spec_all_encodable;
pub use encode::spec_encode;
pub use encode::spec_first_unencodable;
pub use encode::spec_frame_encodable;
pub use encode::spec_modulate_bit;
pub use encode::spec_modulate_bits;
pub use encode::spec_phase1_err_msg;
pub use encode::spec_pulse_hex;
pub use encode::spec_remodulate;
pub use encode::spec_replace_trailing_gap;
pub use encode::spec_stitch;
pub use encode::spec_wire_format;

pub use roundtrip::lemma_round_trip;
pub use roundtrip::spec_frame_round_trippable;

pub use parsing::four_digits_hexadecimal;
pub use parsing::from_array;
pub use parsing::from_hex;
pub use parsing::from_infrared_code;
pub use parsing::is_hex_digit;
pub use parsing::mark_and_space_hexadecimal;
pub use parsing::parse_infrared_code;
pub use parsing::spec_digits_end;
pub use parsing::spec_digits_value;
pub use parsing::spec_four_hex_ok;
pub use parsing::spec_four_hex_value_le;
pub use parsing::spec_group_ok;
pub use parsing::spec_group_value;
pub use parsing::spec_hex_seq_value;
pub use parsing::spec_hex_value;
pub use parsing::spec_is_ascii_digit;
pub use parsing::spec_is_blank;
pub use parsing::spec_is_hex_digit;
pub use parsing::spec_is_wire_ws;
pub use parsing::spec_list_rest;
pub use parsing::spec_number_ok;
pub use parsing::spec_number_value;
pub use parsing::spec_pair_up;
pub use parsing::spec_parse_array;
pub use parsing::spec_skip_blank;
pub use parsing::spec_two_hex_ok;
pub use parsing::spec_two_hex_value;
pub use parsing::spec_wire_groups;
pub use parsing::take_mark_and_spaces_ircarrier;
pub use parsing::two_digits_hexadecimal;
