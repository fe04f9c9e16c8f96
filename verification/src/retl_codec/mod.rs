//! Byte codecs: the composite-residual envelope, the delta engine and the
//! zip splicer. Everything here is pure, bytes in and bytes out.
//!
//! Decoders are total on arbitrary bytes, bounds-checked, and bound their
//! resources before they allocate. Encoders may change freely: what they must
//! keep is that decoding gives the input back.

pub mod delta;
pub mod delta_laws;
pub mod envelope;
pub mod zip;
pub mod zip_join;
pub mod zip_laws;

pub use delta::{
    delta_apply, delta_encode, delta_encoding, delta_ops, delta_result, greedy_ops, ops_bytes,
    ops_fit, ops_len, ops_output, DeltaOp,
};
pub use delta_laws::{
    law_delta_format, law_delta_prefix_refused, law_delta_round_trip, law_delta_wrong_base,
};
pub use envelope::{
    envelope, envelope_opened, law_envelope_exact_fill, law_envelope_round_trip, open_envelope,
    sealed, Kind, MAX_ENVELOPE_DEPTH, MAX_PAYLOAD,
};
pub use zip::{
    member_views, segment_of, segments, zip_split, zip_split_result, MemberView, Segment,
    SpliceMember, SpliceParts,
};
pub use zip_join::{contents, gap_bytes, join_stops, splice_list, spliced, supplied, wrong_length, zip_join};
pub(crate) use zip_laws::lemma_split_ok;
pub use zip_laws::{
    cut_out, directory_of, law_zip_join_length, law_zip_members_disjoint, law_zip_round_trip, law_zip_truncation_refused,
};
