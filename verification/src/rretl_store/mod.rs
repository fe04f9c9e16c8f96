//! Stored blobs: versions as reverse-delta chains, and archives taken apart
//! and put together again.

pub mod archives;
pub mod put;
pub mod versions;

pub use archives::{
    archive_info, archive_finding, builtin_lineage, check_resplice, law_pack_round_trip, member_data,
    member_missing, pack_in, pack_out, version_finding, ArchiveInfo, MemberRow, PackedArchive,
};
pub use put::{law_put_adds_version, law_put_is_history, stored_by, PutAsk, PutVersion};
pub use versions::{
    as_blob, is_rewritten, law_get_gives_back, law_prune_keeps_chain, law_put_keeps_chain, law_versions_give_back,
    next_version, prune_gate, prune_in, rewrite_as_delta, rewrite_failed_note, rewrite_holds,
    rretl_get_version, version_info, version_size_gate, version_window, Prune, Rewrite,
    StoreOp, VersionInfo, VersionRow, FULL_EVERY,
};
