//! Maps between table sets: a source set mirrored into a differently shaped
//! target set, with edits on either side flowing to the other through lens
//! pairs.
//!
//! A map does not destroy its source, so no residual is stored: it is computed
//! live from the source side. Both sides' hashes are recorded after every
//! push; a row whose hashes are current is left alone, and a row that moved on
//! both sides is a conflict.

pub mod carry;
pub mod lens;
pub mod record;
pub mod resolve;
pub mod row_sync;
pub mod set_sync;
pub mod spec;
pub mod sql;
pub mod sync;
pub mod toml_doc;

pub use carry::{
    carried_soundly, law_carried_value_is_sound, law_created_row_is_image, row_carried, row_created, CarryAnswers, ColumnCarry,
    CreatedValue,
};
pub use lens::{
    begin_carry, created_value_gate, forward_all_refused, inverse_all, law_taken_values_are_checked,
    Carry, ColumnCtx, LensClass,
};
pub use record::{check_map_name, law_map_record_round_trip, map_record, rretl_map_show, rretl_maps, MAP_RECORD_V1};
pub use resolve::{law_made_target_is_accepted, mirror_table, resolve_map, MirrorDef, ResolvedModel, ResolvedTable};
pub use row_sync::{
    law_passes_make_one_sync, law_source_row_synced, law_table_sync_idempotent, law_target_row_synced, Ask, Pass, SourceRow, TableSync, TargetRow,
};
pub use set_sync::{law_second_sync_reports_no_change, set_counts, set_source_rows, set_synced, SyncCounts, TableSides};
pub use sql::{quoted, side_sql, SideSql};
pub use spec::{
    ident_ok, law_checked_claims_are_single, law_checked_names_are_identifiers, mapping_checked,
    MapColumn, MapSpec, MapTable,
};
pub use toml_doc::{toml_parsed, toml_tree, TomlTree};
pub use sync::{
    chain, classify_p1, classify_p2, clears_state, first_not_bijective, law_deletion_flows, law_one_sided_edit_flows,
    law_sync_idempotent, law_two_sided_edit_refused, sweep_state_row, sync_source_row, sync_target_row,
    verify_persisted, MapSyncReport, P1, P2,
};
