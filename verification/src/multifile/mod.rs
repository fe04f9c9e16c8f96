//! Other database files beside the main one: the list of attached databases,
//! views of one connection, and statements that read across files.

pub mod attach;
pub mod cross;

pub use attach::{
    create_config, ephemeral_config, ephemeral_name, escaped, find_view, law_attach_then_find, law_detach_keeps_others,
    law_temp_view_shadows, law_view_drop_undoes_create, sidecars, strip_temp_qualifier, verbatim_view, view_at, AttachList, AttachTarget,
    Attached, TempView, TempViews, MAX_ATTACHED,
};
pub use cross::{
    build_scope, cross_check, cross_layout, cross_map, cross_prepared, cross_write_bug, law_cross_map_names, law_stale_after_attach,
    read_only_gate, route_of, schema_refused, CrossPlan, CrossSlots, DbResolution, DbRoute, Mangled, MemberFacts, MultiCtx,
};
