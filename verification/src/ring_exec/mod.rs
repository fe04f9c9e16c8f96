//! Group commit: what the intent ring carries, in which order a leader runs a
//! batch, what a statement guards, and how a round is led.

pub mod guard;
pub mod optimistic;
pub mod order;
pub mod prep_laws;
pub mod round;
pub mod splice;
pub mod wire;

pub use guard::{
    hint_notify_keys, key_hash, law_range_region_covers, law_update_mask_covers, plan_cols, plan_key, plan_shard, widen_guard,
    Widening,
};
pub use optimistic::{
    after_mutation, after_prep, law_last_assignment_wins, law_prep_terminates, law_snapshot_outcomes_are_confirmed,
    law_unassigned_column_stays, law_update_assigns_on_the_old_row, optimistic_eligible, optimistic_prep, optimistic_prep_inner, ApplyOp, Attempts, OptAction,
    Prep, PrepEvent, PrepState, PrepStep, OPT_MAX_RETRIES,
};
pub use order::{
    admit_intent, concatenated, decode_params, drain_order, encode_params, key_values, law_slots_break_ties_only,
    law_unkeyed_last, locality_key, param_count, KeyValues, Placement, PreparedIntent, SortKey,
    RANK_KEYED, RANK_NO_KEY,
};
pub use round::{
    execute_prepared, law_commit_answers_every_member, law_round_restarts_bounded, ring_enabled, undo_is_exact,
    AfterRun, Member, Round, RoundAction, Staged,
};
pub use splice::{
    law_told_range_is_what_is_spliced, plan_delta, plan_range, rebase_request, rebase_splice_params, Rebase, RebaseOutcome,
};
pub use wire::{decode_ring_result, encode_error, law_ring_error_round_trip};
