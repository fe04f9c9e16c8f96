//! Applying a lens pair to a column in place, keeping what was lost, and
//! putting it back.
//!
//! A run reads, transforms, keeps residuals, verifies and commits in one
//! transaction. Before the commit that destroys the source, every transformed
//! row is read back and inverted, and the hash of that stream must equal the
//! source's. The engine does the reading and writing; the decisions are here.

pub mod apply;
pub mod books;
pub mod chunk;
pub mod fsck;
pub mod residuals;
pub mod rows;
pub mod seen;
pub mod tables;
pub mod unwind;

pub use apply::{
    forward_refused, law_apply_images_recoverable, law_verified_or_collision, rex_refused, type_gate,
    ApplyRun, COLLISION_DIAG_CAP,
};
pub use books::{
    as_int, as_text, bookkeeping, is_bookkeeping, lossy_gate, named_at, next_run_id, resolve_target, rretl_bookkeeping_names, shape_gate, LineageRow, RretlLogRow,
    RretlReport, Target,
};
pub use chunk::{
    chunk_rows, chunk_rows_for_tests, law_chunked_scan_is_whole, now_micros, opt_now_micros,
    pair_scan_sql, residual_scan_sql, update_sql, ChunkGuard, ChunkScan, RRETL_CHUNK_DEFAULT,
};
pub use fsck::{fsck_run, FsckFacts, FsckRun};
pub use residuals::{law_tampered_residuals_show, residual_identity, residual_stream, ResidualChain};
pub use rows::{int_cell, rows_of, rretl_log, tallies_of, tally_rows, tally_views, text_cell};
pub use tables::{
    book_columns, book_key, book_name, committed_tables, definition, ensure_archive_tables, ensure_dirty_table,
    ensure_run_tables, ensure_state_table, ensure_tables_from, ensure_version_table, law_book_keys_are_columns,
    law_books_are_reserved, law_created_book_is_recognised, BookDef, BookTable,
};
pub use unwind::{
    finished, law_putback_keeps_edits, law_revert_undoes_apply, law_unwind_gated, lifo_gate, open_run, output_gate,
    put_holds, putback_forward, putback_inverse, putback_residual, putback_rex, residual_gate, revert_residual, Cell,
    RowPut, RunFacts, Stage, Unwind, Unwound, Verb,
};
