mod codec;
mod config;
mod errors;
mod fs_utils;
mod linker;
mod lockfile;
mod paths;
mod scanner;
mod state;

pub use codec::{
    all_digits, all_ident, dec_string, emit_document, is_bare_x, is_digit, is_digit_x,
    is_ident_char, is_ident_char_x, is_ws, is_ws_x, lemma_codec_roundtrip, lemma_dec_val,
    lemma_key_index_span, lemma_links_update_unique, lemma_key_index_props, parse_document,
    parse_line, render_value, safe_kdl_string, spec_apply_line, spec_base_core, spec_base_line,
    spec_classify, spec_dec, spec_digit_char, spec_digit_val, spec_digits_val, spec_emit,
    spec_find_nl, spec_find_quote, spec_ident_end, spec_init_doc, spec_is_bare, spec_key_index,
    spec_link_core, spec_link_line, spec_link_props, spec_links_text, spec_links_update,
    spec_parse, spec_parse_doc_from, spec_parse_entries, spec_parse_entry, spec_parse_line,
    spec_render_value, spec_skip_ws, spec_split_lines, spec_version_core, spec_version_line,
    DocV, Entry, EntryV, LineEff, LineEffV, Value, ValueV,
};
pub use config::{DotyConfig, LinkStrategy, Package, PackageV, PathResolution};
pub use errors::DotyError;
pub use fs_utils::{FsType, SourceInfo, SourceInfoV, TargetProbe, TargetProbeV};
pub use linker::{
    actions_view, count_actions, spec_count_created, spec_count_pruned, spec_count_removed,
    spec_count_skipped, spec_count_updated, spec_count_warnings, ActionCounts, lemma_implicit_orphan_silent, lemma_reconcile_idempotent,
    missing_source_message, ops_view, owning_package_index, spec_assoc_map, spec_clean,
    spec_decide, spec_diff, spec_enrich, spec_entry_views, spec_expand, spec_first_owner,
    spec_from_config, spec_from_lockfile, spec_gather, spec_insert_merge, spec_merge,
    spec_package_views, spec_plan_action, spec_plan_create, spec_status_views,
    spec_stored_entries, spec_symlink_dest, spec_unique_keys, ActionV, FsOp, FsOpV, LinkAction,
    LinkStatus, LinkStatusV, Linker, LinkerV,
};
pub use lockfile::{Lockfile, LockfileV};
pub use paths::{
    is_absolute_path, is_home_path, normalize_to_absolute, opt_str_view, path_join, path_parent,
    path_starts_with, resolve_target_path, spec_is_absolute, spec_is_home, spec_join,
    spec_last_slash, spec_normalize, spec_pair_views, spec_parent, spec_path_starts_with,
    spec_resolve_target, spec_strip_prefix, str_eq, str_starts_with, strip_path_prefix,
};
pub use scanner::{
    drift_views, opt_package_view, spec_broken_item, spec_covered, spec_scan_package,
    spec_scan_packages, spec_scan_state, spec_untracked, DriftItem, DriftItemV, DriftType,
    PackageScanInfo, PackageScanInfoV, Scanner, StateTargetProbe, StateTargetProbeV,
};
pub use state::{
    lemma_persist_load_roundtrip, spec_apply_action, spec_links_remove, DotyState, DotyStateV,
};
