//! Rule-based file organisation: classification, destination planning,
//! conflict resolution and a reversible record of moves.

pub mod text;
pub mod classify;
pub mod paths;
pub mod rule;
pub mod resolve;
pub mod organize;
pub mod undo;

pub use text::{clean_extension, str_eq, str_starts_with};
pub use classify::{detect_category, Category};
pub use paths::{join_path, operation_log_path, split_name, split_path, str_contains, LOG_DIR, LOG_FILE};
pub use rule::{
    entry_from_path, extension_of_path, file_context_with_mime, find_folder, get_file_context,
    plan_segments, system_time_to_epoch_millis, target_segment, CombinedOrder, DateField,
    FileContext, FileEntry, FolderMapping, OrganizeRule, RuleOptions, RuleType,
};
pub use resolve::{contains_path, resolve_duplicate_target, DuplicateHandling, RENAME_LIMIT};
pub use organize::{
    in_log_dir,
    destination_path, FileMove, OperationLog, OrganizeResult, Organizer, Step, UndoResult,
};
pub use undo::{cleared_log, undo_order, RestoreOutcome};
