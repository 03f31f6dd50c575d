use tidyflow::{
    clean_extension, cleared_log, destination_path, detect_category, entry_from_path,
    extension_of_path, get_file_context, join_path, operation_log_path, plan_segments,
    resolve_duplicate_target, split_name, system_time_to_epoch_millis, target_segment,
    undo_order, Category, CombinedOrder, DateField, DuplicateHandling, FileEntry, FileMove,
    FolderMapping, OperationLog, OrganizeRule, Organizer, RestoreOutcome, RuleOptions, RuleType,
    Step, UndoResult,
};

fn rule(rule_type: RuleType, order: CombinedOrder, mappings: Vec<(&str, &str)>) -> OrganizeRule {
    OrganizeRule {
        rule_type,
        options: RuleOptions {
            date_field: DateField::Modified,
            combined_order: order,
            custom_mappings: mappings
                .into_iter()
                .map(|(e, f)| FolderMapping { extension: e.to_string(), folder: f.to_string() })
                .collect(),
        },
    }
}

// 2023-11-15 12:00:00 UTC: November 2023 in every time zone.
const NOV_2023: u64 = 1_700_049_600_000;

fn entry(path: &str, name: &str, ext: &str, mime: &str) -> FileEntry {
    FileEntry {
        path: path.to_string(),
        name: name.to_string(),
        extension: ext.to_string(),
        size: 3,
        created_at: 0,
        modified_at: NOV_2023,
        mime_type: mime.to_string(),
    }
}

fn strings(v: &[&str]) -> Vec<String> {
    v.iter().map(|s| s.to_string()).collect()
}

#[test]
fn category_by_extension_lists() {
    assert_eq!(detect_category("jpg", "application/octet-stream"), Category::Images);
    assert_eq!(detect_category("PDF", ""), Category::Documents);
    assert_eq!(detect_category("mkv", ""), Category::Videos);
    assert_eq!(detect_category("flac", ""), Category::Audio);
    assert_eq!(detect_category("rs", "text/plain"), Category::Code);
    assert_eq!(detect_category("7z", ""), Category::Archives);
    assert_eq!(detect_category("xyz", "application/octet-stream"), Category::Other);
    assert_eq!(detect_category("", ""), Category::Other);
}

#[test]
fn category_priority_and_mime_prefixes() {
    // Every extension list outranks every mime prefix.
    assert_eq!(detect_category("pdf", "image/png"), Category::Documents);
    assert_eq!(detect_category("txt", "video/mp4"), Category::Documents);
    assert_eq!(detect_category("ts", "video/mp2t"), Category::Code);
    assert_eq!(detect_category("zip", "audio/mpeg"), Category::Archives);
    assert_eq!(detect_category("xyz", "image/png"), Category::Images);
    assert_eq!(detect_category("xyz", "video/x-foo"), Category::Videos);
    assert_eq!(detect_category("xyz", "audio/mpeg"), Category::Audio);
    // Code outranks archives; no mime prefix for either.
    assert_eq!(detect_category("json", "application/zip"), Category::Code);
    assert_eq!(detect_category("xyz", "imag"), Category::Other);
    assert_eq!(detect_category("jpg", "x"), detect_category("jpg", "x"));
}

#[test]
fn category_names() {
    assert_eq!(Category::Images.name(), "Images");
    assert_eq!(Category::Archives.name(), "Archives");
    assert_eq!(Category::Other.name(), "Other");
}

#[test]
fn extensions_are_normalised() {
    assert_eq!(clean_extension(".JPG"), "jpg");
    assert_eq!(clean_extension("..Tar"), "tar");
    assert_eq!(clean_extension("md"), "md");
    assert_eq!(clean_extension(""), "");
}

#[test]
fn paths_join_and_split() {
    assert_eq!(join_path("/r", "Images"), "/r/Images");
    assert_eq!(join_path("/r/", "Images"), "/r/Images");
    assert_eq!(join_path("", "a"), "a");
    assert_eq!(operation_log_path("/data"), "/data/.tidyflow/last-operation.json");
    assert_eq!(split_name("a.tar.gz"), ("a.tar".to_string(), Some("gz".to_string())));
    assert_eq!(split_name(".bashrc"), (".bashrc".to_string(), None));
    assert_eq!(split_name("README"), ("README".to_string(), None));
    assert_eq!(extension_of_path("/x/.bashrc"), "");
    assert_eq!(extension_of_path("/x.d/photo.JPG"), "JPG");
    assert_eq!(extension_of_path("/x.d/noext"), "");
}

#[test]
fn epoch_millis_conversion() {
    assert_eq!(system_time_to_epoch_millis(None), 0);
    assert_eq!(system_time_to_epoch_millis(Some(1234)), 1234);
    assert_eq!(system_time_to_epoch_millis(Some((1u128 << 64) + 5)), 5);
}

#[test]
fn rename_probes_numbered_names() {
    let occupied = strings(&["/r/Documents/a.txt", "/r/Documents/a_1.txt"]);
    let r = resolve_duplicate_target("/r/Documents/a.txt", DuplicateHandling::Rename, &occupied);
    assert_eq!(r, Some("/r/Documents/a_2.txt".to_string()));
    let occupied = strings(&["/r/README"]);
    let r = resolve_duplicate_target("/r/README", DuplicateHandling::Rename, &occupied);
    assert_eq!(r, Some("/r/README_1".to_string()));
}

#[test]
fn resolve_free_skip_and_overwrite() {
    let occupied = strings(&["/r/a.txt"]);
    assert_eq!(
        resolve_duplicate_target("/r/b.txt", DuplicateHandling::Skip, &occupied),
        Some("/r/b.txt".to_string())
    );
    assert_eq!(resolve_duplicate_target("/r/a.txt", DuplicateHandling::Skip, &occupied), None);
    assert_eq!(
        resolve_duplicate_target("/r/a.txt", DuplicateHandling::Overwrite, &occupied),
        Some("/r/a.txt".to_string())
    );
}

#[test]
fn planner_scenarios() {
    let photo = entry("/r/photo.jpg", "photo.jpg", "jpg", "image/jpeg");
    let by_type = rule(RuleType::ByType, CombinedOrder::DateType, vec![]);
    assert_eq!(plan_segments(&photo, &by_type, 2023, 11), strings(&["Images"]));
    let by_date = rule(RuleType::ByDate, CombinedOrder::DateType, vec![]);
    assert_eq!(plan_segments(&photo, &by_date, 2023, 11), strings(&["2023", "11"]));
    assert_eq!(plan_segments(&photo, &by_date, 1999, 3), strings(&["1999", "03"]));
    let type_date = rule(RuleType::Combined, CombinedOrder::TypeDate, vec![]);
    assert_eq!(plan_segments(&photo, &type_date, 2023, 11), strings(&["Images", "2023", "11"]));
    let date_type = rule(RuleType::Combined, CombinedOrder::DateType, vec![]);
    assert_eq!(plan_segments(&photo, &date_type, 2023, 11), strings(&["2023", "11", "Images"]));
}

#[test]
fn custom_mapping_wins() {
    let photo = entry("/r/photo.JPG", "photo.JPG", ".JPG", "image/jpeg");
    let mapped = rule(RuleType::ByDate, CombinedOrder::DateType, vec![("jpg", "Pics")]);
    assert_eq!(plan_segments(&photo, &mapped, 2023, 11), strings(&["Pics"]));
    let custom = rule(RuleType::Custom, CombinedOrder::DateType, vec![("png", "Shots")]);
    assert_eq!(plan_segments(&photo, &custom, 2023, 11), strings(&["Images"]));
    let custom_hit = rule(RuleType::Custom, CombinedOrder::DateType, vec![("png", "Shots"), ("jpg", "Pics")]);
    assert_eq!(plan_segments(&photo, &custom_hit, 2023, 11), strings(&["Pics"]));
}

#[test]
fn target_segment_reads_the_date() {
    let photo = entry("/r/photo.jpg", "photo.jpg", "jpg", "image/jpeg");
    let by_type = rule(RuleType::ByType, CombinedOrder::DateType, vec![]);
    assert_eq!(target_segment(&photo, &by_type), Some(strings(&["Images"])));
    let by_date = rule(RuleType::ByDate, CombinedOrder::DateType, vec![]);
    assert_eq!(target_segment(&photo, &by_date), Some(strings(&["2023", "11"])));
    let type_date = rule(RuleType::Combined, CombinedOrder::TypeDate, vec![]);
    assert_eq!(target_segment(&photo, &type_date), Some(strings(&["Images", "2023", "11"])));
    let mut far = photo.snapshot();
    far.modified_at = u64::MAX;
    assert_eq!(target_segment(&far, &by_date), None);
}

#[test]
fn destination_joins_segments_and_name() {
    assert_eq!(
        destination_path("/r", &strings(&["Images", "2023", "11"]), "photo.jpg"),
        "/r/Images/2023/11/photo.jpg"
    );
    assert_eq!(destination_path("/r/", &strings(&[]), "a"), "/r/a");
}

#[test]
fn entry_and_context_from_path() {
    let e = entry_from_path("/r/photo.jpg", 10, Some(5), None).unwrap();
    assert_eq!(e.name, "photo.jpg");
    assert_eq!(e.extension, "jpg");
    assert_eq!(e.mime_type, "image/jpeg");
    assert_eq!(e.size, 10);
    assert_eq!(e.created_at, 5);
    assert_eq!(e.modified_at, 0);
    assert!(entry_from_path("/r/", 0, None, None).is_none());
    let c = get_file_context("/music/song.mp3");
    assert_eq!(c.extension, "mp3");
    assert_eq!(c.mime_type, "audio/mpeg");
    assert_eq!(c.file_category, "Audio");
    let c = get_file_context("/x/noext");
    assert_eq!(c.mime_type, "application/octet-stream");
    assert_eq!(c.file_category, "Other");
}

fn by_type() -> OrganizeRule {
    rule(RuleType::ByType, CombinedOrder::DateType, vec![])
}

#[test]
fn dry_run_records_and_writes_no_log() {
    let photo = entry("/r/photo.jpg", "photo.jpg", "jpg", "image/jpeg");
    let scanned = vec![photo.snapshot()];
    let mut o = Organizer::new("/r", by_type(), DuplicateHandling::Rename, true, &scanned, &vec![]);
    assert!(matches!(o.next(&photo, 7), Step::Done));
    let (result, log) = o.finish(8);
    assert!(log.is_none());
    assert!(result.is_dry_run);
    assert_eq!(result.moved.len(), 1);
    assert_eq!(result.moved[0].from, "/r/photo.jpg");
    assert_eq!(result.moved[0].to, "/r/Images/photo.jpg");
    assert_eq!(result.moved[0].timestamp, 7);
}

#[test]
fn dry_runs_repeat_identically() {
    let a = entry("/r/x/a.txt", "a.txt", "txt", "text/plain");
    let b = entry("/r/y/a.txt", "a.txt", "txt", "text/plain");
    let scanned = vec![a.snapshot(), b.snapshot()];
    let run = || {
        let mut o = Organizer::new("/r", by_type(), DuplicateHandling::Rename, true, &scanned, &vec![]);
        o.next(&a, 1);
        o.next(&b, 1);
        let r = o.finish(1).0;
        r.moved.iter().map(|m| (m.from.clone(), m.to.clone())).collect::<Vec<_>>()
    };
    let first = run();
    assert_eq!(first, run());
    assert_eq!(first[0].1, "/r/Documents/a.txt");
}

#[test]
fn real_run_asks_for_moves_and_logs_them() {
    let a = entry("/r/x/a.txt", "a.txt", "txt", "text/plain");
    let b = entry("/r/y/a.txt", "a.txt", "txt", "text/plain");
    let scanned = vec![a.snapshot(), b.snapshot()];
    let mut o = Organizer::new("/r", by_type(), DuplicateHandling::Rename, false, &scanned, &vec![]);
    for e in [&a, &b] {
        match o.next(e, 3) {
            Step::Move { from, to } => o.record_move(from, to, Ok(()), 3),
            Step::Done => panic!("a move was expected"),
        }
    }
    let (result, log) = o.finish(4);
    assert!(!result.is_dry_run);
    assert_eq!(result.moved[0].to, "/r/Documents/a.txt");
    assert_eq!(result.moved[1].to, "/r/Documents/a_1.txt");
    let log = log.unwrap();
    assert_eq!(log.created_at, 4);
    assert_eq!(log.moved.len(), 2);
    assert_eq!(log.moved[1].from, "/r/y/a.txt");
}

#[test]
fn skip_policy_leaves_file_skipped() {
    let a = entry("/r/a.txt", "a.txt", "txt", "text/plain");
    let taken = entry("/r/Documents/a.txt", "a.txt", "txt", "text/plain");
    let scanned = vec![a.snapshot(), taken.snapshot()];
    let mut o = Organizer::new("/r", by_type(), DuplicateHandling::Skip, false, &scanned, &vec![]);
    assert!(matches!(o.next(&a, 1), Step::Done));
    // The file already at its destination is skipped as well.
    assert!(matches!(o.next(&taken, 1), Step::Done));
    let (result, log) = o.finish(2);
    assert_eq!(result.skipped.len(), 2);
    assert_eq!(result.skipped[0].path, "/r/a.txt");
    assert!(result.moved.is_empty());
    assert_eq!(log.unwrap().moved.len(), 0);
}

#[test]
fn bookkeeping_files_are_ignored() {
    let log_file = entry("/r/.tidyflow/last-operation.json", "last-operation.json", "json", "application/json");
    let scanned = vec![log_file.snapshot()];
    let mut o = Organizer::new("/r", by_type(), DuplicateHandling::Rename, true, &scanned, &vec![]);
    assert!(matches!(o.next(&log_file, 1), Step::Done));
    let (result, _) = o.finish(1);
    assert!(result.moved.is_empty() && result.skipped.is_empty() && result.errors.is_empty());
}

#[test]
fn failed_move_becomes_an_error() {
    let a = entry("/r/a.txt", "a.txt", "txt", "text/plain");
    let mut o = Organizer::new("/r", by_type(), DuplicateHandling::Rename, false, &vec![a.snapshot()], &vec![]);
    o.record_move("/r/a.txt".to_string(), "/r/Documents/a.txt".to_string(), Err("denied".to_string()), 1);
    let (result, log) = o.finish(2);
    assert_eq!(result.errors, vec!["/r/a.txt -> /r/Documents/a.txt: denied".to_string()]);
    assert!(result.moved.is_empty());
    assert_eq!(log.unwrap().moved.len(), 0);
}

#[test]
fn undo_runs_backwards_and_reports_missing_files() {
    let mv = |f: &str, t: &str| FileMove { from: f.to_string(), to: t.to_string(), timestamp: 1 };
    let log = OperationLog { moved: vec![mv("/r/a", "/r/D/a"), mv("/r/b", "/r/D/b")], created_at: 1 };
    let order = undo_order(&log);
    assert_eq!(order[0].from, "/r/b");
    assert_eq!(order[1].from, "/r/a");
    let mut result = UndoResult::new();
    result.record_restore(&order[0], RestoreOutcome::Missing, 5);
    result.record_restore(&order[1], RestoreOutcome::Restored, 5);
    assert_eq!(result.errors, vec!["Missing file for rollback: /r/D/b".to_string()]);
    assert_eq!(result.restored.len(), 1);
    assert_eq!(result.restored[0].from, "/r/D/a");
    assert_eq!(result.restored[0].to, "/r/a");
    result.record_restore(&order[1], RestoreOutcome::RenameFailed("busy".to_string()), 5);
    assert_eq!(result.errors[1], "/r/D/a -> /r/a: busy");
    result.record_restore(&order[1], RestoreOutcome::ParentFailed("no dir".to_string()), 5);
    assert_eq!(result.errors[2], "no dir");
    let cleared = cleared_log(9);
    assert!(cleared.moved.is_empty());
    assert_eq!(cleared.created_at, 9);
}

#[test]
fn context_from_a_given_mime_type() {
    let c = tidyflow::file_context_with_mime("/x/clip.bin", "video/mp4".to_string());
    assert_eq!(c.extension, "bin");
    assert_eq!(c.file_category, "Videos");
}

#[test]
fn years_and_months_are_written_out() {
    let photo = entry("/r/photo.jpg", "photo.jpg", "jpg", "image/jpeg");
    let by_date = rule(RuleType::ByDate, CombinedOrder::DateType, vec![]);
    assert_eq!(plan_segments(&photo, &by_date, 1969, 12), strings(&["1969", "12"]));
    assert_eq!(plan_segments(&photo, &by_date, -44, 1), strings(&["-44", "01"]));
    assert_eq!(plan_segments(&photo, &by_date, 0, 9), strings(&["0", "09"]));
}

#[test]
fn lookups_and_searches() {
    let mappings = vec![
        FolderMapping { extension: "md".to_string(), folder: "Notes".to_string() },
        FolderMapping { extension: "md".to_string(), folder: "Later".to_string() },
    ];
    assert_eq!(tidyflow::find_folder(&mappings, "md"), Some(0));
    assert_eq!(tidyflow::find_folder(&mappings, "txt"), None);
    assert!(tidyflow::contains_path(&strings(&["/a", "/b"]), "/b"));
    assert!(!tidyflow::contains_path(&strings(&["/a", "/b"]), "/c"));
    assert!(tidyflow::str_contains("/r/.tidyflow/x", ".tidyflow"));
    assert!(!tidyflow::str_contains("/r/tidyflow/x", ".tidyflow"));
    assert!(tidyflow::str_starts_with("image/png", "image/"));
    assert!(!tidyflow::str_eq("a", "A"));
}

#[test]
fn only_the_log_directory_is_ignored() {
    let notes = entry("/r/notes.tidyflow.md", "notes.tidyflow.md", "md", "text/markdown");
    let scanned = vec![notes.snapshot()];
    let mut o = Organizer::new("/r", by_type(), DuplicateHandling::Rename, true, &scanned, &vec![]);
    o.next(&notes, 1);
    let (result, _) = o.finish(1);
    assert_eq!(result.moved[0].to, "/r/Documents/notes.tidyflow.md");
    assert!(tidyflow::in_log_dir("/r", "/r/.tidyflow/last-operation.json"));
    assert!(!tidyflow::in_log_dir("/r", "/r/x/.tidyflow/a"));
}

#[test]
fn other_entries_count_as_taken() {
    let a = entry("/r/a.txt", "a.txt", "txt", "text/plain");
    let scanned = vec![a.snapshot()];
    let dirs = strings(&["/r/Documents", "/r/Documents/a.txt"]);
    let mut o = Organizer::new("/r", by_type(), DuplicateHandling::Rename, true, &scanned, &dirs);
    o.next(&a, 1);
    let (result, _) = o.finish(1);
    assert_eq!(result.moved[0].to, "/r/Documents/a_1.txt");
}
