use phaneros::desktop::{
    conflict_summary, diff, file_node, file_side, format_activity_summary, format_bytes, format_dedup_ratio,
    is_binary_content, locate_daemon_binary, map_status, recommended_action, relative_time_at, resolve_action,
    split_name_ext, strip_conflict_suffix, telemetry_dto, text_diff, text_diff_of_changes, vault_dto, ConflictDiffDto, ConflictFiles,
    sort_listing, FileFacts, FileNodeDto, LineTag, ResolveAction,
};
use phaneros::telemetry::{DriveStatus, SyncSummary};

#[test]
fn short_bytes_have_one_decimal() {
    assert_eq!(format_bytes(512), "512 B");
    assert_eq!(format_bytes(1536), "1.5 KB");
    assert_eq!(format_bytes(4404019), "4.2 MB");
    assert_eq!(format_bytes(3 * 1024 * 1024 * 1024), "3.0 GB");
}

#[test]
fn short_bytes_match_float_formatting() {
    for k in 0..20000u64 {
        for b in [k * 131, k * 104_729 + 7, k * (1 << 20) / 3] {
            let expected = if b >= 1 << 30 {
                format!("{:.1} GB", b as f64 / (1024.0 * 1024.0 * 1024.0))
            } else if b >= 1 << 20 {
                format!("{:.1} MB", b as f64 / (1024.0 * 1024.0))
            } else if b >= 1024 {
                format!("{:.1} KB", b as f64 / 1024.0)
            } else {
                format!("{} B", b)
            };
            assert_eq!(format_bytes(b), expected, "bytes {}", b);
        }
    }
}

#[test]
fn relative_times() {
    assert_eq!(relative_time_at(None, 100), "Never");
    assert_eq!(relative_time_at(Some(100), 159), "just now");
    assert_eq!(relative_time_at(Some(200), 100), "just now");
    assert_eq!(relative_time_at(Some(0), 125), "2m ago");
    assert_eq!(relative_time_at(Some(0), 7200), "2h ago");
    assert_eq!(relative_time_at(Some(0), 3 * 86400 + 5), "3d ago");
}

fn summary(raw: u64, wire: u64) -> SyncSummary {
    let mut s = SyncSummary::new_at("d".to_string(), 1, 2);
    s.compression.total_raw_bytes = raw;
    s.transfer.wire_bytes_sent = wire;
    s
}

#[test]
fn activity_summary_reports_savings() {
    assert_eq!(format_activity_summary(&summary(4404019, 1153434)), "Synced 4.2 MB \u{2192} 1.1 MB (74% smaller)");
    assert_eq!(format_activity_summary(&summary(1000, 0)), "Synced 1000 B");
    assert_eq!(format_activity_summary(&summary(1000, 2000)), "Synced 1000 B");
}

#[test]
fn dedup_ratio() {
    assert_eq!(format_dedup_ratio(1000, 500), "2.00\u{d7}");
    assert_eq!(format_dedup_ratio(1000, 1000), "1000.00\u{d7}");
    assert_eq!(format_dedup_ratio(0, 0), "0.00\u{d7}");
    assert_eq!(format_dedup_ratio(1000, 0), "1.00\u{d7}");
}

#[test]
fn vault_states() {
    assert_eq!(map_status(&DriveStatus::Idle), "synced");
    assert_eq!(map_status(&DriveStatus::Reconciling), "syncing");
    assert_eq!(map_status(&DriveStatus::Materializing), "syncing");
    assert_eq!(map_status(&DriveStatus::Stopped), "paused");
    assert_eq!(map_status(&DriveStatus::Error("x".to_string())), "conflict");
    let dto = vault_dto("notes".to_string(), "/v".to_string(), &DriveStatus::Idle, 10, 2);
    assert_eq!(dto.name, "notes");
    assert_eq!(dto.status, "synced");
    assert_eq!(dto.quota_bytes, None);
    let t = telemetry_dto(Some(0), 1000, 500, "50%".to_string(), 2048, 90);
    assert_eq!(t.last_synced, "1m ago");
    assert_eq!(t.deduplication_ratio, "2.00\u{d7}");
    assert_eq!(t.transfer_speed, "2.0 KB/s");
}

#[test]
fn names_split_at_their_last_dot() {
    let s = |n: &str, d: bool| split_name_ext(n, d);
    assert_eq!(s("notes.tar.gz", false), ("notes.tar".to_string(), "gz".to_string()));
    assert_eq!(s(".bashrc", false), (".bashrc".to_string(), String::new()));
    assert_eq!(s("README", false), ("README".to_string(), String::new()));
    assert_eq!(s("photos.2024", true), ("photos.2024".to_string(), String::new()));
    assert_eq!(s("a.", false), ("a".to_string(), String::new()));
}

#[test]
fn file_nodes_hide_dot_files() {
    assert!(file_node("/v/.git".to_string(), ".git", true, 0, None, 0, vec![]).is_none());
    let node = file_node("/v/a.txt".to_string(), "a.txt", false, 2048, Some(0), 120, vec![]).unwrap();
    assert_eq!(node.name, "a");
    assert_eq!(node.ext, "txt");
    assert_eq!(node.badge, Some("TXT".to_string()));
    assert_eq!(node.size, Some("2.0 KB".to_string()));
    assert_eq!(node.modified, Some("2m ago".to_string()));
    assert!(node.children.is_none());
}

#[test]
fn conflict_names() {
    assert_eq!(strip_conflict_suffix("README.md.conflict"), Some(("README.md".to_string(), false)));
    assert_eq!(strip_conflict_suffix("notes.txt.conflict-delete"), Some(("notes.txt".to_string(), true)));
    assert_eq!(strip_conflict_suffix("doc.txt.conflict.1"), Some(("doc.txt".to_string(), false)));
    assert_eq!(strip_conflict_suffix("note.txt.conflict-delete.12"), Some(("note.txt".to_string(), true)));
    assert_eq!(strip_conflict_suffix("plain.txt"), None);
    assert_eq!(strip_conflict_suffix("a.conflict.x"), None);
    assert_eq!(strip_conflict_suffix("a.conflict."), None);
    assert_eq!(strip_conflict_suffix("a.conflict.conflict"), Some(("a.conflict".to_string(), false)));
}

#[test]
fn binary_content() {
    assert!(is_binary_content(&None));
    assert!(is_binary_content(&Some(vec![b'a', 0, b'b'])));
    assert!(is_binary_content(&Some(vec![0xff, 0xfe])));
    assert!(!is_binary_content(&Some("plain text ✓".as_bytes().to_vec())));
    let mut late_zero = vec![b'a'; 9000];
    late_zero[8500] = 0;
    assert!(!is_binary_content(&Some(late_zero)));
}

fn facts(bytes: &[u8]) -> FileFacts {
    FileFacts { size: Some(bytes.len() as u64), modified_secs: Some(0), bytes: Some(bytes.to_vec()) }
}

#[test]
fn a_text_conflict_shows_a_line_diff() {
    let files = ConflictFiles {
        conflict_path: "/v/notes.md.conflict".to_string(),
        original_path: "/v/notes.md".to_string(),
        original_exists: true,
        conflict: facts(b"line one\nline two changed\n"),
        original: facts(b"line one\nline two\n"),
        conflict_text: Ok("line one\nline two changed\n".to_string()),
        original_text: Ok("line one\nline two\n".to_string()),
    };
    match diff("notes.md.conflict", &files, 10).unwrap() {
        ConflictDiffDto::Text { diff } => {
            assert_eq!(diff.lines_added, 1);
            assert_eq!(diff.lines_removed, 1);
            let lines: Vec<(&str, &str)> = diff.chunks[0].lines.iter().map(|l| (l.kind, l.text.as_str())).collect();
            assert_eq!(lines, vec![("same", "line one"), ("delete", "- line two"), ("add", "+ line two changed")]);
        },
        _ => panic!("expected a text diff"),
    }
}

#[test]
fn a_delete_conflict_shows_the_deleted_side() {
    let files = ConflictFiles {
        conflict_path: "/v/gone.txt.conflict-delete".to_string(),
        original_path: "/v/gone.txt".to_string(),
        original_exists: false,
        conflict: facts(b"surviving edit"),
        original: FileFacts { size: None, modified_secs: None, bytes: None },
        conflict_text: Ok("surviving edit".to_string()),
        original_text: Err("missing".to_string()),
    };
    match diff("gone.txt.conflict-delete", &files, 10).unwrap() {
        ConflictDiffDto::Binary { diff } => {
            assert_eq!(diff.filename, "gone.txt");
            assert_eq!(diff.store.size, "Deleted");
            assert_eq!(diff.recommended_action, "Keep Local");
            assert_eq!(diff.local.hash, blake3::hash(b"surviving edit").to_hex()[..16].to_string());
        },
        _ => panic!("expected a binary-shaped diff"),
    }
}

#[test]
fn a_modify_conflict_without_its_original_cannot_be_shown() {
    let files = ConflictFiles {
        conflict_path: "/v/a.txt.conflict".to_string(),
        original_path: "/v/a.txt".to_string(),
        original_exists: false,
        conflict: facts(b"x"),
        original: FileFacts { size: None, modified_secs: None, bytes: None },
        conflict_text: Ok("x".to_string()),
        original_text: Err("missing".to_string()),
    };
    assert_eq!(
        diff("a.txt.conflict", &files, 0).err(),
        Some("original file 'a.txt' is missing; cannot diff".to_string())
    );
    assert_eq!(diff("a.txt", &files, 0).err(), Some("'a.txt' is not a conflict file".to_string()));
}

#[test]
fn a_binary_conflict_compares_metadata() {
    let files = ConflictFiles {
        conflict_path: "/v/db.sqlite.conflict".to_string(),
        original_path: "/v/db.sqlite".to_string(),
        original_exists: true,
        conflict: FileFacts { size: Some(3), modified_secs: Some(0), bytes: Some(vec![0, 1, 2]) },
        original: FileFacts { size: Some(2), modified_secs: Some(5000), bytes: Some(vec![0, 1]) },
        conflict_text: Err("binary".to_string()),
        original_text: Err("binary".to_string()),
    };
    match diff("db.sqlite.conflict", &files, 10_000).unwrap() {
        ConflictDiffDto::Binary { diff } => {
            assert_eq!(diff.path, "/v/db.sqlite");
            assert_eq!(diff.local.size, "2 B");
            assert_eq!(diff.store.size, "3 B");
            assert_eq!(diff.recommended_action, "Keep Store");
        },
        _ => panic!("expected a binary diff"),
    }
}

#[test]
fn side_and_action() {
    let unknown = file_side(&FileFacts { size: None, modified_secs: None, bytes: None }, 0);
    assert_eq!(unknown.size, "Unknown");
    assert_eq!(unknown.modified, "Unknown");
    assert_eq!(unknown.hash, "Unknown");
    assert_eq!(recommended_action(&unknown, &unknown), "Keep Local");
}

#[test]
fn resolving_conflicts() {
    assert_eq!(resolve_action("f.txt.conflict", true), Ok(("f.txt".to_string(), ResolveAction::RemoveConflict)));
    assert_eq!(resolve_action("f.txt.conflict", false), Ok(("f.txt".to_string(), ResolveAction::ReplaceOriginal)));
    assert_eq!(
        resolve_action("gone.txt.conflict-delete", true),
        Ok(("gone.txt".to_string(), ResolveAction::RestoreOriginal))
    );
    assert_eq!(
        resolve_action("gone.txt.conflict-delete", false),
        Ok(("gone.txt".to_string(), ResolveAction::RemoveConflict))
    );
    assert!(resolve_action("plain.txt", true).is_err());
}

#[test]
fn scanned_conflicts() {
    let c = conflict_summary("/v/README.md.conflict".to_string(), "README.md.conflict", false, Some(false)).unwrap();
    assert_eq!(c.filename, "README.md");
    assert_eq!(c.conflict_kind, "modify");
    assert!(!c.is_binary);
    let d = conflict_summary("/v/n.txt.conflict-delete".to_string(), "n.txt.conflict-delete", false, Some(true)).unwrap();
    assert_eq!(d.conflict_kind, "delete");
    assert!(!d.is_binary);
    assert!(conflict_summary("/v/plain.txt".to_string(), "plain.txt", false, None).is_none());
}

#[test]
fn text_diff_counts_changes() {
    let d = text_diff("a", "/a", "x\ny\n", "x\nz\nw\n");
    assert_eq!(d.lines_added, 2);
    assert_eq!(d.lines_removed, 1);
    assert_eq!(d.chunks.len(), 1);
    assert_eq!(d.chunks[0].old_start, 1);
}

#[test]
fn daemon_binary_location() {
    assert_eq!(locate_daemon_binary(Some("/app/phanerosd".to_string()), true, true), Ok("/app/phanerosd".to_string()));
    assert_eq!(locate_daemon_binary(Some("/app/phanerosd".to_string()), false, true), Ok("phanerosd".to_string()));
    assert_eq!(
        locate_daemon_binary(None, false, false),
        Err("Could not locate the phanerosd binary (checked <bundle path unavailable> and $PATH). Is phaneros-daemon installed?".to_string())
    );
}

fn listing_entry(name: &str, is_dir: bool, id: &str) -> FileNodeDto {
    FileNodeDto {
        id: id.to_string(),
        name: name.to_string(),
        ext: String::new(),
        is_dir,
        size: None,
        modified: None,
        children: None,
        badge: None,
    }
}

#[test]
fn listing_puts_folders_first_then_names_ignoring_case() {
    let nodes = vec![
        listing_entry("b", false, "1"),
        listing_entry("Zeta", true, "2"),
        listing_entry("A", false, "3"),
        listing_entry("alpha", true, "4"),
        listing_entry("a", false, "5"),
    ];
    let ids: Vec<String> = sort_listing(nodes).into_iter().map(|n| n.id).collect();
    assert_eq!(ids, vec!["4", "2", "3", "5", "1"]);
    assert!(sort_listing(Vec::new()).is_empty());
}

#[test]
fn scan_finds_modify_conflict_pair() {
    let c = conflict_summary("/v/README.md.conflict".to_string(), "README.md.conflict", false, Some(false)).unwrap();
    assert_eq!(c.filename, "README.md");
    assert_eq!(c.conflict_kind, "modify");
    assert!(!c.is_binary);
}

#[test]
fn scan_finds_delete_conflict() {
    let c = conflict_summary("/v/notes.txt.conflict-delete".to_string(), "notes.txt.conflict-delete", false, None)
        .unwrap();
    assert_eq!(c.filename, "notes.txt");
    assert_eq!(c.conflict_kind, "delete");
}

#[test]
fn scan_ignores_regular_files() {
    assert!(conflict_summary("/v/plain.txt".to_string(), "plain.txt", false, None).is_none());
}

#[test]
fn diff_text_modify_conflict_reports_line_changes() {
    let files = ConflictFiles {
        conflict_path: "/v/notes.md.conflict".to_string(),
        original_path: "/v/notes.md".to_string(),
        original_exists: true,
        conflict: facts(b"line one\nline two changed\n"),
        original: facts(b"line one\nline two\n"),
        conflict_text: Ok("line one\nline two changed\n".to_string()),
        original_text: Ok("line one\nline two\n".to_string()),
    };
    match diff("notes.md.conflict", &files, 0).unwrap() {
        ConflictDiffDto::Text { diff } => {
            assert_eq!(diff.filename, "notes.md");
            assert_eq!(diff.lines_removed, 1);
            assert_eq!(diff.lines_added, 1);
        }
        ConflictDiffDto::Binary { .. } => panic!("expected a text diff"),
    }
}

#[test]
fn diff_binary_modify_conflict_returns_metadata_comparison() {
    let files = ConflictFiles {
        conflict_path: "/v/db.sqlite.conflict".to_string(),
        original_path: "/v/db.sqlite".to_string(),
        original_exists: true,
        conflict: facts(&[4u8, 5, 6, 7]),
        original: facts(&[0u8, 1, 2, 3]),
        conflict_text: Err("binary".to_string()),
        original_text: Err("binary".to_string()),
    };
    match diff("db.sqlite.conflict", &files, 0).unwrap() {
        ConflictDiffDto::Binary { diff } => {
            assert_eq!(diff.filename, "db.sqlite");
            assert_ne!(diff.local.hash, diff.store.hash);
        }
        ConflictDiffDto::Text { .. } => panic!("expected a binary diff"),
    }
}

#[test]
fn diff_delete_conflict_shows_deleted_other_side() {
    let files = ConflictFiles {
        conflict_path: "/v/gone.txt.conflict-delete".to_string(),
        original_path: "/v/gone.txt".to_string(),
        original_exists: false,
        conflict: facts(b"surviving edit"),
        original: FileFacts { size: None, modified_secs: None, bytes: None },
        conflict_text: Ok("surviving edit".to_string()),
        original_text: Err("missing".to_string()),
    };
    match diff("gone.txt.conflict-delete", &files, 0).unwrap() {
        ConflictDiffDto::Binary { diff } => {
            assert_eq!(diff.filename, "gone.txt");
            assert_eq!(diff.store.size, "Deleted");
        }
        ConflictDiffDto::Text { .. } => panic!("expected a binary-shaped diff"),
    }
}

#[test]
fn resolve_modify_keep_local_drops_conflict_file() {
    assert_eq!(resolve_action("f.txt.conflict", true), Ok(("f.txt".to_string(), ResolveAction::RemoveConflict)));
}

#[test]
fn resolve_modify_keep_store_overwrites_original() {
    assert_eq!(resolve_action("f.txt.conflict", false), Ok(("f.txt".to_string(), ResolveAction::ReplaceOriginal)));
}

#[test]
fn resolve_delete_keep_local_restores_original_name() {
    assert_eq!(
        resolve_action("gone.txt.conflict-delete", true),
        Ok(("gone.txt".to_string(), ResolveAction::RestoreOriginal))
    );
}

#[test]
fn resolve_delete_keep_store_removes_conflict_file() {
    assert_eq!(
        resolve_action("gone.txt.conflict-delete", false),
        Ok(("gone.txt".to_string(), ResolveAction::RemoveConflict))
    );
}

#[test]
fn changes_become_marked_lines_and_counts() {
    let changes = vec![
        (LineTag::Equal, "keep\n".to_string()),
        (LineTag::Delete, "old\n".to_string()),
        (LineTag::Insert, "new\n\n".to_string()),
        (LineTag::Insert, "tail".to_string()),
    ];
    let d = text_diff_of_changes("n.md", "/v/n.md", &changes);
    assert_eq!(d.filename, "n.md");
    assert_eq!(d.path, "/v/n.md");
    assert_eq!(d.lines_added, 2);
    assert_eq!(d.lines_removed, 1);
    assert_eq!(d.chunks.len(), 1);
    assert_eq!((d.chunks[0].old_start, d.chunks[0].new_start), (1, 1));
    let shown: Vec<(&str, String)> = d.chunks[0].lines.iter().map(|l| (l.kind, l.text.clone())).collect();
    assert_eq!(
        shown,
        vec![
            ("same", "keep".to_string()),
            ("delete", "- old".to_string()),
            ("add", "+ new".to_string()),
            ("add", "+ tail".to_string()),
        ]
    );
}
