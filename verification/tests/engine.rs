use organizer::apply::{apply_action, apply_move, parse_action, resolve_conflict, ActionKind,
    ActionPayload};
use organizer::classifier::{classify, ClassificationInput};
use organizer::db::{ActionStatus, Database, NewChunk};
use organizer::extractor::{chunk_text, extract_plan, is_office, is_texty, ExtractKind};
use organizer::fsmodel::FsState;
use organizer::hashing::{chunk_hash, fast_hash, full_hash};
use organizer::keyword_index::{build_index, delete_docs, search, upsert_docs, KeywordIndex,
    KwDoc};
use organizer::paths::{is_allowed, is_hidden, path_prefixes};
use organizer::rules::{apply_actions, evaluate, Action, Condition, Rule, RuleContext};
use organizer::scanner::{HashMode, ScannedItem};
use organizer::strutil::u64_to_string;
use organizer::suggester::run_suggester;
use organizer::undo::restore_from_backup;

fn ctx(path: &str, mime: Option<&str>, ext: Option<&str>, tags: Vec<String>) -> RuleContext {
    RuleContext {
        path: path.to_string(),
        mime: mime.map(|m| m.to_string()),
        ext: ext.map(|e| e.to_string()),
        tags,
    }
}

#[test]
fn condition_matching_covers_the_grammar() {
    let c = Condition::And {
        all: vec![
            Condition::PathPrefix { prefix: "/src".to_string() },
            Condition::Or {
                any: vec![
                    Condition::Mime { mime: "text/plain".to_string() },
                    Condition::Extension { ext: "md".to_string() },
                ],
            },
        ],
    };
    let good = ctx("/src/a.txt", Some("text/plain"), Some("txt"), vec![]);
    let bad = ctx("/dst/a.txt", Some("text/plain"), Some("txt"), vec![]);
    assert!(organizer::rules::matches(&c, &good));
    assert!(!organizer::rules::matches(&c, &bad));
    let t = Condition::Tag { tag: "work".to_string() };
    assert!(organizer::rules::matches(&t, &ctx("/x", None, None, vec!["work".to_string()])));
    assert!(!organizer::rules::matches(&t, &ctx("/x", None, None, vec![])));
}

#[test]
fn evaluate_orders_by_priority() {
    let mk = |name: &str, prio: i32| Rule {
        name: name.to_string(),
        priority: prio,
        enabled: true,
        condition: Condition::PathPrefix { prefix: "/".to_string() },
        actions: vec![],
    };
    let rules = vec![mk("b", 5), mk("a", 1), mk("c", 5)];
    let order = evaluate(&rules, &ctx("/x", None, None, vec![]));
    assert_eq!(order, vec![1usize, 0, 2]);
}

#[test]
fn apply_actions_keeps_last_action_per_kind() {
    let rule = Rule {
        name: "r".to_string(),
        priority: 0,
        enabled: true,
        condition: Condition::PathPrefix { prefix: "/".to_string() },
        actions: vec![
            Action::Move { to: "/first".to_string() },
            Action::Move { to: "/second".to_string() },
            Action::Tag { tag: "t1".to_string() },
        ],
    };
    let pairs = apply_actions(&rule, &ctx("/x", None, None, vec![]));
    assert_eq!(pairs.len(), 2);
    assert!(pairs.iter().any(|p| p.0 == "move" && p.1 == "/second"));
    assert!(pairs.iter().any(|p| p.0 == "tag" && p.1 == "t1"));
}

#[test]
fn allow_deny_gate() {
    let allow = vec!["/ok".to_string()];
    let deny: Vec<String> = vec![];
    // A path outside a non-empty allow list is denied.
    assert!(!is_allowed("/secret/x", &allow, &deny));
    assert!(is_allowed("/ok/file", &allow, &deny));
    // Deny always overrides.
    let deny2 = vec!["/ok/private".to_string()];
    assert!(!is_allowed("/ok/private/x", &allow, &deny2));
    // Empty allow admits everything not denied.
    assert!(is_allowed("/anything", &vec![], &vec![]));
}

#[test]
fn hidden_paths_and_prefixes() {
    assert!(is_hidden("/a/.git"));
    assert!(!is_hidden("/a/file.txt"));
    let p = path_prefixes("/A/b/c.txt");
    assert_eq!(p, vec!["/a".to_string(), "/a/b".to_string(), "/a/b/c.txt".to_string()]);
}

#[test]
fn hashes_are_hex_and_position_sensitive() {
    let data = b"hello".to_vec();
    let f = fast_hash(&data);
    let g = full_hash(&data);
    // A file under 64 KiB has equal fast and full hashes.
    assert_eq!(f, g);
    assert_eq!(f.len(), 64);
    assert!(f.chars().all(|c| c.is_ascii_hexdigit()));
    // The chunk hash ties content to position.
    let h1 = chunk_hash(0, 5, b"hello");
    let h2 = chunk_hash(1, 6, b"hello");
    assert_ne!(h1, h2);
    assert_ne!(h1, f);
}

#[test]
fn chunking_tiles_text_at_boundaries() {
    let text = b"One sentence. Another one goes here".to_vec();
    let chunks = chunk_text(&text, 20);
    assert!(chunks.len() >= 2);
    assert_eq!(chunks[0].start, 0);
    assert_eq!(chunks.last().unwrap().end, text.len());
    // The first cut lands just after the period inside the window.
    assert_eq!(chunks[0].end, 13);
    for w in chunks.windows(2) {
        assert_eq!(w[0].end, w[1].start);
    }
    for c in &chunks {
        assert_eq!(c.text, text[c.start..c.end].to_vec());
        assert_eq!(c.hash, chunk_hash(c.start as u64, c.end as u64, &c.text));
    }
    // Unchanged content at unchanged offsets gives identical hashes.
    let again = chunk_text(&text, 20);
    for (a, b) in chunks.iter().zip(again.iter()) {
        assert_eq!(a.hash, b.hash);
    }
}

#[test]
fn extract_dispatch_honours_mime_and_caps() {
    let parsers = organizer::config::ParserConfig {
        pdf: true,
        office: true,
        image_meta: true,
        ocr: false,
        max_image_bytes: None,
        max_ocr_bytes: None,
    };
    assert!(is_texty(&Some("text/plain".to_string())));
    assert!(is_texty(&Some("application/json".to_string())));
    assert!(!is_texty(&Some("application/pdf".to_string())));
    assert!(is_office(&Some("application/msword".to_string())));
    assert!(matches!(
        extract_plan(&Some("text/plain".to_string()), 50_000_000, &parsers),
        ExtractKind::Texty
    ));
    assert!(matches!(
        extract_plan(&Some("application/pdf".to_string()), 1000, &parsers),
        ExtractKind::Pdf
    ));
    assert!(matches!(
        extract_plan(&Some("application/pdf".to_string()), 50_000_000, &parsers),
        ExtractKind::Skip
    ));
}

fn payload_move(to: &str) -> ActionPayload {
    ActionPayload {
        to: Some(to.to_string()),
        tag: None,
        duplicate_of: None,
        strategy: None,
        rule: None,
        backup: None,
    }
}

#[test]
fn plain_move_with_trash_and_undo() {
    let mut fs = FsState::new();
    fs.write("/src/a.txt", b"hello".to_vec());
    let action = parse_action(
        &"/src/a.txt".to_string(),
        &"move".to_string(),
        &payload_move("/dst/a.txt"),
    );
    let trash = "/t".to_string();
    let r = apply_action(&mut fs, &action, Some(&trash), false, "rename");
    let backup = r.unwrap().unwrap();
    assert_eq!(backup, "/t/a.txt");
    assert!(!fs.exists_path("/src/a.txt"));
    assert_eq!(fs.read("/dst/a.txt").unwrap(), b"hello".to_vec());
    assert_eq!(fs.read("/t/a.txt").unwrap(), b"hello".to_vec());
    // Undo restores the original path byte-for-byte.
    let restored = restore_from_backup(&mut fs, &"/src/a.txt".to_string(), &backup);
    assert!(restored);
    assert_eq!(fs.read("/src/a.txt").unwrap(), b"hello".to_vec());
    // A live file is never overwritten.
    let again = restore_from_backup(&mut fs, &"/src/a.txt".to_string(), &backup);
    assert!(!again);
}

#[test]
fn conflict_rename_counts_up() {
    let mut fs = FsState::new();
    fs.write("/dst/a.txt", b"x".to_vec());
    let c1 = resolve_conflict(&fs, &"/dst/a.txt".to_string());
    assert_eq!(c1, "/dst/a_1.txt");
    fs.write("/dst/a_1.txt", b"y".to_vec());
    let c2 = resolve_conflict(&fs, &"/dst/a.txt".to_string());
    assert_eq!(c2, "/dst/a_2.txt");
}

#[test]
fn conflict_skip_leaves_everything() {
    let mut fs = FsState::new();
    fs.write("/src/a.txt", b"new".to_vec());
    fs.write("/dst/a.txt", b"old".to_vec());
    let action = parse_action(
        &"/src/a.txt".to_string(),
        &"move".to_string(),
        &payload_move("/dst/a.txt"),
    );
    let r = apply_action(&mut fs, &action, None, false, "skip");
    assert!(r.unwrap().is_none());
    assert_eq!(fs.read("/src/a.txt").unwrap(), b"new".to_vec());
    assert_eq!(fs.read("/dst/a.txt").unwrap(), b"old".to_vec());
}

#[test]
fn merge_duplicate_trash_backs_up_and_removes() {
    let mut fs = FsState::new();
    fs.write("/x/orig.txt", b"hello".to_vec());
    fs.write("/x/dup.txt", b"hello".to_vec());
    let action = ActionKind::MergeDuplicate {
        from: "/x/dup.txt".to_string(),
        target: "/x/orig.txt".to_string(),
        strategy: "trash".to_string(),
    };
    let trash = "/t".to_string();
    let r = apply_action(&mut fs, &action, Some(&trash), false, "rename");
    let backup = r.unwrap().unwrap();
    assert_eq!(backup, "/t/dup.txt");
    assert!(!fs.exists_path("/x/dup.txt"));
    assert_eq!(fs.read("/x/orig.txt").unwrap(), b"hello".to_vec());
    assert_eq!(fs.read("/t/dup.txt").unwrap(), b"hello".to_vec());
}

#[test]
fn merge_duplicate_replace_overwrites_canonical() {
    let mut fs = FsState::new();
    fs.write("/x/orig.txt", b"old".to_vec());
    fs.write("/x/dup.txt", b"new".to_vec());
    let action = ActionKind::MergeDuplicate {
        from: "/x/dup.txt".to_string(),
        target: "/x/orig.txt".to_string(),
        strategy: "replace".to_string(),
    };
    let r = apply_action(&mut fs, &action, None, false, "overwrite");
    assert!(r.is_ok());
    assert!(!fs.exists_path("/x/dup.txt"));
    assert_eq!(fs.read("/x/orig.txt").unwrap(), b"new".to_vec());
}

fn scanned(path: &str, size: i64, mtime: i64, hash: Option<&str>) -> ScannedItem {
    ScannedItem {
        path: path.to_string(),
        is_dir: false,
        size,
        mtime,
        hash: hash.map(|h| h.to_string()),
    }
}

#[test]
fn upsert_marks_dirty_only_on_change() {
    let mut db = Database::new();
    assert!(db.upsert_file(&scanned("/a.txt", 5, 100, Some("h1")), 1000));
    assert_eq!(db.files.len(), 1);
    assert_eq!(db.dirty.len(), 1);
    db.clear_dirty("/a.txt");
    // Unchanged rescan: no dirty mark.
    assert!(!db.upsert_file(&scanned("/a.txt", 5, 100, Some("h1")), 1001));
    assert_eq!(db.dirty.len(), 0);
    // A change rewrites the row and marks dirty again.
    assert!(db.upsert_file(&scanned("/a.txt", 6, 101, Some("h2")), 1002));
    assert_eq!(db.dirty.len(), 1);
    assert_eq!(db.files.len(), 1);
}

fn new_chunk(hash: &str, start: i64, end: i64, preview: &str) -> NewChunk {
    NewChunk {
        hash: hash.to_string(),
        start,
        end,
        preview: Some(preview.to_string()),
    }
}

#[test]
fn extraction_rerun_is_clean() {
    let mut db = Database::new();
    db.upsert_file(&scanned("/a.txt", 5, 100, Some("h1")), 1000);
    let fid = db.file_id_of("/a.txt").unwrap();
    let chunks = vec![new_chunk("c1", 0, 3, "abc"), new_chunk("c2", 3, 5, "de")];
    let (ins, del) = db.apply_extraction(fid, "/a.txt", &Some("text/plain".to_string()),
        &chunks, &Some("h1".to_string()), 1001);
    assert_eq!((ins, del), (2, 0));
    // Re-running with unchanged content inserts and deletes nothing.
    let (ins2, del2) = db.apply_extraction(fid, "/a.txt", &Some("text/plain".to_string()),
        &chunks, &Some("h1".to_string()), 1002);
    assert_eq!((ins2, del2), (0, 0));
    // A changed chunk set removes the stale hash and adds the new one.
    let chunks3 = vec![new_chunk("c1", 0, 3, "abc"), new_chunk("c9", 3, 5, "xy")];
    let (ins3, del3) = db.apply_extraction(fid, "/a.txt", &Some("text/plain".to_string()),
        &chunks3, &Some("h1".to_string()), 1003);
    assert_eq!((ins3, del3), (1, 1));
}

#[test]
fn merged_duplicate_tags_survive_on_canonical() {
    let mut db = Database::new();
    db.upsert_file(&scanned("/x/orig.txt", 5, 100, Some("same")), 1000);
    db.upsert_file(&scanned("/x/dup.txt", 5, 101, Some("same")), 1001);
    let orig = db.file_id_of("/x/orig.txt").unwrap();
    let dup = db.file_id_of("/x/dup.txt").unwrap();
    let tid = db.ensure_tag("old");
    db.ensure_file_tag(dup, tid, 1000, "test", 1002);
    db.copy_file_tags(dup, orig, 1003);
    assert!(db.file_tags.iter().any(|ft| ft.file_id == orig && ft.tag_id == tid));
    // Copying again adds nothing: the pair is unique.
    let before = db.file_tags.len();
    db.copy_file_tags(dup, orig, 1004);
    assert_eq!(db.file_tags.len(), before);
}

#[test]
fn dedupe_pair_planned_exactly_once() {
    let mut db = Database::new();
    db.upsert_file(&scanned("/x/orig.txt", 5, 100, Some("same")), 1000);
    db.upsert_file(&scanned("/x/dup.txt", 5, 101, Some("same")), 1001);
    let canonical = db.detect_duplicate_for_hash("/x/dup.txt", "same").unwrap();
    assert_eq!(canonical, "/x/orig.txt");
    let dup_id = db.file_id_of("/x/dup.txt").unwrap();
    db.plan_dedupe_pair(dup_id, &canonical, "trash", 1002);
    assert_eq!(db.actions.len(), 2);
    // A second detection pass plans nothing more.
    db.plan_dedupe_pair(dup_id, &canonical, "trash", 1003);
    assert_eq!(db.actions.len(), 2);
    assert_eq!(db.actions[0].kind, "dedupe");
    assert_eq!(db.actions[1].kind, "merge_duplicate");
    assert_eq!(db.actions[1].payload.duplicate_of.as_deref(), Some("/x/orig.txt"));
    assert_eq!(db.actions[1].payload.strategy.as_deref(), Some("trash"));
}

#[test]
fn suggester_skips_files_with_pending_moves() {
    let mut db = Database::new();
    db.upsert_file(&scanned("/src/a.txt", 5, 100, Some("h")), 1000);
    db.rules.push(organizer::db::Rule {
        id: 1,
        name: "move-docs".to_string(),
        condition: Condition::PathPrefix { prefix: "/src".to_string() },
        actions: vec![Action::Move { to: "/dst/a.txt".to_string() }],
        priority: 0,
        enabled: 1,
    });
    run_suggester(&mut db, 1001);
    assert_eq!(db.actions.len(), 1);
    assert_eq!(db.actions[0].kind, "move");
    assert_eq!(db.actions[0].payload.rule.as_deref(), Some("move-docs"));
    // The planned move excludes the file from further suggestions.
    run_suggester(&mut db, 1002);
    assert_eq!(db.actions.len(), 1);
}

#[test]
fn embedding_replans_only_absent_chunks() {
    let items = vec![
        organizer::embeddings::ChunkItem {
            chunk_id: 1,
            file_id: 1,
            hash: "c1".to_string(),
            text: "abc".to_string(),
            path: "/a.txt".to_string(),
            mime: None,
            ext: None,
            mtime: Some(100),
            file_hash: Some("fh".to_string()),
        },
        organizer::embeddings::ChunkItem {
            chunk_id: 2,
            file_id: 1,
            hash: "c2".to_string(),
            text: "de".to_string(),
            path: "/a.txt".to_string(),
            mime: None,
            ext: None,
            mtime: Some(100),
            file_hash: Some("fh".to_string()),
        },
    ];
    let none_present: Vec<String> = vec![];
    let plans = organizer::embeddings::plan_embedding(&items, &none_present);
    assert_eq!(plans.len(), 2);
    assert_eq!(plans[0].path_prefixes, vec!["/a.txt".to_string()]);
    // After everything was upserted, a re-run plans nothing.
    let all_present = vec!["c1".to_string(), "c2".to_string()];
    let plans2 = organizer::embeddings::plan_embedding(&items, &all_present);
    assert_eq!(plans2.len(), 0);
}

#[test]
fn keyword_index_rejects_deleted_paths() {
    let mut idx = KeywordIndex::new();
    build_index(&mut idx, vec![
        KwDoc { path: "/a.txt".to_string(), text: "alpha beta".to_string() },
        KwDoc { path: "/b.txt".to_string(), text: "gamma beta".to_string() },
    ]);
    let hits = search(&idx, "beta", 10);
    assert_eq!(hits.len(), 2);
    delete_docs(&mut idx, &vec!["/a.txt".to_string()]);
    let hits2 = search(&idx, "beta", 10);
    assert_eq!(hits2, vec!["/b.txt".to_string()]);
    upsert_docs(&mut idx, &vec![KwDoc {
        path: "/a.txt".to_string(),
        text: "delta".to_string(),
    }]);
    let hits3 = search(&idx, "delta", 10);
    assert_eq!(hits3, vec!["/a.txt".to_string()]);
}

#[test]
fn purge_removes_every_reference() {
    let mut db = Database::new();
    db.upsert_file(&scanned("/w/gone.txt", 5, 100, Some("h")), 1000);
    let fid = db.file_id_of("/w/gone.txt").unwrap();
    let chunks = vec![new_chunk("c1", 0, 5, "hello")];
    db.apply_extraction(fid, "/w/gone.txt", &Some("text/plain".to_string()), &chunks,
        &Some("h".to_string()), 1001);
    db.plan_dedupe_pair(fid, "/w/other.txt", "trash", 1002);
    db.purge_file("/w/gone.txt", 1003);
    assert!(db.file_id_of("/w/gone.txt").is_none());
    assert!(db.actions.iter().all(|a| a.file_id != fid));
    assert!(db.chunks.iter().all(|c| c.file_id != fid));
    let audit = db.audit.last().unwrap();
    assert_eq!(audit.event, "file_purged");
}

#[test]
fn classifier_prefers_heuristics() {
    let input = ClassificationInput {
        text: String::new(),
        path: "/docs/report.pdf".to_string(),
        mime: Some("application/pdf".to_string()),
        ext: Some("pdf".to_string()),
        provider: None,
        knn_candidates: vec![],
    };
    let out = classify(&input, None);
    assert_eq!(out.label, "document/pdf");
    assert_eq!(out.confidence, 900);
    // Without a heuristic hit, a strong neighbour wins.
    let input2 = ClassificationInput {
        text: String::new(),
        path: "/mystery/blob".to_string(),
        mime: Some("application/octet-stream".to_string()),
        ext: None,
        provider: None,
        knn_candidates: vec![("invoice".to_string(), 800)],
    };
    let out2 = classify(&input2, None);
    assert_eq!(out2.label, "invoice");
    // With neither, and no provider answer, the label is unknown.
    let input3 = ClassificationInput {
        text: String::new(),
        path: "/mystery/blob".to_string(),
        mime: Some("application/octet-stream".to_string()),
        ext: None,
        provider: None,
        knn_candidates: vec![],
    };
    let out3 = classify(&input3, None);
    assert_eq!(out3.label, "unknown");
    assert_eq!(out3.confidence, 0);
}

#[test]
fn misc_helpers() {
    assert_eq!(u64_to_string(0), "0");
    assert_eq!(u64_to_string(907), "907");
    assert!(matches!(HashMode::from("FAST"), HashMode::Fast));
    assert!(matches!(HashMode::from("full"), HashMode::Full));
    assert!(matches!(HashMode::from("none"), HashMode::Off));
    let mut fs = FsState::new();
    fs.write("/a", b"1".to_vec());
    let r = apply_move(&mut fs, &"/missing".to_string(), &"/b".to_string(), None, false);
    assert!(r.is_err());
    assert!(!fs.exists_path("/b"));
}

#[test]
fn denied_path_errors_the_action_row() {
    let mut db = Database::new();
    db.upsert_file(&scanned("/secret/x", 1, 1, None), 1000);
    let fid = db.file_id_of("/secret/x").unwrap();
    db.insert_action(fid, "move".to_string(), payload_move("/dst/x"), 1001);
    let allow = vec!["/ok".to_string()];
    let denied = db.gate_action(0, &allow, &vec![], 1002);
    assert!(denied);
    assert!(matches!(db.actions[0].status, ActionStatus::Error));
    assert_eq!(db.actions[0].error.as_deref(), Some("path denied"));
    // A path inside the allow list is left untouched.
    db.upsert_file(&scanned("/ok/y", 1, 1, None), 1003);
    let fid2 = db.file_id_of("/ok/y").unwrap();
    db.insert_action(fid2, "move".to_string(), payload_move("/dst/y"), 1004);
    let denied2 = db.gate_action(1, &allow, &vec![], 1005);
    assert!(!denied2);
    assert!(matches!(db.actions[1].status, ActionStatus::Planned));
}

#[test]
fn undo_resolves_backup_by_precedence() {
    let mut db = Database::new();
    let mut fs = FsState::new();
    fs.write("/t/a.txt", b"from-row".to_vec());
    fs.write("/t/override.txt", b"from-override".to_vec());
    db.upsert_file(&scanned("/src/a.txt", 5, 100, None), 1000);
    let fid = db.file_id_of("/src/a.txt").unwrap();
    db.insert_action(fid, "move".to_string(), payload_move("/dst/a.txt"), 1001);
    db.mark_action_executed(0, Some("/t/a.txt".to_string()), 1002);
    assert!(matches!(db.actions[0].status, ActionStatus::Executed));
    assert_eq!(db.actions[0].executed_at, Some(1002));
    // The explicit override wins over the recorded backup path.
    let over = "/t/override.txt".to_string();
    organizer::undo::undo_actions(&mut db, &mut fs, Some(&over), 1003);
    assert_eq!(fs.read("/src/a.txt").unwrap(), b"from-override".to_vec());
    assert!(matches!(db.actions[0].status, ActionStatus::Planned));
    assert_eq!(db.actions[0].executed_at, None);
    // A second pass finds the original alive and leaves everything alone.
    db.mark_action_executed(0, Some("/t/a.txt".to_string()), 1004);
    organizer::undo::undo_actions(&mut db, &mut fs, None, 1005);
    assert_eq!(fs.read("/src/a.txt").unwrap(), b"from-override".to_vec());
    assert!(matches!(db.actions[0].status, ActionStatus::Executed));
}

#[test]
fn watch_step_purges_and_audits() {
    let mut db = Database::new();
    db.upsert_file(&scanned("/w/gone.txt", 5, 100, Some("fh")), 1000);
    let fid = db.file_id_of("/w/gone.txt").unwrap();
    db.apply_extraction(fid, "/w/gone.txt", &Some("text/plain".to_string()),
        &vec![new_chunk("c1", 0, 5, "hello")], &Some("fh".to_string()), 1001);
    let outcome = organizer::watch::watch_step(&mut db, "/w/gone.txt", false, 1002);
    match outcome {
        organizer::watch::WatchOutcome::Purged { chunk_hashes, file_hash } => {
            assert_eq!(chunk_hashes, vec!["c1".to_string()]);
            assert_eq!(file_hash.as_deref(), Some("fh"));
        }
        _ => panic!("expected a purge"),
    }
    assert!(db.file_id_of("/w/gone.txt").is_none());
    let audit = db.audit.last().unwrap();
    assert_eq!(audit.event, "watch_purge");
    match audit.detail.as_ref().unwrap() {
        organizer::db::AuditDetail::Purge { paths, hashes, .. } => {
            assert_eq!(paths, &vec!["/w/gone.txt".to_string()]);
            assert_eq!(hashes, &vec!["c1".to_string()]);
        }
        _ => panic!("expected purge detail"),
    }
    // A live path is requeued as dirty instead.
    db.upsert_file(&scanned("/w/live.txt", 1, 1, None), 1003);
    db.clear_dirty("/w/live.txt");
    let outcome2 = organizer::watch::watch_step(&mut db, "/w/live.txt", true, 1004);
    assert!(matches!(outcome2, organizer::watch::WatchOutcome::Requeued));
    assert!(db.dirty.iter().any(|d| d.path == "/w/live.txt"
        && d.reason.as_deref() == Some("watch")));
}

#[test]
fn hybrid_merge_keeps_vector_order_and_dedupes() {
    let v = vec!["/a".to_string(), "/b".to_string()];
    let k = vec!["/b".to_string(), "/c".to_string(), "/c".to_string()];
    let merged = organizer::search::merge_hybrid(v, &k);
    assert_eq!(merged, vec!["/a".to_string(), "/b".to_string(), "/c".to_string()]);
}

#[test]
fn tag_action_persists_or_errors() {
    let mut db = Database::new();
    db.upsert_file(&scanned("/x/a.txt", 1, 1, None), 1000);
    let fid = db.file_id_of("/x/a.txt").unwrap();
    let tag_payload = organizer::apply::ActionPayload {
        to: None,
        tag: Some("work".to_string()),
        duplicate_of: None,
        strategy: None,
        rule: None,
        backup: None,
    };
    db.insert_action(fid, "tag".to_string(), tag_payload, 1001);
    assert!(db.apply_tag_action(0, 1002));
    assert!(matches!(db.actions[0].status, ActionStatus::Executed));
    assert!(db.tags.iter().any(|t| t.name == "work"));
    assert!(db.file_tags.iter().any(|ft| ft.file_id == fid && ft.confidence == 1000
        && ft.source.as_deref() == Some("apply")));
    // A tag action without a tag payload errors out.
    db.insert_action(fid, "tag".to_string(), payload_move("/nowhere"), 1003);
    assert!(!db.apply_tag_action(1, 1004));
    assert!(matches!(db.actions[1].status, ActionStatus::Error));
    assert_eq!(db.actions[1].error.as_deref(), Some("invalid tag payload"));
}

#[test]
fn extractor_short_circuit_clears_dirty() {
    let mut db = Database::new();
    db.upsert_file(&scanned("/x/a.txt", 5, 100, Some("h1")), 1000);
    assert_eq!(db.dirty.len(), 1);
    // Matching hash: the dirty row is consumed and extraction skipped.
    assert!(db.skip_if_unchanged("/x/a.txt", &Some("h1".to_string())));
    assert_eq!(db.dirty.len(), 0);
    // A changed hash leaves the state alone for the full pipeline.
    db.mark_dirty("/x/a.txt", "rescan", 1001);
    assert!(!db.skip_if_unchanged("/x/a.txt", &Some("h2".to_string())));
    assert_eq!(db.dirty.len(), 1);
}

#[test]
fn metadata_upserts_by_file_and_key() {
    let mut db = Database::new();
    db.upsert_file(&scanned("/img.jpg", 9, 100, None), 1000);
    let fid = db.file_id_of("/img.jpg").unwrap();
    db.upsert_metadata(fid, "width", Some("640".to_string()), "image", 1001);
    db.upsert_metadata(fid, "width", Some("800".to_string()), "image", 1002);
    db.upsert_metadata(fid, "height", Some("480".to_string()), "image", 1003);
    assert_eq!(db.metadata.len(), 2);
    let width = db.metadata.iter().find(|m| m.key == "width").unwrap();
    assert_eq!(width.value.as_deref(), Some("800"));
    assert_eq!(width.updated_at, 1002);
    assert!(db.untagged_files().contains(&fid));
}
