//! Tests of the journaling store and its operations.

use skillgate::notes::BranchRecord;
use skillgate::notes::ConversationRecord;
use skillgate::notes::MessageRecord;
use skillgate::notes::NoteRecord;
use skillgate::notes::NotesError;
use skillgate::notes::NotesStore;
use skillgate::notes::SnapshotRecord;
use skillgate::notes::new_id;
use skillgate::notes::normalize_priority;
use skillgate::notes::normalize_status;
use skillgate::notes::resolve_workspace;
use skillgate::notes::trim_for_table;
use skillgate::ops::branch_fork;
use skillgate::ops::conversation_create;
use skillgate::ops::export_conversation_markdown;
use skillgate::ops::message_add;
use skillgate::ops::note_add;
use skillgate::ops::note_annotate;
use skillgate::ops::note_archive;
use skillgate::ops::note_list_filter;
use skillgate::ops::note_update;
use skillgate::ops::render_branch_tree;
use skillgate::ops::search_records;
use skillgate::ops::snapshot_create;
use skillgate::paths::AbsPath;
use skillgate::render::render_resume_text;
use skillgate::strings::clean_items;
use skillgate::strings::clean_tags;

fn abs(s: &str) -> AbsPath {
    AbsPath::from_string(s).expect("absolute path")
}

fn store() -> NotesStore {
    NotesStore::new(abs("/workspace"))
}

#[test]
fn end_to_end_flow_works() {
    let mut store = store();

    let conversation = ConversationRecord {
        id: "c_main".to_string(),
        title: "main".to_string(),
        created_at: 1,
        updated_at: 1,
        root_message_id: None,
    };
    store.save_conversation(&conversation);

    let message = MessageRecord {
        id: "m1".to_string(),
        conversation_id: conversation.id.clone(),
        parent_id: None,
        role: "user".to_string(),
        content: "Need rollback strategy".to_string(),
        created_at: 2,
    };
    store.save_message(&message);

    let note = NoteRecord {
        id: "n1".to_string(),
        conversation_id: conversation.id.clone(),
        message_id: Some(message.id.clone()),
        title: "plan".to_string(),
        body: "use feature flag".to_string(),
        tags: vec!["risk".to_string()],
        status: "open".to_string(),
        priority: "p1".to_string(),
        created_at: 3,
        updated_at: 3,
        repo_ctx: None,
    };
    store.save_note(&note);

    let snapshot = SnapshotRecord {
        id: "s1".to_string(),
        conversation_id: conversation.id.clone(),
        summary: "prepared".to_string(),
        todo: vec!["staging".to_string()],
        risks: vec!["missing tests".to_string()],
        repo_ctx: None,
        created_at: 4,
    };
    store.save_snapshot(&snapshot);

    let summary = store.rebuild_index();
    assert_eq!(summary.conversations, 1);
    assert_eq!(summary.messages, 1);
    assert_eq!(summary.notes, 1);
    assert_eq!(summary.snapshots, 1);

    let resume = render_resume_text(&store, &snapshot).expect("resume text");
    assert!(resume.contains("Snapshot: s1"));
    assert!(!resume.contains("Need rollback strategy"));
}

#[test]
fn validate_status_and_priority() {
    assert_eq!(
        normalize_status("open".to_string()).expect("status"),
        "open"
    );
    assert_eq!(
        normalize_priority("p2".to_string()).expect("priority"),
        "p2"
    );
    assert!(normalize_status("nope".to_string()).is_err());
    assert!(normalize_priority("hi".to_string()).is_err());
}

#[test]
fn trimming_keeps_short_strings() {
    assert_eq!(trim_for_table("abc", 10), "abc");
    let trimmed = trim_for_table("123456", 4);
    assert!(trimmed.ends_with('…'));
}

#[test]
fn resume_text_renders_every_section() {
    let mut store = store();
    store.save_conversation(&ConversationRecord {
        id: "c1".to_string(),
        title: "work".to_string(),
        created_at: 1,
        updated_at: 1,
        root_message_id: None,
    });
    let snapshot = SnapshotRecord {
        id: "s9".to_string(),
        conversation_id: "c1".to_string(),
        summary: "ready".to_string(),
        todo: vec![],
        risks: vec!["flaky tests".to_string()],
        repo_ctx: None,
        created_at: 42,
    };
    store.save_snapshot(&snapshot);
    let text = render_resume_text(&store, &snapshot).expect("resume text");
    let expected = "Snapshot: s9\nConversation: c1 (work)\nCreated At: 42\n\nSummary:\nready\n\nTODO:\n- (none)\n\nRisks:\n- flaky tests\n\nRepo Context:\n- (missing)";
    assert_eq!(text, expected);

    let missing = SnapshotRecord {
        id: "s10".to_string(),
        conversation_id: "absent".to_string(),
        summary: "x".to_string(),
        todo: vec![],
        risks: vec![],
        repo_ctx: None,
        created_at: 1,
    };
    assert_eq!(
        render_resume_text(&store, &missing).unwrap_err(),
        NotesError::ConversationNotFound
    );
}

#[test]
fn identifiers_carry_prefix_time_and_counter() {
    assert_eq!(new_id("c", 1234, 7), "c_1234_7");
    assert_eq!(new_id("m", 0, 0), "m_0_0");
}

#[test]
fn conversation_create_refuses_an_empty_title() {
    let mut store = store();
    assert_eq!(
        conversation_create(&mut store, "   ").unwrap_err(),
        NotesError::EmptyTitle
    );
    let created = conversation_create(&mut store, "  main  ").expect("conversation");
    assert_eq!(created.title, "main");
}

#[test]
fn message_add_validates_role_content_and_parent() {
    let mut store = store();
    let conversation = conversation_create(&mut store, "main").expect("conversation");
    assert_eq!(
        message_add(&mut store, "missing", "user", "hi", None).unwrap_err(),
        NotesError::ConversationNotFound
    );
    assert_eq!(
        message_add(&mut store, &conversation.id, "pirate", "hi", None).unwrap_err(),
        NotesError::InvalidRole
    );
    assert_eq!(
        message_add(&mut store, &conversation.id, "user", "  ", None).unwrap_err(),
        NotesError::EmptyContent
    );
    assert_eq!(
        message_add(&mut store, &conversation.id, "user", "hi", Some("nope".to_string()))
            .unwrap_err(),
        NotesError::MessageNotFound
    );
    let message = message_add(&mut store, &conversation.id, " User ", " hi ", None)
        .expect("message");
    assert_eq!(message.role, "user");
    assert_eq!(message.content, "hi");
    let reply = message_add(
        &mut store,
        &conversation.id,
        "assistant",
        "hello",
        Some(message.id.clone()),
    )
    .expect("reply");
    assert_eq!(reply.parent_id, Some(message.id));
}

#[test]
fn note_lifecycle_add_update_archive() {
    let mut store = store();
    let conversation = conversation_create(&mut store, "main").expect("conversation");
    assert_eq!(
        note_add(
            &mut store,
            " ",
            "body",
            Some(conversation.id.clone()),
            None,
            &vec![],
            "open".to_string(),
            "p2".to_string(),
            None,
        )
        .unwrap_err(),
        NotesError::EmptyTitle
    );
    assert_eq!(
        note_add(
            &mut store,
            "t",
            " ",
            Some(conversation.id.clone()),
            None,
            &vec![],
            "open".to_string(),
            "p2".to_string(),
            None,
        )
        .unwrap_err(),
        NotesError::EmptyBody
    );
    assert_eq!(
        note_add(
            &mut store,
            "t",
            "b",
            Some(conversation.id.clone()),
            None,
            &vec![],
            "wild".to_string(),
            "p2".to_string(),
            None,
        )
        .unwrap_err(),
        NotesError::InvalidStatus
    );
    assert_eq!(
        note_add(
            &mut store,
            "t",
            "b",
            Some(conversation.id.clone()),
            None,
            &vec![],
            "open".to_string(),
            "p9".to_string(),
            None,
        )
        .unwrap_err(),
        NotesError::InvalidPriority
    );
    let note = note_add(
        &mut store,
        " Plan ",
        " body ",
        Some(conversation.id.clone()),
        None,
        &vec!["  Risk ".to_string(), " ".to_string()],
        " OPEN ".to_string(),
        "P1".to_string(),
        None,
    )
    .expect("note");
    assert_eq!(note.title, "Plan");
    assert_eq!(note.body, "body");
    assert_eq!(note.tags, vec!["risk".to_string()]);
    assert_eq!(note.status, "open");
    assert_eq!(note.priority, "p1");

    let updated = note_update(
        &mut store,
        &note.id,
        Some("New title".to_string()),
        None,
        &vec![],
        Some("blocked".to_string()),
        None,
        false,
    )
    .expect("update");
    assert_eq!(updated.title, "New title");
    assert_eq!(updated.status, "blocked");
    assert_eq!(updated.tags, vec!["risk".to_string()]);

    let archived = note_archive(&mut store, &note.id).expect("archive");
    assert_eq!(archived.status, "archived");
    assert_eq!(
        note_archive(&mut store, "missing").unwrap_err(),
        NotesError::NoteNotFound
    );
}

#[test]
fn annotation_notes_always_carry_the_marker_tag() {
    let mut store = store();
    let conversation = conversation_create(&mut store, "main").expect("conversation");
    let message = message_add(&mut store, &conversation.id, "user", "look here", None)
        .expect("message");
    assert_eq!(
        note_annotate(&mut store, &message.id, "  ", None, &vec![], None).unwrap_err(),
        NotesError::EmptyBody
    );
    let note = note_annotate(&mut store, &message.id, "check", None, &vec![], None)
        .expect("annotation");
    assert!(note.tags.contains(&"annotation".to_string()));
    assert_eq!(note.status, "open");
    assert_eq!(note.priority, "p2");
    assert_eq!(note.message_id, Some(message.id));
}

#[test]
fn note_listing_filters_by_status_tag_conversation_and_repo() {
    let mut store = store();
    let conversation = conversation_create(&mut store, "main").expect("conversation");
    let _ = note_add(
        &mut store,
        "a",
        "b",
        Some(conversation.id.clone()),
        None,
        &vec!["x".to_string()],
        "open".to_string(),
        "p2".to_string(),
        None,
    )
    .expect("note");
    let _ = note_add(
        &mut store,
        "c",
        "d",
        Some(conversation.id.clone()),
        None,
        &vec!["y".to_string()],
        "done".to_string(),
        "p2".to_string(),
        None,
    )
    .expect("note");
    let rows = store.list_notes();
    let open_only = note_list_filter(
        rows,
        &Some("open".to_string()),
        &None,
        &None,
        &None,
        &None,
    );
    assert_eq!(open_only.len(), 1);
    assert_eq!(open_only[0].title, "a");
    let tagged = note_list_filter(
        store.list_notes(),
        &None,
        &Some("y".to_string()),
        &None,
        &None,
        &None,
    );
    assert_eq!(tagged.len(), 1);
    assert_eq!(tagged[0].title, "c");
    let wrong_conversation = note_list_filter(
        store.list_notes(),
        &None,
        &None,
        &Some("elsewhere".to_string()),
        &None,
        &None,
    );
    assert!(wrong_conversation.is_empty());
    let current_without_capture = note_list_filter(
        store.list_notes(),
        &None,
        &None,
        &None,
        &Some("current".to_string()),
        &None,
    );
    assert!(current_without_capture.is_empty());
}

#[test]
fn snapshots_validate_their_summary() {
    let mut store = store();
    let conversation = conversation_create(&mut store, "main").expect("conversation");
    assert_eq!(
        snapshot_create(&mut store, &conversation.id, Some("  ".to_string()), &vec![], &vec![],
            false, None)
        .unwrap_err(),
        NotesError::EmptySummary
    );
    assert_eq!(
        snapshot_create(&mut store, &conversation.id, None, &vec![], &vec![], false, None)
            .unwrap_err(),
        NotesError::EmptySummary
    );
    let derived = snapshot_create(&mut store, &conversation.id, None, &vec![], &vec![], true,
        None)
        .expect("snapshot");
    assert_eq!(
        derived.summary,
        "No recent messages or notes. Snapshot created as a baseline."
    );
    let explicit = snapshot_create(
        &mut store,
        &conversation.id,
        Some(" ship it ".to_string()),
        &vec![" staging ".to_string(), "".to_string()],
        &vec![],
        false,
        None,
    )
    .expect("snapshot");
    assert_eq!(explicit.summary, "ship it");
    assert_eq!(explicit.todo, vec!["staging".to_string()]);
    assert_eq!(
        snapshot_create(&mut store, "missing", Some("s".to_string()), &vec![], &vec![], false,
            None)
        .unwrap_err(),
        NotesError::ConversationNotFound
    );
}

#[test]
fn forked_branches_record_their_source_and_show_in_the_tree() {
    let mut store = store();
    let conversation = conversation_create(&mut store, "main").expect("conversation");
    let message = message_add(&mut store, &conversation.id, "user", "fork me", None)
        .expect("message");
    let (branch, new_conversation) = branch_fork(&mut store, &message.id, None, None)
        .expect("fork");
    assert_eq!(branch.source_conversation_id, conversation.id);
    assert_eq!(branch.source_message_id, message.id);
    assert_eq!(branch.new_conversation_id, new_conversation.id);
    assert!(new_conversation.title.starts_with("branch-"));
    assert!(new_conversation.root_message_id.is_some());

    let mut seen: Vec<String> = Vec::new();
    let mut out: Vec<String> = Vec::new();
    let budget = store.branches.len() + 1;
    render_branch_tree(
        &conversation.id,
        0,
        &mut seen,
        &store.conversations,
        &store.branches,
        &mut out,
        budget,
    );
    assert_eq!(out.len(), 2);
    assert!(out[0].contains(&conversation.id));
    assert!(out[0].contains("(main)"));
    assert!(out[1].starts_with("  - "));
    assert!(out[1].contains(&new_conversation.id));
}

#[test]
fn search_finds_matches_case_insensitively_and_sorts_them() {
    let mut store = store();
    let conversation = conversation_create(&mut store, "main").expect("conversation");
    let _ = message_add(&mut store, &conversation.id, "user", "Need ROLLBACK strategy", None)
        .expect("message");
    let _ = note_add(
        &mut store,
        "rollback plan",
        "use feature flag",
        Some(conversation.id.clone()),
        None,
        &vec![],
        "open".to_string(),
        "p2".to_string(),
        None,
    )
    .expect("note");
    assert_eq!(
        search_records(&store, "  ", None, &None, &None, &None, &None).unwrap_err(),
        NotesError::EmptyQuery
    );
    let rows = search_records(&store, "rollback", None, &None, &None, &None, &None)
        .expect("rows");
    assert_eq!(rows.len(), 2);
    for pair in rows.windows(2) {
        assert!(pair[0].updated_at >= pair[1].updated_at);
    }
    let none = search_records(&store, "zebra", None, &None, &None, &None, &None)
        .expect("rows");
    assert!(none.is_empty());
}

#[test]
fn export_covers_conversations_notes_and_snapshots() {
    let mut store = store();
    let conversation = conversation_create(&mut store, "main").expect("conversation");
    let message = message_add(&mut store, &conversation.id, "user", "fork me", None)
        .expect("message");
    let (_, forked) = branch_fork(&mut store, &message.id, None, None).expect("fork");
    let _ = message_add(&mut store, &forked.id, "user", "in the fork", None).expect("message");

    assert_eq!(
        export_conversation_markdown(&store, &conversation.id, "html", true, 5).unwrap_err(),
        NotesError::UnsupportedFormat
    );
    assert_eq!(
        export_conversation_markdown(&store, "missing", "md", true, 5).unwrap_err(),
        NotesError::ConversationNotFound
    );
    let with_branches =
        export_conversation_markdown(&store, &conversation.id, "md", true, 5).expect("export");
    assert!(with_branches.starts_with("# Conversation Export: "));
    assert!(with_branches.contains("in the fork"));
    let without_branches =
        export_conversation_markdown(&store, &conversation.id, "md", false, 5).expect("export");
    assert!(!without_branches.contains("in the fork"));
}

#[test]
fn adding_a_message_updates_its_conversation() {
    let mut store = store();
    let conversation = conversation_create(&mut store, "main").expect("conversation");
    let message = message_add(&mut store, &conversation.id, "user", "first", None)
        .expect("message");
    let updated = store.load_conversation(&conversation.id).expect("load");
    assert_eq!(updated.root_message_id, Some(message.id.clone()));
    assert_eq!(updated.updated_at, message.created_at);
    let second = message_add(&mut store, &conversation.id, "user", "second", None)
        .expect("message");
    let again = store.load_conversation(&conversation.id).expect("load");
    // the root stays with the first message
    assert_eq!(again.root_message_id, Some(message.id));
    assert_eq!(again.updated_at, second.created_at);
}

#[test]
fn branch_tree_marks_cycles_and_indents_children() {
    let mut store = store();
    store.save_conversation(&ConversationRecord {
        id: "a".to_string(),
        title: "alpha".to_string(),
        created_at: 1,
        updated_at: 1,
        root_message_id: None,
    });
    store.save_conversation(&ConversationRecord {
        id: "b".to_string(),
        title: "beta".to_string(),
        created_at: 1,
        updated_at: 1,
        root_message_id: None,
    });
    for (id, src, dst) in [("b1", "a", "b"), ("b2", "b", "a")] {
        store.save_branch(&BranchRecord {
            id: id.to_string(),
            source_conversation_id: src.to_string(),
            source_message_id: "m".to_string(),
            new_conversation_id: dst.to_string(),
            created_at: 1,
        });
    }
    let mut seen: Vec<String> = Vec::new();
    let mut out: Vec<String> = Vec::new();
    render_branch_tree(
        "a",
        0,
        &mut seen,
        &store.conversations,
        &store.branches,
        &mut out,
        store.branches.len() + 1,
    );
    assert_eq!(
        out,
        vec![
            "- a (alpha)".to_string(),
            "  - b (beta)".to_string(),
            "    - a (alpha)".to_string(),
            "      - [cycle detected]".to_string(),
        ]
    );
    assert!(seen.is_empty());
}

#[test]
fn export_ids_cover_reachable_forks_in_order() {
    let mut store = store();
    let conversation = conversation_create(&mut store, "main").expect("conversation");
    let message = message_add(&mut store, &conversation.id, "user", "fork me", None)
        .expect("message");
    let (_, forked) = branch_fork(&mut store, &message.id, None, None).expect("fork");
    let ids = skillgate::ops::export_conversation_ids(&store, &conversation.id, true);
    assert_eq!(ids.len(), 2);
    assert!(ids.contains(&conversation.id));
    assert!(ids.contains(&forked.id));
    let mut sorted = ids.clone();
    sorted.sort();
    assert_eq!(ids, sorted);
    let root_only = skillgate::ops::export_conversation_ids(&store, &conversation.id, false);
    assert_eq!(root_only, vec![conversation.id.clone()]);
}

#[test]
fn default_main_conversation_is_created_once() {
    let mut store = store();
    let first = store.ensure_default_main_conversation();
    assert_eq!(first.title, "main");
    let second = store.ensure_default_main_conversation();
    assert_eq!(first.id, second.id);
    assert_eq!(store.conversations.len(), 1);
}

#[test]
fn record_paths_lie_under_the_store_root() {
    let store = store();
    assert_eq!(
        store.conversation_path("c1").to_string(),
        "/workspace/.codex-notes/conversations/c1.json"
    );
    assert_eq!(
        store.message_path("m1").to_string(),
        "/workspace/.codex-notes/messages/m1.json"
    );
    assert_eq!(store.note_path("n1").to_string(), "/workspace/.codex-notes/notes/n1.json");
    assert_eq!(
        store.branch_path("b1").to_string(),
        "/workspace/.codex-notes/branches/b1.json"
    );
    assert_eq!(
        store.snapshot_path("s1").to_string(),
        "/workspace/.codex-notes/snapshots/s1.json"
    );
    assert_eq!(store.index_path().to_string(), "/workspace/.codex-notes/index.json");
    assert_eq!(store.exports_dir().to_string(), "/workspace/.codex-notes/exports");
}

#[test]
fn lists_come_back_sorted_by_their_timestamps() {
    let mut store = store();
    for (id, at) in [("c1", 5), ("c2", 9), ("c3", 7)] {
        store.save_conversation(&ConversationRecord {
            id: id.to_string(),
            title: id.to_string(),
            created_at: at,
            updated_at: at,
            root_message_id: None,
        });
    }
    let rows = store.list_conversations();
    let ids: Vec<&str> = rows.iter().map(|r| r.id.as_str()).collect();
    assert_eq!(ids, vec!["c2", "c3", "c1"]);

    for (id, at) in [("b1", 9i64), ("b2", 3)] {
        store.save_branch(&BranchRecord {
            id: id.to_string(),
            source_conversation_id: "c1".to_string(),
            source_message_id: "m".to_string(),
            new_conversation_id: "cx".to_string(),
            created_at: at,
        });
    }
    let branches = store.list_branches();
    assert_eq!(branches[0].id, "b2");
    assert_eq!(branches[1].id, "b1");
}

#[test]
fn saving_a_record_twice_replaces_it() {
    let mut store = store();
    let mut conversation = ConversationRecord {
        id: "c1".to_string(),
        title: "one".to_string(),
        created_at: 1,
        updated_at: 1,
        root_message_id: None,
    };
    store.save_conversation(&conversation);
    conversation.title = "two".to_string();
    store.save_conversation(&conversation);
    assert_eq!(store.conversations.len(), 1);
    assert_eq!(store.load_conversation("c1").expect("load").title, "two");
    assert_eq!(
        store.load_conversation("zz").unwrap_err(),
        NotesError::ConversationNotFound
    );
    assert_eq!(store.load_note("zz").unwrap_err(), NotesError::NoteNotFound);
    assert_eq!(store.load_snapshot("zz").unwrap_err(), NotesError::SnapshotNotFound);
}

#[test]
fn cleaning_trims_and_folds_tags() {
    assert_eq!(
        clean_tags(&vec![" Risk ".to_string(), "".to_string(), "OK".to_string()]),
        vec!["risk".to_string(), "ok".to_string()]
    );
    assert_eq!(
        clean_items(&vec![" keep Case ".to_string(), "  ".to_string()]),
        vec!["keep Case".to_string()]
    );
}

#[test]
fn workspace_resolution_rejects_missing_directories() {
    assert_eq!(
        resolve_workspace(&"/no/such/workspace/zqx".to_string()).unwrap_err(),
        NotesError::WorkspaceNotFound
    );
    let here = resolve_workspace(&"/".to_string()).expect("root resolves");
    assert_eq!(here, AbsPath::root());
}

#[test]
fn index_summary_counts_every_kind() {
    let mut store = store();
    let conversation = conversation_create(&mut store, "main").expect("conversation");
    let _ = message_add(&mut store, &conversation.id, "user", "hello", None).expect("message");
    let summary = store.rebuild_index();
    assert_eq!(summary.version, 1);
    assert!(summary.generated_at >= 0);
    assert_eq!(summary.conversations, 1);
    assert_eq!(summary.messages, 1);
    assert_eq!(summary.notes, 0);
}
