use std::path::{Path, PathBuf};
use coomi_agent::memory::{
    is_memory_file_name, is_stale, memory_file_name, memory_files, project_key, render_memory_text, search_terms,
    split_memory_text, validate_name, Memory, MemoryFileError, MemoryManager, MemoryScope,
    MemoryType, Timestamp,
};

fn at(secs: i64) -> Timestamp {
    Timestamp { secs, nanos: 0 }
}

fn memory(name: &str, description: &str, content: &str, memory_type: MemoryType) -> Memory {
    Memory {
        name: name.into(),
        description: description.into(),
        memory_type,
        created: at(0),
        updated: at(0),
        content: content.into(),
        stale: false,
        scope: None,
    }
}

#[test]
fn local_memory_overrides_project_and_global() {
    let mut merged = Vec::new();
    MemoryManager::merge_scope(
        &mut merged,
        MemoryScope::Local,
        vec![memory("preference", "local", "light", MemoryType::User)],
        at(0),
    );
    MemoryManager::merge_scope(&mut merged, MemoryScope::Project, vec![], at(0));
    MemoryManager::merge_scope(
        &mut merged,
        MemoryScope::Global,
        vec![memory("preference", "global", "dark", MemoryType::User)],
        at(0),
    );
    assert_eq!(merged.len(), 1);
    assert_eq!(merged[0].content, "light");
    assert_eq!(merged[0].scope, Some(MemoryScope::Local));
}

#[test]
fn staleness_after_seven_days_for_project_and_reference() {
    let week = 7 * 86_400;
    assert!(!is_stale(MemoryType::Project, at(0), at(week)));
    assert!(is_stale(MemoryType::Project, at(0), Timestamp { secs: week, nanos: 1 }));
    assert!(is_stale(MemoryType::Reference, at(0), at(week + 1)));
    assert!(!is_stale(MemoryType::User, at(0), at(10 * week)));
    assert!(!is_stale(MemoryType::Feedback, at(0), at(10 * week)));
}

#[test]
fn merge_marks_scope_and_staleness() {
    let mut merged = Vec::new();
    let found = vec![
        memory("a", "", "", MemoryType::Project),
        memory("a", "dup", "", MemoryType::User),
        memory("b", "", "", MemoryType::User),
    ];
    MemoryManager::merge_scope(&mut merged, MemoryScope::Project, found, at(8 * 86_400));
    assert_eq!(merged.len(), 2);
    assert!(merged[0].stale);
    assert_eq!(merged[0].description, "");
    assert!(!merged[1].stale);
    assert_eq!(merged[1].scope, Some(MemoryScope::Project));
}

#[test]
fn memory_names_are_validated() {
    assert!(validate_name("preference").is_ok());
    assert!(validate_name("a-b_C9").is_ok());
    assert_eq!(
        validate_name("").unwrap_err(),
        "memory name must use 1-80 ASCII letters, numbers, hyphens, or underscores"
    );
    assert!(validate_name("has space").is_err());
    assert!(validate_name("ünicode").is_err());
    assert!(validate_name(&"x".repeat(80)).is_ok());
    assert!(validate_name(&"x".repeat(81)).is_err());
    assert_eq!(memory_file_name("pref"), "pref.md");
}

#[test]
fn memory_files_are_markdown_but_not_the_index() {
    assert!(is_memory_file_name("pref.md"));
    assert!(!is_memory_file_name("MEMORY.md"));
    assert!(!is_memory_file_name(".md"));
    assert!(!is_memory_file_name("notes.txt"));
    assert!(is_memory_file_name("a.b.md"));
}

#[test]
fn project_key_is_md5_prefix() {
    // md5("") = d41d8cd98f00b204e9800998ecf8427e
    assert_eq!(project_key(""), "d41d8cd98f00");
    assert_eq!(project_key("/tmp/project").len(), 12);
}

#[test]
fn memory_text_round_trip() {
    let text = render_memory_text("name: pref\n", "  light  ");
    assert_eq!(text, "---\nname: pref\n---\n\n  light  \n");
    let (front, content) = split_memory_text(&text).expect("split");
    assert_eq!(front, "name: pref");
    assert_eq!(content, "light");
}

#[test]
fn memory_text_errors() {
    assert_eq!(split_memory_text("no frontmatter"), Err(MemoryFileError::NoFrontmatter));
    assert_eq!(split_memory_text("---\nname: x\n"), Err(MemoryFileError::FrontmatterNotClosed));
    assert_eq!(MemoryFileError::NoFrontmatter.message(), "memory has no frontmatter");
}

#[test]
fn prompt_context_skips_stale_and_respects_the_limit() {
    let mut stale = memory("old", "d", "c", MemoryType::Project);
    stale.stale = true;
    let fresh = memory("pref", "desc", "light", MemoryType::User);
    let out = MemoryManager::prompt_context(&vec![stale, fresh]);
    assert_eq!(out, "### pref\n_desc_\n\nlight\n\n");
    let big = memory("big", "d", &"x".repeat(40_000), MemoryType::User);
    let small = memory("s", "d", "c", MemoryType::User);
    assert_eq!(MemoryManager::prompt_context(&vec![big, small]), "");
}

#[test]
fn index_text_lists_memories() {
    let mut a = memory("a", "first", "", MemoryType::Project);
    a.stale = true;
    let b = memory("b", "second", "", MemoryType::User);
    assert_eq!(
        MemoryManager::index_text(&vec![a, b]),
        "# Memory Index\n> Auto-generated. Local entries override project and global entries.\n\n- [a](./a.md) - first [stale]\n- [b](./b.md) - second"
    );
}

#[test]
fn search_ranks_by_score() {
    assert_eq!(search_terms("Dark-mode, x  UI_theme"), vec!["dark-mode", "ui_theme"]);
    let memories = vec![
        memory("notes", "nothing", "about dark mode", MemoryType::User),
        memory("dark", "theme", "", MemoryType::User),
        memory("other", "dark theme", "", MemoryType::User),
        memory("unrelated", "", "", MemoryType::User),
    ];
    let found = MemoryManager::search(memories, "dark", 10);
    let names: Vec<&str> = found.iter().map(|m| m.name.as_str()).collect();
    assert_eq!(names, vec!["dark", "other", "notes"]);
}

#[test]
fn search_keeps_at_least_one_result() {
    let memories = vec![
        memory("dark", "", "", MemoryType::User),
        memory("dark2", "", "", MemoryType::User),
    ];
    let found = MemoryManager::search(memories, "dark", 0);
    assert_eq!(found.len(), 1);
    assert_eq!(found[0].name, "dark");
}

#[test]
fn get_returns_the_first_match() {
    let memories = vec![memory("a", "1", "", MemoryType::User), memory("a", "2", "", MemoryType::User)];
    assert_eq!(MemoryManager::get(memories, "a").unwrap().description, "1");
}

#[test]
fn saved_record_keeps_creation_time() {
    let m = MemoryManager::memory_record(MemoryScope::Global, "n", "d", MemoryType::Feedback, "c", Some(at(5)), at(9));
    assert_eq!(m.created, at(5));
    assert_eq!(m.updated, at(9));
    assert_eq!(m.scope, Some(MemoryScope::Global));
    let fresh = MemoryManager::memory_record(MemoryScope::Local, "n", "d", MemoryType::User, "c", None, at(9));
    assert_eq!(fresh.created, at(9));
}

#[test]
fn memory_files_are_filtered_and_sorted() {
    let names = vec![
        "zeta.md".to_string(),
        "MEMORY.md".to_string(),
        "alpha.md".to_string(),
        "notes.txt".to_string(),
        "Beta.md".to_string(),
        "alpha-2.md".to_string(),
    ];
    assert_eq!(
        memory_files(names),
        vec!["Beta.md", "alpha-2.md", "alpha.md", "zeta.md"]
    );
    assert!(memory_files(Vec::new()).is_empty());
}

#[test]
fn written_memory_reads_back() {
    let text = render_memory_text("name: pref\ndescription: d\n", "\n  body text\n\n");
    let (front, content) = split_memory_text(&text).unwrap();
    assert_eq!(front, "name: pref\ndescription: d");
    assert_eq!(content, "body text");
}

#[test]
fn directories_follow_home_and_project() {
    let manager = MemoryManager::new(Path::new("/home/u"), Path::new("/work/app"));
    let key = project_key("/work/app");
    assert_eq!(
        manager.directory(MemoryScope::Local),
        &PathBuf::from("/work/app/.coomi/memory")
    );
    assert_eq!(
        manager.directory(MemoryScope::Project),
        &PathBuf::from(format!("/home/u/projects/{key}/memory"))
    );
    assert_eq!(manager.directory(MemoryScope::Global), &PathBuf::from("/home/u/memory"));
    let order: Vec<MemoryScope> = manager.directories().iter().map(|(scope, _)| *scope).collect();
    assert_eq!(order, vec![MemoryScope::Local, MemoryScope::Project, MemoryScope::Global]);
}

#[test]
fn equally_good_matches_keep_listing_order() {
    let memories = vec![
        memory("b", "tea", "", MemoryType::User),
        memory("a", "", "tea", MemoryType::User),
        memory("c", "tea", "", MemoryType::User),
        memory("tea", "", "", MemoryType::User),
    ];
    let found = MemoryManager::search(memories, "tea", 3);
    let names: Vec<&str> = found.iter().map(|m| m.name.as_str()).collect();
    assert_eq!(names, vec!["tea", "b", "c"]);
}

#[test]
fn deletion_and_index_pick_the_right_scope() {
    assert_eq!(MemoryManager::deletion_scope(false, true, true), Some(MemoryScope::Project));
    assert_eq!(MemoryManager::deletion_scope(true, true, true), Some(MemoryScope::Local));
    assert_eq!(MemoryManager::deletion_scope(false, false, true), Some(MemoryScope::Global));
    assert_eq!(MemoryManager::deletion_scope(false, false, false), None);
    assert_eq!(MemoryManager::index_scope(true), MemoryScope::Local);
    assert_eq!(MemoryManager::index_scope(false), MemoryScope::Project);
}
