use lazyssh::app_state::{Action, FormField, Mode};
use lazyssh::host::SshHost;
use lazyssh::repository::{
    MemorySshRepository, MemoryThemeRepository, SshRepository, ThemeRepository,
};
use lazyssh::service::AppService;

fn host(alias: &str, hostname: &str) -> SshHost {
    SshHost {
        alias: alias.to_string(),
        hostname: hostname.to_string(),
        port: 22,
        user: String::new(),
        identity_file: String::new(),
        extra_options: Vec::new(),
    }
}

fn fresh_app() -> (AppService, MemorySshRepository, MemoryThemeRepository) {
    let ssh_repo = MemorySshRepository::new();
    let theme_repo = MemoryThemeRepository::new();
    let app = AppService::initialize(&ssh_repo, &theme_repo);
    (app, ssh_repo, theme_repo)
}

fn app_with(content: &str) -> (AppService, MemorySshRepository, MemoryThemeRepository) {
    let ssh_repo = MemorySshRepository::with_content(content.to_string());
    let theme_repo = MemoryThemeRepository::new();
    let app = AppService::initialize(&ssh_repo, &theme_repo);
    (app, ssh_repo, theme_repo)
}

#[test]
fn initialize_from_empty_store() {
    let (app, _, _) = fresh_app();
    assert_eq!(app.host_count(), 0);
    assert_eq!(app.mode, Mode::Normal);
    assert_eq!(app.cursor, 0);
    assert!(app.notification.is_none());
    assert!(matches!(app.pending_action, Action::Continue));
}

#[test]
fn initialize_parses_store_content() {
    let (app, _, _) = app_with("Host a\n    HostName x\n\nHost b\n");
    assert_eq!(app.host_count(), 2);
    assert_eq!(app.visible_indices, vec![0, 1]);
}

#[test]
fn add_then_persist_writes_expected_file() {
    let (mut app, mut repo, _) = fresh_app();
    app.begin_add();
    assert_eq!(app.mode, Mode::AddHost);
    app.form_draft = host("box", "10.0.0.1");
    app.commit_add(&mut repo);
    assert_eq!(app.mode, Mode::Normal);
    assert_eq!(app.host_count(), 1);
    assert_eq!(app.hosts[0].alias, "box");
    assert_eq!(app.hosts[0].hostname, "10.0.0.1");
    assert_eq!(app.hosts[0].port, 22);
    let file = repo.file.as_deref().expect("file should exist after save");
    assert_eq!(file, "Host box\n    HostName 10.0.0.1\n\n");
    let note = app.notification.as_ref().expect("notification set");
    assert_eq!(note.1, false);
}

#[test]
fn duplicate_alias_rejected_case_insensitively() {
    let (mut app, mut repo, _) = app_with("Host box\n    HostName x\n");
    assert_eq!(app.host_count(), 1);
    app.begin_add();
    app.form_draft = host("BOX", "other");
    app.commit_add(&mut repo);
    assert_eq!(app.host_count(), 1);
    assert_eq!(app.mode, Mode::AddHost);
    let note = app.notification.as_ref().expect("notification set");
    assert!(note.1, "duplicate alias must be an error");
    assert!(note.0.contains("already exists"));
}

#[test]
fn invalid_draft_rejected() {
    let (mut app, mut repo, _) = fresh_app();
    app.begin_add();
    app.form_draft = host("nohostname", "");
    app.commit_add(&mut repo);
    assert_eq!(app.host_count(), 0);
    assert_eq!(app.mode, Mode::AddHost);
    assert!(app.notification.as_ref().unwrap().1);
}

#[test]
fn add_rolls_back_on_write_failure() {
    let (mut app, mut repo, _) = fresh_app();
    repo.set_fail_saves(true);
    app.begin_add();
    app.form_draft = host("box", "10.0.0.1");
    app.commit_add(&mut repo);
    assert_eq!(app.host_count(), 0);
    assert_eq!(app.mode, Mode::Normal);
    assert!(app.notification.as_ref().unwrap().1);
    assert!(repo.file.is_none());
}

#[test]
fn edit_replaces_entry_and_persists() {
    let (mut app, mut repo, _) = app_with("Host a\n    HostName x\n");
    app.begin_edit();
    assert_eq!(app.mode, Mode::EditHost(0));
    assert_eq!(app.form_draft.alias, "a");
    app.form_draft.hostname = "new.example".to_string();
    app.commit_edit(0, &mut repo);
    assert_eq!(app.hosts[0].hostname, "new.example");
    let file = repo.file.as_deref().unwrap();
    assert_eq!(file, "Host a\n    HostName new.example\n\n");
}

#[test]
fn edit_rolls_back_on_write_failure() {
    let (mut app, mut repo, _) = app_with("Host a\n    HostName x\n");
    repo.set_fail_saves(true);
    app.begin_edit();
    app.form_draft.hostname = "new.example".to_string();
    app.commit_edit(0, &mut repo);
    assert_eq!(app.hosts[0].hostname, "x");
    assert!(app.notification.as_ref().unwrap().1);
}

#[test]
fn edit_keeping_own_alias_is_allowed() {
    let (mut app, mut repo, _) = app_with("Host a\n    HostName x\n");
    app.begin_edit();
    app.form_draft.port = 2022;
    app.commit_edit(0, &mut repo);
    assert_eq!(app.hosts[0].port, 2022);
    assert!(!app.notification.as_ref().unwrap().1);
}

#[test]
fn edit_to_another_entrys_alias_rejected() {
    let (mut app, mut repo, _) = app_with("Host a\n    HostName x\n\nHost b\n    HostName y\n");
    app.begin_edit();
    app.form_draft.alias = "B".to_string();
    app.commit_edit(0, &mut repo);
    assert_eq!(app.hosts[0].alias, "a");
    assert!(app.notification.as_ref().unwrap().1);
    assert_eq!(app.mode, Mode::EditHost(0));
}

#[test]
fn delete_removes_entry_and_persists() {
    let (mut app, mut repo, _) = app_with("Host a\n    HostName x\n\nHost b\n    HostName y\n");
    app.commit_delete(0, &mut repo);
    assert_eq!(app.host_count(), 1);
    assert_eq!(app.hosts[0].alias, "b");
    let file = repo.file.as_deref().unwrap();
    assert_eq!(file, "Host b\n    HostName y\n\n");
}

#[test]
fn delete_rollback_restores_position() {
    let (mut app, mut repo, _) = app_with("Host a\n    HostName x\n\nHost b\n    HostName y\n");
    repo.set_fail_saves(true);
    app.commit_delete(0, &mut repo);
    assert_eq!(app.host_count(), 2);
    assert_eq!(app.hosts[0].alias, "a");
    assert_eq!(app.hosts[1].alias, "b");
    let note = app.notification.as_ref().expect("notification set");
    assert!(note.1, "failed delete must report an error");
}

#[test]
fn backup_taken_before_overwrite() {
    let original = "Host a\n    HostName x\n";
    let (mut app, mut repo, _) = app_with(original);
    app.begin_add();
    app.form_draft = host("b", "y");
    app.commit_add(&mut repo);
    let backup = repo.last_backup().expect("backup should exist");
    assert_eq!(backup, original);
    let file = repo.file.as_deref().unwrap();
    assert_eq!(file, "Host a\n    HostName x\n\nHost b\n    HostName y\n\n");
}

#[test]
fn no_backup_when_no_file_existed() {
    let (mut app, mut repo, _) = fresh_app();
    app.begin_add();
    app.form_draft = host("a", "x");
    app.commit_add(&mut repo);
    assert!(repo.last_backup().is_none());
}

#[test]
fn search_filters_by_alias_hostname_and_user() {
    let text = "Host web\n    HostName example.com\n\nHost db\n    HostName db.internal\n    User webadmin\n\nHost cache\n    HostName redis.local\n";
    let (mut app, _, _) = app_with(text);
    app.enter_search();
    assert_eq!(app.mode, Mode::Search);
    app.search_type('w');
    app.search_type('e');
    app.search_type('b');
    // "web" matches alias of 0 and user of 1
    assert_eq!(app.visible_indices, vec![0, 1]);
    app.finish_search();
    assert_eq!(app.mode, Mode::Normal);
    assert_eq!(app.visible_indices, vec![0, 1]);
}

#[test]
fn search_is_case_insensitive() {
    let (mut app, _, _) = app_with("Host Alpha\n    HostName x\n\nHost beta\n    HostName y\n");
    app.enter_search();
    app.search_type('A');
    assert_eq!(app.visible_indices, vec![0, 1]);
    app.search_type('L');
    assert_eq!(app.visible_indices, vec![0]);
}

#[test]
fn search_backspace_and_cancel() {
    let (mut app, _, _) = app_with("Host aa\n\nHost bb\n");
    app.enter_search();
    app.search_type('a');
    assert_eq!(app.visible_indices, vec![0]);
    app.search_backspace();
    assert_eq!(app.visible_indices, vec![0, 1]);
    app.search_type('b');
    app.cancel_search();
    assert_eq!(app.mode, Mode::Normal);
    assert_eq!(app.search_query, "");
    assert_eq!(app.visible_indices, vec![0, 1]);
}

#[test]
fn every_visible_index_matches_query() {
    let text = "Host web\n    HostName a\n\nHost mail\n    HostName b\n\nHost web2\n    HostName c\n";
    let (mut app, _, _) = app_with(text);
    app.enter_search();
    app.search_type('e');
    for &i in &app.visible_indices {
        let h = app.host_at(i).unwrap();
        let q = app.search_query.to_lowercase();
        assert!(
            h.alias.to_lowercase().contains(&q)
                || h.hostname.to_lowercase().contains(&q)
                || h.user.to_lowercase().contains(&q)
        );
    }
    // and nothing matching is missing
    for i in 0..app.host_count() {
        let h = app.host_at(i).unwrap();
        let q = app.search_query.to_lowercase();
        let matches = h.alias.to_lowercase().contains(&q)
            || h.hostname.to_lowercase().contains(&q)
            || h.user.to_lowercase().contains(&q);
        if matches {
            assert!(app.visible_indices.contains(&i));
        }
    }
}

#[test]
fn cursor_moves_are_clamped() {
    let (mut app, _, _) = app_with("Host a\n\nHost b\n\nHost c\n");
    assert_eq!(app.cursor, 0);
    app.move_cursor_up();
    assert_eq!(app.cursor, 0);
    app.move_cursor_down();
    assert_eq!(app.cursor, 1);
    app.jump_to_bottom();
    assert_eq!(app.cursor, 2);
    app.move_cursor_down();
    assert_eq!(app.cursor, 2);
    app.jump_to_top();
    assert_eq!(app.cursor, 0);
}

#[test]
fn selection_follows_filter() {
    let (mut app, _, _) = app_with("Host alpha\n\nHost beta\n");
    app.enter_search();
    app.search_type('b');
    assert_eq!(app.visible_indices, vec![1]);
    let selected = app.selected_host().unwrap();
    assert_eq!(selected.alias, "beta");
}

#[test]
fn form_typing_respects_field_classes() {
    let (mut app, _, _) = fresh_app();
    app.begin_add();
    app.form_type_char('a');
    app.form_type_char('b');
    assert_eq!(app.form_draft.alias, "ab");
    app.form_next_field();
    assert_eq!(app.form_field, FormField::HostName);
    app.form_type_char('x');
    assert_eq!(app.form_draft.hostname, "x");
    app.form_next_field();
    assert_eq!(app.form_field, FormField::Port);
    app.form_type_char('8');
    // port was 22; typing appends a digit to its text
    assert_eq!(app.form_draft.port, 228);
    app.form_type_char('x');
    assert_eq!(app.form_draft.port, 228);
    app.form_delete_char();
    assert_eq!(app.form_draft.port, 22);
}

#[test]
fn port_overflow_while_typing_falls_back() {
    let (mut app, _, _) = fresh_app();
    app.begin_add();
    app.form_field = FormField::Port;
    app.form_delete_char();
    app.form_delete_char();
    // deleting both digits empties the text, and an empty port re-parses
    // back to the default
    assert_eq!(app.form_draft.port, 22);
    app.form_draft.port = 6553;
    app.form_type_char('6');
    // 65536 does not fit in a port; the fallback is 22
    assert_eq!(app.form_draft.port, 22);
}

#[test]
fn form_field_cycle() {
    let (mut app, _, _) = fresh_app();
    app.begin_add();
    assert_eq!(app.form_field, FormField::Alias);
    for _ in 0..5 {
        app.form_next_field();
    }
    assert_eq!(app.form_field, FormField::Alias);
    app.form_previous_field();
    assert_eq!(app.form_field, FormField::IdentityFile);
}

#[test]
fn cancel_mode_discards_nothing_but_mode() {
    let (mut app, _, _) = app_with("Host a\n");
    app.begin_add();
    app.cancel_mode();
    assert_eq!(app.mode, Mode::Normal);
    assert_eq!(app.host_count(), 1);
}

#[test]
fn begin_edit_with_no_hosts_does_nothing() {
    let (mut app, _, _) = fresh_app();
    app.begin_edit();
    assert_eq!(app.mode, Mode::Normal);
    app.begin_delete();
    assert_eq!(app.mode, Mode::Normal);
}

#[test]
fn launch_ssh_uses_selected_alias() {
    let (mut app, _, _) = app_with("Host a\n\nHost b\n");
    app.move_cursor_down();
    app.launch_ssh();
    match app.take_action() {
        Action::LaunchSsh(args) => assert_eq!(args, vec!["b".to_string()]),
        other => panic!("expected a launch action, got {:?}", other),
    }
    assert!(matches!(app.pending_action, Action::Continue));
}

#[test]
fn take_action_resets_to_continue() {
    let (mut app, _, _) = fresh_app();
    app.request_quit();
    assert!(matches!(app.take_action(), Action::Quit));
    assert!(matches!(app.take_action(), Action::Continue));
}

#[test]
fn reload_absorbs_external_changes() {
    let (mut app, mut repo, _) = app_with("Host a\n");
    assert_eq!(app.host_count(), 1);
    repo.file = Some("Host a\n\nHost b\n".to_string());
    app.reload_from_disk(&repo);
    assert_eq!(app.host_count(), 2);
    let note = app.notification.as_ref().unwrap();
    assert!(note.0.contains("2"));
    assert!(!note.1);
}

#[test]
fn notification_cleared_between_events() {
    let (mut app, _, _) = fresh_app();
    app.request_quit();
    app.clear_notification();
    assert!(app.notification.is_none());
}

#[test]
fn successive_adds_keep_aliases_unique() {
    let (mut app, mut repo, _) = fresh_app();
    for (a, h) in [("a", "1"), ("b", "2"), ("A", "3")] {
        app.begin_add();
        app.form_draft = host(a, h);
        app.commit_add(&mut repo);
    }
    // the third add collides with the first, case-insensitively
    assert_eq!(app.host_count(), 2);
    let lowered: Vec<String> = app.hosts.iter().map(|h| h.alias.to_lowercase()).collect();
    let mut dedup = lowered.clone();
    dedup.sort();
    dedup.dedup();
    assert_eq!(lowered.len(), dedup.len());
}
