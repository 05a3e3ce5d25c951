use nm_remover::scanner::NodeModulesEntry;
use nm_remover::ui::centered_rect;
use nm_remover::ui::progress_bar_filled;
use nm_remover::ui::progress_percent;
use nm_remover::ui::truncate_path_display;
use nm_remover::ui::App;
use nm_remover::ui::AppMode;
use nm_remover::ui::Key;
use nm_remover::ui::Message;
use nm_remover::ui::Rect;

fn entry(path: &str, size: u64) -> NodeModulesEntry {
    NodeModulesEntry { path: path.to_owned(), size, last_modified: None }
}

fn app_with(sizes: &[u64]) -> App {
    let mut app = App::new();
    let entries: Vec<NodeModulesEntry> = sizes
        .iter()
        .enumerate()
        .map(|(i, s)| entry(&format!("/r/p{}/node_modules", i), *s))
        .collect();
    app.set_entries(entries);
    app
}

#[test]
fn totals_track_entries_and_selection() {
    let mut app = app_with(&[100, 200, 300]);
    assert_eq!(app.total_size, 600);
    assert_eq!(app.selected_size, 0);
    assert_eq!(app.cursor, Some(0));

    app.toggle_select();
    assert_eq!(app.selected_size, 100);
    app.next();
    app.toggle_select();
    assert_eq!(app.selected_size, 300);
    app.toggle_select();
    assert_eq!(app.selected_size, 100);

    app.select_all();
    assert_eq!(app.selected_size, 600);
    app.deselect_all();
    assert_eq!(app.selected_size, 0);
}

#[test]
fn deselect_all_twice_is_deselect_all_once() {
    let mut app = app_with(&[10, 20]);
    app.select_all();
    app.deselect_all();
    let selected_once = app.selected.clone();
    let size_once = app.selected_size;
    let cursor_once = app.cursor;
    app.deselect_all();
    assert_eq!(app.selected, selected_once);
    assert_eq!(app.selected_size, size_once);
    assert_eq!(app.cursor, cursor_once);
    assert_eq!(app.selected_size, 0);
    assert!(app.selected.iter().all(|b| !b));
}

#[test]
fn deletion_sequence_keeps_failed_entry_and_reports_counts() {
    // Deletions at original indices 1 and 3 succeed, the one at index 2
    // fails: the failed entry stays, the two others go.
    let mut app = app_with(&[10, 20, 30, 40]);
    app.begin_deletion(3);
    assert!(app.deleting);
    app.mark_deleting(1, 3, "/r/p1/node_modules".to_owned());
    assert_eq!(app.delete_progress, (1, 3));
    app.finish_deletion(&vec![1, 3], 1);

    assert!(!app.deleting);
    assert_eq!(app.entries.len(), 2);
    assert_eq!(app.entries[0].path, "/r/p0/node_modules");
    assert_eq!(app.entries[1].path, "/r/p2/node_modules");
    assert_eq!(app.total_size, 40);
    assert_eq!(app.selected_size, 0);
    assert!(app.selected.iter().all(|b| !b));
    assert_eq!(app.message, Some(Message::DeleteSummary { deleted: 2, errors: 1 }));
    assert_eq!(
        app.message.as_ref().unwrap().text(),
        "Deleted 2 folders, 1 errors"
    );
}

#[test]
fn deleting_everything_empties_the_list() {
    let mut app = app_with(&[600, 50]);
    app.select_all();
    let targets = app.get_selected_entries();
    assert_eq!(targets.len(), 2);
    assert_eq!(targets[0].0, 0);
    assert_eq!(targets[1].0, 1);
    let deleted: Vec<usize> = targets.iter().map(|t| t.0).collect();
    app.finish_deletion(&deleted, 0);
    assert_eq!(app.entries.len(), 0);
    assert_eq!(app.total_size, 0);
    assert_eq!(app.cursor, None);
    assert_eq!(
        app.message,
        Some(Message::DeleteSummary { deleted: 2, errors: 0 })
    );
    assert_eq!(
        app.message.as_ref().unwrap().text(),
        "Successfully deleted 2 folders"
    );
}

#[test]
fn cursor_clamps_after_removal() {
    let mut app = app_with(&[1, 2, 3]);
    app.next();
    app.next();
    assert_eq!(app.cursor, Some(2));
    app.remove_deleted(&vec![1, 2]);
    assert_eq!(app.entries.len(), 1);
    assert_eq!(app.cursor, Some(0));
}

#[test]
fn move_cursor_on_empty_list_is_safe_noop() {
    let mut app = App::new();
    app.next();
    assert_eq!(app.cursor, None);
    app.previous();
    assert_eq!(app.cursor, None);
    assert_eq!(app.selected_size, 0);
    assert!(app.selected.is_empty());
    app.toggle_select();
    assert_eq!(app.selected_size, 0);
}

#[test]
fn cursor_wraps_both_ways() {
    let mut app = app_with(&[1, 2, 3]);
    assert_eq!(app.cursor, Some(0));
    app.previous();
    assert_eq!(app.cursor, Some(2));
    app.next();
    assert_eq!(app.cursor, Some(0));
    app.next();
    assert_eq!(app.cursor, Some(1));
}

#[test]
fn help_overlay_swallows_next_key() {
    let mut app = app_with(&[1, 2]);
    let delete = app.handle_input(Key::Char('?'));
    assert!(!delete);
    assert!(app.show_help);
    // the next key only dismisses the overlay: 'a' does not select anything
    let delete = app.handle_input(Key::Char('a'));
    assert!(!delete);
    assert!(!app.show_help);
    assert_eq!(app.selected_size, 0);
}

#[test]
fn confirm_prompt_answers() {
    let mut app = app_with(&[1, 2]);
    // 'd' without a selection is a no-op
    app.handle_input(Key::Char('d'));
    assert!(!app.show_confirm);
    app.handle_input(Key::Char(' '));
    app.handle_input(Key::Char('d'));
    assert!(app.show_confirm);
    // an unbound key leaves the prompt up
    assert!(!app.handle_input(Key::Char('x')));
    assert!(app.show_confirm);
    // 'n' cancels
    assert!(!app.handle_input(Key::Char('n')));
    assert!(!app.show_confirm);
    // reopen and confirm with 'y'
    app.handle_input(Key::Char('d'));
    assert!(app.handle_input(Key::Char('y')));
    assert!(!app.show_confirm);
}

#[test]
fn quit_keys_set_the_flag() {
    let mut app = app_with(&[1]);
    app.handle_input(Key::Char('q'));
    assert!(app.should_quit);
    let mut app2 = app_with(&[1]);
    app2.handle_input(Key::Esc);
    assert!(app2.should_quit);
}

#[test]
fn welcome_editing_moves_the_cursor() {
    let mut app = App::new();
    assert_eq!(app.handle_welcome_input(Key::Char('a')), None);
    assert_eq!(app.handle_welcome_input(Key::Char('c')), None);
    assert_eq!(app.input_path, "ac");
    app.handle_welcome_input(Key::Left);
    app.handle_welcome_input(Key::Char('b'));
    assert_eq!(app.input_path, "abc");
    assert_eq!(app.cursor_position, 2);
    app.handle_welcome_input(Key::Backspace);
    assert_eq!(app.input_path, "ac");
    app.handle_welcome_input(Key::Home);
    app.handle_welcome_input(Key::Delete);
    assert_eq!(app.input_path, "c");
    app.handle_welcome_input(Key::End);
    assert_eq!(app.cursor_position, 1);
}

#[test]
fn welcome_enter_submits_nonempty_path() {
    let mut app = App::new();
    assert_eq!(app.handle_welcome_input(Key::Enter), None);
    app.handle_welcome_input(Key::Char('/'));
    app.handle_welcome_input(Key::Char('x'));
    assert_eq!(app.handle_welcome_input(Key::Enter), Some("/x".to_owned()));
    assert!(!app.should_quit);
}

#[test]
fn welcome_q_quits_only_on_empty_input() {
    let mut app = App::new();
    app.handle_welcome_input(Key::Char('x'));
    app.handle_welcome_input(Key::Char('q'));
    assert!(!app.should_quit);
    assert_eq!(app.input_path, "xq");
    let mut app2 = App::new();
    app2.handle_welcome_input(Key::Char('q'));
    assert!(app2.should_quit);
}

#[test]
fn scan_outcomes_drive_the_welcome_screen() {
    let mut app = App::new();
    app.start_scan("/r".to_owned());
    assert!(app.scanning);
    // keys are ignored while scanning
    assert_eq!(app.handle_welcome_input(Key::Char('z')), None);
    assert_eq!(app.input_path, "");

    app.on_scan_complete(Ok(vec![]));
    assert!(!app.scanning);
    assert_eq!(app.mode, AppMode::Welcome);
    assert_eq!(app.message, Some(Message::NoEntriesFound));
    assert_eq!(
        app.message.as_ref().unwrap().text(),
        "No node_modules folders found."
    );

    app.on_scan_complete(Ok(vec![entry("/r/node_modules", 7)]));
    assert_eq!(app.mode, AppMode::List);
    assert_eq!(app.total_size, 7);
    assert_eq!(app.cursor, Some(0));

    let mut app2 = App::new();
    app2.on_scan_complete(Err("boom".to_owned()));
    assert_eq!(app2.mode, AppMode::Welcome);
    assert_eq!(app2.message, Some(Message::ScanError("boom".to_owned())));
    assert_eq!(app2.message.as_ref().unwrap().text(), "Error scanning: boom");
}

#[test]
fn invalid_path_message() {
    let mut app = App::new();
    app.note_invalid_path();
    assert_eq!(app.message, Some(Message::InvalidPath));
    assert_eq!(
        app.message.as_ref().unwrap().text(),
        "Invalid path. Please enter a valid directory."
    );
}

#[test]
fn centered_rect_centers() {
    let r = Rect { x: 0, y: 0, width: 100, height: 40 };
    let c = centered_rect(60, 50, r);
    assert_eq!(c, Rect { x: 20, y: 10, width: 60, height: 20 });
    let off = Rect { x: 10, y: 5, width: 30, height: 9 };
    let c2 = centered_rect(50, 100, off);
    assert_eq!(c2, Rect { x: 17, y: 5, width: 15, height: 9 });
}

#[test]
fn progress_numbers() {
    assert_eq!(progress_percent(0, 0), 0);
    assert_eq!(progress_percent(1, 3), 33);
    assert_eq!(progress_percent(3, 3), 100);
    assert_eq!(progress_bar_filled(0, 0, 30), 0);
    assert_eq!(progress_bar_filled(1, 3, 30), 10);
    assert_eq!(progress_bar_filled(3, 3, 30), 30);
}

#[test]
fn long_paths_are_truncated_for_display() {
    assert_eq!(truncate_path_display("/short/path"), "/short/path");
    let long: String = "abcdefghij".repeat(6);
    let shown = truncate_path_display(&long);
    assert_eq!(shown.len(), 50);
    assert!(shown.starts_with("..."));
    assert!(shown.ends_with(&long[60 - 47..]));
}
