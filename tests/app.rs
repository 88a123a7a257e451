use dlm::input::{App, CommandTab, DownloadingTable, Key, KeyOutcome};

fn row(id: u64, progress: usize, status: &str) -> DownloadingTable {
    DownloadingTable::build(id, format!("https://example.com/{id}"), progress, status.to_string(), 100)
}

fn type_text(app: &mut App, s: &str) {
    for c in s.chars() {
        assert!(matches!(app.handle_key(Key::Char { c, ctrl: false }), KeyOutcome::Redraw));
    }
}

#[test]
fn new_app_starts_on_download_tab() {
    let app = App::new();
    assert_eq!(app.selected_tab(), CommandTab::Download);
    assert_eq!(app.input().input_value(), "");
    assert!(app.table().is_empty());
}

#[test]
fn enter_sends_the_download_command() {
    let mut app = App::new();
    type_text(&mut app, "https://a/x https://b/y");
    match app.handle_key(Key::Enter) {
        KeyOutcome::Send(cmd) => {
            assert_eq!(cmd.command, CommandTab::Download);
            assert_eq!(
                cmd.urls,
                Some(vec!["https://a/x".to_string(), "https://b/y".to_string()])
            );
            assert_eq!(cmd.id, None);
        }
        _ => panic!("expected a command"),
    }
    assert_eq!(app.input().input_value(), "");
}

#[test]
fn tabs_switch_with_control_keys_and_enter_sends_an_id() {
    let mut app = App::new();
    app.handle_key(Key::Char { c: 'l', ctrl: true });
    assert_eq!(app.selected_tab(), CommandTab::Pause);
    app.handle_key(Key::Char { c: 'l', ctrl: true });
    app.handle_key(Key::Char { c: 'l', ctrl: true });
    assert_eq!(app.selected_tab(), CommandTab::Cancel);
    app.handle_key(Key::Char { c: 'h', ctrl: true });
    assert_eq!(app.selected_tab(), CommandTab::Resume);
    assert_eq!(app.input().input_value(), "");
    type_text(&mut app, "12");
    app.handle_key(Key::Left);
    app.handle_key(Key::Backspace);
    assert_eq!(app.input().input_value(), "2");
    app.handle_key(Key::Right);
    app.handle_key(Key::Other);
    match app.handle_key(Key::Enter) {
        KeyOutcome::Send(cmd) => {
            assert_eq!(cmd.command, CommandTab::Resume);
            assert_eq!(cmd.urls, None);
            assert_eq!(cmd.id, Some(2));
        }
        _ => panic!("expected a command"),
    }
    assert!(matches!(app.handle_key(Key::Esc), KeyOutcome::Quit));
}

#[test]
fn control_with_other_letters_types_them() {
    let mut app = App::new();
    app.handle_key(Key::Char { c: 'x', ctrl: true });
    assert_eq!(app.input().input_value(), "x");
}

#[test]
fn rows_are_replaced_by_id() {
    let mut app = App::new();
    app.update_row(row(1, 10, "Downloading"));
    app.update_row(row(2, 0, "Pending"));
    app.update_row(row(1, 60, "Paused"));
    let ids: Vec<u64> = app.table().iter().map(|r| r.id).collect();
    assert_eq!(ids, vec![1, 2]);
    assert_eq!(app.table()[0].progress, 60);
    assert_eq!(app.table()[0].status, "Paused");
}
