use dlm::input::{parse_usize, split_words, CommandTab, DownloadingTable, HandleInput};

fn chars(s: &str) -> Vec<char> {
    s.chars().collect()
}

fn typed(s: &str) -> HandleInput {
    let mut h = HandleInput::new();
    for c in s.chars() {
        h.enter_char(c);
    }
    h
}

#[test]
fn tabs_cycle_both_ways() {
    assert_eq!(CommandTab::Download.next(), CommandTab::Pause);
    assert_eq!(CommandTab::Cancel.next(), CommandTab::Download);
    assert_eq!(CommandTab::Download.previous(), CommandTab::Cancel);
    assert_eq!(CommandTab::Resume.previous(), CommandTab::Pause);
    for t in [CommandTab::Download, CommandTab::Pause, CommandTab::Resume, CommandTab::Cancel] {
        assert_eq!(t.next().previous(), t);
    }
}

#[test]
fn typing_and_cursor_moves() {
    let mut h = typed("abc");
    assert_eq!(h.input_value(), "abc");
    assert_eq!(h.character_idx(), 3);
    h.move_cursor_right();
    assert_eq!(h.character_idx(), 3);
    h.move_cursor_left();
    h.move_cursor_left();
    h.enter_char('X');
    assert_eq!(h.input_value(), "aXbc");
    assert_eq!(h.character_idx(), 2);
    h.delete_char();
    assert_eq!(h.input_value(), "abc");
    assert_eq!(h.character_idx(), 1);
    h.reset_cursor();
    h.delete_char();
    assert_eq!(h.input_value(), "abc");
    assert_eq!(h.character_idx(), 0);
    h.move_cursor_left();
    assert_eq!(h.character_idx(), 0);
    assert_eq!(h.clamp_cursor(10), 3);
    assert_eq!(h.clamp_cursor(2), 2);
}

#[test]
fn byte_index_counts_utf8_bytes() {
    let mut h = typed("aé€😀b");
    assert_eq!(h.byte_index(), 11);
    h.move_cursor_left();
    assert_eq!(h.byte_index(), 10);
    h.move_cursor_left();
    assert_eq!(h.byte_index(), 6);
    h.move_cursor_left();
    assert_eq!(h.byte_index(), 3);
    h.reset_cursor();
    assert_eq!(h.byte_index(), 0);
    h.enter_char('ß');
    assert_eq!(h.input_value(), "ßaé€😀b");
}

#[test]
fn submit_download_splits_words() {
    let mut h = typed("  https://a/x \t https://b/y  ");
    let (urls, id) = h.submit_message(CommandTab::Download);
    assert_eq!(urls, Some(vec!["https://a/x".to_string(), "https://b/y".to_string()]));
    assert_eq!(id, None);
    assert_eq!(h.input_value(), "");
    assert_eq!(h.character_idx(), 0);
}

#[test]
fn submit_other_tabs_reads_an_id() {
    let mut h = typed(" 42 ");
    assert_eq!(h.submit_message(CommandTab::Pause), (None, Some(42)));
    let mut h2 = typed("x1");
    assert_eq!(h2.submit_message(CommandTab::Cancel), (None, None));
}

#[test]
fn parse_usize_follows_from_str() {
    for s in ["0", "7", "+12", "0042", "18446744073709551615", "", "+", "-1", "1 2", "a", "18446744073709551616"] {
        assert_eq!(parse_usize(&chars(s)), s.parse::<usize>().ok(), "input {s:?}");
    }
}

#[test]
fn split_words_matches_split_whitespace() {
    for s in ["", "  ", "a", " a  b\tc\n", "x\u{3000}y", "one"] {
        let expected: Vec<String> = s.split_whitespace().map(String::from).collect();
        assert_eq!(split_words(&chars(s)), expected);
    }
}

#[test]
fn table_row_keeps_its_fields() {
    let row = DownloadingTable::build(3, "a.bin".to_string(), 40, "Paused".to_string(), 1000);
    assert_eq!(row.id, 3);
    assert_eq!(row.name, "a.bin");
    assert_eq!(row.progress, 40);
    assert_eq!(row.status, "Paused");
    assert_eq!(row.total_length, 1000);
}
