use vstd::prelude::*;

use crate::names::{chars_of, is_space, is_white_space, string_of, trim, trim_bounds};

verus! {

/// The command that the terminal client's input line is for.
#[derive(Clone, Copy, Debug, PartialEq, Eq, Structural)]
pub enum CommandTab {
    Download,
    Pause,
    Resume,
    Cancel,
}

/// Position of a tab in the tab bar.
pub open spec fn tab_index(t: CommandTab) -> int {
    match t {
        CommandTab::Download => 0,
        CommandTab::Pause => 1,
        CommandTab::Resume => 2,
        CommandTab::Cancel => 3,
    }
}

impl CommandTab {
    /// The tab to the right, wrapping around after the last one.
    pub fn next(self) -> (r: Self)
        ensures
            tab_index(r) == (tab_index(self) + 1) % 4,
    {
        match self {
            CommandTab::Download => CommandTab::Pause,
            CommandTab::Pause => CommandTab::Resume,
            CommandTab::Resume => CommandTab::Cancel,
            CommandTab::Cancel => CommandTab::Download,
        }
    }

    /// The tab to the left, wrapping around before the first one.
    pub fn previous(self) -> (r: Self)
        ensures
            tab_index(r) == (tab_index(self) + 3) % 4,
    {
        match self {
            CommandTab::Download => CommandTab::Cancel,
            CommandTab::Pause => CommandTab::Download,
            CommandTab::Resume => CommandTab::Pause,
            CommandTab::Cancel => CommandTab::Resume,
        }
    }
}

/// One row of the client's table of downloads.
pub struct DownloadingTable {
    pub id: u64,
    pub name: String,
    pub progress: usize,
    pub status: String,
    pub total_length: usize,
}

impl DownloadingTable {
    pub fn build(id: u64, name: String, progress: usize, status: String, total_length: usize) -> (r:
        Self)
        ensures
            r.id == id,
            r.name == name,
            r.progress == progress,
            r.status == status,
            r.total_length == total_length,
    {
        DownloadingTable { id, name, progress, status, total_length }
    }
}

/// A command that the terminal client sends to the daemon.
pub struct CommandArgument {
    pub command: CommandTab,
    pub urls: Option<Vec<String>>,
    pub id: Option<usize>,
}

/// Splitting the first `n` characters of `s` at white space: the words
/// closed so far and the word still open.
pub open spec fn scan_words(s: Seq<char>, n: nat) -> (Seq<Seq<char>>, Seq<char>)
    decreases n,
{
    if n == 0 {
        (Seq::empty(), Seq::empty())
    } else {
        let (ws, cur) = scan_words(s, (n - 1) as nat);
        let c = s[n - 1];
        if is_white_space(c) {
            if cur.len() > 0 {
                (ws.push(cur), Seq::empty())
            } else {
                (ws, Seq::empty())
            }
        } else {
            (ws, cur.push(c))
        }
    }
}

/// The non-empty runs of `s` between white space, in order.
pub open spec fn words(s: Seq<char>) -> Seq<Seq<char>> {
    let (ws, cur) = scan_words(s, s.len());
    if cur.len() > 0 {
        ws.push(cur)
    } else {
        ws
    }
}

/// Value of a run of decimal digits.
pub open spec fn digits_value(s: Seq<char>) -> nat
    decreases s.len(),
{
    if s.len() == 0 {
        0
    } else {
        digits_value(s.drop_last()) * 10 + (s.last() as nat - '0' as nat) as nat
    }
}

pub open spec fn is_digit(c: char) -> bool {
    '0' <= c && c <= '9'
}

/// A text without the `+` sign that may lead it.
pub open spec fn unsigned_part(s: Seq<char>) -> Seq<char> {
    if s.len() > 0 && s[0] == '+' {
        s.drop_first()
    } else {
        s
    }
}

pub open spec fn all_digits(d: Seq<char>) -> bool {
    forall|i: int| 0 <= i < d.len() ==> is_digit(#[trigger] d[i])
}

/// The identifier that a text spells in decimal, as `usize::from_str` reads
/// it: an optional `+`, then at least one digit and nothing else, with a
/// value that fits.
pub open spec fn parse_id(s: Seq<char>) -> Option<usize> {
    let d = unsigned_part(s);
    if d.len() > 0 && all_digits(d) && digits_value(d) <= usize::MAX {
        Some(digits_value(d) as usize)
    } else {
        None
    }
}

/// A longer run of digits is worth at least as much as its prefix.
proof fn lemma_digits_value_grows(s: Seq<char>, k: int)
    requires
        0 <= k <= s.len(),
        forall|i: int| 0 <= i < s.len() ==> is_digit(#[trigger] s[i]),
    ensures
        digits_value(s.subrange(0, k)) <= digits_value(s),
    decreases s.len(),
{
    if k < s.len() {
        assert(s.drop_last().subrange(0, k) =~= s.subrange(0, k));
        lemma_digits_value_grows(s.drop_last(), k);
    } else {
        assert(s.subrange(0, k) =~= s);
    }
}

/// Reads an identifier as [`parse_id`] describes.
pub fn parse_usize(s: &Vec<char>) -> (r: Option<usize>)
    ensures
        r == parse_id(s@),
{
    let n = s.len();
    let start: usize = if n > 0 && s[0] == '+' {
        1
    } else {
        0
    };
    let ghost d = unsigned_part(s@);
    assert(d =~= s@.subrange(start as int, n as int));
    if start == n {
        return None;
    }
    let mut value: usize = 0;
    let mut i: usize = start;
    while i < n
        invariant
            n == s@.len(),
            start <= i <= n,
            d == s@.subrange(start as int, n as int),
            d == unsigned_part(s@),
            forall|k: int| start <= k < i ==> is_digit(#[trigger] s@[k]),
            value == digits_value(s@.subrange(start as int, i as int)),
        decreases n - i,
    {
        let c = s[i];
        if !('0' <= c && c <= '9') {
            assert(!is_digit(d[i - start]));
            return None;
        }
        let digit = (c as u32 - '0' as u32) as usize;
        assert(s@.subrange(start as int, i + 1).drop_last() =~= s@.subrange(start as int, i as int));
        if value > (usize::MAX - digit) / 10 {
            proof {
                assert(value * 10 + digit > usize::MAX) by (nonlinear_arith)
                    requires
                        value > (usize::MAX - digit) / 10,
                        digit <= 9,
                ;
                if all_digits(d) {
                    assert(d.subrange(0, i + 1 - start) =~= s@.subrange(start as int, i + 1));
                    lemma_digits_value_grows(d, i + 1 - start);
                }
            }
            return None;
        }
        assert(value * 10 + digit <= usize::MAX) by (nonlinear_arith)
            requires
                value <= (usize::MAX - digit) / 10,
                digit <= 9,
        ;
        value = value * 10 + digit;
        i = i + 1;
    }
    assert(s@.subrange(start as int, n as int) =~= d);
    Some(value)
}

/// The words of a text, split at white space as `str::split_whitespace` does.
pub fn split_words(s: &Vec<char>) -> (r: Vec<String>)
    ensures
        r@.map_values(|w: String| w@) == words(s@),
{
    let n = s.len();
    let mut out: Vec<String> = Vec::new();
    let mut start: usize = 0;
    let mut i: usize = 0;
    while i < n
        invariant
            n == s@.len(),
            start <= i <= n,
            out@.map_values(|w: String| w@) == scan_words(s@, i as nat).0,
            s@.subrange(start as int, i as int) == scan_words(s@, i as nat).1,
        decreases n - i,
    {
        let ghost before = out@;
        if is_space(s[i]) {
            if start < i {
                let w = string_of(s, start, i);
                out.push(w);
                assert(out@.map_values(|w: String| w@) =~= before.map_values(|w: String| w@).push(
                    w@,
                ));
            }
            start = i + 1;
            assert(s@.subrange(start as int, i + 1) =~= Seq::<char>::empty());
        } else {
            assert(s@.subrange(start as int, i + 1) =~= s@.subrange(start as int, i as int).push(
                s@[i as int],
            ));
        }
        i = i + 1;
    }
    if start < n {
        let ghost before = out@;
        let w = string_of(s, start, n);
        out.push(w);
        assert(out@.map_values(|w: String| w@) =~= before.map_values(|w: String| w@).push(w@));
    }
    out
}

/// The client's input line: its text, the cursor as a character position,
/// and what the last submission produced.
pub struct HandleInput {
    input_value: String,
    character_idx: usize,
    messages: Option<Vec<String>>,
    id: Option<usize>,
}

/// Number of bytes that UTF-8 takes for a character.
pub open spec fn utf8_width(c: char) -> nat {
    if (c as u32) < 0x80 {
        1
    } else if (c as u32) < 0x800 {
        2
    } else if (c as u32) < 0x10000 {
        3
    } else {
        4
    }
}

/// Number of bytes that UTF-8 takes for a text.
pub open spec fn utf8_len(s: Seq<char>) -> nat
    decreases s.len(),
{
    if s.len() == 0 {
        0
    } else {
        utf8_len(s.drop_last()) + utf8_width(s.last())
    }
}

/// `s` with `c` inserted before position `k`.
pub open spec fn inserted(s: Seq<char>, k: int, c: char) -> Seq<char> {
    s.subrange(0, k).push(c) + s.subrange(k, s.len() as int)
}

/// `s` without the character at position `k`.
pub open spec fn removed(s: Seq<char>, k: int) -> Seq<char> {
    s.subrange(0, k) + s.subrange(k + 1, s.len() as int)
}

impl HandleInput {
    pub closed spec fn text(&self) -> Seq<char> {
        self.input_value@
    }

    pub closed spec fn cursor(&self) -> nat {
        self.character_idx as nat
    }

    pub closed spec fn last_urls(&self) -> Option<Seq<Seq<char>>> {
        match self.messages {
            Some(v) => Some(v@.map_values(|w: String| w@)),
            None => None,
        }
    }

    pub closed spec fn last_id(&self) -> Option<usize> {
        self.id
    }

    /// The cursor stays on the text or right after it.
    pub open spec fn wf(&self) -> bool {
        self.cursor() <= self.text().len()
    }

    /// An empty line with the cursor at its start.
    pub fn new() -> (r: Self)
        ensures
            r.wf(),
            r.text() == Seq::<char>::empty(),
            r.cursor() == 0,
            r.last_urls() is None,
            r.last_id() is None,
    {
        HandleInput { input_value: String::new(), character_idx: 0, messages: None, id: None }
    }

    /// The text of the line.
    pub fn input_value(&self) -> (r: &String)
        ensures
            r@ == self.text(),
    {
        &self.input_value
    }

    /// The cursor, as a character position.
    pub fn character_idx(&self) -> (r: usize)
        ensures
            r == self.cursor(),
    {
        self.character_idx
    }

    /// A cursor position held within the text.
    pub fn clamp_cursor(&self, new_cursor_pos: usize) -> (r: usize)
        ensures
            self.text().len() <= usize::MAX,
            r == if new_cursor_pos <= self.text().len() {
                new_cursor_pos as nat
            } else {
                self.text().len()
            },
    {
        let len = self.input_value.as_str().unicode_len();
        if new_cursor_pos <= len {
            new_cursor_pos
        } else {
            len
        }
    }

    /// Moves the cursor one character to the left, if it can.
    pub fn move_cursor_left(&mut self)
        requires
            old(self).cursor() <= old(self).text().len() + 1,
        ensures
            final(self).wf(),
            final(self).text() == old(self).text(),
            final(self).cursor() == if old(self).cursor() == 0 {
                0
            } else {
                (old(self).cursor() - 1) as nat
            },
            final(self).last_urls() == old(self).last_urls(),
            final(self).last_id() == old(self).last_id(),
    {
        let moved = self.character_idx.saturating_sub(1);
        self.character_idx = self.clamp_cursor(moved);
    }

    /// Moves the cursor one character to the right, if it can.
    pub fn move_cursor_right(&mut self)
        requires
            old(self).wf(),
        ensures
            final(self).wf(),
            final(self).text() == old(self).text(),
            final(self).cursor() == if old(self).cursor() < old(self).text().len() {
                old(self).cursor() + 1
            } else {
                old(self).cursor()
            },
            final(self).last_urls() == old(self).last_urls(),
            final(self).last_id() == old(self).last_id(),
    {
        let moved = self.character_idx.saturating_add(1);
        self.character_idx = self.clamp_cursor(moved);
    }

    /// Byte offset in the text of the character under the cursor, or the
    /// byte length of the text when the cursor is past its end (a count
    /// that cannot exceed `usize::MAX` for a text held in memory).
    pub fn byte_index(&self) -> (r: usize)
        requires
            self.wf(),
        ensures
            r == if utf8_len(self.text().subrange(0, self.cursor() as int)) > usize::MAX {
                usize::MAX as nat
            } else {
                utf8_len(self.text().subrange(0, self.cursor() as int))
            },
    {
        let chars = chars_of(self.input_value.as_str());
        let mut total: usize = 0;
        let mut i: usize = 0;
        while i < self.character_idx
            invariant
                chars@ == self.text(),
                self.wf(),
                i <= self.character_idx,
                total == if utf8_len(chars@.subrange(0, i as int)) > usize::MAX {
                    usize::MAX as nat
                } else {
                    utf8_len(chars@.subrange(0, i as int))
                },
            decreases self.character_idx - i,
        {
            let c = chars[i];
            let u = c as u32;
            let width: usize = if u < 0x80 {
                1
            } else if u < 0x800 {
                2
            } else if u < 0x10000 {
                3
            } else {
                4
            };
            assert(chars@.subrange(0, i + 1).drop_last() =~= chars@.subrange(0, i as int));
            total = total.saturating_add(width);
            i = i + 1;
        }
        total
    }

    /// Inserts a character at the cursor and moves the cursor past it.
    pub fn enter_char(&mut self, new_char: char)
        requires
            old(self).wf(),
        ensures
            final(self).wf(),
            final(self).text() == inserted(old(self).text(), old(self).cursor() as int, new_char),
            final(self).cursor() == old(self).cursor() + 1,
            final(self).last_urls() == old(self).last_urls(),
            final(self).last_id() == old(self).last_id(),
    {
        let chars = chars_of(self.input_value.as_str());
        let k = self.character_idx;
        let mut text = string_of(&chars, 0, k);
        crate::names::push_char(&mut text, new_char);
        let ghost head = text@;
        let n = chars.len();
        let mut i: usize = k;
        while i < n
            invariant
                n == chars@.len(),
                k <= i <= n,
                text@ == head + chars@.subrange(k as int, i as int),
            decreases n - i,
        {
            crate::names::push_char(&mut text, chars[i]);
            i = i + 1;
            assert(text@ =~= head + chars@.subrange(k as int, i as int));
        }
        self.input_value = text;
        assert(self.text() =~= inserted(old(self).text(), k as int, new_char));
        self.move_cursor_right();
    }

    /// Puts the cursor back at the start of the line.
    pub fn reset_cursor(&mut self)
        ensures
            final(self).wf(),
            final(self).text() == old(self).text(),
            final(self).cursor() == 0,
            final(self).last_urls() == old(self).last_urls(),
            final(self).last_id() == old(self).last_id(),
    {
        self.character_idx = 0;
    }

    /// Deletes the character before the cursor, if there is one, and moves
    /// the cursor onto its place.
    pub fn delete_char(&mut self)
        requires
            old(self).wf(),
        ensures
            final(self).wf(),
            old(self).cursor() == 0 ==> final(self).text() == old(self).text()
                && final(self).cursor() == 0,
            old(self).cursor() > 0 ==> final(self).text() == removed(
                old(self).text(),
                old(self).cursor() - 1,
            ) && final(self).cursor() == old(self).cursor() - 1,
            final(self).last_urls() == old(self).last_urls(),
            final(self).last_id() == old(self).last_id(),
    {
        if self.character_idx != 0 {
            let chars = chars_of(self.input_value.as_str());
            let k = self.character_idx;
            let mut text = string_of(&chars, 0, k - 1);
            let ghost head = text@;
            let n = chars.len();
            let mut i: usize = k;
            while i < n
                invariant
                    n == chars@.len(),
                    k <= i <= n,
                    text@ == head + chars@.subrange(k as int, i as int),
                decreases n - i,
            {
                crate::names::push_char(&mut text, chars[i]);
                i = i + 1;
                assert(text@ =~= head + chars@.subrange(k as int, i as int));
            }
            self.input_value = text;
            assert(self.text() =~= removed(old(self).text(), k - 1));
            self.move_cursor_left();
        }
    }

    /// Submits the line for the given tab. For `Download` its words become
    /// the locators to send; for the other tabs the trimmed line is read as
    /// an identifier (none when it is not one). The line is then cleared.
    /// Returns the locators and the identifier now held.
    pub fn submit_message(&mut self, selected_tab: CommandTab) -> (r: (
        Option<Vec<String>>,
        Option<usize>,
    ))
        requires
            old(self).wf(),
        ensures
            final(self).wf(),
            final(self).text() == Seq::<char>::empty(),
            final(self).cursor() == 0,
            selected_tab == CommandTab::Download ==> final(self).last_urls() == Some(
                words(old(self).text()),
            ) && final(self).last_id() == old(self).last_id(),
            selected_tab != CommandTab::Download ==> final(self).last_id() == parse_id(
                trim(old(self).text()),
            ) && final(self).last_urls() == old(self).last_urls(),
            r.1 == final(self).last_id(),
            match r.0 {
                Some(v) => final(self).last_urls() == Some(v@.map_values(|w: String| w@)),
                None => final(self).last_urls() is None,
            },
    {
        let chars = chars_of(self.input_value.as_str());
        if selected_tab == CommandTab::Download {
            self.messages = Some(split_words(&chars));
        } else {
            let (lo, hi) = trim_bounds(&chars);
            let mut trimmed: Vec<char> = Vec::new();
            let mut i: usize = lo;
            while i < hi
                invariant
                    lo <= i <= hi <= chars@.len(),
                    trimmed@ == chars@.subrange(lo as int, i as int),
                decreases hi - i,
            {
                trimmed.push(chars[i]);
                i = i + 1;
                assert(trimmed@ =~= chars@.subrange(lo as int, i as int));
            }
            self.id = parse_usize(&trimmed);
        }
        self.input_value = String::new();
        self.reset_cursor();
        let copy = match &self.messages {
            Some(v) => Some(copy_strings(v)),
            None => None,
        };
        (copy, self.id)
    }
}

/// A copy of a list of strings.
fn copy_strings(v: &Vec<String>) -> (r: Vec<String>)
    ensures
        r@.map_values(|w: String| w@) == v@.map_values(|w: String| w@),
{
    let mut out: Vec<String> = Vec::new();
    let mut i: usize = 0;
    while i < v.len()
        invariant
            i <= v@.len(),
            out@.len() == i,
            forall|k: int| 0 <= k < i ==> #[trigger] out@[k]@ == v@[k]@,
        decreases v@.len() - i,
    {
        out.push(v[i].clone());
        i = i + 1;
    }
    assert(out@.map_values(|w: String| w@) =~= v@.map_values(|w: String| w@));
    out
}

/// A key press, as the client's terminal reports it.
#[derive(Clone, Copy, Debug, PartialEq, Eq, Structural)]
pub enum Key {
    Esc,
    Backspace,
    Left,
    Right,
    Enter,
    /// A character key, with or without the control modifier.
    Char { c: char, ctrl: bool },
    /// Any other key.
    Other,
}

/// What the client does after a key press.
pub enum KeyOutcome {
    /// Leave the client.
    Quit,
    /// Send this command to the daemon.
    Send(CommandArgument),
    /// Nothing to send: draw the screen again.
    Redraw,
}

/// The state of the terminal client: its input line, the selected tab, and
/// one table row per download, in the order the downloads first appeared.
pub struct App {
    input: HandleInput,
    selected_tab: CommandTab,
    table_data: Vec<DownloadingTable>,
}

/// Identifiers of the table's rows.
pub open spec fn row_ids(rows: Seq<DownloadingTable>) -> Seq<u64> {
    rows.map_values(|r: DownloadingTable| r.id)
}

impl App {
    pub closed spec fn rows(&self) -> Seq<DownloadingTable> {
        self.table_data@
    }

    pub closed spec fn line(&self) -> HandleInput {
        self.input
    }

    pub closed spec fn tab(&self) -> CommandTab {
        self.selected_tab
    }

    /// The input line.
    pub fn input(&self) -> (r: &HandleInput)
        ensures
            *r == self.line(),
    {
        &self.input
    }

    /// The selected tab.
    pub fn selected_tab(&self) -> (r: CommandTab)
        ensures
            r == self.tab(),
    {
        self.selected_tab
    }

    /// No two rows share an identifier, and the input line is well formed.
    pub closed spec fn wf(&self) -> bool {
        &&& self.input.wf()
        &&& forall|i: int, j: int|
            0 <= i < j < self.rows().len() ==> (#[trigger] self.rows()[i]).id != (
            #[trigger] self.rows()[j]).id
    }

    /// Rows kept as they were keep the rows' identifiers unique.
    proof fn lemma_same_rows(a: &App, b: &App)
        requires
            a.wf(),
            b.table_data@ == a.table_data@,
            b.input.wf(),
        ensures
            b.wf(),
    {
        assert forall|i: int, j: int|
            0 <= i < j < b.rows().len() implies (#[trigger] b.rows()[i]).id != (
            #[trigger] b.rows()[j]).id by {
            assert(a.rows()[i].id != a.rows()[j].id);
        }
    }

    /// An empty input line on the `Download` tab, and no rows.
    pub fn new() -> (r: Self)
        ensures
            r.wf(),
            r.line().text() == Seq::<char>::empty(),
            r.line().cursor() == 0,
            r.line().last_urls() is None,
            r.line().last_id() is None,
            r.tab() == CommandTab::Download,
            r.rows() == Seq::<DownloadingTable>::empty(),
    {
        App { input: HandleInput::new(), selected_tab: CommandTab::Download, table_data: Vec::new() }
    }

    /// The table's rows.
    pub fn table(&self) -> (r: &Vec<DownloadingTable>)
        ensures
            r@ == self.rows(),
    {
        &self.table_data
    }

    /// Shows a new snapshot of a download: its row is replaced, or added at
    /// the end when the download is new to the table.
    pub fn update_row(&mut self, row: DownloadingTable)
        requires
            old(self).wf(),
        ensures
            final(self).wf(),
            final(self).line() == old(self).line(),
            final(self).tab() == old(self).tab(),
            (exists|i: int| 0 <= i < old(self).rows().len() && #[trigger] old(self).rows()[i].id == row.id)
                ==> (exists|i: int|
                0 <= i < old(self).rows().len() && #[trigger] old(self).rows()[i].id == row.id
                    && final(self).rows() == old(self).rows().update(i, row)),
            (forall|i: int| 0 <= i < old(self).rows().len() ==> #[trigger] old(self).rows()[i].id != row.id)
                ==> final(self).rows() == old(self).rows().push(row),
    {
        let n = self.table_data.len();
        let mut i: usize = 0;
        while i < n
            invariant
                n == self.table_data@.len(),
                i <= n,
                self == old(self),
                old(self).wf(),
                forall|k: int| 0 <= k < i ==> #[trigger] self.table_data@[k].id != row.id,
            decreases n - i,
        {
            if self.table_data[i].id == row.id {
                let ghost before = self.table_data@;
                self.table_data.set(i, row);
                assert(before[i as int].id == row.id);
                assert forall|a: int, b: int|
                    0 <= a < b < self.rows().len() implies (#[trigger] self.rows()[a]).id != (
                    #[trigger] self.rows()[b]).id by {
                    assert(old(self).rows()[a].id != old(self).rows()[b].id);
                }
                return;
            }
            i = i + 1;
        }
        self.table_data.push(row);
    }

    /// Reacts to a key press: `Esc` quits; `Backspace`, `Left`, `Right` and
    /// characters edit the input line; control with `l` or `h` moves to the
    /// next or previous tab; `Enter` submits the line and sends the command
    /// for the selected tab.
    pub fn handle_key(&mut self, key: Key) -> (r: KeyOutcome)
        requires
            old(self).wf(),
        ensures
            final(self).wf(),
            final(self).rows() == old(self).rows(),
            key != Key::Enter ==> r is Quit == (key == Key::Esc) && !(r is Send),
            match key {
                Key::Esc | Key::Other => final(self).line() == old(self).line()
                    && final(self).tab() == old(self).tab(),
                Key::Char { c: 'l', ctrl: true } => final(self).line() == old(self).line()
                    && tab_index(final(self).tab()) == (tab_index(old(self).tab()) + 1)
                    % 4,
                Key::Char { c: 'h', ctrl: true } => final(self).line() == old(self).line()
                    && tab_index(final(self).tab()) == (tab_index(old(self).tab()) + 3)
                    % 4,
                Key::Char { c, ctrl: _ } => final(self).tab() == old(self).tab()
                    && final(self).line().text() == inserted(
                    old(self).line().text(),
                    old(self).line().cursor() as int,
                    c,
                ) && final(self).line().cursor() == old(self).line().cursor() + 1,
                Key::Backspace => final(self).tab() == old(self).tab() && (if old(self).line().cursor()
                    == 0 {
                    final(self).line().text() == old(self).line().text()
                } else {
                    final(self).line().text() == removed(
                        old(self).line().text(),
                        old(self).line().cursor() - 1,
                    )
                }),
                Key::Left | Key::Right => final(self).tab() == old(self).tab()
                    && final(self).line().text() == old(self).line().text(),
                Key::Enter => final(self).tab() == old(self).tab()
                    && final(self).line().text() == Seq::<char>::empty() && (r matches KeyOutcome::Send(
                    a,
                ) && a.command == old(self).tab() && a.id == final(self).line().last_id()
                    && match a.urls {
                    Some(v) => final(self).line().last_urls() == Some(v@.map_values(|w: String| w@)),
                    None => final(self).line().last_urls() is None,
                }),
            },
    {
        match key {
            Key::Esc => KeyOutcome::Quit,
            Key::Backspace => {
                self.input.delete_char();
                proof { App::lemma_same_rows(&*old(self), &*self); }
                KeyOutcome::Redraw
            },
            Key::Left => {
                self.input.move_cursor_left();
                proof { App::lemma_same_rows(&*old(self), &*self); }
                KeyOutcome::Redraw
            },
            Key::Right => {
                self.input.move_cursor_right();
                proof { App::lemma_same_rows(&*old(self), &*self); }
                KeyOutcome::Redraw
            },
            Key::Char { c: 'l', ctrl: true } => {
                self.selected_tab = self.selected_tab.next();
                proof { App::lemma_same_rows(&*old(self), &*self); }
                KeyOutcome::Redraw
            },
            Key::Char { c: 'h', ctrl: true } => {
                self.selected_tab = self.selected_tab.previous();
                proof { App::lemma_same_rows(&*old(self), &*self); }
                KeyOutcome::Redraw
            },
            Key::Enter => {
                let (urls, id) = self.input.submit_message(self.selected_tab);
                proof { App::lemma_same_rows(&*old(self), &*self); }
                KeyOutcome::Send(CommandArgument { command: self.selected_tab, urls, id })
            },
            Key::Char { c, ctrl: _ } => {
                self.input.enter_char(c);
                proof { App::lemma_same_rows(&*old(self), &*self); }
                KeyOutcome::Redraw
            },
            Key::Other => KeyOutcome::Redraw,
        }
    }
}

} // verus!
