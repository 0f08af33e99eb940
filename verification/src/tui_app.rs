//! The state of the terminal interface and how it answers keys: a state
//! machine whose steps name the outside work (searching, loading a preview,
//! rewriting a message's tags, opening a pager, explaining a message) that
//! the event loop carries out.

use vstd::prelude::*;
use vstd::utf8::{encode_utf8, is_char_boundary};
use crate::text::{chars_of, string_of, sub_chars, trim, trim_str, concat_str, push_char, str_eq,
    starts_with};
use crate::tag_set::views;
use crate::tag_edit::{with_tag, without_tag, add_tag, remove_tag};
use crate::tag_set::clone_strings;
use crate::validation::{tag_error, validate_tag};
use crate::numfmt::{decimal, pad_left, decimal_string, pad_left_str};
use crate::order::{is_ranking, stable_rank_desc};
use crate::index_text::{byte_len, byte_prefix};
use crate::tui_filters::{FilterItem, item_views, untagged_value, build_filter_items, filter_layout};
use crate::setup::HamsterConfig;

verus! {

/// How many results a search keeps.
pub const MAX_SEARCH_RESULTS: usize = 200;

/// The number of queries the history keeps.
pub const HISTORY_LIMIT: usize = 100;

// ── Rows ────────────────────────────────────────────────────────────────────

/// One message of the result list.
pub struct MailRow {
    pub subject: String,
    pub from: String,
    /// Seconds since the epoch; 0 when unknown.
    pub date_ts: i64,
    pub tags: Vec<String>,
    pub path: String,
    pub message_id: String,
}

/// What a row means.
pub struct RowView {
    pub subject: Seq<char>,
    pub from: Seq<char>,
    pub date_ts: i64,
    pub tags: Seq<Seq<char>>,
    pub path: Seq<char>,
    pub message_id: Seq<char>,
}

pub open spec fn row_view(r: MailRow) -> RowView {
    RowView {
        subject: r.subject@,
        from: r.from@,
        date_ts: r.date_ts,
        tags: views(r.tags@),
        path: r.path@,
        message_id: r.message_id@,
    }
}

pub open spec fn rows_view(v: Seq<MailRow>) -> Seq<RowView> {
    v.map_values(|r: MailRow| row_view(r))
}

/// How long ago a message was sent, as the local clock shows it.
pub struct RelTime {
    /// `%Y-%m-%d` of the date.
    pub ymd: String,
    pub days: i64,
    pub hours: i64,
    pub minutes: i64,
}

/// The date column: blank for an unknown date, the date itself after a
/// year, else days, hours or minutes ago right-aligned in three columns.
pub open spec fn date_label(date_ts: i64, ymd: Seq<char>, days: int, hours: int, minutes: int) -> Seq<char> {
    if date_ts == 0 {
        seq![' ']
    } else if days > 365 {
        ymd
    } else if days >= 1 {
        pad_left(decimal(days as nat), 3) + "d ago "@
    } else if hours >= 1 {
        pad_left(decimal(hours as nat), 3) + "h ago "@
    } else {
        pad_left(decimal(if minutes > 0 { minutes as nat } else { 0 }), 3) + "m ago "@
    }
}

impl MailRow {
    /// Whether the message carries the `unread` tag.
    pub fn is_unread(&self) -> (r: bool)
        ensures
            r == views(self.tags@).contains("unread"@),
    {
        let mut i: usize = 0;
        while i < self.tags.len()
            invariant
                i <= self.tags@.len(),
                forall|k: int| 0 <= k < i ==> (#[trigger] self.tags@[k])@ != "unread"@,
            decreases self.tags.len() - i,
        {
            if str_eq(self.tags[i].as_str(), "unread") {
                assert(views(self.tags@)[i as int] == "unread"@);
                return true;
            }
            i += 1;
        }
        assert(!views(self.tags@).contains("unread"@)) by {
            if views(self.tags@).contains("unread"@) {
                let k = choose|k: int| 0 <= k < views(self.tags@).len() && views(self.tags@)[k] == "unread"@;
                assert(self.tags@[k]@ == "unread"@);
            }
        }
        false
    }

    /// The date column of the row.
    pub fn date_display(&self, when: &RelTime) -> (r: String)
        ensures
            r@ == date_label(self.date_ts, when.ymd@, when.days as int, when.hours as int, when.minutes as int),
    {
        if self.date_ts == 0 {
            let mut s = String::new();
            push_char(&mut s, ' ');
            assert(s@ =~= seq![' ']);
            return s;
        }
        if when.days > 365 {
            return when.ymd.clone();
        }
        let (n, unit): (i64, &str) = if when.days >= 1 {
            (when.days, "d ago ")
        } else if when.hours >= 1 {
            (when.hours, "h ago ")
        } else {
            (if when.minutes > 0 { when.minutes } else { 0 }, "m ago ")
        };
        let d = decimal_string(n as u128);
        let dv = chars_of(d.as_str());
        let p = pad_left_str(&dv, 3);
        concat_str(p.as_str(), unit)
    }

    /// A field-by-field copy.
    pub fn copy(&self) -> (r: MailRow)
        ensures
            row_view(r) == row_view(*self),
    {
        MailRow {
            subject: self.subject.clone(),
            from: self.from.clone(),
            date_ts: self.date_ts,
            tags: clone_strings(&self.tags),
            path: self.path.clone(),
            message_id: self.message_id.clone(),
        }
    }
}

// ── Modes, keys, effects ────────────────────────────────────────────────────

/// What the tag input box is for.
#[derive(PartialEq, Eq, Structural, Clone, Copy, Debug)]
pub enum InputMode {
    Normal,
    AddTag,
    RemoveTag,
}

/// Which pane has the keyboard.
#[derive(PartialEq, Eq, Structural, Clone, Copy, Debug)]
pub enum Focus {
    Search,
    Filter,
    List,
}

/// A key press.
#[derive(PartialEq, Eq, Structural, Clone, Copy, Debug)]
pub enum Key {
    Char(char),
    Backspace,
    Enter,
    Esc,
    Tab,
    Up,
    Down,
    PageUp,
    PageDown,
    Home,
    End,
    Other,
}

/// The modifiers held with a key: none, exactly Control, or anything else.
#[derive(PartialEq, Eq, Structural, Clone, Copy, Debug)]
pub enum Mods {
    Plain,
    Ctrl,
    Other,
}

/// The outside work a key asks for.
pub enum Effect {
    Nothing,
    Quit,
    /// The search text changed: search once typing pauses.
    RestartDebounce,
    /// Search now.
    Search,
    /// Load the preview of the selected message.
    LoadPreview,
    /// Store the row's message again with these tags; on success set the
    /// status to the text.
    RewriteTags(usize, Vec<String>, String),
    /// Open the file in the pager (when there is one), then redraw.
    OpenPager(Option<String>),
    /// Explain how the message at this path gets its tags.
    Explain(String),
}

/// What an effect means.
pub enum EffectView {
    Nothing,
    Quit,
    RestartDebounce,
    Search,
    LoadPreview,
    RewriteTags(nat, Seq<Seq<char>>, Seq<char>),
    OpenPager(Option<Seq<char>>),
    Explain(Seq<char>),
}

pub open spec fn opt_view(o: Option<String>) -> Option<Seq<char>> {
    match o {
        Some(s) => Some(s@),
        None => None,
    }
}

pub open spec fn effect_view(e: Effect) -> EffectView {
    match e {
        Effect::Nothing => EffectView::Nothing,
        Effect::Quit => EffectView::Quit,
        Effect::RestartDebounce => EffectView::RestartDebounce,
        Effect::Search => EffectView::Search,
        Effect::LoadPreview => EffectView::LoadPreview,
        Effect::RewriteTags(i, t, s) => EffectView::RewriteTags(i as nat, views(t@), s@),
        Effect::OpenPager(p) => EffectView::OpenPager(opt_view(p)),
        Effect::Explain(p) => EffectView::Explain(p@),
    }
}

// ── The state ───────────────────────────────────────────────────────────────

/// The state of the interface.
pub struct App {
    /// The index has uncommitted changes.
    pub writer_dirty: bool,
    pub search_input: String,
    /// A search waits for typing to pause.
    pub search_pending: bool,
    pub results: Vec<MailRow>,
    pub selected: usize,
    pub list_offset: usize,
    pub preview: Option<String>,
    pub preview_offset: u16,
    pub preview_visible: bool,
    pub input_mode: InputMode,
    pub tag_input: String,
    pub show_help: bool,
    pub status_message: Option<String>,
    pub explain_text: Option<String>,
    pub parsed_query: Option<String>,
    pub query_error: Option<String>,
    pub query_history: Vec<String>,
    pub history_index: Option<usize>,
    pub show_query_help: bool,
    pub focus: Focus,
    pub filter_items: Vec<FilterItem>,
    pub filter_selected: usize,
    pub filter_offset: usize,
    /// The tag the list is filtered by (`__untagged__` for messages
    /// without tags).
    pub active_filter: Option<String>,
}

/// What the state means.
pub struct AppView {
    pub writer_dirty: bool,
    pub search_input: Seq<char>,
    pub search_pending: bool,
    pub results: Seq<RowView>,
    pub selected: nat,
    pub list_offset: nat,
    pub preview: Option<Seq<char>>,
    pub preview_offset: u16,
    pub preview_visible: bool,
    pub input_mode: InputMode,
    pub tag_input: Seq<char>,
    pub show_help: bool,
    pub status_message: Option<Seq<char>>,
    pub explain_text: Option<Seq<char>>,
    pub parsed_query: Option<Seq<char>>,
    pub query_error: Option<Seq<char>>,
    pub query_history: Seq<Seq<char>>,
    pub history_index: Option<nat>,
    pub show_query_help: bool,
    pub focus: Focus,
    pub filter_items: Seq<(Seq<char>, Option<Seq<char>>, nat)>,
    pub filter_selected: nat,
    pub filter_offset: nat,
    pub active_filter: Option<Seq<char>>,
}

impl View for App {
    type V = AppView;

    open spec fn view(&self) -> AppView {
        AppView {
            writer_dirty: self.writer_dirty,
            search_input: self.search_input@,
            search_pending: self.search_pending,
            results: rows_view(self.results@),
            selected: self.selected as nat,
            list_offset: self.list_offset as nat,
            preview: opt_view(self.preview),
            preview_offset: self.preview_offset,
            preview_visible: self.preview_visible,
            input_mode: self.input_mode,
            tag_input: self.tag_input@,
            show_help: self.show_help,
            status_message: opt_view(self.status_message),
            explain_text: opt_view(self.explain_text),
            parsed_query: opt_view(self.parsed_query),
            query_error: opt_view(self.query_error),
            query_history: views(self.query_history@),
            history_index: match self.history_index {
                Some(i) => Some(i as nat),
                None => None,
            },
            show_query_help: self.show_query_help,
            focus: self.focus,
            filter_items: item_views(self.filter_items@),
            filter_selected: self.filter_selected as nat,
            filter_offset: self.filter_offset as nat,
            active_filter: opt_view(self.active_filter),
        }
    }
}

// ── The steps, as specifications ────────────────────────────────────────────

pub open spec fn sat_sub(a: nat, b: nat) -> nat {
    if b >= a {
        0
    } else {
        (a - b) as nat
    }
}

pub open spec fn min_nat(a: nat, b: nat) -> nat {
    if a < b {
        a
    } else {
        b
    }
}

/// The offset that keeps position `sel` inside a window of `h` rows.
pub open spec fn scrolled(sel: nat, off: nat, h: nat) -> nat {
    if sel < off {
        sel
    } else if sel >= off + h {
        (sel - h + 1) as nat
    } else {
        off
    }
}

pub open spec fn next_focus(f: Focus) -> Focus {
    match f {
        Focus::Search => Focus::Filter,
        Focus::Filter => Focus::List,
        Focus::List => Focus::Search,
    }
}

pub open spec fn moved_down(s: AppView, h: nat) -> AppView {
    if s.selected + 1 < s.results.len() {
        AppView {
            selected: s.selected + 1,
            list_offset: scrolled(s.selected + 1, s.list_offset, h),
            ..s
        }
    } else {
        s
    }
}

pub open spec fn moved_up(s: AppView, h: nat) -> AppView {
    if s.selected > 0 {
        AppView {
            selected: (s.selected - 1) as nat,
            list_offset: scrolled((s.selected - 1) as nat, s.list_offset, h),
            ..s
        }
    } else {
        s
    }
}

pub open spec fn paged_down(s: AppView, page: nat) -> AppView {
    let max = sat_sub(s.results.len(), 1);
    AppView { selected: min_nat(s.selected + page, max), list_offset: min_nat(s.list_offset + page, max), ..s }
}

pub open spec fn paged_up(s: AppView, page: nat) -> AppView {
    AppView { selected: sat_sub(s.selected, page), list_offset: sat_sub(s.list_offset, page), ..s }
}

pub open spec fn homed(s: AppView) -> AppView {
    AppView { selected: 0, list_offset: 0, ..s }
}

pub open spec fn ended(s: AppView, h: nat) -> AppView {
    let last = sat_sub(s.results.len(), 1);
    AppView { selected: last, list_offset: sat_sub(last, h), ..s }
}

/// After the selection moved: load the preview when it is shown, else drop
/// it.
pub open spec fn refreshed(s: AppView) -> (AppView, EffectView) {
    if s.preview_visible {
        (s, EffectView::LoadPreview)
    } else {
        (AppView { preview: None, ..s }, EffectView::Nothing)
    }
}

/// The query history after the search text is saved: blank and repeated
/// queries are not saved; the oldest is dropped beyond the limit.
pub open spec fn history_pushed(s: AppView) -> AppView {
    let q = trim(s.search_input);
    if q.len() == 0 {
        s
    } else if s.query_history.len() > 0 && s.query_history.last() == q {
        s
    } else {
        let h1 = s.query_history.push(q);
        let h2 = if h1.len() > HISTORY_LIMIT {
            h1.drop_first()
        } else {
            h1
        };
        AppView { query_history: h2, history_index: None, ..s }
    }
}

/// One step back in the history: the previous query becomes the search
/// text and is searched.
pub open spec fn history_back(s: AppView) -> (AppView, EffectView) {
    if s.query_history.len() == 0 {
        (s, EffectView::Nothing)
    } else {
        let idx: Option<nat> = match s.history_index {
            None => Some((s.query_history.len() - 1) as nat),
            Some(i) => if i > 0 {
                Some((i - 1) as nat)
            } else {
                None
            },
        };
        match idx {
            None => (s, EffectView::Nothing),
            Some(i) => (
                AppView {
                    history_index: Some(i),
                    search_input: s.query_history[i as int],
                    query_error: None,
                    parsed_query: None,
                    search_pending: false,
                    ..s
                },
                EffectView::Search,
            ),
        }
    }
}

/// The selected row, if there is one.
pub open spec fn selected_row(s: AppView) -> Option<RowView> {
    if s.selected < s.results.len() {
        Some(s.results[s.selected as int])
    } else {
        None
    }
}

/// Rewrites the selected row with new tags when it has a file; otherwise
/// there is nothing to rewrite and the status is set at once.
pub open spec fn plan_edit(s: AppView, tags: Seq<Seq<char>>, status: Seq<char>) -> (AppView, EffectView) {
    match selected_row(s) {
        Some(r) => if r.path.len() > 0 {
            (s, EffectView::RewriteTags(s.selected, tags, status))
        } else {
            (AppView { status_message: Some(status), ..s }, EffectView::Nothing)
        },
        None => (AppView { status_message: Some(status), ..s }, EffectView::Nothing),
    }
}

pub open spec fn row_tags(s: AppView) -> Seq<Seq<char>> {
    match selected_row(s) {
        Some(r) => r.tags,
        None => Seq::empty(),
    }
}

/// Adding or removing a tag typed in the prompt: blank does nothing, an
/// invalid tag is refused in the status bar.
pub open spec fn tag_applied(s: AppView, add: bool, tag: Seq<char>) -> (AppView, EffectView) {
    let t = trim(tag);
    if t.len() == 0 {
        (s, EffectView::Nothing)
    } else {
        match tag_error(t) {
            Some(e) => (AppView { status_message: Some("⛔ "@ + e), ..s }, EffectView::Nothing),
            None => {
                let status = (if add {
                    "✓ Added tag '"@
                } else {
                    "✓ Removed tag '"@
                }) + t + "'"@;
                let tags = if add {
                    with_tag(row_tags(s), t)
                } else {
                    without_tag(row_tags(s), t)
                };
                plan_edit(s, tags, status)
            },
        }
    }
}

pub open spec fn read_toggled(s: AppView) -> (AppView, EffectView) {
    if row_tags(s).contains("unread"@) {
        plan_edit(s, without_tag(row_tags(s), "unread"@), "✓ Marked as read"@)
    } else {
        plan_edit(s, with_tag(row_tags(s), "unread"@), "✓ Marked as unread"@)
    }
}

pub open spec fn archived(s: AppView) -> (AppView, EffectView) {
    if selected_row(s) is Some && row_tags(s).contains("archive"@) {
        (AppView { status_message: Some("Already archived"@), ..s }, EffectView::Nothing)
    } else {
        plan_edit(
            s,
            with_tag(without_tag(without_tag(row_tags(s), "inbox"@), "unread"@), "archive"@),
            "✓ Archived"@,
        )
    }
}

pub open spec fn yanked(s: AppView) -> AppView {
    match selected_row(s) {
        Some(r) => AppView {
            status_message: Some(
                "📋 Yanked: "@ + (if r.message_id.len() == 0 {
                    r.path
                } else {
                    r.message_id
                }),
            ),
            ..s
        },
        None => s,
    }
}

pub open spec fn explain_toggled(s: AppView) -> (AppView, EffectView) {
    if s.explain_text is Some {
        (AppView { explain_text: None, ..s }, EffectView::Nothing)
    } else {
        match selected_row(s) {
            None => (s, EffectView::Nothing),
            Some(r) => if r.path.len() == 0 {
                (AppView { explain_text: Some("(no file path)"@), ..s }, EffectView::Nothing)
            } else {
                (s, EffectView::Explain(r.path))
            },
        }
    }
}

pub open spec fn pager_target(s: AppView) -> Option<Seq<char>> {
    match selected_row(s) {
        Some(r) => if r.path.len() > 0 {
            Some(r.path)
        } else {
            None
        },
        None => None,
    }
}

pub open spec fn preview_toggled(s: AppView) -> (AppView, EffectView) {
    let s1 = AppView { preview_visible: !s.preview_visible, ..s };
    if s1.preview_visible {
        (s1, EffectView::LoadPreview)
    } else {
        (s1, EffectView::Nothing)
    }
}

/// Enter on a filter item: a tag toggles that filter, anything else clears
/// the filter; then search.
pub open spec fn filter_applied(s: AppView) -> (AppView, EffectView) {
    if s.filter_selected < s.filter_items.len() {
        let af = match s.filter_items[s.filter_selected as int].1 {
            Some(tv) => if s.active_filter == Some(tv) {
                None
            } else {
                Some(tv)
            },
            None => None,
        };
        (AppView { active_filter: af, search_pending: false, ..s }, EffectView::Search)
    } else {
        (s, EffectView::Nothing)
    }
}

pub open spec fn filter_cleared(s: AppView) -> (AppView, EffectView) {
    (AppView { active_filter: None, search_pending: false, ..s }, EffectView::Search)
}

/// A key while the tag prompt is open.
pub open spec fn prompt_key(s: AppView, k: Key) -> (AppView, EffectView) {
    match k {
        Key::Char(c) => (AppView { tag_input: s.tag_input.push(c), ..s }, EffectView::Nothing),
        Key::Backspace => (AppView {
            tag_input: if s.tag_input.len() > 0 {
                s.tag_input.drop_last()
            } else {
                s.tag_input
            },
            ..s
        }, EffectView::Nothing),
        Key::Enter => {
            let s1 = AppView { input_mode: InputMode::Normal, tag_input: Seq::empty(), ..s };
            tag_applied(s1, s.input_mode == InputMode::AddTag, s.tag_input)
        },
        Key::Esc => (AppView { input_mode: InputMode::Normal, tag_input: Seq::empty(), ..s }, EffectView::Nothing),
        _ => (s, EffectView::Nothing),
    }
}

/// Keys in the filter pane.
pub open spec fn filter_key(s: AppView, k: Key, visible: nat) -> (AppView, EffectView) {
    if k == Key::Char('j') || k == Key::Down {
        if s.filter_selected + 1 < s.filter_items.len() {
            (AppView {
                filter_selected: s.filter_selected + 1,
                filter_offset: scrolled(s.filter_selected + 1, s.filter_offset, visible),
                ..s
            }, EffectView::Nothing)
        } else {
            (s, EffectView::Nothing)
        }
    } else if k == Key::Char('k') || k == Key::Up {
        if s.filter_selected > 0 {
            (AppView {
                filter_selected: (s.filter_selected - 1) as nat,
                filter_offset: scrolled((s.filter_selected - 1) as nat, s.filter_offset, visible),
                ..s
            }, EffectView::Nothing)
        } else {
            (s, EffectView::Nothing)
        }
    } else if k == Key::Enter {
        filter_applied(s)
    } else if k == Key::Esc {
        filter_cleared(s)
    } else {
        (s, EffectView::Nothing)
    }
}

/// Keys in the search bar.
/// The Ctrl chords that act on the selected message: tag, untag, read,
/// archive, yank, pager, preview, explain. They work from the search bar as
/// from the list.
pub open spec fn is_action_chord(k: Key) -> bool {
    k == Key::Char('t') || k == Key::Char('r') || k == Key::Char('d') || k == Key::Char('a') || k
        == Key::Char('y') || k == Key::Char('o') || k == Key::Char('e') || k == Key::Char('x')
}

pub open spec fn search_key(s: AppView, k: Key, m: Mods, h: nat) -> (AppView, EffectView) {
    let ctrl = m == Mods::Ctrl;
    if k is Char && m == Mods::Plain {
        if k->0 == '?' {
            (AppView { show_help: true, ..s }, EffectView::Nothing)
        } else {
            (AppView { search_input: s.search_input.push(k->0), search_pending: true, ..s }, EffectView::RestartDebounce)
        }
    } else if k == Key::Enter {
        (AppView { search_pending: false, ..history_pushed(s) }, EffectView::Search)
    } else if k == Key::Backspace {
        (AppView {
            search_input: if s.search_input.len() > 0 {
                s.search_input.drop_last()
            } else {
                s.search_input
            },
            search_pending: true,
            ..s
        }, EffectView::RestartDebounce)
    } else if k == Key::Esc {
        if s.search_input.len() > 0 {
            (AppView { search_input: Seq::empty(), query_error: None, parsed_query: None, ..s }, EffectView::Search)
        } else {
            (s, EffectView::Nothing)
        }
    } else if k == Key::Up || k == Key::Char('k') {
        refreshed(moved_up(s, h))
    } else if k == Key::Down || k == Key::Char('j') {
        refreshed(moved_down(s, h))
    } else if ctrl && (k == Key::PageUp || k == Key::Char('b')) {
        refreshed(paged_up(s, h))
    } else if ctrl && (k == Key::PageDown || k == Key::Char('f')) {
        refreshed(paged_down(s, h))
    } else if k == Key::Home {
        refreshed(homed(s))
    } else if k == Key::End {
        refreshed(ended(s, h))
    } else if ctrl && k == Key::Char('h') {
        history_back(s)
    } else if ctrl && k == Key::Char('g') {
        (AppView { show_query_help: true, ..s }, EffectView::Nothing)
    } else if ctrl && is_action_chord(k) {
        list_key(s, k, m, h)
    } else {
        (s, EffectView::Nothing)
    }
}

/// Keys in the message list.
pub open spec fn list_key(s: AppView, k: Key, m: Mods, h: nat) -> (AppView, EffectView) {
    let nav = m == Mods::Ctrl || m == Mods::Plain;
    let ctrl = m == Mods::Ctrl;
    if nav && (k == Key::Char('j') || k == Key::Char('n') || k == Key::Down) {
        refreshed(moved_down(s, h))
    } else if nav && (k == Key::Char('k') || k == Key::Up) {
        refreshed(moved_up(s, h))
    } else if ctrl && (k == Key::Char('f') || k == Key::PageDown) {
        refreshed(paged_down(s, h))
    } else if ctrl && (k == Key::Char('b') || k == Key::PageUp) {
        refreshed(paged_up(s, h))
    } else if k == Key::Home {
        refreshed(homed(s))
    } else if k == Key::End {
        refreshed(ended(s, h))
    } else if ctrl && k == Key::Char('t') {
        (AppView { input_mode: InputMode::AddTag, tag_input: Seq::empty(), ..s }, EffectView::Nothing)
    } else if ctrl && k == Key::Char('r') {
        if row_tags(s).len() > 0 {
            (AppView { input_mode: InputMode::RemoveTag, tag_input: Seq::empty(), ..s }, EffectView::Nothing)
        } else {
            (s, EffectView::Nothing)
        }
    } else if ctrl && k == Key::Char('d') {
        read_toggled(s)
    } else if ctrl && k == Key::Char('a') {
        archived(s)
    } else if ctrl && k == Key::Char('y') {
        (yanked(s), EffectView::Nothing)
    } else if ctrl && k == Key::Char('o') {
        (s, EffectView::OpenPager(pager_target(s)))
    } else if ctrl && k == Key::Char('e') {
        preview_toggled(s)
    } else if ctrl && k == Key::Char('x') {
        explain_toggled(s)
    } else if ctrl && k == Key::Char('g') {
        (AppView { show_query_help: true, ..s }, EffectView::Nothing)
    } else if ctrl && k == Key::Char('h') {
        history_back(s)
    } else {
        (s, EffectView::Nothing)
    }
}

/// One key: the tag prompt first, then any overlay (which the key closes),
/// then Ctrl-q and Tab, then the focused pane.
pub open spec fn key_step(s: AppView, k: Key, m: Mods, h: nat, visible: nat) -> (AppView, EffectView) {
    if s.input_mode != InputMode::Normal {
        prompt_key(s, k)
    } else if s.show_help || s.show_query_help || s.explain_text is Some {
        (AppView { show_help: false, show_query_help: false, explain_text: None, ..s }, EffectView::Nothing)
    } else if k == Key::Char('q') && m == Mods::Ctrl {
        (s, EffectView::Quit)
    } else if k == Key::Tab {
        (AppView { focus: next_focus(s.focus), ..s }, EffectView::Nothing)
    } else {
        match s.focus {
            Focus::Filter => filter_key(s, k, visible),
            Focus::Search => search_key(s, k, m, h),
            Focus::List => list_key(s, k, m, h),
        }
    }
}

// ── Text edits ──────────────────────────────────────────────────────────────

/// Removes the last character, if any (`String::pop`).
fn pop_char(s: &mut String)
    ensures
        final(s)@ == if old(s)@.len() > 0 {
            old(s)@.drop_last()
        } else {
            old(s)@
        },
{
    let v = chars_of(s.as_str());
    if v.len() > 0 {
        let w = sub_chars(&v, 0, v.len() - 1);
        *s = string_of(&w);
    }
}

fn some_string(s: &str) -> (r: Option<String>)
    ensures
        opt_view(r) == Some(s@),
{
    Some(String::from_str(s))
}

// ── The state, executable ───────────────────────────────────────────────────

impl App {
    /// The bounds the interface keeps: a capped result list, and the
    /// selection and scroll position near it.
    pub open spec fn wf(&self) -> bool {
        &&& self.results@.len() <= MAX_SEARCH_RESULTS
        &&& self.selected <= MAX_SEARCH_RESULTS
        &&& self.list_offset <= MAX_SEARCH_RESULTS + 1
        &&& (self.filter_selected < self.filter_items@.len() || self.filter_selected == 0)
        &&& match self.history_index {
            Some(i) => i < self.query_history@.len(),
            None => true,
        }
    }

    /// A fresh interface: empty search, preview shown, focus on the search
    /// bar.
    pub fn new() -> (r: App)
        ensures
            r.wf(),
            r@ == (AppView {
                writer_dirty: false,
                search_input: Seq::empty(),
                search_pending: false,
                results: Seq::empty(),
                selected: 0,
                list_offset: 0,
                preview: None,
                preview_offset: 0,
                preview_visible: true,
                input_mode: InputMode::Normal,
                tag_input: Seq::empty(),
                show_help: false,
                status_message: None,
                explain_text: None,
                parsed_query: None,
                query_error: None,
                query_history: Seq::empty(),
                history_index: None,
                show_query_help: false,
                focus: Focus::Search,
                filter_items: Seq::empty(),
                filter_selected: 0,
                filter_offset: 0,
                active_filter: None,
            }),
    {
        let r = App {
            writer_dirty: false,
            search_input: String::new(),
            search_pending: false,
            results: Vec::new(),
            selected: 0,
            list_offset: 0,
            preview: None,
            preview_offset: 0,
            preview_visible: true,
            input_mode: InputMode::Normal,
            tag_input: String::new(),
            show_help: false,
            status_message: None,
            explain_text: None,
            parsed_query: None,
            query_error: None,
            query_history: Vec::new(),
            history_index: None,
            show_query_help: false,
            focus: Focus::Search,
            filter_items: Vec::new(),
            filter_selected: 0,
            filter_offset: 0,
            active_filter: None,
        };
        assert(r@.results =~= Seq::<RowView>::empty());
        assert(r@.query_history =~= Seq::<Seq<char>>::empty());
        assert(r@.filter_items =~= Seq::<(Seq<char>, Option<Seq<char>>, nat)>::empty());
        r
    }

    /// Rebuilds the filter tree from the configuration.
    pub fn refresh_filter_items(&mut self, config: &HamsterConfig)
        requires
            old(self).wf(),
        ensures
            final(self).wf(),
            final(self)@ == (AppView {
                filter_items: filter_layout(config.folder_tags),
                filter_selected: 0,
                ..old(self)@
            }),
    {
        self.filter_items = build_filter_items(config);
        self.filter_selected = 0;
    }

    /// Keeps the selected filter item in a window of `max_visible` lines.
    pub fn scroll_filter_into_view(&mut self, max_visible: usize)
        requires
            old(self).filter_offset + max_visible <= usize::MAX,
            old(self).filter_selected < usize::MAX,
        ensures
            final(self)@ == (AppView {
                filter_offset: scrolled(old(self)@.filter_selected, old(self)@.filter_offset, max_visible as nat),
                ..old(self)@
            }),
            final(self).wf() == old(self).wf(),
    {
        if self.filter_selected < self.filter_offset {
            self.filter_offset = self.filter_selected;
        } else if self.filter_selected >= self.filter_offset + max_visible {
            self.filter_offset = self.filter_selected - max_visible + 1;
        }
    }

    pub fn cycle_focus(&mut self)
        ensures
            final(self)@ == (AppView { focus: next_focus(old(self)@.focus), ..old(self)@ }),
            final(self).wf() == old(self).wf(),
    {
        self.focus = match self.focus {
            Focus::Search => Focus::Filter,
            Focus::Filter => Focus::List,
            Focus::List => Focus::Search,
        };
    }

    /// Keeps the selected row in a window of `list_height` rows.
    pub fn adjust_offset(&mut self, list_height: usize)
        requires
            old(self).wf(),
            list_height <= 65535,
        ensures
            final(self)@ == (AppView {
                list_offset: scrolled(old(self)@.selected, old(self)@.list_offset, list_height as nat),
                ..old(self)@
            }),
            final(self).wf(),
    {
        if self.selected < self.list_offset {
            self.list_offset = self.selected;
        } else if self.selected >= self.list_offset + list_height {
            self.list_offset = self.selected - list_height + 1;
        }
    }

    pub fn move_down(&mut self, list_height: usize)
        requires
            old(self).wf(),
            list_height <= 65535,
        ensures
            final(self)@ == moved_down(old(self)@, list_height as nat),
            final(self).wf(),
    {
        if self.selected + 1 < self.results.len() {
            self.selected += 1;
            self.adjust_offset(list_height);
        }
    }

    pub fn move_up(&mut self, list_height: usize)
        requires
            old(self).wf(),
            list_height <= 65535,
        ensures
            final(self)@ == moved_up(old(self)@, list_height as nat),
            final(self).wf(),
    {
        if self.selected > 0 {
            self.selected -= 1;
            self.adjust_offset(list_height);
        }
    }

    fn page_down(&mut self, page: usize)
        requires
            old(self).wf(),
            page <= 65535,
        ensures
            final(self)@ == paged_down(old(self)@, page as nat),
            final(self).wf(),
    {
        let max: usize = if self.results.len() >= 1 {
            self.results.len() - 1
        } else {
            0
        };
        let a = self.selected + page;
        self.selected = if a < max {
            a
        } else {
            max
        };
        let b = self.list_offset + page;
        self.list_offset = if b < max {
            b
        } else {
            max
        };
    }

    fn page_up(&mut self, page: usize)
        requires
            old(self).wf(),
        ensures
            final(self)@ == paged_up(old(self)@, page as nat),
            final(self).wf(),
    {
        self.selected = if page >= self.selected {
            0
        } else {
            self.selected - page
        };
        self.list_offset = if page >= self.list_offset {
            0
        } else {
            self.list_offset - page
        };
    }

    fn go_home(&mut self)
        requires
            old(self).wf(),
        ensures
            final(self)@ == homed(old(self)@),
            final(self).wf(),
    {
        self.selected = 0;
        self.list_offset = 0;
    }

    fn go_end(&mut self, list_height: usize)
        requires
            old(self).wf(),
        ensures
            final(self)@ == ended(old(self)@, list_height as nat),
            final(self).wf(),
    {
        let last: usize = if self.results.len() >= 1 {
            self.results.len() - 1
        } else {
            0
        };
        self.selected = last;
        self.list_offset = if list_height >= last {
            0
        } else {
            last - list_height
        };
    }

    /// After the selection moved: ask for the preview when it is shown,
    /// else drop it.
    pub fn refresh_preview(&mut self) -> (r: Effect)
        ensures
            (final(self)@, effect_view(r)) == refreshed(old(self)@),
            final(self).wf() == old(self).wf(),
    {
        if self.preview_visible {
            Effect::LoadPreview
        } else {
            self.preview = None;
            Effect::Nothing
        }
    }

    /// Saves the search text in the history.
    pub fn push_to_history(&mut self)
        ensures
            final(self)@ == history_pushed(old(self)@),
            old(self).wf() ==> final(self).wf(),
    {
        let q = trim_str(self.search_input.as_str());
        if chars_of(q.as_str()).len() == 0 {
            return;
        }
        let n = self.query_history.len();
        if n > 0 && str_eq(self.query_history[n - 1].as_str(), q.as_str()) {
            assert(views(self.query_history@).last() == q@);
            return;
        }
        let ghost before = views(self.query_history@);
        self.query_history.push(q);
        assert(views(self.query_history@) =~= before.push(trim(old(self)@.search_input)));
        if self.query_history.len() > HISTORY_LIMIT {
            let ghost mid = self.query_history@;
            self.query_history.remove(0);
            assert(views(self.query_history@) =~= views(mid).drop_first());
        }
        self.history_index = None;
    }

    /// One step back in the history.
    pub fn history_backward(&mut self) -> (r: Effect)
        requires
            old(self).wf(),
        ensures
            (final(self)@, effect_view(r)) == history_back(old(self)@),
            final(self).wf() == old(self).wf(),
    {
        if self.query_history.len() == 0 {
            return Effect::Nothing;
        }
        let idx: usize = match self.history_index {
            None => self.query_history.len() - 1,
            Some(i) => {
                if i > 0 {
                    i - 1
                } else {
                    return Effect::Nothing;
                }
            },
        };
        self.history_index = Some(idx);
        self.search_input = self.query_history[idx].clone();
        self.query_error = None;
        self.parsed_query = None;
        self.search_pending = false;
        Effect::Search
    }
}

impl App {
    /// The tags of the selected row, or none.
    fn selected_tags(&self) -> (r: Vec<String>)
        ensures
            views(r@) == row_tags(self@),
    {
        if self.selected < self.results.len() {
            clone_strings(&self.results[self.selected].tags)
        } else {
            Vec::new()
        }
    }

    /// Rewrites the selected row with new tags when it has a file;
    /// otherwise sets the status at once.
    fn plan_edit(&mut self, tags: Vec<String>, status: String) -> (r: Effect)
        ensures
            (final(self)@, effect_view(r)) == plan_edit(old(self)@, views(tags@), status@),
            final(self).wf() == old(self).wf(),
    {
        if self.selected < self.results.len() && chars_of(self.results[self.selected].path.as_str()).len()
            > 0 {
            Effect::RewriteTags(self.selected, tags, status)
        } else {
            self.status_message = Some(status);
            Effect::Nothing
        }
    }

    /// Adds or removes a tag on the selected message.
    pub fn apply_tag(&mut self, add: bool, tag: &str) -> (r: Effect)
        ensures
            (final(self)@, effect_view(r)) == tag_applied(old(self)@, add, tag@),
            final(self).wf() == old(self).wf(),
    {
        let t = trim_str(tag);
        if chars_of(t.as_str()).len() == 0 {
            return Effect::Nothing;
        }
        match validate_tag(t.as_str()) {
            Err(e) => {
                self.status_message = Some(concat_str("⛔ ", e.as_str()));
                Effect::Nothing
            },
            Ok(()) => {
                let head = if add {
                    concat_str("✓ Added tag '", t.as_str())
                } else {
                    concat_str("✓ Removed tag '", t.as_str())
                };
                let status = concat_str(head.as_str(), "'");
                let mut tags = self.selected_tags();
                if add {
                    add_tag(&mut tags, t.as_str());
                } else {
                    remove_tag(&mut tags, t.as_str());
                }
                self.plan_edit(tags, status)
            },
        }
    }

    /// Marks the selected message read when it is unread, unread otherwise.
    pub fn toggle_read_status(&mut self) -> (r: Effect)
        ensures
            (final(self)@, effect_view(r)) == read_toggled(old(self)@),
            final(self).wf() == old(self).wf(),
    {
        let mut tags = self.selected_tags();
        let has_unread = contains_tag(&tags, "unread");
        if has_unread {
            remove_tag(&mut tags, "unread");
            self.plan_edit(tags, String::from_str("✓ Marked as read"))
        } else {
            add_tag(&mut tags, "unread");
            self.plan_edit(tags, String::from_str("✓ Marked as unread"))
        }
    }

    /// Archives the selected message: `archive` added, `inbox` and `unread`
    /// removed.
    pub fn archive_message(&mut self) -> (r: Effect)
        ensures
            (final(self)@, effect_view(r)) == archived(old(self)@),
            final(self).wf() == old(self).wf(),
    {
        let mut tags = self.selected_tags();
        let already = self.selected < self.results.len() && contains_tag(&tags, "archive");
        if already {
            self.status_message = some_string("Already archived");
            return Effect::Nothing;
        }
        remove_tag(&mut tags, "inbox");
        remove_tag(&mut tags, "unread");
        add_tag(&mut tags, "archive");
        self.plan_edit(tags, String::from_str("✓ Archived"))
    }

    /// Shows the selected message's id (or path) in the status bar.
    pub fn yank_message_id(&mut self)
        ensures
            final(self)@ == yanked(old(self)@),
            final(self).wf() == old(self).wf(),
    {
        if self.selected < self.results.len() {
            let row = &self.results[self.selected];
            let id = if chars_of(row.message_id.as_str()).len() == 0 {
                row.path.as_str()
            } else {
                row.message_id.as_str()
            };
            self.status_message = Some(concat_str("📋 Yanked: ", id));
        }
    }

    /// Closes the explain panel, or asks for the explanation of the
    /// selected message.
    pub fn toggle_explain(&mut self) -> (r: Effect)
        ensures
            (final(self)@, effect_view(r)) == explain_toggled(old(self)@),
            final(self).wf() == old(self).wf(),
    {
        if self.explain_text.is_some() {
            self.explain_text = None;
            return Effect::Nothing;
        }
        if self.selected >= self.results.len() {
            return Effect::Nothing;
        }
        let path = self.results[self.selected].path.clone();
        if chars_of(path.as_str()).len() == 0 {
            self.explain_text = some_string("(no file path)");
            Effect::Nothing
        } else {
            Effect::Explain(path)
        }
    }

    /// The file the pager should open: the selected message's, if it has
    /// one.
    pub fn pager_path(&self) -> (r: Option<String>)
        ensures
            opt_view(r) == pager_target(self@),
    {
        if self.selected < self.results.len() && chars_of(self.results[self.selected].path.as_str()).len()
            > 0 {
            Some(self.results[self.selected].path.clone())
        } else {
            None
        }
    }

    /// Shows or hides the preview pane.
    pub fn toggle_preview_visibility(&mut self) -> (r: Effect)
        ensures
            (final(self)@, effect_view(r)) == preview_toggled(old(self)@),
            final(self).wf() == old(self).wf(),
    {
        self.preview_visible = !self.preview_visible;
        if self.preview_visible {
            Effect::LoadPreview
        } else {
            Effect::Nothing
        }
    }

    /// Enter in the filter pane.
    pub fn apply_filter_from_index(&mut self) -> (r: Effect)
        ensures
            (final(self)@, effect_view(r)) == filter_applied(old(self)@),
            final(self).wf() == old(self).wf(),
    {
        if self.filter_selected < self.filter_items.len() {
            let af = match &self.filter_items[self.filter_selected].tag_value {
                Some(tv) => {
                    let same = match &self.active_filter {
                        Some(a) => str_eq(a.as_str(), tv.as_str()),
                        None => false,
                    };
                    if same {
                        None
                    } else {
                        Some(tv.clone())
                    }
                },
                None => None,
            };
            self.active_filter = af;
            self.search_pending = false;
            Effect::Search
        } else {
            Effect::Nothing
        }
    }

    /// Esc in the filter pane.
    pub fn clear_filter(&mut self) -> (r: Effect)
        ensures
            (final(self)@, effect_view(r)) == filter_cleared(old(self)@),
            final(self).wf() == old(self).wf(),
    {
        self.active_filter = None;
        self.search_pending = false;
        Effect::Search
    }
}

/// Whether a tag list holds a tag.
fn contains_tag(tags: &Vec<String>, t: &str) -> (r: bool)
    ensures
        r == views(tags@).contains(t@),
{
    let mut i: usize = 0;
    while i < tags.len()
        invariant
            i <= tags@.len(),
            forall|k: int| 0 <= k < i ==> (#[trigger] tags@[k])@ != t@,
        decreases tags.len() - i,
    {
        if str_eq(tags[i].as_str(), t) {
            assert(views(tags@)[i as int] == t@);
            return true;
        }
        i += 1;
    }
    assert(!views(tags@).contains(t@)) by {
        if views(tags@).contains(t@) {
            let k = choose|k: int| 0 <= k < views(tags@).len() && views(tags@)[k] == t@;
            assert(tags@[k]@ == t@);
        }
    }
    false
}

impl App {
    fn prompt_key(&mut self, key: Key) -> (r: Effect)
        requires
            old(self).input_mode != InputMode::Normal,
        ensures
            (final(self)@, effect_view(r)) == prompt_key(old(self)@, key),
            final(self).wf() == old(self).wf(),
    {
        match key {
            Key::Char(c) => {
                push_char(&mut self.tag_input, c);
                Effect::Nothing
            },
            Key::Backspace => {
                pop_char(&mut self.tag_input);
                Effect::Nothing
            },
            Key::Enter => {
                let tag = self.tag_input.clone();
                let add = self.input_mode == InputMode::AddTag;
                self.input_mode = InputMode::Normal;
                self.tag_input = String::new();
                self.apply_tag(add, tag.as_str())
            },
            Key::Esc => {
                self.input_mode = InputMode::Normal;
                self.tag_input = String::new();
                Effect::Nothing
            },
            _ => Effect::Nothing,
        }
    }

    fn filter_key(&mut self, key: Key, visible: usize) -> (r: Effect)
        requires
            old(self).wf(),
            old(self).filter_offset + visible <= usize::MAX,
        ensures
            (final(self)@, effect_view(r)) == filter_key(old(self)@, key, visible as nat),
            final(self).wf(),
    {
        if key == Key::Char('j') || key == Key::Down {
            let n = self.filter_items.len();
            if self.filter_selected + 1 < n {
                self.filter_selected += 1;
                self.scroll_filter_into_view(visible);
            }
            Effect::Nothing
        } else if key == Key::Char('k') || key == Key::Up {
            if self.filter_selected > 0 {
                self.filter_selected -= 1;
                self.scroll_filter_into_view(visible);
            }
            Effect::Nothing
        } else if key == Key::Enter {
            self.apply_filter_from_index()
        } else if key == Key::Esc {
            self.clear_filter()
        } else {
            Effect::Nothing
        }
    }

    fn nav(&mut self, kind: u8, h: usize) -> (r: Effect)
        requires
            old(self).wf(),
            h <= 65535,
            kind < 6,
        ensures
            (final(self)@, effect_view(r)) == refreshed(
                if kind == 0 {
                    moved_up(old(self)@, h as nat)
                } else if kind == 1 {
                    moved_down(old(self)@, h as nat)
                } else if kind == 2 {
                    paged_up(old(self)@, h as nat)
                } else if kind == 3 {
                    paged_down(old(self)@, h as nat)
                } else if kind == 4 {
                    homed(old(self)@)
                } else {
                    ended(old(self)@, h as nat)
                },
            ),
            final(self).wf(),
    {
        if kind == 0 {
            self.move_up(h);
        } else if kind == 1 {
            self.move_down(h);
        } else if kind == 2 {
            self.page_up(h);
        } else if kind == 3 {
            self.page_down(h);
        } else if kind == 4 {
            self.go_home();
        } else {
            self.go_end(h);
        }
        self.refresh_preview()
    }

    fn search_key(&mut self, key: Key, mods: Mods, h: usize) -> (r: Effect)
        requires
            old(self).wf(),
            h <= 65535,
        ensures
            (final(self)@, effect_view(r)) == search_key(old(self)@, key, mods, h as nat),
            final(self).wf(),
    {
        let ctrl = mods == Mods::Ctrl;
        if let Key::Char(c) = key {
            if mods == Mods::Plain {
                if c == '?' {
                    self.show_help = true;
                    return Effect::Nothing;
                } else {
                    push_char(&mut self.search_input, c);
                    self.search_pending = true;
                    return Effect::RestartDebounce;
                }
            }
        }
        if key == Key::Enter {
            self.push_to_history();
            self.search_pending = false;
            Effect::Search
        } else if key == Key::Backspace {
            pop_char(&mut self.search_input);
            self.search_pending = true;
            Effect::RestartDebounce
        } else if key == Key::Esc {
            if chars_of(self.search_input.as_str()).len() > 0 {
                self.search_input = String::new();
                self.query_error = None;
                self.parsed_query = None;
                Effect::Search
            } else {
                Effect::Nothing
            }
        } else if key == Key::Up || key == Key::Char('k') {
            self.nav(0, h)
        } else if key == Key::Down || key == Key::Char('j') {
            self.nav(1, h)
        } else if ctrl && (key == Key::PageUp || key == Key::Char('b')) {
            self.nav(2, h)
        } else if ctrl && (key == Key::PageDown || key == Key::Char('f')) {
            self.nav(3, h)
        } else if key == Key::Home {
            self.nav(4, h)
        } else if key == Key::End {
            self.nav(5, h)
        } else if ctrl && key == Key::Char('h') {
            self.history_backward()
        } else if ctrl && key == Key::Char('g') {
            self.show_query_help = true;
            Effect::Nothing
        } else if ctrl && (key == Key::Char('t') || key == Key::Char('r') || key == Key::Char('d')
            || key == Key::Char('a') || key == Key::Char('y') || key == Key::Char('o') || key
            == Key::Char('e') || key == Key::Char('x')) {
            self.list_key(key, mods, h)
        } else {
            Effect::Nothing
        }
    }

    fn list_key(&mut self, key: Key, mods: Mods, h: usize) -> (r: Effect)
        requires
            old(self).wf(),
            h <= 65535,
        ensures
            (final(self)@, effect_view(r)) == list_key(old(self)@, key, mods, h as nat),
            final(self).wf(),
    {
        let nav = mods == Mods::Ctrl || mods == Mods::Plain;
        let ctrl = mods == Mods::Ctrl;
        if nav && (key == Key::Char('j') || key == Key::Char('n') || key == Key::Down) {
            self.nav(1, h)
        } else if nav && (key == Key::Char('k') || key == Key::Up) {
            self.nav(0, h)
        } else if ctrl && (key == Key::Char('f') || key == Key::PageDown) {
            self.nav(3, h)
        } else if ctrl && (key == Key::Char('b') || key == Key::PageUp) {
            self.nav(2, h)
        } else if key == Key::Home {
            self.nav(4, h)
        } else if key == Key::End {
            self.nav(5, h)
        } else if ctrl && key == Key::Char('t') {
            self.input_mode = InputMode::AddTag;
            self.tag_input = String::new();
            Effect::Nothing
        } else if ctrl && key == Key::Char('r') {
            let has_tags = self.selected < self.results.len() && self.results[self.selected].tags.len() > 0;
            if has_tags {
                self.input_mode = InputMode::RemoveTag;
                self.tag_input = String::new();
            }
            Effect::Nothing
        } else if ctrl && key == Key::Char('d') {
            self.toggle_read_status()
        } else if ctrl && key == Key::Char('a') {
            self.archive_message()
        } else if ctrl && key == Key::Char('y') {
            self.yank_message_id();
            Effect::Nothing
        } else if ctrl && key == Key::Char('o') {
            Effect::OpenPager(self.pager_path())
        } else if ctrl && key == Key::Char('e') {
            self.toggle_preview_visibility()
        } else if ctrl && key == Key::Char('x') {
            self.toggle_explain()
        } else if ctrl && key == Key::Char('g') {
            self.show_query_help = true;
            Effect::Nothing
        } else if ctrl && key == Key::Char('h') {
            self.history_backward()
        } else {
            Effect::Nothing
        }
    }

    /// Answers one key press. `list_height` and `filter_visible` are the
    /// rows the message list and the filter pane have on screen.
    pub fn handle_key(&mut self, key: Key, mods: Mods, list_height: usize, filter_visible: usize) -> (r: Effect)
        requires
            old(self).wf(),
            list_height <= 65535,
            old(self).filter_offset + filter_visible <= usize::MAX,
        ensures
            (final(self)@, effect_view(r)) == key_step(old(self)@, key, mods, list_height as nat, filter_visible as nat),
            final(self).wf(),
    {
        if self.input_mode != InputMode::Normal {
            return self.prompt_key(key);
        }
        if self.show_help || self.show_query_help || self.explain_text.is_some() {
            self.show_help = false;
            self.show_query_help = false;
            self.explain_text = None;
            return Effect::Nothing;
        }
        if key == Key::Char('q') && mods == Mods::Ctrl {
            return Effect::Quit;
        }
        if key == Key::Tab {
            self.cycle_focus();
            return Effect::Nothing;
        }
        match self.focus {
            Focus::Filter => self.filter_key(key, filter_visible),
            Focus::Search => self.search_key(key, mods, list_height),
            Focus::List => self.list_key(key, mods, list_height),
        }
    }
}

// ── Searching ───────────────────────────────────────────────────────────────

/// The list is filtered to messages without tags.
pub open spec fn untagged_filter(s: AppView) -> bool {
    s.active_filter == Some(untagged_value())
}

/// The rows a search keeps: only untagged ones under the untagged filter.
pub open spec fn kept_rows(s: AppView, rows: Seq<RowView>) -> Seq<RowView> {
    if untagged_filter(s) {
        rows.filter(|r: RowView| r.tags.len() == 0)
    } else {
        rows
    }
}

pub open spec fn row_dates(rows: Seq<RowView>) -> Seq<i128> {
    rows.map_values(|r: RowView| r.date_ts as i128)
}

/// `list` is `rows` newest first (equal dates in their order), cut to the
/// search limit.
pub open spec fn newest_first_capped(list: Seq<RowView>, rows: Seq<RowView>) -> bool {
    &&& list.len() == min_nat(rows.len(), MAX_SEARCH_RESULTS as nat)
    &&& exists|order: Seq<usize>|
        #[trigger] is_ranking(row_dates(rows), order) && forall|i: int|
            0 <= i < list.len() ==> #[trigger] list[i] == rows[order[i] as int]
}

/// The markdown `html_safe_md` makes of an HTML text before it limits the
/// length of its output.
pub uninterp spec fn sanitized_markdown(html: Seq<char>) -> Seq<char>;

/// Calls `html_safe_md::sanitize_html_with` with the crate's default
/// configuration but no limit on the markdown, so that the call itself
/// never cuts its output (`String::truncate` to `usize::MAX` keeps the
/// text). The contract claims only that the result is `sanitized_markdown`
/// of the text. The call cuts its input at 512 KiB, which must fall between
/// characters (required here).
#[verifier::external_body]
fn sanitize_html_uncut(html: &str) -> (r: String)
    requires
        byte_len(html@) <= 524288 || is_char_boundary(encode_utf8(html@), 524288),
    ensures
        r@ == sanitized_markdown(html@),
{
    let config = html_safe_md::Config { max_md_chars: usize::MAX, ..html_safe_md::Config::default() };
    html_safe_md::sanitize_html_with(html, &config)
}

/// Reads `max_md_chars` of `html_safe_md::Config::default()`, the length in
/// bytes at which `sanitize_html` cuts its markdown; the crate sets it to
/// 200,000.
#[verifier::external_body]
fn markdown_limit() -> (r: usize)
    ensures
        r == MARKDOWN_LIMIT,
{
    html_safe_md::Config::default().max_md_chars
}

/// The length in bytes at which the sanitiser cuts its markdown.
pub const MARKDOWN_LIMIT: usize = 200000;

/// The markdown can be cut at the limit: it is no longer than the limit, or
/// the limit falls between two characters (`String::truncate` refuses to
/// cut inside a character).
pub open spec fn markdown_cut_ok(md: Seq<char>) -> bool {
    byte_len(md) <= MARKDOWN_LIMIT || is_char_boundary(encode_utf8(md), MARKDOWN_LIMIT as int)
}

/// The markdown cut at the limit.
pub open spec fn markdown_cut(md: Seq<char>) -> Seq<char> {
    if byte_len(md) <= MARKDOWN_LIMIT {
        md
    } else {
        byte_prefix(md, MARKDOWN_LIMIT as nat)
    }
}

/// Cuts the markdown at the limit, as `sanitize_html` does; `None` when the
/// limit falls inside a character.
fn cut_markdown(md: String) -> (r: Option<String>)
    ensures
        match r {
            Some(t) => markdown_cut_ok(md@) && t@ == markdown_cut(md@),
            None => !markdown_cut_ok(md@),
        },
{
    let limit = markdown_limit();
    let n = md.as_str().as_bytes().len();
    proof {
        assert(n == byte_len(md@));
    }
    if n <= limit {
        return Some(md);
    }
    if !md.as_str().is_char_boundary(limit) {
        return None;
    }
    let (head, _tail) = md.as_str().split_at(limit);
    let piece = String::from_str(head);
    proof {
        vstd::utf8::encode_utf8_decode_utf8(head@);
    }
    Some(piece)
}

/// A body that looks like HTML.
pub open spec fn looks_like_html(body: Seq<char>) -> bool {
    let t = trim(body);
    t.len() > 0 && t[0] == '<'
}

/// What the preview pane shows of a body: HTML turned into markdown (cut
/// at the limit), anything else as it is.
pub open spec fn preview_of(body: Seq<char>) -> Seq<char> {
    if looks_like_html(body) {
        markdown_cut(sanitized_markdown(body))
    } else {
        body
    }
}

/// The body can be shown: not HTML, or its markdown can be cut at the
/// limit.
pub open spec fn preview_shown(body: Seq<char>) -> bool {
    !looks_like_html(body) || markdown_cut_ok(sanitized_markdown(body))
}

/// A body the preview can take: not HTML, or cut at 512 KiB between two
/// characters.
pub open spec fn preview_input_ok(body: Seq<char>) -> bool {
    !looks_like_html(body) || byte_len(body) <= 524288 || is_char_boundary(encode_utf8(body), 524288)
}

impl App {
    /// The query to parse, or `None` for a blank search bar (which matches
    /// everything and clears the query messages).
    pub fn begin_search(&mut self) -> (r: Option<String>)
        ensures
            trim(old(self)@.search_input).len() == 0 ==> r is None && final(self)@ == (AppView {
                query_error: None,
                parsed_query: None,
                ..old(self)@
            }),
            trim(old(self)@.search_input).len() > 0 ==> opt_view(r) == Some(old(self)@.search_input)
                && final(self)@ == old(self)@,
            final(self).wf() == old(self).wf(),
    {
        let t = trim_str(self.search_input.as_str());
        if chars_of(t.as_str()).len() == 0 {
            self.query_error = None;
            self.parsed_query = None;
            None
        } else {
            Some(self.search_input.clone())
        }
    }

    /// The parser refused the query: the results stay, the error shows.
    pub fn reject_query(&mut self, err: &str)
        ensures
            final(self)@ == (AppView {
                query_error: Some("Invalid query: "@ + err@),
                parsed_query: None,
                search_pending: false,
                ..old(self)@
            }),
            final(self).wf() == old(self).wf(),
    {
        self.query_error = Some(concat_str("Invalid query: ", err));
        self.parsed_query = None;
        self.search_pending = false;
    }

    /// The parser took the query.
    pub fn accept_query(&mut self)
        ensures
            final(self)@ == (AppView {
                query_error: None,
                parsed_query: Some("Searching: "@ + old(self)@.search_input),
                ..old(self)@
            }),
            final(self).wf() == old(self).wf(),
    {
        self.query_error = None;
        self.parsed_query = Some(concat_str("Searching: ", self.search_input.as_str()));
    }

    /// The tag every result must carry: the active filter, unless it is the
    /// untagged one.
    pub fn required_tag(&self) -> (r: Option<String>)
        ensures
            opt_view(r) == if untagged_filter(self@) {
                None
            } else {
                self@.active_filter
            },
    {
        match &self.active_filter {
            Some(t) => {
                if str_eq(t.as_str(), "__untagged__") {
                    None
                } else {
                    Some(t.clone())
                }
            },
            None => None,
        }
    }

    /// How many hits to fetch: more under the untagged filter, which drops
    /// most of them.
    pub fn search_limit(&self) -> (r: usize)
        ensures
            r == if untagged_filter(self@) {
                5 * MAX_SEARCH_RESULTS as int
            } else {
                MAX_SEARCH_RESULTS as int
            },
    {
        let untagged = match &self.active_filter {
            Some(t) => str_eq(t.as_str(), "__untagged__"),
            None => false,
        };
        if untagged {
            5 * MAX_SEARCH_RESULTS
        } else {
            MAX_SEARCH_RESULTS
        }
    }

    /// Takes the fetched rows: keeps the untagged ones under the untagged
    /// filter, orders them newest first, keeps the first 200, and resets the
    /// selection and the preview. Returns whether to load the preview.
    pub fn finish_search(&mut self, rows: Vec<MailRow>) -> (load: bool)
        ensures
            final(self)@ == (AppView {
                results: final(self)@.results,
                selected: 0,
                list_offset: 0,
                preview: None,
                preview_offset: 0,
                search_pending: false,
                ..old(self)@
            }),
            newest_first_capped(final(self)@.results, kept_rows(old(self)@, rows_view(rows@))),
            load == (old(self)@.preview_visible && final(self)@.results.len() > 0),
            old(self).wf() ==> final(self).wf(),
    {
        broadcast use vstd::seq_lib::group_seq_properties;

        let untagged = match &self.active_filter {
            Some(t) => str_eq(t.as_str(), "__untagged__"),
            None => false,
        };
        let ghost all = rows_view(rows@);
        let ghost p = |r: RowView| r.tags.len() == 0;
        let mut kept: Vec<MailRow> = Vec::new();
        let mut i: usize = 0;
        while i < rows.len()
            invariant
                i <= rows@.len(),
                all == rows_view(rows@),
                p == (|r: RowView| r.tags.len() == 0),
                rows_view(kept@) == if untagged {
                    all.take(i as int).filter(p)
                } else {
                    all.take(i as int)
                },
            decreases rows.len() - i,
        {
            proof {
                assert(all.take(i + 1) =~= all.take(i as int).push(all[i as int]));
                all.take(i as int).lemma_filter_push(all[i as int], p);
            }
            if !untagged || rows[i].tags.len() == 0 {
                let ghost before = kept@;
                kept.push(rows[i].copy());
                assert(rows_view(kept@) =~= rows_view(before).push(all[i as int]));
            }
            i += 1;
        }
        assert(all.take(all.len() as int) =~= all);
        assert(rows_view(kept@) == kept_rows(old(self)@, all));
        let ghost kv = rows_view(kept@);
        let mut keys: Vec<i128> = Vec::new();
        let mut j: usize = 0;
        while j < kept.len()
            invariant
                j <= kept@.len(),
                kv == rows_view(kept@),
                keys@ == row_dates(kv.take(j as int)),
            decreases kept.len() - j,
        {
            keys.push(kept[j].date_ts as i128);
            assert(keys@ =~= row_dates(kv.take(j + 1)));
            j += 1;
        }
        assert(kv.take(kv.len() as int) =~= kv);
        let order = stable_rank_desc(&keys);
        let n: usize = if kept.len() < MAX_SEARCH_RESULTS {
            kept.len()
        } else {
            MAX_SEARCH_RESULTS
        };
        let mut out: Vec<MailRow> = Vec::new();
        let mut k: usize = 0;
        while k < n
            invariant
                k <= n,
                n <= kept@.len(),
                kv == rows_view(kept@),
                is_ranking(row_dates(kv), order@),
                order@.len() == kv.len(),
                rows_view(out@).len() == k,
                forall|a: int| 0 <= a < k ==> #[trigger] rows_view(out@)[a] == kv[order@[a] as int],
            decreases n - k,
        {
            let idx = order[k];
            let ghost before = out@;
            out.push(kept[idx].copy());
            assert(rows_view(out@) =~= rows_view(before).push(kv[order@[k as int] as int]));
            k += 1;
        }
        self.results = out;
        self.selected = 0;
        self.list_offset = 0;
        self.preview = None;
        self.preview_offset = 0;
        self.search_pending = false;
        self.preview_visible && self.results.len() > 0
    }

    /// The message id of the selected row, whose body the preview shows.
    pub fn preview_message_id(&self) -> (r: Option<String>)
        ensures
            opt_view(r) == match selected_row(self@) {
                Some(row) => Some(row.message_id),
                None => None,
            },
    {
        if self.selected < self.results.len() {
            Some(self.results[self.selected].message_id.clone())
        } else {
            None
        }
    }

    /// Shows a message body in the preview pane, from its top. Returns
    /// false, changing nothing, when the body is HTML whose markdown cannot
    /// be cut at the sanitiser's limit.
    pub fn show_preview(&mut self, body: String) -> (shown: bool)
        requires
            preview_input_ok(body@),
        ensures
            shown == preview_shown(body@),
            shown ==> final(self)@ == (AppView { preview: Some(preview_of(body@)), preview_offset: 0, ..old(self)@ }),
            !shown ==> final(self)@ == old(self)@,
            final(self).wf() == old(self).wf(),
    {
        let t = trim_str(body.as_str());
        let tv = chars_of(t.as_str());
        let text = if tv.len() > 0 && tv[0] == '<' {
            let md = sanitize_html_uncut(body.as_str());
            match cut_markdown(md) {
                Some(c) => c,
                None => return false,
            }
        } else {
            body
        };
        self.preview = Some(text);
        self.preview_offset = 0;
        true
    }

    /// The rewrite of a row's tags was done: the row takes the new tags when
    /// the message was found, and the status shows the text.
    pub fn finish_rewrite(&mut self, row: usize, tags: Option<Vec<String>>, status: String)
        ensures
            final(self)@ == match tags {
                Some(t) => if row < old(self)@.results.len() {
                    AppView {
                        results: old(self)@.results.update(
                            row as int,
                            RowView { tags: views(t@), ..old(self)@.results[row as int] },
                        ),
                        writer_dirty: true,
                        status_message: Some(status@),
                        ..old(self)@
                    }
                } else {
                    AppView { writer_dirty: true, status_message: Some(status@), ..old(self)@ }
                },
                None => AppView { status_message: Some(status@), ..old(self)@ },
            },
            final(self).wf() == old(self).wf(),
    {
        match tags {
            Some(t) => {
                if row < self.results.len() {
                    let mut r = self.results[row].copy();
                    r.tags = t;
                    let ghost before = self.results@;
                    self.results.set(row, r);
                    assert(rows_view(self.results@) =~= rows_view(before).update(
                        row as int,
                        RowView { tags: views(r.tags@), ..rows_view(before)[row as int] },
                    ));
                }
                self.writer_dirty = true;
            },
            None => {},
        }
        self.status_message = Some(status);
    }

    /// Keeps the list from scrolling past its end after the window shrank.
    pub fn clamp_list_offset(&mut self, list_height: usize)
        ensures
            final(self)@ == (AppView {
                list_offset: min_nat(old(self)@.list_offset, sat_sub(old(self)@.results.len(), list_height as nat)),
                ..old(self)@
            }),
            old(self).wf() ==> final(self).wf(),
    {
        let max_offset: usize = if list_height >= self.results.len() {
            0
        } else {
            self.results.len() - list_height
        };
        if self.list_offset > max_offset {
            self.list_offset = max_offset;
        }
    }
}

// ── Laws ────────────────────────────────────────────────────────────────────

/// While help, the query help or the explain panel is open, a key only
/// closes them: nothing else changes and no outside work is asked for.
pub proof fn law_overlays_are_modal(s: AppView, k: Key, m: Mods, h: nat, visible: nat)
    requires
        s.input_mode == InputMode::Normal,
        s.show_help || s.show_query_help || s.explain_text is Some,
    ensures
        key_step(s, k, m, h, visible) == (
            AppView { show_help: false, show_query_help: false, explain_text: None, ..s },
            EffectView::Nothing,
        ),
{
}

/// While the tag prompt is open, a key changes nothing but the prompt and
/// the status line, and asks for no outside work but a tag rewrite.
pub proof fn law_prompt_is_modal(s: AppView, k: Key, m: Mods, h: nat, visible: nat)
    requires
        s.input_mode != InputMode::Normal,
    ensures
        ({
            let (t, e) = key_step(s, k, m, h, visible);
            &&& (AppView {
                input_mode: s.input_mode,
                tag_input: s.tag_input,
                status_message: s.status_message,
                ..t
            }) == s
            &&& (e is Nothing || e is RewriteTags)
        }),
{
}

/// Ctrl-q quits from every pane when no prompt or overlay is open.
pub proof fn law_ctrl_q_quits(s: AppView, h: nat, visible: nat)
    requires
        s.input_mode == InputMode::Normal,
        !s.show_help && !s.show_query_help && s.explain_text is None,
    ensures
        key_step(s, Key::Char('q'), Mods::Ctrl, h, visible) == (s, EffectView::Quit),
{
}

/// No query follows itself in the history.
pub open spec fn no_adjacent_repeats(h: Seq<Seq<char>>) -> bool {
    forall|i: int| 0 <= i < h.len() - 1 ==> #[trigger] h[i] != h[i + 1]
}

/// Saving the search text keeps the history within its limit and never
/// puts a query right after itself.
pub proof fn law_history_bounded(s: AppView)
    requires
        s.query_history.len() <= HISTORY_LIMIT,
        no_adjacent_repeats(s.query_history),
    ensures
        history_pushed(s).query_history.len() <= HISTORY_LIMIT,
        no_adjacent_repeats(history_pushed(s).query_history),
{
    let q = trim(s.search_input);
    if q.len() > 0 && !(s.query_history.len() > 0 && s.query_history.last() == q) {
        let h1 = s.query_history.push(q);
        assert(no_adjacent_repeats(h1)) by {
            assert forall|i: int| 0 <= i < h1.len() - 1 implies #[trigger] h1[i] != h1[i + 1] by {
                if i == h1.len() - 2 {
                    assert(h1[i] == s.query_history.last());
                } else {
                    assert(h1[i] == s.query_history[i] && h1[i + 1] == s.query_history[i + 1]);
                }
            }
        }
        if h1.len() > HISTORY_LIMIT {
            let h2 = h1.drop_first();
            assert forall|i: int| 0 <= i < h2.len() - 1 implies #[trigger] h2[i] != h2[i + 1] by {
                assert(h2[i] == h1[i + 1] && h2[i + 1] == h1[i + 2]);
            }
        }
    }
}

} // verus!
