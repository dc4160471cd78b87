//! UI state and its transitions — free of any terminal library, so that the
//! navigation, sorting, filtering and mode logic stand on their own.
//!
//! The render loop translates terminal events into [`Cmd`]s and feeds them to
//! [`App::handle`]; rendering then reads the resulting state.

use vstd::prelude::*;

use crate::model::SortKey;

verus! {

/// Logical commands the UI understands, decoupled from physical key events.
#[derive(Clone, Copy, Debug, PartialEq, Eq, Structural)]
pub enum Cmd {
    Quit,
    Up,
    Down,
    PageUp,
    PageDown,
    Home,
    End,
    Sort(SortKey),
    ToggleExpand,
    Pause,
    Help,
    /// Enter incremental-filter input mode.
    FilterStart,
    FilterChar(char),
    FilterBackspace,
    /// Confirm the filter and leave input mode (keeps the text).
    FilterAccept,
    /// Leave input mode and clear the filter.
    FilterCancel,
}

/// Whether the UI is in normal navigation or typing a filter.
#[derive(Clone, Copy, Debug, PartialEq, Eq, Structural)]
pub enum Mode {
    Normal,
    Filter,
}

pub struct App {
    pub sort: SortKey,
    pub sort_desc: bool,
    pub filter: String,
    pub mode: Mode,
    pub selected: usize,
    pub expanded: Option<u32>,
    pub paused: bool,
    pub show_help: bool,
    pub should_quit: bool,
    /// Rows shown per page jump — set from the viewport each frame.
    pub page: usize,
}

/// What an [`App`] says, its filter as characters.
pub ghost struct AppView {
    pub sort: SortKey,
    pub sort_desc: bool,
    pub filter: Seq<char>,
    pub mode: Mode,
    pub selected: nat,
    pub expanded: Option<u32>,
    pub paused: bool,
    pub show_help: bool,
    pub should_quit: bool,
    pub page: nat,
}

impl View for App {
    type V = AppView;

    open spec fn view(&self) -> AppView {
        AppView {
            sort: self.sort,
            sort_desc: self.sort_desc,
            filter: self.filter@,
            mode: self.mode,
            selected: self.selected as nat,
            expanded: self.expanded,
            paused: self.paused,
            show_help: self.show_help,
            should_quit: self.should_quit,
            page: self.page as nat,
        }
    }
}

/// Whether a freshly chosen column sorts downwards: the numeric "biggest first"
/// columns do, name and pid sort upwards.
pub open spec fn downwards(key: SortKey) -> bool {
    key == SortKey::Rate || key == SortKey::Total || key == SortKey::Conns
}

/// The larger of two numbers.
pub open spec fn larger(a: nat, b: nat) -> nat {
    if a >= b {
        a
    } else {
        b
    }
}

/// `a - b`, or 0 if `b` is more.
pub open spec fn less(a: nat, b: nat) -> nat {
    if a >= b {
        (a - b) as nat
    } else {
        0
    }
}

impl AppView {
    /// The state the UI starts in.
    pub open spec fn initial() -> AppView {
        AppView {
            sort: SortKey::Rate,
            sort_desc: true,
            filter: seq![],
            mode: Mode::Normal,
            selected: 0,
            expanded: None,
            paused: false,
            show_help: false,
            should_quit: false,
            page: 10,
        }
    }

    /// The state with the selection moved into a list of `len` rows: onto the
    /// last one if it was past the end, to 0 if there is none.
    pub open spec fn clamped(self, len: nat) -> AppView {
        AppView {
            selected: if len == 0 {
                0
            } else if self.selected >= len {
                (len - 1) as nat
            } else {
                self.selected
            },
            ..self
        }
    }

    /// The state after a command in filter mode, the selection aside.
    pub open spec fn edited(self, cmd: Cmd) -> AppView {
        match cmd {
            Cmd::FilterChar(c) => AppView { filter: self.filter.push(c), ..self },
            Cmd::FilterBackspace => AppView {
                filter: if self.filter.len() > 0 {
                    self.filter.drop_last()
                } else {
                    self.filter
                },
                ..self
            },
            Cmd::FilterAccept => AppView { mode: Mode::Normal, ..self },
            Cmd::FilterCancel => AppView { filter: seq![], mode: Mode::Normal, ..self },
            Cmd::Quit => AppView { mode: Mode::Normal, ..self },
            _ => self,
        }
    }

    /// The state with `key` chosen: the direction flips if it was chosen before.
    pub open spec fn sorted_by(self, key: SortKey) -> AppView {
        AppView {
            sort: key,
            sort_desc: if self.sort == key {
                !self.sort_desc
            } else {
                downwards(key)
            },
            ..self
        }
    }

    /// The state after a command in normal mode, on a list of `len` rows with
    /// `pid` under the cursor.
    pub open spec fn steered(self, cmd: Cmd, len: nat, pid: Option<u32>) -> AppView {
        match cmd {
            Cmd::Quit => if self.show_help {
                AppView { show_help: false, ..self }
            } else {
                AppView { should_quit: true, ..self }
            },
            Cmd::Up => AppView { selected: less(self.selected, 1), ..self },
            Cmd::Down => AppView {
                selected: if self.selected + 1 < len {
                    self.selected + 1
                } else {
                    self.selected
                },
                ..self
            },
            Cmd::PageUp => AppView { selected: less(self.selected, larger(self.page, 1)), ..self },
            Cmd::PageDown => AppView {
                selected: if len == 0 {
                    self.selected
                } else if self.selected + larger(self.page, 1) < len {
                    self.selected + larger(self.page, 1)
                } else {
                    (len - 1) as nat
                },
                ..self
            },
            Cmd::Home => AppView { selected: 0, ..self },
            Cmd::End => AppView { selected: less(len, 1), ..self },
            Cmd::Sort(key) => self.sorted_by(key),
            Cmd::ToggleExpand => AppView {
                expanded: if pid is Some && self.expanded == pid {
                    None
                } else {
                    pid
                },
                ..self
            },
            Cmd::Pause => AppView { paused: !self.paused, ..self },
            Cmd::Help => AppView { show_help: !self.show_help, ..self },
            Cmd::FilterStart => AppView { mode: Mode::Filter, ..self },
            Cmd::FilterChar(_) | Cmd::FilterBackspace | Cmd::FilterAccept | Cmd::FilterCancel => {
                self
            },
        }
    }

    /// The state after a command.
    pub open spec fn after(self, cmd: Cmd, len: nat, pid: Option<u32>) -> AppView {
        if self.mode == Mode::Filter {
            self.edited(cmd).clamped(len)
        } else {
            self.steered(cmd, len, pid).clamped(len)
        }
    }
}

impl Default for App {
    fn default() -> (r: Self)
        ensures
            r@ == AppView::initial(),
    {
        let r = App {
            sort: SortKey::Rate,
            sort_desc: true,
            filter: String::new(),
            mode: Mode::Normal,
            selected: 0,
            expanded: None,
            paused: false,
            show_help: false,
            should_quit: false,
            page: 10,
        };
        assert(r.filter@ =~= seq![]);
        r
    }
}

impl App {
    fn default_desc(key: SortKey) -> (r: bool)
        ensures
            r == downwards(key),
    {
        matches!(key, SortKey::Rate | SortKey::Total | SortKey::Conns)
    }

    /// Choose a sort column, or flip direction if it's already selected.
    fn apply_sort(&mut self, key: SortKey)
        ensures
            final(self)@ == old(self)@.sorted_by(key),
    {
        if self.sort == key {
            self.sort_desc = !self.sort_desc;
        } else {
            self.sort = key;
            self.sort_desc = Self::default_desc(key);
        }
    }

    /// Keep `selected` within `[0, len)` (clamps to 0 when empty).
    pub fn clamp_selection(&mut self, len: usize)
        ensures
            final(self)@ == old(self)@.clamped(len as nat),
    {
        if len == 0 {
            self.selected = 0;
        } else if self.selected >= len {
            self.selected = len - 1;
        }
    }

    /// Handle one command. `len` is the number of currently-visible rows and
    /// `selected_pid` the pid under the cursor (for expand), both supplied by the
    /// render loop from the freshly filtered+sorted list.
    pub fn handle(&mut self, cmd: Cmd, len: usize, selected_pid: Option<u32>)
        ensures
            final(self)@ == old(self)@.after(cmd, len as nat, selected_pid),
    {
        // While typing a filter, most keys edit the query.
        if self.mode == Mode::Filter {
            match cmd {
                Cmd::FilterChar(c) => self.filter.push(c),
                Cmd::FilterBackspace => {
                    self.filter.pop();
                },
                Cmd::FilterAccept => self.mode = Mode::Normal,
                Cmd::FilterCancel => {
                    self.filter.clear();
                    self.mode = Mode::Normal;
                },
                Cmd::Quit => self.mode = Mode::Normal,
                _ => {},
            }
            assert(self@.filter =~= old(self)@.edited(cmd).filter);
            self.clamp_selection(len);
            return ;
        }
        let page: usize = if self.page >= 1 { self.page } else { 1 };
        match cmd {
            Cmd::Quit => {
                if self.show_help {
                    self.show_help = false;
                } else {
                    self.should_quit = true;
                }
            },
            Cmd::Up => self.selected = self.selected.saturating_sub(1),
            Cmd::Down => {
                if len > 0 && self.selected < len - 1 {
                    self.selected = self.selected + 1;
                }
            },
            Cmd::PageUp => self.selected = self.selected.saturating_sub(page),
            Cmd::PageDown => {
                if len > 0 {
                    let next: usize = self.selected.saturating_add(page);
                    self.selected = if next < len - 1 { next } else { len - 1 };
                }
            },
            Cmd::Home => self.selected = 0,
            Cmd::End => self.selected = len.saturating_sub(1),
            Cmd::Sort(key) => self.apply_sort(key),
            Cmd::ToggleExpand => {
                self.expanded = match (self.expanded, selected_pid) {
                    (Some(p), Some(s)) => if p == s {
                        None
                    } else {
                        selected_pid
                    },
                    _ => selected_pid,
                };
            },
            Cmd::Pause => self.paused = !self.paused,
            Cmd::Help => self.show_help = !self.show_help,
            Cmd::FilterStart => self.mode = Mode::Filter,
            // filter-edit commands are inert in normal mode
            Cmd::FilterChar(_) | Cmd::FilterBackspace | Cmd::FilterAccept | Cmd::FilterCancel => {},
        }
        self.clamp_selection(len);
    }
}

// ---- keys ------------------------------------------------------------------

/// A key of the keyboard, as far as the UI tells keys apart.
#[derive(Clone, Copy, Debug, PartialEq, Eq, Structural)]
pub enum KeyCode {
    Char(char),
    Enter,
    Esc,
    Backspace,
    Up,
    Down,
    PageUp,
    PageDown,
    Home,
    End,
    /// Any key that means nothing to the UI.
    Other,
}

/// The command of a key while typing a filter.
pub open spec fn filter_key(code: KeyCode) -> Option<Cmd> {
    match code {
        KeyCode::Char(c) => Some(Cmd::FilterChar(c)),
        KeyCode::Backspace => Some(Cmd::FilterBackspace),
        KeyCode::Enter => Some(Cmd::FilterAccept),
        KeyCode::Esc => Some(Cmd::FilterCancel),
        _ => None,
    }
}

/// The command of a key in normal navigation.
pub open spec fn normal_key(code: KeyCode) -> Option<Cmd> {
    match code {
        KeyCode::Char('q') | KeyCode::Esc => Some(Cmd::Quit),
        KeyCode::Up | KeyCode::Char('k') => Some(Cmd::Up),
        KeyCode::Down | KeyCode::Char('j') => Some(Cmd::Down),
        KeyCode::PageUp => Some(Cmd::PageUp),
        KeyCode::PageDown => Some(Cmd::PageDown),
        KeyCode::Home | KeyCode::Char('g') => Some(Cmd::Home),
        KeyCode::End | KeyCode::Char('G') => Some(Cmd::End),
        KeyCode::Enter | KeyCode::Char(' ') => Some(Cmd::ToggleExpand),
        KeyCode::Char('/') => Some(Cmd::FilterStart),
        KeyCode::Char('p') => Some(Cmd::Pause),
        KeyCode::Char('r') => Some(Cmd::Sort(SortKey::Rate)),
        KeyCode::Char('t') => Some(Cmd::Sort(SortKey::Total)),
        KeyCode::Char('n') => Some(Cmd::Sort(SortKey::Name)),
        KeyCode::Char('c') => Some(Cmd::Sort(SortKey::Conns)),
        KeyCode::Char('i') => Some(Cmd::Sort(SortKey::Pid)),
        KeyCode::Char('?') | KeyCode::Char('h') => Some(Cmd::Help),
        _ => None,
    }
}

/// The command of a key, with or without the control key held.
pub open spec fn key_cmd(code: KeyCode, ctrl: bool, mode: Mode) -> Option<Cmd> {
    if ctrl && (code == KeyCode::Char('c') || code == KeyCode::Char('d')) {
        Some(Cmd::Quit)
    } else if mode == Mode::Filter {
        filter_key(code)
    } else {
        normal_key(code)
    }
}

/// Translate a key event into a logical [`Cmd`], honouring the current mode.
pub fn key_to_cmd(code: KeyCode, ctrl: bool, mode: Mode) -> (r: Option<Cmd>)
    ensures
        r == key_cmd(code, ctrl, mode),
{
    // Ctrl-C / Ctrl-D always quit, regardless of mode.
    if ctrl && matches!(code, KeyCode::Char('c') | KeyCode::Char('d')) {
        return Some(Cmd::Quit);
    }
    if mode == Mode::Filter {
        return match code {
            KeyCode::Char(c) => Some(Cmd::FilterChar(c)),
            KeyCode::Backspace => Some(Cmd::FilterBackspace),
            KeyCode::Enter => Some(Cmd::FilterAccept),
            KeyCode::Esc => Some(Cmd::FilterCancel),
            _ => None,
        };
    }
    match code {
        KeyCode::Char('q') | KeyCode::Esc => Some(Cmd::Quit),
        KeyCode::Up | KeyCode::Char('k') => Some(Cmd::Up),
        KeyCode::Down | KeyCode::Char('j') => Some(Cmd::Down),
        KeyCode::PageUp => Some(Cmd::PageUp),
        KeyCode::PageDown => Some(Cmd::PageDown),
        KeyCode::Home | KeyCode::Char('g') => Some(Cmd::Home),
        KeyCode::End | KeyCode::Char('G') => Some(Cmd::End),
        KeyCode::Enter | KeyCode::Char(' ') => Some(Cmd::ToggleExpand),
        KeyCode::Char('/') => Some(Cmd::FilterStart),
        KeyCode::Char('p') => Some(Cmd::Pause),
        KeyCode::Char('r') => Some(Cmd::Sort(SortKey::Rate)),
        KeyCode::Char('t') => Some(Cmd::Sort(SortKey::Total)),
        KeyCode::Char('n') => Some(Cmd::Sort(SortKey::Name)),
        KeyCode::Char('c') => Some(Cmd::Sort(SortKey::Conns)),
        KeyCode::Char('i') => Some(Cmd::Sort(SortKey::Pid)),
        KeyCode::Char('?') | KeyCode::Char('h') => Some(Cmd::Help),
        _ => None,
    }
}

// ---- laws ------------------------------------------------------------------

/// After any command the selection is a row of the list, or 0 if it is empty.
pub proof fn law_selection_stays_in_range(a: AppView, cmd: Cmd, len: nat, pid: Option<u32>)
    ensures
        len > 0 ==> a.after(cmd, len, pid).selected < len,
        len == 0 ==> a.after(cmd, len, pid).selected == 0,
{
}

/// Choosing the same column a second time reverses it, and a third time restores
/// it.
pub proof fn law_repeated_sort_reverses(a: AppView, key: SortKey, len: nat, pid: Option<u32>)
    requires
        a.mode == Mode::Normal,
    ensures
        ({
            let once = a.after(Cmd::Sort(key), len, pid);
            let twice = once.after(Cmd::Sort(key), len, pid);
            let thrice = twice.after(Cmd::Sort(key), len, pid);
            &&& once.sort == key && twice.sort == key
            &&& twice.sort_desc == !once.sort_desc
            &&& thrice == once
        }),
{
}

/// While a filter is being typed no command quits, sorts, pauses, expands or
/// moves: only the filter, the mode and the clamping of the selection change.
pub proof fn law_filter_mode_only_edits(a: AppView, cmd: Cmd, len: nat, pid: Option<u32>)
    requires
        a.mode == Mode::Filter,
    ensures
        ({
            let b = a.after(cmd, len, pid);
            b == (AppView { filter: b.filter, mode: b.mode, ..a }).clamped(len)
        }),
{
}

/// In normal mode no command touches the filter's text.
pub proof fn law_normal_mode_keeps_filter(a: AppView, cmd: Cmd, len: nat, pid: Option<u32>)
    requires
        a.mode == Mode::Normal,
    ensures
        a.after(cmd, len, pid).filter == a.filter,
{
}

/// Backspace takes back the character typed before it.
pub proof fn law_backspace_undoes_typing(a: AppView, c: char, len: nat, pid: Option<u32>)
    requires
        a.mode == Mode::Filter,
    ensures
        a.after(Cmd::FilterChar(c), len, pid).after(Cmd::FilterBackspace, len, pid)
            == a.clamped(len),
{
    assert(a.filter.push(c).drop_last() =~= a.filter);
}

/// Expanding the process under the cursor twice in a row collapses it.
pub proof fn law_expand_twice_collapses(a: AppView, len: nat, pid: u32)
    requires
        a.mode == Mode::Normal,
        a.expanded != Some(pid),
    ensures
        ({
            let once = a.after(Cmd::ToggleExpand, len, Some(pid));
            &&& once.expanded == Some(pid)
            &&& once.after(Cmd::ToggleExpand, len, Some(pid)).expanded == None::<u32>
        }),
{
}

/// Pausing twice, or asking for help twice, changes nothing but the clamping of
/// the selection.
pub proof fn law_pause_and_help_toggle(a: AppView, len: nat, pid: Option<u32>)
    requires
        a.mode == Mode::Normal,
    ensures
        a.after(Cmd::Pause, len, pid).after(Cmd::Pause, len, pid) == a.clamped(len),
        a.after(Cmd::Help, len, pid).after(Cmd::Help, len, pid) == a.clamped(len),
{
}

/// Only a quit command in normal mode, with the help closed, ends the program.
pub proof fn law_only_quit_quits(a: AppView, cmd: Cmd, len: nat, pid: Option<u32>)
    requires
        !a.should_quit,
    ensures
        a.after(cmd, len, pid).should_quit <==> cmd == Cmd::Quit && a.mode == Mode::Normal
            && !a.show_help,
{
}

/// Ctrl-C and Ctrl-D mean quit in either mode.
pub proof fn law_ctrl_c_means_quit(mode: Mode)
    ensures
        key_cmd(KeyCode::Char('c'), true, mode) == Some(Cmd::Quit),
        key_cmd(KeyCode::Char('d'), true, mode) == Some(Cmd::Quit),
{
}

/// Whether two states differ at most in the selection.
pub open spec fn only_moved(a: AppView, b: AppView) -> bool {
    &&& a.sort == b.sort && a.sort_desc == b.sort_desc
    &&& a.filter == b.filter && a.mode == b.mode
    &&& a.expanded == b.expanded && a.paused == b.paused
    &&& a.show_help == b.show_help && a.should_quit == b.should_quit && a.page == b.page
}

/// The arrows move the selection by one row, the page keys by a page, and Home and
/// End to the first and the last row; none moves past an end, a selection that was
/// past the end comes back onto the list, and nothing else changes.
pub proof fn law_moves(a: AppView, len: nat, pid: Option<u32>)
    requires
        a.mode == Mode::Normal,
    ensures
        ({
            let page = if a.page == 0 {
                1
            } else {
                a.page as int
            };
            let on_list = |x: int|
                if len == 0 || x < 0 {
                    0
                } else if x >= len {
                    len - 1
                } else {
                    x
                };
            let to = |cmd: Cmd| a.after(cmd, len, pid).selected as int;
            &&& to(Cmd::Up) == on_list(a.selected - 1)
            &&& to(Cmd::Down) == on_list((a.selected + 1) as int)
            &&& to(Cmd::PageUp) == on_list(a.selected - page)
            &&& to(Cmd::PageDown) == on_list(a.selected + page)
            &&& to(Cmd::Home) == 0
            &&& to(Cmd::End) == on_list(len - 1)
            &&& only_moved(a, a.after(Cmd::Up, len, pid))
            &&& only_moved(a, a.after(Cmd::Down, len, pid))
            &&& only_moved(a, a.after(Cmd::PageUp, len, pid))
            &&& only_moved(a, a.after(Cmd::PageDown, len, pid))
            &&& only_moved(a, a.after(Cmd::Home, len, pid))
            &&& only_moved(a, a.after(Cmd::End, len, pid))
        }),
{
}

/// A column that was not chosen before starts with the biggest first if it holds
/// amounts, and from the start of the alphabet or the numbers if it holds names or
/// pids; the one that was chosen turns round. Nothing else changes.
pub proof fn law_sort_directions(a: AppView, key: SortKey, len: nat, pid: Option<u32>)
    requires
        a.mode == Mode::Normal,
    ensures
        ({
            let b = a.after(Cmd::Sort(key), len, pid);
            &&& b.sort == key
            &&& a.sort == key ==> b.sort_desc == !a.sort_desc
            &&& a.sort != key && (key == SortKey::Rate || key == SortKey::Total || key
                == SortKey::Conns) ==> b.sort_desc
            &&& a.sort != key && (key == SortKey::Name || key == SortKey::Pid) ==> !b.sort_desc
            &&& b.selected == a.clamped(len).selected && b.filter == a.filter && b.mode == a.mode
            &&& b.expanded == a.expanded && b.paused == a.paused
            &&& b.show_help == a.show_help && b.should_quit == a.should_quit && b.page == a.page
        }),
{
}

/// Typing a filter: a character goes to its end, backspace takes one off, enter
/// keeps the text and escape drops it, both going back to navigation, as quitting
/// does with the text kept.
pub proof fn law_filter_typing(a: AppView, c: char, len: nat, pid: Option<u32>)
    requires
        a.mode == Mode::Filter,
    ensures
        a.after(Cmd::FilterChar(c), len, pid).filter == a.filter + seq![c],
        a.after(Cmd::FilterChar(c), len, pid).mode == Mode::Filter,
        a.filter.len() > 0 ==> a.after(Cmd::FilterBackspace, len, pid).filter == a.filter.subrange(
            0,
            a.filter.len() - 1,
        ),
        a.filter.len() == 0 ==> a.after(Cmd::FilterBackspace, len, pid).filter.len() == 0,
        a.after(Cmd::FilterBackspace, len, pid).mode == Mode::Filter,
        a.after(Cmd::FilterAccept, len, pid).filter == a.filter,
        a.after(Cmd::FilterAccept, len, pid).mode == Mode::Normal,
        a.after(Cmd::FilterCancel, len, pid).filter.len() == 0,
        a.after(Cmd::FilterCancel, len, pid).mode == Mode::Normal,
        a.after(Cmd::Quit, len, pid).filter == a.filter,
        a.after(Cmd::Quit, len, pid).mode == Mode::Normal,
{
    assert(a.filter.push(c) =~= a.filter + seq![c]);
    if a.filter.len() > 0 {
        assert(a.filter.drop_last() =~= a.filter.subrange(0, a.filter.len() - 1));
    }
}

/// Each of the switches of normal mode turns just its own state: filter input on,
/// pause and help over, the process under the cursor expanded, and the first quit
/// closes the help if it is open. What edits a filter does nothing there.
pub proof fn law_switches(a: AppView, c: char, len: nat, pid: Option<u32>)
    requires
        a.mode == Mode::Normal,
    ensures
        ({
            let b = a.clamped(len);
            let to = |cmd: Cmd| a.after(cmd, len, pid);
            &&& to(Cmd::FilterStart) == (AppView { mode: Mode::Filter, ..b })
            &&& to(Cmd::Pause) == (AppView { paused: !a.paused, ..b })
            &&& to(Cmd::Help) == (AppView { show_help: !a.show_help, ..b })
            &&& a.show_help ==> to(Cmd::Quit) == (AppView { show_help: false, ..b })
            &&& !a.show_help ==> to(Cmd::Quit) == (AppView { should_quit: true, ..b })
            &&& pid is Some && a.expanded == pid ==> to(Cmd::ToggleExpand) == (AppView {
                expanded: None,
                ..b
            })
            &&& pid is None || a.expanded != pid ==> to(Cmd::ToggleExpand) == (AppView {
                expanded: pid,
                ..b
            })
            &&& to(Cmd::FilterChar(c)) == b && to(Cmd::FilterBackspace) == b
            &&& to(Cmd::FilterAccept) == b && to(Cmd::FilterCancel) == b
        }),
{
}

/// While a filter is typed, what steers the table does nothing at all.
pub proof fn law_typing_is_not_steering(a: AppView, key: SortKey, len: nat, pid: Option<u32>)
    requires
        a.mode == Mode::Filter,
    ensures
        ({
            let b = a.clamped(len);
            let to = |cmd: Cmd| a.after(cmd, len, pid);
            &&& to(Cmd::Up) == b && to(Cmd::Down) == b && to(Cmd::PageUp) == b
            &&& to(Cmd::PageDown) == b && to(Cmd::Home) == b && to(Cmd::End) == b
            &&& to(Cmd::Sort(key)) == b && to(Cmd::ToggleExpand) == b && to(Cmd::Pause) == b
            &&& to(Cmd::Help) == b && to(Cmd::FilterStart) == b
        }),
{
}

/// The control key makes no difference but for the two keys that quit.
pub proof fn law_control_key(code: KeyCode, mode: Mode)
    requires
        code != KeyCode::Char('c'),
        code != KeyCode::Char('d'),
    ensures
        key_cmd(code, true, mode) == key_cmd(code, false, mode),
{
}

/// The selection is brought into a list that shrank: onto its last row.
pub proof fn law_clamping(a: AppView, len: nat)
    ensures
        only_moved(a, a.clamped(len)),
        a.selected < len ==> a.clamped(len).selected == a.selected,
        a.selected >= len > 0 ==> a.clamped(len).selected == len - 1,
        len == 0 ==> a.clamped(len).selected == 0,
{
}

/// The UI starts with the busiest process first, nothing filtered or expanded, and
/// running.
pub proof fn law_initial_state()
    ensures
        ({
            let a = AppView::initial();
            &&& a.sort == SortKey::Rate && a.sort_desc
            &&& a.filter.len() == 0 && a.mode == Mode::Normal
            &&& a.selected == 0 && a.expanded is None
            &&& !a.paused && !a.show_help && !a.should_quit
            &&& a.page == 10
        }),
{
}

/// While a filter is typed every character is text, and only enter, escape and
/// backspace mean something else.
pub proof fn law_filter_keys(c: char)
    ensures
        key_cmd(KeyCode::Char(c), false, Mode::Filter) == Some(Cmd::FilterChar(c)),
        c != 'c' && c != 'd' ==> key_cmd(KeyCode::Char(c), true, Mode::Filter) == Some(
            Cmd::FilterChar(c),
        ),
        key_cmd(KeyCode::Backspace, false, Mode::Filter) == Some(Cmd::FilterBackspace),
        key_cmd(KeyCode::Enter, false, Mode::Filter) == Some(Cmd::FilterAccept),
        key_cmd(KeyCode::Esc, false, Mode::Filter) == Some(Cmd::FilterCancel),
        key_cmd(KeyCode::Up, false, Mode::Filter) is None,
        key_cmd(KeyCode::Down, false, Mode::Filter) is None,
        key_cmd(KeyCode::PageUp, false, Mode::Filter) is None,
        key_cmd(KeyCode::PageDown, false, Mode::Filter) is None,
        key_cmd(KeyCode::Home, false, Mode::Filter) is None,
        key_cmd(KeyCode::End, false, Mode::Filter) is None,
        key_cmd(KeyCode::Other, false, Mode::Filter) is None,
{
}

/// In navigation each key means one command, and no other character means any.
pub proof fn law_navigation_keys(c: char)
    ensures
        ({
            let key = |code: KeyCode| key_cmd(code, false, Mode::Normal);
            &&& key(KeyCode::Char('q')) == Some(Cmd::Quit) && key(KeyCode::Esc) == Some(Cmd::Quit)
            &&& key(KeyCode::Up) == Some(Cmd::Up) && key(KeyCode::Char('k')) == Some(Cmd::Up)
            &&& key(KeyCode::Down) == Some(Cmd::Down) && key(KeyCode::Char('j')) == Some(Cmd::Down)
            &&& key(KeyCode::PageUp) == Some(Cmd::PageUp)
            &&& key(KeyCode::PageDown) == Some(Cmd::PageDown)
            &&& key(KeyCode::Home) == Some(Cmd::Home) && key(KeyCode::Char('g')) == Some(Cmd::Home)
            &&& key(KeyCode::End) == Some(Cmd::End) && key(KeyCode::Char('G')) == Some(Cmd::End)
            &&& key(KeyCode::Enter) == Some(Cmd::ToggleExpand)
            &&& key(KeyCode::Char(' ')) == Some(Cmd::ToggleExpand)
            &&& key(KeyCode::Char('/')) == Some(Cmd::FilterStart)
            &&& key(KeyCode::Char('p')) == Some(Cmd::Pause)
            &&& key(KeyCode::Char('r')) == Some(Cmd::Sort(SortKey::Rate))
            &&& key(KeyCode::Char('t')) == Some(Cmd::Sort(SortKey::Total))
            &&& key(KeyCode::Char('n')) == Some(Cmd::Sort(SortKey::Name))
            &&& key(KeyCode::Char('c')) == Some(Cmd::Sort(SortKey::Conns))
            &&& key(KeyCode::Char('i')) == Some(Cmd::Sort(SortKey::Pid))
            &&& key(KeyCode::Char('?')) == Some(Cmd::Help)
            &&& key(KeyCode::Char('h')) == Some(Cmd::Help)
            &&& key(KeyCode::Backspace) is None && key(KeyCode::Other) is None
            &&& "qkjgG /prtnci?h"@.contains(c) || key(KeyCode::Char(c)) is None
        }),
{
    reveal_strlit("qkjgG /prtnci?h");
    let s = "qkjgG /prtnci?h"@;
    assert(s[0] == 'q' && s[1] == 'k' && s[2] == 'j' && s[3] == 'g' && s[4] == 'G' && s[5] == ' '
        && s[6] == '/' && s[7] == 'p' && s[8] == 'r' && s[9] == 't' && s[10] == 'n' && s[11] == 'c'
        && s[12] == 'i' && s[13] == '?' && s[14] == 'h');
}

/// What the UI's state says in ghost code is what it holds.
pub proof fn law_state_view_is_faithful(a: App)
    ensures
        a@.sort == a.sort && a@.sort_desc == a.sort_desc && a@.filter == a.filter@,
        a@.mode == a.mode && a@.selected == a.selected && a@.expanded == a.expanded,
        a@.paused == a.paused && a@.show_help == a.show_help,
        a@.should_quit == a.should_quit && a@.page == a.page,
{
}

} // verus!
