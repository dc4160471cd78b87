//! Navigation, sorting, filtering and mode logic of the UI state.

use netpeek::app::{key_to_cmd, App, Cmd, KeyCode, Mode};
use netpeek::model::SortKey;

#[test]
fn navigation_clamps() {
    let mut a = App::default();
    a.handle(Cmd::Down, 3, None);
    assert_eq!(a.selected, 1);
    a.handle(Cmd::Up, 3, None);
    assert_eq!(a.selected, 0);
    a.handle(Cmd::Up, 3, None); // already at top
    assert_eq!(a.selected, 0);
    a.handle(Cmd::End, 3, None);
    assert_eq!(a.selected, 2);
    a.handle(Cmd::Down, 3, None); // at bottom
    assert_eq!(a.selected, 2);
    a.handle(Cmd::Home, 3, None);
    assert_eq!(a.selected, 0);
}

#[test]
fn paging_and_empty_list() {
    let mut a = App {
        page: 5,
        ..App::default()
    };
    a.handle(Cmd::PageDown, 20, None);
    assert_eq!(a.selected, 5);
    a.handle(Cmd::PageDown, 20, None);
    assert_eq!(a.selected, 10);
    a.handle(Cmd::PageUp, 20, None);
    assert_eq!(a.selected, 5);
    // empty list keeps selection at 0
    a.handle(Cmd::Down, 0, None);
    a.handle(Cmd::PageDown, 0, None);
    a.handle(Cmd::End, 0, None);
    assert_eq!(a.selected, 0);
}

#[test]
fn selection_clamps_when_list_shrinks() {
    let mut a = App::default();
    a.handle(Cmd::End, 10, None);
    assert_eq!(a.selected, 9);
    a.handle(Cmd::Up, 3, None); // list shrank to 3
    assert!(a.selected < 3);
}

#[test]
fn sort_toggles_direction_on_repeat() {
    let mut a = App::default();
    assert_eq!(a.sort, SortKey::Rate);
    assert!(a.sort_desc);
    a.handle(Cmd::Sort(SortKey::Rate), 0, None); // same key flips
    assert!(!a.sort_desc);
    a.handle(Cmd::Sort(SortKey::Name), 0, None); // new key: ascending default
    assert_eq!(a.sort, SortKey::Name);
    assert!(!a.sort_desc);
    a.handle(Cmd::Sort(SortKey::Total), 0, None); // numeric: descending default
    assert!(a.sort_desc);
}

#[test]
fn expand_toggles_on_selected_pid() {
    let mut a = App::default();
    a.handle(Cmd::ToggleExpand, 3, Some(42));
    assert_eq!(a.expanded, Some(42));
    a.handle(Cmd::ToggleExpand, 3, Some(42)); // same → collapse
    assert_eq!(a.expanded, None);
    a.handle(Cmd::ToggleExpand, 3, Some(7));
    assert_eq!(a.expanded, Some(7));
    a.handle(Cmd::ToggleExpand, 3, Some(8)); // different → switch
    assert_eq!(a.expanded, Some(8));
}

#[test]
fn pause_and_help_toggle() {
    let mut a = App::default();
    a.handle(Cmd::Pause, 0, None);
    assert!(a.paused);
    a.handle(Cmd::Pause, 0, None);
    assert!(!a.paused);
    a.handle(Cmd::Help, 0, None);
    assert!(a.show_help);
    // q closes help rather than quitting
    a.handle(Cmd::Quit, 0, None);
    assert!(!a.show_help);
    assert!(!a.should_quit);
    // q again quits
    a.handle(Cmd::Quit, 0, None);
    assert!(a.should_quit);
}

#[test]
fn filter_mode_editing() {
    let mut a = App::default();
    a.handle(Cmd::FilterStart, 5, None);
    assert_eq!(a.mode, Mode::Filter);
    a.handle(Cmd::FilterChar('f'), 5, None);
    a.handle(Cmd::FilterChar('o'), 5, None);
    a.handle(Cmd::FilterChar('x'), 5, None);
    assert_eq!(a.filter, "fox");
    a.handle(Cmd::FilterBackspace, 5, None);
    assert_eq!(a.filter, "fo");
    a.handle(Cmd::FilterAccept, 5, None);
    assert_eq!(a.mode, Mode::Normal);
    assert_eq!(a.filter, "fo"); // kept
                                // navigation commands don't edit the (now normal-mode) filter
    a.handle(Cmd::Down, 5, None);
    assert_eq!(a.filter, "fo");
}

#[test]
fn filter_cancel_clears() {
    let mut a = App::default();
    a.handle(Cmd::FilterStart, 5, None);
    a.handle(Cmd::FilterChar('z'), 5, None);
    a.handle(Cmd::FilterCancel, 5, None);
    assert_eq!(a.mode, Mode::Normal);
    assert!(a.filter.is_empty());
}

#[test]
fn quit_in_filter_mode_just_exits_filter() {
    let mut a = App::default();
    a.handle(Cmd::FilterStart, 5, None);
    a.handle(Cmd::Quit, 5, None);
    assert_eq!(a.mode, Mode::Normal);
    assert!(!a.should_quit);
}

#[test]
fn filter_mode_ignores_navigation_commands() {
    let mut a = App::default();
    a.handle(Cmd::FilterStart, 5, None);
    a.handle(Cmd::FilterChar('a'), 5, None);
    // a navigation command in filter mode is a no-op (doesn't move/quit)
    a.handle(Cmd::Down, 5, None);
    a.handle(Cmd::Sort(SortKey::Name), 5, None);
    assert_eq!(a.mode, Mode::Filter);
    assert_eq!(a.selected, 0);
    assert_eq!(a.filter, "a");
}

#[test]
fn normal_mode_ignores_filter_edit_commands() {
    let mut a = App::default();
    a.handle(Cmd::FilterChar('x'), 5, None);
    a.handle(Cmd::FilterBackspace, 5, None);
    a.handle(Cmd::FilterAccept, 5, None);
    a.handle(Cmd::FilterCancel, 5, None);
    assert!(a.filter.is_empty());
    assert_eq!(a.mode, Mode::Normal);
}

#[test]
fn keymap_normal_mode() {
    assert_eq!(
        key_to_cmd(KeyCode::Char('q'), false, Mode::Normal),
        Some(Cmd::Quit)
    );
    assert_eq!(
        key_to_cmd(KeyCode::Char('j'), false, Mode::Normal),
        Some(Cmd::Down)
    );
    assert_eq!(
        key_to_cmd(KeyCode::Char('/'), false, Mode::Normal),
        Some(Cmd::FilterStart)
    );
    assert_eq!(
        key_to_cmd(KeyCode::Char('r'), false, Mode::Normal),
        Some(Cmd::Sort(SortKey::Rate))
    );
    assert_eq!(
        key_to_cmd(KeyCode::Enter, false, Mode::Normal),
        Some(Cmd::ToggleExpand)
    );
    assert_eq!(key_to_cmd(KeyCode::Char('z'), false, Mode::Normal), None);
}

#[test]
fn keymap_ctrl_c_always_quits() {
    assert_eq!(
        key_to_cmd(KeyCode::Char('c'), true, Mode::Filter),
        Some(Cmd::Quit)
    );
    assert_eq!(
        key_to_cmd(KeyCode::Char('d'), true, Mode::Normal),
        Some(Cmd::Quit)
    );
}

#[test]
fn keymap_filter_mode() {
    assert_eq!(
        key_to_cmd(KeyCode::Char('x'), false, Mode::Filter),
        Some(Cmd::FilterChar('x'))
    );
    assert_eq!(
        key_to_cmd(KeyCode::Esc, false, Mode::Filter),
        Some(Cmd::FilterCancel)
    );
    assert_eq!(
        key_to_cmd(KeyCode::Enter, false, Mode::Filter),
        Some(Cmd::FilterAccept)
    );
    // 'c' in filter mode is a literal character, not quit
    assert_eq!(
        key_to_cmd(KeyCode::Char('c'), false, Mode::Filter),
        Some(Cmd::FilterChar('c'))
    );
}

#[test]
fn every_normal_key() {
    let keys = [
        (KeyCode::Esc, Some(Cmd::Quit)),
        (KeyCode::Up, Some(Cmd::Up)),
        (KeyCode::Char('k'), Some(Cmd::Up)),
        (KeyCode::Down, Some(Cmd::Down)),
        (KeyCode::PageUp, Some(Cmd::PageUp)),
        (KeyCode::PageDown, Some(Cmd::PageDown)),
        (KeyCode::Home, Some(Cmd::Home)),
        (KeyCode::Char('g'), Some(Cmd::Home)),
        (KeyCode::End, Some(Cmd::End)),
        (KeyCode::Char('G'), Some(Cmd::End)),
        (KeyCode::Char(' '), Some(Cmd::ToggleExpand)),
        (KeyCode::Char('p'), Some(Cmd::Pause)),
        (KeyCode::Char('t'), Some(Cmd::Sort(SortKey::Total))),
        (KeyCode::Char('n'), Some(Cmd::Sort(SortKey::Name))),
        (KeyCode::Char('c'), Some(Cmd::Sort(SortKey::Conns))),
        (KeyCode::Char('i'), Some(Cmd::Sort(SortKey::Pid))),
        (KeyCode::Char('?'), Some(Cmd::Help)),
        (KeyCode::Char('h'), Some(Cmd::Help)),
        (KeyCode::Backspace, None),
        (KeyCode::Other, None),
    ];
    for (code, cmd) in keys {
        assert_eq!(key_to_cmd(code, false, Mode::Normal), cmd);
    }
    assert_eq!(
        key_to_cmd(KeyCode::Backspace, false, Mode::Filter),
        Some(Cmd::FilterBackspace)
    );
    assert_eq!(key_to_cmd(KeyCode::Up, false, Mode::Filter), None);
}

#[test]
fn paging_from_the_far_end_does_not_overflow() {
    let mut a = App {
        selected: usize::MAX,
        page: usize::MAX,
        ..App::default()
    };
    a.handle(Cmd::PageDown, 4, None);
    assert_eq!(a.selected, 3);
    a.selected = usize::MAX;
    a.handle(Cmd::Down, 4, None);
    assert_eq!(a.selected, 3);
    // a page of nothing still moves by one
    a.page = 0;
    a.handle(Cmd::PageUp, 4, None);
    assert_eq!(a.selected, 2);
}

#[test]
fn backspace_takes_back_what_was_typed() {
    let mut a = App::default();
    a.handle(Cmd::FilterStart, 1, None);
    a.handle(Cmd::FilterBackspace, 1, None); // nothing to take back
    assert_eq!(a.filter, "");
    a.handle(Cmd::FilterChar('é'), 1, None);
    a.handle(Cmd::FilterBackspace, 1, None);
    assert_eq!(a.filter, "");
    assert_eq!(a.mode, Mode::Filter);
}

#[test]
fn choosing_a_column_three_times_is_choosing_it_once() {
    for key in [
        SortKey::Rate,
        SortKey::Total,
        SortKey::Name,
        SortKey::Conns,
        SortKey::Pid,
    ] {
        let mut a = App::default();
        a.handle(Cmd::Sort(key), 0, None);
        let once = a.sort_desc;
        a.handle(Cmd::Sort(key), 0, None);
        assert_eq!(a.sort_desc, !once);
        a.handle(Cmd::Sort(key), 0, None);
        assert_eq!((a.sort, a.sort_desc), (key, once));
    }
}
