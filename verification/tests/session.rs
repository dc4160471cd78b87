//! The decisions of the interactive loop and of the one-shot snapshot.

use netpeek::app::{App, KeyCode, Mode};
use netpeek::model::{Engine, Proto, SortKey};
use netpeek::ntstat::wire::{Counts, Endpoint, FlowDesc, IpAddr};
use netpeek::session::{page_size, snapshot_step, Due, Event, Session, Step};

const SECOND: u64 = 1_000_000_000;

fn key(c: char) -> Event {
    Event::Key {
        code: KeyCode::Char(c),
        ctrl: false,
    }
}

fn engine() -> Engine {
    let mut e = Engine::new(8);
    for (srcref, pid, name, rx) in [(1, 10, "curl", 5), (2, 11, "ssh", 50), (3, 11, "ssh", 1)] {
        e.on_desc(
            srcref,
            Proto::Tcp,
            FlowDesc {
                pid,
                pname: name.to_string(),
                local: None,
                remote: Some(Endpoint {
                    ip: IpAddr::V4(1),
                    port: 22,
                }),
                tcp_state: 4,
            },
        );
        e.on_counts(
            srcref,
            Counts {
                rx_bytes: rx,
                tx_bytes: 0,
            },
        );
    }
    e.tick(SECOND);
    e
}

#[test]
fn ticks_fall_due_once_per_interval() {
    let mut s = Session::new(SECOND, 100);
    assert_eq!(
        s.advance(false, 100 + SECOND - 1),
        Due {
            resume: false,
            tick: None
        }
    );
    assert_eq!(
        s.advance(false, 100 + SECOND + 7),
        Due {
            resume: false,
            tick: Some(SECOND + 7)
        }
    );
    assert_eq!(s.advance(false, 100 + SECOND + 8).tick, None);
    // a clock reading from before the last tick counts as no time at all
    assert_eq!(s.advance(false, 0).tick, None);
}

#[test]
fn a_pause_is_never_measured() {
    let mut s = Session::new(SECOND, 0);
    assert_eq!(
        s.advance(true, 5 * SECOND),
        Due {
            resume: false,
            tick: None
        }
    );
    assert_eq!(s.advance(true, 50 * SECOND).tick, None);
    assert_eq!(
        s.advance(false, 60 * SECOND),
        Due {
            resume: true,
            tick: None
        }
    );
    assert_eq!(
        s.advance(false, 61 * SECOND),
        Due {
            resume: false,
            tick: Some(SECOND)
        }
    );
}

#[test]
fn idle_rounds_draw_nothing() {
    let mut s = Session::new(SECOND, 0);
    let mut app = App::default();
    let e = engine();
    assert!(s.frame(&mut app, &e).is_some());
    assert!(s.frame(&mut app, &e).is_none());
    s.advance(false, 10);
    s.on_event(&mut app, Event::Other);
    assert!(s.frame(&mut app, &e).is_none());
    s.on_event(&mut app, Event::Resize);
    assert!(s.frame(&mut app, &e).is_some());
    s.on_event(&mut app, Event::Mouse);
    assert!(s.frame(&mut app, &e).is_some());
    s.advance(false, SECOND);
    assert!(s.frame(&mut app, &e).is_some());
}

#[test]
fn frames_show_what_is_selected() {
    let mut s = Session::new(SECOND, 0);
    let mut app = App {
        selected: 9,
        ..App::default()
    };
    let e = engine();
    let f = s.frame(&mut app, &e).unwrap();
    assert_eq!(f.rows.iter().map(|r| r.pid).collect::<Vec<_>>(), vec![11, 10]);
    assert!(f.flows.is_empty());
    assert_eq!(app.selected, 1);
    assert_eq!((s.shown_len, s.shown_pid), (2, Some(10)));

    // input acts on what is on screen
    s.on_event(&mut app, Event::ScrollUp);
    assert_eq!(app.selected, 0);
    let f = s.frame(&mut app, &e).unwrap();
    assert_eq!(s.shown_pid, Some(11));
    assert_eq!(f.rows[0].conns, 2);
    s.on_event(&mut app, key(' '));
    assert_eq!(app.expanded, Some(11));
    let f = s.frame(&mut app, &e).unwrap();
    assert_eq!(f.flows.len(), 2);
    assert_eq!(f.flows[0].rx_bytes, 50);
    s.on_event(&mut app, Event::ScrollDown);
    assert_eq!(app.selected, 1);
}

#[test]
fn frames_follow_the_filter_and_the_sort() {
    let mut s = Session::new(SECOND, 0);
    let mut app = App::default();
    let e = engine();
    for c in "/CU".chars() {
        s.on_event(&mut app, key(c));
    }
    assert_eq!(app.mode, Mode::Filter);
    let f = s.frame(&mut app, &e).unwrap();
    assert_eq!(f.rows.len(), 1);
    assert_eq!(f.rows[0].pid, 10);
    s.on_event(
        &mut app,
        Event::Key {
            code: KeyCode::Esc,
            ctrl: false,
        },
    );
    s.on_event(&mut app, key('i'));
    assert_eq!(app.sort, SortKey::Pid);
    let f = s.frame(&mut app, &e).unwrap();
    assert_eq!(f.rows.iter().map(|r| r.pid).collect::<Vec<_>>(), vec![10, 11]);
    // nothing matches: no row, no cursor
    app.filter = "zzz".to_string();
    s.on_event(&mut app, Event::Resize);
    assert!(s.frame(&mut app, &e).unwrap().rows.is_empty());
    assert_eq!((s.shown_len, s.shown_pid), (0, None));
}

#[test]
fn pages() {
    assert_eq!(page_size(0), 1);
    assert_eq!(page_size(6), 1);
    assert_eq!(page_size(7), 1);
    assert_eq!(page_size(24), 18);
}

#[test]
fn snapshot_settles_and_then_samples_twice() {
    let steps: Vec<Step> = (0..).map_while(snapshot_step).collect();
    assert_eq!(steps.len(), 32);
    for pair in steps[..24].chunks(2) {
        assert_eq!(pair, [Step::Drain, Step::Settle]);
    }
    for round in steps[24..].chunks(4) {
        assert_eq!(round, [Step::Poll, Step::Wait, Step::Drain, Step::Tick]);
    }
    assert_eq!(snapshot_step(usize::MAX), None);
}
