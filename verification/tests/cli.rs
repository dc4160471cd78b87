//! The command line.

use netpeek::cli::{parse_args, ArgError, Invocation, Opts, Task};

fn parse(args: &[&str]) -> Result<Invocation, ArgError> {
    let args: Vec<String> = args.iter().map(|s| s.to_string()).collect();
    let seconds: Vec<bool> = args
        .iter()
        .map(|s| s.parse::<f64>().is_ok_and(|v| v >= 0.2))
        .collect();
    parse_args(&args, &seconds)
}

fn opts() -> Opts {
    Opts {
        interval: None,
        resolve: true,
        mouse: false,
    }
}

#[test]
fn no_arguments_run_the_tui() {
    assert_eq!(parse(&[]), Ok(Invocation::Run(Task::Tui, opts())));
}

#[test]
fn help_and_version_win() {
    assert_eq!(parse(&["--nonsense", "--help"]), Ok(Invocation::Help));
    assert_eq!(parse(&["-h", "-V"]), Ok(Invocation::Help));
    assert_eq!(parse(&["--interval", "-V"]), Ok(Invocation::Version));
    assert_eq!(parse(&["--version"]), Ok(Invocation::Version));
}

#[test]
fn tasks_rank() {
    assert_eq!(parse(&["--once"]), Ok(Invocation::Run(Task::Once, opts())));
    assert_eq!(
        parse(&["--once", "--json"]),
        Ok(Invocation::Run(Task::Json, opts()))
    );
    assert_eq!(
        parse(&["--once", "--json", "--diag"]),
        Ok(Invocation::Run(Task::Diag, opts()))
    );
}

#[test]
fn options() {
    assert_eq!(
        parse(&["--no-resolve", "--mouse", "--interval", "0.5", "--interval", "2"]),
        Ok(Invocation::Run(
            Task::Tui,
            Opts {
                interval: Some(5),
                resolve: false,
                mouse: true
            }
        ))
    );
}

#[test]
fn bad_interval() {
    for args in [
        &["--interval"][..],
        &["--interval", "0.1"],
        &["--interval", "soon"],
        &["--interval", "--once"],
    ] {
        let e = parse(args).unwrap_err();
        assert_eq!(e, ArgError::Interval);
        assert_eq!(
            e.message(),
            "netpeek: --interval needs a number of seconds >= 0.2"
        );
    }
}

#[test]
fn unknown_argument() {
    let e = parse(&["--once", "--frobnicate", "--interval"]).unwrap_err();
    assert_eq!(e, ArgError::Unknown("--frobnicate".to_string()));
    assert_eq!(
        e.message(),
        "netpeek: unknown argument '--frobnicate' (try --help)"
    );
    // a number on its own is none of the options
    assert_eq!(parse(&["2"]), Err(ArgError::Unknown("2".to_string())));
}
