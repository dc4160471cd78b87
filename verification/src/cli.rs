//! The command line.

use vstd::prelude::*;

use crate::text;

verus! {

/// What the program is to do.
#[derive(Clone, Copy, Debug, PartialEq, Eq, Structural)]
pub enum Task {
    /// The interactive table.
    Tui,
    /// One snapshot as a text table.
    Once,
    /// One snapshot as a JSON array.
    Json,
    /// Connectivity and permission diagnostics.
    Diag,
}

/// Options of a run.
#[derive(Clone, Copy, Debug, PartialEq, Eq, Structural)]
pub struct Opts {
    /// Which argument holds the interval, if one was given.
    pub interval: Option<usize>,
    pub resolve: bool,
    /// Capture the mouse for wheel-scroll. Off by default so the terminal's own
    /// text selection / copy keeps working.
    pub mouse: bool,
}

/// What a command line asks for.
#[derive(Clone, Copy, Debug, PartialEq, Eq, Structural)]
pub enum Invocation {
    Help,
    Version,
    Run(Task, Opts),
}

/// What is wrong with a command line.
#[derive(Debug, PartialEq, Eq)]
pub enum ArgError {
    /// `--interval` without a number of seconds that is large enough.
    Interval,
    /// An argument that means nothing.
    Unknown(String),
}

/// What an [`ArgError`] says, the argument as characters.
pub ghost enum ArgErrorView {
    Interval,
    Unknown(Seq<char>),
}

impl View for ArgError {
    type V = ArgErrorView;

    open spec fn view(&self) -> ArgErrorView {
        match *self {
            ArgError::Interval => ArgErrorView::Interval,
            ArgError::Unknown(s) => ArgErrorView::Unknown(s@),
        }
    }
}

/// The arguments as characters.
pub open spec fn arg_views(args: Seq<String>) -> Seq<Seq<char>> {
    args.map_values(|s: String| s@)
}

/// Whether one of the arguments is `flag`.
pub open spec fn given(args: Seq<Seq<char>>, flag: Seq<char>) -> bool {
    exists|i: int| 0 <= i < args.len() && #[trigger] args[i] == flag
}

/// The options without any argument.
pub open spec fn defaults() -> Opts {
    Opts { interval: None, resolve: true, mouse: false }
}

/// The options after the arguments from the `i`-th on, or what is wrong with the
/// first bad one of them. `seconds[i]` says whether the `i`-th argument is a
/// number of seconds long enough for an interval.
pub open spec fn scanned(args: Seq<Seq<char>>, seconds: Seq<bool>, i: int, opts: Opts) -> Result<
    Opts,
    ArgErrorView,
>
    decreases args.len() - i,
{
    if i >= args.len() {
        Ok(opts)
    } else if args[i] == "--interval"@ {
        if i + 1 < args.len() && seconds[i + 1] {
            scanned(args, seconds, i + 2, Opts { interval: Some((i + 1) as usize), ..opts })
        } else {
            Err(ArgErrorView::Interval)
        }
    } else if args[i] == "--no-resolve"@ {
        scanned(args, seconds, i + 1, Opts { resolve: false, ..opts })
    } else if args[i] == "--mouse"@ {
        scanned(args, seconds, i + 1, Opts { mouse: true, ..opts })
    } else if args[i] == "--once"@ || args[i] == "--json"@ || args[i] == "--diag"@ {
        scanned(args, seconds, i + 1, opts)
    } else {
        Err(ArgErrorView::Unknown(args[i]))
    }
}

/// The task: diagnostics before JSON before the table, and the interactive one
/// if none is asked for.
pub open spec fn task(args: Seq<Seq<char>>) -> Task {
    if given(args, "--diag"@) {
        Task::Diag
    } else if given(args, "--json"@) {
        Task::Json
    } else if given(args, "--once"@) {
        Task::Once
    } else {
        Task::Tui
    }
}

/// What the command line asks for. Help and version win over everything else,
/// wherever they stand.
pub open spec fn invocation(args: Seq<Seq<char>>, seconds: Seq<bool>) -> Result<
    Invocation,
    ArgErrorView,
> {
    if given(args, "--help"@) || given(args, "-h"@) {
        Ok(Invocation::Help)
    } else if given(args, "--version"@) || given(args, "-V"@) {
        Ok(Invocation::Version)
    } else {
        match scanned(args, seconds, 0, defaults()) {
            Ok(opts) => Ok(Invocation::Run(task(args), opts)),
            Err(e) => Err(e),
        }
    }
}

/// The view of an outcome.
pub open spec fn outcome<T>(r: Result<T, ArgError>) -> Result<T, ArgErrorView> {
    match r {
        Ok(x) => Ok(x),
        Err(e) => Err(e@),
    }
}

fn is_given(args: &Vec<String>, flag: &str) -> (r: bool)
    ensures
        r == given(arg_views(args@), flag@),
{
    let ghost views = arg_views(args@);
    let mut i: usize = 0;
    while i < args.len()
        invariant
            views == arg_views(args@),
            i <= args@.len(),
            forall|j: int| 0 <= j < i ==> #[trigger] views[j] != flag@,
        decreases args@.len() - i,
    {
        if text::same(args[i].as_str(), flag) {
            assert(views[i as int] == flag@);
            return true;
        }
        i += 1;
    }
    false
}

fn scan(args: &Vec<String>, seconds: &Vec<bool>) -> (r: Result<Opts, ArgError>)
    requires
        seconds@.len() == args@.len(),
    ensures
        outcome(r) == scanned(arg_views(args@), seconds@, 0, defaults()),
{
    let ghost views = arg_views(args@);
    let len: usize = args.len();
    let mut opts = Opts { interval: None, resolve: true, mouse: false };
    let mut i: usize = 0;
    while i < len
        invariant
            views == arg_views(args@),
            i <= len == args@.len() == seconds@.len(),
            scanned(views, seconds@, i as int, opts) == scanned(views, seconds@, 0, defaults()),
        decreases len - i,
    {
        let arg: &str = args[i].as_str();
        assert(views[i as int] == arg@);
        if text::same(arg, "--interval") {
            if len - i > 1 && seconds[i + 1] {
                opts.interval = Some(i + 1);
                i += 2;
                continue ;
            }
            return Err(ArgError::Interval);
        } else if text::same(arg, "--no-resolve") {
            opts.resolve = false;
        } else if text::same(arg, "--mouse") {
            opts.mouse = true;
        } else if text::same(arg, "--once") || text::same(arg, "--json") || text::same(
            arg,
            "--diag",
        ) {
        } else {
            return Err(ArgError::Unknown(arg.to_owned()));
        }
        i += 1;
    }
    Ok(opts)
}

/// Read the command line. `seconds[i]` says whether the `i`-th argument is a
/// number of seconds of at least 0.2.
pub fn parse_args(args: &Vec<String>, seconds: &Vec<bool>) -> (r: Result<Invocation, ArgError>)
    requires
        seconds@.len() == args@.len(),
    ensures
        outcome(r) == invocation(arg_views(args@), seconds@),
{
    if is_given(args, "--help") || is_given(args, "-h") {
        return Ok(Invocation::Help);
    }
    if is_given(args, "--version") || is_given(args, "-V") {
        return Ok(Invocation::Version);
    }
    match scan(args, seconds) {
        Ok(opts) => {
            let task: Task = if is_given(args, "--diag") {
                Task::Diag
            } else if is_given(args, "--json") {
                Task::Json
            } else if is_given(args, "--once") {
                Task::Once
            } else {
                Task::Tui
            };
            Ok(Invocation::Run(task, opts))
        },
        Err(e) => Err(e),
    }
}

impl ArgErrorView {
    /// What the user is told.
    pub open spec fn text(self) -> Seq<char> {
        match self {
            ArgErrorView::Interval => "netpeek: --interval needs a number of seconds >= 0.2"@,
            ArgErrorView::Unknown(arg) => "netpeek: unknown argument '"@ + arg + "' (try --help)"@,
        }
    }
}

impl ArgError {
    /// What the user is told.
    pub fn message(&self) -> (r: String)
        ensures
            r@ == self@.text(),
    {
        match self {
            ArgError::Interval => "netpeek: --interval needs a number of seconds >= 0.2".to_owned(),
            ArgError::Unknown(arg) => {
                let mut r: String = "netpeek: unknown argument '".to_owned();
                r.append(arg.as_str());
                r.append("' (try --help)");
                r
            },
        }
    }
}

// ---- laws ------------------------------------------------------------------

/// Whether the argument is a flag that stands by itself.
pub open spec fn plain_flag(arg: Seq<char>) -> bool {
    ||| arg == "--no-resolve"@
    ||| arg == "--mouse"@
    ||| arg == "--once"@
    ||| arg == "--json"@
    ||| arg == "--diag"@
}

/// Whether one of the arguments from the `i`-th up to the `k`-th is the flag.
pub open spec fn among(args: Seq<Seq<char>>, i: int, k: int, flag: Seq<char>) -> bool {
    exists|j: int| i <= j < k && #[trigger] args[j] == flag
}

proof fn lemma_flags_differ()
    ensures
        "--interval"@ != "--no-resolve"@,
        "--interval"@ != "--mouse"@,
        "--interval"@ != "--once"@,
        "--interval"@ != "--json"@,
        "--interval"@ != "--diag"@,
        "--no-resolve"@ != "--mouse"@,
        "--once"@ != "--no-resolve"@,
        "--once"@ != "--mouse"@,
        "--json"@ != "--no-resolve"@,
        "--json"@ != "--mouse"@,
        "--diag"@ != "--no-resolve"@,
        "--diag"@ != "--mouse"@,
{
    reveal_strlit("--interval");
    reveal_strlit("--no-resolve");
    reveal_strlit("--mouse");
    reveal_strlit("--once");
    reveal_strlit("--json");
    reveal_strlit("--diag");
    assert("--interval"@.len() == 10 && "--no-resolve"@.len() == 12 && "--mouse"@.len() == 7);
    assert("--once"@.len() == 6 && "--json"@.len() == 6 && "--diag"@.len() == 6);
}

proof fn lemma_scan_flags(args: Seq<Seq<char>>, seconds: Seq<bool>, i: int, k: int, opts: Opts)
    requires
        0 <= i <= k <= args.len(),
        forall|j: int| i <= j < k ==> plain_flag(#[trigger] args[j]),
    ensures
        scanned(args, seconds, i, opts) == scanned(
            args,
            seconds,
            k,
            Opts {
                interval: opts.interval,
                resolve: opts.resolve && !among(args, i, k, "--no-resolve"@),
                mouse: opts.mouse || among(args, i, k, "--mouse"@),
            },
        ),
    decreases k - i,
{
    if i < k {
        lemma_flags_differ();
        assert(plain_flag(args[i]));
        let next = Opts {
            interval: opts.interval,
            resolve: opts.resolve && args[i] != "--no-resolve"@,
            mouse: opts.mouse || args[i] == "--mouse"@,
        };
        assert(scanned(args, seconds, i, opts) == scanned(args, seconds, i + 1, next));
        lemma_scan_flags(args, seconds, i + 1, k, next);
        lemma_among(args, i, k, "--no-resolve"@);
        lemma_among(args, i, k, "--mouse"@);
    } else {
        assert(!among(args, i, k, "--no-resolve"@) && !among(args, i, k, "--mouse"@));
    }
}

proof fn lemma_among(args: Seq<Seq<char>>, i: int, k: int, flag: Seq<char>)
    requires
        0 <= i < k <= args.len(),
    ensures
        among(args, i, k, flag) <==> args[i] == flag || among(args, i + 1, k, flag),
{
    if among(args, i, k, flag) {
        let j = choose|j: int| i <= j < k && #[trigger] args[j] == flag;
        assert(args[j] == flag);
    }
    if among(args, i + 1, k, flag) {
        let j = choose|j: int| i + 1 <= j < k && #[trigger] args[j] == flag;
        assert(i <= j < k && args[j] == flag);
    }
}

/// A question for help is answered whatever else is asked, and one for the version
/// unless help is asked for.
pub proof fn law_help_and_version_win(args: Seq<Seq<char>>, seconds: Seq<bool>, i: int)
    requires
        0 <= i < args.len(),
    ensures
        args[i] == "--help"@ || args[i] == "-h"@ ==> invocation(args, seconds) == Ok::<
            Invocation,
            ArgErrorView,
        >(Invocation::Help),
        (args[i] == "--version"@ || args[i] == "-V"@) && !among(
            args,
            0,
            args.len() as int,
            "--help"@,
        ) && !among(args, 0, args.len() as int, "-h"@) ==> invocation(args, seconds) == Ok::<
            Invocation,
            ArgErrorView,
        >(Invocation::Version),
{
    lemma_given(args, "--help"@);
    lemma_given(args, "-h"@);
    lemma_given(args, "--version"@);
    lemma_given(args, "-V"@);
    assert(among(args, 0, args.len() as int, args[i]));
}

proof fn lemma_given(args: Seq<Seq<char>>, flag: Seq<char>)
    ensures
        given(args, flag) <==> among(args, 0, args.len() as int, flag),
{
    if given(args, flag) {
        let j = choose|j: int| 0 <= j < args.len() && #[trigger] args[j] == flag;
        assert(args[j] == flag);
    }
    if among(args, 0, args.len() as int, flag) {
        let j = choose|j: int| 0 <= j < args.len() && #[trigger] args[j] == flag;
        assert(args[j] == flag);
    }
}

/// Whether neither help nor the version is asked for.
pub open spec fn asks_to_run(args: Seq<Seq<char>>) -> bool {
    let n = args.len() as int;
    &&& !among(args, 0, n, "--help"@) && !among(args, 0, n, "-h"@)
    &&& !among(args, 0, n, "--version"@) && !among(args, 0, n, "-V"@)
}

proof fn lemma_asks_to_run(args: Seq<Seq<char>>, seconds: Seq<bool>)
    requires
        asks_to_run(args),
    ensures
        invocation(args, seconds) == match scanned(args, seconds, 0, defaults()) {
            Ok(opts) => Ok(Invocation::Run(task(args), opts)),
            Err(e) => Err(e),
        },
{
    lemma_given(args, "--help"@);
    lemma_given(args, "-h"@);
    lemma_given(args, "--version"@);
    lemma_given(args, "-V"@);
}

/// Flags alone: each turns its own option from its default, in any order, and
/// diagnostics go before JSON and JSON before the table.
pub proof fn law_flags_turn_their_options(args: Seq<Seq<char>>, seconds: Seq<bool>)
    requires
        asks_to_run(args),
        forall|j: int| 0 <= j < args.len() ==> plain_flag(#[trigger] args[j]),
    ensures
        ({
            let n = args.len() as int;
            invocation(args, seconds) == Ok::<Invocation, ArgErrorView>(
                Invocation::Run(
                    if among(args, 0, n, "--diag"@) {
                        Task::Diag
                    } else if among(args, 0, n, "--json"@) {
                        Task::Json
                    } else if among(args, 0, n, "--once"@) {
                        Task::Once
                    } else {
                        Task::Tui
                    },
                    Opts {
                        interval: None,
                        resolve: !among(args, 0, n, "--no-resolve"@),
                        mouse: among(args, 0, n, "--mouse"@),
                    },
                ),
            )
        }),
{
    lemma_asks_to_run(args, seconds);
    lemma_scan_flags(args, seconds, 0, args.len() as int, defaults());
    lemma_given(args, "--diag"@);
    lemma_given(args, "--json"@);
    lemma_given(args, "--once"@);
}

/// An interval takes the argument after it, which must be there and be long
/// enough; what stands around it counts as ever.
pub proof fn law_interval_takes_the_next_argument(
    args: Seq<Seq<char>>,
    seconds: Seq<bool>,
    k: int,
)
    requires
        asks_to_run(args),
        0 <= k < args.len(),
        args[k] == "--interval"@,
        forall|j: int| 0 <= j < k ==> plain_flag(#[trigger] args[j]),
    ensures
        k + 1 == args.len() || !seconds[k + 1] ==> invocation(args, seconds) == Err::<
            Invocation,
            ArgErrorView,
        >(ArgErrorView::Interval),
        k + 1 < args.len() <= usize::MAX && seconds[k + 1] && (forall|j: int|
            k + 2 <= j < args.len() ==> plain_flag(#[trigger] args[j])) ==> {
            let n = args.len() as int;
            invocation(args, seconds) matches Ok(Invocation::Run(_, opts)) && opts.interval
                is Some && opts.interval->0 == k + 1 && opts.resolve == (!among(
                args,
                0,
                k,
                "--no-resolve"@,
            ) && !among(args, k + 2, n, "--no-resolve"@)) && opts.mouse == (among(
                args,
                0,
                k,
                "--mouse"@,
            ) || among(args, k + 2, n, "--mouse"@))
        },
{
    lemma_asks_to_run(args, seconds);
    lemma_scan_flags(args, seconds, 0, k, defaults());
    if k + 1 < args.len() && seconds[k + 1] && (forall|j: int|
        k + 2 <= j < args.len() ==> plain_flag(#[trigger] args[j])) {
        lemma_scan_flags(
            args,
            seconds,
            k + 2,
            args.len() as int,
            Opts {
                interval: Some((k + 1) as usize),
                resolve: !among(args, 0, k, "--no-resolve"@),
                mouse: among(args, 0, k, "--mouse"@),
            },
        );
    }
}

/// The first argument that means nothing is the one complained about, by its own
/// text.
pub proof fn law_unknown_argument_is_named(args: Seq<Seq<char>>, seconds: Seq<bool>, k: int)
    requires
        asks_to_run(args),
        0 <= k < args.len(),
        !plain_flag(args[k]),
        args[k] != "--interval"@,
        forall|j: int| 0 <= j < k ==> plain_flag(#[trigger] args[j]),
    ensures
        invocation(args, seconds) == Err::<Invocation, ArgErrorView>(
            ArgErrorView::Unknown(args[k]),
        ),
{
    lemma_asks_to_run(args, seconds);
    lemma_scan_flags(args, seconds, 0, k, defaults());
}

/// What the user is told names the argument that is wrong.
pub proof fn law_complaints_name_the_argument(arg: Seq<char>)
    ensures
        ArgErrorView::Unknown(arg).text() == "netpeek: unknown argument '"@ + arg
            + "' (try --help)"@,
        ArgErrorView::Interval.text() == "netpeek: --interval needs a number of seconds >= 0.2"@,
{
}

/// The task goes by the arguments, diagnostics before JSON before the table.
pub proof fn law_tasks(args: Seq<Seq<char>>)
    ensures
        ({
            let n = args.len() as int;
            &&& among(args, 0, n, "--diag"@) ==> task(args) == Task::Diag
            &&& !among(args, 0, n, "--diag"@) && among(args, 0, n, "--json"@) ==> task(args)
                == Task::Json
            &&& !among(args, 0, n, "--diag"@) && !among(args, 0, n, "--json"@) && among(
                args,
                0,
                n,
                "--once"@,
            ) ==> task(args) == Task::Once
            &&& !among(args, 0, n, "--diag"@) && !among(args, 0, n, "--json"@) && !among(
                args,
                0,
                n,
                "--once"@,
            ) ==> task(args) == Task::Tui
        }),
{
    lemma_given(args, "--diag"@);
    lemma_given(args, "--json"@);
    lemma_given(args, "--once"@);
}

/// Arguments are read in turn: an interval takes the next one along and replaces
/// one given before, a flag turns its own option, and the first that is wrong ends
/// the reading.
pub proof fn law_arguments_are_read_in_turn(
    args: Seq<Seq<char>>,
    seconds: Seq<bool>,
    i: int,
    opts: Opts,
)
    requires
        0 <= i < args.len(),
    ensures
        scanned(args, seconds, args.len() as int, opts) == Ok::<Opts, ArgErrorView>(opts),
        args[i] == "--interval"@ && i + 1 < args.len() && seconds[i + 1] ==> scanned(
            args,
            seconds,
            i,
            opts,
        ) == scanned(
            args,
            seconds,
            i + 2,
            Opts {
                interval: Some((i + 1) as usize),
                resolve: opts.resolve,
                mouse: opts.mouse,
            },
        ),
        args[i] == "--interval"@ && (i + 1 == args.len() || !seconds[i + 1]) ==> scanned(
            args,
            seconds,
            i,
            opts,
        ) == Err::<Opts, ArgErrorView>(ArgErrorView::Interval),
        plain_flag(args[i]) ==> scanned(args, seconds, i, opts) == scanned(
            args,
            seconds,
            i + 1,
            Opts {
                interval: opts.interval,
                resolve: opts.resolve && args[i] != "--no-resolve"@,
                mouse: opts.mouse || args[i] == "--mouse"@,
            },
        ),
        args[i] != "--interval"@ && !plain_flag(args[i]) ==> scanned(args, seconds, i, opts)
            == Err::<Opts, ArgErrorView>(ArgErrorView::Unknown(args[i])),
{
    lemma_flags_differ();
}

/// A run has the task that the arguments ask for and the options that they leave,
/// starting with names resolved, the mouse left alone and the usual interval.
pub proof fn law_run_has_its_task_and_options(args: Seq<Seq<char>>, seconds: Seq<bool>)
    requires
        asks_to_run(args),
    ensures
        ({
            let start = Opts { interval: None, resolve: true, mouse: false };
            match scanned(args, seconds, 0, start) {
                Ok(opts) => invocation(args, seconds) == Ok::<Invocation, ArgErrorView>(
                    Invocation::Run(task(args), opts),
                ),
                Err(e) => invocation(args, seconds) == Err::<Invocation, ArgErrorView>(e),
            }
        }),
{
    lemma_asks_to_run(args, seconds);
}

/// Arguments and errors are the same in ghost code.
pub proof fn law_arguments_are_faithful(args: Seq<String>, i: int, arg: String, opts: Opts)
    ensures
        arg_views(args).len() == args.len(),
        0 <= i < args.len() ==> arg_views(args)[i] == args[i]@,
        ArgError::Interval@ == ArgErrorView::Interval,
        ArgError::Unknown(arg)@ == ArgErrorView::Unknown(arg@),
        outcome(Ok::<Opts, ArgError>(opts)) == Ok::<Opts, ArgErrorView>(opts),
        outcome(Err::<Opts, ArgError>(ArgError::Unknown(arg))) == Err::<Opts, ArgErrorView>(
            ArgErrorView::Unknown(arg@),
        ),
{
}

} // verus!
