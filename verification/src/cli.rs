//! The command line.

use crate::number::{is_real_number, parse_usize, parsed_usize, real_number};
use crate::path::{optional_path, path_or, root_or_default};
use crate::text::{begins, characters, ends, equals, join_texts, views};
use vstd::prelude::*;
use vstd::utf8::encode_utf8;

verus! {

/// How the program is called.
pub const USAGE: &'static str = "bbtop [--no-tui] [--listen ADDRESS] [--interval SECONDS] [--top COUNT]\n\
\nOptions:\n\
--no-tui           run only the Prometheus exporter\n\
--listen ADDRESS   exporter address (default 127.0.0.1:9099)\n\
--interval SEC     collection interval (default 2)\n\
--top COUNT        process series exported (default 50)\n\
-h, --help         show this help";

/// How the program is called.
pub fn usage() -> (r: &'static str)
    ensures
        r@ == USAGE@,
{
    USAGE
}

/// A span of time.
#[derive(Clone, Copy, Debug, PartialEq, Eq, Structural)]
pub struct Span {
    pub seconds: u64,
    /// Beyond the seconds.
    pub nanoseconds: u32,
}

/// How the real number in an argument serves as an interval of so many seconds.
#[derive(Clone, Copy, Debug, PartialEq, Eq, Structural)]
pub enum Interval {
    /// It is below a fifth of a second, or not finite.
    Short,
    /// It is this one.
    Fair(Span),
    /// It is more than a duration holds.
    Long,
}

/// An argument. What is said of it as an interval counts only where it spells a
/// real number.
pub struct Argument {
    pub text: String,
    pub interval: Interval,
}

/// The view of `Argument`.
#[verifier::ext_equal]
pub struct ArgumentView {
    pub text: Seq<char>,
    pub interval: Interval,
}

impl View for Argument {
    type V = ArgumentView;

    open spec fn view(&self) -> ArgumentView {
        ArgumentView { text: self.text@, interval: self.interval }
    }
}

/// What the environment says of where the host is found, as far as it says it.
pub struct Environment {
    /// `BBTOP_PROC_ROOT`.
    pub proc_root: Option<Vec<u8>>,
    /// `BBTOP_FILESYSTEM_ROOT`.
    pub filesystem_root: Option<Vec<u8>>,
    /// `BBTOP_RUNTIME_ROOT`.
    pub runtime_root: Option<Vec<u8>>,
}

/// The view of `Environment`.
#[verifier::ext_equal]
pub struct EnvironmentView {
    pub proc_root: Option<Seq<u8>>,
    pub filesystem_root: Option<Seq<u8>>,
    pub runtime_root: Option<Seq<u8>>,
}

impl View for Environment {
    type V = EnvironmentView;

    open spec fn view(&self) -> EnvironmentView {
        EnvironmentView {
            proc_root: optional_path(self.proc_root),
            filesystem_root: optional_path(self.filesystem_root),
            runtime_root: optional_path(self.runtime_root),
        }
    }
}

/// How the program runs.
#[derive(Debug)]
pub struct Config {
    pub listen: String,
    /// The time between two collections.
    pub interval: Span,
    pub process_limit: usize,
    pub proc_root: Vec<u8>,
    pub filesystem_root: Vec<u8>,
    /// Where the privileged helpers publish the readings the exporter cannot take
    /// itself: NVMe SMART and per-process network bytes.
    pub runtime_root: Vec<u8>,
    pub tui: bool,
}

/// The view of `Config`.
#[verifier::ext_equal]
pub struct ConfigView {
    pub listen: Seq<char>,
    pub interval: Span,
    pub process_limit: usize,
    pub proc_root: Seq<u8>,
    pub filesystem_root: Seq<u8>,
    pub runtime_root: Seq<u8>,
    pub tui: bool,
}

impl View for Config {
    type V = ConfigView;

    open spec fn view(&self) -> ConfigView {
        ConfigView {
            listen: self.listen@,
            interval: self.interval,
            process_limit: self.process_limit,
            proc_root: self.proc_root@,
            filesystem_root: self.filesystem_root@,
            runtime_root: self.runtime_root@,
            tui: self.tui,
        }
    }
}

/// What is wrong with a command line.
#[derive(Debug)]
pub enum UsageError {
    ListenValue,
    IntervalValue,
    IntervalNumber,
    IntervalShort,
    TopValue,
    TopNumber,
    Unknown(String),
}

/// The view of `UsageError`.
#[verifier::ext_equal]
pub enum UsageErrorView {
    ListenValue,
    IntervalValue,
    IntervalNumber,
    IntervalShort,
    TopValue,
    TopNumber,
    Unknown(Seq<char>),
}

impl View for UsageError {
    type V = UsageErrorView;

    open spec fn view(&self) -> UsageErrorView {
        match self {
            UsageError::ListenValue => UsageErrorView::ListenValue,
            UsageError::IntervalValue => UsageErrorView::IntervalValue,
            UsageError::IntervalNumber => UsageErrorView::IntervalNumber,
            UsageError::IntervalShort => UsageErrorView::IntervalShort,
            UsageError::TopValue => UsageErrorView::TopValue,
            UsageError::TopNumber => UsageErrorView::TopNumber,
            UsageError::Unknown(argument) => UsageErrorView::Unknown(argument@),
        }
    }
}

impl UsageErrorView {
    /// What is said of the error.
    pub open spec fn text(self) -> Seq<char> {
        match self {
            UsageErrorView::ListenValue => "--listen needs a value"@,
            UsageErrorView::IntervalValue => "--interval needs a value"@,
            UsageErrorView::IntervalNumber => "--interval must be a number"@,
            UsageErrorView::IntervalShort => "--interval must be at least 0.2 seconds"@,
            UsageErrorView::TopValue => "--top needs a value"@,
            UsageErrorView::TopNumber => "--top must be a positive integer"@,
            UsageErrorView::Unknown(argument) => "unknown argument: "@ + argument,
        }
    }
}

impl UsageError {
    /// What is said of the error.
    pub fn message(&self) -> (r: String)
        ensures
            r@ == self@.text(),
    {
        match self {
            UsageError::ListenValue => "--listen needs a value".to_owned(),
            UsageError::IntervalValue => "--interval needs a value".to_owned(),
            UsageError::IntervalNumber => "--interval must be a number".to_owned(),
            UsageError::IntervalShort => "--interval must be at least 0.2 seconds".to_owned(),
            UsageError::TopValue => "--top needs a value".to_owned(),
            UsageError::TopNumber => "--top must be a positive integer".to_owned(),
            UsageError::Unknown(argument) => join_texts("unknown argument: ", argument.as_str()),
        }
    }
}

/// What becomes of a command line.
#[verifier::ext_equal]
pub enum OutcomeView {
    Run(ConfigView),
    Help,
    Wrong(UsageErrorView),
    /// An interval is more than a duration holds.
    Overlong,
}

/// How the program runs where the command line says nothing: on the local address,
/// every two seconds, with the fifty first of each ranking and with a terminal view,
/// on the host that the environment names or on this one.
pub open spec fn default_config(environment: EnvironmentView) -> ConfigView {
    ConfigView {
        listen: "127.0.0.1:9099"@,
        interval: Span { seconds: 2, nanoseconds: 0 },
        process_limit: 50,
        proc_root: path_or(environment.proc_root, "/proc"@),
        filesystem_root: path_or(environment.filesystem_root, "/"@),
        runtime_root: path_or(environment.runtime_root, "/run/bbtop"@),
        tui: true,
    }
}

/// Whether an interval is shorter than a fifth of a second.
pub open spec fn below_minimum(interval: Span) -> bool {
    interval.seconds == 0 && interval.nanoseconds < 200_000_000
}

/// What becomes of the arguments from position `at` on, after what was asked for
/// before. They are read from the first to the last; the first that is wrong, or
/// that asks for help, decides, and of several for one thing the last counts.
pub open spec fn outcome_from(args: Seq<ArgumentView>, at: int, config: ConfigView) -> OutcomeView
    decreases args.len() - at,
{
    if at < 0 || at >= args.len() {
        OutcomeView::Run(config)
    } else {
        let text = args[at].text;
        if text == "-h"@ || text == "--help"@ {
            OutcomeView::Help
        } else if text == "--no-tui"@ {
            outcome_from(args, at + 1, ConfigView { tui: false, ..config })
        } else if text == "--listen"@ {
            if at + 1 >= args.len() {
                OutcomeView::Wrong(UsageErrorView::ListenValue)
            } else {
                outcome_from(
                    args,
                    at + 2,
                    ConfigView { listen: args[at + 1].text, ..config },
                )
            }
        } else if text == "--interval"@ {
            if at + 1 >= args.len() {
                OutcomeView::Wrong(UsageErrorView::IntervalValue)
            } else if !real_number(args[at + 1].text) {
                OutcomeView::Wrong(UsageErrorView::IntervalNumber)
            } else {
                match args[at + 1].interval {
                    Interval::Short => OutcomeView::Wrong(UsageErrorView::IntervalShort),
                    Interval::Long => OutcomeView::Overlong,
                    Interval::Fair(span) => if below_minimum(span) {
                        OutcomeView::Wrong(UsageErrorView::IntervalShort)
                    } else {
                        outcome_from(args, at + 2, ConfigView { interval: span, ..config })
                    },
                }
            }
        } else if text == "--top"@ {
            if at + 1 >= args.len() {
                OutcomeView::Wrong(UsageErrorView::TopValue)
            } else {
                match parsed_usize(args[at + 1].text) {
                    Some(limit) => if limit == 0 {
                        OutcomeView::Wrong(UsageErrorView::TopNumber)
                    } else {
                        outcome_from(
                            args,
                            at + 2,
                            ConfigView { process_limit: limit, ..config },
                        )
                    },
                    None => OutcomeView::Wrong(UsageErrorView::TopNumber),
                }
            }
        } else {
            OutcomeView::Wrong(UsageErrorView::Unknown(text))
        }
    }
}

/// What becomes of a command line.
pub open spec fn outcome_of(
    args: Seq<ArgumentView>,
    environment: EnvironmentView,
) -> OutcomeView {
    outcome_from(args, 0, default_config(environment))
}

enum Outcome {
    Run(Config),
    Help,
    Wrong(UsageError),
    Overlong,
}

impl View for Outcome {
    type V = OutcomeView;

    closed spec fn view(&self) -> OutcomeView {
        match self {
            Outcome::Run(config) => OutcomeView::Run(config@),
            Outcome::Help => OutcomeView::Help,
            Outcome::Wrong(error) => OutcomeView::Wrong(error@),
            Outcome::Overlong => OutcomeView::Overlong,
        }
    }
}

fn is(text: &String, other: &str) -> (r: bool)
    ensures
        r == (text@ == other@),
{
    equals(characters(text.as_str()).as_slice(), other)
}

fn read_outcome(args: &Vec<Argument>, environment: &Environment) -> (r: Outcome)
    ensures
        r@ == outcome_of(views(args@), environment@),
{
    let ghost seen = views(args@);
    let mut listen: String = "127.0.0.1:9099".to_owned();
    let mut interval: Span = Span { seconds: 2, nanoseconds: 0 };
    let mut process_limit: usize = 50;
    let mut tui: bool = true;
    let mut at: usize = 0;
    let total: usize = args.len();
    while at < total
        invariant
            at <= total,
            total == args@.len(),
            seen == views(args@),
            outcome_of(seen, environment@) == outcome_from(
                seen,
                at as int,
                ConfigView {
                    listen: listen@,
                    interval,
                    process_limit,
                    tui,
                    ..default_config(environment@)
                },
            ),
        decreases total - at,
    {
        let text: &String = &args[at].text;
        assert(seen[at as int] == args@[at as int]@);
        if is(text, "-h") || is(text, "--help") {
            return Outcome::Help;
        } else if is(text, "--no-tui") {
            tui = false;
            at += 1;
        } else if is(text, "--listen") {
            if total - at < 2 {
                return Outcome::Wrong(UsageError::ListenValue);
            }
            assert(seen[at + 1] == args@[at + 1]@);
            listen = args[at + 1].text.clone();
            at += 2;
        } else if is(text, "--interval") {
            if total - at < 2 {
                return Outcome::Wrong(UsageError::IntervalValue);
            }
            let value: &Argument = &args[at + 1];
            assert(seen[at + 1] == value@);
            if !is_real_number(characters(value.text.as_str()).as_slice()) {
                return Outcome::Wrong(UsageError::IntervalNumber);
            }
            match value.interval {
                Interval::Short => {
                    return Outcome::Wrong(UsageError::IntervalShort);
                },
                Interval::Long => {
                    return Outcome::Overlong;
                },
                Interval::Fair(span) => {
                    if span.seconds == 0 && span.nanoseconds < 200_000_000 {
                        return Outcome::Wrong(UsageError::IntervalShort);
                    }
                    interval = span;
                },
            }
            at += 2;
        } else if is(text, "--top") {
            if total - at < 2 {
                return Outcome::Wrong(UsageError::TopValue);
            }
            assert(seen[at + 1] == args@[at + 1]@);
            match parse_usize(characters(args[at + 1].text.as_str()).as_slice()) {
                Some(limit) => {
                    if limit == 0 {
                        return Outcome::Wrong(UsageError::TopNumber);
                    }
                    process_limit = limit;
                },
                None => {
                    return Outcome::Wrong(UsageError::TopNumber);
                },
            }
            at += 2;
        } else {
            return Outcome::Wrong(UsageError::Unknown(text.clone()));
        }
    }
    Outcome::Run(
        Config {
            listen,
            interval,
            process_limit,
            proc_root: root_or_default(&environment.proc_root, "/proc"),
            filesystem_root: root_or_default(&environment.filesystem_root, "/"),
            runtime_root: root_or_default(&environment.runtime_root, "/run/bbtop"),
            tui,
        },
    )
}

/// Whether a command line asks for an interval that is more than a duration holds.
pub fn is_overlong(args: &Vec<Argument>, environment: &Environment) -> (r: bool)
    ensures
        r == (outcome_of(views(args@), environment@) is Overlong),
{
    match read_outcome(args, environment) {
        Outcome::Overlong => true,
        _ => false,
    }
}

/// Reads a command line: how the program is to run, nothing where help is asked for,
/// or what is wrong with it.
pub fn parse_args(args: &Vec<Argument>, environment: &Environment) -> (r: Result<
    Option<Config>,
    UsageError,
>)
    requires
        !(outcome_of(views(args@), environment@) is Overlong),
    ensures
        match r {
            Ok(Some(config)) => outcome_of(views(args@), environment@) == OutcomeView::Run(
                config@,
            ),
            Ok(None) => outcome_of(views(args@), environment@) is Help,
            Err(error) => outcome_of(views(args@), environment@) == OutcomeView::Wrong(error@),
        },
{
    match read_outcome(args, environment) {
        Outcome::Run(config) => Ok(Some(config)),
        Outcome::Wrong(error) => Err(error),
        Outcome::Help => Ok(None),
        Outcome::Overlong => Ok(None),
    }
}

/// Without arguments the program runs with the defaults, and the roots are those of
/// the environment whatever the arguments are.
pub proof fn law_defaults_and_roots(args: Seq<ArgumentView>, environment: EnvironmentView)
    ensures
        args.len() == 0 ==> outcome_of(args, environment) == OutcomeView::Run(
            default_config(environment),
        ),
        outcome_of(args, environment) matches OutcomeView::Run(config) ==> {
            &&& config.proc_root == path_or(environment.proc_root, "/proc"@)
            &&& config.filesystem_root == path_or(environment.filesystem_root, "/"@)
            &&& config.runtime_root == path_or(environment.runtime_root, "/run/bbtop"@)
        },
{
    lemma_kept(args, 0, default_config(environment));
}

/// A process limit is never zero.
pub proof fn law_the_limit_is_positive(args: Seq<ArgumentView>, environment: EnvironmentView)
    ensures
        outcome_of(args, environment) matches OutcomeView::Run(config) ==> config.process_limit
            > 0,
{
    lemma_kept(args, 0, default_config(environment));
}

/// An interval is never shorter than a fifth of a second.
pub proof fn law_the_interval_is_long_enough(args: Seq<ArgumentView>, environment: EnvironmentView)
    ensures
        outcome_of(args, environment) matches OutcomeView::Run(config) ==> config.interval.seconds
            > 0 || config.interval.nanoseconds >= 200_000_000,
{
    lemma_kept(args, 0, default_config(environment));
}

/// Whatever the arguments are, a positive limit stays positive, an interval stays long
/// enough, and the roots stay.
proof fn lemma_kept(args: Seq<ArgumentView>, at: int, config: ConfigView)
    requires
        config.process_limit > 0,
        !below_minimum(config.interval),
    ensures
        outcome_from(args, at, config) matches OutcomeView::Run(found) ==> {
            &&& found.process_limit > 0
            &&& !below_minimum(found.interval)
            &&& found.proc_root == config.proc_root
            &&& found.filesystem_root == config.filesystem_root
            &&& found.runtime_root == config.runtime_root
        },
    decreases args.len() - at,
{
    if 0 <= at < args.len() {
        let text = args[at].text;
        if text == "--no-tui"@ {
            lemma_kept(args, at + 1, ConfigView { tui: false, ..config });
        }
        if at + 1 < args.len() {
            let value = args[at + 1];
            lemma_kept(args, at + 2, ConfigView { listen: value.text, ..config });
            if let Interval::Fair(span) = value.interval {
                if !below_minimum(span) {
                    lemma_kept(args, at + 2, ConfigView { interval: span, ..config });
                }
            }
            if let Some(limit) = parsed_usize(value.text) {
                if limit > 0 {
                    lemma_kept(args, at + 2, ConfigView { process_limit: limit, ..config });
                }
            }
        }
    }
}

/// How the program runs by itself: it listens on the local address, collects every two
/// seconds, exports the first fifty of each ranking and shows the terminal view.
pub proof fn law_the_defaults(environment: EnvironmentView)
    ensures
        outcome_of(Seq::empty(), environment) matches OutcomeView::Run(config) && {
            &&& config.listen == "127.0.0.1:9099"@
            &&& config.interval.seconds == 2
            &&& config.interval.nanoseconds == 0
            &&& config.process_limit == 50
            &&& config.tui
            &&& environment.proc_root is Some ==> config.proc_root == environment.proc_root->0
            &&& environment.filesystem_root is Some ==> config.filesystem_root
                == environment.filesystem_root->0
            &&& environment.runtime_root is Some ==> config.runtime_root
                == environment.runtime_root->0
            &&& environment.proc_root is None ==> config.proc_root == encode_utf8("/proc"@)
            &&& environment.filesystem_root is None ==> config.filesystem_root == encode_utf8(
                "/"@,
            )
            &&& environment.runtime_root is None ==> config.runtime_root == encode_utf8(
                "/run/bbtop"@,
            )
        },
{
}

proof fn lemma_arguments_behind(
    args: Seq<ArgumentView>,
    more: Seq<ArgumentView>,
    at: int,
    config: ConfigView,
)
    requires
        0 <= at <= args.len(),
        outcome_from(args, at, config) is Run,
    ensures
        outcome_from(args + more, at, config) == outcome_from(
            args + more,
            args.len() as int,
            outcome_from(args, at, config)->Run_0,
        ),
    decreases args.len() - at,
{
    if at < args.len() {
        let text = args[at].text;
        assert((args + more)[at] == args[at]);
        if at + 1 < args.len() {
            assert((args + more)[at + 1] == args[at + 1]);
        }
        if text == "--no-tui"@ {
            lemma_arguments_behind(args, more, at + 1, ConfigView { tui: false, ..config });
        } else if text == "--listen"@ {
            lemma_arguments_behind(
                args,
                more,
                at + 2,
                ConfigView { listen: args[at + 1].text, ..config },
            );
        } else if text == "--interval"@ {
            lemma_arguments_behind(
                args,
                more,
                at + 2,
                ConfigView { interval: args[at + 1].interval->Fair_0, ..config },
            );
        } else if text == "--top"@ {
            lemma_arguments_behind(
                args,
                more,
                at + 2,
                ConfigView { process_limit: parsed_usize(args[at + 1].text)->0, ..config },
            );
        }
    }
}

proof fn lemma_options()
    ensures
        "-h"@ != "--no-tui"@ && "-h"@ != "--listen"@ && "-h"@ != "--interval"@ && "-h"@ != "--top"@,
        "--help"@ != "--no-tui"@ && "--help"@ != "--listen"@ && "--help"@ != "--interval"@
            && "--help"@ != "--top"@,
        "--no-tui"@ != "--listen"@ && "--no-tui"@ != "--interval"@ && "--no-tui"@ != "--top"@,
        "--listen"@ != "--interval"@ && "--listen"@ != "--top"@ && "--interval"@ != "--top"@,
{
    reveal_strlit("-h");
    reveal_strlit("--help");
    reveal_strlit("--no-tui");
    reveal_strlit("--listen");
    reveal_strlit("--interval");
    reveal_strlit("--top");
    assert("--help"@[2] == 'h' && "--no-tui"@[2] == 'n' && "--listen"@[2] == 'l');
    assert("--interval"@[2] == 'i' && "--top"@[2] == 't');
    assert("-h"@.len() == 2);
}

/// An option behind a command line that runs changes what it names and nothing else: the
/// address, the interval, the limit or the view.
pub proof fn law_an_option_changes_what_it_names(
    args: Seq<ArgumentView>,
    environment: EnvironmentView,
    option: ArgumentView,
    value: ArgumentView,
)
    requires
        outcome_of(args, environment) is Run,
    ensures
        ({
            let config = outcome_of(args, environment)->Run_0;
            let alone = outcome_of(args.push(option), environment);
            let both = outcome_of(args + seq![option, value], environment);
            &&& option.text == "--no-tui"@ ==> alone == OutcomeView::Run(
                (ConfigView { tui: false, ..config }),
            )
            &&& option.text == "-h"@ || option.text == "--help"@ ==> alone == OutcomeView::Help
            &&& option.text == "--listen"@ ==> both == OutcomeView::Run(
                (ConfigView { listen: value.text, ..config }),
            )
            &&& option.text == "--interval"@ && real_number(value.text) ==> {
                &&& value.interval matches Interval::Fair(span) ==> (span.seconds > 0
                    || span.nanoseconds >= 200_000_000 ==> both == OutcomeView::Run(
                    (ConfigView { interval: span, ..config }),
                ))
                &&& value.interval is Long ==> both == OutcomeView::Overlong
            }
            &&& option.text == "--top"@ ==> (parsed_usize(value.text) matches Some(limit) ==> (
            limit > 0 ==> both == OutcomeView::Run(
                (ConfigView { process_limit: limit, ..config }),
            )))
        }),
{
    let config = outcome_of(args, environment)->Run_0;
    let first = default_config(environment);
    let n = args.len() as int;
    lemma_options();
    lemma_arguments_behind(args, seq![option], 0, first);
    lemma_arguments_behind(args, seq![option, value], 0, first);
    assert(args.push(option) =~= args + seq![option]);
    let one = args + seq![option];
    let two = args + seq![option, value];
    assert(one[n] == option && two[n] == option && two[n + 1] == value);
    assert(outcome_from(one, n + 1, ConfigView { tui: false, ..config }) == OutcomeView::Run(
        (ConfigView { tui: false, ..config }),
    ));
    reveal_with_fuel(outcome_from, 2);
}

/// An option behind a command line that runs is refused with its own complaint: without a
/// value where it needs one, with a value that is no number, an interval below a fifth of
/// a second or a limit of zero, and where it is unknown.
pub proof fn law_a_wrong_option_is_refused(
    args: Seq<ArgumentView>,
    environment: EnvironmentView,
    option: ArgumentView,
    value: ArgumentView,
)
    requires
        outcome_of(args, environment) is Run,
    ensures
        ({
            let alone = outcome_of(args.push(option), environment);
            let both = outcome_of(args + seq![option, value], environment);
            &&& option.text == "--listen"@ ==> alone == OutcomeView::Wrong(
                UsageErrorView::ListenValue,
            )
            &&& option.text == "--interval"@ ==> alone == OutcomeView::Wrong(
                UsageErrorView::IntervalValue,
            )
            &&& option.text == "--top"@ ==> alone == OutcomeView::Wrong(UsageErrorView::TopValue)
            &&& option.text == "--interval"@ && !real_number(value.text) ==> both
                == OutcomeView::Wrong(UsageErrorView::IntervalNumber)
            &&& option.text == "--interval"@ && real_number(value.text) && value.interval is Short
                ==> both == OutcomeView::Wrong(UsageErrorView::IntervalShort)
            &&& option.text == "--interval"@ && real_number(value.text) ==> (
            value.interval matches Interval::Fair(span) ==> (span.seconds == 0 && span.nanoseconds
                < 200_000_000 ==> both == OutcomeView::Wrong(UsageErrorView::IntervalShort)))
            &&& option.text == "--top"@ && (parsed_usize(value.text) is None || parsed_usize(
                value.text,
            ) == Some(0usize)) ==> both == OutcomeView::Wrong(UsageErrorView::TopNumber)
            &&& option.text != "-h"@ && option.text != "--help"@ && option.text != "--no-tui"@
                && option.text != "--listen"@ && option.text != "--interval"@ && option.text
                != "--top"@ ==> alone == OutcomeView::Wrong(UsageErrorView::Unknown(option.text))
        }),
{
    let first = default_config(environment);
    let n = args.len() as int;
    lemma_options();
    lemma_arguments_behind(args, seq![option], 0, first);
    lemma_arguments_behind(args, seq![option, value], 0, first);
    assert(args.push(option) =~= args + seq![option]);
    let one = args + seq![option];
    let two = args + seq![option, value];
    assert(one[n] == option && two[n] == option && two[n + 1] == value);
}

/// What is said of an error names the option that it is about, or the argument that is
/// not known.
pub proof fn law_a_complaint_names_the_option(argument: Seq<char>)
    ensures
        begins(UsageErrorView::ListenValue.text(), "--listen "@),
        begins(UsageErrorView::IntervalValue.text(), "--interval "@),
        begins(UsageErrorView::IntervalNumber.text(), "--interval "@),
        begins(UsageErrorView::IntervalShort.text(), "--interval "@),
        begins(UsageErrorView::TopValue.text(), "--top "@),
        begins(UsageErrorView::TopNumber.text(), "--top "@),
        ends(UsageErrorView::ListenValue.text(), "needs a value"@),
        ends(UsageErrorView::IntervalValue.text(), "needs a value"@),
        ends(UsageErrorView::TopValue.text(), "needs a value"@),
        ends(UsageErrorView::IntervalNumber.text(), "must be a number"@),
        ends(UsageErrorView::IntervalShort.text(), "must be at least 0.2 seconds"@),
        ends(UsageErrorView::TopNumber.text(), "must be a positive integer"@),
        begins(UsageErrorView::Unknown(argument).text(), "unknown argument: "@),
        ends(UsageErrorView::Unknown(argument).text(), argument),
{
    reveal_strlit("--listen ");
    reveal_strlit("--interval ");
    reveal_strlit("--top ");
    reveal_strlit("needs a value");
    reveal_strlit("must be a number");
    reveal_strlit("must be at least 0.2 seconds");
    reveal_strlit("must be a positive integer");
    reveal_strlit("--listen needs a value");
    reveal_strlit("--interval needs a value");
    reveal_strlit("--interval must be a number");
    reveal_strlit("--interval must be at least 0.2 seconds");
    reveal_strlit("--top needs a value");
    reveal_strlit("--top must be a positive integer");
    assert("--listen needs a value"@ =~= "--listen "@ + "needs a value"@);
    assert("--interval needs a value"@ =~= "--interval "@ + "needs a value"@);
    assert("--interval must be a number"@ =~= "--interval "@ + "must be a number"@);
    assert("--interval must be at least 0.2 seconds"@ =~= "--interval "@
        + "must be at least 0.2 seconds"@);
    assert("--top needs a value"@ =~= "--top "@ + "needs a value"@);
    assert("--top must be a positive integer"@ =~= "--top "@ + "must be a positive integer"@);
    lemma_two_parts("--listen "@, "needs a value"@);
    lemma_two_parts("--interval "@, "needs a value"@);
    lemma_two_parts("--interval "@, "must be a number"@);
    lemma_two_parts("--interval "@, "must be at least 0.2 seconds"@);
    lemma_two_parts("--top "@, "needs a value"@);
    lemma_two_parts("--top "@, "must be a positive integer"@);
    lemma_two_parts("unknown argument: "@, argument);
}

proof fn lemma_two_parts(a: Seq<char>, b: Seq<char>)
    ensures
        begins(a + b, a),
        ends(a + b, b),
{
    assert((a + b).take(a.len() as int) =~= a);
    assert((a + b).skip((a + b).len() - b.len()) =~= b);
}

} // verus!
