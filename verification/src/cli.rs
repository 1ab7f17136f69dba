//! The command line: its grammar, and what the clients of a running daemon show.

use vstd::prelude::*;

use crate::config::{
    config_fault, decode_config, default_config, says, Config, ConfigError, ConfigFile, Platform,
    UnitView,
};
use crate::json::{
    bool_field, field, items_field, json_object_text, record_views, text_field, texts_field,
    uint_field, write_object, Json, JsonView, RecordValue, RecordValueView,
};
use crate::numerals::{decimal, read_u64, unsigned_value, write_u64};
use crate::scan::{join, joined, trim_end_char, without_trailing};
use crate::text::{
    copy_texts, has_prefix, opt_str, opt_text, parted, same, same_opt, split_once, starts_with,
    texts,
};
use crate::toml_tree::toml_document;

verus! {

/// The configuration file that is read where none is named.
pub const DEFAULT_CONFIG_PATH: &'static str = "/etc/gpu-arbiter/config.toml";

/// The configuration file that is read on Windows where none is named.
pub const WINDOWS_CONFIG_PATH: &'static str = "C:\\ProgramData\\gpu-arbiter\\config.toml";

/// The configuration file that is read where none is named.
pub open spec fn default_path_of(platform: Platform) -> Seq<char> {
    match platform {
        Platform::Unix => DEFAULT_CONFIG_PATH@,
        Platform::Windows => WINDOWS_CONFIG_PATH@,
    }
}

/// The configuration file that is read where none is named.
pub fn default_config_path(platform: Platform) -> (r: &'static str)
    ensures
        r@ == default_path_of(platform),
{
    match platform {
        Platform::Unix => DEFAULT_CONFIG_PATH,
        Platform::Windows => WINDOWS_CONFIG_PATH,
    }
}

/// The environment variable that names another.
pub const CONFIG_ENV_VAR: &'static str = "GPU_ARBITER_CONFIG";

/// How long `wait` waits where nothing is said, in seconds.
pub const DEFAULT_WAIT_TIMEOUT_S: u64 = 60;

/// The time between two looks at `/status`, in seconds.
pub const POLL_INTERVAL_S: u64 = 2;

/// A command line that makes no sense, and what is said of it.
#[derive(Debug, Clone, PartialEq, Eq)]
pub struct UsageError(pub String);

/// What `wait` waits for.
#[derive(Debug, Clone, Copy, PartialEq, Eq, Structural)]
pub enum WaitFor {
    /// That the GPU is free.
    Available,
    /// That a game has it.
    Claimed,
}

impl WaitFor {
    /// What a word names.
    pub open spec fn named(s: Seq<char>) -> Option<WaitFor> {
        if s == "available"@ {
            Some(WaitFor::Available)
        } else if s == "claimed"@ {
            Some(WaitFor::Claimed)
        } else {
            None
        }
    }

    /// What a word names.
    pub fn from_name(s: &str) -> (r: Result<WaitFor, UsageError>)
        ensures
            match r {
                Ok(w) => WaitFor::named(s@) == Some(w),
                Err(e) => WaitFor::named(s@) is None && e.0@ == bad_for(s@),
            },
    {
        if same(s, "available") {
            Ok(WaitFor::Available)
        } else if same(s, "claimed") {
            Ok(WaitFor::Claimed)
        } else {
            let mut m: String = "--for must be 'available' or 'claimed', got '".to_owned();
            m.append(s);
            m.append("'");
            Err(UsageError(m))
        }
    }
}

/// What is said of a word that `--for` does not know.
pub open spec fn bad_for(s: Seq<char>) -> Seq<char> {
    "--for must be 'available' or 'claimed', got '"@ + s + "'"@
}

/// What is said of a time that is no number.
pub open spec fn bad_timeout(s: Seq<char>) -> Seq<char> {
    "--timeout requires an integer number of seconds, got '"@ + s + "'"@
}

/// What a command line asks for.
#[derive(Debug, Clone, PartialEq, Eq)]
pub enum Command {
    /// Run the daemon.
    RunDaemon {
        /// The configuration file that was named.
        config: Option<String>,
    },
    /// Check the configuration.
    CheckConfig {
        /// The configuration file that was named.
        config: Option<String>,
    },
    /// Show the status of a running daemon.
    Status {
        /// The configuration file that was named.
        config: Option<String>,
        /// The daemon that was named.
        url: Option<String>,
        /// As JSON.
        json: bool,
        /// By the exit code alone.
        quiet: bool,
    },
    /// Wait for a running daemon to reach a state.
    Wait {
        /// The configuration file that was named.
        config: Option<String>,
        /// The daemon that was named.
        url: Option<String>,
        /// Which state.
        for_state: WaitFor,
        /// For so many seconds.
        timeout_s: u64,
    },
    /// Show each change of state of a running daemon.
    Watch {
        /// The configuration file that was named.
        config: Option<String>,
        /// The daemon that was named.
        url: Option<String>,
        /// As JSON.
        json: bool,
    },
    /// Show the version.
    Version,
    /// Show the help.
    Help,
}

/// The value of a [`Command`].
pub enum CommandView {
    RunDaemon { config: Option<Seq<char>> },
    CheckConfig { config: Option<Seq<char>> },
    Status { config: Option<Seq<char>>, url: Option<Seq<char>>, json: bool, quiet: bool },
    Wait {
        config: Option<Seq<char>>,
        url: Option<Seq<char>>,
        for_state: WaitFor,
        timeout_s: u64,
    },
    Watch { config: Option<Seq<char>>, url: Option<Seq<char>>, json: bool },
    Version,
    Help,
}

impl View for Command {
    type V = CommandView;

    open spec fn view(&self) -> CommandView {
        match self {
            Command::RunDaemon { config } => CommandView::RunDaemon { config: opt_text(*config) },
            Command::CheckConfig { config } => CommandView::CheckConfig {
                config: opt_text(*config),
            },
            Command::Status { config, url, json, quiet } => CommandView::Status {
                config: opt_text(*config),
                url: opt_text(*url),
                json: *json,
                quiet: *quiet,
            },
            Command::Wait { config, url, for_state, timeout_s } => CommandView::Wait {
                config: opt_text(*config),
                url: opt_text(*url),
                for_state: *for_state,
                timeout_s: *timeout_s,
            },
            Command::Watch { config, url, json } => CommandView::Watch {
                config: opt_text(*config),
                url: opt_text(*url),
                json: *json,
            },
            Command::Version => CommandView::Version,
            Command::Help => CommandView::Help,
        }
    }
}

// ── the grammar ────────────────────────────────────────────────────────────

/// The flags and words of a command line, not yet held against each other.
struct RawArgs {
    subcommand: Option<String>,
    config: Option<String>,
    check_config: bool,
    json: bool,
    quiet: bool,
    url: Option<String>,
    for_state: Option<String>,
    timeout_s: Option<String>,
}

/// The flags and words of a command line, not yet held against each other.
pub struct RawView {
    pub subcommand: Option<Seq<char>>,
    pub config: Option<Seq<char>>,
    pub check_config: bool,
    pub json: bool,
    pub quiet: bool,
    pub url: Option<Seq<char>>,
    pub for_state: Option<Seq<char>>,
    pub timeout_s: Option<Seq<char>>,
}

impl RawArgs {
    spec fn seen(self) -> RawView {
        RawView {
            subcommand: opt_text(self.subcommand),
            config: opt_text(self.config),
            check_config: self.check_config,
            json: self.json,
            quiet: self.quiet,
            url: opt_text(self.url),
            for_state: opt_text(self.for_state),
            timeout_s: opt_text(self.timeout_s),
        }
    }
}

/// Nothing seen yet.
pub open spec fn no_args() -> RawView {
    RawView {
        subcommand: None,
        config: None,
        check_config: false,
        json: false,
        quiet: false,
        url: None,
        for_state: None,
        timeout_s: None,
    }
}

/// The flags that take a value.
#[derive(Debug, Clone, Copy, PartialEq, Eq, Structural)]
pub enum Valued {
    /// `--config`.
    Config,
    /// `--url`.
    Url,
    /// `--for`.
    For,
    /// `--timeout`.
    Timeout,
}

impl RawView {
    /// With the value of a flag.
    pub open spec fn with(self, flag: Valued, v: Seq<char>) -> RawView {
        match flag {
            Valued::Config => RawView { config: Some(v), ..self },
            Valued::Url => RawView { url: Some(v), ..self },
            Valued::For => RawView { for_state: Some(v), ..self },
            Valued::Timeout => RawView { timeout_s: Some(v), ..self },
        }
    }
}

/// The flag that a word is, where its value is the next word.
pub open spec fn spaced_flag(a: Seq<char>) -> Option<Valued> {
    if a == "--config"@ || a == "-c"@ {
        Some(Valued::Config)
    } else if a == "--url"@ {
        Some(Valued::Url)
    } else if a == "--for"@ {
        Some(Valued::For)
    } else if a == "--timeout"@ {
        Some(Valued::Timeout)
    } else {
        None
    }
}

/// The flag that a word begins with, where its value follows an equals sign.
pub open spec fn joined_flag(a: Seq<char>) -> Option<Valued> {
    if starts_with(a, "--config="@) {
        Some(Valued::Config)
    } else if starts_with(a, "--url="@) {
        Some(Valued::Url)
    } else if starts_with(a, "--for="@) {
        Some(Valued::For)
    } else if starts_with(a, "--timeout="@) {
        Some(Valued::Timeout)
    } else {
        None
    }
}

/// What a word shows, where it asks for the version or the help.
pub open spec fn shown_by(a: Seq<char>) -> Option<CommandView> {
    if a == "--version"@ || a == "-V"@ {
        Some(CommandView::Version)
    } else if a == "--help"@ || a == "-h"@ {
        Some(CommandView::Help)
    } else {
        None
    }
}

/// What the first word that asks for the version or the help shows.
pub open spec fn first_shown(argv: Seq<Seq<char>>) -> Option<CommandView>
    decreases argv.len(),
{
    if argv.len() == 0 {
        None
    } else if shown_by(argv[0]) is Some {
        shown_by(argv[0])
    } else {
        first_shown(argv.drop_first())
    }
}

/// What one word of a command line does.
pub enum ArgStep {
    /// It is taken in, with so many words.
    Taken(RawView, int),
    /// It is refused, with this text.
    Refused(Seq<char>),
}

/// What the word at `i` does.
pub open spec fn arg_step(argv: Seq<Seq<char>>, i: int, raw: RawView) -> ArgStep {
    let a = argv[i];
    if a == "--check-config"@ {
        ArgStep::Taken(RawView { check_config: true, ..raw }, 1)
    } else if a == "--json"@ {
        ArgStep::Taken(RawView { json: true, ..raw }, 1)
    } else if a == "-q"@ || a == "--quiet"@ {
        ArgStep::Taken(RawView { quiet: true, ..raw }, 1)
    } else if spaced_flag(a) is Some {
        if i + 1 < argv.len() && argv[i + 1].len() > 0 {
            ArgStep::Taken(raw.with(spaced_flag(a)->0, argv[i + 1]), 2)
        } else {
            ArgStep::Refused(a + " requires a non-empty value"@)
        }
    } else if joined_flag(a) is Some {
        match parted(a, '=') {
            Some(p) => if p.1.len() == 0 {
                ArgStep::Refused(p.0 + "= requires a non-empty value"@)
            } else {
                ArgStep::Taken(raw.with(joined_flag(a)->0, p.1), 1)
            },
            None => ArgStep::Refused(a),
        }
    } else if starts_with(a, "-"@) {
        ArgStep::Refused("unknown flag: "@ + a)
    } else if raw.subcommand is Some {
        ArgStep::Refused("unexpected argument: "@ + a)
    } else {
        ArgStep::Taken(RawView { subcommand: Some(a), ..raw }, 1)
    }
}

/// What the words from `i` on amount to.
pub open spec fn args_from(argv: Seq<Seq<char>>, i: int, raw: RawView) -> Result<
    CommandView,
    Seq<char>,
>
    decreases argv.len() - i,
{
    if i >= argv.len() {
        finalized(raw)
    } else {
        match arg_step(argv, i, raw) {
            ArgStep::Refused(m) => Err(m),
            ArgStep::Taken(r, n) => if n == 2 {
                args_from(argv, i + 2, r)
            } else {
                args_from(argv, i + 1, r)
            },
        }
    }
}

/// What a command line asks for: the version or the help where any word asks for
/// one of them, by the first such word; else what all words amount to.
pub open spec fn command_of(argv: Seq<Seq<char>>) -> Result<CommandView, Seq<char>> {
    match first_shown(argv) {
        Some(c) => Ok(c),
        None => args_from(argv, 0, no_args()),
    }
}

/// What `wait` is asked to do.
pub open spec fn wait_command(raw: RawView) -> Result<CommandView, Seq<char>> {
    let for_state = match raw.for_state {
        Some(s) => WaitFor::named(s),
        None => Some(WaitFor::Available),
    };
    let timeout = match raw.timeout_s {
        Some(s) => unsigned_value(s, u64::MAX as nat),
        None => Some(DEFAULT_WAIT_TIMEOUT_S as nat),
    };
    match for_state {
        None => Err(bad_for(raw.for_state->0)),
        Some(w) => match timeout {
            None => Err(bad_timeout(raw.timeout_s->0)),
            Some(n) => Ok(
                CommandView::Wait {
                    config: raw.config,
                    url: raw.url,
                    for_state: w,
                    timeout_s: n as u64,
                },
            ),
        },
    }
}

/// What the flags and words amount to, held against each other: a flag that the
/// subcommand does not have is refused.
pub open spec fn finalized(raw: RawView) -> Result<CommandView, Seq<char>> {
    match raw.subcommand {
        Some(sub) => if sub == "status"@ {
            if raw.check_config {
                Err("--check-config cannot be combined with `status`"@)
            } else if raw.json && raw.quiet {
                Err("--json and --quiet/-q are mutually exclusive"@)
            } else if raw.for_state is Some {
                Err("--for is only valid with `wait`"@)
            } else if raw.timeout_s is Some {
                Err("--timeout is only valid with `wait`"@)
            } else {
                Ok(
                    CommandView::Status {
                        config: raw.config,
                        url: raw.url,
                        json: raw.json,
                        quiet: raw.quiet,
                    },
                )
            }
        } else if sub == "wait"@ {
            if raw.check_config {
                Err("--check-config cannot be combined with `wait`"@)
            } else if raw.json {
                Err("--json is only valid with `status`/`watch`"@)
            } else if raw.quiet {
                Err("--quiet/-q is only valid with `status`"@)
            } else {
                wait_command(raw)
            }
        } else if sub == "watch"@ {
            if raw.check_config {
                Err("--check-config cannot be combined with `watch`"@)
            } else if raw.quiet {
                Err("--quiet/-q is only valid with `status`"@)
            } else if raw.for_state is Some {
                Err("--for is only valid with `wait`"@)
            } else if raw.timeout_s is Some {
                Err("--timeout is only valid with `wait`"@)
            } else {
                Ok(CommandView::Watch { config: raw.config, url: raw.url, json: raw.json })
            }
        } else {
            Err("unknown subcommand: "@ + sub)
        },
        None => if raw.json {
            Err("--json is only valid with the `status`/`watch` subcommands"@)
        } else if raw.quiet {
            Err("--quiet/-q is only valid with the `status` subcommand"@)
        } else if raw.url is Some {
            Err("--url is only valid with `status`/`wait`/`watch`"@)
        } else if raw.for_state is Some {
            Err("--for is only valid with `wait`"@)
        } else if raw.timeout_s is Some {
            Err("--timeout is only valid with `wait`"@)
        } else if raw.check_config {
            Ok(CommandView::CheckConfig { config: raw.config })
        } else {
            Ok(CommandView::RunDaemon { config: raw.config })
        },
    }
}

/// A command or a refusal, as the grammar states it.
pub open spec fn same_outcome(
    r: Result<Command, UsageError>,
    o: Result<CommandView, Seq<char>>,
) -> bool {
    match r {
        Ok(c) => o == Ok::<CommandView, Seq<char>>(c@),
        Err(e) => o == Err::<CommandView, Seq<char>>(e.0@),
    }
}

fn refuse(message: &str) -> (r: Result<Command, UsageError>)
    ensures
        r is Err && r->Err_0.0@ == message@,
{
    Err(UsageError(message.to_owned()))
}

/// The value that the word after `flag` is.
fn take_value(argv: &[&str], i: usize, flag: &str) -> (r: Result<String, UsageError>)
    requires
        i < argv@.len(),
    ensures
        match r {
            Ok(v) => i + 1 < argv@.len() && argv@[i + 1]@.len() > 0 && v@ == argv@[i + 1]@,
            Err(e) => !(i + 1 < argv@.len() && argv@[i + 1]@.len() > 0) && e.0@ == flag@
                + " requires a non-empty value"@,
        },
{
    let n: usize = argv.len();
    if i + 1 < n && !argv[i + 1].is_empty() {
        Ok(argv[i + 1].to_owned())
    } else {
        let mut m: String = flag.to_owned();
        m.append(" requires a non-empty value");
        Err(UsageError(m))
    }
}

/// The value that follows the equals sign of a word.
fn non_empty_eq(arg: &str) -> (r: Result<String, UsageError>)
    ensures
        match parted(arg@, '=') {
            Some(p) => match r {
                Ok(v) => p.1.len() > 0 && v@ == p.1,
                Err(e) => p.1.len() == 0 && e.0@ == p.0 + "= requires a non-empty value"@,
            },
            None => r is Err && r->Err_0.0@ == arg@,
        },
{
    match split_once(arg, '=') {
        Some((flag, value)) => if value.as_str().is_empty() {
            let mut m: String = flag;
            m.append("= requires a non-empty value");
            Err(UsageError(m))
        } else {
            Ok(value)
        },
        None => Err(UsageError(arg.to_owned())),
    }
}

fn find_spaced(a: &str) -> (r: Option<Valued>)
    ensures
        r == spaced_flag(a@),
{
    if same(a, "--config") || same(a, "-c") {
        Some(Valued::Config)
    } else if same(a, "--url") {
        Some(Valued::Url)
    } else if same(a, "--for") {
        Some(Valued::For)
    } else if same(a, "--timeout") {
        Some(Valued::Timeout)
    } else {
        None
    }
}

fn find_joined(a: &str) -> (r: Option<Valued>)
    ensures
        r == joined_flag(a@),
{
    if has_prefix(a, "--config=") {
        Some(Valued::Config)
    } else if has_prefix(a, "--url=") {
        Some(Valued::Url)
    } else if has_prefix(a, "--for=") {
        Some(Valued::For)
    } else if has_prefix(a, "--timeout=") {
        Some(Valued::Timeout)
    } else {
        None
    }
}

impl RawArgs {
    fn put(self, flag: Valued, v: String) -> (r: RawArgs)
        ensures
            r.seen() == self.seen().with(flag, v@),
    {
        match flag {
            Valued::Config => RawArgs { config: Some(v), ..self },
            Valued::Url => RawArgs { url: Some(v), ..self },
            Valued::For => RawArgs { for_state: Some(v), ..self },
            Valued::Timeout => RawArgs { timeout_s: Some(v), ..self },
        }
    }
}

/// The words of a command line.
pub open spec fn argv_views(argv: Seq<&str>) -> Seq<Seq<char>> {
    Seq::new(argv.len(), |i: int| argv[i]@)
}

/// What the first word that asks for the version or the help shows.
fn find_shown(argv: &[&str]) -> (r: Option<Command>)
    ensures
        match r {
            Some(c) => first_shown(argv_views(argv@)) == Some(c@),
            None => first_shown(argv_views(argv@)) is None,
        },
{
    let ghost av = argv_views(argv@);
    let n: usize = argv.len();
    let mut i: usize = 0;
    proof {
        assert(av.skip(0) =~= av);
    }
    while i < n
        invariant
            i <= n,
            n == argv@.len(),
            av == argv_views(argv@),
            first_shown(av) == first_shown(av.skip(i as int)),
        decreases n - i,
    {
        let arg = argv[i];
        proof {
            assert(av.skip(i as int)[0] == arg@);
            assert(av.skip(i as int).drop_first() =~= av.skip(i + 1));
        }
        if same(arg, "--version") || same(arg, "-V") {
            return Some(Command::Version);
        }
        if same(arg, "--help") || same(arg, "-h") {
            return Some(Command::Help);
        }
        i = i + 1;
    }
    None
}

/// What a command line asks for: the words after the program's own name.
pub fn parse_args(argv: &[&str]) -> (r: Result<Command, UsageError>)
    ensures
        same_outcome(r, command_of(argv_views(argv@))),
{
    if let Some(c) = find_shown(argv) {
        return Ok(c);
    }
    let ghost av = argv_views(argv@);
    let mut raw = RawArgs {
        subcommand: None,
        config: None,
        check_config: false,
        json: false,
        quiet: false,
        url: None,
        for_state: None,
        timeout_s: None,
    };
    let n: usize = argv.len();
    let mut i: usize = 0;
    while i < n
        invariant
            i <= n,
            n == argv@.len(),
            av == argv_views(argv@),
            command_of(av) == args_from(av, i as int, raw.seen()),
        decreases n - i,
    {
        let arg = argv[i];
        proof {
            assert(av[i as int] == arg@);
            assert(i + 1 < n ==> av[i + 1] == argv@[i + 1]@);
        }
        if same(arg, "--check-config") {
            raw.check_config = true;
        } else if same(arg, "--json") {
            raw.json = true;
        } else if same(arg, "-q") || same(arg, "--quiet") {
            raw.quiet = true;
        } else if let Some(flag) = find_spaced(arg) {
            match take_value(argv, i, arg) {
                Ok(v) => {
                    raw = raw.put(flag, v);
                    i = i + 1;
                },
                Err(e) => return Err(e),
            }
        } else if let Some(flag) = find_joined(arg) {
            match non_empty_eq(arg) {
                Ok(v) => {
                    raw = raw.put(flag, v);
                },
                Err(e) => return Err(e),
            }
        } else if has_prefix(arg, "-") {
            let mut m: String = "unknown flag: ".to_owned();
            m.append(arg);
            return Err(UsageError(m));
        } else {
            if raw.subcommand.is_some() {
                let mut m: String = "unexpected argument: ".to_owned();
                m.append(arg);
                return Err(UsageError(m));
            }
            raw.subcommand = Some(arg.to_owned());
        }
        i = i + 1;
    }
    finalize(raw)
}

fn finalize_wait(raw: RawArgs) -> (r: Result<Command, UsageError>)
    ensures
        same_outcome(r, wait_command(raw.seen())),
{
    let for_state: WaitFor = match &raw.for_state {
        Some(s) => match WaitFor::from_name(s.as_str()) {
            Ok(w) => w,
            Err(e) => return Err(e),
        },
        None => WaitFor::Available,
    };
    let timeout_s: u64 = match &raw.timeout_s {
        Some(s) => match read_u64(s.as_str()) {
            Some(n) => n,
            None => {
                let mut m: String = "--timeout requires an integer number of seconds, got '".to_owned();
                m.append(s.as_str());
                m.append("'");
                return Err(UsageError(m));
            },
        },
        None => DEFAULT_WAIT_TIMEOUT_S,
    };
    Ok(Command::Wait { config: raw.config, url: raw.url, for_state, timeout_s })
}

/// What the flags and words amount to, held against each other.
fn finalize(raw: RawArgs) -> (r: Result<Command, UsageError>)
    ensures
        same_outcome(r, finalized(raw.seen())),
{
    match &raw.subcommand {
        Some(sub) => {
            let sub = sub.as_str();
            if same(sub, "status") {
                if raw.check_config {
                    return refuse("--check-config cannot be combined with `status`");
                }
                if raw.json && raw.quiet {
                    return refuse("--json and --quiet/-q are mutually exclusive");
                }
                if raw.for_state.is_some() {
                    return refuse("--for is only valid with `wait`");
                }
                if raw.timeout_s.is_some() {
                    return refuse("--timeout is only valid with `wait`");
                }
                Ok(
                    Command::Status {
                        config: raw.config,
                        url: raw.url,
                        json: raw.json,
                        quiet: raw.quiet,
                    },
                )
            } else if same(sub, "wait") {
                if raw.check_config {
                    return refuse("--check-config cannot be combined with `wait`");
                }
                if raw.json {
                    return refuse("--json is only valid with `status`/`watch`");
                }
                if raw.quiet {
                    return refuse("--quiet/-q is only valid with `status`");
                }
                finalize_wait(raw)
            } else if same(sub, "watch") {
                if raw.check_config {
                    return refuse("--check-config cannot be combined with `watch`");
                }
                if raw.quiet {
                    return refuse("--quiet/-q is only valid with `status`");
                }
                if raw.for_state.is_some() {
                    return refuse("--for is only valid with `wait`");
                }
                if raw.timeout_s.is_some() {
                    return refuse("--timeout is only valid with `wait`");
                }
                Ok(Command::Watch { config: raw.config, url: raw.url, json: raw.json })
            } else {
                let mut m: String = "unknown subcommand: ".to_owned();
                m.append(sub);
                Err(UsageError(m))
            }
        },
        None => {
            if raw.json {
                return refuse("--json is only valid with the `status`/`watch` subcommands");
            }
            if raw.quiet {
                return refuse("--quiet/-q is only valid with the `status` subcommand");
            }
            if raw.url.is_some() {
                return refuse("--url is only valid with `status`/`wait`/`watch`");
            }
            if raw.for_state.is_some() {
                return refuse("--for is only valid with `wait`");
            }
            if raw.timeout_s.is_some() {
                return refuse("--timeout is only valid with `wait`");
            }
            if raw.check_config {
                Ok(Command::CheckConfig { config: raw.config })
            } else {
                Ok(Command::RunDaemon { config: raw.config })
            }
        },
    }
}

// ── where things are ───────────────────────────────────────────────────────

/// The configuration file: the one that a flag names, else the one that the
/// environment names, else the default. What the environment leaves empty it does
/// not name.
pub fn resolve_config_path<F: FnOnce(&str) -> Option<String>>(
    flag: Option<&str>,
    env: F,
    platform: Platform,
) -> (r: String)
    requires
        flag is None ==> env.requires((CONFIG_ENV_VAR,)),
    ensures
        match flag {
            Some(p) => r@ == p@,
            None => exists|e: Option<String>|
                {
                    &&& #[trigger] env.ensures((CONFIG_ENV_VAR,), e)
                    &&& r@ == (if e is Some && e->0@.len() > 0 {
                        e->0@
                    } else {
                        default_path_of(platform)
                    })
                },
        },
{
    if let Some(p) = flag {
        return p.to_owned();
    }
    let named = env(CONFIG_ENV_VAR);
    if let Some(p) = named {
        if !p.as_str().is_empty() {
            return p;
        }
    }
    default_config_path(platform).to_owned()
}

/// The configuration is needed to find the daemon: neither a flag nor the environment
/// names it.
pub open spec fn url_is_local(url_flag: Option<Seq<char>>, env: Option<Seq<char>>) -> bool {
    url_flag is None && !(env is Some && env->0.len() > 0)
}

/// Whether the configuration is needed to find the daemon: neither a flag nor the
/// environment names it.
pub fn needs_local_config(url_flag: Option<&str>, env: Option<&str>) -> (r: bool)
    ensures
        r == url_is_local(opt_str(url_flag), opt_str(env)),
{
    if url_flag.is_some() {
        return false;
    }
    match env {
        Some(u) => u.is_empty(),
        None => true,
    }
}

/// The address of the daemon: the one that a flag names, else the one that the
/// environment names, else this host at the configured port; without slashes at
/// its end.
pub open spec fn daemon_url(url_flag: Option<Seq<char>>, env: Option<Seq<char>>, port: u16) -> Seq<
    char,
> {
    match (url_flag, env) {
        (Some(u), _) => without_trailing(u, '/'),
        (None, Some(u)) => if u.len() > 0 {
            without_trailing(u, '/')
        } else {
            "http://127.0.0.1:"@ + decimal(port as nat)
        },
        (None, None) => "http://127.0.0.1:"@ + decimal(port as nat),
    }
}

/// The address of the daemon.
pub fn resolve_daemon_url(url_flag: Option<&str>, env: Option<&str>, local_port: u16) -> (r: String)
    ensures
        r@ == daemon_url(opt_str(url_flag), opt_str(env), local_port),
{
    if let Some(u) = url_flag {
        return trim_end_char(u, '/');
    }
    if let Some(u) = env {
        if !u.is_empty() {
            return trim_end_char(u, '/');
        }
    }
    let mut o: String = "http://127.0.0.1:".to_owned();
    o.append(write_u64(local_port as u64).as_str());
    o
}

// ── checking the configuration ─────────────────────────────────────────────

/// The warning about a unit that can be asked to let go but not watched.
pub open spec fn yield_warning(u: UnitView) -> Seq<char> {
    if u.yield_cmd is Some && u.busy_cmd is None {
        "\nWARNING: unit "@ + u.unit
            + " sets yield_cmd without busy_cmd; the yield stage will be skipped"@
    } else {
        Seq::empty()
    }
}

/// The warnings about all units.
pub open spec fn yield_warnings(units: Seq<UnitView>) -> Seq<char>
    decreases units.len(),
{
    if units.len() == 0 {
        Seq::empty()
    } else {
        yield_warnings(units.drop_last()) + yield_warning(units.last())
    }
}

/// What is said of a configuration that is one.
pub open spec fn check_text(path: Seq<char>, units: Seq<UnitView>) -> Seq<char> {
    "OK: "@ + path + yield_warnings(units)
}

/// What is said of a configuration that was loaded.
pub fn check_report(path: &str, cfg: &Config) -> (r: String)
    ensures
        r@ == check_text(path@, cfg@.units),
{
    let ghost uv = cfg@.units;
    let mut o: String = "OK: ".to_owned();
    o.append(path);
    let ghost base = o@;
    let mut i: usize = 0;
    proof {
        assert(uv.take(0) =~= Seq::empty());
        assert(base + yield_warnings(uv.take(0)) =~= base);
    }
    while i < cfg.units.len()
        invariant
            i <= cfg.units.len(),
            uv == cfg@.units,
            o@ == base + yield_warnings(uv.take(i as int)),
        decreases cfg.units.len() - i,
    {
        let u = &cfg.units[i];
        let ghost before = o@;
        if u.yield_cmd.is_some() && u.busy_cmd.is_none() {
            o.append("\nWARNING: unit ");
            o.append(u.unit.as_str());
            o.append(" sets yield_cmd without busy_cmd; the yield stage will be skipped");
        }
        proof {
            let t = uv.take(i + 1);
            assert(t.drop_last() =~= uv.take(i as int));
            assert(t.last() == u@);
            assert(o@ =~= before + yield_warning(u@));
            assert(o@ =~= base + yield_warnings(t));
        }
        i = i + 1;
    }
    proof {
        assert(uv.take(cfg.units.len() as int) =~= uv);
    }
    o
}

/// Check the configuration that was found at `path`: what is said of it, or why it
/// is none. No file is a configuration too. The platform decides nothing that is
/// checked or said.
pub fn check_config(path: &str, file: ConfigFile) -> (r: Result<String, ConfigError>)
    ensures
        match file {
            ConfigFile::Missing => r is Ok && r->Ok_0@ == check_text(
                path@,
                default_config().units,
            ),
            ConfigFile::Unreadable(m) => r is Err && r->Err_0 is Io && r->Err_0->path@ == path@
                && r->Err_0->detail@ == m@,
            ConfigFile::Text(s) => match toml_document(s@) {
                Ok(t) => match config_fault(t) {
                    None => r is Ok && decode_config(t) is Some && r->Ok_0@ == check_text(
                        path@,
                        decode_config(t)->0.units,
                    ),
                    Some(m) => r is Err && says(r->Err_0, m),
                },
                Err(m) => r is Err && says(r->Err_0, m),
            },
        },
{
    match Config::load(path, file, Platform::Unix) {
        Ok(cfg) => Ok(check_report(path, &cfg)),
        Err(e) => Err(e),
    }
}

// ── the clients ────────────────────────────────────────────────────────────

/// A state is the one that is waited for.
pub open spec fn reached(state: Seq<char>, for_state: WaitFor) -> bool {
    match for_state {
        WaitFor::Available => state == "available"@,
        WaitFor::Claimed => state == "gaming"@,
    }
}

/// Whether a state is the one that is waited for.
pub fn wait_condition_met(state: &str, for_state: WaitFor) -> (r: bool)
    ensures
        r == reached(state@, for_state),
{
    match for_state {
        WaitFor::Available => same(state, "available"),
        WaitFor::Claimed => same(state, "gaming"),
    }
}

/// The exit code that tells of a state: 0 where the GPU is free.
pub open spec fn exit_code_of(state: Seq<char>) -> int {
    if state == "available"@ {
        0
    } else {
        1
    }
}

/// The exit code that tells of a state: 0 where the GPU is free.
pub fn quiet_exit_code(state: &str) -> (r: i32)
    ensures
        r == exit_code_of(state@),
{
    if same(state, "available") {
        0
    } else {
        1
    }
}

/// A look is told: the first is, and every change.
pub open spec fn is_news(prev: Option<Seq<char>>, next: Seq<char>) -> bool {
    prev != Some(next)
}

/// Whether a look is told: the first is, and every change.
pub fn watch_should_emit(prev: Option<&str>, next: &str) -> (r: bool)
    ensures
        r == is_news(opt_str(prev), next@),
{
    !same_opt(prev, Some(next))
}

/// The claims, with commas between them.
pub open spec fn claims_word(claims: Seq<Seq<char>>) -> Seq<char> {
    if claims.len() == 0 {
        "-"@
    } else {
        joined(claims, ","@)
    }
}

/// The line about a look.
pub open spec fn watch_line(
    ts: Seq<char>,
    prev: Option<Seq<char>>,
    next: Seq<char>,
    claims: Seq<Seq<char>>,
) -> Seq<char> {
    match prev {
        Some(p) => ts + "  "@ + p + " -> "@ + next + "  claims="@ + claims_word(claims),
        None => ts + "  (start) "@ + next + "  claims="@ + claims_word(claims),
    }
}

/// The line about a look.
pub fn watch_human_line(ts: &str, prev: Option<&str>, next: &str, claims: &[String]) -> (r:
    String)
    ensures
        r@ == watch_line(ts@, opt_str(prev), next@, texts(claims@)),
{
    let word: String = if claims.len() == 0 {
        "-".to_owned()
    } else {
        join(claims, ",")
    };
    let mut o: String = ts.to_owned();
    match prev {
        Some(p) => {
            o.append("  ");
            o.append(p);
            o.append(" -> ");
        },
        None => {
            o.append("  (start) ");
        },
    }
    o.append(next);
    o.append("  claims=");
    o.append(word.as_str());
    o
}

/// The members of the record about a look.
pub open spec fn watch_record(
    ts: Seq<char>,
    prev: Option<Seq<char>>,
    next: Seq<char>,
    claims: Seq<Seq<char>>,
) -> Seq<(Seq<char>, RecordValueView)> {
    seq![
        ("ts"@, RecordValueView::Text(ts)),
        (
            "from"@,
            match prev {
                Some(p) => RecordValueView::Text(p),
                None => RecordValueView::Null,
            },
        ),
        ("to"@, RecordValueView::Text(next)),
        ("claims"@, RecordValueView::Texts(claims)),
    ]
}

/// The members of the record about a look.
pub fn watch_members(ts: &str, prev: Option<&str>, next: &str, claims: &[String]) -> (r: Vec<
    (String, RecordValue),
>)
    ensures
        record_views(r@) == watch_record(ts@, opt_str(prev), next@, texts(claims@)),
{
    let from: RecordValue = match prev {
        Some(p) => RecordValue::Text(p.to_owned()),
        None => RecordValue::Null,
    };
    let mut v: Vec<(String, RecordValue)> = Vec::new();
    v.push(("ts".to_owned(), RecordValue::Text(ts.to_owned())));
    v.push(("from".to_owned(), from));
    v.push(("to".to_owned(), RecordValue::Text(next.to_owned())));
    v.push(("claims".to_owned(), RecordValue::Texts(copy_texts(claims))));
    proof {
        assert(record_views(v@) =~= watch_record(ts@, opt_str(prev), next@, texts(claims@)));
    }
    v
}

/// The record about a look, as JSON on one line.
pub fn watch_json_line(ts: &str, prev: Option<&str>, next: &str, claims: &[String]) -> (r:
    String)
    ensures
        r@ == json_object_text(watch_record(ts@, opt_str(prev), next@, texts(claims@))),
        !r@.contains('\n'),
{
    let members = watch_members(ts, prev, next, claims);
    write_object(&members)
}

/// A text or a stand-in for it.
pub open spec fn or_else(s: Option<Seq<char>>, other: Seq<char>) -> Seq<char> {
    match s {
        Some(t) => t,
        None => other,
    }
}

/// The line about a unit.
pub open spec fn unit_summary(u: JsonView) -> Seq<char> {
    "  "@ + or_else(text_field(u, "unit"@), "?"@) + ": "@ + crate::tray::running_word(
        bool_field(u, "running"@),
    ) + (match uint_field(u, "vram_mb"@) {
        Some(mb) => ", "@ + decimal(mb as nat) + " MiB"@,
        None => Seq::empty(),
    }) + (if texts_field(u, "models"@).len() == 0 {
        Seq::empty()
    } else {
        " ["@ + joined(texts_field(u, "models"@), ", "@) + "]"@
    }) + "\n"@
}

/// The lines about the units.
pub open spec fn unit_summaries(units: Seq<JsonView>) -> Seq<char>
    decreases units.len(),
{
    if units.len() == 0 {
        Seq::empty()
    } else {
        unit_summaries(units.drop_last()) + unit_summary(units.last())
    }
}

/// The units.
pub open spec fn units_summary(units: Seq<JsonView>) -> Seq<char> {
    if units.len() == 0 {
        "Units:   (none)\n"@
    } else {
        "Units:\n"@ + unit_summaries(units)
    }
}

/// The state, since when, whether something failed, the claims and the VRAM.
pub open spec fn state_summary(v: JsonView) -> Seq<char> {
    "State:   "@ + or_else(text_field(v, "state"@), "?"@) + "\nSince:   "@ + or_else(
        text_field(v, "since"@),
        "-"@,
    ) + "\n"@ + (if bool_field(v, "degraded"@) == Some(true) {
        "Degraded: one or more units failed to evict (see daemon logs)\n"@
    } else {
        Seq::empty()
    }) + "Claims:  "@ + (if texts_field(v, "claims"@).len() == 0 {
        "(none)"@
    } else {
        joined(texts_field(v, "claims"@), ", "@)
    }) + "\nGPU:     "@ + decimal(
        match uint_field(v, "gpu_vram_used_mb"@) {
            Some(n) => n as nat,
            None => 0,
        },
    ) + " / "@ + decimal(
        match uint_field(v, "gpu_vram_total_mb"@) {
            Some(n) => n as nat,
            None => 0,
        },
    ) + " MiB VRAM used\n"@
}

/// What `status` shows of a reply of `/status`. What the reply leaves out is shown
/// by a stand-in.
pub open spec fn status_summary(v: JsonView) -> Seq<char> {
    state_summary(v) + units_summary(items_field(v, "units"@)) + "Daemon:  v"@ + or_else(
        text_field(v, "version"@),
        "?"@,
    )
}

fn text_or(v: &Json, key: &str, other: &str) -> (r: String)
    ensures
        r@ == or_else(text_field(v@, key@), other@),
{
    match v.text(key) {
        Some(s) => s.to_owned(),
        None => other.to_owned(),
    }
}

fn write_unit_summary(o: &mut String, u: &Json)
    ensures
        final(o)@ == old(o)@ + unit_summary(u@),
{
    let ghost before = o@;
    let mut vram: String = String::new();
    if let Some(mb) = u.uint("vram_mb") {
        vram.append(", ");
        vram.append(write_u64(mb).as_str());
        vram.append(" MiB");
        proof {
            assert(vram@ =~= ", "@ + decimal(mb as nat) + " MiB"@);
        }
    }
    let list = u.text_list("models");
    let mut models: String = String::new();
    if list.len() > 0 {
        models.append(" [");
        models.append(join(list.as_slice(), ", ").as_str());
        models.append("]");
        proof {
            assert(models@ =~= " ["@ + joined(texts(list@), ", "@) + "]"@);
        }
    }
    let name = text_or(u, "unit", "?");
    o.append("  ");
    o.append(name.as_str());
    o.append(": ");
    o.append(crate::tray::running_label(u.boolean("running")));
    o.append(vram.as_str());
    o.append(models.as_str());
    o.append("\n");
    proof {
        assert(texts(list@).len() == list@.len());
        assert(o@ =~= before + unit_summary(u@));
    }
}

fn write_units_summary(o: &mut String, v: &Json)
    ensures
        final(o)@ == old(o)@ + units_summary(items_field(v@, "units"@)),
{
    let ghost before = o@;
    match v.get("units") {
        Some(Json::List(units)) => {
            let ghost uv = crate::json::item_views(units@);
            proof {
                crate::json::lemma_items(*units);
            }
            if units.len() == 0 {
                o.append("Units:   (none)\n");
                return;
            }
            o.append("Units:\n");
            let ghost base = o@;
            let mut i: usize = 0;
            proof {
                assert(uv.take(0) =~= Seq::empty());
                assert(base + unit_summaries(uv.take(0)) =~= base);
            }
            while i < units.len()
                invariant
                    i <= units.len(),
                    uv == crate::json::item_views(units@),
                    o@ == base + unit_summaries(uv.take(i as int)),
                decreases units.len() - i,
            {
                write_unit_summary(o, &units[i]);
                proof {
                    let t = uv.take(i + 1);
                    assert(t.drop_last() =~= uv.take(i as int));
                    assert(t.last() == units@[i as int]@);
                    assert(o@ =~= base + unit_summaries(t));
                }
                i = i + 1;
            }
            proof {
                assert(uv.take(units.len() as int) =~= uv);
                assert(o@ =~= before + units_summary(uv));
            }
        },
        _ => {
            o.append("Units:   (none)\n");
        },
    }
}

/// What `status` shows of a reply of `/status`.
pub fn render_status(v: &Json) -> (r: String)
    ensures
        r@ == status_summary(v@),
{
    let state = text_or(v, "state", "?");
    let since = text_or(v, "since", "-");
    let version = text_or(v, "version", "?");
    let claims = v.text_list("claims");
    let claims_text: String = if claims.len() == 0 {
        "(none)".to_owned()
    } else {
        join(claims.as_slice(), ", ")
    };
    let used: u64 = match v.uint("gpu_vram_used_mb") {
        Some(n) => n,
        None => 0,
    };
    let total: u64 = match v.uint("gpu_vram_total_mb") {
        Some(n) => n,
        None => 0,
    };
    let degraded: &str = match v.boolean("degraded") {
        Some(true) => "Degraded: one or more units failed to evict (see daemon logs)\n",
        _ => "",
    };
    proof {
        reveal_strlit("");
        assert(""@ =~= Seq::<char>::empty());
        assert(texts(claims@).len() == claims@.len());
    }
    let mut o: String = "State:   ".to_owned();
    o.append(state.as_str());
    o.append("\nSince:   ");
    o.append(since.as_str());
    o.append("\n");
    o.append(degraded);
    o.append("Claims:  ");
    o.append(claims_text.as_str());
    o.append("\nGPU:     ");
    o.append(write_u64(used).as_str());
    o.append(" / ");
    o.append(write_u64(total).as_str());
    o.append(" MiB VRAM used\n");
    write_units_summary(&mut o, v);
    o.append("Daemon:  v");
    o.append(version.as_str());
    o
}

/// What `status` does with what it got.
#[derive(Debug, Clone, PartialEq, Eq)]
pub enum StatusOutput {
    /// Nothing is shown.
    Silent,
    /// This is shown.
    Summary(String),
    /// The reply is shown as it came.
    RawJson,
    /// That there was no reply is shown.
    Unreachable,
}

/// The value of a [`StatusOutput`].
pub enum StatusOutputView {
    Silent,
    Summary(Seq<char>),
    RawJson,
    Unreachable,
}

impl View for StatusOutput {
    type V = StatusOutputView;

    open spec fn view(&self) -> StatusOutputView {
        match self {
            StatusOutput::Silent => StatusOutputView::Silent,
            StatusOutput::Summary(s) => StatusOutputView::Summary(s@),
            StatusOutput::RawJson => StatusOutputView::RawJson,
            StatusOutput::Unreachable => StatusOutputView::Unreachable,
        }
    }
}

/// An optional reply.
pub open spec fn opt_json(body: Option<&Json>) -> Option<JsonView> {
    match body {
        Some(v) => Some(v@),
        None => None,
    }
}

/// What `status` shows, and its exit code, of a reply or of none.
pub open spec fn status_told(body: Option<JsonView>, json: bool, quiet: bool) -> (
    StatusOutputView,
    int,
) {
    match body {
        None => if quiet {
            (StatusOutputView::Silent, 2)
        } else {
            (StatusOutputView::Unreachable, 1)
        },
        Some(v) => if quiet {
            (
                StatusOutputView::Silent,
                match text_field(v, "state"@) {
                    Some(s) => exit_code_of(s),
                    None => 1,
                },
            )
        } else if json {
            (StatusOutputView::RawJson, 0)
        } else {
            (StatusOutputView::Summary(status_summary(v)), 0)
        },
    }
}

/// What `status` shows, and its exit code, of a reply or of none.
pub fn status_outcome(body: Option<&Json>, json: bool, quiet: bool) -> (r: (StatusOutput, i32))
    ensures
        (r.0@, r.1 as int) == status_told(opt_json(body), json, quiet),
{
    match body {
        None => if quiet {
            (StatusOutput::Silent, 2)
        } else {
            (StatusOutput::Unreachable, 1)
        },
        Some(v) => if quiet {
            let code: i32 = match v.text("state") {
                Some(s) => quiet_exit_code(s),
                None => 1,
            };
            (StatusOutput::Silent, code)
        } else if json {
            (StatusOutput::RawJson, 0)
        } else {
            (StatusOutput::Summary(render_status(v)), 0)
        },
    }
}

/// What `wait` does after a look.
#[derive(Debug, Clone, Copy, PartialEq, Eq, Structural)]
pub enum WaitStep {
    /// The state is reached: exit with 0.
    Reached,
    /// There was no reply: exit with 1.
    Unreachable,
    /// The time is over: exit with 1.
    TimedOut,
    /// Look again.
    Poll,
}

/// What `wait` does after a look: a state that is reached counts also where the
/// time is over.
pub open spec fn wait_next(body: Option<JsonView>, for_state: WaitFor, time_is_over: bool) -> WaitStep {
    match body {
        None => WaitStep::Unreachable,
        Some(v) => if text_field(v, "state"@) is Some && reached(
            text_field(v, "state"@)->0,
            for_state,
        ) {
            WaitStep::Reached
        } else if time_is_over {
            WaitStep::TimedOut
        } else {
            WaitStep::Poll
        },
    }
}

/// What `wait` does after a look: a state that is reached counts also where the
/// time is over.
pub fn wait_step(body: Option<&Json>, for_state: WaitFor, time_is_over: bool) -> (r: WaitStep)
    ensures
        r == wait_next(opt_json(body), for_state, time_is_over),
{
    match body {
        None => WaitStep::Unreachable,
        Some(v) => {
            let met: bool = match v.text("state") {
                Some(s) => wait_condition_met(s, for_state),
                None => false,
            };
            if met {
                WaitStep::Reached
            } else if time_is_over {
                WaitStep::TimedOut
            } else {
                WaitStep::Poll
            }
        },
    }
}

/// The state that a reply tells of.
pub open spec fn told_state(v: JsonView) -> Seq<char> {
    or_else(text_field(v, "state"@), "?"@)
}

/// What `watch` writes after a look, and the state that it keeps in mind: nothing
/// where the state is still the same.
pub fn watch_step(prev: Option<&str>, body: &Json, ts: &str, json: bool) -> (r: Option<
    (String, String),
>)
    ensures
        match r {
            Some(p) => {
                &&& is_news(opt_str(prev), told_state(body@))
                &&& p.1@ == told_state(body@)
                &&& p.0@ == (if json {
                    json_object_text(
                        watch_record(
                            ts@,
                            opt_str(prev),
                            told_state(body@),
                            texts_field(body@, "claims"@),
                        ),
                    )
                } else {
                    watch_line(
                        ts@,
                        opt_str(prev),
                        told_state(body@),
                        texts_field(body@, "claims"@),
                    )
                })
            },
            None => !is_news(opt_str(prev), told_state(body@)),
        },
{
    let state = text_or(body, "state", "?");
    if !watch_should_emit(prev, state.as_str()) {
        return None;
    }
    let claims = body.text_list("claims");
    let line: String = if json {
        watch_json_line(ts, prev, state.as_str(), claims.as_slice())
    } else {
        watch_human_line(ts, prev, state.as_str(), claims.as_slice())
    };
    Some((line, state))
}

// ── help ───────────────────────────────────────────────────────────────────

/// The help.
pub open spec fn help_of(version: Seq<char>, platform: Platform) -> Seq<char> {
    "gpu-arbiter "@ + version + HELP_USAGE@ + decimal(DEFAULT_WAIT_TIMEOUT_S as nat)
        + HELP_SUBCOMMANDS@ + decimal(POLL_INTERVAL_S as nat) + HELP_WAIT@ + decimal(
        POLL_INTERVAL_S as nat,
    ) + HELP_WATCH@ + CONFIG_ENV_VAR@ + HELP_ENV@ + default_path_of(platform) + HELP_END@
}

/// The help, from the version to the time that `wait` waits.
pub const HELP_USAGE: &'static str = " — gaming-first GPU arbiter daemon\n\nUsage:\n  gpu-arbiter [--config <PATH>] [--check-config]              Run the daemon (Linux), or validate config\n  gpu-arbiter status [--config <PATH>] [--url <URL>] [--json | -q]\n                     Query the running daemon's /status\n  gpu-arbiter wait [--for available|claimed] [--timeout <SECS>] [--url <URL>]\n                     Block until the daemon reaches the given state\n  gpu-arbiter watch [--json] [--url <URL>]\n                     Print one line per state transition until killed\n  gpu-arbiter --version | --help\n\nOptions:\n  -c, --config <PATH>   Config file path (see precedence below)\n      --check-config    Load + validate the resolved config, print OK/<error>, exit 0/1\n      --url <URL>       (status/wait/watch) daemon base URL, e.g. http://host:48750\n      --json            (status/watch) print raw JSON / NDJSON instead of a human summary\n  -q, --quiet           (status) no output; exit 0 if available, 1 otherwise, 2 if unreachable\n      --for <STATE>     (wait) 'available' (default) or 'claimed'\n      --timeout <SECS>  (wait) give up after this long (default ";

/// The help, from there to the first poll interval.
pub const HELP_SUBCOMMANDS: &'static str = "s)\n  -V, --version         Print version and exit\n  -h, --help            Print this help and exit\n\nSubcommands:\n  status   GET /status and print a human-readable summary (--json for raw JSON,\n           -q/--quiet for no output — see the exit codes below).\n  wait     Poll /status (every ";

/// The help, from there to the second poll interval.
pub const HELP_WAIT: &'static str = "s) until --for is reached; exit 0 on success,\n           1 on timeout or if the daemon is unreachable.\n  watch    Poll /status (every ";

/// The help, from there to the name of the environment variable.
pub const HELP_WATCH: &'static str = "s) and print one line per state transition\n           (plus the initial observation) until killed; --json for NDJSON.\n\nDaemon location (status/wait/watch), highest precedence first:\n  1. --url <URL>\n  2. $GPU_ARBITER_URL environment variable\n  3. http://127.0.0.1:<port> from the local config (see below)\n\nConfig path precedence (highest first):\n  1. --config <PATH> / -c <PATH>\n  2. $";

/// The help, from there to the default path.
pub const HELP_ENV: &'static str = " environment variable\n  3. ";

/// The end of the help.
pub const HELP_END: &'static str = " (default)\n\nA missing config file is not an error — the daemon falls back to built-in defaults.";

/// The help.
pub fn help_text(platform: Platform) -> (r: String)
    ensures
        r@ == help_of(crate::state::VERSION@, platform),
{
    let mut o: String = "gpu-arbiter ".to_owned();
    o.append(crate::state::VERSION);
    o.append(HELP_USAGE);
    o.append(write_u64(DEFAULT_WAIT_TIMEOUT_S).as_str());
    o.append(HELP_SUBCOMMANDS);
    o.append(write_u64(POLL_INTERVAL_S).as_str());
    o.append(HELP_WAIT);
    o.append(write_u64(POLL_INTERVAL_S).as_str());
    o.append(HELP_WATCH);
    o.append(CONFIG_ENV_VAR);
    o.append(HELP_ENV);
    o.append(default_config_path(platform));
    o.append(HELP_END);
    o
}

// ── laws ───────────────────────────────────────────────────────────────────

/// Asking for the help or the version wins, wherever it stands and whatever is
/// before it or after it. Of several such words the first decides.
pub proof fn help_and_version_win(argv: Seq<Seq<char>>, k: int)
    requires
        0 <= k < argv.len(),
        shown_by(argv[k]) is Some,
    ensures
        command_of(argv) == Ok::<CommandView, Seq<char>>(CommandView::Help) || command_of(argv)
            == Ok::<CommandView, Seq<char>>(CommandView::Version),
        (forall|j: int| 0 <= j < k ==> shown_by(#[trigger] argv[j]) is None) ==> command_of(argv)
            == Ok::<CommandView, Seq<char>>(shown_by(argv[k])->0),
    decreases argv.len(),
{
    if k > 0 && shown_by(argv[0]) is None {
        let t = argv.drop_first();
        assert(t[k - 1] == argv[k]);
        help_and_version_win(t, k - 1);
        if forall|j: int| 0 <= j < k ==> shown_by(#[trigger] argv[j]) is None {
            assert forall|j: int| 0 <= j < k - 1 implies shown_by(#[trigger] t[j]) is None by {
                assert(t[j] == argv[j + 1]);
            }
        }
        assert(first_shown(t) is Some) by {
            lemma_some_shown(t, k - 1);
        }
    }
}

proof fn lemma_some_shown(argv: Seq<Seq<char>>, k: int)
    requires
        0 <= k < argv.len(),
        shown_by(argv[k]) is Some,
    ensures
        first_shown(argv) is Some,
    decreases argv.len(),
{
    if shown_by(argv[0]) is None {
        assert(argv.drop_first()[k - 1] == argv[k]);
        lemma_some_shown(argv.drop_first(), k - 1);
    }
}

/// No flag is ever given an empty value.
pub proof fn no_empty_values(argv: Seq<Seq<char>>, i: int, raw: RawView)
    requires
        0 <= i < argv.len(),
        arg_step(argv, i, raw) is Taken,
        raw.config is Some ==> raw.config->0.len() > 0,
        raw.url is Some ==> raw.url->0.len() > 0,
        raw.for_state is Some ==> raw.for_state->0.len() > 0,
        raw.timeout_s is Some ==> raw.timeout_s->0.len() > 0,
    ensures
        ({
            let r = arg_step(argv, i, raw)->Taken_0;
            &&& r.config is Some ==> r.config->0.len() > 0
            &&& r.url is Some ==> r.url->0.len() > 0
            &&& r.for_state is Some ==> r.for_state->0.len() > 0
            &&& r.timeout_s is Some ==> r.timeout_s->0.len() > 0
        }),
{
}

/// A flag given with an equals sign is the same as the flag with its value as the next
/// word.
pub proof fn two_spellings_are_one(
    argv: Seq<Seq<char>>,
    bare: Seq<char>,
    flag: Valued,
    value: Seq<char>,
    raw: RawView,
)
    requires
        value.len() > 0,
        (flag == Valued::Config && bare == "--config"@) || (flag == Valued::Url && bare
            == "--url"@) || (flag == Valued::For && bare == "--for"@) || (flag == Valued::Timeout
            && bare == "--timeout"@),
    ensures
        arg_step(seq![bare, value] + argv, 0, raw) == ArgStep::Taken(raw.with(flag, value), 2),
        arg_step(seq![bare.push('=') + value] + argv, 0, raw) == ArgStep::Taken(
            raw.with(flag, value),
            1,
        ),
{
    reveal_strlit("--config");
    reveal_strlit("--url");
    reveal_strlit("--for");
    reveal_strlit("--timeout");
    reveal_strlit("--config=");
    reveal_strlit("--url=");
    reveal_strlit("--for=");
    reveal_strlit("--timeout=");
    reveal_strlit("--check-config");
    reveal_strlit("--json");
    reveal_strlit("-q");
    reveal_strlit("--quiet");
    reveal_strlit("-c");
    let a = bare.push('=') + value;
    assert(!bare.contains('=')) by {
        if bare.contains('=') {
            let i = choose|i: int| 0 <= i < bare.len() && bare[i] == '=';
            assert(bare[i] == '=');
        }
    }
    crate::text::parted_at_the_first(bare, '=', value);
    assert(a.len() >= bare.len() + 2);
    assert(a[2] == bare[2]);
    assert(a[bare.len() as int] == '=');
    let lit = bare.push('=');
    assert(lit =~= "--config="@ || lit =~= "--url="@ || lit =~= "--for="@ || lit
        =~= "--timeout="@);
    assert(a.subrange(0, lit.len() as int) =~= lit);
    let one = seq![a] + argv;
    let two = seq![bare, value] + argv;
    assert(one[0] == a);
    assert(two[0] == bare);
    assert(two[1] == value);
    assert(a != bare);
    lemma_not_plain(a, bare);
    lemma_prefix_of(a, lit);
}

proof fn lemma_not_plain(a: Seq<char>, bare: Seq<char>)
    requires
        a.contains('='),
    ensures
        a != "--check-config"@,
        a != "--json"@,
        a != "-q"@,
        a != "--quiet"@,
        spaced_flag(a) is None,
{
    reveal_strlit("--config");
    reveal_strlit("--url");
    reveal_strlit("--for");
    reveal_strlit("--timeout");
    reveal_strlit("--check-config");
    reveal_strlit("--json");
    reveal_strlit("-q");
    reveal_strlit("--quiet");
    reveal_strlit("-c");
    let i = choose|i: int| 0 <= i < a.len() && a[i] == '=';
    assert(a[i] == '=');
}

proof fn lemma_prefix_of(a: Seq<char>, lit: Seq<char>)
    requires
        lit == "--config="@ || lit == "--url="@ || lit == "--for="@ || lit == "--timeout="@,
        starts_with(a, lit),
    ensures
        joined_flag(a) == (if lit == "--config="@ {
            Some(Valued::Config)
        } else if lit == "--url="@ {
            Some(Valued::Url)
        } else if lit == "--for="@ {
            Some(Valued::For)
        } else {
            Some(Valued::Timeout)
        }),
{
    reveal_strlit("--config=");
    reveal_strlit("--url=");
    reveal_strlit("--for=");
    reveal_strlit("--timeout=");
    assert(a[2] == lit[2]) by {
        assert(a.subrange(0, lit.len() as int)[2] == a[2]);
    }
    if starts_with(a, "--config="@) {
        assert(a.subrange(0, 9)[2] == 'c');
    }
    if starts_with(a, "--url="@) {
        assert(a.subrange(0, 6)[2] == 'u');
    }
    if starts_with(a, "--for="@) {
        assert(a.subrange(0, 6)[2] == 'f');
    }
    if starts_with(a, "--timeout="@) {
        assert(a.subrange(0, 10)[2] == 't');
    }
}

/// A word that is taken in changes one thing: a flag its own setting, the last value
/// given; the first other word the subcommand. A second such word is refused, and so is
/// any other word that begins with a dash.
pub proof fn word_changes_one_thing(argv: Seq<Seq<char>>, i: int, raw: RawView)
    requires
        0 <= i < argv.len(),
    ensures
        ({
            let a = argv[i];
            let t = arg_step(argv, i, raw);
            &&& a == "--json"@ ==> t == ArgStep::Taken(RawView { json: true, ..raw }, 1)
            &&& a == "-q"@ || a == "--quiet"@ ==> t == ArgStep::Taken(
                RawView { quiet: true, ..raw },
                1,
            )
            &&& a == "--check-config"@ ==> t == ArgStep::Taken(
                RawView { check_config: true, ..raw },
                1,
            )
            &&& (a == "--config"@ || a == "-c"@ || a == "--url"@ || a == "--for"@ || a
                == "--timeout"@) && (i + 1 >= argv.len() || argv[i + 1].len() == 0) ==> t is Refused
            &&& a.len() == 0 || a[0] != '-' ==> (if raw.subcommand is Some {
                t is Refused
            } else {
                t == ArgStep::Taken(RawView { subcommand: Some(a), ..raw }, 1)
            })
            &&& t is Taken && a.len() > 0 && a[0] == '-' ==> t->Taken_0.subcommand
                == raw.subcommand
        }),
{
    reveal_strlit("--config");
    reveal_strlit("--url");
    reveal_strlit("--for");
    reveal_strlit("--timeout");
    reveal_strlit("--config=");
    reveal_strlit("--url=");
    reveal_strlit("--for=");
    reveal_strlit("--timeout=");
    reveal_strlit("--check-config");
    reveal_strlit("--json");
    reveal_strlit("-q");
    reveal_strlit("--quiet");
    reveal_strlit("-c");
    reveal_strlit("-");
    assert("--json"@.len() == 6 && "--quiet"@.len() == 7 && "--check-config"@.len() == 14);
    assert("--config"@.len() == 8 && "--timeout"@.len() == 9 && "-q"@.len() == 2);
    assert("-q"@[1] == 'q' && "-c"@[1] == 'c');
    assert("--url"@[2] == 'u' && "--for"@[2] == 'f');
    assert("--json"@[0] == '-' && "--quiet"@[0] == '-' && "--check-config"@[0] == '-');
    assert("--config"@[0] == '-' && "--timeout"@[0] == '-' && "-q"@[0] == '-');
    assert("-c"@[0] == '-' && "--url"@[0] == '-' && "--for"@[0] == '-');
    let a = argv[i];
    if a.len() > 0 {
        if starts_with(a, "-"@) {
            assert(a.subrange(0, 1)[0] == a[0]);
        }
        if starts_with(a, "--config="@) {
            assert(a.subrange(0, 9)[0] == a[0]);
        }
        if starts_with(a, "--url="@) {
            assert(a.subrange(0, 6)[0] == a[0]);
        }
        if starts_with(a, "--for="@) {
            assert(a.subrange(0, 6)[0] == a[0]);
        }
        if starts_with(a, "--timeout="@) {
            assert(a.subrange(0, 10)[0] == a[0]);
        }
        if a[0] == '-' {
            assert(a.subrange(0, 1) =~= "-"@);
        }
    }
}

/// `status` takes a path, an address and at most one of the two ways of showing; nothing
/// that belongs to another command. What it was given it is asked with.
pub proof fn status_takes_what_is_its_own(raw: RawView)
    requires
        raw.subcommand == Some("status"@),
    ensures
        finalized(raw) is Ok <==> !raw.check_config && !(raw.json && raw.quiet) && raw.for_state
            is None && raw.timeout_s is None,
        finalized(raw) is Ok ==> finalized(raw)->Ok_0 == (CommandView::Status {
            config: raw.config,
            url: raw.url,
            json: raw.json,
            quiet: raw.quiet,
        }),
{
}

/// `wait` takes a path, an address, a state and a number of seconds; nothing that belongs
/// to another command. Without a state it waits until the GPU is free.
pub proof fn wait_takes_what_is_its_own(raw: RawView)
    requires
        raw.subcommand == Some("wait"@),
    ensures
        ({
            let state_fits = raw.for_state is None || raw.for_state->0 == "available"@
                || raw.for_state->0 == "claimed"@;
            let time_fits = raw.timeout_s is None || unsigned_value(
                raw.timeout_s->0,
                u64::MAX as nat,
            ) is Some;
            &&& finalized(raw) is Ok <==> !raw.check_config && !raw.json && !raw.quiet && state_fits
                && time_fits
            &&& finalized(raw) is Ok ==> {
                let c = finalized(raw)->Ok_0;
                &&& c is Wait
                &&& c->Wait_config == raw.config
                &&& c->Wait_url == raw.url
                &&& c->for_state == (if raw.for_state == Some("claimed"@) {
                    WaitFor::Claimed
                } else {
                    WaitFor::Available
                })
                &&& raw.timeout_s is Some ==> unsigned_value(raw.timeout_s->0, u64::MAX as nat)
                    == Some(c->timeout_s as nat)
                &&& raw.timeout_s is None ==> c->timeout_s == DEFAULT_WAIT_TIMEOUT_S
            }
        }),
{
    reveal_strlit("status");
    reveal_strlit("wait");
    reveal_strlit("available");
    reveal_strlit("claimed");
    assert("status"@.len() != "wait"@.len());
    assert("available"@.len() != "claimed"@.len());
}

/// `watch` takes a path, an address and whether to write records; nothing that belongs to
/// another command. Any other word is no command.
pub proof fn watch_takes_what_is_its_own(raw: RawView)
    ensures
        raw.subcommand == Some("watch"@) ==> {
            &&& finalized(raw) is Ok <==> !raw.check_config && !raw.quiet && raw.for_state is None
                && raw.timeout_s is None
            &&& finalized(raw) is Ok ==> finalized(raw)->Ok_0 == (CommandView::Watch {
                config: raw.config,
                url: raw.url,
                json: raw.json,
            })
        },
        raw.subcommand is Some && raw.subcommand->0 != "status"@ && raw.subcommand->0 != "wait"@
            && raw.subcommand->0 != "watch"@ ==> finalized(raw) is Err,
{
    reveal_strlit("status");
    reveal_strlit("wait");
    reveal_strlit("watch");
    assert("status"@.len() != "watch"@.len());
    assert("wait"@.len() != "watch"@.len());
}

/// Without a command the daemon is run, or its configuration checked; only a path may be
/// given with that.
pub proof fn daemon_takes_a_path_only(raw: RawView)
    requires
        raw.subcommand is None,
    ensures
        finalized(raw) is Ok <==> !raw.json && !raw.quiet && raw.url is None && raw.for_state is None
            && raw.timeout_s is None,
        finalized(raw) is Ok ==> finalized(raw)->Ok_0 == (if raw.check_config {
            CommandView::CheckConfig { config: raw.config }
        } else {
            CommandView::RunDaemon { config: raw.config }
        }),
{
}

/// The daemon is found by a flag before the environment, and by the environment before the
/// configuration, which is asked just where neither names it. The address ends in no
/// slash, and nothing else of it is lost.
pub proof fn flag_comes_before_environment(
    flag: Option<Seq<char>>,
    env: Option<Seq<char>>,
    port: u16,
)
    ensures
        flag is Some ==> daemon_url(flag, env, port) == without_trailing(flag->0, '/'),
        flag is None && env is Some && env->0.len() > 0 ==> daemon_url(flag, env, port)
            == without_trailing(env->0, '/'),
        url_is_local(flag, env) <==> flag is None && (env is None || env->0.len() == 0),
        url_is_local(flag, env) ==> daemon_url(flag, env, port) == "http://127.0.0.1:"@ + decimal(
            port as nat,
        ),
{
}

/// Taking a character off the end takes every one there, and nothing else.
pub proof fn only_the_end_is_taken(s: Seq<char>, c: char)
    ensures
        ({
            let r = without_trailing(s, c);
            &&& r.len() == 0 || r.last() != c
            &&& r.len() <= s.len() && r == s.take(r.len() as int)
            &&& forall|i: int| r.len() <= i < s.len() ==> (#[trigger] s[i]) == c
        }),
    decreases s.len(),
{
    if s.len() > 0 && s.last() == c {
        let t = s.drop_last();
        only_the_end_is_taken(t, c);
        let r = without_trailing(s, c);
        assert(s.take(r.len() as int) =~= t.take(r.len() as int));
        assert forall|i: int| r.len() <= i < s.len() implies (#[trigger] s[i]) == c by {
            if i < t.len() {
                assert(t[i] == s[i]);
            }
        }
    } else {
        assert(s.take(s.len() as int) =~= s);
    }
}

/// Every unit that could be asked to yield but not watched is warned of, and no other.
pub proof fn unwatched_yields_are_warned_of(units: Seq<UnitView>, u: UnitView)
    ensures
        yield_warnings(Seq::empty()) == Seq::<char>::empty(),
        u.yield_cmd is Some && u.busy_cmd is None ==> yield_warnings(units.push(u))
            == yield_warnings(units) + ("\nWARNING: unit "@ + u.unit
            + " sets yield_cmd without busy_cmd; the yield stage will be skipped"@),
        u.yield_cmd is None || u.busy_cmd is Some ==> yield_warnings(units.push(u))
            == yield_warnings(units),
{
    assert(units.push(u).drop_last() =~= units);
    if u.yield_cmd is None || u.busy_cmd is Some {
        assert(yield_warnings(units.push(u)) =~= yield_warnings(units));
    }
}

/// `wait` ends well just where the state that it waits for is told: the GPU free, or a
/// game. Without a reply it gives up at once; with another state it looks again until its
/// time is over.
pub proof fn wait_ends_with_its_state(body: Option<JsonView>, w: WaitFor, over: bool)
    ensures
        body is None ==> wait_next(body, w, over) == WaitStep::Unreachable,
        body is Some ==> {
            let wanted = if w == WaitFor::Available {
                "available"@
            } else {
                "gaming"@
            };
            let there = text_field(body->0, "state"@) == Some(wanted);
            &&& there ==> wait_next(body, w, over) == WaitStep::Reached
            &&& !there && over ==> wait_next(body, w, over) == WaitStep::TimedOut
            &&& !there && !over ==> wait_next(body, w, over) == WaitStep::Poll
        },
{
}

/// `status` exits with 0 where it was answered, and where it is silent only if the GPU is
/// free; without an answer with 1, or with 2 where it is silent.
pub proof fn exit_code_tells(body: Option<JsonView>, json: bool, quiet: bool)
    ensures
        ({
            let r = status_told(body, json, quiet);
            &&& quiet ==> r.0 is Silent
            &&& quiet && body is None ==> r.1 == 2
            &&& quiet && body is Some ==> r.1 == (if text_field(body->0, "state"@) == Some(
                "available"@,
            ) {
                0int
            } else {
                1int
            })
            &&& !quiet && body is None ==> r.0 is Unreachable && r.1 == 1
            &&& !quiet && body is Some && json ==> r.0 is RawJson && r.1 == 0
            &&& !quiet && body is Some && !json ==> r.0 == StatusOutputView::Summary(
                status_summary(body->0),
            ) && r.1 == 0
        }),
{
}

/// `watch` tells its first look and every change, and nothing else. What it tells names the
/// state before, where there was one, and the state now.
pub proof fn watch_tells_changes(
    prev: Option<Seq<char>>,
    next: Seq<char>,
    ts: Seq<char>,
    claims: Seq<Seq<char>>,
)
    ensures
        is_news(None, next),
        prev is Some ==> (is_news(prev, next) <==> prev->0 != next),
        watch_record(ts, prev, next, claims) == seq![
            ("ts"@, RecordValueView::Text(ts)),
            (
                "from"@,
                if prev is Some {
                    RecordValueView::Text(prev->0)
                } else {
                    RecordValueView::Null
                },
            ),
            ("to"@, RecordValueView::Text(next)),
            ("claims"@, RecordValueView::Texts(claims)),
        ],
{
}

/// The summary has a line for every unit that the reply tells of, in order: its name,
/// whether it runs, and its VRAM and models where it has any.
pub proof fn summary_has_every_unit(units: Seq<JsonView>, u: JsonView)
    ensures
        unit_summaries(Seq::empty()) == Seq::<char>::empty(),
        unit_summaries(units.push(u)) == unit_summaries(units) + unit_summary(u),
        units_summary(units.push(u)) == "Units:\n"@ + unit_summaries(units.push(u)),
        starts_with(unit_summary(u), "  "@ + or_else(text_field(u, "unit"@), "?"@) + ": "@),
{
    assert(units.push(u).drop_last() =~= units);
    let h = "  "@ + or_else(text_field(u, "unit"@), "?"@) + ": "@;
    assert(unit_summary(u).subrange(0, h.len() as int) =~= h);
}

/// What `status` shows of a reply: the state, since when, that something failed where it
/// did, the claims, and the VRAM in use and in all; for what the reply leaves out, a
/// stand-in.
pub proof fn summary_shows_the_reply(
    v: JsonView,
    state: Seq<char>,
    since: Seq<char>,
    used: u64,
    total: u64,
)
    requires
        field(v, "state"@) == Some(JsonView::Text(state)),
        field(v, "since"@) == Some(JsonView::Text(since)),
        field(v, "gpu_vram_used_mb"@) == Some(JsonView::Uint(used)),
        field(v, "gpu_vram_total_mb"@) == Some(JsonView::Uint(total)),
    ensures
        ({
            let failed = if field(v, "degraded"@) == Some(JsonView::Bool(true)) {
                "Degraded: one or more units failed to evict (see daemon logs)\n"@
            } else {
                Seq::empty()
            };
            let claims = if texts_field(v, "claims"@).len() > 0 {
                joined(texts_field(v, "claims"@), ", "@)
            } else {
                "(none)"@
            };
            let head = "State:   "@ + state + "\nSince:   "@ + since + "\n"@ + failed
                + "Claims:  "@ + claims + "\nGPU:     "@ + decimal(used as nat) + " / "@ + decimal(
                total as nat,
            ) + " MiB VRAM used\n"@;
            starts_with(status_summary(v), head)
        }),
{
    let h = state_summary(v);
    assert(status_summary(v).subrange(0, h.len() as int) =~= h);
}

/// The line of a unit: its name, whether it runs, its VRAM where that is told, and its models
/// where there are any.
pub proof fn unit_line_shows_the_unit(u: JsonView, name: Seq<char>)
    requires
        field(u, "unit"@) == Some(JsonView::Text(name)),
    ensures
        ({
            let runs = match field(u, "running"@) {
                Some(JsonView::Bool(true)) => "running"@,
                Some(JsonView::Bool(false)) => "stopped"@,
                _ => "unknown"@,
            };
            let vram = match field(u, "vram_mb"@) {
                Some(JsonView::Uint(n)) => ", "@ + decimal(n as nat) + " MiB"@,
                _ => Seq::empty(),
            };
            let models = if texts_field(u, "models"@).len() > 0 {
                " ["@ + joined(texts_field(u, "models"@), ", "@) + "]"@
            } else {
                Seq::empty()
            };
            unit_summary(u) == "  "@ + name + ": "@ + runs + vram + models + "\n"@
        }),
{
}

/// The line of `watch`: the time, the states before and after, and the claims or a dash.
pub proof fn watch_line_shows_the_change(
    ts: Seq<char>,
    p: Seq<char>,
    next: Seq<char>,
    claims: Seq<Seq<char>>,
)
    ensures
        ({
            let c = if claims.len() > 0 {
                joined(claims, ","@)
            } else {
                "-"@
            };
            &&& watch_line(ts, Some(p), next, claims) == ts + "  "@ + p + " -> "@ + next
                + "  claims="@ + c
            &&& watch_line(ts, None, next, claims) == ts + "  (start) "@ + next + "  claims="@ + c
        }),
{
}

} // verus!
