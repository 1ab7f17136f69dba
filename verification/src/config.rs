//! The daemon's configuration: its schema, its defaults and the list of managed
//! units that follows from it.

use vstd::prelude::*;

use crate::addr::{address, read_address, AddrView, IpAddr};
use crate::scan::{lower_text, to_lower, trim, trimmed, words, words_of};
use crate::text::{contains, copy_opt, copy_texts, occurs, opt_text, same, texts};
use crate::toml_tree::{
    entries, lemma_list, lemma_table, list_texts, lookup, parse_toml, place, placed, read_texts,
    toml_document, value_of, Entry, Toml, TomlView,
};

verus! {

/// The longest `introspect_cmd` that is run, in bytes.
pub const MAX_INTROSPECT_CMD_LEN: usize = 1024;

/// The priority of a unit that names none.
pub const DEFAULT_UNIT_PRIORITY: u8 = 50;

/// The priority of a game where the configuration names none.
pub const DEFAULT_GAME_PRIORITY: u8 = 100;

/// The kind of host that the daemon runs on.
#[derive(Debug, Clone, Copy, PartialEq, Eq, Structural)]
pub enum Platform {
    /// One with unix sockets.
    Unix,
    /// Windows.
    Windows,
}

/// The control socket where the configuration names none: none at all on Windows.
pub open spec fn default_socket_of(platform: Platform) -> Seq<char> {
    match platform {
        Platform::Unix => "/run/gpu-arbiter/gpu-arbiter.sock"@,
        Platform::Windows => ""@,
    }
}

/// The control socket where the configuration names none.
pub fn default_socket_path(platform: Platform) -> (r: &'static str)
    ensures
        r@ == default_socket_of(platform),
{
    match platform {
        Platform::Unix => "/run/gpu-arbiter/gpu-arbiter.sock",
        Platform::Windows => "",
    }
}

/// A rule that makes a process a game by its command line.
#[derive(Debug, Clone, PartialEq, Eq)]
pub struct GamePattern {
    /// The name that the claim carries.
    pub name: String,
    /// The text that the command line must hold.
    pub match_substr: String,
    /// Texts any of which, in the command line, makes this rule not apply.
    pub exclude: Vec<String>,
}

/// The value of a [`GamePattern`].
pub struct PatternView {
    pub name: Seq<char>,
    pub match_substr: Seq<char>,
    pub exclude: Seq<Seq<char>>,
}

impl View for GamePattern {
    type V = PatternView;

    open spec fn view(&self) -> PatternView {
        PatternView {
            name: self.name@,
            match_substr: self.match_substr@,
            exclude: texts(self.exclude@),
        }
    }
}

/// How a unit's loaded models are listed.
#[derive(Debug, Clone, PartialEq, Eq)]
pub enum Introspection {
    /// By this command, one model per line.
    Command(String),
    /// By `ollama ps`.
    Ollama,
    /// Not at all.
    Unlisted,
}

/// The value of an [`Introspection`].
pub enum IntrospectionView {
    Command(Seq<char>),
    Ollama,
    Unlisted,
}

impl View for Introspection {
    type V = IntrospectionView;

    open spec fn view(&self) -> IntrospectionView {
        match self {
            Introspection::Command(c) => IntrospectionView::Command(c@),
            Introspection::Ollama => IntrospectionView::Ollama,
            Introspection::Unlisted => IntrospectionView::Unlisted,
        }
    }
}

/// Which GPU vendor the configuration asks for.
#[derive(Debug, Clone, Copy, PartialEq, Eq, Default, Structural)]
pub enum GpuBackendKind {
    /// Whichever is found.
    #[default]
    Auto,
    /// NVIDIA.
    Nvidia,
    /// AMD.
    Amd,
}

/// A command as a program and its arguments, run without a shell.
#[derive(Debug, Clone, PartialEq, Eq)]
pub struct ArgvCmd(pub Vec<String>);

impl ArgvCmd {
    /// The program and its arguments.
    pub fn argv(&self) -> (r: &[String])
        ensures
            r@ == self.0@,
    {
        self.0.as_slice()
    }
}

/// The words of an optional command.
pub open spec fn opt_argv(c: Option<ArgvCmd>) -> Option<Seq<Seq<char>>> {
    match c {
        Some(a) => Some(texts(a.0@)),
        None => None,
    }
}

fn copy_argv(c: &Option<ArgvCmd>) -> (r: Option<ArgvCmd>)
    ensures
        opt_argv(r) == opt_argv(*c),
{
    match c {
        Some(a) => Some(ArgvCmd(copy_texts(a.0.as_slice()))),
        None => None,
    }
}

/// A tenant of the GPU that the daemon stops and starts.
#[derive(Debug, Clone, PartialEq, Eq)]
pub struct ManagedUnit {
    /// The unit's name.
    pub unit: String,
    /// Whether the daemon brings the unit up whenever the GPU is free.
    pub eager_restart: bool,
    /// The text by which the unit's processes are known where no control group
    /// tells.
    pub vram_match: Option<String>,
    /// How models are listed: `ollama`, or any other word for not at all.
    pub kind: Option<String>,
    /// A command that lists the loaded models.
    pub introspect_cmd: Option<String>,
    /// Replaces `systemctl stop`.
    pub stop_cmd: Option<ArgvCmd>,
    /// Replaces `systemctl start`.
    pub start_cmd: Option<ArgvCmd>,
    /// Replaces `systemctl is-active`.
    pub is_active_cmd: Option<ArgvCmd>,
    /// Replaces `systemctl kill -s SIGKILL`.
    pub kill_cmd: Option<ArgvCmd>,
    /// The tier of the unit: a busy unit preempts the tiers strictly below.
    pub priority: u8,
    /// Tells by exit code 0 that the unit has work.
    pub busy_cmd: Option<ArgvCmd>,
    /// Asks the unit to let go of the GPU and stay up.
    pub yield_cmd: Option<ArgvCmd>,
    /// Takes a yield back.
    pub resume_cmd: Option<ArgvCmd>,
    /// How long a yield may take, in place of the configuration's own limit.
    pub yield_timeout_s: Option<u64>,
}

/// The value of a [`ManagedUnit`].
pub struct UnitView {
    pub unit: Seq<char>,
    pub eager_restart: bool,
    pub vram_match: Option<Seq<char>>,
    pub kind: Option<Seq<char>>,
    pub introspect_cmd: Option<Seq<char>>,
    pub stop_cmd: Option<Seq<Seq<char>>>,
    pub start_cmd: Option<Seq<Seq<char>>>,
    pub is_active_cmd: Option<Seq<Seq<char>>>,
    pub kill_cmd: Option<Seq<Seq<char>>>,
    pub priority: u8,
    pub busy_cmd: Option<Seq<Seq<char>>>,
    pub yield_cmd: Option<Seq<Seq<char>>>,
    pub resume_cmd: Option<Seq<Seq<char>>>,
    pub yield_timeout_s: Option<u64>,
}

impl View for ManagedUnit {
    type V = UnitView;

    open spec fn view(&self) -> UnitView {
        UnitView {
            unit: self.unit@,
            eager_restart: self.eager_restart,
            vram_match: opt_text(self.vram_match),
            kind: opt_text(self.kind),
            introspect_cmd: opt_text(self.introspect_cmd),
            stop_cmd: opt_argv(self.stop_cmd),
            start_cmd: opt_argv(self.start_cmd),
            is_active_cmd: opt_argv(self.is_active_cmd),
            kill_cmd: opt_argv(self.kill_cmd),
            priority: self.priority,
            busy_cmd: opt_argv(self.busy_cmd),
            yield_cmd: opt_argv(self.yield_cmd),
            resume_cmd: opt_argv(self.resume_cmd),
            yield_timeout_s: self.yield_timeout_s,
        }
    }
}

/// The values of a list of units.
pub open spec fn unit_views(v: Seq<ManagedUnit>) -> Seq<UnitView> {
    Seq::new(v.len(), |i: int| v[i]@)
}

/// The values of a list of patterns.
pub open spec fn pattern_views(v: Seq<GamePattern>) -> Seq<PatternView> {
    Seq::new(v.len(), |i: int| v[i]@)
}

/// How the models of a unit are listed: by its own command where it names one
/// that is neither blank nor too long; else by its kind; else, for a unit with
/// `ollama` in its name, by `ollama ps`.
pub open spec fn introspection_of(u: UnitView) -> IntrospectionView {
    if u.introspect_cmd is Some && trimmed(u.introspect_cmd->0).len() > 0
        && vstd::utf8::encode_utf8(u.introspect_cmd->0).len() <= MAX_INTROSPECT_CMD_LEN {
        IntrospectionView::Command(u.introspect_cmd->0)
    } else if u.kind == Some("ollama"@) || (u.kind is None && occurs(
        lower_text(u.unit),
        "ollama"@,
    )) {
        IntrospectionView::Ollama
    } else {
        IntrospectionView::Unlisted
    }
}

impl ManagedUnit {
    /// How this unit's loaded models are listed.
    pub fn introspection(&self) -> (r: Introspection)
        ensures
            r@ == introspection_of(self@),
    {
        if let Some(cmd) = &self.introspect_cmd {
            let t = trim(cmd.as_str());
            if !t.as_str().is_empty() && cmd.as_str().as_bytes().len() <= MAX_INTROSPECT_CMD_LEN {
                return Introspection::Command(cmd.clone());
            }
        }
        match &self.kind {
            Some(k) => if same(k.as_str(), "ollama") {
                Introspection::Ollama
            } else {
                Introspection::Unlisted
            },
            None => if contains(to_lower(self.unit.as_str()).as_str(), "ollama") {
                Introspection::Ollama
            } else {
                Introspection::Unlisted
            },
        }
    }

    /// A copy of this unit.
    pub fn copy(&self) -> (r: ManagedUnit)
        ensures
            r@ == self@,
    {
        ManagedUnit {
            unit: self.unit.clone(),
            eager_restart: self.eager_restart,
            vram_match: copy_opt(&self.vram_match),
            kind: copy_opt(&self.kind),
            introspect_cmd: copy_opt(&self.introspect_cmd),
            stop_cmd: copy_argv(&self.stop_cmd),
            start_cmd: copy_argv(&self.start_cmd),
            is_active_cmd: copy_argv(&self.is_active_cmd),
            kill_cmd: copy_argv(&self.kill_cmd),
            priority: self.priority,
            busy_cmd: copy_argv(&self.busy_cmd),
            yield_cmd: copy_argv(&self.yield_cmd),
            resume_cmd: copy_argv(&self.resume_cmd),
            yield_timeout_s: self.yield_timeout_s,
        }
    }
}

/// The daemon's configuration.
#[derive(Debug, Clone, PartialEq, Eq)]
pub struct Config {
    /// Whether the daemon runs at all.
    pub enabled: bool,
    /// The TCP port of the read-only surface.
    pub port: u16,
    /// The address that the TCP port is bound to.
    pub bind: IpAddr,
    /// The one unit that is managed where `managed_units` is empty.
    pub ollama_unit: String,
    /// Whether that unit is brought up whenever the GPU is free.
    pub eager_ollama: bool,
    /// The managed units as configured.
    pub managed_units: Vec<ManagedUnit>,
    /// The managed units in force.
    pub units: Vec<ManagedUnit>,
    /// How long an eviction waits before it kills.
    pub eviction_timeout_s: u64,
    /// Below this much VRAM in use a tenant has let go.
    pub vram_free_threshold_mb: u64,
    /// The period of the backstop timer.
    pub reconcile_interval_s: u64,
    /// Whether Steam's marker makes a process a game.
    pub detect_steam: bool,
    /// The rules for games that Steam did not launch.
    pub game_patterns: Vec<GamePattern>,
    /// Whether a graphics process with much VRAM is a game.
    pub vram_heuristic: bool,
    /// How much VRAM that is.
    pub vram_game_threshold_mb: u64,
    /// What is never a game by its VRAM.
    pub gpu_allowlist: Vec<String>,
    /// Whether local input is watched.
    pub presence_detection: bool,
    /// How long after the last input nobody is taken to be present.
    pub presence_idle_threshold_s: u64,
    /// The GPU vendor.
    pub gpu_backend: GpuBackendKind,
    /// The control socket; empty for none.
    pub socket_path: String,
    /// The tier of a game.
    pub game_priority: u8,
    /// How long a yield may take.
    pub yield_timeout_s: u64,
}

/// The value of a [`Config`].
pub struct ConfigView {
    pub enabled: bool,
    pub port: u16,
    pub bind: AddrView,
    pub ollama_unit: Seq<char>,
    pub eager_ollama: bool,
    pub managed_units: Seq<UnitView>,
    pub units: Seq<UnitView>,
    pub eviction_timeout_s: u64,
    pub vram_free_threshold_mb: u64,
    pub reconcile_interval_s: u64,
    pub detect_steam: bool,
    pub game_patterns: Seq<PatternView>,
    pub vram_heuristic: bool,
    pub vram_game_threshold_mb: u64,
    pub gpu_allowlist: Seq<Seq<char>>,
    pub presence_detection: bool,
    pub presence_idle_threshold_s: u64,
    pub gpu_backend: GpuBackendKind,
    pub socket_path: Seq<char>,
    pub game_priority: u8,
    pub yield_timeout_s: u64,
}

impl View for Config {
    type V = ConfigView;

    open spec fn view(&self) -> ConfigView {
        ConfigView {
            enabled: self.enabled,
            port: self.port,
            bind: self.bind@,
            ollama_unit: self.ollama_unit@,
            eager_ollama: self.eager_ollama,
            managed_units: unit_views(self.managed_units@),
            units: unit_views(self.units@),
            eviction_timeout_s: self.eviction_timeout_s,
            vram_free_threshold_mb: self.vram_free_threshold_mb,
            reconcile_interval_s: self.reconcile_interval_s,
            detect_steam: self.detect_steam,
            game_patterns: pattern_views(self.game_patterns@),
            vram_heuristic: self.vram_heuristic,
            vram_game_threshold_mb: self.vram_game_threshold_mb,
            gpu_allowlist: texts(self.gpu_allowlist@),
            presence_detection: self.presence_detection,
            presence_idle_threshold_s: self.presence_idle_threshold_s,
            gpu_backend: self.gpu_backend,
            socket_path: self.socket_path@,
            game_priority: self.game_priority,
            yield_timeout_s: self.yield_timeout_s,
        }
    }
}

/// The processes that are never games by their VRAM, unless configured.
pub open spec fn default_allowlist() -> Seq<Seq<char>> {
    seq!["ollama"@, "kwin_wayland"@, "plasmashell"@, "Xwayland"@]
}

/// The unit that stands in for an empty list of managed units.
pub open spec fn legacy_unit(name: Seq<char>, eager: bool) -> UnitView {
    UnitView {
        unit: name,
        eager_restart: eager,
        vram_match: Some("ollama"@),
        kind: Some("ollama"@),
        introspect_cmd: None,
        stop_cmd: None,
        start_cmd: None,
        is_active_cmd: None,
        kill_cmd: None,
        priority: DEFAULT_UNIT_PRIORITY,
        busy_cmd: None,
        yield_cmd: None,
        resume_cmd: None,
        yield_timeout_s: None,
    }
}

/// The units in force: those configured or, where there are none, the one that
/// the two older keys describe.
pub open spec fn units_in_force(
    name: Seq<char>,
    eager: bool,
    managed: Seq<UnitView>,
) -> Seq<UnitView> {
    if managed.len() == 0 {
        seq![legacy_unit(name, eager)]
    } else {
        managed
    }
}

/// The configuration that an empty document gives on a host with unix sockets.
pub open spec fn default_config() -> ConfigView {
    default_config_on(Platform::Unix)
}

/// The configuration that an empty document gives.
pub open spec fn default_config_on(platform: Platform) -> ConfigView {
    ConfigView {
        enabled: true,
        port: 48750,
        bind: AddrView::V4(seq![0, 0, 0, 0]),
        ollama_unit: "ollama.service"@,
        eager_ollama: true,
        managed_units: Seq::empty(),
        units: units_in_force("ollama.service"@, true, Seq::empty()),
        eviction_timeout_s: 5,
        vram_free_threshold_mb: 2000,
        reconcile_interval_s: 30,
        detect_steam: true,
        game_patterns: Seq::empty(),
        vram_heuristic: false,
        vram_game_threshold_mb: 4000,
        gpu_allowlist: default_allowlist(),
        presence_detection: true,
        presence_idle_threshold_s: 600,
        gpu_backend: GpuBackendKind::Auto,
        socket_path: default_socket_of(platform),
        game_priority: DEFAULT_GAME_PRIORITY,
        yield_timeout_s: 3,
    }
}

/// Why a configuration was not had.
#[derive(Debug, Clone, PartialEq, Eq)]
pub enum ConfigError {
    /// The file is there and could not be read.
    Io {
        /// The file.
        path: String,
        /// What the system said.
        detail: String,
    },
    /// The text is no configuration.
    Parse(String),
}

impl ConfigError {
    /// What the error says.
    pub open spec fn text(self) -> Seq<char> {
        match self {
            ConfigError::Io { path, detail } => "reading config file "@ + path@ + ": "@ + detail@,
            ConfigError::Parse(m) => "parsing config: "@ + m@,
        }
    }

    /// What the error says.
    pub fn message(&self) -> (r: String)
        ensures
            r@ == self.text(),
    {
        match self {
            ConfigError::Io { path, detail } => {
                let mut s: String = "reading config file ".to_owned();
                s.append(path.as_str());
                s.append(": ");
                s.append(detail.as_str());
                s
            },
            ConfigError::Parse(m) => {
                let mut s: String = "parsing config: ".to_owned();
                s.append(m.as_str());
                s
            },
        }
    }
}

/// What was found where the configuration file should be.
#[derive(Debug, Clone, PartialEq, Eq)]
pub enum ConfigFile {
    /// No file.
    Missing,
    /// A file that could not be read, and what the system said.
    Unreadable(String),
    /// A file with this text.
    Text(String),
}

// ── the schema ─────────────────────────────────────────────────────────────

/// The three kinds of table in a configuration.
#[derive(Debug, Clone, Copy, PartialEq, Eq, Structural)]
pub enum TableKind {
    /// The document itself.
    Root,
    /// One of `managed_units`.
    Unit,
    /// One of `game_patterns`.
    Pattern,
}

/// `key` is a key of such a table.
pub open spec fn known_key(kind: TableKind, key: Seq<char>) -> bool {
    match kind {
        TableKind::Root => key == "enabled"@ || key == "port"@ || key == "bind"@ || key
            == "ollama_unit"@ || key == "eager_ollama"@ || key == "managed_units"@ || key
            == "eviction_timeout_s"@ || key == "vram_free_threshold_mb"@ || key
            == "reconcile_interval_s"@ || key == "detect_steam"@ || key == "game_patterns"@ || key
            == "vram_heuristic"@ || key == "vram_game_threshold_mb"@ || key == "gpu_allowlist"@
            || key == "presence_detection"@ || key == "presence_idle_threshold_s"@ || key
            == "gpu_backend"@ || key == "socket_path"@ || key == "game_priority"@ || key
            == "yield_timeout_s"@,
        TableKind::Unit => key == "unit"@ || key == "eager_restart"@ || key == "vram_match"@ || key
            == "kind"@ || key == "introspect_cmd"@ || key == "stop_cmd"@ || key == "start_cmd"@
            || key == "is_active_cmd"@ || key == "kill_cmd"@ || key == "priority"@ || key
            == "busy_cmd"@ || key == "yield_cmd"@ || key == "resume_cmd"@ || key
            == "yield_timeout_s"@,
        TableKind::Pattern => key == "name"@ || key == "match"@ || key == "exclude"@,
    }
}

fn is_known(kind: TableKind, k: &str) -> (r: bool)
    ensures
        r == known_key(kind, k@),
{
    match kind {
        TableKind::Root => same(k, "enabled") || same(k, "port") || same(k, "bind") || same(
            k,
            "ollama_unit",
        ) || same(k, "eager_ollama") || same(k, "managed_units") || same(k, "eviction_timeout_s")
            || same(k, "vram_free_threshold_mb") || same(k, "reconcile_interval_s") || same(
            k,
            "detect_steam",
        ) || same(k, "game_patterns") || same(k, "vram_heuristic") || same(
            k,
            "vram_game_threshold_mb",
        ) || same(k, "gpu_allowlist") || same(k, "presence_detection") || same(
            k,
            "presence_idle_threshold_s",
        ) || same(k, "gpu_backend") || same(k, "socket_path") || same(k, "game_priority") || same(
            k,
            "yield_timeout_s",
        ),
        TableKind::Unit => same(k, "unit") || same(k, "eager_restart") || same(k, "vram_match")
            || same(k, "kind") || same(k, "introspect_cmd") || same(k, "stop_cmd") || same(
            k,
            "start_cmd",
        ) || same(k, "is_active_cmd") || same(k, "kill_cmd") || same(k, "priority") || same(
            k,
            "busy_cmd",
        ) || same(k, "yield_cmd") || same(k, "resume_cmd") || same(k, "yield_timeout_s"),
        TableKind::Pattern => same(k, "name") || same(k, "match") || same(k, "exclude"),
    }
}

/// The first key that such a table does not have.
pub open spec fn unknown_key(kind: TableKind, e: Seq<Entry>) -> Option<Seq<char>>
    decreases e.len(),
{
    if e.len() == 0 {
        None
    } else if !known_key(kind, e[0].key) {
        Some(e[0].key)
    } else {
        unknown_key(kind, e.drop_first())
    }
}

/// What is said of a key that a table does not have.
pub open spec fn unknown_key_text(key: Seq<char>) -> Seq<char> {
    "unknown field `"@ + key + "`"@
}

/// The error is that the text is no configuration, with these words.
pub open spec fn says(e: ConfigError, words: Seq<char>) -> bool {
    e is Parse && e->Parse_0@ == words
}

fn reject_unknown(kind: TableKind, t: &Vec<(String, Toml)>) -> (r: Result<(), ConfigError>)
    ensures
        match r {
            Ok(_) => unknown_key(kind, entries(t@)) is None,
            Err(e) => {
                &&& unknown_key(kind, entries(t@)) is Some
                &&& says(e, unknown_key_text(unknown_key(kind, entries(t@))->0))
            },
        },
{
    let ghost e = entries(t@);
    let mut i: usize = 0;
    proof {
        assert(e.skip(0) =~= e);
    }
    while i < t.len()
        invariant
            i <= t.len(),
            e == entries(t@),
            unknown_key(kind, e) == unknown_key(kind, e.skip(i as int)),
        decreases t.len() - i,
    {
        proof {
            assert(e.skip(i as int)[0] == e[i as int]);
            assert(e.skip(i as int).drop_first() =~= e.skip(i + 1));
        }
        if !is_known(kind, t[i].0.as_str()) {
            let mut m: String = "unknown field `".to_owned();
            m.append(t[i].0.as_str());
            m.append("`");
            return Err(ConfigError::Parse(m));
        }
        i = i + 1;
    }
    Ok(())
}

/// What is said of a key that lacks a value that it must have, or has one that it
/// cannot have.
pub open spec fn wrong_value_text(key: Seq<char>) -> Seq<char> {
    "missing or invalid value for `"@ + key + "`"@
}

fn wrong_value(key: &str) -> (e: ConfigError)
    ensures
        says(e, wrong_value_text(key@)),
{
    let mut m: String = "missing or invalid value for `".to_owned();
    m.append(key);
    m.append("`");
    ConfigError::Parse(m)
}

/// The boolean under `key`, or `default`.
pub open spec fn bool_or(e: Seq<Entry>, key: Seq<char>, default: bool) -> Option<bool> {
    match value_of(e, key) {
        None => Some(default),
        Some(TomlView::Bool(b)) => Some(b),
        Some(_) => None,
    }
}

fn read_bool(t: &Vec<(String, Toml)>, key: &str, default: bool) -> (r: Result<bool, ConfigError>)
    ensures
        match r {
            Ok(b) => bool_or(entries(t@), key@, default) == Some(b),
            Err(e) => says(e, wrong_value_text(key@)) && bool_or(entries(t@), key@, default) is None,
        },
{
    match lookup(t, key) {
        None => Ok(default),
        Some(Toml::Bool(b)) => Ok(*b),
        Some(_) => Err(wrong_value(key)),
    }
}

/// The number from 0 to `max` under `key`, where there is one.
pub open spec fn uint_if(e: Seq<Entry>, key: Seq<char>, max: u64) -> Option<Option<u64>> {
    match value_of(e, key) {
        None => Some(None),
        Some(TomlView::Int(n)) => if 0 <= n <= max {
            Some(Some(n as u64))
        } else {
            None
        },
        Some(_) => None,
    }
}

/// The number from 0 to `max` under `key`, or `default`.
pub open spec fn uint_or(e: Seq<Entry>, key: Seq<char>, default: u64, max: u64) -> Option<u64> {
    match uint_if(e, key, max) {
        Some(Some(n)) => Some(n),
        Some(None) => Some(default),
        None => None,
    }
}

fn read_uint_if(t: &Vec<(String, Toml)>, key: &str, max: u64) -> (r: Result<
    Option<u64>,
    ConfigError,
>)
    ensures
        match r {
            Ok(n) => uint_if(entries(t@), key@, max) == Some(n),
            Err(e) => says(e, wrong_value_text(key@)) && uint_if(entries(t@), key@, max) is None,
        },
{
    match lookup(t, key) {
        None => Ok(None),
        Some(Toml::Int(n)) => if 0 <= *n && *n <= max as i128 {
            Ok(Some(*n as u64))
        } else {
            Err(wrong_value(key))
        },
        Some(_) => Err(wrong_value(key)),
    }
}

fn read_uint(t: &Vec<(String, Toml)>, key: &str, default: u64, max: u64) -> (r: Result<
    u64,
    ConfigError,
>)
    requires
        default <= max,
    ensures
        match r {
            Ok(n) => uint_or(entries(t@), key@, default, max) == Some(n) && n <= max,
            Err(e) => says(e, wrong_value_text(key@)) && uint_or(entries(t@), key@, default, max) is None,
        },
{
    match read_uint_if(t, key, max) {
        Ok(Some(n)) => Ok(n),
        Ok(None) => Ok(default),
        Err(e) => Err(e),
    }
}

/// The text under `key`, where there is one.
pub open spec fn text_if(e: Seq<Entry>, key: Seq<char>) -> Option<Option<Seq<char>>> {
    match value_of(e, key) {
        None => Some(None),
        Some(TomlView::Text(s)) => Some(Some(s)),
        Some(_) => None,
    }
}

/// The text under `key`, or `default`.
pub open spec fn text_or(e: Seq<Entry>, key: Seq<char>, default: Seq<char>) -> Option<Seq<char>> {
    match text_if(e, key) {
        Some(Some(s)) => Some(s),
        Some(None) => Some(default),
        None => None,
    }
}

/// The text that must stand under `key`.
pub open spec fn text_at(e: Seq<Entry>, key: Seq<char>) -> Option<Seq<char>> {
    match text_if(e, key) {
        Some(s) => s,
        None => None,
    }
}

fn read_text_if(t: &Vec<(String, Toml)>, key: &str) -> (r: Result<Option<String>, ConfigError>)
    ensures
        match r {
            Ok(s) => text_if(entries(t@), key@) == Some(opt_text(s)),
            Err(e) => says(e, wrong_value_text(key@)) && text_if(entries(t@), key@) is None,
        },
{
    match lookup(t, key) {
        None => Ok(None),
        Some(Toml::Text(s)) => Ok(Some(s.clone())),
        Some(_) => Err(wrong_value(key)),
    }
}

fn read_text(t: &Vec<(String, Toml)>, key: &str, default: &str) -> (r: Result<String, ConfigError>)
    ensures
        match r {
            Ok(s) => text_or(entries(t@), key@, default@) == Some(s@),
            Err(e) => says(e, wrong_value_text(key@)) && text_or(entries(t@), key@, default@) is None,
        },
{
    match read_text_if(t, key) {
        Ok(Some(s)) => Ok(s),
        Ok(None) => Ok(default.to_owned()),
        Err(e) => Err(e),
    }
}

fn read_required(t: &Vec<(String, Toml)>, key: &str) -> (r: Result<String, ConfigError>)
    ensures
        match r {
            Ok(s) => text_at(entries(t@), key@) == Some(s@),
            Err(e) => says(e, wrong_value_text(key@)) && text_at(entries(t@), key@) is None,
        },
{
    match read_text_if(t, key) {
        Ok(Some(s)) => Ok(s),
        Ok(None) => Err(wrong_value(key)),
        Err(e) => Err(e),
    }
}

/// The address that the text under `key` writes, or `default`.
pub open spec fn addr_or(e: Seq<Entry>, key: Seq<char>, default: AddrView) -> Option<AddrView> {
    match text_if(e, key) {
        Some(Some(s)) => address(s),
        Some(None) => Some(default),
        None => None,
    }
}

fn read_addr(t: &Vec<(String, Toml)>, key: &str, default: IpAddr) -> (r: Result<
    IpAddr,
    ConfigError,
>)
    ensures
        match r {
            Ok(a) => addr_or(entries(t@), key@, default@) == Some(a@),
            Err(e) => says(e, wrong_value_text(key@)) && addr_or(entries(t@), key@, default@) is None,
        },
{
    match read_text_if(t, key) {
        Ok(Some(s)) => match read_address(s.as_str()) {
            Some(a) => Ok(a),
            None => Err(wrong_value(key)),
        },
        Ok(None) => Ok(default),
        Err(e) => Err(e),
    }
}

/// The texts listed under `key`, or `default`.
pub open spec fn texts_or(
    e: Seq<Entry>,
    key: Seq<char>,
    default: Seq<Seq<char>>,
) -> Option<Seq<Seq<char>>> {
    match value_of(e, key) {
        None => Some(default),
        Some(TomlView::List(l)) => list_texts(l),
        Some(_) => None,
    }
}

fn read_text_list(t: &Vec<(String, Toml)>, key: &str, default: Vec<String>) -> (r: Result<
    Vec<String>,
    ConfigError,
>)
    ensures
        match r {
            Ok(v) => texts_or(entries(t@), key@, texts(default@)) == Some(texts(v@)),
            Err(e) => says(e, wrong_value_text(key@)) && texts_or(entries(t@), key@, texts(default@)) is None,
        },
{
    match lookup(t, key) {
        None => Ok(default),
        Some(Toml::List(l)) => {
            proof {
                lemma_list(*l);
            }
            match read_texts(l) {
                Some(v) => Ok(v),
                None => Err(wrong_value(key)),
            }
        },
        Some(_) => Err(wrong_value(key)),
    }
}

/// The command under `key`: its words one by one, or one text that holds them.
pub open spec fn argv_if(e: Seq<Entry>, key: Seq<char>) -> Option<Option<Seq<Seq<char>>>> {
    match value_of(e, key) {
        None => Some(None),
        Some(TomlView::Text(s)) => Some(Some(words_of(s))),
        Some(TomlView::List(l)) => match list_texts(l) {
            Some(v) => Some(Some(v)),
            None => None,
        },
        Some(_) => None,
    }
}

fn read_argv(t: &Vec<(String, Toml)>, key: &str) -> (r: Result<Option<ArgvCmd>, ConfigError>)
    ensures
        match r {
            Ok(c) => argv_if(entries(t@), key@) == Some(opt_argv(c)),
            Err(e) => says(e, wrong_value_text(key@)) && argv_if(entries(t@), key@) is None,
        },
{
    match lookup(t, key) {
        None => Ok(None),
        Some(Toml::Text(s)) => Ok(Some(ArgvCmd(words(s.as_str())))),
        Some(Toml::List(l)) => {
            proof {
                lemma_list(*l);
            }
            match read_texts(l) {
                Some(v) => Ok(Some(ArgvCmd(v))),
                None => Err(wrong_value(key)),
            }
        },
        Some(_) => Err(wrong_value(key)),
    }
}

/// The vendor of this name.
pub open spec fn backend_named(s: Seq<char>) -> Option<GpuBackendKind> {
    if s == "auto"@ {
        Some(GpuBackendKind::Auto)
    } else if s == "nvidia"@ {
        Some(GpuBackendKind::Nvidia)
    } else if s == "amd"@ {
        Some(GpuBackendKind::Amd)
    } else {
        None
    }
}

/// A table or a list with nothing in it.
pub open spec fn is_void(v: TomlView) -> bool {
    match v {
        TomlView::Table(t) => t.len() == 0,
        TomlView::List(l) => l.len() == 0,
        _ => false,
    }
}

/// The vendor under `key`: its name, or a table with its name as the only key and
/// nothing under that.
pub open spec fn backend_or_auto(e: Seq<Entry>, key: Seq<char>) -> Option<GpuBackendKind> {
    match value_of(e, key) {
        None => Some(GpuBackendKind::Auto),
        Some(TomlView::Text(s)) => backend_named(s),
        Some(TomlView::Table(t)) => if t.len() == 1 && is_void(t[0].value) {
            backend_named(t[0].key)
        } else {
            None
        },
        Some(_) => None,
    }
}

fn read_backend_name(s: &str) -> (r: Option<GpuBackendKind>)
    ensures
        r == backend_named(s@),
{
    if same(s, "auto") {
        Some(GpuBackendKind::Auto)
    } else if same(s, "nvidia") {
        Some(GpuBackendKind::Nvidia)
    } else if same(s, "amd") {
        Some(GpuBackendKind::Amd)
    } else {
        None
    }
}

fn read_void(v: &Toml) -> (r: bool)
    ensures
        r == is_void(v@),
{
    match v {
        Toml::Table(t) => {
            proof {
                lemma_table(*t);
            }
            t.len() == 0
        },
        Toml::List(l) => {
            proof {
                lemma_list(*l);
            }
            l.len() == 0
        },
        _ => false,
    }
}

fn read_backend(t: &Vec<(String, Toml)>, key: &str) -> (r: Result<GpuBackendKind, ConfigError>)
    ensures
        match r {
            Ok(k) => backend_or_auto(entries(t@), key@) == Some(k),
            Err(e) => says(e, wrong_value_text(key@)) && backend_or_auto(entries(t@), key@) is None,
        },
{
    let named: Option<GpuBackendKind> = match lookup(t, key) {
        None => return Ok(GpuBackendKind::Auto),
        Some(Toml::Text(s)) => read_backend_name(s.as_str()),
        Some(Toml::Table(b)) => {
            proof {
                lemma_table(*b);
            }
            if b.len() == 1 && read_void(&b[0].1) {
                read_backend_name(b[0].0.as_str())
            } else {
                None
            }
        },
        Some(_) => None,
    };
    match named {
        Some(k) => Ok(k),
        None => Err(wrong_value(key)),
    }
}

/// What is wrong with a table as a unit: a key that a unit does not have; else the
/// first of its keys that lacks its value or has one that it cannot have.
pub open spec fn unit_fault(e: Seq<Entry>) -> Option<Seq<char>> {
    match unknown_key(TableKind::Unit, e) {
        Some(k) => Some(unknown_key_text(k)),
        None => if text_at(e, "unit"@) is None {
            Some(wrong_value_text("unit"@))
        } else if bool_or(e, "eager_restart"@, true) is None {
            Some(wrong_value_text("eager_restart"@))
        } else if text_if(e, "vram_match"@) is None {
            Some(wrong_value_text("vram_match"@))
        } else if text_if(e, "kind"@) is None {
            Some(wrong_value_text("kind"@))
        } else if text_if(e, "introspect_cmd"@) is None {
            Some(wrong_value_text("introspect_cmd"@))
        } else if argv_if(e, "stop_cmd"@) is None {
            Some(wrong_value_text("stop_cmd"@))
        } else if argv_if(e, "start_cmd"@) is None {
            Some(wrong_value_text("start_cmd"@))
        } else if argv_if(e, "is_active_cmd"@) is None {
            Some(wrong_value_text("is_active_cmd"@))
        } else if argv_if(e, "kill_cmd"@) is None {
            Some(wrong_value_text("kill_cmd"@))
        } else if uint_or(e, "priority"@, DEFAULT_UNIT_PRIORITY as u64, 255) is None {
            Some(wrong_value_text("priority"@))
        } else if argv_if(e, "busy_cmd"@) is None {
            Some(wrong_value_text("busy_cmd"@))
        } else if argv_if(e, "yield_cmd"@) is None {
            Some(wrong_value_text("yield_cmd"@))
        } else if argv_if(e, "resume_cmd"@) is None {
            Some(wrong_value_text("resume_cmd"@))
        } else if uint_if(e, "yield_timeout_s"@, u64::MAX) is None {
            Some(wrong_value_text("yield_timeout_s"@))
        } else {
            None
        },
    }
}

/// The unit that a table describes.
pub open spec fn decode_unit(e: Seq<Entry>) -> Option<UnitView> {
    if unit_fault(e) is None {
        Some(
            UnitView {
                unit: text_at(e, "unit"@)->0,
                eager_restart: bool_or(e, "eager_restart"@, true)->0,
                vram_match: text_if(e, "vram_match"@)->0,
                kind: text_if(e, "kind"@)->0,
                introspect_cmd: text_if(e, "introspect_cmd"@)->0,
                stop_cmd: argv_if(e, "stop_cmd"@)->0,
                start_cmd: argv_if(e, "start_cmd"@)->0,
                is_active_cmd: argv_if(e, "is_active_cmd"@)->0,
                kill_cmd: argv_if(e, "kill_cmd"@)->0,
                priority: uint_or(e, "priority"@, DEFAULT_UNIT_PRIORITY as u64, 255)->0 as u8,
                busy_cmd: argv_if(e, "busy_cmd"@)->0,
                yield_cmd: argv_if(e, "yield_cmd"@)->0,
                resume_cmd: argv_if(e, "resume_cmd"@)->0,
                yield_timeout_s: uint_if(e, "yield_timeout_s"@, u64::MAX)->0,
            },
        )
    } else {
        None
    }
}

fn read_unit(t: &Vec<(String, Toml)>) -> (r: Result<ManagedUnit, ConfigError>)
    ensures
        match r {
            Ok(u) => decode_unit(entries(t@)) == Some(u@),
            Err(e) => unit_fault(entries(t@)) is Some && says(e, unit_fault(entries(t@))->0),
        },
{
    match reject_unknown(TableKind::Unit, t) {
        Ok(_) => {},
        Err(e) => return Err(e),
    }
    let unit = match read_required(t, "unit") {
        Ok(v) => v,
        Err(e) => return Err(e),
    };
    let eager_restart: bool = match read_bool(t, "eager_restart", true) {
        Ok(v) => v,
        Err(e) => return Err(e),
    };
    let vram_match = match read_text_if(t, "vram_match") {
        Ok(v) => v,
        Err(e) => return Err(e),
    };
    let kind = match read_text_if(t, "kind") {
        Ok(v) => v,
        Err(e) => return Err(e),
    };
    let introspect_cmd = match read_text_if(t, "introspect_cmd") {
        Ok(v) => v,
        Err(e) => return Err(e),
    };
    let stop_cmd = match read_argv(t, "stop_cmd") {
        Ok(v) => v,
        Err(e) => return Err(e),
    };
    let start_cmd = match read_argv(t, "start_cmd") {
        Ok(v) => v,
        Err(e) => return Err(e),
    };
    let is_active_cmd = match read_argv(t, "is_active_cmd") {
        Ok(v) => v,
        Err(e) => return Err(e),
    };
    let kill_cmd = match read_argv(t, "kill_cmd") {
        Ok(v) => v,
        Err(e) => return Err(e),
    };
    let priority: u64 = match read_uint(t, "priority", DEFAULT_UNIT_PRIORITY as u64, 255) {
        Ok(v) => v,
        Err(e) => return Err(e),
    };
    let busy_cmd = match read_argv(t, "busy_cmd") {
        Ok(v) => v,
        Err(e) => return Err(e),
    };
    let yield_cmd = match read_argv(t, "yield_cmd") {
        Ok(v) => v,
        Err(e) => return Err(e),
    };
    let resume_cmd = match read_argv(t, "resume_cmd") {
        Ok(v) => v,
        Err(e) => return Err(e),
    };
    let yield_timeout_s = match read_uint_if(t, "yield_timeout_s", u64::MAX) {
        Ok(v) => v,
        Err(e) => return Err(e),
    };
    Ok(
        ManagedUnit {
            unit,
            eager_restart,
            vram_match,
            kind,
            introspect_cmd,
            stop_cmd,
            start_cmd,
            is_active_cmd,
            kill_cmd,
            priority: priority as u8,
            busy_cmd,
            yield_cmd,
            resume_cmd,
            yield_timeout_s,
        },
    )
}

/// What is wrong with a table as a rule: a key that a rule does not have; else the
/// first of its keys that lacks its value or has one that it cannot have.
pub open spec fn pattern_fault(e: Seq<Entry>) -> Option<Seq<char>> {
    match unknown_key(TableKind::Pattern, e) {
        Some(k) => Some(unknown_key_text(k)),
        None => if text_at(e, "name"@) is None {
            Some(wrong_value_text("name"@))
        } else if text_at(e, "match"@) is None {
            Some(wrong_value_text("match"@))
        } else if texts_or(e, "exclude"@, Seq::empty()) is None {
            Some(wrong_value_text("exclude"@))
        } else {
            None
        },
    }
}

/// The keys of a unit or a rule, in the order in which a list gives their values.
pub open spec fn key_order(kind: TableKind) -> Seq<Seq<char>> {
    match kind {
        TableKind::Root => Seq::empty(),
        TableKind::Unit => seq![
            "unit"@,
            "eager_restart"@,
            "vram_match"@,
            "kind"@,
            "introspect_cmd"@,
            "stop_cmd"@,
            "start_cmd"@,
            "is_active_cmd"@,
            "kill_cmd"@,
            "priority"@,
            "busy_cmd"@,
            "yield_cmd"@,
            "resume_cmd"@,
            "yield_timeout_s"@,
        ],
        TableKind::Pattern => seq!["name"@, "match"@, "exclude"@],
    }
}

/// The entries of a unit or a rule: those of a table, or the values of a list under
/// the keys in their order.
pub open spec fn table_in(kind: TableKind, v: TomlView) -> Option<Seq<Entry>> {
    match v {
        TomlView::Table(t) => Some(t),
        TomlView::List(l) => Some(placed(key_order(kind), l)),
        _ => None,
    }
}

fn place_unit(l: &Vec<Toml>) -> (r: Vec<(String, Toml)>)
    ensures
        table_in(TableKind::Unit, Toml::List(*l)@) == Some(entries(r@)),
{
    let keys: Vec<&str> = vec![
        "unit",
        "eager_restart",
        "vram_match",
        "kind",
        "introspect_cmd",
        "stop_cmd",
        "start_cmd",
        "is_active_cmd",
        "kill_cmd",
        "priority",
        "busy_cmd",
        "yield_cmd",
        "resume_cmd",
        "yield_timeout_s",
    ];
    proof {
        lemma_list(*l);
        assert(Seq::new(keys@.len(), |i: int| keys@[i]@) =~= key_order(TableKind::Unit));
    }
    place(keys.as_slice(), l)
}

fn place_pattern(l: &Vec<Toml>) -> (r: Vec<(String, Toml)>)
    ensures
        table_in(TableKind::Pattern, Toml::List(*l)@) == Some(entries(r@)),
{
    let keys: Vec<&str> = vec!["name", "match", "exclude"];
    proof {
        lemma_list(*l);
        assert(Seq::new(keys@.len(), |i: int| keys@[i]@) =~= key_order(TableKind::Pattern));
    }
    place(keys.as_slice(), l)
}

/// What is wrong with a table in a list of such tables.
pub open spec fn table_fault(kind: TableKind, e: Seq<Entry>) -> Option<Seq<char>> {
    match kind {
        TableKind::Root => None,
        TableKind::Unit => unit_fault(e),
        TableKind::Pattern => pattern_fault(e),
    }
}

/// What is wrong with the first of a list's values that is not such a table, or is
/// one with something wrong.
pub open spec fn list_fault(kind: TableKind, l: Seq<TomlView>, key: Seq<char>) -> Option<Seq<char>>
    decreases l.len(),
{
    if l.len() == 0 {
        None
    } else {
        match table_in(kind, l[0]) {
            Some(t) => match table_fault(kind, t) {
                Some(m) => Some(m),
                None => list_fault(kind, l.drop_first(), key),
            },
            None => Some(wrong_value_text(key)),
        }
    }
}

/// What is wrong with what stands under `key`, where a list of such tables may.
pub open spec fn tables_fault(kind: TableKind, e: Seq<Entry>, key: Seq<char>) -> Option<
    Seq<char>,
> {
    match value_of(e, key) {
        None => None,
        Some(TomlView::List(l)) => list_fault(kind, l, key),
        Some(_) => Some(wrong_value_text(key)),
    }
}

/// The tables of a list that holds such tables only.
pub open spec fn list_tables(kind: TableKind, l: Seq<TomlView>) -> Option<Seq<Seq<Entry>>> {
    if forall|i: int| 0 <= i < l.len() ==> table_in(kind, #[trigger] l[i]) is Some {
        Some(Seq::new(l.len(), |i: int| table_in(kind, l[i])->0))
    } else {
        None
    }
}

/// The tables under `key`; none where the key is absent.
pub open spec fn tables_at(kind: TableKind, e: Seq<Entry>, key: Seq<char>) -> Option<
    Seq<Seq<Entry>>,
> {
    match value_of(e, key) {
        None => Some(Seq::empty()),
        Some(TomlView::List(l)) => list_tables(kind, l),
        Some(_) => None,
    }
}

/// The units that a list of tables describes.
pub open spec fn decode_units(tables: Option<Seq<Seq<Entry>>>) -> Option<Seq<UnitView>> {
    match tables {
        Some(ts) => if forall|i: int| 0 <= i < ts.len() ==> decode_unit(#[trigger] ts[i]) is Some {
            Some(Seq::new(ts.len(), |i: int| decode_unit(ts[i])->0))
        } else {
            None
        },
        None => None,
    }
}

fn read_units(t: &Vec<(String, Toml)>, key: &str) -> (r: Result<Vec<ManagedUnit>, ConfigError>)
    ensures
        match r {
            Ok(v) => decode_units(tables_at(TableKind::Unit, entries(t@), key@)) == Some(unit_views(v@))
                && tables_fault(TableKind::Unit, entries(t@), key@) is None,
            Err(e) => tables_fault(TableKind::Unit, entries(t@), key@) is Some && says(
                e,
                tables_fault(TableKind::Unit, entries(t@), key@)->0,
            ),
        },
{
    let l = match lookup(t, key) {
        None => {
            let none: Vec<ManagedUnit> = Vec::new();
            proof {
                let ts = Seq::<Seq<Entry>>::empty();
                assert(decode_units(Some(ts))->0 =~= unit_views(none@));
            }
            return Ok(none);
        },
        Some(Toml::List(l)) => l,
        Some(_) => return Err(wrong_value(key)),
    };
    let ghost lv = Toml::List(*l)@->List_0;
    let mut out: Vec<ManagedUnit> = Vec::new();
    let mut i: usize = 0;
    proof {
        lemma_list(*l);
        assert(lv.skip(0) =~= lv);
    }
    while i < l.len()
        invariant
            i <= l.len(),
            lv == Seq::new(l@.len(), |i: int| l@[i]@),
            value_of(entries(t@), key@) == Some(TomlView::List(lv)),
            list_fault(TableKind::Unit, lv, key@) == list_fault(
                TableKind::Unit,
                lv.skip(i as int),
                key@,
            ),
            out@.len() == i,
            forall|j: int|
                0 <= j < i ==> table_in(TableKind::Unit, #[trigger] lv[j]) is Some && decode_unit(
                    table_in(TableKind::Unit, lv[j])->0,
                ) == Some(out@[j]@),
        decreases l.len() - i,
    {
        proof {
            assert(lv.skip(i as int)[0] == l@[i as int]@);
            assert(lv.skip(i as int).drop_first() =~= lv.skip(i + 1));
        }
        match &l[i] {
            Toml::Table(u) => {
                proof {
                    lemma_table(*u);
                    assert(table_in(TableKind::Unit, lv[i as int]) == Some(entries(u@)));
                }
                match read_unit(u) {
                    Ok(v) => out.push(v),
                    Err(e) => return Err(e),
                }
            },
            Toml::List(p) => {
                let u = place_unit(p);
                proof {
                    assert(table_in(TableKind::Unit, lv[i as int]) == Some(entries(u@)));
                }
                match read_unit(&u) {
                    Ok(v) => out.push(v),
                    Err(e) => return Err(e),
                }
            },
            _ => {
                proof {
                    assert(table_in(TableKind::Unit, lv[i as int]) is None);
                }
                return Err(wrong_value(key));
            },
        }
        i = i + 1;
    }
    proof {
        let ts = list_tables(TableKind::Unit, lv)->0;
        assert(list_tables(TableKind::Unit, lv) is Some);
        assert forall|j: int| 0 <= j < ts.len() implies decode_unit(#[trigger] ts[j]) == Some(
            out@[j]@,
        ) by {
            assert(table_in(TableKind::Unit, lv[j]) is Some);
        }
        assert(decode_units(Some(ts))->0 =~= unit_views(out@));
    }
    Ok(out)
}

/// The rule that a table describes.
pub open spec fn decode_pattern(e: Seq<Entry>) -> Option<PatternView> {
    if pattern_fault(e) is None {
        Some(
            PatternView {
                name: text_at(e, "name"@)->0,
                match_substr: text_at(e, "match"@)->0,
                exclude: texts_or(e, "exclude"@, Seq::empty())->0,
            },
        )
    } else {
        None
    }
}

fn read_pattern(t: &Vec<(String, Toml)>) -> (r: Result<GamePattern, ConfigError>)
    ensures
        match r {
            Ok(p) => decode_pattern(entries(t@)) == Some(p@),
            Err(e) => pattern_fault(entries(t@)) is Some && says(e, pattern_fault(entries(t@))->0),
        },
{
    match reject_unknown(TableKind::Pattern, t) {
        Ok(_) => {},
        Err(e) => return Err(e),
    }
    let name = match read_required(t, "name") {
        Ok(v) => v,
        Err(e) => return Err(e),
    };
    let match_substr = match read_required(t, "match") {
        Ok(v) => v,
        Err(e) => return Err(e),
    };
    let none: Vec<String> = Vec::new();
    proof {
        assert(texts(none@) =~= Seq::empty());
    }
    let exclude = match read_text_list(t, "exclude", none) {
        Ok(v) => v,
        Err(e) => return Err(e),
    };
    Ok(GamePattern { name, match_substr, exclude })
}

/// The rules that a list of tables describes.
pub open spec fn decode_patterns(tables: Option<Seq<Seq<Entry>>>) -> Option<Seq<PatternView>> {
    match tables {
        Some(ts) => if forall|i: int|
            0 <= i < ts.len() ==> decode_pattern(#[trigger] ts[i]) is Some {
            Some(Seq::new(ts.len(), |i: int| decode_pattern(ts[i])->0))
        } else {
            None
        },
        None => None,
    }
}

fn read_patterns(t: &Vec<(String, Toml)>, key: &str) -> (r: Result<Vec<GamePattern>, ConfigError>)
    ensures
        match r {
            Ok(v) => decode_patterns(tables_at(TableKind::Pattern, entries(t@), key@)) == Some(pattern_views(v@))
                && tables_fault(TableKind::Pattern, entries(t@), key@) is None,
            Err(e) => tables_fault(TableKind::Pattern, entries(t@), key@) is Some && says(
                e,
                tables_fault(TableKind::Pattern, entries(t@), key@)->0,
            ),
        },
{
    let l = match lookup(t, key) {
        None => {
            let none: Vec<GamePattern> = Vec::new();
            proof {
                let ts = Seq::<Seq<Entry>>::empty();
                assert(decode_patterns(Some(ts))->0 =~= pattern_views(none@));
            }
            return Ok(none);
        },
        Some(Toml::List(l)) => l,
        Some(_) => return Err(wrong_value(key)),
    };
    let ghost lv = Toml::List(*l)@->List_0;
    let mut out: Vec<GamePattern> = Vec::new();
    let mut i: usize = 0;
    proof {
        lemma_list(*l);
        assert(lv.skip(0) =~= lv);
    }
    while i < l.len()
        invariant
            i <= l.len(),
            lv == Seq::new(l@.len(), |i: int| l@[i]@),
            value_of(entries(t@), key@) == Some(TomlView::List(lv)),
            list_fault(TableKind::Pattern, lv, key@) == list_fault(
                TableKind::Pattern,
                lv.skip(i as int),
                key@,
            ),
            out@.len() == i,
            forall|j: int|
                0 <= j < i ==> table_in(TableKind::Pattern, #[trigger] lv[j]) is Some && decode_pattern(
                    table_in(TableKind::Pattern, lv[j])->0,
                ) == Some(out@[j]@),
        decreases l.len() - i,
    {
        proof {
            assert(lv.skip(i as int)[0] == l@[i as int]@);
            assert(lv.skip(i as int).drop_first() =~= lv.skip(i + 1));
        }
        match &l[i] {
            Toml::Table(u) => {
                proof {
                    lemma_table(*u);
                    assert(table_in(TableKind::Pattern, lv[i as int]) == Some(entries(u@)));
                }
                match read_pattern(u) {
                    Ok(v) => out.push(v),
                    Err(e) => return Err(e),
                }
            },
            Toml::List(p) => {
                let u = place_pattern(p);
                proof {
                    assert(table_in(TableKind::Pattern, lv[i as int]) == Some(entries(u@)));
                }
                match read_pattern(&u) {
                    Ok(v) => out.push(v),
                    Err(e) => return Err(e),
                }
            },
            _ => {
                proof {
                    assert(table_in(TableKind::Pattern, lv[i as int]) is None);
                }
                return Err(wrong_value(key));
            },
        }
        i = i + 1;
    }
    proof {
        let ts = list_tables(TableKind::Pattern, lv)->0;
        assert(list_tables(TableKind::Pattern, lv) is Some);
        assert forall|j: int| 0 <= j < ts.len() implies decode_pattern(#[trigger] ts[j]) == Some(
            out@[j]@,
        ) by {
            assert(table_in(TableKind::Pattern, lv[j]) is Some);
        }
        assert(decode_patterns(Some(ts))->0 =~= pattern_views(out@));
    }
    Ok(out)
}

/// What is wrong with a document: a key that the schema does not have; else what is
/// wrong with the first key whose value is none that it can have.
pub open spec fn config_fault(e: Seq<Entry>) -> Option<Seq<char>> {
    let d = default_config();
    match unknown_key(TableKind::Root, e) {
        Some(k) => Some(unknown_key_text(k)),
        None => if bool_or(e, "enabled"@, d.enabled) is None {
            Some(wrong_value_text("enabled"@))
        } else if uint_or(e, "port"@, d.port as u64, 65535) is None {
            Some(wrong_value_text("port"@))
        } else if addr_or(e, "bind"@, d.bind) is None {
            Some(wrong_value_text("bind"@))
        } else if text_or(e, "ollama_unit"@, d.ollama_unit) is None {
            Some(wrong_value_text("ollama_unit"@))
        } else if bool_or(e, "eager_ollama"@, d.eager_ollama) is None {
            Some(wrong_value_text("eager_ollama"@))
        } else if tables_fault(TableKind::Unit, e, "managed_units"@) is Some {
            tables_fault(TableKind::Unit, e, "managed_units"@)
        } else if uint_or(e, "eviction_timeout_s"@, d.eviction_timeout_s, u64::MAX) is None {
            Some(wrong_value_text("eviction_timeout_s"@))
        } else if uint_or(e, "vram_free_threshold_mb"@, d.vram_free_threshold_mb, u64::MAX) is None {
            Some(wrong_value_text("vram_free_threshold_mb"@))
        } else if uint_or(e, "reconcile_interval_s"@, d.reconcile_interval_s, u64::MAX) is None {
            Some(wrong_value_text("reconcile_interval_s"@))
        } else if bool_or(e, "detect_steam"@, d.detect_steam) is None {
            Some(wrong_value_text("detect_steam"@))
        } else if tables_fault(TableKind::Pattern, e, "game_patterns"@) is Some {
            tables_fault(TableKind::Pattern, e, "game_patterns"@)
        } else if bool_or(e, "vram_heuristic"@, d.vram_heuristic) is None {
            Some(wrong_value_text("vram_heuristic"@))
        } else if uint_or(e, "vram_game_threshold_mb"@, d.vram_game_threshold_mb, u64::MAX) is None {
            Some(wrong_value_text("vram_game_threshold_mb"@))
        } else if texts_or(e, "gpu_allowlist"@, d.gpu_allowlist) is None {
            Some(wrong_value_text("gpu_allowlist"@))
        } else if bool_or(e, "presence_detection"@, d.presence_detection) is None {
            Some(wrong_value_text("presence_detection"@))
        } else if uint_or(e, "presence_idle_threshold_s"@, d.presence_idle_threshold_s, u64::MAX) is None {
            Some(wrong_value_text("presence_idle_threshold_s"@))
        } else if backend_or_auto(e, "gpu_backend"@) is None {
            Some(wrong_value_text("gpu_backend"@))
        } else if text_or(e, "socket_path"@, d.socket_path) is None {
            Some(wrong_value_text("socket_path"@))
        } else if uint_or(e, "game_priority"@, d.game_priority as u64, 255) is None {
            Some(wrong_value_text("game_priority"@))
        } else if uint_or(e, "yield_timeout_s"@, d.yield_timeout_s, u64::MAX) is None {
            Some(wrong_value_text("yield_timeout_s"@))
        } else {
            None
        },
    }
}

/// The configuration that a document describes on a host with unix sockets.
pub open spec fn decode_config(e: Seq<Entry>) -> Option<ConfigView> {
    decode_config_on(Platform::Unix, e)
}

/// The configuration that a document describes: every key that is known and has
/// a value of its type, with the default for each key that is absent.
pub open spec fn decode_config_on(platform: Platform, e: Seq<Entry>) -> Option<ConfigView> {
    let d = default_config_on(platform);
    let managed = decode_units(tables_at(TableKind::Unit, e, "managed_units"@));
    let patterns = decode_patterns(tables_at(TableKind::Pattern, e, "game_patterns"@));
    if config_fault(e) is None {
        Some(
            ConfigView {
                enabled: bool_or(e, "enabled"@, d.enabled)->0,
                port: uint_or(e, "port"@, d.port as u64, 65535)->0 as u16,
                bind: addr_or(e, "bind"@, d.bind)->0,
                ollama_unit: text_or(e, "ollama_unit"@, d.ollama_unit)->0,
                eager_ollama: bool_or(e, "eager_ollama"@, d.eager_ollama)->0,
                managed_units: managed->0,
                units: units_in_force(
                    text_or(e, "ollama_unit"@, d.ollama_unit)->0,
                    bool_or(e, "eager_ollama"@, d.eager_ollama)->0,
                    managed->0,
                ),
                eviction_timeout_s: uint_or(
                    e,
                    "eviction_timeout_s"@,
                    d.eviction_timeout_s,
                    u64::MAX,
                )->0,
                vram_free_threshold_mb: uint_or(
                    e,
                    "vram_free_threshold_mb"@,
                    d.vram_free_threshold_mb,
                    u64::MAX,
                )->0,
                reconcile_interval_s: uint_or(
                    e,
                    "reconcile_interval_s"@,
                    d.reconcile_interval_s,
                    u64::MAX,
                )->0,
                detect_steam: bool_or(e, "detect_steam"@, d.detect_steam)->0,
                game_patterns: patterns->0,
                vram_heuristic: bool_or(e, "vram_heuristic"@, d.vram_heuristic)->0,
                vram_game_threshold_mb: uint_or(
                    e,
                    "vram_game_threshold_mb"@,
                    d.vram_game_threshold_mb,
                    u64::MAX,
                )->0,
                gpu_allowlist: texts_or(e, "gpu_allowlist"@, d.gpu_allowlist)->0,
                presence_detection: bool_or(e, "presence_detection"@, d.presence_detection)->0,
                presence_idle_threshold_s: uint_or(
                    e,
                    "presence_idle_threshold_s"@,
                    d.presence_idle_threshold_s,
                    u64::MAX,
                )->0,
                gpu_backend: backend_or_auto(e, "gpu_backend"@)->0,
                socket_path: text_or(e, "socket_path"@, d.socket_path)->0,
                game_priority: uint_or(e, "game_priority"@, d.game_priority as u64, 255)->0 as u8,
                yield_timeout_s: uint_or(e, "yield_timeout_s"@, d.yield_timeout_s, u64::MAX)->0,
            },
        )
    } else {
        None
    }
}

fn stock_allowlist() -> (r: Vec<String>)
    ensures
        texts(r@) == default_allowlist(),
{
    let mut v: Vec<String> = Vec::new();
    v.push("ollama".to_owned());
    v.push("kwin_wayland".to_owned());
    v.push("plasmashell".to_owned());
    v.push("Xwayland".to_owned());
    proof {
        assert(texts(v@) =~= default_allowlist());
    }
    v
}

/// The units in force.
fn synthesize_units(ollama_unit: &str, eager_ollama: bool, managed_units: &Vec<ManagedUnit>) -> (r:
    Vec<ManagedUnit>)
    ensures
        unit_views(r@) == units_in_force(ollama_unit@, eager_ollama, unit_views(managed_units@)),
{
    let mut out: Vec<ManagedUnit> = Vec::new();
    if managed_units.len() == 0 {
        out.push(
            ManagedUnit {
                unit: ollama_unit.to_owned(),
                eager_restart: eager_ollama,
                vram_match: Some("ollama".to_owned()),
                kind: Some("ollama".to_owned()),
                introspect_cmd: None,
                stop_cmd: None,
                start_cmd: None,
                is_active_cmd: None,
                kill_cmd: None,
                priority: DEFAULT_UNIT_PRIORITY,
                busy_cmd: None,
                yield_cmd: None,
                resume_cmd: None,
                yield_timeout_s: None,
            },
        );
        proof {
            assert(unit_views(out@) =~= seq![legacy_unit(ollama_unit@, eager_ollama)]);
        }
        return out;
    }
    let mut i: usize = 0;
    while i < managed_units.len()
        invariant
            i <= managed_units.len(),
            out@.len() == i,
            forall|j: int| 0 <= j < i ==> (#[trigger] out@[j])@ == managed_units@[j]@,
        decreases managed_units.len() - i,
    {
        out.push(managed_units[i].copy());
        i = i + 1;
    }
    proof {
        assert(unit_views(out@) =~= unit_views(managed_units@));
    }
    out
}

/// Every interface.
fn default_bind() -> (r: IpAddr)
    ensures
        r@ == AddrView::V4(seq![0, 0, 0, 0]),
{
    let r = IpAddr::V4([0, 0, 0, 0]);
    proof {
        assert(r@->V4_0 =~= seq![0, 0, 0, 0]);
    }
    r
}

impl Config {
    /// The managed units in force.
    pub fn resolved_units(&self) -> (r: &[ManagedUnit])
        ensures
            r@ == self.units@,
    {
        self.units.as_slice()
    }

    /// The configuration that an empty document gives.
    pub fn stock(platform: Platform) -> (r: Config)
        ensures
            r@ == default_config_on(platform),
    {
        let managed: Vec<ManagedUnit> = Vec::new();
        let patterns: Vec<GamePattern> = Vec::new();
        let units = synthesize_units("ollama.service", true, &managed);
        proof {
            assert(unit_views(managed@) =~= Seq::empty());
            assert(pattern_views(patterns@) =~= Seq::empty());
        }
        Config {
            enabled: true,
            port: 48750,
            bind: default_bind(),
            ollama_unit: "ollama.service".to_owned(),
            eager_ollama: true,
            managed_units: managed,
            units,
            eviction_timeout_s: 5,
            vram_free_threshold_mb: 2000,
            reconcile_interval_s: 30,
            detect_steam: true,
            game_patterns: patterns,
            vram_heuristic: false,
            vram_game_threshold_mb: 4000,
            gpu_allowlist: stock_allowlist(),
            presence_detection: true,
            presence_idle_threshold_s: 600,
            gpu_backend: GpuBackendKind::Auto,
            socket_path: default_socket_path(platform).to_owned(),
            game_priority: DEFAULT_GAME_PRIORITY,
            yield_timeout_s: 3,
        }
    }

    /// The configuration that a document describes.
    pub fn from_document(t: &Vec<(String, Toml)>, platform: Platform) -> (r: Result<
        Config,
        ConfigError,
    >)
        ensures
            match r {
                Ok(c) => decode_config_on(platform, entries(t@)) == Some(c@),
                Err(e) => config_fault(entries(t@)) is Some && says(
                    e,
                    config_fault(entries(t@))->0,
                ),
            },
    {
        match reject_unknown(TableKind::Root, t) {
            Ok(_) => {},
            Err(e) => return Err(e),
        }
        let enabled: bool = match read_bool(t, "enabled", true) {
            Ok(v) => v,
            Err(e) => return Err(e),
        };
        let port: u64 = match read_uint(t, "port", 48750, 65535) {
            Ok(v) => v,
            Err(e) => return Err(e),
        };
        let bind = match read_addr(t, "bind", default_bind()) {
            Ok(v) => v,
            Err(e) => return Err(e),
        };
        let ollama_unit = match read_text(t, "ollama_unit", "ollama.service") {
            Ok(v) => v,
            Err(e) => return Err(e),
        };
        let eager_ollama: bool = match read_bool(t, "eager_ollama", true) {
            Ok(v) => v,
            Err(e) => return Err(e),
        };
        let managed_units = match read_units(t, "managed_units") {
            Ok(v) => v,
            Err(e) => return Err(e),
        };
        let eviction_timeout_s: u64 = match read_uint(t, "eviction_timeout_s", 5, u64::MAX) {
            Ok(v) => v,
            Err(e) => return Err(e),
        };
        let vram_free_threshold_mb: u64 = match read_uint(
            t,
            "vram_free_threshold_mb",
            2000,
            u64::MAX,
        ) {
            Ok(v) => v,
            Err(e) => return Err(e),
        };
        let reconcile_interval_s: u64 = match read_uint(t, "reconcile_interval_s", 30, u64::MAX) {
            Ok(v) => v,
            Err(e) => return Err(e),
        };
        let detect_steam: bool = match read_bool(t, "detect_steam", true) {
            Ok(v) => v,
            Err(e) => return Err(e),
        };
        let game_patterns = match read_patterns(t, "game_patterns") {
            Ok(v) => v,
            Err(e) => return Err(e),
        };
        let vram_heuristic: bool = match read_bool(t, "vram_heuristic", false) {
            Ok(v) => v,
            Err(e) => return Err(e),
        };
        let vram_game_threshold_mb: u64 = match read_uint(
            t,
            "vram_game_threshold_mb",
            4000,
            u64::MAX,
        ) {
            Ok(v) => v,
            Err(e) => return Err(e),
        };
        let gpu_allowlist = match read_text_list(t, "gpu_allowlist", stock_allowlist()) {
            Ok(v) => v,
            Err(e) => return Err(e),
        };
        let presence_detection: bool = match read_bool(t, "presence_detection", true) {
            Ok(v) => v,
            Err(e) => return Err(e),
        };
        let presence_idle_threshold_s: u64 = match read_uint(
            t,
            "presence_idle_threshold_s",
            600,
            u64::MAX,
        ) {
            Ok(v) => v,
            Err(e) => return Err(e),
        };
        let gpu_backend = match read_backend(t, "gpu_backend") {
            Ok(v) => v,
            Err(e) => return Err(e),
        };
        let socket_path = match read_text(t, "socket_path", default_socket_path(platform)) {
            Ok(v) => v,
            Err(e) => return Err(e),
        };
        let game_priority: u64 = match read_uint(
            t,
            "game_priority",
            DEFAULT_GAME_PRIORITY as u64,
            255,
        ) {
            Ok(v) => v,
            Err(e) => return Err(e),
        };
        let yield_timeout_s: u64 = match read_uint(t, "yield_timeout_s", 3, u64::MAX) {
            Ok(v) => v,
            Err(e) => return Err(e),
        };
        let units = synthesize_units(ollama_unit.as_str(), eager_ollama, &managed_units);
        Ok(
            Config {
                enabled,
                port: port as u16,
                bind,
                ollama_unit,
                eager_ollama,
                managed_units,
                units,
                eviction_timeout_s,
                vram_free_threshold_mb,
                reconcile_interval_s,
                detect_steam,
                game_patterns,
                vram_heuristic,
                vram_game_threshold_mb,
                gpu_allowlist,
                presence_detection,
                presence_idle_threshold_s,
                gpu_backend,
                socket_path,
                game_priority: game_priority as u8,
                yield_timeout_s,
            },
        )
    }

    /// The configuration that a TOML text describes on a host with unix sockets.
    pub fn from_toml(s: &str) -> (r: Result<Config, ConfigError>)
        ensures
            match r {
                Ok(c) => toml_document(s@) is Ok && decode_config(toml_document(s@)->Ok_0) == Some(
                    c@,
                ),
                Err(e) => match toml_document(s@) {
                    Ok(t) => config_fault(t) is Some && says(e, config_fault(t)->0),
                    Err(m) => says(e, m),
                },
            },
    {
        Config::from_toml_on(s, Platform::Unix)
    }

    /// The configuration that a TOML text describes.
    pub fn from_toml_on(s: &str, platform: Platform) -> (r: Result<Config, ConfigError>)
        ensures
            match r {
                Ok(c) => toml_document(s@) is Ok && decode_config_on(
                    platform,
                    toml_document(s@)->Ok_0,
                ) == Some(c@),
                Err(e) => match toml_document(s@) {
                    Ok(t) => config_fault(t) is Some && says(e, config_fault(t)->0),
                    Err(m) => says(e, m),
                },
            },
    {
        match parse_toml(s) {
            Ok(t) => Config::from_document(&t, platform),
            Err(m) => Err(ConfigError::Parse(m)),
        }
    }

    /// The configuration that the file at `path` gives: the defaults where there
    /// is no file.
    pub fn load(path: &str, file: ConfigFile, platform: Platform) -> (r: Result<
        Config,
        ConfigError,
    >)
        ensures
            match file {
                ConfigFile::Missing => r is Ok && r->Ok_0@ == default_config_on(platform),
                ConfigFile::Unreadable(m) => r is Err && r->Err_0 is Io && r->Err_0->path@ == path@
                    && r->Err_0->detail@ == m@,
                ConfigFile::Text(s) => match r {
                    Ok(c) => toml_document(s@) is Ok && decode_config_on(
                        platform,
                        toml_document(s@)->Ok_0,
                    ) == Some(c@),
                    Err(e) => match toml_document(s@) {
                        Ok(t) => config_fault(t) is Some && says(e, config_fault(t)->0),
                        Err(m) => says(e, m),
                    },
                },
            },
    {
        match file {
            ConfigFile::Missing => Ok(Config::stock(platform)),
            ConfigFile::Unreadable(m) => Err(ConfigError::Io { path: path.to_owned(), detail: m }),
            ConfigFile::Text(s) => Config::from_toml_on(s.as_str(), platform),
        }
    }
}

impl Default for Config {
    fn default() -> (r: Config)
        ensures
            r@ == default_config(),
    {
        Config::stock(Platform::Unix)
    }
}

// ── laws ───────────────────────────────────────────────────────────────────

/// A document without keys is the default configuration.
pub proof fn empty_document_is_default(platform: Platform)
    ensures
        decode_config_on(platform, Seq::empty()) == Some(default_config_on(platform)),
{
    let e = Seq::<Entry>::empty();
    assert(tables_at(TableKind::Unit, e, "managed_units"@) == Some(Seq::<Seq<Entry>>::empty()));
    assert(decode_units(tables_at(TableKind::Unit, e, "managed_units"@))->0 =~= Seq::empty());
    assert(decode_patterns(tables_at(TableKind::Pattern, e, "game_patterns"@))->0 =~= Seq::empty());
    assert(text_or(e, "gpu_backend"@, "auto"@) == Some("auto"@));
}

/// A document with a key that the schema does not have is never accepted: not at
/// the root, not in a unit, not in a rule.
pub proof fn unknown_key_is_refused(platform: Platform, e: Seq<Entry>, i: int)
    requires
        0 <= i < e.len(),
    ensures
        !known_key(TableKind::Root, e[i].key) ==> decode_config_on(platform, e) is None,
        !known_key(TableKind::Unit, e[i].key) ==> decode_unit(e) is None,
        !known_key(TableKind::Pattern, e[i].key) ==> decode_pattern(e) is None,
{
    lemma_unknown_found(TableKind::Root, e, i);
    lemma_unknown_found(TableKind::Unit, e, i);
    lemma_unknown_found(TableKind::Pattern, e, i);
}

proof fn lemma_unknown_found(kind: TableKind, e: Seq<Entry>, i: int)
    requires
        0 <= i < e.len(),
    ensures
        !known_key(kind, e[i].key) ==> unknown_key(kind, e) is Some,
    decreases e.len(),
{
    if i > 0 {
        lemma_unknown_found(kind, e.drop_first(), i - 1);
    }
}

/// The error about a key that the schema does not have names one: the first such.
pub proof fn unknown_key_is_named(e: Seq<Entry>, i: int)
    requires
        0 <= i < e.len(),
        !known_key(TableKind::Root, e[i].key),
        forall|j: int| 0 <= j < i ==> known_key(TableKind::Root, (#[trigger] e[j]).key),
    ensures
        config_fault(e) == Some(unknown_key_text(e[i].key)),
{
    lemma_unknown_first(TableKind::Root, e, i);
}

proof fn lemma_unknown_first(kind: TableKind, e: Seq<Entry>, i: int)
    requires
        0 <= i < e.len(),
        !known_key(kind, e[i].key),
        forall|j: int| 0 <= j < i ==> known_key(kind, (#[trigger] e[j]).key),
    ensures
        unknown_key(kind, e) == Some(e[i].key),
    decreases e.len(),
{
    if i > 0 {
        let t = e.drop_first();
        assert forall|j: int| 0 <= j < i - 1 implies known_key(kind, (#[trigger] t[j]).key) by {
            assert(t[j] == e[j + 1]);
        }
        lemma_unknown_first(kind, t, i - 1);
    }
}

/// A unit or a rule with something wrong makes the whole document wrong.
pub proof fn fault_in_a_table_is_a_fault(platform: Platform, e: Seq<Entry>, l: Seq<TomlView>, i: int)
    requires
        0 <= i < l.len(),
    ensures
        value_of(e, "managed_units"@) == Some(TomlView::List(l)) && (match table_in(
            TableKind::Unit,
            l[i],
        ) {
            Some(t) => unit_fault(t) is Some,
            None => true,
        }) ==> decode_config_on(platform, e) is None,
        value_of(e, "game_patterns"@) == Some(TomlView::List(l)) && (match table_in(
            TableKind::Pattern,
            l[i],
        ) {
            Some(t) => pattern_fault(t) is Some,
            None => true,
        }) ==> decode_config_on(platform, e) is None,
{
    lemma_list_fault(TableKind::Unit, l, "managed_units"@, i);
    lemma_list_fault(TableKind::Pattern, l, "game_patterns"@, i);
}

proof fn lemma_list_fault(kind: TableKind, l: Seq<TomlView>, key: Seq<char>, i: int)
    requires
        0 <= i < l.len(),
    ensures
        (match table_in(kind, l[i]) {
            Some(t) => table_fault(kind, t) is Some,
            None => true,
        }) ==> list_fault(kind, l, key) is Some,
    decreases l.len(),
{
    if i > 0 {
        assert(l.drop_first()[i - 1] == l[i]);
        lemma_list_fault(kind, l.drop_first(), key, i - 1);
    }
}

/// Only where no control socket is named does the platform count.
pub proof fn platform_decides_the_socket_only(e: Seq<Entry>)
    ensures
        decode_config_on(Platform::Windows, e) == (match decode_config(e) {
            Some(c) => Some(
                ConfigView {
                    socket_path: match value_of(e, "socket_path"@) {
                        Some(_) => c.socket_path,
                        None => ""@,
                    },
                    ..c
                },
            ),
            None => None,
        }),
{
}

/// Every value of a list stands for a key that the table has.
pub proof fn places_are_keys(kind: TableKind, i: int)
    requires
        0 <= i < key_order(kind).len(),
    ensures
        known_key(kind, key_order(kind)[i]),
{
}

/// A managed unit that is listed is in force, in the order of the list, and the
/// two older keys then count for nothing.
pub proof fn listed_units_take_precedence(platform: Platform, e: Seq<Entry>)
    requires
        decode_config_on(platform, e) is Some,
        decode_config_on(platform, e)->0.managed_units.len() > 0,
    ensures
        decode_config_on(platform, e)->0.units == decode_config_on(platform, e)->0.managed_units,
{
}

/// There is always a unit in force.
pub proof fn some_unit_is_in_force(platform: Platform, e: Seq<Entry>)
    requires
        decode_config_on(platform, e) is Some,
    ensures
        decode_config_on(platform, e)->0.units.len() > 0,
{
}

/// Every key of a document that is a configuration sets what it names, to the value that
/// stands under it; a key that is absent leaves the default; and a value of another type
/// or out of range makes it no configuration.
pub proof fn every_key_sets_its_value(platform: Platform, e: Seq<Entry>)
    requires
        decode_config_on(platform, e) is Some,
    ensures
        ({
            let c = decode_config_on(platform, e)->0;
            &&& match value_of(e, "enabled"@) {
                Some(TomlView::Bool(b)) => c.enabled == b,
                None => c.enabled == true,
                _ => false,
            }
            &&& match value_of(e, "port"@) {
                Some(TomlView::Int(n)) => c.port == n && 0 <= n <= 65535,
                None => c.port == 48750,
                _ => false,
            }
            &&& match value_of(e, "bind"@) {
                Some(TomlView::Text(s)) => address(s) == Some(c.bind),
                None => c.bind == AddrView::V4(seq![0, 0, 0, 0]),
                _ => false,
            }
            &&& match value_of(e, "ollama_unit"@) {
                Some(TomlView::Text(s)) => c.ollama_unit == s,
                None => c.ollama_unit == "ollama.service"@,
                _ => false,
            }
            &&& match value_of(e, "eager_ollama"@) {
                Some(TomlView::Bool(b)) => c.eager_ollama == b,
                None => c.eager_ollama == true,
                _ => false,
            }
            &&& match value_of(e, "eviction_timeout_s"@) {
                Some(TomlView::Int(n)) => c.eviction_timeout_s == n && 0 <= n <= u64::MAX,
                None => c.eviction_timeout_s == 5,
                _ => false,
            }
            &&& match value_of(e, "vram_free_threshold_mb"@) {
                Some(TomlView::Int(n)) => c.vram_free_threshold_mb == n && 0 <= n <= u64::MAX,
                None => c.vram_free_threshold_mb == 2000,
                _ => false,
            }
            &&& match value_of(e, "reconcile_interval_s"@) {
                Some(TomlView::Int(n)) => c.reconcile_interval_s == n && 0 <= n <= u64::MAX,
                None => c.reconcile_interval_s == 30,
                _ => false,
            }
            &&& match value_of(e, "detect_steam"@) {
                Some(TomlView::Bool(b)) => c.detect_steam == b,
                None => c.detect_steam == true,
                _ => false,
            }
            &&& match value_of(e, "vram_heuristic"@) {
                Some(TomlView::Bool(b)) => c.vram_heuristic == b,
                None => c.vram_heuristic == false,
                _ => false,
            }
            &&& match value_of(e, "vram_game_threshold_mb"@) {
                Some(TomlView::Int(n)) => c.vram_game_threshold_mb == n && 0 <= n <= u64::MAX,
                None => c.vram_game_threshold_mb == 4000,
                _ => false,
            }
            &&& match value_of(e, "gpu_allowlist"@) {
                Some(TomlView::List(l)) => c.gpu_allowlist.len() == l.len() && forall|i: int|
                    0 <= i < l.len() ==> (#[trigger] l[i]) == TomlView::Text(c.gpu_allowlist[i]),
                None => c.gpu_allowlist == default_allowlist(),
                _ => false,
            }
            &&& match value_of(e, "presence_detection"@) {
                Some(TomlView::Bool(b)) => c.presence_detection == b,
                None => c.presence_detection == true,
                _ => false,
            }
            &&& match value_of(e, "presence_idle_threshold_s"@) {
                Some(TomlView::Int(n)) => c.presence_idle_threshold_s == n && 0 <= n <= u64::MAX,
                None => c.presence_idle_threshold_s == 600,
                _ => false,
            }
            &&& match value_of(e, "socket_path"@) {
                Some(TomlView::Text(s)) => c.socket_path == s,
                None => c.socket_path == default_socket_of(platform),
                _ => false,
            }
            &&& match value_of(e, "game_priority"@) {
                Some(TomlView::Int(n)) => c.game_priority == n && 0 <= n <= 255,
                None => c.game_priority == 100,
                _ => false,
            }
            &&& match value_of(e, "yield_timeout_s"@) {
                Some(TomlView::Int(n)) => c.yield_timeout_s == n && 0 <= n <= u64::MAX,
                None => c.yield_timeout_s == 3,
                _ => false,
            }
        }),
{
    let c = decode_config_on(platform, e)->0;
    match value_of(e, "gpu_allowlist"@) {
        Some(TomlView::List(l)) => lemma_list_texts(l, c.gpu_allowlist),
        _ => {},
    }
}

proof fn lemma_list_texts(l: Seq<TomlView>, t: Seq<Seq<char>>)
    requires
        list_texts(l) == Some(t),
    ensures
        t.len() == l.len(),
        forall|i: int| 0 <= i < l.len() ==> (#[trigger] l[i]) == TomlView::Text(t[i]),
{
    assert forall|i: int| 0 <= i < l.len() implies (#[trigger] l[i]) == TomlView::Text(t[i]) by {
        assert(l[i] is Text);
    }
}

/// Every key of a table that is a unit sets what it names, to the value that stands under
/// it; a key that is absent leaves the default. A command is the words of a text, or the
/// texts of a list as they are.
pub proof fn every_unit_key_sets_its_value(e: Seq<Entry>)
    requires
        decode_unit(e) is Some,
    ensures
        ({
            let u = decode_unit(e)->0;
            &&& value_of(e, "unit"@) == Some(TomlView::Text(u.unit))
            &&& match value_of(e, "eager_restart"@) {
                Some(TomlView::Bool(b)) => u.eager_restart == b,
                None => u.eager_restart,
                _ => false,
            }
            &&& match value_of(e, "vram_match"@) {
                Some(TomlView::Text(s)) => u.vram_match == Some(s),
                None => u.vram_match is None,
                _ => false,
            }
            &&& match value_of(e, "kind"@) {
                Some(TomlView::Text(s)) => u.kind == Some(s),
                None => u.kind is None,
                _ => false,
            }
            &&& match value_of(e, "introspect_cmd"@) {
                Some(TomlView::Text(s)) => u.introspect_cmd == Some(s),
                None => u.introspect_cmd is None,
                _ => false,
            }
            &&& match value_of(e, "stop_cmd"@) {
                Some(TomlView::Text(s)) => u.stop_cmd == Some(words_of(s)),
                Some(TomlView::List(l)) => u.stop_cmd is Some && u.stop_cmd->0.len() == l.len() && forall|i: int|
                    0 <= i < l.len() ==> (#[trigger] l[i]) == TomlView::Text(u.stop_cmd->0[i]),
                None => u.stop_cmd is None,
                _ => false,
            }
            &&& match value_of(e, "start_cmd"@) {
                Some(TomlView::Text(s)) => u.start_cmd == Some(words_of(s)),
                Some(TomlView::List(l)) => u.start_cmd is Some && u.start_cmd->0.len() == l.len() && forall|i: int|
                    0 <= i < l.len() ==> (#[trigger] l[i]) == TomlView::Text(u.start_cmd->0[i]),
                None => u.start_cmd is None,
                _ => false,
            }
            &&& match value_of(e, "is_active_cmd"@) {
                Some(TomlView::Text(s)) => u.is_active_cmd == Some(words_of(s)),
                Some(TomlView::List(l)) => u.is_active_cmd is Some && u.is_active_cmd->0.len() == l.len() && forall|i: int|
                    0 <= i < l.len() ==> (#[trigger] l[i]) == TomlView::Text(u.is_active_cmd->0[i]),
                None => u.is_active_cmd is None,
                _ => false,
            }
            &&& match value_of(e, "kill_cmd"@) {
                Some(TomlView::Text(s)) => u.kill_cmd == Some(words_of(s)),
                Some(TomlView::List(l)) => u.kill_cmd is Some && u.kill_cmd->0.len() == l.len() && forall|i: int|
                    0 <= i < l.len() ==> (#[trigger] l[i]) == TomlView::Text(u.kill_cmd->0[i]),
                None => u.kill_cmd is None,
                _ => false,
            }
            &&& match value_of(e, "priority"@) {
                Some(TomlView::Int(n)) => u.priority == n && 0 <= n <= 255,
                None => u.priority == 50,
                _ => false,
            }
            &&& match value_of(e, "busy_cmd"@) {
                Some(TomlView::Text(s)) => u.busy_cmd == Some(words_of(s)),
                Some(TomlView::List(l)) => u.busy_cmd is Some && u.busy_cmd->0.len() == l.len() && forall|i: int|
                    0 <= i < l.len() ==> (#[trigger] l[i]) == TomlView::Text(u.busy_cmd->0[i]),
                None => u.busy_cmd is None,
                _ => false,
            }
            &&& match value_of(e, "yield_cmd"@) {
                Some(TomlView::Text(s)) => u.yield_cmd == Some(words_of(s)),
                Some(TomlView::List(l)) => u.yield_cmd is Some && u.yield_cmd->0.len() == l.len() && forall|i: int|
                    0 <= i < l.len() ==> (#[trigger] l[i]) == TomlView::Text(u.yield_cmd->0[i]),
                None => u.yield_cmd is None,
                _ => false,
            }
            &&& match value_of(e, "resume_cmd"@) {
                Some(TomlView::Text(s)) => u.resume_cmd == Some(words_of(s)),
                Some(TomlView::List(l)) => u.resume_cmd is Some && u.resume_cmd->0.len() == l.len() && forall|i: int|
                    0 <= i < l.len() ==> (#[trigger] l[i]) == TomlView::Text(u.resume_cmd->0[i]),
                None => u.resume_cmd is None,
                _ => false,
            }
            &&& match value_of(e, "yield_timeout_s"@) {
                Some(TomlView::Int(n)) => u.yield_timeout_s == Some(n as u64) && 0 <= n <= u64::MAX,
                None => u.yield_timeout_s is None,
                _ => false,
            }
        }),
{
    let u = decode_unit(e)->0;
    match value_of(e, "stop_cmd"@) {
        Some(TomlView::List(l)) => lemma_list_texts(l, u.stop_cmd->0),
        _ => {},
    }
    match value_of(e, "start_cmd"@) {
        Some(TomlView::List(l)) => lemma_list_texts(l, u.start_cmd->0),
        _ => {},
    }
    match value_of(e, "is_active_cmd"@) {
        Some(TomlView::List(l)) => lemma_list_texts(l, u.is_active_cmd->0),
        _ => {},
    }
    match value_of(e, "kill_cmd"@) {
        Some(TomlView::List(l)) => lemma_list_texts(l, u.kill_cmd->0),
        _ => {},
    }
    match value_of(e, "busy_cmd"@) {
        Some(TomlView::List(l)) => lemma_list_texts(l, u.busy_cmd->0),
        _ => {},
    }
    match value_of(e, "yield_cmd"@) {
        Some(TomlView::List(l)) => lemma_list_texts(l, u.yield_cmd->0),
        _ => {},
    }
    match value_of(e, "resume_cmd"@) {
        Some(TomlView::List(l)) => lemma_list_texts(l, u.resume_cmd->0),
        _ => {},
    }
}

/// Every key of a table that is a rule sets what it names.
pub proof fn every_rule_key_sets_its_value(e: Seq<Entry>)
    requires
        decode_pattern(e) is Some,
    ensures
        ({
            let p = decode_pattern(e)->0;
            &&& value_of(e, "name"@) == Some(TomlView::Text(p.name))
            &&& value_of(e, "match"@) == Some(TomlView::Text(p.match_substr))
            &&& match value_of(e, "exclude"@) {
                Some(TomlView::List(l)) => p.exclude.len() == l.len() && forall|i: int|
                    0 <= i < l.len() ==> (#[trigger] l[i]) == TomlView::Text(p.exclude[i]),
                None => p.exclude.len() == 0,
                _ => false,
            }
        }),
{
    match value_of(e, "exclude"@) {
        Some(TomlView::List(l)) => lemma_list_texts(l, decode_pattern(e)->0.exclude),
        _ => {},
    }
}

/// The units and the rules of a configuration are those that its lists describe, one for
/// one and in order. Where no unit is listed, the one that the two older keys name is in
/// force, with models listed as Ollama's are.
pub proof fn lists_give_the_units_and_rules(platform: Platform, e: Seq<Entry>, i: int)
    requires
        decode_config_on(platform, e) is Some,
    ensures
        ({
            let c = decode_config_on(platform, e)->0;
            &&& match value_of(e, "managed_units"@) {
                Some(TomlView::List(l)) => c.managed_units.len() == l.len() && (0 <= i < l.len()
                    ==> table_in(TableKind::Unit, l[i]) is Some && decode_unit(
                    table_in(TableKind::Unit, l[i])->0,
                ) == Some(c.managed_units[i])),
                None => c.managed_units.len() == 0,
                _ => false,
            }
            &&& match value_of(e, "game_patterns"@) {
                Some(TomlView::List(l)) => c.game_patterns.len() == l.len() && (0 <= i < l.len()
                    ==> table_in(TableKind::Pattern, l[i]) is Some && decode_pattern(
                    table_in(TableKind::Pattern, l[i])->0,
                ) == Some(c.game_patterns[i])),
                None => c.game_patterns.len() == 0,
                _ => false,
            }
            &&& c.managed_units.len() == 0 ==> c.units.len() == 1 && c.units[0].unit
                == c.ollama_unit && c.units[0].eager_restart == c.eager_ollama
                && introspection_of(c.units[0]) is Ollama
        }),
{
    match value_of(e, "managed_units"@) {
        Some(TomlView::List(l)) => lemma_faultless_list(TableKind::Unit, l, "managed_units"@),
        _ => {},
    }
    match value_of(e, "game_patterns"@) {
        Some(TomlView::List(l)) => lemma_faultless_list(TableKind::Pattern, l, "game_patterns"@),
        _ => {},
    }
    if let Some(TomlView::List(l)) = value_of(e, "managed_units"@) {
        let ts = list_tables(TableKind::Unit, l)->0;
        assert forall|k: int| 0 <= k < ts.len() implies decode_unit(#[trigger] ts[k]) is Some by {
            assert(table_in(TableKind::Unit, l[k]) == Some(ts[k]));
        }
    }
    if let Some(TomlView::List(l)) = value_of(e, "game_patterns"@) {
        let ts = list_tables(TableKind::Pattern, l)->0;
        assert forall|k: int| 0 <= k < ts.len() implies decode_pattern(#[trigger] ts[k]) is Some by {
            assert(table_in(TableKind::Pattern, l[k]) == Some(ts[k]));
        }
    }
}

proof fn lemma_faultless_list(kind: TableKind, l: Seq<TomlView>, key: Seq<char>)
    requires
        list_fault(kind, l, key) is None,
    ensures
        forall|i: int|
            0 <= i < l.len() ==> table_in(kind, #[trigger] l[i]) is Some && table_fault(
                kind,
                table_in(kind, l[i])->0,
            ) is None,
    decreases l.len(),
{
    if l.len() > 0 {
        let t = l.drop_first();
        lemma_faultless_list(kind, t, key);
        assert forall|i: int| 0 <= i < l.len() implies table_in(kind, #[trigger] l[i]) is Some
            && table_fault(kind, table_in(kind, l[i])->0) is None by {
            if i > 0 {
                assert(t[i - 1] == l[i]);
            }
        }
    }
}

/// How a unit's models are listed: by its own command, where it has one that is not blank
/// and not too long; else as Ollama's, where its kind says so or, without a kind, its name
/// does, in any case; else not at all.
pub proof fn own_listing_comes_first(u: UnitView)
    ensures
        u.introspect_cmd is None && u.kind == Some("ollama"@) ==> introspection_of(u) is Ollama,
        u.introspect_cmd is None && u.kind is Some && u.kind->0 != "ollama"@ ==> introspection_of(u)
            is Unlisted,
        u.introspect_cmd is None && u.kind is None ==> (introspection_of(u) is Ollama <==> occurs(
            lower_text(u.unit),
            "ollama"@,
        )),
        u.introspect_cmd is Some && trimmed(u.introspect_cmd->0).len() == 0 ==> introspection_of(u)
            == introspection_of(UnitView { introspect_cmd: None, ..u }),
        u.introspect_cmd is Some && vstd::utf8::encode_utf8(u.introspect_cmd->0).len() > 1024
            ==> introspection_of(u) == introspection_of(UnitView { introspect_cmd: None, ..u }),
        u.introspect_cmd is Some && trimmed(u.introspect_cmd->0).len() > 0
            && vstd::utf8::encode_utf8(u.introspect_cmd->0).len() <= 1024 ==> introspection_of(u)
            == IntrospectionView::Command(u.introspect_cmd->0),
{
}

/// A list of texts.
pub open spec fn all_texts(v: TomlView) -> bool {
    v is List && forall|i: int| 0 <= i < v->List_0.len() ==> (#[trigger] v->List_0[i]) is Text
}

/// A document whose keys the schema has, each with a value that it can have, is a
/// configuration: nothing else is asked of it.
pub proof fn fitting_document_is_accepted(platform: Platform, e: Seq<Entry>)
    requires
        forall|i: int| 0 <= i < e.len() ==> known_key(TableKind::Root, (#[trigger] e[i]).key),
        value_of(e, "enabled"@) is None || value_of(e, "enabled"@)->0 is Bool,
        value_of(e, "port"@) is None || (value_of(e, "port"@)->0 is Int && 0 <= value_of(
            e,
            "port"@,
        )->0->Int_0 <= 65535),
        value_of(e, "bind"@) is None || (value_of(e, "bind"@)->0 is Text && address(
            value_of(e, "bind"@)->0->Text_0,
        ) is Some),
        value_of(e, "ollama_unit"@) is None || value_of(e, "ollama_unit"@)->0 is Text,
        value_of(e, "eager_ollama"@) is None || value_of(e, "eager_ollama"@)->0 is Bool,
        value_of(e, "managed_units"@) is None || (value_of(e, "managed_units"@)->0 is List && forall|i: int|
            0 <= i < value_of(e, "managed_units"@)->0->List_0.len() ==> table_in(
                TableKind::Unit,
                #[trigger] value_of(e, "managed_units"@)->0->List_0[i],
            ) is Some && table_fault(
                TableKind::Unit,
                table_in(TableKind::Unit, value_of(e, "managed_units"@)->0->List_0[i])->0,
            ) is None),
        value_of(e, "eviction_timeout_s"@) is None || (value_of(e, "eviction_timeout_s"@)->0 is Int && 0 <= value_of(
            e,
            "eviction_timeout_s"@,
        )->0->Int_0 <= u64::MAX),
        value_of(e, "vram_free_threshold_mb"@) is None || (value_of(e, "vram_free_threshold_mb"@)->0 is Int && 0 <= value_of(
            e,
            "vram_free_threshold_mb"@,
        )->0->Int_0 <= u64::MAX),
        value_of(e, "reconcile_interval_s"@) is None || (value_of(e, "reconcile_interval_s"@)->0 is Int && 0 <= value_of(
            e,
            "reconcile_interval_s"@,
        )->0->Int_0 <= u64::MAX),
        value_of(e, "detect_steam"@) is None || value_of(e, "detect_steam"@)->0 is Bool,
        value_of(e, "game_patterns"@) is None || (value_of(e, "game_patterns"@)->0 is List && forall|i: int|
            0 <= i < value_of(e, "game_patterns"@)->0->List_0.len() ==> table_in(
                TableKind::Pattern,
                #[trigger] value_of(e, "game_patterns"@)->0->List_0[i],
            ) is Some && table_fault(
                TableKind::Pattern,
                table_in(TableKind::Pattern, value_of(e, "game_patterns"@)->0->List_0[i])->0,
            ) is None),
        value_of(e, "vram_heuristic"@) is None || value_of(e, "vram_heuristic"@)->0 is Bool,
        value_of(e, "vram_game_threshold_mb"@) is None || (value_of(e, "vram_game_threshold_mb"@)->0 is Int && 0 <= value_of(
            e,
            "vram_game_threshold_mb"@,
        )->0->Int_0 <= u64::MAX),
        value_of(e, "gpu_allowlist"@) is None || all_texts(value_of(e, "gpu_allowlist"@)->0),
        value_of(e, "presence_detection"@) is None || value_of(e, "presence_detection"@)->0 is Bool,
        value_of(e, "presence_idle_threshold_s"@) is None || (value_of(e, "presence_idle_threshold_s"@)->0 is Int && 0 <= value_of(
            e,
            "presence_idle_threshold_s"@,
        )->0->Int_0 <= u64::MAX),
        value_of(e, "gpu_backend"@) is None || (value_of(e, "gpu_backend"@)->0 is Text && (
        value_of(e, "gpu_backend"@)->0->Text_0 == "auto"@ || value_of(
            e,
            "gpu_backend"@,
        )->0->Text_0 == "nvidia"@ || value_of(e, "gpu_backend"@)->0->Text_0 == "amd"@)),
        value_of(e, "socket_path"@) is None || value_of(e, "socket_path"@)->0 is Text,
        value_of(e, "game_priority"@) is None || (value_of(e, "game_priority"@)->0 is Int && 0 <= value_of(
            e,
            "game_priority"@,
        )->0->Int_0 <= 255),
        value_of(e, "yield_timeout_s"@) is None || (value_of(e, "yield_timeout_s"@)->0 is Int && 0 <= value_of(
            e,
            "yield_timeout_s"@,
        )->0->Int_0 <= u64::MAX),
    ensures
        decode_config_on(platform, e) is Some,
{
    lemma_all_known(TableKind::Root, e);
    if value_of(e, "managed_units"@) is Some {
        lemma_no_list_fault(
            TableKind::Unit,
            value_of(e, "managed_units"@)->0->List_0,
            "managed_units"@,
        );
    }
    if value_of(e, "game_patterns"@) is Some {
        lemma_no_list_fault(
            TableKind::Pattern,
            value_of(e, "game_patterns"@)->0->List_0,
            "game_patterns"@,
        );
    }
}

/// A table whose keys a unit has, with the unit's name among them, each with a value that
/// it can have, is a unit.
pub proof fn fitting_table_is_a_unit(e: Seq<Entry>)
    requires
        forall|i: int| 0 <= i < e.len() ==> known_key(TableKind::Unit, (#[trigger] e[i]).key),
        value_of(e, "unit"@) is Some,
        value_of(e, "unit"@)->0 is Text,
        value_of(e, "eager_restart"@) is None || value_of(e, "eager_restart"@)->0 is Bool,
        value_of(e, "vram_match"@) is None || value_of(e, "vram_match"@)->0 is Text,
        value_of(e, "kind"@) is None || value_of(e, "kind"@)->0 is Text,
        value_of(e, "introspect_cmd"@) is None || value_of(e, "introspect_cmd"@)->0 is Text,
        value_of(e, "stop_cmd"@) is None || value_of(e, "stop_cmd"@)->0 is Text || all_texts(
            value_of(e, "stop_cmd"@)->0,
        ),
        value_of(e, "start_cmd"@) is None || value_of(e, "start_cmd"@)->0 is Text || all_texts(
            value_of(e, "start_cmd"@)->0,
        ),
        value_of(e, "is_active_cmd"@) is None || value_of(e, "is_active_cmd"@)->0 is Text || all_texts(
            value_of(e, "is_active_cmd"@)->0,
        ),
        value_of(e, "kill_cmd"@) is None || value_of(e, "kill_cmd"@)->0 is Text || all_texts(
            value_of(e, "kill_cmd"@)->0,
        ),
        value_of(e, "priority"@) is None || (value_of(e, "priority"@)->0 is Int && 0 <= value_of(
            e,
            "priority"@,
        )->0->Int_0 <= 255),
        value_of(e, "busy_cmd"@) is None || value_of(e, "busy_cmd"@)->0 is Text || all_texts(
            value_of(e, "busy_cmd"@)->0,
        ),
        value_of(e, "yield_cmd"@) is None || value_of(e, "yield_cmd"@)->0 is Text || all_texts(
            value_of(e, "yield_cmd"@)->0,
        ),
        value_of(e, "resume_cmd"@) is None || value_of(e, "resume_cmd"@)->0 is Text || all_texts(
            value_of(e, "resume_cmd"@)->0,
        ),
        value_of(e, "yield_timeout_s"@) is None || (value_of(e, "yield_timeout_s"@)->0 is Int && 0 <= value_of(
            e,
            "yield_timeout_s"@,
        )->0->Int_0 <= u64::MAX),
    ensures
        decode_unit(e) is Some,
{
    lemma_all_known(TableKind::Unit, e);
}

/// A table with a name and a text, and at most a list of texts to exclude, is a rule.
pub proof fn fitting_table_is_a_rule(e: Seq<Entry>)
    requires
        forall|i: int| 0 <= i < e.len() ==> known_key(TableKind::Pattern, (#[trigger] e[i]).key),
        value_of(e, "name"@) is Some,
        value_of(e, "name"@)->0 is Text,
        value_of(e, "match"@) is Some,
        value_of(e, "match"@)->0 is Text,
        value_of(e, "exclude"@) is None || all_texts(value_of(e, "exclude"@)->0),
    ensures
        decode_pattern(e) is Some,
{
    lemma_all_known(TableKind::Pattern, e);
}

proof fn lemma_all_known(kind: TableKind, e: Seq<Entry>)
    requires
        forall|i: int| 0 <= i < e.len() ==> known_key(kind, (#[trigger] e[i]).key),
    ensures
        unknown_key(kind, e) is None,
    decreases e.len(),
{
    if e.len() > 0 {
        let t = e.drop_first();
        assert forall|i: int| 0 <= i < t.len() implies known_key(kind, (#[trigger] t[i]).key) by {
            assert(t[i] == e[i + 1]);
        }
        assert(known_key(kind, e[0].key));
        lemma_all_known(kind, t);
    }
}

proof fn lemma_no_list_fault(kind: TableKind, l: Seq<TomlView>, key: Seq<char>)
    requires
        forall|i: int|
            0 <= i < l.len() ==> table_in(kind, #[trigger] l[i]) is Some && table_fault(
                kind,
                table_in(kind, l[i])->0,
            ) is None,
    ensures
        list_fault(kind, l, key) is None,
    decreases l.len(),
{
    if l.len() > 0 {
        let t = l.drop_first();
        assert forall|i: int| 0 <= i < t.len() implies table_in(kind, #[trigger] t[i]) is Some
            && table_fault(kind, table_in(kind, t[i])->0) is None by {
            assert(t[i] == l[i + 1]);
        }
        assert(table_in(kind, l[0]) is Some);
        lemma_no_list_fault(kind, t, key);
    }
}

/// The keys of the document, of a unit and of a rule.
pub proof fn schema_has_these_keys(key: Seq<char>)
    ensures
        known_key(TableKind::Root, key) <==> (key == "enabled"@ || key == "port"@ || key == "bind"@ || key == "ollama_unit"@ || key == "eager_ollama"@ || key == "managed_units"@ || key == "eviction_timeout_s"@ || key == "vram_free_threshold_mb"@ || key == "reconcile_interval_s"@ || key == "detect_steam"@ || key == "game_patterns"@ || key == "vram_heuristic"@ || key == "vram_game_threshold_mb"@ || key == "gpu_allowlist"@ || key == "presence_detection"@ || key == "presence_idle_threshold_s"@ || key == "gpu_backend"@ || key == "socket_path"@ || key == "game_priority"@ || key == "yield_timeout_s"@),
        known_key(TableKind::Unit, key) <==> key_order(TableKind::Unit).contains(key),
        known_key(TableKind::Pattern, key) <==> key_order(TableKind::Pattern).contains(key),
{
    let u = key_order(TableKind::Unit);
    let p = key_order(TableKind::Pattern);
    if known_key(TableKind::Unit, key) {
        assert(u[0] == key || u[1] == key || u[2] == key || u[3] == key || u[4] == key || u[5]
            == key || u[6] == key || u[7] == key || u[8] == key || u[9] == key || u[10] == key
            || u[11] == key || u[12] == key || u[13] == key);
    }
    if known_key(TableKind::Pattern, key) {
        assert(p[0] == key || p[1] == key || p[2] == key);
    }
}

/// A vendor is named by its name, or by a table with that name as its only key; no key
/// means that it is found out.
pub proof fn vendor_is_named(platform: Platform, e: Seq<Entry>)
    requires
        decode_config_on(platform, e) is Some,
    ensures
        ({
            let k = decode_config_on(platform, e)->0.gpu_backend;
            let named = |s: Seq<char>| match k {
                GpuBackendKind::Auto => s == "auto"@,
                GpuBackendKind::Nvidia => s == "nvidia"@,
                GpuBackendKind::Amd => s == "amd"@,
            };
            match value_of(e, "gpu_backend"@) {
                None => k == GpuBackendKind::Auto,
                Some(TomlView::Text(s)) => named(s),
                Some(TomlView::Table(t)) => t.len() == 1 && named(t[0].key),
                Some(_) => false,
            }
        }),
{
}

/// The unit that stands in for an empty list is driven by systemd, found by its name among
/// the processes, of the usual priority, and has no hooks.
pub proof fn stand_in_unit_is_plain(name: Seq<char>, eager: bool)
    ensures
        ({
            let u = units_in_force(name, eager, Seq::empty())[0];
            &&& u.unit == name && u.eager_restart == eager
            &&& u.stop_cmd is None && u.start_cmd is None && u.is_active_cmd is None && u.kill_cmd
                is None
            &&& u.busy_cmd is None && u.yield_cmd is None && u.resume_cmd is None
            &&& u.priority == 50 && u.yield_timeout_s is None && u.introspect_cmd is None
            &&& u.vram_match == Some("ollama"@)
        }),
{
}

} // verus!
