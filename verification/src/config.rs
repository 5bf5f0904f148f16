//! Optional machine-wide configuration.

use crate::text;
use crate::value;
use crate::value::Value;
use vstd::prelude::*;

verus! {

/// What `up` and `restart` do with the images of the compose services they start. `Ask` puts the
/// question before the build, and a run without a terminal declines it — scripts, agents, CI —
/// exactly like a bootstrap step marked `ask`.
#[derive(Debug, Clone, Copy, PartialEq, Eq, Structural)]
pub enum BuildMode {
    /// Build before starting. Compose validates its cache, so an image whose build context is
    /// unchanged costs a cache check, not a rebuild.
    Always,
    /// Ask once per run, naming the services that would build.
    Ask,
    /// Never build; start from the images that are already there.
    Never,
}

impl Default for BuildMode {
    fn default() -> (r: Self)
        ensures
            r == BuildMode::Always,
    {
        BuildMode::Always
    }
}

/// What `up` does with a Compose project that is already up on an unchanged configuration.
/// `Always` reconciles it every time; `Auto` skips the start, the recreate and a finished
/// one-shot's re-run.
#[derive(Debug, Clone, Copy, PartialEq, Eq, Structural)]
pub enum ReconcileMode {
    Always,
    Auto,
}

impl Default for ReconcileMode {
    fn default() -> (r: Self)
        ensures
            r == ReconcileMode::Always,
    {
        ReconcileMode::Always
    }
}

/// Optional machine-wide configuration at ~/.config/magictree/config.toml.
#[derive(Debug, Clone, Copy, PartialEq, Eq, Structural)]
pub struct Config {
    /// Inclusive start of the port range magictree allocates from.
    pub port_range_start: u16,
    /// Inclusive end of the port range magictree allocates from.
    pub port_range_end: u16,
    /// Spacing between worktree blocks inside the range.
    pub port_stride: u16,
    /// Seconds to wait for a host process to exit after SIGTERM before SIGKILL.
    pub stop_timeout_secs: u64,
    /// Default seconds to wait for a service to become healthy.
    pub health_timeout_secs: u64,
    /// Whether `up` and `restart` build the compose services they start.
    pub build: BuildMode,
    /// What `up` does with a Compose project that is already up on an unchanged configuration.
    pub reconcile: ReconcileMode,
    /// Whether `[bootstrap] sync` may link a path from the primary checkout. `false` makes every
    /// checkout install its own dependencies, and unlinks anything a previous run linked.
    pub sync: bool,
    /// Whether a command may mention a release that has landed since this binary was installed.
    pub check_for_updates: bool,
}

/// The configuration of a machine that sets nothing.
pub open spec fn default_config() -> Config {
    Config {
        port_range_start: 20000,
        port_range_end: 32767,
        port_stride: 20,
        stop_timeout_secs: 10,
        health_timeout_secs: 60,
        build: BuildMode::Always,
        reconcile: ReconcileMode::Always,
        sync: true,
        check_for_updates: true,
    }
}

impl Default for Config {
    fn default() -> (r: Self)
        ensures
            r == default_config(),
    {
        Config {
            port_range_start: 20000,
            port_range_end: 32767,
            port_stride: 20,
            stop_timeout_secs: 10,
            health_timeout_secs: 60,
            build: BuildMode::Always,
            reconcile: ReconcileMode::Always,
            sync: true,
            check_for_updates: true,
        }
    }
}

/// The number under `key`, or `default` where there is none; nothing where it is not a whole
/// number from 0 to `max`.
pub open spec fn number_under(v: Value, key: Seq<char>, default: nat, max: nat) -> Option<nat> {
    match v.get_of(key) {
        None => Some(default),
        Some(Value::Number(s)) => text::number_of(s@, max),
        Some(_) => None,
    }
}

/// The flag under `key`, or `default` where there is none; nothing where it is not a flag.
pub open spec fn flag_under(v: Value, key: Seq<char>, default: bool) -> Option<bool> {
    match v.get_of(key) {
        None => Some(default),
        Some(found) => found.flag_of(),
    }
}

/// The build mode under `build`.
pub open spec fn build_under(v: Value) -> Option<BuildMode> {
    match v.get_of("build"@) {
        None => Some(BuildMode::Always),
        Some(found) => if found.text_of() == Some("always"@) {
            Some(BuildMode::Always)
        } else if found.text_of() == Some("ask"@) {
            Some(BuildMode::Ask)
        } else if found.text_of() == Some("never"@) {
            Some(BuildMode::Never)
        } else {
            None
        },
    }
}

/// The reconcile mode under `reconcile`.
pub open spec fn reconcile_under(v: Value) -> Option<ReconcileMode> {
    match v.get_of("reconcile"@) {
        None => Some(ReconcileMode::Always),
        Some(found) => if found.text_of() == Some("always"@) {
            Some(ReconcileMode::Always)
        } else if found.text_of() == Some("auto"@) {
            Some(ReconcileMode::Auto)
        } else {
            None
        },
    }
}

/// The configuration that a document holds: a missing key has its default, an unknown key is
/// ignored, and a value of the wrong kind makes the document unusable.
pub open spec fn config_of(v: Value) -> Option<Config> {
    let d = default_config();
    let start = number_under(v, "port_range_start"@, d.port_range_start as nat, u16::MAX as nat);
    let end = number_under(v, "port_range_end"@, d.port_range_end as nat, u16::MAX as nat);
    let stride = number_under(v, "port_stride"@, d.port_stride as nat, u16::MAX as nat);
    let stop = number_under(v, "stop_timeout_secs"@, d.stop_timeout_secs as nat, u64::MAX as nat);
    let health = number_under(
        v,
        "health_timeout_secs"@,
        d.health_timeout_secs as nat,
        u64::MAX as nat,
    );
    let sync = flag_under(v, "sync"@, d.sync);
    let updates = flag_under(v, "check_for_updates"@, d.check_for_updates);
    if start is Some && end is Some && stride is Some && stop is Some && health is Some
        && build_under(v) is Some && reconcile_under(v) is Some && sync is Some && updates is Some {
        Some(
            Config {
                port_range_start: start.unwrap() as u16,
                port_range_end: end.unwrap() as u16,
                port_stride: stride.unwrap() as u16,
                stop_timeout_secs: stop.unwrap() as u64,
                health_timeout_secs: health.unwrap() as u64,
                build: build_under(v).unwrap(),
                reconcile: reconcile_under(v).unwrap(),
                sync: sync.unwrap(),
                check_for_updates: updates.unwrap(),
            },
        )
    } else {
        None
    }
}

fn read_number(v: &Value, key: &str, default: u64, max: u64) -> (r: Option<u64>)
    requires
        default <= max,
    ensures
        match r {
            Some(n) => number_under(*v, key@, default as nat, max as nat) == Some(n as nat) && n
                <= max,
            None => number_under(*v, key@, default as nat, max as nat) is None,
        },
{
    match v.get(key) {
        None => Some(default),
        Some(Value::Number(s)) => text::parse_number(s, max),
        Some(_) => None,
    }
}

fn read_flag(v: &Value, key: &str, default: bool) -> (r: Option<bool>)
    ensures
        r == flag_under(*v, key@, default),
{
    match v.get(key) {
        None => Some(default),
        Some(found) => found.as_flag(),
    }
}

fn is_text(v: &Value, s: &str) -> (r: bool)
    ensures
        r == (v.text_of() == Some(s@)),
{
    match v.as_text() {
        Some(t) => text::same(t, s),
        None => false,
    }
}

fn read_build(v: &Value) -> (r: Option<BuildMode>)
    ensures
        r == build_under(*v),
{
    match v.get("build") {
        None => Some(BuildMode::Always),
        Some(found) => if is_text(found, "always") {
            Some(BuildMode::Always)
        } else if is_text(found, "ask") {
            Some(BuildMode::Ask)
        } else if is_text(found, "never") {
            Some(BuildMode::Never)
        } else {
            None
        },
    }
}

fn read_reconcile(v: &Value) -> (r: Option<ReconcileMode>)
    ensures
        r == reconcile_under(*v),
{
    match v.get("reconcile") {
        None => Some(ReconcileMode::Always),
        Some(found) => if is_text(found, "always") {
            Some(ReconcileMode::Always)
        } else if is_text(found, "auto") {
            Some(ReconcileMode::Auto)
        } else {
            None
        },
    }
}

impl Config {
    /// Whether ports can be allocated with this configuration.
    pub open spec fn valid(self) -> bool {
        self.port_stride > 0 && self.port_range_start < self.port_range_end
    }

    /// The configuration that a document holds.
    pub fn from_value(v: &Value) -> (r: Option<Config>)
        ensures
            r == config_of(*v),
    {
        let start = read_number(v, "port_range_start", 20000, 65535);
        let end = read_number(v, "port_range_end", 32767, 65535);
        let stride = read_number(v, "port_stride", 20, 65535);
        let stop = read_number(v, "stop_timeout_secs", 10, 0xffff_ffff_ffff_ffff);
        let health = read_number(v, "health_timeout_secs", 60, 0xffff_ffff_ffff_ffff);
        let build = read_build(v);
        let reconcile = read_reconcile(v);
        let sync = read_flag(v, "sync", true);
        let updates = read_flag(v, "check_for_updates", true);
        match (start, end, stride, stop, health) {
            (Some(start), Some(end), Some(stride), Some(stop), Some(health)) => match (
                build,
                reconcile,
                sync,
                updates,
            ) {
                (Some(build), Some(reconcile), Some(sync), Some(updates)) => Some(
                    Config {
                        port_range_start: start as u16,
                        port_range_end: end as u16,
                        port_stride: stride as u16,
                        stop_timeout_secs: stop,
                        health_timeout_secs: health,
                        build,
                        reconcile,
                        sync,
                        check_for_updates: updates,
                    },
                ),
                _ => None,
            },
            _ => None,
        }
    }

    /// The configuration that a TOML text holds; none where it holds none.
    pub fn parse(raw: &str) -> (r: Option<Config>)
        ensures
            r == (match value::toml_value(raw@) {
                Some(v) => config_of(v),
                None => None,
            }),
    {
        match value::parse_toml(raw) {
            Some(v) => Config::from_value(&v),
            None => None,
        }
    }

    /// The configuration of this machine: the default where there is no file.
    pub fn load(raw: &Option<String>, file: &str) -> (r: Result<Config, String>)
        ensures
            match *raw {
                None => r == Ok::<Config, String>(default_config()),
                Some(raw) => match value::toml_value(raw@) {
                    Some(v) => match config_of(v) {
                        Some(config) => match r {
                            Ok(c) => c == config && config.valid(),
                            Err(e) => config_error(config) == Some(e@),
                        },
                        None => r matches Err(e) && e@ == "parsing "@ + file@,
                    },
                    None => r matches Err(e) && e@ == "parsing "@ + file@,
                },
            },
    {
        match raw {
            None => Ok(Config::default()),
            Some(raw) => match Config::parse(raw) {
                Some(config) => match config.validate() {
                    Ok(()) => Ok(config),
                    Err(e) => Err(e),
                },
                None => Err(text::concat("parsing ", file)),
            },
        }
    }

    pub fn validate(&self) -> (r: Result<(), String>)
        ensures
            match r {
                Ok(_) => self.valid() && config_error(*self) is None,
                Err(e) => !self.valid() && config_error(*self) == Some(e@),
            },
    {
        if self.port_stride == 0 {
            return Err(text::own("config: port_stride must be greater than zero"));
        }
        if self.port_range_start >= self.port_range_end {
            return Err(text::own("config: port_range_start must be less than port_range_end"));
        }
        Ok(())
    }

    /// The number of blocks that fit into the range.
    pub open spec fn slots_of(self) -> int {
        (self.port_range_end - self.port_range_start + 1) / (self.port_stride as int)
    }

    /// The number of blocks that fit into the range.
    pub fn slots(&self) -> (r: u32)
        requires
            self.valid(),
        ensures
            r == self.slots_of(),
    {
        let span: u32 = (self.port_range_end - self.port_range_start) as u32 + 1;
        span / self.port_stride as u32
    }
}

/// What is wrong with a configuration.
pub open spec fn config_error(c: Config) -> Option<Seq<char>> {
    if c.port_stride == 0 {
        Some("config: port_stride must be greater than zero"@)
    } else if c.port_range_start >= c.port_range_end {
        Some("config: port_range_start must be less than port_range_end"@)
    } else {
        None
    }
}

/// What a file says of a number: `n` under the key, or nothing at all.
pub open spec fn says_number(v: Value, key: Seq<char>, max: nat, default: nat, n: nat) -> bool {
    match v.get_of(key) {
        None => n == default,
        Some(found) => found matches Value::Number(s) && text::number_of(s@, max) == Some(n),
    }
}

/// What a file says of a switch.
pub open spec fn says_flag(v: Value, key: Seq<char>, default: bool, flag: bool) -> bool {
    match v.get_of(key) {
        None => flag == default,
        Some(found) => found.flag_of() == Some(flag),
    }
}

/// Whether a file says a word, or nothing where that is what nothing means.
pub open spec fn says_word(v: Value, key: Seq<char>, default: bool, word: Seq<char>) -> bool {
    match v.get_of(key) {
        None => default,
        Some(found) => found.text_of() == Some(word),
    }
}

/// The configuration that is read is the one that is written: each setting is what the file says
/// under its own key, and otherwise what it is without a file.
pub proof fn settings_are_what_the_file_says(v: Value, c: Config)
    requires
        config_of(v) == Some(c),
    ensures
        says_number(v, "port_range_start"@, 65535, 20000, c.port_range_start as nat),
        says_number(v, "port_range_end"@, 65535, 32767, c.port_range_end as nat),
        says_number(v, "port_stride"@, 65535, 20, c.port_stride as nat),
        says_number(v, "stop_timeout_secs"@, u64::MAX as nat, 10, c.stop_timeout_secs as nat),
        says_number(v, "health_timeout_secs"@, u64::MAX as nat, 60, c.health_timeout_secs as nat),
        says_flag(v, "sync"@, true, c.sync),
        says_flag(v, "check_for_updates"@, true, c.check_for_updates),
        c.build == BuildMode::Always ==> says_word(v, "build"@, true, "always"@),
        c.build == BuildMode::Ask ==> says_word(v, "build"@, false, "ask"@),
        c.build == BuildMode::Never ==> says_word(v, "build"@, false, "never"@),
        c.reconcile == ReconcileMode::Always ==> says_word(v, "reconcile"@, true, "always"@),
        c.reconcile == ReconcileMode::Auto ==> says_word(v, "reconcile"@, false, "auto"@),
{
    numbers_are_bounded(v, "port_range_start"@, 20000, 65535);
    numbers_are_bounded(v, "port_range_end"@, 32767, 65535);
    numbers_are_bounded(v, "port_stride"@, 20, 65535);
    numbers_are_bounded(v, "stop_timeout_secs"@, 10, u64::MAX as nat);
    numbers_are_bounded(v, "health_timeout_secs"@, 60, u64::MAX as nat);
}

proof fn numbers_are_bounded(v: Value, key: Seq<char>, default: nat, max: nat)
    requires
        default <= max,
    ensures
        number_under(v, key, default, max) matches Some(n) ==> n <= max,
{
}

/// A configuration is refused exactly where its blocks are empty or its range is.
pub proof fn configurations_are_refused_for_cause(c: Config)
    ensures
        config_error(c) is None <==> c.port_stride > 0 && c.port_range_start < c.port_range_end,
        c.valid() <==> config_error(c) is None,
{
}

} // verus!
