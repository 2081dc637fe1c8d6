//! Command-line settings and what the tool derives from them.

use vstd::prelude::*;

use crate::filter::{
    normalize_unit, normalized_unit, opt_pattern, parse_priority, priority_of, regex_accepts,
    Filters, Grep, GrepError, InvalidPriority,
};
use crate::ssh::JournalArgs;

verus! {

/// Merged live tail of systemd journals across ssh hosts.
///
/// Connects to every host with plain `ssh`, runs `journalctl -f -o json`
/// there, and interleaves the streams into one timestamp-ordered, colored
/// view. Nothing is installed on the remote side.
pub struct Cli {
    /// Hosts to tail: any ssh destination (`host`, `user@host`, ssh config aliases)
    pub hosts: Vec<String>,
    /// Only show entries of this systemd unit; repeatable; `.service` may be omitted
    pub unit: Vec<String>,
    /// Only show entries at this priority or more severe (a name or 0-7, as in journalctl -p)
    pub priority: Option<String>,
    /// Start from this point in time, in systemd time syntax (forwarded to journalctl)
    pub since: Option<String>,
    /// Number of recent entries to show per host at startup; ignored with --since
    pub lines: u32,
    /// Only show entries whose message matches this regular expression
    pub grep: Option<String>,
    /// How long to buffer entries for cross-host ordering, in milliseconds
    pub window_ms: u64,
    /// Disable colored output (the NO_COLOR environment variable works too)
    pub no_color: bool,
}

/// What the tool runs with: the local filters, the remote `journalctl`
/// parameters and the ordering window in nanoseconds.
pub struct Settings {
    pub filters: Filters,
    pub journal: JournalArgs,
    pub window_ns: u64,
}

/// Why the command line was refused.
pub enum SettingsError {
    Priority(InvalidPriority),
    Grep(GrepError),
}

/// `window_ms` milliseconds in nanoseconds, saturating at `u64::MAX`.
pub open spec fn window_nanos(window_ms: u64) -> u64 {
    if window_ms * 1_000_000 > u64::MAX {
        u64::MAX
    } else {
        (window_ms * 1_000_000) as u64
    }
}

/// Whether the priority option, if given, names a priority.
pub open spec fn priority_ok(p: Option<String>) -> bool {
    match p {
        Some(s) => priority_of(s@) is Some,
        None => true,
    }
}

/// The priority limit the option names.
pub open spec fn priority_limit(p: Option<String>) -> Option<u8> {
    match p {
        Some(s) => priority_of(s@),
        None => None,
    }
}

/// Whether the pattern option, if given, compiles.
pub open spec fn grep_ok(g: Option<String>) -> bool {
    match g {
        Some(s) => regex_accepts(s@),
        None => true,
    }
}

/// The pattern option's text.
pub open spec fn grep_pattern(g: Option<String>) -> Option<Seq<char>> {
    match g {
        Some(s) => Some(s@),
        None => None,
    }
}

/// The unit names normalized.
pub open spec fn normalized_units(units: Seq<String>) -> Seq<Seq<char>> {
    units.map_values(|u: String| normalized_unit(u@))
}

impl Cli {
    /// Whether output is colored: not when `--no-color` is given, not when
    /// the `NO_COLOR` environment variable is set, and only on a terminal.
    pub fn color_enabled(&self, no_color_env_set: bool, stdout_is_terminal: bool) -> (b: bool)
        ensures
            b == (!self.no_color && !no_color_env_set && stdout_is_terminal),
    {
        !self.no_color && !no_color_env_set && stdout_is_terminal
    }

    /// Derives the settings: parses the priority, compiles the pattern,
    /// normalizes the unit names for both the local filters and the remote
    /// `journalctl`. The priority is checked before the pattern.
    pub fn settings(&self) -> (res: Result<Settings, SettingsError>)
        ensures
            !priority_ok(self.priority) ==> (res matches Err(SettingsError::Priority(e))
                && e.given@ == self.priority->0@),
            priority_ok(self.priority) && !grep_ok(self.grep) ==> (res matches Err(
                SettingsError::Grep(e),
            ) && e.pattern@ == self.grep->0@),
            priority_ok(self.priority) && grep_ok(self.grep) ==> (res matches Ok(s) && {
                &&& s.filters.units() == normalized_units(self.unit@)
                &&& s.filters.priority_limit() == priority_limit(self.priority)
                &&& s.filters.grep() == grep_pattern(self.grep)
                &&& s.journal.units@.map_values(|u: String| u@) == normalized_units(self.unit@)
                &&& s.journal.priority == priority_limit(self.priority)
                &&& s.journal.since == self.since
                &&& s.journal.lines == self.lines
                &&& s.window_ns == window_nanos(self.window_ms)
            }),
    {
        let priority = match &self.priority {
            Some(p) => match parse_priority(p.as_str()) {
                Ok(n) => Some(n),
                Err(e) => return Err(SettingsError::Priority(e)),
            },
            None => None,
        };
        let grep = match &self.grep {
            Some(g) => match Grep::new(g.as_str()) {
                Ok(re) => Some(re),
                Err(e) => return Err(SettingsError::Grep(e)),
            },
            None => None,
        };
        let ghost pattern = opt_pattern(grep);
        let filters = Filters::new(self.unit.as_slice(), priority, grep);
        let mut units: Vec<String> = Vec::new();
        let mut i: usize = 0;
        while i < self.unit.len()
            invariant
                i <= self.unit@.len(),
                units@.map_values(|u: String| u@) =~= normalized_units(self.unit@.take(i as int)),
            decreases self.unit@.len() - i,
        {
            let n = normalize_unit(self.unit[i].as_str());
            let ghost before = units@;
            units.push(n);
            assert(units@.map_values(|u: String| u@) =~= before.map_values(|u: String| u@).push(
                n@,
            ));
            assert(self.unit@.take(i + 1) =~= self.unit@.take(i as int).push(self.unit@[i as int]));
            assert(normalized_units(self.unit@.take(i + 1)) =~= normalized_units(
                self.unit@.take(i as int),
            ).push(normalized_unit(self.unit@[i as int]@)));
            i = i + 1;
        }
        assert(self.unit@.take(self.unit@.len() as int) =~= self.unit@);
        let window_ns = if self.window_ms > u64::MAX / 1_000_000 {
            u64::MAX
        } else {
            self.window_ms * 1_000_000
        };
        let journal = JournalArgs {
            units,
            priority,
            since: self.since.clone(),
            lines: self.lines,
        };
        Ok(Settings { filters, journal, window_ns })
    }
}

} // verus!
