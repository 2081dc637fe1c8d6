//! Client-side entry filtering.

use vstd::prelude::*;

use crate::numbers::{lemma_decimal_reads_back, parse_u8, parse_u8_spec};
use crate::record::{Record, RecordView};
use crate::strings::{contains_char, decimal, push_str, str_eq};

verus! {

/// `regex::Regex`, a compiled regular expression.
#[verifier::external_type_specification]
#[verifier::external_body]
pub struct ExRegex(regex::Regex);

/// `regex::Error`, why a pattern did not compile.
#[verifier::external_type_specification]
#[verifier::external_body]
pub struct ExRegexError(regex::Error);

/// Whether `regex::Regex::new` accepts `pattern`.
pub uninterp spec fn regex_accepts(pattern: Seq<char>) -> bool;

/// Whether the regular expression `pattern` matches somewhere in `haystack`
/// (`regex::Regex::is_match`).
pub uninterp spec fn regex_finds(pattern: Seq<char>, haystack: Seq<char>) -> bool;

/// A compiled `--grep` pattern together with its source text.
pub struct Grep {
    pattern: String,
    regex: regex::Regex,
}

impl View for Grep {
    type V = Seq<char>;

    /// The pattern the expression was compiled from.
    closed spec fn view(&self) -> Seq<char> {
        self.pattern@
    }
}

/// Why a `--grep` pattern was refused.
pub struct GrepError {
    pub pattern: String,
    pub reason: String,
}

impl Grep {
    /// Compiles `pattern` with `regex::Regex::new`; on success the result
    /// keeps `pattern` beside the expression compiled from it. Stated: it
    /// succeeds exactly when the named acceptance holds, and the kept source
    /// is `pattern`.
    #[verifier::external_body]
    fn compile(pattern: &str) -> (res: Result<Grep, regex::Error>)
        ensures
            res is Ok <==> regex_accepts(pattern@),
            res matches Ok(g) ==> g@ == pattern@,
    {
        match regex::Regex::new(pattern) {
            Ok(regex) => Ok(Grep { pattern: pattern.to_string(), regex }),
            Err(e) => Err(e),
        }
    }

    /// The message of a `regex::Error` (its `Display` text).
    #[verifier::external_body]
    fn reason(e: &regex::Error) -> String {
        e.to_string()
    }

    /// Compiles a `--grep` pattern.
    pub fn new(pattern: &str) -> (res: Result<Grep, GrepError>)
        ensures
            res is Ok <==> regex_accepts(pattern@),
            match res {
                Ok(g) => g@ == pattern@,
                Err(e) => e.pattern@ == pattern@,
            },
    {
        match Self::compile(pattern) {
            Ok(g) => Ok(g),
            Err(e) => Err(GrepError { pattern: pattern.to_string(), reason: Self::reason(&e) }),
        }
    }

    /// Whether the expression matches somewhere in `text`
    /// (`regex::Regex::is_match`). Stated: the result is the named match of
    /// the source pattern, which is what `compile` built the expression from.
    #[verifier::external_body]
    fn is_match(&self, text: &str) -> (b: bool)
        ensures
            b == regex_finds(self@, text@),
    {
        self.regex.is_match(text)
    }
}

/// `u` expanded to its `.service` form unless it already has a unit type
/// suffix.
pub open spec fn normalized_unit(u: Seq<char>) -> Seq<char> {
    if u.contains('.') {
        u
    } else {
        u + ".service"@
    }
}

/// Expands a bare unit name to its `.service` form, matching what systemctl
/// does; names that already carry a unit type suffix pass through.
pub fn normalize_unit(unit: &str) -> (res: String)
    ensures
        res@ == normalized_unit(unit@),
{
    if contains_char(unit, '.') {
        unit.to_string()
    } else {
        let mut s = unit.to_string();
        push_str(&mut s, ".service");
        s
    }
}

/// The numeric value of a syslog priority name or level, as `journalctl -p`
/// reads it.
pub open spec fn priority_of(s: Seq<char>) -> Option<u8> {
    if s == "emerg"@ || s == "panic"@ {
        Some(0)
    } else if s == "alert"@ {
        Some(1)
    } else if s == "crit"@ {
        Some(2)
    } else if s == "err"@ || s == "error"@ {
        Some(3)
    } else if s == "warning"@ || s == "warn"@ {
        Some(4)
    } else if s == "notice"@ {
        Some(5)
    } else if s == "info"@ {
        Some(6)
    } else if s == "debug"@ {
        Some(7)
    } else {
        match parse_u8_spec(s) {
            Some(n) => if n <= 7 {
                Some(n)
            } else {
                None
            },
            None => None,
        }
    }
}

/// A priority that is neither a syslog level name nor a number 0-7.
pub struct InvalidPriority {
    pub given: String,
}

/// Converts a syslog priority name or numeric level into its numeric value.
pub fn parse_priority(s: &str) -> (res: Result<u8, InvalidPriority>)
    ensures
        match res {
            Ok(p) => priority_of(s@) == Some(p),
            Err(e) => priority_of(s@) is None && e.given@ == s@,
        },
{
    if str_eq(s, "emerg") || str_eq(s, "panic") {
        Ok(0)
    } else if str_eq(s, "alert") {
        Ok(1)
    } else if str_eq(s, "crit") {
        Ok(2)
    } else if str_eq(s, "err") || str_eq(s, "error") {
        Ok(3)
    } else if str_eq(s, "warning") || str_eq(s, "warn") {
        Ok(4)
    } else if str_eq(s, "notice") {
        Ok(5)
    } else if str_eq(s, "info") {
        Ok(6)
    } else if str_eq(s, "debug") {
        Ok(7)
    } else {
        match parse_u8(s) {
            Some(n) => if n <= 7 {
                Ok(n)
            } else {
                Err(InvalidPriority { given: s.to_string() })
            },
            None => Err(InvalidPriority { given: s.to_string() }),
        }
    }
}

/// Whether a record passes the filters `units` (normalized unit names, no
/// narrowing when empty), `limit` (least severe priority shown) and `grep`
/// (pattern the message must match).
pub open spec fn passes(
    units: Seq<Seq<char>>,
    limit: Option<u8>,
    grep: Option<Seq<char>>,
    r: RecordView,
) -> bool {
    &&& units.len() > 0 ==> match r.unit {
        Some(u) => units.contains(u),
        None => false,
    }
    &&& match (limit, r.priority) {
        (Some(l), Some(p)) => p <= l,
        _ => true,
    }
    &&& match grep {
        Some(g) => regex_finds(g, r.message),
        None => true,
    }
}

/// The source pattern of an optional `--grep` expression.
pub open spec fn opt_pattern(g: Option<Grep>) -> Option<Seq<char>> {
    match g {
        Some(x) => Some(x@),
        None => None,
    }
}

/// Filters applied to parsed entries before they enter the ordering buffer.
///
/// Unit and priority narrowing is also pushed down to the remote
/// `journalctl`; applying it again locally keeps the output correct when a
/// remote emits more than asked, for example right after a cursor-based
/// resume.
pub struct Filters {
    units: Vec<String>,
    priority_limit: Option<u8>,
    grep: Option<Grep>,
}

impl Filters {
    /// The unit names entries must carry, normalized.
    pub closed spec fn units(&self) -> Seq<Seq<char>> {
        self.units@.map_values(|u: String| u@)
    }

    /// The least severe priority shown.
    pub closed spec fn priority_limit(&self) -> Option<u8> {
        self.priority_limit
    }

    /// The pattern messages must match.
    pub closed spec fn grep(&self) -> Option<Seq<char>> {
        opt_pattern(self.grep)
    }

    pub fn new(units: &[String], priority_limit: Option<u8>, grep: Option<Grep>) -> (f: Self)
        ensures
            f.units() == units@.map_values(|u: String| normalized_unit(u@)),
            f.priority_limit() == priority_limit,
            f.grep() == opt_pattern(grep),
    {
        let mut normalized: Vec<String> = Vec::new();
        let mut i: usize = 0;
        while i < units.len()
            invariant
                i <= units@.len(),
                normalized@.map_values(|u: String| u@) =~= units@.take(i as int).map_values(
                    |u: String| normalized_unit(u@),
                ),
            decreases units@.len() - i,
        {
            let n = normalize_unit(units[i].as_str());
            let ghost before = normalized@;
            normalized.push(n);
            assert(normalized@.map_values(|u: String| u@) =~= before.map_values(|u: String| u@).push(
                n@,
            ));
            assert(units@.take(i + 1) =~= units@.take(i as int).push(units@[i as int]));
            assert(units@.take(i + 1).map_values(|u: String| normalized_unit(u@)) =~= units@.take(
                i as int,
            ).map_values(|u: String| normalized_unit(u@)).push(normalized_unit(units@[i as int]@)));
            i = i + 1;
        }
        assert(units@.take(units@.len() as int) =~= units@);
        Filters { units: normalized, priority_limit, grep }
    }

    /// Returns whether the entry should be shown.
    ///
    /// Entries without a `PRIORITY` field pass a priority filter: hiding an
    /// entry the user cannot know exists is worse than showing an unlabeled
    /// one.
    pub fn matches(&self, record: &Record) -> (b: bool)
        ensures
            b == passes(self.units(), self.priority_limit(), self.grep(), record@),
    {
        if self.units.len() > 0 {
            match &record.unit {
                None => {
                    return false;
                },
                Some(unit) => {
                    let mut found = false;
                    let mut i: usize = 0;
                    while i < self.units.len()
                        invariant
                            i <= self.units@.len(),
                            found == exists|k: int|
                                0 <= k < i && (#[trigger] self.units@[k])@ == unit@,
                        decreases self.units@.len() - i,
                    {
                        if str_eq(self.units[i].as_str(), unit.as_str()) {
                            found = true;
                        }
                        i = i + 1;
                    }
                    if !found {
                        assert(!self.units().contains(unit@));
                        return false;
                    }
                    assert(self.units().contains(unit@)) by {
                        let k = choose|k: int| 0 <= k < i && (#[trigger] self.units@[k])@ == unit@;
                        assert(self.units()[k] == unit@);
                    }
                },
            }
        }
        match (self.priority_limit, record.priority) {
            (Some(limit), Some(p)) => {
                if p > limit {
                    return false;
                }
            },
            _ => {},
        }
        match &self.grep {
            Some(re) => {
                if !re.is_match(record.message.as_str()) {
                    return false;
                }
            },
            None => {},
        }
        true
    }
}

/// Entries without a priority are never hidden by the priority limit: with
/// no unit or pattern narrowing they always pass.
pub proof fn lemma_unlabeled_entries_pass(limit: Option<u8>, r: RecordView)
    requires
        r.priority is None,
    ensures
        passes(Seq::empty(), limit, None, r),
{
}

/// The priority limit keeps exactly the entries at least as severe as the
/// limit, that is with a priority number no greater than it.
pub proof fn lemma_priority_limit_is_a_threshold(limit: u8, r: RecordView)
    requires
        r.priority is Some,
    ensures
        passes(Seq::empty(), Some(limit), None, r) <==> r.priority->0 <= limit,
{
}

/// A unit name that already carries a '.' is used as it is; a name without
/// one is the `.service` unit of that name. Either way the result names a
/// unit type, and normalizing twice changes nothing more.
pub proof fn lemma_unit_names_normalize(u: Seq<char>)
    ensures
        u.contains('.') ==> normalized_unit(u) == u,
        !u.contains('.') ==> normalized_unit(u) == u + ".service"@,
        normalized_unit(u).contains('.'),
        normalized_unit(normalized_unit(u)) == normalized_unit(u),
{
    reveal_strlit(".service");
    if !u.contains('.') {
        let n = u + ".service"@;
        assert(n[u.len() as int] == '.');
    }
}

/// Every numeric level from 0 to 7 reads as itself, and every larger number
/// is refused.
pub proof fn lemma_numeric_levels(n: nat)
    ensures
        n <= 7 ==> priority_of(decimal(n)) == Some(n as u8),
        n > 7 ==> priority_of(decimal(n)) is None,
{
    lemma_decimal_reads_back(n);
    let d = decimal(n);
    reveal_strlit("emerg");
    reveal_strlit("panic");
    reveal_strlit("alert");
    reveal_strlit("crit");
    reveal_strlit("err");
    reveal_strlit("error");
    reveal_strlit("warning");
    reveal_strlit("warn");
    reveal_strlit("notice");
    reveal_strlit("info");
    reveal_strlit("debug");
    assert(crate::numbers::is_digit(d[0]));
    assert(d != "emerg"@ && d != "panic"@ && d != "alert"@ && d != "crit"@ && d != "err"@);
    assert(d != "error"@ && d != "warning"@ && d != "warn"@ && d != "notice"@);
    assert(d != "info"@ && d != "debug"@);
}

/// The syslog level names read as their levels, as `journalctl -p` reads
/// them: emerg (or panic) 0, alert 1, crit 2, err (or error) 3, warning (or
/// warn) 4, notice 5, info 6, debug 7.
pub proof fn lemma_level_names()
    ensures
        priority_of("emerg"@) == Some(0u8),
        priority_of("panic"@) == Some(0u8),
        priority_of("alert"@) == Some(1u8),
        priority_of("crit"@) == Some(2u8),
        priority_of("err"@) == Some(3u8),
        priority_of("error"@) == Some(3u8),
        priority_of("warning"@) == Some(4u8),
        priority_of("warn"@) == Some(4u8),
        priority_of("notice"@) == Some(5u8),
        priority_of("info"@) == Some(6u8),
        priority_of("debug"@) == Some(7u8),
{
    reveal_strlit("emerg");
    reveal_strlit("panic");
    reveal_strlit("alert");
    reveal_strlit("crit");
    reveal_strlit("err");
    reveal_strlit("error");
    reveal_strlit("warning");
    reveal_strlit("warn");
    reveal_strlit("notice");
    reveal_strlit("info");
    reveal_strlit("debug");
    assert("panic"@[0] != "emerg"@[0]);
    assert("alert"@[0] != "emerg"@[0] && "alert"@[0] != "panic"@[0]);
    assert("crit"@[0] != "emerg"@[0] && "crit"@[0] != "panic"@[0] && "crit"@[0] != "alert"@[0]);
    assert("err"@[1] != "emerg"@[1] && "err"@[0] != "panic"@[0] && "err"@[0] != "alert"@[0]
        && "err"@[0] != "crit"@[0]);
    assert("error"@[1] != "emerg"@[1] && "error"@[0] != "panic"@[0] && "error"@[0]
        != "alert"@[0] && "error"@[0] != "crit"@[0] && "error"@.len() != "err"@.len());
    assert("warning"@[0] != "emerg"@[0] && "warning"@[0] != "panic"@[0] && "warning"@[0]
        != "alert"@[0] && "warning"@[0] != "crit"@[0] && "warning"@[0] != "err"@[0]
        && "warning"@[0] != "error"@[0]);
    assert("warn"@[0] != "emerg"@[0] && "warn"@[0] != "panic"@[0] && "warn"@[0] != "alert"@[0]
        && "warn"@[0] != "crit"@[0] && "warn"@[0] != "err"@[0] && "warn"@[0] != "error"@[0]
        && "warn"@.len() != "warning"@.len());
    assert("notice"@[0] != "emerg"@[0] && "notice"@[0] != "panic"@[0] && "notice"@[0]
        != "alert"@[0] && "notice"@[0] != "crit"@[0] && "notice"@[0] != "err"@[0]
        && "notice"@[0] != "error"@[0] && "notice"@[0] != "warning"@[0] && "notice"@[0]
        != "warn"@[0]);
    assert("info"@[0] != "emerg"@[0] && "info"@[0] != "panic"@[0] && "info"@[0] != "alert"@[0]
        && "info"@[0] != "crit"@[0] && "info"@[0] != "err"@[0] && "info"@[0] != "error"@[0]
        && "info"@[0] != "warning"@[0] && "info"@[0] != "warn"@[0] && "info"@[0]
        != "notice"@[0]);
    assert("debug"@[0] != "emerg"@[0] && "debug"@[0] != "panic"@[0] && "debug"@[0]
        != "alert"@[0] && "debug"@[0] != "crit"@[0] && "debug"@[0] != "err"@[0] && "debug"@[0]
        != "error"@[0] && "debug"@[0] != "warning"@[0] && "debug"@[0] != "warn"@[0]
        && "debug"@[0] != "notice"@[0] && "debug"@[0] != "info"@[0]);
}

/// The pattern narrows by the message alone: with a pattern, an entry
/// passes exactly when it passes the other filters and the pattern is found
/// in its message. An entry whose message the pattern does not match never
/// passes, whatever its unit or host.
pub proof fn lemma_grep_looks_at_the_message(
    units: Seq<Seq<char>>,
    limit: Option<u8>,
    g: Seq<char>,
    r: RecordView,
)
    ensures
        passes(units, limit, Some(g), r) == (passes(units, limit, None, r) && regex_finds(
            g,
            r.message,
        )),
        !regex_finds(g, r.message) ==> !passes(units, limit, Some(g), r),
{
}

/// With no filters every entry passes; a unit list keeps exactly the
/// entries whose unit is one of the listed names.
pub proof fn lemma_unit_list_narrows(units: Seq<Seq<char>>, r: RecordView)
    ensures
        passes(Seq::empty(), None, None, r),
        units.len() > 0 ==> (passes(units, None, None, r) <==> (r.unit is Some && units.contains(
            r.unit->0,
        ))),
{
}

} // verus!
