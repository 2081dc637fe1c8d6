//! Per-host journal streaming over ssh: the remote command line, the
//! handling of each line a session yields, and the reconnect schedule.
//!
//! Running ssh and reading its output is left to the caller, which feeds
//! the results to the functions here and acts on what they return.

use vstd::prelude::*;

use crate::record::{parse, parsed_record, Record};
use crate::strings::{
    all_space, chars_of, decimal, is_blank, push_char, push_decimal, push_replacing, push_str,
    replace_char,
};

verus! {

/// Message from a host task to the main event loop.
pub enum Event {
    /// A parsed journal entry. `live` is false for backlog replayed at
    /// session start, which must not feed clock-skew estimation.
    Entry { record: Record, live: bool },
    /// A line of operational status, printed outside the ordered stream.
    Notice { host: String, text: String },
}

/// Remote `journalctl` parameters shared by every host session.
#[derive(Clone)]
pub struct JournalArgs {
    pub units: Vec<String>,
    pub priority: Option<u8>,
    pub since: Option<String>,
    pub lines: u32,
}

/// Seconds ssh waits for a connection.
pub const CONNECT_TIMEOUT_SECS: u32 = 10;

/// The longest pause between reconnect attempts, in seconds.
pub const RECONNECT_MAX_SECS: u64 = 30;

/// How many ssh diagnostics of one session are shown.
pub const STDERR_LINES_SHOWN: usize = 3;

/// Whether `c` needs no quoting for a POSIX shell.
pub open spec fn shell_safe(c: char) -> bool {
    ||| ('a' <= c && c <= 'z')
    ||| ('A' <= c && c <= 'Z')
    ||| ('0' <= c && c <= '9')
    ||| c == '-' || c == '_' || c == '=' || c == '+'
    ||| c == '.' || c == '/' || c == ':' || c == '@' || c == ','
}

/// What a single quote becomes inside a single-quoted word: close the
/// quote, an escaped quote, reopen.
pub open spec fn quote_escape() -> Seq<char> {
    seq!['\'', '\\', '\'', '\'']
}

/// `s` as one word for the remote POSIX shell: as it is when it is
/// non-empty and holds only safe characters, else single-quoted.
pub open spec fn shell_quoted(s: Seq<char>) -> Seq<char> {
    if s.len() > 0 && (forall|i: int| 0 <= i < s.len() ==> shell_safe(#[trigger] s[i])) {
        s
    } else {
        seq!['\''] + replace_char(s, '\'', quote_escape()) + seq!['\'']
    }
}

/// The words joined by single spaces.
pub open spec fn join_words(words: Seq<Seq<char>>) -> Seq<char>
    decreases words.len(),
{
    if words.len() == 0 {
        Seq::empty()
    } else if words.len() == 1 {
        words[0]
    } else {
        join_words(words.drop_last()) + seq![' '] + words.last()
    }
}

/// The `--unit=` options for `units`.
pub open spec fn unit_options(units: Seq<String>) -> Seq<Seq<char>> {
    units.map_values(|u: String| "--unit="@ + u@)
}

/// The option that says where a session starts: after `cursor` when one is
/// known, else at `since` when given, else the last `lines` entries.
pub open spec fn start_option(
    cursor: Option<Seq<char>>,
    since: Option<String>,
    lines: u32,
) -> Seq<char> {
    match cursor {
        Some(c) => "--after-cursor="@ + c,
        None => match since {
            Some(s) => "--since="@ + s@,
            None => "--lines="@ + decimal(lines as nat),
        },
    }
}

/// The words of the remote `journalctl` invocation.
pub open spec fn command_words(args: JournalArgs, cursor: Option<Seq<char>>) -> Seq<Seq<char>> {
    seq!["journalctl"@, "--output=json"@, "--follow"@, "--no-pager"@] + unit_options(args.units@)
        + match args.priority {
        Some(p) => seq!["--priority="@ + decimal(p as nat)],
        None => Seq::empty(),
    } + seq![start_option(cursor, args.since, args.lines)]
}

/// Where the remote session starts: right after `cursor` when one is
/// known, whatever else was asked; otherwise at `--since` when given; else
/// with the last `--lines` entries.
pub proof fn lemma_session_start(args: JournalArgs, cursor: Option<Seq<char>>)
    ensures
        cursor matches Some(c) ==> command_words(args, cursor).last() == "--after-cursor="@ + c,
        cursor is None && args.since is Some ==> command_words(args, cursor).last() == "--since="@
            + args.since->0@,
        cursor is None && args.since is None ==> command_words(args, cursor).last() == "--lines="@
            + decimal(args.lines as nat),
{
}

/// The remote command asks for every requested unit: after the four fixed
/// words comes one `--unit=` word per unit, in the order given, then the
/// priority word when a limit is set, then the word saying where to start.
pub proof fn lemma_command_asks_for_every_unit(args: JournalArgs, cursor: Option<Seq<char>>)
    ensures
        ({
            let w = command_words(args, cursor);
            let n: int = args.units@.len() as int;
            let extra: int = if args.priority is Some { 1 } else { 0 };
            &&& w.len() == 4 + n + extra + 1
            &&& w.take(4) == seq!["journalctl"@, "--output=json"@, "--follow"@, "--no-pager"@]
            &&& forall|i: int| 0 <= i < n ==> #[trigger] w[4 + i] == "--unit="@ + args.units@[i]@
            &&& args.priority matches Some(p) ==> w[4 + n] == "--priority="@ + decimal(p as nat)
            &&& w.last() == start_option(cursor, args.since, args.lines)
        }),
{
    let w = command_words(args, cursor);
    let head = seq!["journalctl"@, "--output=json"@, "--follow"@, "--no-pager"@];
    assert(w.take(4) =~= head);
    assert forall|i: int| 0 <= i < args.units@.len() implies #[trigger] w[4 + i] == "--unit="@
        + args.units@[i]@ by {
        assert(w[4 + i] == unit_options(args.units@)[i]);
    }
}

/// The remote command line: every word quoted, joined by spaces.
pub open spec fn command_line(args: JournalArgs, cursor: Option<Seq<char>>) -> Seq<char> {
    join_words(command_words(args, cursor).map_values(|w: Seq<char>| shell_quoted(w)))
}

/// The characters of an optional string slice.
pub open spec fn opt_str(o: Option<&str>) -> Option<Seq<char>> {
    match o {
        Some(s) => Some(s@),
        None => None,
    }
}

/// Whether every character of `s` is shell-safe.
fn all_shell_safe(s: &str) -> (b: bool)
    ensures
        b == (forall|i: int| 0 <= i < s@.len() ==> shell_safe(#[trigger] s@[i])),
{
    let v = chars_of(s);
    let mut i: usize = 0;
    while i < v.len()
        invariant
            v@ == s@,
            i <= v.len(),
            forall|k: int| 0 <= k < i ==> shell_safe(#[trigger] s@[k]),
        decreases v.len() - i,
    {
        let c = v[i];
        let safe = ('a' <= c && c <= 'z') || ('A' <= c && c <= 'Z') || ('0' <= c && c <= '9')
            || c == '-' || c == '_' || c == '=' || c == '+' || c == '.' || c == '/' || c == ':'
            || c == '@' || c == ',';
        if !safe {
            assert(!shell_safe(s@[i as int]));
            return false;
        }
        i = i + 1;
    }
    true
}

/// Appends `s` quoted for the remote POSIX shell.
fn push_quoted(out: &mut String, s: &str)
    ensures
        final(out)@ == old(out)@ + shell_quoted(s@),
{
    if s.unicode_len() > 0 && all_shell_safe(s) {
        push_str(out, s);
    } else {
        let ghost start = out@;
        push_char(out, '\'');
        proof {
            reveal_strlit("'\\''");
        }
        push_replacing(out, s, '\'', "'\\''");
        push_char(out, '\'');
        assert("'\\''"@ =~= quote_escape());
        assert(out@ =~= start + shell_quoted(s@));
    }
}

/// Quotes one argument for the remote POSIX shell.
pub fn shell_quote(s: &str) -> (q: String)
    ensures
        q@ == shell_quoted(s@),
{
    let mut q = String::new();
    push_quoted(&mut q, s);
    assert(q@ =~= shell_quoted(s@));
    q
}

/// `prefix` followed by `rest`.
fn prefixed(prefix: &str, rest: &str) -> (s: String)
    ensures
        s@ == prefix@ + rest@,
{
    let mut s = prefix.to_string();
    push_str(&mut s, rest);
    s
}

/// `prefix` followed by the decimal representation of `n`.
fn prefixed_number(prefix: &str, n: u64) -> (s: String)
    ensures
        s@ == prefix@ + decimal(n as nat),
{
    let mut s = prefix.to_string();
    push_decimal(&mut s, n);
    s
}

/// The unquoted words of the remote `journalctl` invocation.
fn command_word_list(args: &JournalArgs, cursor: Option<&str>) -> (words: Vec<String>)
    ensures
        words@.map_values(|w: String| w@) == command_words(*args, opt_str(cursor)),
{
    let mut words: Vec<String> = Vec::new();
    words.push("journalctl".to_string());
    words.push("--output=json".to_string());
    words.push("--follow".to_string());
    words.push("--no-pager".to_string());
    let ghost base = words@.map_values(|w: String| w@);
    assert(base =~= seq!["journalctl"@, "--output=json"@, "--follow"@, "--no-pager"@]);
    let mut i: usize = 0;
    while i < args.units.len()
        invariant
            i <= args.units@.len(),
            words@.map_values(|w: String| w@) =~= base + unit_options(args.units@.take(i as int)),
        decreases args.units@.len() - i,
    {
        let w = prefixed("--unit=", args.units[i].as_str());
        let ghost before = words@;
        words.push(w);
        assert(words@.map_values(|w: String| w@) =~= before.map_values(|w: String| w@).push(w@));
        assert(unit_options(args.units@.take(i + 1)) =~= unit_options(
            args.units@.take(i as int),
        ).push("--unit="@ + args.units@[i as int]@));
        i = i + 1;
    }
    assert(args.units@.take(args.units@.len() as int) =~= args.units@);
    let ghost with_units = words@.map_values(|w: String| w@);
    match args.priority {
        Some(p) => {
            let w = prefixed_number("--priority=", p as u64);
            words.push(w);
        },
        None => {},
    }
    let ghost with_priority = words@.map_values(|w: String| w@);
    assert(with_priority =~= with_units + match args.priority {
        Some(p) => seq!["--priority="@ + decimal(p as nat)],
        None => Seq::<Seq<char>>::empty(),
    });
    let start = match cursor {
        Some(c) => prefixed("--after-cursor=", c),
        None => match &args.since {
            Some(since) => prefixed("--since=", since.as_str()),
            None => prefixed_number("--lines=", args.lines as u64),
        },
    };
    words.push(start);
    assert(words@.map_values(|w: String| w@) =~= with_priority.push(
        start_option(opt_str(cursor), args.since, args.lines),
    ));
    words
}

/// Builds the remote command line, resuming from `cursor` when one exists.
///
/// Cursor resume takes precedence over `--since`/`--lines`: those describe
/// where the very first session starts, while the cursor pins exactly where
/// the previous session stopped.
pub fn remote_command(args: &JournalArgs, cursor: Option<&str>) -> (cmd: String)
    ensures
        cmd@ == command_line(*args, opt_str(cursor)),
{
    let words = command_word_list(args, cursor);
    let ghost ws = words@.map_values(|w: String| w@);
    let ghost quoted = ws.map_values(|w: Seq<char>| shell_quoted(w));
    let mut cmd = String::new();
    let mut i: usize = 0;
    assert(quoted.take(0) =~= Seq::<Seq<char>>::empty());
    while i < words.len()
        invariant
            i <= words@.len(),
            ws == words@.map_values(|w: String| w@),
            quoted == ws.map_values(|w: Seq<char>| shell_quoted(w)),
            cmd@ == join_words(quoted.take(i as int)),
        decreases words@.len() - i,
    {
        let ghost before = cmd@;
        if i > 0 {
            push_char(&mut cmd, ' ');
        }
        push_quoted(&mut cmd, words[i].as_str());
        assert(quoted.take(i + 1).drop_last() =~= quoted.take(i as int));
        assert(quoted[i as int] == shell_quoted(words@[i as int]@));
        if i == 0 {
            assert(cmd@ =~= join_words(quoted.take(1)));
        }
        i = i + 1;
    }
    assert(quoted.take(words@.len() as int) =~= quoted);
    cmd
}

/// How a POSIX shell splits `w` into words, reading on from a state where
/// `quoted` tells whether a single quote is open, `cur` is the word read so
/// far (`started` telling whether one has begun) and `words` the words
/// completed. Unquoted spaces separate words, single quotes keep everything
/// up to the next single quote literally, a backslash keeps the next
/// character literally, and shell-safe characters stand for themselves.
/// Any other unquoted character, an open quote or a trailing backslash at
/// the end is outside this reading (`None`).
pub open spec fn shell_split(
    w: Seq<char>,
    quoted: bool,
    cur: Seq<char>,
    started: bool,
    words: Seq<Seq<char>>,
) -> Option<Seq<Seq<char>>>
    decreases w.len(),
{
    if w.len() == 0 {
        if quoted {
            None
        } else if started {
            Some(words.push(cur))
        } else {
            Some(words)
        }
    } else {
        let c = w[0];
        let rest = w.drop_first();
        if quoted {
            if c == '\'' {
                shell_split(rest, false, cur, true, words)
            } else {
                shell_split(rest, true, cur.push(c), true, words)
            }
        } else if c == ' ' {
            if started {
                shell_split(rest, false, Seq::empty(), false, words.push(cur))
            } else {
                shell_split(rest, false, cur, false, words)
            }
        } else if c == '\'' {
            shell_split(rest, true, cur, true, words)
        } else if c == '\\' {
            if rest.len() == 0 {
                None
            } else {
                shell_split(rest.drop_first(), false, cur.push(rest[0]), true, words)
            }
        } else if shell_safe(c) {
            shell_split(rest, false, cur.push(c), true, words)
        } else {
            None
        }
    }
}

/// The words a POSIX shell reads from the command line `line`.
pub open spec fn shell_words(line: Seq<char>) -> Option<Seq<Seq<char>>> {
    shell_split(line, false, Seq::empty(), false, Seq::empty())
}

/// Reading the escaped interior of a single-quoted word and its closing
/// quote gives back the characters it escaped.
proof fn lemma_read_quoted_interior(
    s: Seq<char>,
    tail: Seq<char>,
    cur: Seq<char>,
    words: Seq<Seq<char>>,
)
    ensures
        shell_split(replace_char(s, '\'', quote_escape()) + seq!['\''] + tail, true, cur, true, words)
            == shell_split(tail, false, cur + s, true, words),
    decreases s.len(),
{
    let q = quote_escape();
    if s.len() == 0 {
        let w = replace_char(s, '\'', q) + seq!['\''] + tail;
        assert(replace_char(s, '\'', q) =~= Seq::<char>::empty());
        assert(w =~= seq!['\''] + tail);
        assert(w[0] == '\'');
        assert(w.drop_first() =~= tail);
        assert(cur + s =~= cur);
        assert(shell_split(w, true, cur, true, words) == shell_split(tail, false, cur, true, words));
    } else {
        let c = s[0];
        let s2 = s.drop_first();
        assert(s =~= seq![c] + s2);
        crate::strings::lemma_replace_char_concat(seq![c], s2, '\'', q);
        assert(seq![c].drop_last() =~= Seq::<char>::empty());
        assert(seq![c].last() == c);
        assert(replace_char(Seq::<char>::empty(), '\'', q) =~= Seq::<char>::empty());
        let rest = replace_char(s2, '\'', q) + seq!['\''] + tail;
        lemma_read_quoted_interior(s2, tail, cur.push(c), words);
        assert(cur.push(c) + s2 =~= cur + s);
        if c == '\'' {
            assert(replace_char(seq![c], '\'', q) =~= q);
            let w = q + rest;
            assert(replace_char(s, '\'', q) + seq!['\''] + tail =~= w);
            assert(w[0] == '\'');
            let w1 = w.drop_first();
            assert(w1[0] == '\\');
            let w2 = w1.drop_first();
            assert(w2[0] == '\'');
            let w3 = w2.drop_first();
            assert(w3[0] == '\'');
            assert(w3.drop_first() =~= rest);
            assert(shell_split(w3, false, cur.push(c), true, words) == shell_split(
                rest,
                true,
                cur.push(c),
                true,
                words,
            ));
            assert(shell_split(w1, false, cur, true, words) == shell_split(
                w3,
                false,
                cur.push(c),
                true,
                words,
            ));
            assert(shell_split(w, true, cur, true, words) == shell_split(
                w1,
                false,
                cur,
                true,
                words,
            ));
        } else {
            assert(replace_char(seq![c], '\'', q) =~= seq![c]);
            let w = seq![c] + rest;
            assert(replace_char(s, '\'', q) + seq!['\''] + tail =~= w);
            assert(w.drop_first() =~= rest);
            assert(w[0] == c);
            assert(shell_split(w, true, cur, true, words) == shell_split(
                rest,
                true,
                cur.push(c),
                true,
                words,
            ));
        }
    }
}

/// Reading shell-safe characters outside quotes appends them to the word.
proof fn lemma_read_safe(s: Seq<char>, tail: Seq<char>, cur: Seq<char>, started: bool, words: Seq<Seq<char>>)
    requires
        s.len() > 0,
        forall|i: int| 0 <= i < s.len() ==> shell_safe(#[trigger] s[i]),
    ensures
        shell_split(s + tail, false, cur, started, words) == shell_split(tail, false, cur + s, true, words),
    decreases s.len(),
{
    let c = s[0];
    let s2 = s.drop_first();
    assert((s + tail).drop_first() =~= s2 + tail);
    assert((s + tail)[0] == c);
    assert(shell_safe(c));
    if s2.len() == 0 {
        assert(s2 + tail =~= tail);
        assert(cur.push(c) =~= cur + s);
    } else {
        assert forall|i: int| 0 <= i < s2.len() implies shell_safe(#[trigger] s2[i]) by {
            assert(s2[i] == s[i + 1]);
        }
        lemma_read_safe(s2, tail, cur.push(c), true, words);
        assert(cur.push(c) + s2 =~= cur + s);
    }
}

/// A quoted word reads back as the characters it quotes, appended to the
/// word being read.
proof fn lemma_read_word(s: Seq<char>, tail: Seq<char>, cur: Seq<char>, started: bool, words: Seq<Seq<char>>)
    ensures
        shell_split(shell_quoted(s) + tail, false, cur, started, words) == shell_split(
            tail,
            false,
            cur + s,
            true,
            words,
        ),
{
    if s.len() > 0 && (forall|i: int| 0 <= i < s.len() ==> shell_safe(#[trigger] s[i])) {
        lemma_read_safe(s, tail, cur, started, words);
    } else {
        let inner = replace_char(s, '\'', quote_escape()) + seq!['\''] + tail;
        let w = shell_quoted(s) + tail;
        assert(w =~= seq!['\''] + inner);
        assert(w[0] == '\'');
        assert(w.drop_first() =~= inner);
        lemma_read_quoted_interior(s, tail, cur, words);
    }
}

/// A word quoted for the remote shell is read back by the shell as exactly
/// that word.
pub proof fn lemma_quoted_word_reads_back(s: Seq<char>)
    ensures
        shell_words(shell_quoted(s)) == Some(seq![s]),
{
    lemma_read_word(s, Seq::empty(), Seq::empty(), false, Seq::empty());
    assert(shell_quoted(s) + Seq::<char>::empty() =~= shell_quoted(s));
    assert(Seq::<char>::empty() + s =~= s);
    assert(Seq::<Seq<char>>::empty().push(s) =~= seq![s]);
}

/// Joining from the front: the first word, a space, then the rest joined.
proof fn lemma_join_words_front(ws: Seq<Seq<char>>)
    requires
        ws.len() >= 2,
    ensures
        join_words(ws) == ws[0] + seq![' '] + join_words(ws.drop_first()),
    decreases ws.len(),
{
    if ws.len() == 2 {
        assert(ws.drop_last() =~= seq![ws[0]]);
        assert(ws.drop_first() =~= seq![ws[1]]);
        assert(join_words(seq![ws[0]]) == ws[0]);
        assert(join_words(seq![ws[1]]) == ws[1]);
        assert(join_words(ws) == join_words(ws.drop_last()) + seq![' '] + ws.last());
    } else {
        let a = ws.drop_last();
        let b = ws.drop_first();
        lemma_join_words_front(a);
        assert(a.drop_first() =~= b.drop_last());
        assert(b.last() == ws.last());
        assert(a[0] == ws[0]);
        assert(join_words(ws) == join_words(a) + seq![' '] + ws.last());
        assert(join_words(b) == join_words(b.drop_last()) + seq![' '] + b.last());
        assert(join_words(ws) =~= ws[0] + seq![' '] + join_words(b));
    }
}

/// Quoted words joined by spaces read back as the words.
proof fn lemma_read_joined(ws: Seq<Seq<char>>, words: Seq<Seq<char>>)
    requires
        ws.len() > 0,
    ensures
        shell_split(
            join_words(ws.map_values(|w: Seq<char>| shell_quoted(w))),
            false,
            Seq::empty(),
            false,
            words,
        ) == Some(words + ws),
    decreases ws.len(),
{
    let qs = ws.map_values(|w: Seq<char>| shell_quoted(w));
    if ws.len() == 1 {
        assert(join_words(qs) == shell_quoted(ws[0]));
        lemma_read_word(ws[0], Seq::empty(), Seq::empty(), false, words);
        assert(shell_quoted(ws[0]) + Seq::<char>::empty() =~= shell_quoted(ws[0]));
        assert(Seq::<char>::empty() + ws[0] =~= ws[0]);
        assert(words.push(ws[0]) =~= words + ws);
    } else {
        lemma_join_words_front(qs);
        let rest = join_words(qs.drop_first());
        assert(qs.drop_first() =~= ws.drop_first().map_values(|w: Seq<char>| shell_quoted(w)));
        lemma_read_word(ws[0], seq![' '] + rest, Seq::empty(), false, words);
        assert(shell_quoted(ws[0]) + (seq![' '] + rest) =~= qs[0] + seq![' '] + rest);
        assert(Seq::<char>::empty() + ws[0] =~= ws[0]);
        let sp = seq![' '] + rest;
        assert(sp[0] == ' ');
        assert(sp.drop_first() =~= rest);
        lemma_read_joined(ws.drop_first(), words.push(ws[0]));
        assert(words.push(ws[0]) + ws.drop_first() =~= words + ws);
    }
}

/// The remote shell reads the command line back as exactly the intended
/// `journalctl` words, whatever the unit names, `--since` value or cursor
/// hold.
pub proof fn lemma_command_line_reads_back(args: JournalArgs, cursor: Option<Seq<char>>)
    ensures
        shell_words(command_line(args, cursor)) == Some(command_words(args, cursor)),
{
    let ws = command_words(args, cursor);
    lemma_read_joined(ws, Seq::empty());
    assert(Seq::<Seq<char>>::empty() + ws =~= ws);
}

/// A known cursor decides where a session starts: the `--since` and
/// `--lines` settings then make no difference to the command.
pub proof fn lemma_cursor_overrides_start(args: JournalArgs, other: JournalArgs, c: Seq<char>)
    requires
        args.units@ == other.units@,
        args.priority == other.priority,
    ensures
        command_words(args, Some(c)) == command_words(other, Some(c)),
        command_words(args, Some(c)).last() == "--after-cursor="@ + c,
{
}

/// The arguments of the local `ssh` invocation for one session.
pub open spec fn ssh_argument_list(
    host: Seq<char>,
    args: JournalArgs,
    cursor: Option<Seq<char>>,
) -> Seq<Seq<char>> {
    seq![
        "-o"@,
        "BatchMode=yes"@,
        "-o"@,
        "ConnectTimeout="@ + decimal(CONNECT_TIMEOUT_SECS as nat),
        "-o"@,
        "ServerAliveInterval=15"@,
        "-o"@,
        "ServerAliveCountMax=3"@,
        "-T"@,
        host,
        command_line(args, cursor),
    ]
}

/// The arguments of the local `ssh` invocation that runs one session on
/// `host`: batch mode, a connect timeout, keep-alives, no terminal, then
/// the remote command.
pub fn ssh_arguments(host: &str, args: &JournalArgs, cursor: Option<&str>) -> (argv: Vec<String>)
    ensures
        argv@.map_values(|a: String| a@) == ssh_argument_list(host@, *args, opt_str(cursor)),
{
    let mut argv: Vec<String> = Vec::new();
    argv.push("-o".to_string());
    argv.push("BatchMode=yes".to_string());
    argv.push("-o".to_string());
    argv.push(prefixed_number("ConnectTimeout=", CONNECT_TIMEOUT_SECS as u64));
    argv.push("-o".to_string());
    argv.push("ServerAliveInterval=15".to_string());
    argv.push("-o".to_string());
    argv.push("ServerAliveCountMax=3".to_string());
    argv.push("-T".to_string());
    argv.push(host.to_string());
    argv.push(remote_command(args, cursor));
    assert(argv@.map_values(|a: String| a@) =~= ssh_argument_list(host@, *args, opt_str(cursor)));
    argv
}

/// The line handling of one ssh session: the cursor to resume from, how
/// many entries the session yielded, and when it started (local clock,
/// microseconds since the Unix epoch).
pub struct HostSession {
    pub cursor: Option<String>,
    pub received: u64,
    pub start_us: i64,
}

impl HostSession {
    /// A session started at `start_us` that resumes after `cursor`.
    pub fn begin(cursor: Option<String>, start_us: i64) -> (s: Self)
        ensures
            s.cursor == cursor,
            s.received == 0,
            s.start_us == start_us,
    {
        HostSession { cursor, received: 0, start_us }
    }

    /// Handles one line of `journalctl` output from `host`: a journal entry
    /// becomes an event, counts as received and moves the resume cursor to
    /// its own; anything else is skipped. Entries stamped before the
    /// session started are backlog, the rest is live.
    pub fn accept_line(&mut self, host: &str, line: &str) -> (ev: Option<Event>)
        requires
            old(self).received < u64::MAX,
        ensures
            final(self).start_us == old(self).start_us,
            match parsed_record(host@, line@) {
                None => {
                    &&& ev is None
                    &&& final(self).cursor == old(self).cursor
                    &&& final(self).received == old(self).received
                },
                Some(r) => {
                    &&& ev matches Some(Event::Entry { record, live }) && record@ == r && live == (
                    r.timestamp_us >= old(self).start_us)
                    &&& final(self).received == old(self).received + 1
                    &&& match r.cursor {
                        Some(c) => final(self).cursor matches Some(fc) && fc@ == c,
                        None => final(self).cursor == old(self).cursor,
                    }
                },
            },
    {
        let rec = match parse(host, line) {
            Some(r) => r,
            None => return None,
        };
        self.received = self.received + 1;
        match &rec.cursor {
            Some(c) => {
                self.cursor = Some(c.clone());
            },
            None => {},
        }
        let live = rec.timestamp_us >= self.start_us;
        Some(Event::Entry { record: rec, live })
    }
}

/// The reconnect schedule of one host: the pause before the next attempt,
/// in seconds, doubling after each failed attempt up to a ceiling.
pub struct Reconnect {
    backoff_secs: u64,
}

/// How a session ended: it yielded this many entries, or it could not run
/// (with the error's text).
pub enum SessionEnd {
    Finished(u64),
    Failed(String),
}

/// The notice for a session that ended as `end` while the pause is
/// `backoff` seconds, and the pause that applies.
pub open spec fn retry_plan(end: SessionEnd, backoff: u64) -> (Seq<char>, u64) {
    match end {
        SessionEnd::Finished(n) => if n == 0 {
            ("connection failed, retrying in "@ + decimal(backoff as nat) + "s"@, backoff)
        } else {
            ("connection lost, retrying in "@ + decimal(1) + "s"@, 1)
        },
        SessionEnd::Failed(e) => (e@ + ", retrying in "@ + decimal(backoff as nat) + "s"@, backoff),
    }
}

/// The pause after `secs`: twice as long, at most the ceiling.
pub open spec fn doubled(secs: u64) -> u64 {
    if secs * 2 > RECONNECT_MAX_SECS {
        RECONNECT_MAX_SECS
    } else {
        (secs * 2) as u64
    }
}

impl Reconnect {
    /// The pause, in seconds, before the next attempt.
    pub closed spec fn backoff(&self) -> u64 {
        self.backoff_secs
    }

    #[verifier::type_invariant]
    closed spec fn well_formed(&self) -> bool {
        1 <= self.backoff_secs <= RECONNECT_MAX_SECS
    }

    /// The schedule before the first attempt: one second.
    pub fn new() -> (r: Self)
        ensures
            r.backoff() == 1,
    {
        Reconnect { backoff_secs: 1 }
    }

    /// Plans the retry after a session ended as `end`: the notice to show
    /// and how many seconds to wait. A session that yielded entries resets
    /// the pause to one second; every retry then doubles it, up to thirty.
    pub fn after_session(&mut self, end: &SessionEnd) -> (plan: (String, u64))
        ensures
            plan.0@ == retry_plan(*end, old(self).backoff()).0,
            plan.1 == retry_plan(*end, old(self).backoff()).1,
            final(self).backoff() == doubled(plan.1),
            1 <= plan.1 <= RECONNECT_MAX_SECS,
    {
        proof {
            use_type_invariant(&*self);
        }
        let mut wait: u64 = self.backoff_secs;
        let mut text = String::new();
        match end {
            SessionEnd::Finished(n) => {
                if *n == 0 {
                    push_str(&mut text, "connection failed, retrying in ");
                } else {
                    wait = 1;
                    push_str(&mut text, "connection lost, retrying in ");
                }
            },
            SessionEnd::Failed(e) => {
                push_str(&mut text, e.as_str());
                push_str(&mut text, ", retrying in ");
            },
        }
        push_decimal(&mut text, wait);
        push_str(&mut text, "s");
        let next: u64 = if wait * 2 > RECONNECT_MAX_SECS {
            RECONNECT_MAX_SECS
        } else {
            wait * 2
        };
        *self = Reconnect { backoff_secs: next };
        (text, wait)
    }
}

/// Whether the reconnect pause stays between one second and the ceiling:
/// doubling never leaves that range.
pub proof fn lemma_backoff_bounded(secs: u64)
    requires
        1 <= secs <= RECONNECT_MAX_SECS,
    ensures
        1 <= doubled(secs) <= RECONNECT_MAX_SECS,
        doubled(secs) >= secs,
{
}

/// Which ssh diagnostics of one session are shown: the first few that are
/// not blank.
pub struct StderrGate {
    shown: usize,
}

impl StderrGate {
    /// How many diagnostics have been shown.
    pub closed spec fn shown(&self) -> usize {
        self.shown
    }

    #[verifier::type_invariant]
    closed spec fn well_formed(&self) -> bool {
        self.shown <= STDERR_LINES_SHOWN
    }

    pub fn new() -> (g: Self)
        ensures
            g.shown() == 0,
    {
        StderrGate { shown: 0 }
    }

    /// The notice for one line ssh wrote to its error stream, if it is to
    /// be shown.
    pub fn accept(&mut self, line: &str) -> (notice: Option<String>)
        ensures
            all_space(line@) || old(self).shown() >= STDERR_LINES_SHOWN ==> {
                &&& notice is None
                &&& final(self).shown() == old(self).shown()
            },
            !all_space(line@) && old(self).shown() < STDERR_LINES_SHOWN ==> {
                &&& notice matches Some(t) && t@ == "ssh: "@ + line@
                &&& final(self).shown() == old(self).shown() + 1
            },
            final(self).shown() <= STDERR_LINES_SHOWN,
    {
        proof {
            use_type_invariant(&*self);
        }
        if is_blank(line) || self.shown >= STDERR_LINES_SHOWN {
            return None;
        }
        *self = StderrGate { shown: self.shown + 1 };
        Some(prefixed("ssh: ", line))
    }
}

/// `std::time::SystemTime`, a reading of the system clock.
#[verifier::external_type_specification]
#[verifier::external_body]
pub struct ExSystemTime(std::time::SystemTime);

/// The current reading of the system clock (`SystemTime::now`). It depends
/// on the clock, so nothing is stated of it.
#[verifier::external_body]
fn system_now() -> std::time::SystemTime {
    std::time::SystemTime::now()
}

/// The seconds and nanoseconds from the Unix epoch to the reading `t`
/// (`SystemTime::duration_since(UNIX_EPOCH)`, then `as_secs` and
/// `subsec_nanos`), or `None` when `t` lies before the epoch. Stated: the
/// nanoseconds are below one second.
#[verifier::external_body]
fn since_unix_epoch(t: &std::time::SystemTime) -> (d: Option<(u64, u32)>)
    ensures
        d matches Some(p) ==> p.1 < 1_000_000_000,
{
    match t.duration_since(std::time::UNIX_EPOCH) {
        Ok(d) => Some((d.as_secs(), d.subsec_nanos())),
        Err(_) => None,
    }
}

/// Microseconds in the duration `secs` s + `nanos` ns, truncated to `i64`
/// as `as_micros() as i64` does.
pub open spec fn micros_of(secs: u64, nanos: u32) -> i64 {
    (secs * 1_000_000 + nanos / 1000) as i64
}

/// Microseconds since the Unix epoch for a clock reading, zero for a
/// reading before the epoch.
pub open spec fn reading_micros(reading: Option<(u64, u32)>) -> i64 {
    match reading {
        Some(p) => micros_of(p.0, p.1),
        None => 0,
    }
}

/// Microseconds since the Unix epoch for a clock reading, zero for a
/// reading before the epoch.
pub fn micros_since_epoch(reading: Option<(u64, u32)>) -> (us: i64)
    ensures
        us == reading_micros(reading),
{
    match reading {
        Some((secs, nanos)) => {
            let total: u128 = secs as u128 * 1_000_000 + (nanos / 1000) as u128;
            total as i64
        },
        None => 0,
    }
}

/// Current wall-clock time in microseconds since the Unix epoch, the unit
/// journald timestamps use.
pub fn unix_micros() -> (us: i64)
    ensures
        exists|reading: Option<(u64, u32)>| us == #[trigger] reading_micros(reading),
{
    let now = system_now();
    let reading = since_unix_epoch(&now);
    micros_since_epoch(reading)
}

} // verus!
