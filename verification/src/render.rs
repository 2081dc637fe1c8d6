//! Terminal rendering of entries and notices.

use owo_colors::OwoColorize;
use vstd::prelude::*;
use vstd::string::StringSliceAdditionalSpecFns;
use vstd::utf8::encode_utf8;

use crate::record::{Record, RecordView};
use crate::strings::{
    decimal, digit_char, pad_right, push_char, push_padded, push_replacing, push_str,
    replace_char, strip_suffix_or_keep, strip_suffix_or_keep_str,
};

verus! {

/// `jiff::tz::TimeZone`, the zone clock times are shown in.
#[verifier::external_type_specification]
#[verifier::external_body]
pub struct ExTimeZone(jiff::tz::TimeZone);

/// `jiff::Timestamp`, an instant in time.
#[verifier::external_type_specification]
#[verifier::external_body]
pub struct ExTimestamp(jiff::Timestamp);

/// `jiff::Zoned`, an instant in time in a time zone.
#[verifier::external_type_specification]
#[verifier::external_body]
pub struct ExZoned(jiff::Zoned);

/// The terminal colors the renderer uses.
#[derive(Clone, Copy, PartialEq, Eq, Debug)]
pub enum Hue {
    Red,
    Green,
    Yellow,
    Blue,
    Magenta,
    Cyan,
    BrightGreen,
    BrightCyan,
}

/// The ANSI foreground code of a color.
pub open spec fn fg_code(h: Hue) -> nat {
    match h {
        Hue::Red => 31,
        Hue::Green => 32,
        Hue::Yellow => 33,
        Hue::Blue => 34,
        Hue::Magenta => 35,
        Hue::Cyan => 36,
        Hue::BrightGreen => 92,
        Hue::BrightCyan => 96,
    }
}

/// The escape character.
pub open spec fn esc() -> char {
    '\u{1b}'
}

/// `text` in the foreground color `h`, as owo-colors writes it.
pub open spec fn colored(text: Seq<char>, h: Hue) -> Seq<char> {
    seq![esc(), '['] + decimal(fg_code(h)) + seq!['m'] + text + seq![esc(), '[', '3', '9', 'm']
}

/// `text` dimmed, as owo-colors writes it.
pub open spec fn dimmed(text: Seq<char>) -> Seq<char> {
    seq![esc(), '[', '2', 'm'] + text + seq![esc(), '[', '0', 'm']
}

/// Renders `text` in the foreground color `hue` with owo-colors
/// (`OwoColorize::color` with the matching `AnsiColors`, then `to_string`).
/// Stated: the foreground escape, the text, then the foreground reset, as
/// the crate's `Display` impl writes them.
#[verifier::external_body]
fn ansi_colored(text: &str, hue: Hue) -> (res: String)
    ensures
        res@ == colored(text@, hue),
{
    let color = match hue {
        Hue::Red => owo_colors::AnsiColors::Red,
        Hue::Green => owo_colors::AnsiColors::Green,
        Hue::Yellow => owo_colors::AnsiColors::Yellow,
        Hue::Blue => owo_colors::AnsiColors::Blue,
        Hue::Magenta => owo_colors::AnsiColors::Magenta,
        Hue::Cyan => owo_colors::AnsiColors::Cyan,
        Hue::BrightGreen => owo_colors::AnsiColors::BrightGreen,
        Hue::BrightCyan => owo_colors::AnsiColors::BrightCyan,
    };
    text.color(color).to_string()
}

/// Renders `text` dimmed with owo-colors (`OwoColorize::dimmed`, then
/// `to_string`). Stated: the dim escape, the text, then the style reset.
#[verifier::external_body]
fn ansi_dimmed(text: &str) -> (res: String)
    ensures
        res@ == dimmed(text@),
{
    text.dimmed().to_string()
}

/// A time zone, with a model of its rules: for each instant, in
/// microseconds since the Unix epoch, the offset from UTC in seconds that
/// the zone applies then. The rules come from the machine, so nothing says
/// what the offsets are; the model fixes only that the zone applies one
/// offset to each instant.
struct Zone {
    tz: jiff::tz::TimeZone,
    offset: Ghost<spec_fn(i64) -> int>,
}

impl Zone {
    /// The offset from UTC, in seconds, that the zone applies at `us`.
    closed spec fn offset_at(&self, us: i64) -> int {
        (self.offset@)(us)
    }
}

/// The time zone of the system (`jiff::tz::TimeZone::system`). It depends
/// on the environment and the machine, so nothing is stated of its offsets.
#[verifier::external_body]
fn system_zone() -> Zone {
    Zone { tz: jiff::tz::TimeZone::system(), offset: Ghost(arbitrary()) }
}

/// The earliest microsecond `jiff::Timestamp` represents.
pub const TIMESTAMP_MIN_US: i64 = -377_705_023_201_000_000;

/// The latest microsecond `jiff::Timestamp` represents.
pub const TIMESTAMP_MAX_US: i64 = 253_402_207_200_000_000;

/// Whether `us` lies in the range `jiff::Timestamp` represents.
pub open spec fn in_clock_range(us: i64) -> bool {
    TIMESTAMP_MIN_US <= us <= TIMESTAMP_MAX_US
}

/// An instant as a `jiff::Timestamp`, with the microsecond since the Unix
/// epoch that it stands for.
struct Moment {
    ts: jiff::Timestamp,
    us: Ghost<i64>,
}

/// The instant `us` microseconds after the Unix epoch
/// (`jiff::Timestamp::from_microsecond`). Stated: it exists exactly within
/// `Timestamp::MIN..=Timestamp::MAX`, which jiff guarantees is the only
/// reason for an error, and then it is the instant `us`.
#[verifier::external_body]
fn timestamp_at(us: i64) -> (m: Option<Moment>)
    ensures
        m is Some <==> in_clock_range(us),
        m matches Some(x) ==> x.us@ == us,
{
    match jiff::Timestamp::from_microsecond(us) {
        Ok(ts) => Some(Moment { ts, us: Ghost(us) }),
        Err(_) => None,
    }
}

/// An instant in a time zone as a `jiff::Zoned`, with the instant, in
/// microseconds since the Unix epoch, and the zone's offset from UTC at it,
/// in seconds.
struct WallTime {
    z: jiff::Zoned,
    us: Ghost<i64>,
    offset: Ghost<int>,
}

/// The instant `m` in the zone `zone` (`jiff::Timestamp::to_zoned`).
/// Stated: it is the instant of `m`, with the offset that the zone applies
/// to that instant (jiff documents the offset as `TimeZone::to_offset` of
/// the timestamp).
#[verifier::external_body]
fn zoned_at(m: &Moment, zone: &Zone) -> (w: WallTime)
    ensures
        w.us@ == m.us@,
        w.offset@ == zone.offset_at(m.us@),
{
    WallTime {
        z: m.ts.to_zoned(zone.tz.clone()),
        us: Ghost(m.us@),
        offset: Ghost(zone.offset_at(m.us@)),
    }
}

/// The second of the day that the instant `us` falls in on a clock
/// `offset` seconds ahead of UTC.
pub open spec fn second_of_day(us: i64, offset: int) -> int {
    (us / 1_000_000 + offset) % 86400
}

/// `n`, below one hundred, as two decimal digits.
pub open spec fn two_digits(n: int) -> Seq<char> {
    seq![digit_char((n / 10) as nat), digit_char((n % 10) as nat)]
}

/// The second of the day `s` as `HH:MM:SS`.
pub open spec fn clock_text(s: int) -> Seq<char> {
    two_digits(s / 3600) + seq![':'] + two_digits((s / 60) % 60) + seq![':'] + two_digits(s % 60)
}

/// Whether `t` has the shape `HH:MM:SS` with decimal digits, the hour
/// from 00 to 23 and the minute and second from 00 to 59.
pub open spec fn clock_shaped(t: Seq<char>) -> bool {
    &&& t.len() == 8
    &&& t[2] == ':' && t[5] == ':'
    &&& forall|i: int|
        0 <= i < 8 && i != 2 && i != 5 ==> '0' <= #[trigger] t[i] && t[i] <= '9'
    &&& t[0] <= '2'
    &&& t[0] == '2' ==> t[1] <= '3'
    &&& t[3] <= '5'
    &&& t[6] <= '5'
}

/// The wall-clock time of `w` as `%H:%M:%S` (`jiff::Zoned::strftime`, then
/// `to_string`). Stated: the hour, minute and second of its civil time,
/// which jiff computes as the instant plus the zone's offset, each as two
/// zero-padded digits, separated by colons.
#[verifier::external_body]
fn clock_of(w: &WallTime) -> (t: String)
    ensures
        t@ == clock_text(second_of_day(w.us@, w.offset@)),
{
    w.z.strftime("%H:%M:%S").to_string()
}

/// The millisecond within the second of `us`, as three digits.
pub open spec fn millis_digits(us: i64) -> Seq<char> {
    let m = (us % 1_000_000) / 1000;
    seq![digit_char((m / 100) as nat), digit_char(((m / 10) % 10) as nat), digit_char((m % 10) as nat)]
}

/// The text shown for a time that has no clock reading.
pub open spec fn unknown_time() -> Seq<char> {
    seq!['?', '?', ':', '?', '?', ':', '?', '?', '.', '?', '?', '?']
}

/// How the time `us` is shown on a clock `offset` seconds ahead of UTC:
/// the wall-clock time and the milliseconds, or question marks when `us` is
/// outside the clock's range.
pub open spec fn shown_time(us: i64, offset: int) -> Seq<char> {
    if in_clock_range(us) {
        clock_text(second_of_day(us, offset)) + seq!['.'] + millis_digits(us)
    } else {
        unknown_time()
    }
}

/// Two decimal digits of `n` below one hundred.
proof fn lemma_two_digits(n: int)
    requires
        0 <= n < 100,
    ensures
        two_digits(n).len() == 2,
        two_digits(n)[0] == digit_char((n / 10) as nat),
        two_digits(n)[1] == digit_char((n % 10) as nat),
        '0' <= two_digits(n)[0] <= '9',
        '0' <= two_digits(n)[1] <= '9',
        two_digits(n)[0] as int == '0' as int + n / 10,
{
}

/// Every time the renderer shows within the clock's range reads
/// `HH:MM:SS.mmm`: an hour from 00 to 23, a minute and a second from 00 to
/// 59, a dot and three digits of milliseconds, whatever the zone's offset.
pub proof fn lemma_shown_time_shape(us: i64, offset: int)
    requires
        in_clock_range(us),
    ensures
        shown_time(us, offset).len() == 12,
        clock_shaped(shown_time(us, offset).take(8)),
        shown_time(us, offset)[8] == '.',
        shown_time(us, offset).skip(9) == millis_digits(us),
{
    let s = second_of_day(us, offset);
    assert(0 <= s < 86400);
    assert(0 <= s / 3600 < 24);
    assert(0 <= (s / 60) % 60 < 60);
    assert(0 <= s % 60 < 60);
    lemma_two_digits(s / 3600);
    lemma_two_digits((s / 60) % 60);
    lemma_two_digits(s % 60);
    let t = shown_time(us, offset);
    let c = clock_text(s);
    assert(t.take(8) =~= c);
    assert(t.skip(9) =~= millis_digits(us));
    assert(c[0] == two_digits(s / 3600)[0]);
    assert(c[1] == two_digits(s / 3600)[1]);
    assert(c[3] == two_digits((s / 60) % 60)[0]);
    assert(c[4] == two_digits((s / 60) % 60)[1]);
    assert(c[6] == two_digits(s % 60)[0]);
    assert(c[7] == two_digits(s % 60)[1]);
    assert(c[0] == '2' ==> s / 3600 / 10 == 2);
    assert(s / 3600 / 10 == 2 ==> s / 3600 % 10 <= 3);
}

/// How a message is shown by severity: with coloring off it is only
/// indented; with coloring on, err and more severe (0 to 3) are red,
/// warning (4) yellow, debug (7) dim, and notice, info and unlabeled
/// messages (5, 6, none) keep their plain text.
pub proof fn lemma_message_colors_follow_severity(r: RecordView)
    ensures
        shown_message(false, r) == indented(r.message),
        r.priority matches Some(p) && p <= 3 ==> shown_message(true, r) == colored(
            indented(r.message),
            Hue::Red,
        ),
        r.priority == Some(4u8) ==> shown_message(true, r) == colored(
            indented(r.message),
            Hue::Yellow,
        ),
        r.priority == Some(7u8) ==> shown_message(true, r) == dimmed(indented(r.message)),
        (r.priority is None || r.priority == Some(5u8) || r.priority == Some(6u8))
            ==> shown_message(true, r) == indented(r.message),
{
}

/// Replacing a character that does not occur changes nothing.
proof fn lemma_replace_absent(s: Seq<char>, c: char, r: Seq<char>)
    requires
        !s.contains(c),
    ensures
        replace_char(s, c, r) == s,
    decreases s.len(),
{
    if s.len() > 0 {
        assert(!s.drop_last().contains(c)) by {
            if s.drop_last().contains(c) {
                let i = choose|i: int| 0 <= i < s.drop_last().len() && s.drop_last()[i] == c;
                assert(s[i] == c);
            }
        }
        lemma_replace_absent(s.drop_last(), c, r);
        assert(s.last() != c) by {
            assert(s[s.len() - 1] == s.last());
        }
        assert(s.drop_last().push(s.last()) =~= s);
    }
}

/// A one-line message is shown as it is; in a multi-line message every line
/// after the first is indented by four spaces, and the lines themselves are
/// kept.
pub proof fn lemma_continuation_lines_indented(first: Seq<char>, rest: Seq<char>)
    ensures
        !first.contains('\n') ==> indented(first) == first,
        !first.contains('\n') && !rest.contains('\n') ==> indented(first + seq!['\n'] + rest)
            == first + seq!['\n', ' ', ' ', ' ', ' '] + rest,
{
    reveal_strlit("\n    ");
    if !first.contains('\n') {
        lemma_replace_absent(first, '\n', "\n    "@);
        if !rest.contains('\n') {
            lemma_replace_absent(rest, '\n', "\n    "@);
            crate::strings::lemma_replace_char_concat(first, seq!['\n'], '\n', "\n    "@);
            crate::strings::lemma_replace_char_concat(first + seq!['\n'], rest, '\n', "\n    "@);
            assert(replace_char(seq!['\n'], '\n', "\n    "@) =~= "\n    "@) by {
                let one = seq!['\n'];
                assert(one.drop_last() =~= Seq::<char>::empty());
                assert(one.last() == '\n');
                assert(replace_char(Seq::<char>::empty(), '\n', "\n    "@) =~= Seq::<char>::empty());
                assert(replace_char(one, '\n', "\n    "@) == replace_char(one.drop_last(), '\n', "\n    "@)
                    + "\n    "@);
                assert(Seq::<char>::empty() + "\n    "@ =~= "\n    "@);
            }
            assert("\n    "@ =~= seq!['\n', ' ', ' ', ' ', ' ']);
        }
    }
}

/// A unit is shown without a `.service` suffix; a unit of any other type
/// is shown with its full name.
pub proof fn lemma_service_suffix_hidden(name: Seq<char>, u: Seq<char>)
    ensures
        shown_unit(name + ".service"@) == name,
        !crate::strings::ends_with(u, ".service"@) ==> shown_unit(u) == u,
{
    reveal_strlit(".service");
    let s = name + ".service"@;
    assert(s.skip(s.len() - 8) =~= ".service"@);
    assert(s.take(s.len() - 8) =~= name);
}

/// The host column starts with the host name and is padded with spaces to
/// the width, never cutting a longer name.
pub proof fn lemma_host_column(host: Seq<char>, width: nat)
    ensures
        pad_right(host, width).take(host.len() as int) == host,
        pad_right(host, width).len() == if host.len() < width {
            width
        } else {
            host.len()
        },
        forall|i: int|
            host.len() <= i < pad_right(host, width).len() ==> #[trigger] pad_right(host, width)[i]
                == ' ',
{
    let p = pad_right(host, width);
    assert(p.take(host.len() as int) =~= host);
    if host.len() < width {
        assert forall|i: int| host.len() <= i < p.len() implies #[trigger] p[i] == ' ' by {
            assert(p[i] == crate::strings::spaces((width - host.len()) as nat)[i - host.len()]);
        }
    }
}

/// The palette hosts are colored from.
pub open spec fn host_palette() -> Seq<Hue> {
    seq![Hue::Cyan, Hue::Green, Hue::Magenta, Hue::Blue, Hue::BrightCyan, Hue::BrightGreen]
}

/// The hash of a host name's bytes: `acc * 31 + b` for each byte, wrapping
/// at the width of `usize`.
pub open spec fn host_hash(bytes: Seq<u8>) -> usize
    decreases bytes.len(),
{
    if bytes.len() == 0 {
        0
    } else {
        vstd::wrapping::usize_specs::wrapping_add(
            vstd::wrapping::usize_specs::wrapping_mul(host_hash(bytes.drop_last()), 31),
            bytes.last() as usize,
        )
    }
}

/// The color of a host: a palette entry picked by the hash of its name.
pub open spec fn host_hue(host: Seq<char>) -> Hue {
    host_palette()[(host_hash(encode_utf8(host)) % 6) as int]
}

/// A unit name as shown: without a `.service` suffix.
pub open spec fn shown_unit(unit: Seq<char>) -> Seq<char> {
    strip_suffix_or_keep(unit, ".service"@)
}

/// `message` with continuation lines indented under the first line.
pub open spec fn indented(message: Seq<char>) -> Seq<char> {
    replace_char(message, '\n', "\n    "@)
}

/// `text` in color `h` when coloring is on.
pub open spec fn paint_text(color: bool, text: Seq<char>, h: Hue) -> Seq<char> {
    if color {
        colored(text, h)
    } else {
        text
    }
}

/// The message of `r` as shown: indented, colored by priority when
/// coloring is on (red for err and above, yellow for warning, dim for debug).
pub open spec fn shown_message(color: bool, r: RecordView) -> Seq<char> {
    let text = indented(r.message);
    if !color {
        text
    } else {
        match r.priority {
            Some(p) => if p <= 3 {
                colored(text, Hue::Red)
            } else if p == 4 {
                colored(text, Hue::Yellow)
            } else if p == 7 {
                dimmed(text)
            } else {
                text
            },
            None => text,
        }
    }
}

/// Where an entry came from, as shown: `unit[pid]`, `unit`, or `-`.
pub open spec fn shown_source(r: RecordView) -> Seq<char> {
    match r.unit {
        Some(u) => match r.pid {
            Some(p) => shown_unit(u) + seq!['['] + p + seq![']'],
            None => shown_unit(u),
        },
        None => seq!['-'],
    }
}

/// The line for entry `r` whose time is shown as `time`.
pub open spec fn entry_text(color: bool, width: nat, time: Seq<char>, r: RecordView) -> Seq<
    char,
> {
    time + seq![' '] + paint_text(color, pad_right(r.host, width), host_hue(r.host)) + seq![' ']
        + shown_source(r) + seq![':', ' '] + shown_message(color, r)
}

/// The line for a notice about `host` whose time is shown as `time`.
pub open spec fn notice_text(color: bool, time: Seq<char>, host: Seq<char>, text: Seq<char>) -> Seq<
    char,
> {
    let line = time + " --- "@ + host + ": "@ + text + " ---"@;
    if color {
        dimmed(line)
    } else {
        line
    }
}

/// The widest host name, in bytes (`str::len`, as a `usize`).
pub open spec fn widest(hosts: Seq<String>) -> nat
    decreases hosts.len(),
{
    if hosts.len() == 0 {
        0
    } else {
        let w = (encode_utf8(hosts.last()@).len() as usize) as nat;
        let rest = widest(hosts.drop_last());
        if w > rest {
            w
        } else {
            rest
        }
    }
}

/// Formats entries as `HH:MM:SS.mmm host unit[pid]: message`.
///
/// A host keeps one stable color derived from its name, so the same fleet
/// looks the same across runs. Message coloring follows priority: red for
/// err and above, yellow for warning, dim for debug. Continuation lines of
/// multi-line messages (stack traces) stay indented under their first line.
pub struct Renderer {
    color: bool,
    host_width: usize,
    zone: Zone,
}

impl Renderer {
    /// Whether output is colored.
    pub closed spec fn color(&self) -> bool {
        self.color
    }

    /// The width host names are padded to.
    pub closed spec fn host_width(&self) -> nat {
        self.host_width as nat
    }

    /// The offset from UTC, in seconds, that the renderer's time zone
    /// applies at the instant `us`. The zone is the machine's, so its
    /// offsets are not stated; each instant has one.
    pub closed spec fn offset_at(&self, us: i64) -> int {
        self.zone.offset_at(us)
    }

    pub fn new(color: bool, hosts: &[String]) -> (r: Self)
        ensures
            r.color() == color,
            r.host_width() == widest(hosts@),
    {
        let mut width: usize = 0;
        let mut i: usize = 0;
        while i < hosts.len()
            invariant
                i <= hosts@.len(),
                width == widest(hosts@.take(i as int)),
            decreases hosts@.len() - i,
        {
            assert(hosts@.take(i + 1).drop_last() =~= hosts@.take(i as int));
            let h = hosts[i].as_str();
            let w: usize = h.len();
            assert(h@ == hosts@[i as int]@);
            assert(h.spec_bytes() == encode_utf8(h@));
            if w > width {
                width = w;
            }
            i = i + 1;
        }
        assert(hosts@.take(hosts@.len() as int) =~= hosts@);
        Renderer { color, host_width: width, zone: system_zone() }
    }

    /// Appends the time `us` as `HH:MM:SS.mmm`, in the renderer's zone.
    fn push_time(&self, out: &mut String, us: i64)
        ensures
            final(out)@ == old(out)@ + shown_time(us, self.offset_at(us)),
    {
        let ghost start = out@;
        match timestamp_at(us) {
            None => {
                push_str(out, "??:??:??.???");
                proof {
                    reveal_strlit("??:??:??.???");
                    assert(out@ =~= start + unknown_time());
                }
            },
            Some(ts) => {
                let zoned = zoned_at(&ts, &self.zone);
                let clock = clock_of(&zoned);
                push_str(out, clock.as_str());
                push_char(out, '.');
                let m: u64 = millis_of(us);
                push_char(out, ((m / 100) as u8 + 48) as char);
                push_char(out, (((m / 10) % 10) as u8 + 48) as char);
                push_char(out, ((m % 10) as u8 + 48) as char);
                proof {
                    assert(out@ =~= start + shown_time(us, self.offset_at(us)));
                }
            },
        }
    }

    /// The time `us` as `HH:MM:SS.mmm` in the renderer's zone, or question
    /// marks when it is outside the range of the clock.
    pub fn format_time(&self, us: i64) -> (t: String)
        ensures
            t@ == shown_time(us, self.offset_at(us)),
    {
        let mut t = String::new();
        self.push_time(&mut t, us);
        assert(t@ =~= Seq::<char>::empty() + t@);
        t
    }

    /// The line for `record` with its time shown as `time`.
    pub fn entry_line(&self, time: &str, record: &Record) -> (line: String)
        ensures
            line@ == entry_text(self.color(), self.host_width(), time@, record@),
    {
        let mut line = time.to_string();
        self.push_entry_rest(&mut line, record);
        line
    }

    /// Appends everything of an entry's line after its time.
    fn push_entry_rest(&self, out: &mut String, record: &Record)
        ensures
            final(out)@ == old(out)@ + entry_text(self.color(), self.host_width(), Seq::empty(), record@),
    {
        let ghost start = out@;
        push_char(out, ' ');
        let mut host = String::new();
        push_padded(&mut host, record.host.as_str(), self.host_width);
        assert(host@ =~= pad_right(record.host@, self.host_width as nat));
        let hue = host_color(record.host.as_str());
        if self.color {
            let painted = ansi_colored(host.as_str(), hue);
            push_str(out, painted.as_str());
        } else {
            push_str(out, host.as_str());
        }
        push_char(out, ' ');
        let ghost before_source = out@;
        match &record.unit {
            Some(unit) => {
                let shown = trim_unit(unit.as_str());
                push_str(out, shown.as_str());
                match &record.pid {
                    Some(pid) => {
                        push_char(out, '[');
                        push_str(out, pid.as_str());
                        push_char(out, ']');
                    },
                    None => {},
                }
            },
            None => {
                push_char(out, '-');
            },
        }
        assert(out@ =~= before_source + shown_source(record@));
        push_char(out, ':');
        push_char(out, ' ');
        let message = self.paint_message(record);
        push_str(out, message.as_str());
        assert(out@ =~= start + entry_text(
            self.color(),
            self.host_width(),
            Seq::empty(),
            record@,
        ));
    }

    /// The line for `record`: its time, host, source and message.
    pub fn entry(&self, record: &Record) -> (line: String)
        ensures
            line@ == entry_text(
                self.color(),
                self.host_width(),
                shown_time(record.timestamp_us, self.offset_at(record.timestamp_us)),
                record@,
            ),
    {
        let mut line = String::new();
        self.push_time(&mut line, record.timestamp_us);
        let ghost t = line@;
        self.push_entry_rest(&mut line, record);
        assert(line@ =~= entry_text(self.color(), self.host_width(), t, record@));
        line
    }

    /// The line for a notice about `host` with its time shown as `time`.
    pub fn notice_line(&self, time: &str, host: &str, text: &str) -> (line: String)
        ensures
            line@ == notice_text(self.color(), time@, host@, text@),
    {
        let mut line = time.to_string();
        push_str(&mut line, " --- ");
        push_str(&mut line, host);
        push_str(&mut line, ": ");
        push_str(&mut line, text);
        push_str(&mut line, " ---");
        if self.color {
            ansi_dimmed(line.as_str())
        } else {
            line
        }
    }

    /// The line for a notice about `host`, stamped `at_us`.
    pub fn notice(&self, at_us: i64, host: &str, text: &str) -> (line: String)
        ensures
            line@ == notice_text(
                self.color(),
                shown_time(at_us, self.offset_at(at_us)),
                host@,
                text@,
            ),
    {
        let time = self.format_time(at_us);
        self.notice_line(time.as_str(), host, text)
    }

    /// The message of `record`, indented and colored by priority.
    fn paint_message(&self, record: &Record) -> (m: String)
        ensures
            m@ == shown_message(self.color(), record@),
    {
        let text = indent_continuations(record.message.as_str());
        if !self.color {
            return text;
        }
        match record.priority {
            Some(p) => {
                if p <= 3 {
                    ansi_colored(text.as_str(), Hue::Red)
                } else if p == 4 {
                    ansi_colored(text.as_str(), Hue::Yellow)
                } else if p == 7 {
                    ansi_dimmed(text.as_str())
                } else {
                    text
                }
            },
            None => text,
        }
    }

    /// `text` in color `hue` when coloring is on.
    pub fn paint(&self, text: &str, hue: Hue) -> (s: String)
        ensures
            s@ == paint_text(self.color(), text@, hue),
    {
        if self.color {
            ansi_colored(text, hue)
        } else {
            text.to_string()
        }
    }
}

/// The millisecond within the second of `us`.
fn millis_of(us: i64) -> (m: u64)
    ensures
        m == (us % 1_000_000) / 1000,
        m < 1000,
{
    let r: u64 = if us >= 0 {
        (us as u64) % 1_000_000
    } else {
        let a: u64 = (0i128 - us as i128) as u64;
        let rem: u64 = a % 1_000_000;
        proof {
            let n: int = 1_000_000;
            let q = a as int / n;
            vstd::arithmetic::div_mod::lemma_fundamental_div_mod(a as int, n);
            if rem == 0 {
                vstd::arithmetic::div_mod::lemma_fundamental_div_mod_converse(us as int, n, -q, 0);
            } else {
                vstd::arithmetic::div_mod::lemma_fundamental_div_mod_converse(
                    us as int,
                    n,
                    -q - 1,
                    n - rem,
                );
            }
        }
        if rem == 0 {
            0
        } else {
            1_000_000 - rem
        }
    };
    r / 1000
}

/// Picks a stable palette color from the host name.
pub fn host_color(host: &str) -> (h: Hue)
    ensures
        h == host_hue(host@),
{
    let bytes = host.as_bytes();
    let mut hash: usize = 0;
    let mut i: usize = 0;
    assert(bytes@.take(0) =~= Seq::<u8>::empty());
    while i < bytes.len()
        invariant
            bytes@ == encode_utf8(host@),
            i <= bytes@.len(),
            hash == host_hash(bytes@.take(i as int)),
        decreases bytes@.len() - i,
    {
        assert(bytes@.take(i + 1).drop_last() =~= bytes@.take(i as int));
        hash = hash.wrapping_mul(31).wrapping_add(bytes[i] as usize);
        i = i + 1;
    }
    assert(bytes@.take(bytes@.len() as int) =~= bytes@);
    let k: usize = hash % 6;
    if k == 0 {
        Hue::Cyan
    } else if k == 1 {
        Hue::Green
    } else if k == 2 {
        Hue::Magenta
    } else if k == 3 {
        Hue::Blue
    } else if k == 4 {
        Hue::BrightCyan
    } else {
        Hue::BrightGreen
    }
}

/// Drops the `.service` suffix; every other unit type stays visible.
pub fn trim_unit(unit: &str) -> (s: String)
    ensures
        s@ == shown_unit(unit@),
{
    strip_suffix_or_keep_str(unit, ".service")
}

/// Indents continuation lines of a multi-line message under its first
/// line.
pub fn indent_continuations(message: &str) -> (s: String)
    ensures
        s@ == indented(message@),
{
    let mut s = String::new();
    push_replacing(&mut s, message, '\n', "\n    ");
    assert(s@ =~= indented(message@));
    s
}

} // verus!
