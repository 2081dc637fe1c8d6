//! Character-level helpers shared by the parsers and formatters.
//!
//! Everything here works on the `Seq<char>` view of strings, the same unit
//! that `str::chars` walks.

use vstd::prelude::*;
use vstd::std_specs::iter::IteratorSpec;
use vstd::string::StrSliceExecFns;
use vstd::string::StringExecFns;

verus! {

/// The Unicode `White_Space` property, which is what `char::is_whitespace`
/// and therefore `str::trim` test.
pub open spec fn is_space(c: char) -> bool {
    ||| ('\u{9}' <= c && c <= '\u{d}')
    ||| c == ' '
    ||| c == '\u{85}'
    ||| c == '\u{a0}'
    ||| c == '\u{1680}'
    ||| ('\u{2000}' <= c && c <= '\u{200a}')
    ||| c == '\u{2028}'
    ||| c == '\u{2029}'
    ||| c == '\u{202f}'
    ||| c == '\u{205f}'
    ||| c == '\u{3000}'
}

/// `s` without its leading white space.
pub open spec fn trim_start_seq(s: Seq<char>) -> Seq<char>
    decreases s.len(),
{
    if s.len() > 0 && is_space(s[0]) {
        trim_start_seq(s.drop_first())
    } else {
        s
    }
}

/// `s` without its trailing white space.
pub open spec fn trim_end_seq(s: Seq<char>) -> Seq<char>
    decreases s.len(),
{
    if s.len() > 0 && is_space(s.last()) {
        trim_end_seq(s.drop_last())
    } else {
        s
    }
}

/// `s` without leading and trailing white space, as `str::trim` gives it.
pub open spec fn trim_seq(s: Seq<char>) -> Seq<char> {
    trim_end_seq(trim_start_seq(s))
}

/// Whether every character of `s` is white space.
pub open spec fn all_space(s: Seq<char>) -> bool {
    forall|i: int| 0 <= i < s.len() ==> is_space(#[trigger] s[i])
}

/// `s` with every occurrence of `c` replaced by `r`.
pub open spec fn replace_char(s: Seq<char>, c: char, r: Seq<char>) -> Seq<char>
    decreases s.len(),
{
    if s.len() == 0 {
        Seq::empty()
    } else {
        replace_char(s.drop_last(), c, r) + (if s.last() == c {
            r
        } else {
            seq![s.last()]
        })
    }
}

/// `n` copies of the space character.
pub open spec fn spaces(n: nat) -> Seq<char> {
    Seq::new(n, |i: int| ' ')
}

/// `s` padded on the right with spaces to at least `width` characters, as
/// the `{:<width$}` format specification does.
pub open spec fn pad_right(s: Seq<char>, width: nat) -> Seq<char> {
    if s.len() < width {
        s + spaces((width - s.len()) as nat)
    } else {
        s
    }
}

/// Whether `s` ends with `suffix`.
pub open spec fn ends_with(s: Seq<char>, suffix: Seq<char>) -> bool {
    suffix.len() <= s.len() && s.skip(s.len() - suffix.len()) == suffix
}

/// `s` with `suffix` removed when it ends with it, as
/// `str::strip_suffix(..).unwrap_or(s)` gives it.
pub open spec fn strip_suffix_or_keep(s: Seq<char>, suffix: Seq<char>) -> Seq<char> {
    if ends_with(s, suffix) {
        s.take(s.len() - suffix.len())
    } else {
        s
    }
}

/// The character of the decimal digit `d`.
pub open spec fn digit_char(d: nat) -> char {
    ((d + 48) as u8) as char
}

/// The decimal representation of `n`, without sign or leading zeros.
pub open spec fn decimal(n: nat) -> Seq<char>
    decreases n,
{
    if n < 10 {
        seq![digit_char(n)]
    } else {
        decimal(n / 10).push(digit_char(n % 10))
    }
}

/// Appends one character to a string (`String::push`).
#[verifier::external_body]
pub(crate) fn push_char(s: &mut String, c: char)
    ensures
        final(s)@ == old(s)@.push(c),
{
    s.push(c);
}

/// Appends a string slice to a string.
pub fn push_str(s: &mut String, t: &str)
    ensures
        final(s)@ == old(s)@ + t@,
{
    s.append(t);
}

/// Collects the characters of `s` into a vector.
pub fn chars_of(s: &str) -> (v: Vec<char>)
    ensures
        v@ == s@,
{
    let mut v: Vec<char> = Vec::new();
    for c in it: s.chars()
        invariant
            v@ == it.seq().take(it.index() as int),
            it.seq() == s@,
    {
        v.push(c);
    }
    v
}

/// Whether `c` is white space, as `char::is_whitespace` decides.
pub fn is_whitespace(c: char) -> (b: bool)
    ensures
        b == is_space(c),
{
    ('\u{9}' <= c && c <= '\u{d}') || c == ' ' || c == '\u{85}' || c == '\u{a0}' || c
        == '\u{1680}' || ('\u{2000}' <= c && c <= '\u{200a}') || c == '\u{2028}' || c
        == '\u{2029}' || c == '\u{202f}' || c == '\u{205f}' || c == '\u{3000}'
}

proof fn lemma_trim_start_skip(s: Seq<char>, i: int)
    requires
        0 <= i < s.len(),
        is_space(s[i]),
    ensures
        trim_start_seq(s.skip(i)) == trim_start_seq(s.skip(i + 1)),
{
    assert(s.skip(i).drop_first() =~= s.skip(i + 1));
}

proof fn lemma_trim_end_take(s: Seq<char>, j: int)
    requires
        0 < j <= s.len(),
        is_space(s[j - 1]),
    ensures
        trim_end_seq(s.take(j)) == trim_end_seq(s.take(j - 1)),
{
    assert(s.take(j).drop_last() =~= s.take(j - 1));
}

/// `s` without leading and trailing white space (`str::trim`).
pub fn trim(s: &str) -> (t: &str)
    ensures
        t@ == trim_seq(s@),
{
    let v = chars_of(s);
    let n: usize = v.len();
    let mut i: usize = 0;
    assert(s@.skip(0) =~= s@);
    while i < n && is_whitespace(v[i])
        invariant
            v@ == s@,
            n == v.len(),
            i <= n,
            trim_start_seq(s@) == trim_start_seq(s@.skip(i as int)),
        decreases n - i,
    {
        proof {
            lemma_trim_start_skip(s@, i as int);
        }
        i = i + 1;
    }
    let ghost head = s@.skip(i as int);
    assert(trim_start_seq(head) == head) by {
        if head.len() > 0 {
            assert(head[0] == v@[i as int]);
        }
    }
    let mut j: usize = n;
    assert(head.take(head.len() as int) =~= head);
    while j > i && is_whitespace(v[j - 1])
        invariant
            v@ == s@,
            n == v.len(),
            i <= j <= n,
            head == s@.skip(i as int),
            trim_seq(s@) == trim_end_seq(head.take(j - i)),
        decreases j,
    {
        proof {
            assert(head[j - i - 1] == v@[j - 1]);
            lemma_trim_end_take(head, j - i);
        }
        j = j - 1;
    }
    let ghost kept = head.take(j - i);
    assert(trim_end_seq(kept) == kept) by {
        if kept.len() > 0 {
            assert(kept.last() == v@[j - 1]);
        }
    }
    assert(kept =~= s@.subrange(i as int, j as int));
    s.substring_char(i, j)
}

/// Whether `c` occurs in `s`.
pub fn contains_char(s: &str, c: char) -> (b: bool)
    ensures
        b == s@.contains(c),
{
    let v = chars_of(s);
    let mut i: usize = 0;
    while i < v.len()
        invariant
            v@ == s@,
            i <= v.len(),
            forall|k: int| 0 <= k < i ==> v@[k] != c,
        decreases v.len() - i,
    {
        if v[i] == c {
            assert(s@[i as int] == c);
            return true;
        }
        i = i + 1;
    }
    false
}

/// Whether every character of `s` is white space (`s.trim().is_empty()`).
pub fn is_blank(s: &str) -> (b: bool)
    ensures
        b == all_space(s@),
{
    let v = chars_of(s);
    let mut i: usize = 0;
    while i < v.len()
        invariant
            v@ == s@,
            i <= v.len(),
            forall|k: int| 0 <= k < i ==> is_space(#[trigger] v@[k]),
        decreases v.len() - i,
    {
        if !is_whitespace(v[i]) {
            return false;
        }
        i = i + 1;
    }
    true
}

/// Whether the two strings hold the same characters.
pub fn str_eq(a: &str, b: &str) -> (r: bool)
    ensures
        r == (a@ == b@),
{
    let x = chars_of(a);
    let y = chars_of(b);
    if x.len() != y.len() {
        return false;
    }
    let mut i: usize = 0;
    while i < x.len()
        invariant
            x@ == a@,
            y@ == b@,
            x.len() == y.len(),
            i <= x.len(),
            forall|k: int| 0 <= k < i ==> x@[k] == y@[k],
        decreases x.len() - i,
    {
        if x[i] != y[i] {
            return false;
        }
        i = i + 1;
    }
    assert(x@ =~= y@);
    true
}

/// Appends `t` with every `c` replaced by `r`.
pub fn push_replacing(out: &mut String, t: &str, c: char, r: &str)
    ensures
        final(out)@ == old(out)@ + replace_char(t@, c, r@),
{
    let v = chars_of(t);
    let ghost start = out@;
    let mut i: usize = 0;
    assert(t@.take(0) =~= Seq::<char>::empty());
    while i < v.len()
        invariant
            v@ == t@,
            i <= v.len(),
            out@ == start + replace_char(t@.take(i as int), c, r@),
        decreases v.len() - i,
    {
        let ghost before = out@;
        assert(t@.take(i + 1).drop_last() =~= t@.take(i as int));
        if v[i] == c {
            push_str(out, r);
        } else {
            push_char(out, v[i]);
        }
        assert(out@ =~= start + replace_char(t@.take(i + 1), c, r@));
        i = i + 1;
    }
    assert(t@.take(v.len() as int) =~= t@);
}

/// Appends `t` padded on the right with spaces to `width` characters.
pub fn push_padded(out: &mut String, t: &str, width: usize)
    ensures
        final(out)@ == old(out)@ + pad_right(t@, width as nat),
{
    let n: usize = t.unicode_len();
    push_str(out, t);
    let ghost base = out@;
    let mut k: usize = n;
    assert(spaces(0) =~= Seq::<char>::empty());
    while k < width
        invariant
            n == t@.len(),
            n <= k,
            k <= width || k == n,
            out@ == base + spaces((k - n) as nat),
        decreases width - k,
    {
        push_char(out, ' ');
        assert(spaces((k + 1 - n) as nat) =~= spaces((k - n) as nat).push(' '));
        k = k + 1;
    }
    assert(out@ =~= old(out)@ + pad_right(t@, width as nat));
}

/// Appends the decimal representation of `n`.
pub fn push_decimal(out: &mut String, n: u64)
    ensures
        final(out)@ == old(out)@ + decimal(n as nat),
    decreases n,
{
    if n >= 10 {
        push_decimal(out, n / 10);
    }
    let d: u8 = (n % 10) as u8;
    push_char(out, (d + 48) as char);
    assert(out@ =~= old(out)@ + decimal(n as nat));
}

/// `s` with `suffix` removed when it ends with it (`str::strip_suffix`).
pub fn strip_suffix_or_keep_str(s: &str, suffix: &str) -> (t: String)
    ensures
        t@ == strip_suffix_or_keep(s@, suffix@),
{
    let v = chars_of(s);
    let w = chars_of(suffix);
    if w.len() <= v.len() {
        let off: usize = v.len() - w.len();
        let mut i: usize = 0;
        let mut same = true;
        while i < w.len()
            invariant
                v@ == s@,
                w@ == suffix@,
                off == v.len() - w.len(),
                i <= w.len(),
                same == (forall|k: int| 0 <= k < i ==> v@[off + k] == w@[k]),
            decreases w.len() - i,
        {
            if v[off + i] != w[i] {
                same = false;
            }
            i = i + 1;
        }
        if same {
            assert(s@.skip(off as int) =~= suffix@);
            let kept = s.substring_char(0, off);
            return kept.to_string();
        } else {
            assert(!ends_with(s@, suffix@)) by {
                if ends_with(s@, suffix@) {
                    assert forall|k: int| 0 <= k < w.len() implies v@[off + k] == w@[k] by {
                        assert(s@.skip(off as int)[k] == s@[off + k]);
                    }
                }
            }
        }
    }
    s.to_string()
}

/// Replacing in a concatenation replaces in each part.
pub proof fn lemma_replace_char_concat(a: Seq<char>, b: Seq<char>, c: char, r: Seq<char>)
    ensures
        replace_char(a + b, c, r) == replace_char(a, c, r) + replace_char(b, c, r),
    decreases b.len(),
{
    if b.len() == 0 {
        assert(a + b =~= a);
        assert(replace_char(b, c, r) =~= Seq::<char>::empty());
        assert(replace_char(a, c, r) + replace_char(b, c, r) =~= replace_char(a, c, r));
    } else {
        assert((a + b).drop_last() =~= a + b.drop_last());
        assert((a + b).last() == b.last());
        lemma_replace_char_concat(a, b.drop_last(), c, r);
        let tail = if b.last() == c {
            r
        } else {
            seq![b.last()]
        };
        assert(replace_char(a + b, c, r) =~= replace_char(a, c, r) + replace_char(b.drop_last(), c, r)
            + tail);
    }
}

} // verus!
