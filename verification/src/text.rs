//! Numbers, addresses and times of day as text.

use vstd::prelude::*;
use vstd::string::{StrSliceExecFns, StringExecFns};

verus! {

/// The character of a decimal digit.
pub open spec fn digit(d: nat) -> char {
    ('0' as u8 + d) as char
}

/// A number in decimal digits, without leading zeros.
pub open spec fn decimal(n: nat) -> Seq<char>
    decreases n,
{
    if n < 10 {
        seq![digit(n)]
    } else {
        decimal(n / 10).push(digit(n % 10))
    }
}

/// The last two decimal digits of a number.
pub open spec fn two_digits(n: nat) -> Seq<char> {
    seq![digit(n / 10 % 10), digit(n % 10)]
}

/// An IPv4 address in dotted decimal form.
pub open spec fn ip_text(ip: Seq<u8>) -> Seq<char> {
    decimal(ip[0] as nat) + "."@ + decimal(ip[1] as nat) + "."@ + decimal(ip[2] as nat) + "."@
        + decimal(ip[3] as nat)
}

/// The time of day, in hours, minutes and seconds, `secs` seconds after midnight
/// of some day.
pub open spec fn clock_text(secs: nat) -> Seq<char> {
    two_digits(secs / 3600 % 24) + ":"@ + two_digits(secs / 60 % 60) + ":"@ + two_digits(secs % 60)
}

/// What a list of strings says.
pub open spec fn texts(list: Seq<String>) -> Seq<Seq<char>> {
    list.map_values(|t: String| t@)
}

/// Whether a character is white space.
pub open spec fn is_white(c: char) -> bool {
    ||| '\u{9}' <= c <= '\u{d}'
    ||| c == ' '
    ||| c == '\u{85}'
    ||| c == '\u{a0}'
    ||| c == '\u{1680}'
    ||| '\u{2000}' <= c <= '\u{200a}'
    ||| c == '\u{2028}'
    ||| c == '\u{2029}'
    ||| c == '\u{202f}'
    ||| c == '\u{205f}'
    ||| c == '\u{3000}'
}

/// A text without the white space that it begins with.
pub open spec fn trimmed_start(s: Seq<char>) -> Seq<char>
    decreases s.len(),
{
    if s.len() > 0 && is_white(s[0]) {
        trimmed_start(s.skip(1))
    } else {
        s
    }
}

/// A text without the white space that it ends with.
pub open spec fn trimmed_end(s: Seq<char>) -> Seq<char>
    decreases s.len(),
{
    if s.len() > 0 && is_white(s.last()) {
        trimmed_end(s.drop_last())
    } else {
        s
    }
}

/// A text without white space around it.
pub open spec fn trimmed(s: Seq<char>) -> Seq<char> {
    trimmed_end(trimmed_start(s))
}

fn is_white_space(c: char) -> (r: bool)
    ensures
        r == is_white(c),
{
    ('\u{9}' <= c && c <= '\u{d}') || c == ' ' || c == '\u{85}' || c == '\u{a0}' || c == '\u{1680}'
        || ('\u{2000}' <= c && c <= '\u{200a}') || c == '\u{2028}' || c == '\u{2029}' || c
        == '\u{202f}' || c == '\u{205f}' || c == '\u{3000}'
}

/// A text without white space around it.
pub fn trim(text: &str) -> (r: &str)
    ensures
        r@ == trimmed(text@),
{
    let n: usize = text.unicode_len();
    let mut from: usize = 0;
    assert(text@.skip(0) =~= text@);
    while from < n && is_white_space(text.get_char(from))
        invariant
            n == text@.len(),
            0 <= from <= n,
            trimmed_start(text@) == trimmed_start(text@.skip(from as int)),
        decreases n - from,
    {
        assert(text@.skip(from as int).skip(1) =~= text@.skip(from + 1));
        from = from + 1;
    }
    let ghost rest = text@.skip(from as int);
    assert(trimmed_start(text@) == rest);
    let mut to: usize = n;
    assert(rest.take(to - from) =~= rest);
    while from < to && is_white_space(text.get_char((to - 1) as usize))
        invariant
            n == text@.len(),
            0 <= from <= to <= n,
            rest == text@.skip(from as int),
            trimmed_end(rest) == trimmed_end(rest.take(to - from)),
        decreases to,
    {
        assert(rest.take(to - from).drop_last() =~= rest.take(to - from - 1));
        to = to - 1;
    }
    assert(rest.take(to - from) =~= text@.subrange(from as int, to as int));
    text.substring_char(from, to)
}

/// Trimming leaves nothing to trim, and takes nothing from a text that neither
/// begins nor ends with white space.
pub proof fn lemma_trimmed(s: Seq<char>)
    ensures
        trimmed(s).len() > 0 ==> !is_white(trimmed(s)[0]) && !is_white(trimmed(s).last()),
        s.len() > 0 && !is_white(s[0]) && !is_white(s.last()) ==> trimmed(s) == s,
{
    lemma_trimmed_start(s);
    lemma_trimmed_end(trimmed_start(s));
}

proof fn lemma_trimmed_start(s: Seq<char>)
    ensures
        trimmed_start(s).len() > 0 ==> !is_white(trimmed_start(s)[0]),
    decreases s.len(),
{
    if s.len() > 0 && is_white(s[0]) {
        lemma_trimmed_start(s.skip(1));
    }
}

proof fn lemma_trimmed_end(s: Seq<char>)
    ensures
        trimmed_end(s).len() > 0 ==> !is_white(trimmed_end(s).last()) && trimmed_end(s)[0] == s[0],
    decreases s.len(),
{
    if s.len() > 0 && is_white(s.last()) {
        lemma_trimmed_end(s.drop_last());
    }
}

/// Appends a decimal digit.
fn push_digit(out: &mut String, d: u64)
    requires
        d < 10,
    ensures
        final(out)@ == old(out)@.push(digit(d as nat)),
{
    proof {
        reveal_strlit("0");
        reveal_strlit("1");
        reveal_strlit("2");
        reveal_strlit("3");
        reveal_strlit("4");
        reveal_strlit("5");
        reveal_strlit("6");
        reveal_strlit("7");
        reveal_strlit("8");
        reveal_strlit("9");
    }
    let text: &str = match d {
        0 => "0",
        1 => "1",
        2 => "2",
        3 => "3",
        4 => "4",
        5 => "5",
        6 => "6",
        7 => "7",
        8 => "8",
        _ => "9",
    };
    assert(text@ =~= seq![digit(d as nat)]);
    out.append(text);
    assert(out@ =~= old(out)@.push(digit(d as nat)));
}

/// Appends a number in decimal digits.
pub fn push_decimal(out: &mut String, n: u64)
    ensures
        final(out)@ == old(out)@ + decimal(n as nat),
    decreases n,
{
    if n < 10 {
        push_digit(out, n);
        assert(out@ =~= old(out)@ + decimal(n as nat));
    } else {
        push_decimal(out, n / 10);
        push_digit(out, n % 10);
        assert(out@ =~= old(out)@ + decimal(n as nat));
    }
}

/// Appends the last two decimal digits of a number.
fn push_two_digits(out: &mut String, n: u64)
    ensures
        final(out)@ == old(out)@ + two_digits(n as nat),
{
    push_digit(out, n / 10 % 10);
    push_digit(out, n % 10);
    assert(out@ =~= old(out)@ + two_digits(n as nat));
}

/// Appends an IPv4 address in dotted decimal form.
pub fn push_ip(out: &mut String, ip: &[u8; 4])
    ensures
        final(out)@ == old(out)@ + ip_text(ip@),
{
    push_decimal(out, ip[0] as u64);
    out.append(".");
    push_decimal(out, ip[1] as u64);
    out.append(".");
    push_decimal(out, ip[2] as u64);
    out.append(".");
    push_decimal(out, ip[3] as u64);
    assert(out@ =~= old(out)@ + ip_text(ip@));
}

/// The time of day, in hours, minutes and seconds, `secs` seconds after midnight
/// of some day.
pub fn now_iso(secs: u64) -> (text: String)
    ensures
        text@ == clock_text(secs as nat),
{
    let mut out = String::new();
    push_two_digits(&mut out, secs / 3600 % 24);
    out.append(":");
    push_two_digits(&mut out, secs / 60 % 60);
    out.append(":");
    push_two_digits(&mut out, secs % 60);
    assert(out@ =~= clock_text(secs as nat));
    out
}

/// White space in front of a text or behind it is trimmed away.
pub proof fn lemma_space_around(s: Seq<char>, before: char, after: char)
    requires
        is_white(before),
        is_white(after),
    ensures
        trimmed(seq![before] + s) == trimmed(s),
        trimmed(s.push(after)) == trimmed(s),
    decreases s.len(),
{
    assert((seq![before] + s).skip(1) =~= s);
    if s.len() == 0 {
        assert(s.push(after).skip(1) =~= s);
        assert(s.push(after).drop_last() =~= s);
    } else if is_white(s[0]) {
        assert(s.push(after)[0] == s[0]);
        assert(s.push(after).skip(1) =~= s.skip(1).push(after));
        lemma_space_around(s.skip(1), before, after);
    } else {
        assert(s.push(after)[0] == s[0]);
        assert(s.push(after).drop_last() =~= s);
    }
}

/// Trimming cuts a text at both ends and takes nothing but white space away.
pub proof fn lemma_trimming_cuts_white_space(s: Seq<char>) -> (r: (int, int))
    ensures
        0 <= r.0 <= r.1 <= s.len(),
        trimmed(s) == s.subrange(r.0, r.1),
        forall|i: int| 0 <= i < r.0 ==> is_white(#[trigger] s[i]),
        forall|i: int| r.1 <= i < s.len() ==> is_white(#[trigger] s[i]),
        trimmed(s).len() > 0 ==> !is_white(trimmed(s)[0]) && !is_white(trimmed(s).last()),
    decreases s.len(),
{
    lemma_trimmed(s);
    if s.len() == 0 {
        assert(trimmed(s) =~= s.subrange(0, 0));
        (0, 0)
    } else if is_white(s[0]) {
        let rest = s.skip(1);
        let (from, to) = lemma_trimming_cuts_white_space(rest);
        assert(rest.subrange(from, to) =~= s.subrange(from + 1, to + 1));
        assert forall|i: int| 0 <= i < from + 1 implies is_white(#[trigger] s[i]) by {
            if i > 0 {
                assert(rest[i - 1] == s[i]);
            }
        }
        assert forall|i: int| to + 1 <= i < s.len() implies is_white(#[trigger] s[i]) by {
            assert(rest[i - 1] == s[i]);
        }
        (from + 1, to + 1)
    } else if is_white(s.last()) {
        let rest = s.drop_last();
        let (from, to) = lemma_trimming_cuts_white_space(rest);
        assert(trimmed(rest) == trimmed(s));
        assert(rest.subrange(from, to) =~= s.subrange(from, to));
        assert forall|i: int| 0 <= i < from implies is_white(#[trigger] s[i]) by {
            assert(rest[i] == s[i]);
        }
        assert forall|i: int| to <= i < s.len() implies is_white(#[trigger] s[i]) by {
            if i < rest.len() {
                assert(rest[i] == s[i]);
            }
        }
        (from, to)
    } else {
        assert(s.subrange(0, s.len() as int) =~= s);
        (0, s.len() as int)
    }
}

/// The number that decimal digits stand for, read from left to right.
pub open spec fn number(digits: Seq<char>) -> int
    decreases digits.len(),
{
    if digits.len() == 0 {
        0
    } else {
        10 * number(digits.drop_last()) + (digits.last() as int - '0' as int)
    }
}

/// The decimal digits of a number stand for it, are digits, and do not begin with a
/// zero unless it is their only digit.
pub proof fn lemma_decimal_is_the_number(n: nat)
    ensures
        number(decimal(n)) == n,
        decimal(n).len() > 0,
        forall|i: int| 0 <= i < decimal(n).len() ==> '0' <= #[trigger] decimal(n)[i] <= '9',
        decimal(n)[0] == '0' ==> n == 0,
        n < 10 ==> decimal(n).len() == 1,
    decreases n,
{
    if n < 10 {
        assert(decimal(n).drop_last() =~= Seq::<char>::empty());
        assert(number(Seq::<char>::empty()) == 0);
    } else {
        lemma_decimal_is_the_number(n / 10);
        assert(decimal(n).drop_last() =~= decimal(n / 10));
    }
}

/// Different numbers have different digits.
pub proof fn lemma_decimal_differs(m: nat, n: nat)
    requires
        decimal(m) == decimal(n),
    ensures
        m == n,
{
    lemma_decimal_is_the_number(m);
    lemma_decimal_is_the_number(n);
}

/// The text of a time of day has two digits each for hours, minutes and seconds, with
/// colons between them, that make up the seconds since midnight.
pub proof fn lemma_clock_text(secs: nat)
    ensures
        ({
            let t = clock_text(secs);
            let (h, m, s) = (
                number(t.subrange(0, 2)),
                number(t.subrange(3, 5)),
                number(t.subrange(6, 8)),
            );
            &&& t.len() == 8
            &&& t[2] == ':' && t[5] == ':'
            &&& 0 <= h < 24 && 0 <= m < 60 && 0 <= s < 60
            &&& 3600 * h + 60 * m + s == secs % 86400
        }),
{
    reveal_strlit(":");
    let t = clock_text(secs);
    assert(t.subrange(0, 2) =~= two_digits(secs / 3600 % 24));
    assert(t.subrange(3, 5) =~= two_digits(secs / 60 % 60));
    assert(t.subrange(6, 8) =~= two_digits(secs % 60));
    lemma_two_digits(secs / 3600 % 24);
    lemma_two_digits(secs / 60 % 60);
    lemma_two_digits(secs % 60);
    lemma_time_of_day(secs);
}

proof fn lemma_time_of_day(secs: nat)
    ensures
        3600 * (secs / 3600 % 24) + 60 * (secs / 60 % 60) + secs % 60 == secs % 86400,
{
    let minutes = secs / 60;
    assert(secs / 3600 == minutes / 60);
    assert(minutes / 60 / 24 == secs / 86400);
}

proof fn lemma_two_digits(n: nat)
    requires
        n < 100,
    ensures
        number(two_digits(n)) == n,
{
    let t = two_digits(n);
    assert(t.drop_last() =~= seq![digit(n / 10 % 10)]);
    assert(t.drop_last().drop_last() =~= Seq::<char>::empty());
    assert(number(Seq::<char>::empty()) == 0);
    assert(number(t.drop_last()) == n / 10 % 10);
}

/// The white space, by number: tab to carriage return, the space, the next line, and
/// the spaces and separators beyond.
pub proof fn lemma_white_space(c: char)
    ensures
        is_white(c) <==> {
            let n = c as u32;
            ||| 9 <= n <= 13
            ||| n == 32
            ||| n == 133
            ||| n == 160
            ||| n == 5760
            ||| 8192 <= n <= 8202
            ||| n == 8232
            ||| n == 8233
            ||| n == 8239
            ||| n == 8287
            ||| n == 12288
        },
{
}

/// What a list of strings says is what each of them says, in order.
pub proof fn lemma_texts(list: Seq<String>)
    ensures
        texts(list).len() == list.len(),
        forall|i: int| 0 <= i < list.len() ==> #[trigger] texts(list)[i] == list[i]@,
{
}

/// The text of an address is the decimal numbers of its four bytes, in order, with a
/// dot between two and nowhere else.
pub proof fn lemma_ip_text(ip: Seq<u8>) -> (dots: (int, int, int))
    requires
        ip.len() == 4,
    ensures
        ({
            let t = ip_text(ip);
            let (a, b, c) = dots;
            &&& 0 < a < b < c < t.len()
            &&& forall|i: int|
                0 <= i < t.len() ==> (#[trigger] t[i] == '.' <==> i == a || i == b || i == c)
            &&& number(t.subrange(0, a)) == ip[0]
            &&& number(t.subrange(a + 1, b)) == ip[1]
            &&& number(t.subrange(b + 1, c)) == ip[2]
            &&& number(t.subrange(c + 1, t.len() as int)) == ip[3]
        }),
{
    reveal_strlit(".");
    let t = ip_text(ip);
    let (p, q, r, s) = (
        decimal(ip[0] as nat),
        decimal(ip[1] as nat),
        decimal(ip[2] as nat),
        decimal(ip[3] as nat),
    );
    lemma_decimal_is_the_number(ip[0] as nat);
    lemma_decimal_is_the_number(ip[1] as nat);
    lemma_decimal_is_the_number(ip[2] as nat);
    lemma_decimal_is_the_number(ip[3] as nat);
    let a = p.len() as int;
    let b = a + 1 + q.len();
    let c = b + 1 + r.len();
    assert(t.subrange(0, a) =~= p);
    assert(t.subrange(a + 1, b) =~= q);
    assert(t.subrange(b + 1, c) =~= r);
    assert(t.subrange(c + 1, t.len() as int) =~= s);
    assert forall|i: int| 0 <= i < t.len() implies (#[trigger] t[i] == '.' <==> i == a || i == b || i
        == c) by {
        if i < a {
            assert(t[i] == p[i]);
        } else if a < i < b {
            assert(t[i] == q[i - a - 1]);
        } else if b < i < c {
            assert(t[i] == r[i - b - 1]);
        } else if c < i {
            assert(t[i] == s[i - c - 1]);
        }
    }
    (a, b, c)
}

} // verus!
