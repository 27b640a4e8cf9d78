//! Decimal numbers and small text scans shared by the systems.
use vstd::prelude::*;

verus! {

/// The characters of `s`, in order.
pub fn chars_of(s: &str) -> (v: Vec<char>)
    ensures
        v@ == s@,
{
    let ghost all = s@;
    let mut v: Vec<char> = Vec::new();
    for c in it: s.chars()
        invariant
            it.seq() == all,
            v@ == all.take(it.index()),
    {
        v.push(c);
        assert(v@ =~= all.take(it.index() + 1));
    }
    assert(v@ =~= all);
    v
}

/// The character of a decimal digit.
pub open spec fn digit_char(d: int) -> char {
    if d == 0 {
        '0'
    } else if d == 1 {
        '1'
    } else if d == 2 {
        '2'
    } else if d == 3 {
        '3'
    } else if d == 4 {
        '4'
    } else if d == 5 {
        '5'
    } else if d == 6 {
        '6'
    } else if d == 7 {
        '7'
    } else if d == 8 {
        '8'
    } else {
        '9'
    }
}

/// Whether `c` is an ASCII decimal digit.
pub open spec fn is_digit(c: char) -> bool {
    '0' <= c <= '9'
}

/// The value of a decimal digit character.
pub open spec fn digit_value(c: char) -> int {
    c as int - '0' as int
}

/// The shortest decimal writing of `n`, without sign.
pub open spec fn decimal(n: nat) -> Seq<char>
    decreases n,
{
    if n < 10 {
        seq![digit_char(n as int)]
    } else {
        decimal(n / 10) + seq![digit_char((n % 10) as int)]
    }
}

/// The value of a sequence of decimal digits, most significant first.
pub open spec fn digits_value(s: Seq<char>) -> int
    decreases s.len(),
{
    if s.len() == 0 {
        0
    } else {
        digits_value(s.drop_last()) * 10 + digit_value(s.last())
    }
}

/// Whether `s` is a non-empty run of decimal digits.
pub open spec fn all_digits(s: Seq<char>) -> bool {
    s.len() > 0 && forall|i: int| 0 <= i < s.len() ==> #[trigger] is_digit(s[i])
}

/// How a `u32` is read from text: an optional `+`, then one or more decimal digits whose
/// value fits in 32 bits; anything else is refused.
pub open spec fn parse_u32_spec(s: Seq<char>) -> Option<u32> {
    let body = if s.len() > 0 && s[0] == '+' {
        s.drop_first()
    } else {
        s
    };
    if all_digits(body) && digits_value(body) <= u32::MAX {
        Some(digits_value(body) as u32)
    } else {
        None
    }
}

fn digit_str(d: u32) -> (s: &'static str)
    requires
        d < 10,
    ensures
        s@ == seq![digit_char(d as int)],
{
    proof {
        reveal_strlit("0");
        reveal_strlit("1");
        reveal_strlit("2");
        reveal_strlit("3");
        reveal_strlit("4");
        reveal_strlit("5");
        reveal_strlit("6");
        reveal_strlit("7");
        reveal_strlit("8");
        reveal_strlit("9");
    }
    let s = if d == 0 {
        "0"
    } else if d == 1 {
        "1"
    } else if d == 2 {
        "2"
    } else if d == 3 {
        "3"
    } else if d == 4 {
        "4"
    } else if d == 5 {
        "5"
    } else if d == 6 {
        "6"
    } else if d == 7 {
        "7"
    } else if d == 8 {
        "8"
    } else {
        "9"
    };
    assert(s@ =~= seq![digit_char(d as int)]);
    s
}

/// Writes `n` in decimal, as `u32::to_string` does.
pub fn u32_to_decimal(n: u32) -> (s: String)
    ensures
        s@ == decimal(n as nat),
    decreases n,
{
    if n < 10 {
        let s = String::from_str(digit_str(n));
        s
    } else {
        let mut s = u32_to_decimal(n / 10);
        s.append(digit_str(n % 10));
        s
    }
}

proof fn lemma_digit_char_value(d: int)
    requires
        0 <= d < 10,
    ensures
        digit_value(digit_char(d)) == d,
        is_digit(digit_char(d)),
{
}

proof fn lemma_decimal_digits(n: nat)
    ensures
        all_digits(decimal(n)),
        digits_value(decimal(n)) == n,
    decreases n,
{
    lemma_digit_char_value((n % 10) as int);
    if n < 10 {
        assert(decimal(n).drop_last() =~= Seq::<char>::empty());
        assert(digits_value(decimal(n)) == digits_value(Seq::<char>::empty()) * 10 + digit_value(
            digit_char(n as int),
        ));
    } else {
        lemma_decimal_digits(n / 10);
        let d = decimal(n);
        assert(d.drop_last() =~= decimal(n / 10));
        assert(d.last() == digit_char((n % 10) as int));
        assert(digits_value(d) == digits_value(decimal(n / 10)) * 10 + (n % 10) as int);
        assert(n == (n / 10) * 10 + n % 10);
        assert forall|i: int| 0 <= i < d.len() implies #[trigger] is_digit(d[i]) by {
            if i < d.len() - 1 {
                assert(d[i] == decimal(n / 10)[i]);
            }
        }
    }
}

/// Reading back the decimal writing of a number gives that number.
pub proof fn lemma_parse_decimal_roundtrip(n: u32)
    ensures
        parse_u32_spec(decimal(n as nat)) == Some(n),
{
    lemma_decimal_digits(n as nat);
    assert(is_digit(decimal(n as nat)[0]));
}

/// Reads a `u32` from text, as `str::parse::<u32>` does.
pub fn parse_u32(s: &str) -> (r: Option<u32>)
    ensures
        r == parse_u32_spec(s@),
{
    let chars = chars_of(s);
    let len = chars.len();
    let mut start: usize = 0;
    if len > 0 && chars[0] == '+' {
        start = 1;
    }
    let ghost body = if s@.len() > 0 && s@[0] == '+' {
        s@.drop_first()
    } else {
        s@
    };
    assert(body =~= s@.subrange(start as int, len as int));
    if start == len {
        return None;
    }
    let mut value: u64 = 0;
    let mut i: usize = start;
    while i < len
        invariant
            chars@ == s@,
            len == chars@.len(),
            start <= i <= len,
            start < len,
            body == s@.subrange(start as int, len as int),
            body == (if s@.len() > 0 && s@[0] == '+' {
                s@.drop_first()
            } else {
                s@
            }),
            value == digits_value(body.take(i - start)),
            value <= u32::MAX,
            forall|k: int| 0 <= k < i - start ==> #[trigger] is_digit(body[k]),
        decreases len - i,
    {
        let c = chars[i];
        assert(body.take(i - start + 1).drop_last() =~= body.take(i - start));
        assert(body[i - start] == c);
        if c < '0' || c > '9' {
            assert(!is_digit(body[i - start]));
            assert(!all_digits(body));
            assert(parse_u32_spec(s@) is None);
            return None;
        }
        let d: u64 = (c as u32 - '0' as u32) as u64;
        value = value * 10 + d;
        if value > 4294967295 {
            proof {
                if all_digits(body) {
                    lemma_digits_value_monotone(body, (i - start + 1) as int);
                }
            }
            return None;
        }
        i = i + 1;
    }
    assert(body.take(len - start) =~= body);
    Some(value as u32)
}

proof fn lemma_digits_value_monotone(s: Seq<char>, k: int)
    requires
        0 <= k <= s.len(),
        forall|i: int| 0 <= i < s.len() ==> #[trigger] is_digit(s[i]),
    ensures
        digits_value(s) >= digits_value(s.take(k)),
    decreases s.len(),
{
    if k < s.len() {
        assert(s.drop_last().take(k) =~= s.take(k));
        assert forall|i: int| 0 <= i < s.drop_last().len() implies #[trigger] is_digit(
            s.drop_last()[i],
        ) by {
            assert(is_digit(s[i]));
        }
        lemma_digits_value_monotone(s.drop_last(), k);
        lemma_digits_value_nonneg(s.drop_last());
        assert(is_digit(s[s.len() - 1]));
    } else {
        assert(s.take(k) =~= s);
    }
}

proof fn lemma_digits_value_nonneg(s: Seq<char>)
    requires
        forall|i: int| 0 <= i < s.len() ==> #[trigger] is_digit(s[i]),
    ensures
        digits_value(s) >= 0,
    decreases s.len(),
{
    if s.len() > 0 {
        assert forall|i: int| 0 <= i < s.drop_last().len() implies #[trigger] is_digit(
            s.drop_last()[i],
        ) by {
            assert(is_digit(s[i]));
        }
        lemma_digits_value_nonneg(s.drop_last());
        assert(is_digit(s[s.len() - 1]));
    }
}

/// Why text is not a number: nothing to read, a character that is not a digit, or a value
/// too large for the type.
#[derive(Debug, Clone, Copy, PartialEq, Eq, Structural)]
pub enum IntErrorKind {
    Empty,
    InvalidDigit,
    PosOverflow,
}

/// Reading digits left to right: the value so far, or the first problem met. At each
/// character a non-digit is reported before a value that grows past `u64::MAX`.
pub open spec fn fold_digits(s: Seq<char>) -> Result<int, IntErrorKind>
    decreases s.len(),
{
    if s.len() == 0 {
        Ok(0)
    } else {
        match fold_digits(s.drop_last()) {
            Err(e) => Err(e),
            Ok(v) => if !is_digit(s.last()) {
                Err(IntErrorKind::InvalidDigit)
            } else if v * 10 + digit_value(s.last()) > u64::MAX {
                Err(IntErrorKind::PosOverflow)
            } else {
                Ok(v * 10 + digit_value(s.last()))
            },
        }
    }
}

/// How a `u64` is read from text, as `str::parse::<u64>` does: empty text is refused as
/// empty; an optional `+` is dropped, and must be followed by at least one character; the
/// rest is read digit by digit.
pub open spec fn parse_u64_spec(s: Seq<char>) -> Result<u64, IntErrorKind> {
    if s.len() == 0 {
        Err(IntErrorKind::Empty)
    } else {
        let body = if s[0] == '+' {
            s.drop_first()
        } else {
            s
        };
        if body.len() == 0 {
            Err(IntErrorKind::InvalidDigit)
        } else {
            match fold_digits(body) {
                Ok(v) => Ok(v as u64),
                Err(e) => Err(e),
            }
        }
    }
}

proof fn lemma_fold_digits_error_stays(s: Seq<char>, k: int)
    requires
        0 <= k <= s.len(),
        fold_digits(s.take(k)) is Err,
    ensures
        fold_digits(s) == fold_digits(s.take(k)),
    decreases s.len() - k,
{
    if k < s.len() {
        assert(s.take(k + 1).drop_last() =~= s.take(k));
        lemma_fold_digits_error_stays(s, k + 1);
    } else {
        assert(s.take(k) =~= s);
    }
}

/// Reads a `u64` from text, as `str::parse::<u64>` does, with the kind of error it reports.
pub fn parse_u64(s: &str) -> (r: Result<u64, IntErrorKind>)
    ensures
        r == parse_u64_spec(s@),
{
    let chars = chars_of(s);
    let len = chars.len();
    if len == 0 {
        return Err(IntErrorKind::Empty);
    }
    let start: usize = if chars[0] == '+' {
        1
    } else {
        0
    };
    let ghost body = if s@[0] == '+' {
        s@.drop_first()
    } else {
        s@
    };
    assert(body =~= s@.subrange(start as int, len as int));
    if start == len {
        return Err(IntErrorKind::InvalidDigit);
    }
    let mut value: u64 = 0;
    let mut i: usize = start;
    while i < len
        invariant
            chars@ == s@,
            len == chars@.len(),
            start <= i <= len,
            start < len,
            body == s@.subrange(start as int, len as int),
            s@.len() > 0,
            body == (if s@[0] == '+' {
                s@.drop_first()
            } else {
                s@
            }),
            fold_digits(body.take(i - start)) == Ok::<int, IntErrorKind>(value as int),
        decreases len - i,
    {
        let c = chars[i];
        let ghost prefix = body.take(i - start + 1);
        assert(prefix.drop_last() =~= body.take(i - start));
        assert(prefix.last() == c);
        if c < '0' || c > '9' {
            assert(fold_digits(prefix) == Err::<int, IntErrorKind>(IntErrorKind::InvalidDigit));
            proof {
                lemma_fold_digits_error_stays(body, i - start + 1);
            }
            return Err(IntErrorKind::InvalidDigit);
        }
        let d: u64 = (c as u32 - '0' as u32) as u64;
        let next: u128 = value as u128 * 10 + d as u128;
        if next > 18446744073709551615 {
            assert(fold_digits(prefix) == Err::<int, IntErrorKind>(IntErrorKind::PosOverflow));
            proof {
                lemma_fold_digits_error_stays(body, i - start + 1);
            }
            return Err(IntErrorKind::PosOverflow);
        }
        value = next as u64;
        i = i + 1;
    }
    assert(body.take(len - start) =~= body);
    Ok(value)
}

/// Whether `c` has the Unicode `White_Space` property, as `char::is_whitespace` answers.
pub open spec fn is_whitespace_spec(c: char) -> bool {
    ||| '\u{9}' <= c <= '\u{d}'
    ||| c == ' '
    ||| c == '\u{85}'
    ||| c == '\u{a0}'
    ||| c == '\u{1680}'
    ||| '\u{2000}' <= c <= '\u{200a}'
    ||| c == '\u{2028}'
    ||| c == '\u{2029}'
    ||| c == '\u{202f}'
    ||| c == '\u{205f}'
    ||| c == '\u{3000}'
}

pub fn is_whitespace(c: char) -> (b: bool)
    ensures
        b == is_whitespace_spec(c),
{
    ('\u{9}' <= c && c <= '\u{d}') || c == ' ' || c == '\u{85}' || c == '\u{a0}' || c
        == '\u{1680}' || ('\u{2000}' <= c && c <= '\u{200a}') || c == '\u{2028}' || c
        == '\u{2029}' || c == '\u{202f}' || c == '\u{205f}' || c == '\u{3000}'
}

/// `s` without its leading whitespace.
pub open spec fn trim_start(s: Seq<char>) -> Seq<char>
    decreases s.len(),
{
    if s.len() > 0 && is_whitespace_spec(s[0]) {
        trim_start(s.drop_first())
    } else {
        s
    }
}

/// `s` without its trailing whitespace.
pub open spec fn trim_end(s: Seq<char>) -> Seq<char>
    decreases s.len(),
{
    if s.len() > 0 && is_whitespace_spec(s.last()) {
        trim_end(s.drop_last())
    } else {
        s
    }
}

/// `s` without leading and trailing whitespace, as `str::trim` gives it.
pub open spec fn trim(s: Seq<char>) -> Seq<char> {
    trim_end(trim_start(s))
}

proof fn lemma_trim_start(p: Seq<char>, j: int)
    requires
        0 <= j <= p.len(),
        forall|i: int| 0 <= i < j ==> #[trigger] is_whitespace_spec(p[i]),
        j == p.len() || !is_whitespace_spec(p[j]),
    ensures
        trim_start(p) == p.skip(j),
    decreases j,
{
    if j == 0 {
        assert(p.skip(0) =~= p);
    } else {
        assert(is_whitespace_spec(p[0]));
        let q = p.drop_first();
        assert forall|i: int| 0 <= i < j - 1 implies #[trigger] is_whitespace_spec(q[i]) by {
            assert(is_whitespace_spec(p[i + 1]));
        }
        lemma_trim_start(q, j - 1);
        assert(q.skip(j - 1) =~= p.skip(j));
    }
}

proof fn lemma_trim_end(p: Seq<char>, j: int)
    requires
        0 <= j <= p.len(),
        forall|i: int| j <= i < p.len() ==> #[trigger] is_whitespace_spec(p[i]),
        j == 0 || !is_whitespace_spec(p[j - 1]),
    ensures
        trim_end(p) == p.take(j),
    decreases p.len() - j,
{
    if j == p.len() {
        assert(p.take(j) =~= p);
    } else {
        assert(is_whitespace_spec(p[p.len() - 1]));
        let q = p.drop_last();
        assert forall|i: int| j <= i < q.len() implies #[trigger] is_whitespace_spec(q[i]) by {
            assert(is_whitespace_spec(p[i]));
        }
        lemma_trim_end(q, j);
        assert(q.take(j) =~= p.take(j));
    }
}

/// The bounds `(lo, hi)` of `s[start..end]` once leading and trailing whitespace is cut:
/// `trim(s[start..end]) == s[lo..hi]`.
pub fn trim_bounds(s: &Vec<char>, start: usize, end: usize) -> (r: (usize, usize))
    requires
        start <= end <= s@.len(),
    ensures
        start <= r.0 <= r.1 <= end,
        trim(s@.subrange(start as int, end as int)) == s@.subrange(r.0 as int, r.1 as int),
{
    let ghost p = s@.subrange(start as int, end as int);
    let mut lo = start;
    while lo < end && is_whitespace(s[lo])
        invariant
            start <= lo <= end <= s@.len(),
            p == s@.subrange(start as int, end as int),
            forall|i: int| start <= i < lo ==> #[trigger] is_whitespace_spec(s@[i]),
        decreases end - lo,
    {
        lo = lo + 1;
    }
    proof {
        assert forall|i: int| 0 <= i < lo - start implies #[trigger] is_whitespace_spec(p[i]) by {
            assert(p[i] == s@[start + i]);
        }
        lemma_trim_start(p, lo - start);
    }
    let ghost q = p.skip(lo - start);
    assert(q =~= s@.subrange(lo as int, end as int));
    let mut hi = end;
    while hi > lo && is_whitespace(s[hi - 1])
        invariant
            start <= lo <= hi <= end <= s@.len(),
            forall|i: int| hi <= i < end ==> #[trigger] is_whitespace_spec(s@[i]),
        decreases hi - lo,
    {
        hi = hi - 1;
    }
    proof {
        assert forall|i: int| hi - lo <= i < q.len() implies #[trigger] is_whitespace_spec(q[i]) by {
            assert(q[i] == s@[lo + i]);
        }
        lemma_trim_end(q, hi - lo);
        assert(q.take(hi - lo) =~= s@.subrange(lo as int, hi as int));
    }
    (lo, hi)
}

} // verus!
