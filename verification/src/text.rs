//! Character-level text handling: comparing and slicing text, splitting it
//! into lines, trimming whitespace, and the decimal form of integers.
use vstd::prelude::*;
use vstd::string::*;

verus! {

// ---------------------------------------------------------------------------
// Character classes
// ---------------------------------------------------------------------------

/// Whether `c` has the Unicode `White_Space` property (the characters that
/// `char::is_whitespace` and `str::trim` treat as whitespace): the controls
/// U+0009 to U+000D, the space U+0020, U+0085, U+00A0, U+1680, the spaces
/// U+2000 to U+200A, U+2028, U+2029, U+202F, U+205F and U+3000.
pub open spec fn is_white_space_char(c: char) -> bool {
    ||| '\u{9}' <= c <= '\u{d}'
    ||| c == ' '
    ||| c == '\u{85}'
    ||| c == '\u{a0}'
    ||| c == '\u{1680}'
    ||| '\u{2000}' <= c <= '\u{200a}'
    ||| c == '\u{2028}'
    ||| c == '\u{2029}'
    ||| c == '\u{202f}'
    ||| c == '\u{205f}'
    ||| c == '\u{3000}'
}

/// Whether `c` has the Unicode `Alphabetic` property, as `char::is_alphabetic`
/// decides it.
pub uninterp spec fn is_alphabetic_char(c: char) -> bool;

/// `c` is an ASCII letter.
pub open spec fn is_ascii_letter(c: char) -> bool {
    ('a' <= c && c <= 'z') || ('A' <= c && c <= 'Z')
}

/// Whether `c` has the Unicode `White_Space` property.
pub fn is_whitespace(c: char) -> (r: bool)
    ensures
        r == is_white_space_char(c),
{
    ('\u{9}' <= c && c <= '\u{d}') || c == ' ' || c == '\u{85}' || c == '\u{a0}' || c
        == '\u{1680}' || ('\u{2000}' <= c && c <= '\u{200a}') || c == '\u{2028}' || c
        == '\u{2029}' || c == '\u{202f}' || c == '\u{205f}' || c == '\u{3000}'
}

/// Calls `char::is_alphabetic`. Its documentation says it answers whether the
/// character has the Unicode `Alphabetic` property; the contract names that
/// answer `is_alphabetic_char`, and states what the property is on ASCII
/// characters: there exactly the letters `a` to `z` and `A` to `Z` have it
/// (digits and punctuation such as `.` and `-` do not). Which other
/// characters have it is left unsaid.
#[verifier::external_body]
pub(crate) fn is_alphabetic(c: char) -> (r: bool)
    ensures
        r == is_alphabetic_char(c),
        c < '\u{80}' ==> (r <==> is_ascii_letter(c)),
{
    c.is_alphabetic()
}

// ---------------------------------------------------------------------------
// Basic text operations
// ---------------------------------------------------------------------------

/// The characters of `s`, in order.
pub fn chars_of(s: &str) -> (v: Vec<char>)
    ensures
        v@ == s@,
{
    let n = s.unicode_len();
    let mut v: Vec<char> = Vec::new();
    let mut i: usize = 0;
    while i < n
        invariant
            n == s@.len(),
            i <= n,
            v@ == s@.subrange(0, i as int),
        decreases n - i,
    {
        v.push(s.get_char(i));
        i += 1;
    }
    assert(v@ =~= s@);
    v
}

/// Whether two pieces of text hold the same characters.
pub fn same_text(a: &str, b: &str) -> (r: bool)
    ensures
        r == (a@ == b@),
{
    let n = a.unicode_len();
    if n != b.unicode_len() {
        return false;
    }
    let mut i: usize = 0;
    while i < n
        invariant
            n == a@.len(),
            n == b@.len(),
            i <= n,
            forall|j: int| 0 <= j < i ==> a@[j] == b@[j],
        decreases n - i,
    {
        if a.get_char(i) != b.get_char(i) {
            return false;
        }
        i += 1;
    }
    assert(a@ =~= b@);
    true
}

/// `s` begins with `prefix`.
pub open spec fn begins_with(s: Seq<char>, prefix: Seq<char>) -> bool {
    prefix.len() <= s.len() && s.subrange(0, prefix.len() as int) == prefix
}

/// Whether the characters `cs[from..to]` begin with `prefix`.
pub fn begins_with_at(cs: &Vec<char>, from: usize, to: usize, prefix: &str) -> (r: bool)
    requires
        from <= to <= cs@.len(),
    ensures
        r == begins_with(cs@.subrange(from as int, to as int), prefix@),
{
    let m = prefix.unicode_len();
    if m > to - from {
        return false;
    }
    let mut i: usize = 0;
    while i < m
        invariant
            m == prefix@.len(),
            from <= to <= cs@.len(),
            m <= to - from,
            i <= m,
            forall|j: int| 0 <= j < i ==> cs@[from + j] == prefix@[j],
        decreases m - i,
    {
        if cs[from + i] != prefix.get_char(i) {
            assert(cs@.subrange(from as int, to as int).subrange(0, m as int)[i as int]
                != prefix@[i as int]);
            return false;
        }
        i += 1;
    }
    assert(cs@.subrange(from as int, to as int).subrange(0, m as int) =~= prefix@);
    true
}

/// Whether `s` begins with the character `c`.
pub fn begins_with_char(s: &str, c: char) -> (r: bool)
    ensures
        r == (s@.len() > 0 && s@[0] == c),
{
    if s.unicode_len() == 0 {
        false
    } else {
        s.get_char(0) == c
    }
}

// ---------------------------------------------------------------------------
// Trimming
// ---------------------------------------------------------------------------

/// `s` without its leading whitespace.
pub open spec fn trim_start(s: Seq<char>) -> Seq<char>
    decreases s.len(),
{
    if s.len() > 0 && is_white_space_char(s[0]) {
        trim_start(s.drop_first())
    } else {
        s
    }
}

/// `s` without its trailing whitespace.
pub open spec fn trim_end(s: Seq<char>) -> Seq<char>
    decreases s.len(),
{
    if s.len() > 0 && is_white_space_char(s.last()) {
        trim_end(s.drop_last())
    } else {
        s
    }
}

/// `s` without its leading and trailing whitespace.
pub open spec fn trim(s: Seq<char>) -> Seq<char> {
    trim_end(trim_start(s))
}

/// The bounds `(a, b)` of `cs[from..to]` once its leading and trailing
/// whitespace is left out.
pub fn trim_bounds(cs: &Vec<char>, from: usize, to: usize) -> (r: (usize, usize))
    requires
        from <= to <= cs@.len(),
    ensures
        from <= r.0 <= r.1 <= to,
        cs@.subrange(r.0 as int, r.1 as int) == trim(cs@.subrange(from as int, to as int)),
{
    let mut a = from;
    while a < to && is_whitespace(cs[a])
        invariant
            from <= a <= to <= cs@.len(),
            trim_start(cs@.subrange(from as int, to as int)) == trim_start(
                cs@.subrange(a as int, to as int),
            ),
        decreases to - a,
    {
        assert(cs@.subrange(a as int, to as int).drop_first() =~= cs@.subrange(
            a + 1,
            to as int,
        ));
        a += 1;
    }
    assert(trim_start(cs@.subrange(a as int, to as int)) == cs@.subrange(a as int, to as int));
    let mut b = to;
    while b > a && is_whitespace(cs[b - 1])
        invariant
            from <= a <= b <= to <= cs@.len(),
            trim_end(cs@.subrange(a as int, to as int)) == trim_end(
                cs@.subrange(a as int, b as int),
            ),
        decreases b - a,
    {
        assert(cs@.subrange(a as int, b as int).drop_last() =~= cs@.subrange(
            a as int,
            b - 1,
        ));
        b -= 1;
    }
    (a, b)
}

// ---------------------------------------------------------------------------
// Lines
// ---------------------------------------------------------------------------

/// The index of the first `c` in `s`, or `s.len()` where there is none.
pub open spec fn first_index_of(s: Seq<char>, c: char) -> int
    decreases s.len(),
{
    if s.len() == 0 {
        0
    } else if s[0] == c {
        0
    } else {
        1 + first_index_of(s.drop_first(), c)
    }
}

pub proof fn lemma_first_index_of_bounds(s: Seq<char>, c: char)
    ensures
        0 <= first_index_of(s, c) <= s.len(),
        first_index_of(s, c) < s.len() ==> s[first_index_of(s, c)] == c,
        forall|j: int| 0 <= j < first_index_of(s, c) ==> s[j] != c,
    decreases s.len(),
{
    if s.len() > 0 && s[0] != c {
        lemma_first_index_of_bounds(s.drop_first(), c);
        assert forall|j: int| 0 <= j < first_index_of(s, c) implies s[j] != c by {
            if j > 0 {
                assert(s[j] == s.drop_first()[j - 1]);
            }
        }
    }
}

pub proof fn lemma_first_index_of_is(s: Seq<char>, c: char, m: int)
    requires
        0 <= m <= s.len(),
        m < s.len() ==> s[m] == c,
        forall|j: int| 0 <= j < m ==> s[j] != c,
    ensures
        first_index_of(s, c) == m,
    decreases m,
{
    if m > 0 {
        assert forall|j: int| 0 <= j < m - 1 implies s.drop_first()[j] != c by {
            assert(s.drop_first()[j] == s[j + 1]);
        }
        lemma_first_index_of_is(s.drop_first(), c, m - 1);
    }
}

/// A line that was ended by a newline loses a carriage return before it.
pub open spec fn strip_carriage_return(line: Seq<char>) -> Seq<char> {
    if line.len() > 0 && line.last() == '\r' {
        line.drop_last()
    } else {
        line
    }
}

/// The lines of `s`, as `str::lines` yields them: `s` is cut at each `'\n'`,
/// a `'\r'` just before a cut is dropped, and a final line ending adds no
/// empty line.
pub open spec fn lines(s: Seq<char>) -> Seq<Seq<char>>
    decreases s.len(),
{
    if s.len() == 0 {
        Seq::empty()
    } else {
        let k = first_index_of(s, '\n');
        proof {
            lemma_first_index_of_bounds(s, '\n');
        }
        if k >= s.len() {
            seq![s]
        } else {
            seq![strip_carriage_return(s.take(k))] + lines(s.skip(k + 1))
        }
    }
}

/// Finds the first line of `cs[pos..]`: it spans `cs[pos..r.0]`, and the
/// rest of the text starts at `r.1`.
pub fn next_line(cs: &Vec<char>, pos: usize) -> (r: (usize, usize))
    requires
        pos < cs@.len(),
    ensures
        pos <= r.0 <= r.1 <= cs@.len(),
        pos < r.1,
        lines(cs@.skip(pos as int)) == seq![cs@.subrange(pos as int, r.0 as int)] + lines(
            cs@.skip(r.1 as int),
        ),
{
    let n = cs.len();
    let mut k = pos;
    while k < n && cs[k] != '\n'
        invariant
            n == cs@.len(),
            pos <= k <= n,
            forall|j: int| pos <= j < k ==> cs@[j] != '\n',
        decreases n - k,
    {
        k += 1;
    }
    let ghost t = cs@.skip(pos as int);
    proof {
        assert forall|j: int| 0 <= j < k - pos implies t[j] != '\n' by {
            assert(t[j] == cs@[pos + j]);
        }
        lemma_first_index_of_is(t, '\n', k - pos);
    }
    if k == n {
        proof {
            assert(t =~= cs@.subrange(pos as int, n as int));
            assert(cs@.skip(n as int) =~= Seq::<char>::empty());
            assert(lines(cs@.skip(n as int)) =~= Seq::<Seq<char>>::empty());
            assert(lines(t) == seq![t]);
        }
        (n, n)
    } else {
        proof {
            assert(t.skip(k - pos + 1) =~= cs@.skip(k + 1));
            assert(t.take(k - pos) =~= cs@.subrange(pos as int, k as int));
        }
        if k > pos && cs[k - 1] == '\r' {
            proof {
                assert(cs@.subrange(pos as int, k as int).drop_last() =~= cs@.subrange(
                    pos as int,
                    k - 1,
                ));
            }
            (k - 1, k + 1)
        } else {
            (k, k + 1)
        }
    }
}

// ---------------------------------------------------------------------------
// Decimal numbers
// ---------------------------------------------------------------------------

/// The character of the decimal digit `d`.
pub open spec fn digit_char(d: int) -> char {
    if d == 0 {
        '0'
    } else if d == 1 {
        '1'
    } else if d == 2 {
        '2'
    } else if d == 3 {
        '3'
    } else if d == 4 {
        '4'
    } else if d == 5 {
        '5'
    } else if d == 6 {
        '6'
    } else if d == 7 {
        '7'
    } else if d == 8 {
        '8'
    } else {
        '9'
    }
}

/// The decimal digits of `n`, without leading zeros.
pub open spec fn decimal_digits(n: nat) -> Seq<char>
    decreases n,
{
    if n < 10 {
        seq![digit_char(n as int)]
    } else {
        decimal_digits(n / 10).push(digit_char((n % 10) as int))
    }
}

/// The decimal form of `x`, with a leading `-` where it is negative.
pub open spec fn decimal(x: int) -> Seq<char> {
    if x < 0 {
        seq!['-'] + decimal_digits((-x) as nat)
    } else {
        decimal_digits(x as nat)
    }
}

fn push_digit(s: &mut String, d: u32)
    requires
        d < 10,
    ensures
        final(s)@ == old(s)@.push(digit_char(d as int)),
{
    proof {
        reveal_strlit("0");
        reveal_strlit("1");
        reveal_strlit("2");
        reveal_strlit("3");
        reveal_strlit("4");
        reveal_strlit("5");
        reveal_strlit("6");
        reveal_strlit("7");
        reveal_strlit("8");
        reveal_strlit("9");
    }
    let digit: &str = if d == 0 {
        "0"
    } else if d == 1 {
        "1"
    } else if d == 2 {
        "2"
    } else if d == 3 {
        "3"
    } else if d == 4 {
        "4"
    } else if d == 5 {
        "5"
    } else if d == 6 {
        "6"
    } else if d == 7 {
        "7"
    } else if d == 8 {
        "8"
    } else {
        "9"
    };
    assert(digit@ =~= seq![digit_char(d as int)]);
    s.append(digit);
}

fn push_digits(s: &mut String, n: u64)
    ensures
        final(s)@ == old(s)@ + decimal_digits(n as nat),
    decreases n,
{
    if n >= 10 {
        push_digits(s, n / 10);
        push_digit(s, (n % 10) as u32);
    } else {
        push_digit(s, n as u32);
    }
}

/// The decimal form of `x`, as `x.to_string()` writes it.
pub fn decimal_text(x: i32) -> (r: String)
    ensures
        r@ == decimal(x as int),
{
    let mut s = String::new();
    if x < 0 {
        proof {
            reveal_strlit("-");
        }
        s.append("-");
        let m: i64 = 0i64 - (x as i64);
        push_digits(&mut s, m as u64);
    } else {
        push_digits(&mut s, x as u64);
    }
    s
}

/// The decimal form of `x`, as `x.to_string()` writes it.
pub fn decimal_usize(x: usize) -> (r: String)
    ensures
        r@ == decimal(x as int),
{
    let mut s = String::new();
    push_digits(&mut s, x as u64);
    s
}

/// `true` or `false`, as `b.to_string()` writes it.
pub open spec fn bool_text(b: bool) -> Seq<char> {
    if b {
        "true"@
    } else {
        "false"@
    }
}

/// `b` as `true` or `false`.
pub fn bool_string(b: bool) -> (r: String)
    ensures
        r@ == bool_text(b),
{
    if b {
        "true".to_owned()
    } else {
        "false".to_owned()
    }
}

/// The text `s` as `format!("{:?}", s)` writes it: in double quotes, with
/// some characters escaped.
pub uninterp spec fn debug_form(s: Seq<char>) -> Seq<char>;

/// A character that the debug form of a text writes as itself: a printable
/// ASCII character other than `"` and `\`.
pub open spec fn debug_plain(c: char) -> bool {
    ' ' <= c && c <= '~' && c != '"' && c != '\\'
}

/// Calls `format!("{:?}", s)` on a `&str`. The contract names the result
/// `debug_form(s@)` and states the part that the documentation of
/// `char::escape_debug` and `char::escape_default` makes plain: a text made
/// only of printable ASCII characters other than `"` and `\` is written as
/// it is, between double quotes. How other characters are escaped is left
/// unsaid.
#[verifier::external_body]
pub(crate) fn debug_text(s: &str) -> (r: String)
    ensures
        r@ == debug_form(s@),
        (forall|i: int| 0 <= i < s@.len() ==> debug_plain(#[trigger] s@[i])) ==> r@ == seq!['"']
            + s@ + seq!['"'],
{
    format!("{:?}", s)
}

/// Whether `c` is one of the ASCII digits `0` to `9`.
pub open spec fn is_digit(c: char) -> bool {
    '0' <= c && c <= '9'
}

/// The value of the decimal digits `s`.
pub open spec fn digits_value(s: Seq<char>) -> int
    decreases s.len(),
{
    if s.len() == 0 {
        0
    } else {
        digits_value(s.drop_last()) * 10 + (s.last() as int - '0' as int)
    }
}

/// `s` without a leading `+` or `-`.
pub open spec fn unsigned_part(s: Seq<char>) -> Seq<char> {
    if s.len() > 0 && (s[0] == '-' || s[0] == '+') {
        s.drop_first()
    } else {
        s
    }
}

/// `s` read as an `i32` the way `i32::from_str` reads it: an optional `+`
/// or `-`, then one or more ASCII digits, and a value that fits.
pub open spec fn parse_i32_text(s: Seq<char>) -> Option<i32> {
    let negative = s.len() > 0 && s[0] == '-';
    let body = unsigned_part(s);
    if body.len() == 0 || !(forall|i: int| 0 <= i < body.len() ==> is_digit(body[i])) {
        None
    } else {
        let v = if negative {
            -digits_value(body)
        } else {
            digits_value(body)
        };
        if i32::MIN <= v <= i32::MAX {
            Some(v as i32)
        } else {
            None
        }
    }
}

proof fn lemma_digits_value_nonneg(s: Seq<char>)
    requires
        forall|i: int| 0 <= i < s.len() ==> is_digit(s[i]),
    ensures
        digits_value(s) >= 0,
    decreases s.len(),
{
    if s.len() > 0 {
        lemma_digits_value_nonneg(s.drop_last());
    }
}

proof fn lemma_digits_value_grows(s: Seq<char>, k: int)
    requires
        0 <= k <= s.len(),
        forall|i: int| 0 <= i < s.len() ==> is_digit(s[i]),
    ensures
        digits_value(s) >= digits_value(s.take(k)),
    decreases s.len(),
{
    if k < s.len() {
        assert(s.drop_last().take(k) =~= s.take(k));
        lemma_digits_value_grows(s.drop_last(), k);
        lemma_digits_value_nonneg(s.drop_last());
    } else {
        assert(s.take(k) =~= s);
    }
}

/// Reads `s` as an `i32`, as `i32::from_str` does.
pub fn parse_i32(s: &str) -> (r: Option<i32>)
    ensures
        r == parse_i32_text(s@),
{
    let cs = chars_of(s);
    let n = cs.len();
    if n == 0 {
        return None;
    }
    let negative = cs[0] == '-';
    let start: usize = if cs[0] == '-' || cs[0] == '+' {
        1
    } else {
        0
    };
    let ghost body = unsigned_part(s@);
    assert(body =~= cs@.skip(start as int));
    if start == n {
        return None;
    }
    let mut acc: i64 = 0;
    let mut i: usize = start;
    while i < n
        invariant
            n == cs@.len(),
            cs@ == s@,
            n > 0,
            negative == (s@[0] == '-'),
            body == unsigned_part(s@),
            start == (if s@[0] == '-' || s@[0] == '+' {
                1usize
            } else {
                0usize
            }),
            start <= i <= n,
            body == cs@.skip(start as int),
            acc == digits_value(cs@.subrange(start as int, i as int)),
            0 <= acc <= 2147483648,
            forall|j: int| start <= j < i ==> is_digit(cs@[j]),
        decreases n - i,
    {
        let c = cs[i];
        if !('0' <= c && c <= '9') {
            assert(!is_digit(body[i - start]));
            return None;
        }
        assert(cs@.subrange(start as int, i + 1).drop_last() =~= cs@.subrange(
            start as int,
            i as int,
        ));
        let d: u32 = (c as u32) - ('0' as u32);
        acc = acc * 10 + (d as i64);
        assert(acc == digits_value(cs@.subrange(start as int, i + 1)));
        if acc > 2147483648 {
            proof {
                if forall|j: int| 0 <= j < body.len() ==> is_digit(body[j]) {
                    assert(body.take(i + 1 - start) =~= cs@.subrange(start as int, i + 1));
                    lemma_digits_value_grows(body, i + 1 - start);
                }
            }
            return None;
        }
        i += 1;
    }
    assert(cs@.subrange(start as int, n as int) =~= body);
    let v: i64 = if negative {
        0 - acc
    } else {
        acc
    };
    if v < -2147483648 || v > 2147483647 {
        None
    } else {
        Some(v as i32)
    }
}

} // verus!
