//! The lexical rules shared by the metadata decoder and the frame parser:
//! runs of characters of one class, booleans, integers, scientific floats,
//! bare and quoted strings.
//!
//! Each rule is stated as a spec function over a character sequence and a
//! start position, and implemented by an exec function on a `Vec<char>`.
use vstd::prelude::*;

use crate::text::{chars_of, copy_range, string_from};

verus! {

/// A class of characters that a run is made of.
#[derive(Clone, Copy, PartialEq, Eq, Structural)]
pub enum CharClass {
    /// a space or a tab
    Blank,
    /// an ASCII decimal digit
    Digit,
    /// an ASCII letter
    Alpha,
    /// an ASCII letter or digit
    AlphaNum,
    /// an ASCII letter or digit, `_` or `-`
    Bare,
    /// anything but a space, a tab or a line feed
    NonBlank,
    /// anything but a double quote or a backslash
    Unquoted,
    /// anything but a carriage return or a line feed
    InLine,
}

/// How a recognizer failed.
#[derive(Clone, Copy, PartialEq, Eq, Structural, Debug)]
pub enum ScanError {
    /// the input does not start with what the rule recognizes; nothing is
    /// consumed and an alternative may be tried
    Backtrack,
    /// the rule had committed (an exponent marker without its exponent, a
    /// sign without digits): no alternative is tried
    Cut,
}

pub open spec fn is_digit(c: char) -> bool {
    '0' <= c && c <= '9'
}

pub open spec fn is_alpha(c: char) -> bool {
    ('a' <= c && c <= 'z') || ('A' <= c && c <= 'Z')
}

pub open spec fn in_class(c: char, k: CharClass) -> bool {
    match k {
        CharClass::Blank => c == ' ' || c == '\t',
        CharClass::Digit => is_digit(c),
        CharClass::Alpha => is_alpha(c),
        CharClass::AlphaNum => is_alpha(c) || is_digit(c),
        CharClass::Bare => is_alpha(c) || is_digit(c) || c == '_' || c == '-',
        CharClass::NonBlank => !(c == ' ' || c == '\t' || c == '\n'),
        CharClass::Unquoted => c != '"' && c != '\\',
        CharClass::InLine => c != '\r' && c != '\n',
    }
}

pub fn class_has(c: char, k: CharClass) -> (r: bool)
    ensures
        r == in_class(c, k),
{
    match k {
        CharClass::Blank => c == ' ' || c == '\t',
        CharClass::Digit => '0' <= c && c <= '9',
        CharClass::Alpha => ('a' <= c && c <= 'z') || ('A' <= c && c <= 'Z'),
        CharClass::AlphaNum => ('a' <= c && c <= 'z') || ('A' <= c && c <= 'Z') || ('0' <= c
            && c <= '9'),
        CharClass::Bare => ('a' <= c && c <= 'z') || ('A' <= c && c <= 'Z') || ('0' <= c && c
            <= '9') || c == '_' || c == '-',
        CharClass::NonBlank => !(c == ' ' || c == '\t' || c == '\n'),
        CharClass::Unquoted => c != '"' && c != '\\',
        CharClass::InLine => c != '\r' && c != '\n',
    }
}

/// The end of the longest run of characters of class `k` that starts at `p`.
pub open spec fn run_end(s: Seq<char>, p: int, k: CharClass) -> int
    decreases s.len() - p,
{
    if 0 <= p < s.len() && in_class(s[p], k) {
        run_end(s, p + 1, k)
    } else {
        p
    }
}

pub proof fn lemma_run_end_bounds(s: Seq<char>, p: int, k: CharClass)
    requires
        0 <= p <= s.len(),
    ensures
        p <= run_end(s, p, k) <= s.len(),
        forall|i: int| p <= i < run_end(s, p, k) ==> in_class(#[trigger] s[i], k),
    decreases s.len() - p,
{
    if p < s.len() && in_class(s[p], k) {
        lemma_run_end_bounds(s, p + 1, k);
    }
}

pub fn scan_run(s: &Vec<char>, p: usize, k: CharClass) -> (r: usize)
    requires
        p <= s.len(),
    ensures
        r == run_end(s@, p as int, k),
        p <= r <= s.len(),
{
    proof {
        lemma_run_end_bounds(s@, p as int, k);
    }
    let mut i = p;
    while i < s.len() && class_has(s[i], k)
        invariant
            p <= i <= s.len(),
            run_end(s@, p as int, k) == run_end(s@, i as int, k),
        decreases s.len() - i,
    {
        i = i + 1;
    }
    i
}

/// The position after an optional `+` or `-` at `p`.
pub open spec fn sign_end(s: Seq<char>, p: int) -> int {
    if 0 <= p < s.len() && (s[p] == '+' || s[p] == '-') {
        p + 1
    } else {
        p
    }
}

/// Optional sign, then one or more digits: the end, or `Cut` when the digits
/// are missing.
pub open spec fn integer_at(s: Seq<char>, p: int) -> Result<int, ScanError> {
    let q = sign_end(s, p);
    let d = run_end(s, q, CharClass::Digit);
    if d > q {
        Ok(d)
    } else {
        Err(ScanError::Cut)
    }
}

/// The mantissa of a float: optional sign, then `digits[.digits?]` or
/// `.digits`.
pub open spec fn mantissa_at(s: Seq<char>, p: int) -> Option<int> {
    let q = sign_end(s, p);
    let d = run_end(s, q, CharClass::Digit);
    if d > q {
        if d < s.len() && s[d] == '.' {
            Some(run_end(s, d + 1, CharClass::Digit))
        } else {
            Some(d)
        }
    } else if q < s.len() && s[q] == '.' && run_end(s, q + 1, CharClass::Digit) > q + 1 {
        Some(run_end(s, q + 1, CharClass::Digit))
    } else {
        None
    }
}

pub open spec fn is_exponent_marker(c: char) -> bool {
    c == 'e' || c == 'E' || c == 'd' || c == 'D'
}

/// A scientific float at `p`: its text with the exponent marker written as
/// `E`, and its end.
pub open spec fn sci_float_at(s: Seq<char>, p: int) -> Result<(Seq<char>, int), ScanError> {
    match mantissa_at(s, p) {
        None => Err(ScanError::Backtrack),
        Some(m) => if m < s.len() && is_exponent_marker(s[m]) {
            match integer_at(s, m + 1) {
                Ok(x) => Ok((s.subrange(p, m) + seq!['E'] + s.subrange(m + 1, x), x)),
                Err(e) => Err(e),
            }
        } else {
            Ok((s.subrange(p, m), m))
        },
    }
}

/// The word at `p`, each character as in `lower` or as in `upper`.
pub open spec fn word_at(s: Seq<char>, p: int, lower: Seq<char>, upper: Seq<char>) -> bool {
    &&& 0 <= p
    &&& p + lower.len() <= s.len()
    &&& forall|i: int|
        0 <= i < lower.len() ==> #[trigger] s[p + i] == lower[i] || s[p + i] == upper[i]
}

pub open spec fn true_word() -> Seq<char> {
    seq!['t', 'r', 'u', 'e']
}

pub open spec fn false_word() -> Seq<char> {
    seq!['f', 'a', 'l', 's', 'e']
}

pub open spec fn true_upper() -> Seq<char> {
    seq!['T', 'R', 'U', 'E']
}

pub open spec fn false_upper() -> Seq<char> {
    seq!['F', 'A', 'L', 'S', 'E']
}

/// A boolean at `p`: `true` or `false` in any case, or `T` or `F`.
pub open spec fn boolean_at(s: Seq<char>, p: int) -> Option<(bool, int)> {
    if word_at(s, p, true_word(), true_upper()) {
        Some((true, p + 4))
    } else if word_at(s, p, false_word(), false_upper()) {
        Some((false, p + 5))
    } else if 0 <= p < s.len() && s[p] == 'T' {
        Some((true, p + 1))
    } else if 0 <= p < s.len() && s[p] == 'F' {
        Some((false, p + 1))
    } else {
        None
    }
}

/// A bare string at `p` (letters, digits, `_`, `-`): its end.
pub open spec fn bare_at(s: Seq<char>, p: int) -> Option<int> {
    if run_end(s, p, CharClass::Bare) > p {
        Some(run_end(s, p, CharClass::Bare))
    } else {
        None
    }
}

/// A quoted string at `p`: a double quote, one or more characters that are
/// neither quote nor backslash, a closing quote. Gives the end of the content
/// and the end of the whole.
pub open spec fn quoted_at(s: Seq<char>, p: int) -> Option<(int, int)> {
    let e = run_end(s, p + 1, CharClass::Unquoted);
    if 0 <= p < s.len() && s[p] == '"' && e > p + 1 && e < s.len() && s[e] == '"' {
        Some((e, e + 1))
    } else {
        None
    }
}

pub open spec fn bool_text(b: bool) -> Seq<char> {
    if b {
        true_word()
    } else {
        false_word()
    }
}

pub fn scan_integer(s: &Vec<char>, p: usize) -> (r: Result<usize, ScanError>)
    requires
        p <= s.len(),
    ensures
        match r {
            Ok(e) => integer_at(s@, p as int) == Ok::<int, ScanError>(e as int),
            Err(k) => integer_at(s@, p as int) == Err::<int, ScanError>(k),
        },
        r matches Ok(e) ==> p < e <= s.len(),
{
    let q = if p < s.len() && (s[p] == '+' || s[p] == '-') {
        p + 1
    } else {
        p
    };
    let d = scan_run(s, q, CharClass::Digit);
    if d > q {
        Ok(d)
    } else {
        Err(ScanError::Cut)
    }
}

pub fn scan_mantissa(s: &Vec<char>, p: usize) -> (r: Option<usize>)
    requires
        p <= s.len(),
    ensures
        match r {
            Some(m) => mantissa_at(s@, p as int) == Some(m as int),
            None => mantissa_at(s@, p as int) is None,
        },
        r matches Some(m) ==> p < m <= s.len(),
{
    let q = if p < s.len() && (s[p] == '+' || s[p] == '-') {
        p + 1
    } else {
        p
    };
    let d = scan_run(s, q, CharClass::Digit);
    if d > q {
        if d < s.len() && s[d] == '.' {
            Some(scan_run(s, d + 1, CharClass::Digit))
        } else {
            Some(d)
        }
    } else if q < s.len() && s[q] == '.' {
        let e = scan_run(s, q + 1, CharClass::Digit);
        if e > q + 1 {
            Some(e)
        } else {
            None
        }
    } else {
        None
    }
}

pub fn scan_sci_float(s: &Vec<char>, p: usize) -> (r: Result<(Vec<char>, usize), ScanError>)
    requires
        p <= s.len(),
    ensures
        match r {
            Ok((v, f)) => sci_float_at(s@, p as int) == Ok::<(Seq<char>, int), ScanError>(
                (v@, f as int),
            ),
            Err(k) => sci_float_at(s@, p as int) == Err::<(Seq<char>, int), ScanError>(k),
        },
        r matches Ok((v, f)) ==> p < f <= s.len(),
{
    match scan_mantissa(s, p) {
        None => Err(ScanError::Backtrack),
        Some(m) => {
            if m < s.len() && (s[m] == 'e' || s[m] == 'E' || s[m] == 'd' || s[m] == 'D') {
                match scan_integer(s, m + 1) {
                    Ok(x) => {
                        let mut v = copy_range(s, p, m);
                        v.push('E');
                        let tail = copy_range(s, m + 1, x);
                        let ghost head = v@;
                        let mut i: usize = 0;
                        while i < tail.len()
                            invariant
                                0 <= i <= tail.len(),
                                v@ == head + tail@.take(i as int),
                            decreases tail.len() - i,
                        {
                            v.push(tail[i]);
                            i = i + 1;
                            assert(tail@.take(i as int) == tail@.take(i - 1 as int).push(tail@[i - 1]));
                        }
                        assert(tail@.take(tail.len() as int) == tail@);
                        assert(v@ =~= s@.subrange(p as int, m as int) + seq!['E'] + s@.subrange(
                            m + 1,
                            x as int,
                        ));
                        Ok((v, x))
                    },
                    Err(k) => Err(k),
                }
            } else {
                Ok((copy_range(s, p, m), m))
            }
        },
    }
}

pub fn scan_word(s: &Vec<char>, p: usize, lower: &Vec<char>, upper: &Vec<char>) -> (r: bool)
    requires
        p <= s.len(),
        lower.len() == upper.len(),
    ensures
        r == word_at(s@, p as int, lower@, upper@),
{
    if lower.len() > s.len() - p {
        return false;
    }
    let mut i: usize = 0;
    while i < lower.len()
        invariant
            0 <= i <= lower.len(),
            lower.len() == upper.len(),
            p + lower.len() <= s.len(),
            forall|j: int|
                0 <= j < i ==> #[trigger] s@[p + j] == lower@[j] || s@[p + j] == upper@[j],
        decreases lower.len() - i,
    {
        let c = s[p + i];
        if !(c == lower[i] || c == upper[i]) {
            return false;
        }
        i = i + 1;
    }
    true
}

pub fn scan_boolean(s: &Vec<char>, p: usize) -> (r: Option<(bool, usize)>)
    requires
        p <= s.len(),
    ensures
        match r {
            Some((b, e)) => boolean_at(s@, p as int) == Some((b, e as int)),
            None => boolean_at(s@, p as int) is None,
        },
        r matches Some((b, e)) ==> p < e <= s.len(),
{
    let t = vec!['t', 'r', 'u', 'e'];
    let tu = vec!['T', 'R', 'U', 'E'];
    let f = vec!['f', 'a', 'l', 's', 'e'];
    let fu = vec!['F', 'A', 'L', 'S', 'E'];
    assert(t@ == true_word());
    assert(tu@ == true_upper());
    assert(f@ == false_word());
    assert(fu@ == false_upper());
    if scan_word(s, p, &t, &tu) {
        Some((true, p + 4))
    } else if scan_word(s, p, &f, &fu) {
        Some((false, p + 5))
    } else if p < s.len() && s[p] == 'T' {
        Some((true, p + 1))
    } else if p < s.len() && s[p] == 'F' {
        Some((false, p + 1))
    } else {
        None
    }
}

pub fn scan_bare(s: &Vec<char>, p: usize) -> (r: Option<usize>)
    requires
        p <= s.len(),
    ensures
        match r {
            Some(e) => bare_at(s@, p as int) == Some(e as int),
            None => bare_at(s@, p as int) is None,
        },
        r matches Some(e) ==> p < e <= s.len(),
{
    let e = scan_run(s, p, CharClass::Bare);
    if e > p {
        Some(e)
    } else {
        None
    }
}

pub fn scan_quoted(s: &Vec<char>, p: usize) -> (r: Option<(usize, usize)>)
    requires
        p <= s.len(),
    ensures
        match r {
            Some((c, e)) => quoted_at(s@, p as int) == Some((c as int, e as int)),
            None => quoted_at(s@, p as int) is None,
        },
        r matches Some((c, e)) ==> p < c < e <= s.len() && e == c + 1,
{
    if p < s.len() && s[p] == '"' {
        let e = scan_run(s, p + 1, CharClass::Unquoted);
        if e > p + 1 && e < s.len() && s[e] == '"' {
            return Some((e, e + 1));
        }
    }
    None
}

/// One or more digits at `p`: the end, or `Cut` when there is none.
pub open spec fn unsigned_at(s: Seq<char>, p: int) -> Result<int, ScanError> {
    if run_end(s, p, CharClass::Digit) > p {
        Ok(run_end(s, p, CharClass::Digit))
    } else {
        Err(ScanError::Cut)
    }
}

proof fn lemma_run_end_update(s: Seq<char>, p: int, k: CharClass, m: int, c: char)
    requires
        0 <= p <= s.len(),
        0 <= m < s.len(),
        in_class(s[m], k) == in_class(c, k),
    ensures
        run_end(s, p, k) == run_end(s.update(m, c), p, k),
    decreases s.len() - p,
{
    if p < s.len() {
        assert(in_class(s[p], k) == in_class(s.update(m, c)[p], k));
        lemma_run_end_update(s, p + 1, k, m, c);
    }
}

/// The letter of an exponent marker does not matter: a float written with a
/// Fortran `d` or `D` exponent is recognized as the same text, and so the
/// same number, as with `e` or `E`.
pub proof fn lemma_exponent_marker_letter(s: Seq<char>, m: int, c: char)
    requires
        0 <= m < s.len(),
        is_exponent_marker(s[m]),
        is_exponent_marker(c),
    ensures
        sci_float_at(s, 0) == sci_float_at(s.update(m, c), 0),
{
    let t = s.update(m, c);
    assert forall|p: int| 0 <= p <= s.len() implies run_end(s, p, CharClass::Digit) == run_end(
        t,
        p,
        CharClass::Digit,
    ) by {
        lemma_run_end_update(s, p, CharClass::Digit, m, c);
    }
    let q = sign_end(s, 0);
    assert(q == sign_end(t, 0));
    lemma_run_end_bounds(s, q, CharClass::Digit);
    let d = run_end(s, q, CharClass::Digit);
    if d < s.len() {
        lemma_run_end_bounds(s, d + 1, CharClass::Digit);
    }
    if q < s.len() {
        lemma_run_end_bounds(s, q + 1, CharClass::Digit);
    }
    match mantissa_at(s, 0) {
        None => {},
        Some(me) => {
            assert(mantissa_at(t, 0) == Some(me));
            assert(m >= me);
            assert(s.subrange(0, me) =~= t.subrange(0, me));
            if me < s.len() && is_exponent_marker(s[me]) {
                let q2 = sign_end(s, me + 1);
                assert(q2 == sign_end(t, me + 1));
                lemma_run_end_bounds(s, q2, CharClass::Digit);
                let x = run_end(s, q2, CharClass::Digit);
                assert(m == me || m >= x);
                assert(s.subrange(me + 1, x) =~= t.subrange(me + 1, x));
            }
        },
    }
}

proof fn lemma_run_end_prefix(a: Seq<char>, b: Seq<char>, p: int, k: CharClass)
    requires
        a.len() < b.len(),
        b.take(a.len() as int) == a,
        0 <= p <= a.len(),
        !in_class(b[a.len() as int], k),
    ensures
        run_end(a, p, k) == run_end(b, p, k),
    decreases a.len() - p,
{
    if p < a.len() {
        assert(a[p] == b.take(a.len() as int)[p]);
        lemma_run_end_prefix(a, b, p + 1, k);
    }
}

proof fn lemma_run_end_shift(x: Seq<char>, b: Seq<char>, off: int, p: int, k: CharClass)
    requires
        0 <= off,
        b.skip(off) == x,
        off + x.len() == b.len(),
        0 <= p <= x.len(),
    ensures
        run_end(b, off + p, k) == off + run_end(x, p, k),
    decreases x.len() - p,
{
    if p < x.len() {
        assert(x[p] == b.skip(off)[p]);
        lemma_run_end_shift(x, b, off, p + 1, k);
    }
}

/// A float written as a mantissa `m`, an exponent marker `c` (`d`, `D`, `e`
/// or `E`) and an exponent `x` is recognized whole as `m`, `E`, `x`: the
/// Fortran `d` form reads as the same text, and so the same number, as the
/// `E` form.
pub proof fn lemma_exponent_form(m: Seq<char>, c: char, x: Seq<char>)
    requires
        mantissa_at(m, 0) == Some(m.len() as int),
        is_exponent_marker(c),
        integer_at(x, 0) == Ok::<int, ScanError>(x.len() as int),
    ensures
        sci_float_at(m + seq![c] + x, 0) == Ok::<(Seq<char>, int), ScanError>(
            (m + seq!['E'] + x, (m.len() + 1 + x.len()) as int),
        ),
{
    let s = m + seq![c] + x;
    let l = m.len() as int;
    assert(s.take(l) =~= m);
    assert(s[l] == c);
    assert(s.skip(l + 1) =~= x);
    assert forall|p: int| 0 <= p <= l implies run_end(m, p, CharClass::Digit) == run_end(
        s,
        p,
        CharClass::Digit,
    ) by {
        lemma_run_end_prefix(m, s, p, CharClass::Digit);
    }
    assert(sign_end(m, 0) == sign_end(s, 0));
    let q = sign_end(m, 0);
    lemma_run_end_bounds(m, q, CharClass::Digit);
    let d = run_end(m, q, CharClass::Digit);
    if d < l {
        assert(s[d] == m[d]);
    }
    if q < l {
        assert(s[q] == m[q]);
    }
    assert(mantissa_at(s, 0) == Some(l));
    lemma_run_end_shift(x, s, l + 1, sign_end(x, 0), CharClass::Digit);
    if 0 < x.len() {
        assert(s[l + 1] == x[0]);
    }
    assert(sign_end(s, l + 1) == l + 1 + sign_end(x, 0));
    assert(integer_at(s, l + 1) == Ok::<int, ScanError>(s.len() as int));
    assert(s.subrange(0, l) =~= m);
    assert(s.subrange(l + 1, s.len() as int) =~= x);
}

/// Recognizes one or more decimal digits at the start of `input`: the digits
/// and how many characters they take.
pub fn recognize_unsigned_integer(input: &str) -> (r: Result<(String, usize), ScanError>)
    ensures
        match r {
            Ok((t, n)) => unsigned_at(input@, 0) == Ok::<int, ScanError>(n as int) && t@
                == input@.take(n as int),
            Err(k) => unsigned_at(input@, 0) == Err::<int, ScanError>(k),
        },
{
    let s = chars_of(input);
    let e = scan_run(&s, 0, CharClass::Digit);
    if e > 0 {
        Ok((string_from(copy_range(&s, 0, e)), e))
    } else {
        Err(ScanError::Cut)
    }
}

/// Recognizes a boolean at the start of `input`: `true` or `false` in any
/// case, or the shorthand `T` or `F`.
pub fn recognize_boolean(input: &str) -> (r: Result<(bool, usize), ScanError>)
    ensures
        match r {
            Ok((b, n)) => boolean_at(input@, 0) == Some((b, n as int)),
            Err(k) => boolean_at(input@, 0) is None && k == ScanError::Backtrack,
        },
{
    let s = chars_of(input);
    match scan_boolean(&s, 0) {
        Some((b, e)) => Ok((b, e)),
        None => Err(ScanError::Backtrack),
    }
}

/// Recognizes an integer at the start of `input`: an optional sign, then one
/// or more decimal digits.
pub fn recognize_integer(input: &str) -> (r: Result<(String, usize), ScanError>)
    ensures
        match r {
            Ok((t, n)) => integer_at(input@, 0) == Ok::<int, ScanError>(n as int) && t@
                == input@.take(n as int),
            Err(k) => integer_at(input@, 0) == Err::<int, ScanError>(k),
        },
{
    let s = chars_of(input);
    match scan_integer(&s, 0) {
        Ok(e) => Ok((string_from(copy_range(&s, 0, e)), e)),
        Err(k) => Err(k),
    }
}

/// Recognizes a float in scientific notation at the start of `input`; an
/// exponent marked with `e`, `E`, `d` or `D` comes out marked with `E`.
pub fn recognize_sci_float(input: &str) -> (r: Result<(String, usize), ScanError>)
    ensures
        match r {
            Ok((t, n)) => sci_float_at(input@, 0) == Ok::<(Seq<char>, int), ScanError>(
                (t@, n as int),
            ),
            Err(k) => sci_float_at(input@, 0) == Err::<(Seq<char>, int), ScanError>(k),
        },
{
    let s = chars_of(input);
    match scan_sci_float(&s, 0) {
        Ok((v, e)) => Ok((string_from(v), e)),
        Err(k) => Err(k),
    }
}

pub open spec fn digit_value(c: char) -> int {
    if c == '1' {
        1
    } else if c == '2' {
        2
    } else if c == '3' {
        3
    } else if c == '4' {
        4
    } else if c == '5' {
        5
    } else if c == '6' {
        6
    } else if c == '7' {
        7
    } else if c == '8' {
        8
    } else if c == '9' {
        9
    } else {
        0
    }
}

/// The number that a run of decimal digits writes.
pub open spec fn digits_value(d: Seq<char>) -> int
    decreases d.len(),
{
    if d.len() == 0 {
        0
    } else {
        digits_value(d.drop_last()) * 10 + digit_value(d.last())
    }
}

pub proof fn lemma_digits_value_grows(d: Seq<char>, i: int, j: int)
    requires
        0 <= i <= j <= d.len(),
    ensures
        0 <= digits_value(d.take(i)) <= digits_value(d.take(j)),
    decreases j,
{
    if j > i {
        lemma_digits_value_grows(d, i, j - 1);
        assert(d.take(j).drop_last() =~= d.take(j - 1));
    } else {
        lemma_digits_value_nonneg(d.take(i));
    }
}

pub proof fn lemma_digits_value_nonneg(d: Seq<char>)
    ensures
        0 <= digits_value(d),
    decreases d.len(),
{
    if d.len() > 0 {
        lemma_digits_value_nonneg(d.drop_last());
    }
}

fn digit_of(c: char) -> (r: u64)
    ensures
        r == digit_value(c),
        r <= 9,
{
    if c == '1' {
        1
    } else if c == '2' {
        2
    } else if c == '3' {
        3
    } else if c == '4' {
        4
    } else if c == '5' {
        5
    } else if c == '6' {
        6
    } else if c == '7' {
        7
    } else if c == '8' {
        8
    } else if c == '9' {
        9
    } else {
        0
    }
}

/// The number written by the characters of `s` from `a` up to `b`, or `None`
/// where it exceeds `u64::MAX`.
pub fn scan_digits_value(s: &Vec<char>, a: usize, b: usize) -> (r: Option<u64>)
    requires
        a <= b <= s.len(),
    ensures
        match r {
            Some(v) => v == digits_value(s@.subrange(a as int, b as int)),
            None => digits_value(s@.subrange(a as int, b as int)) > u64::MAX,
        },
{
    let ghost d = s@.subrange(a as int, b as int);
    let mut v: u64 = 0;
    let mut i = a;
    assert(d.take(0) =~= Seq::<char>::empty());
    while i < b
        invariant
            a <= i <= b <= s.len(),
            d == s@.subrange(a as int, b as int),
            v == digits_value(d.take(i - a)),
        decreases b - i,
    {
        let c = digit_of(s[i]);
        assert(d.take(i - a + 1).drop_last() =~= d.take(i - a));
        assert(d.take(i - a + 1).last() == s@[i as int]);
        if v > (u64::MAX - c) / 10 {
            proof {
                assert(v * 10 + c > u64::MAX) by (nonlinear_arith)
                    requires
                        v > (u64::MAX - c) / 10,
                        c <= 9,
                ;
                lemma_digits_value_grows(d, i - a + 1, d.len() as int);
                assert(d.take(d.len() as int) =~= d);
            }
            return None;
        }
        proof {
            assert(v * 10 + c <= u64::MAX) by (nonlinear_arith)
                requires
                    v <= (u64::MAX - c) / 10,
                    c <= 9,
            ;
        }
        v = v * 10 + c;
        i = i + 1;
    }
    assert(d.take(b - a) =~= d);
    Some(v)
}

} // verus!
