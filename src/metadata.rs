//! The comment line of an extxyz frame: its `key=value` tokens, and the
//! rewriting of a value's text before it is decoded (floats in Fortran
//! notation, booleans, arrays in the legacy bare-list form).
use vstd::prelude::*;

use crate::grammar::{
    bare_at, bool_text, boolean_at, false_upper, false_word, in_class, sign_end, true_upper,
    true_word, word_at, quoted_at, run_end, scan_bare, scan_boolean, scan_quoted,
    scan_run, scan_sci_float, sci_float_at, CharClass, ScanError,
};
use crate::text::{append_chars, chars_of, copy_range, string_from};

verus! {

/// A key at `p`, quoted or bare: where its text starts and ends, and where the
/// key ends.
pub open spec fn key_at(s: Seq<char>, p: int) -> Option<(int, int, int)> {
    match quoted_at(s, p) {
        Some((c, e)) => Some((p + 1, c, e)),
        None => match bare_at(s, p) {
            Some(e) => Some((p, e, e)),
            None => None,
        },
    }
}

/// A value at `p`: a quoted string, or else the longest run of characters
/// other than space, tab and line feed (possibly empty).
pub open spec fn value_at(s: Seq<char>, p: int) -> (int, int, int) {
    match quoted_at(s, p) {
        Some((c, e)) => (p + 1, c, e),
        None => (p, run_end(s, p, CharClass::NonBlank), run_end(s, p, CharClass::NonBlank)),
    }
}

/// One `key=value` token at `p`, with optional blanks around `=`.
pub open spec fn key_value_at(s: Seq<char>, p: int) -> Option<(Seq<char>, Seq<char>, int)> {
    match key_at(s, p) {
        None => None,
        Some((ks, ke, q)) => {
            let q1 = run_end(s, q, CharClass::Blank);
            if q1 < s.len() && s[q1] == '=' {
                let (vs, ve, e) = value_at(s, run_end(s, q1 + 1, CharClass::Blank));
                Some((s.subrange(ks, ke), s.subrange(vs, ve), e))
            } else {
                None
            }
        },
    }
}

/// The tokens that follow a first one ending at `q`, each after a run of
/// blanks, and where the last one ends.
pub open spec fn pairs_after(s: Seq<char>, q: int) -> (Seq<(Seq<char>, Seq<char>)>, int)
    decreases s.len() - q,
{
    let w = run_end(s, q, CharClass::Blank);
    if 0 <= q < w {
        match key_value_at(s, w) {
            Some((k, v, e)) => if q < e <= s.len() {
                let (rest, f) = pairs_after(s, e);
                (seq![(k, v)] + rest, f)
            } else {
                (seq![], q)
            },
            None => (seq![], q),
        }
    } else {
        (seq![], q)
    }
}

/// Zero or more `key=value` tokens separated by blanks, from `p`: the pairs
/// and where they end.
pub open spec fn pairs_at(s: Seq<char>, p: int) -> (Seq<(Seq<char>, Seq<char>)>, int) {
    match key_value_at(s, p) {
        Some((k, v, e)) => if p < e <= s.len() {
            let (rest, f) = pairs_after(s, e);
            (seq![(k, v)] + rest, f)
        } else {
            (seq![], p)
        },
        None => (seq![], p),
    }
}

pub open spec fn pair_views(v: Seq<(String, String)>) -> Seq<(Seq<char>, Seq<char>)> {
    v.map_values(|x: (String, String)| (x.0@, x.1@))
}

fn scan_key_value(s: &Vec<char>, p: usize) -> (r: Option<(String, String, usize)>)
    requires
        p <= s.len(),
    ensures
        match r {
            Some((k, v, e)) => key_value_at(s@, p as int) == Some((k@, v@, e as int)) && p < e
                <= s.len(),
            None => key_value_at(s@, p as int) is None,
        },
{
    let (ks, ke, q) = match scan_quoted(s, p) {
        Some((c, e)) => (p + 1, c, e),
        None => match scan_bare(s, p) {
            Some(e) => (p, e, e),
            None => {
                return None;
            },
        },
    };
    let q1 = scan_run(s, q, CharClass::Blank);
    if q1 < s.len() && s[q1] == '=' {
        let q2 = scan_run(s, q1 + 1, CharClass::Blank);
        let (vs, ve, e) = match scan_quoted(s, q2) {
            Some((c, e)) => (q2 + 1, c, e),
            None => {
                let e = scan_run(s, q2, CharClass::NonBlank);
                (q2, e, e)
            },
        };
        let k = string_from(copy_range(s, ks, ke));
        let v = string_from(copy_range(s, vs, ve));
        Some((k, v, e))
    } else {
        None
    }
}

pub(crate) fn scan_pairs(s: &Vec<char>) -> (r: (Vec<(String, String)>, usize))
    ensures
        pair_views(r.0@) == pairs_at(s@, 0).0,
        r.1 == pairs_at(s@, 0).1,
        r.1 <= s.len(),
{
    let mut pairs: Vec<(String, String)> = Vec::new();
    let mut pos: usize;
    match scan_key_value(s, 0) {
        None => {
            assert(pair_views(pairs@) =~= seq![]);
            return (pairs, 0);
        },
        Some((k, v, e)) => {
            pairs.push((k, v));
            pos = e;
        },
    }
    assert(pair_views(pairs@) + pairs_after(s@, pos as int).0 =~= pairs_at(s@, 0).0);
    loop
        invariant
            pos <= s.len(),
            pair_views(pairs@) + pairs_after(s@, pos as int).0 == pairs_at(s@, 0).0,
            pairs_after(s@, pos as int).1 == pairs_at(s@, 0).1,
        decreases s.len() - pos,
    {
        let w = scan_run(s, pos, CharClass::Blank);
        if w == pos {
            assert(pair_views(pairs@) =~= pair_views(pairs@) + pairs_after(s@, pos as int).0);
            return (pairs, pos);
        }
        match scan_key_value(s, w) {
            None => {
                assert(pair_views(pairs@) =~= pair_views(pairs@) + pairs_after(s@, pos as int).0);
                return (pairs, pos);
            },
            Some((k, v, e)) => {
                let ghost before = pair_views(pairs@);
                let ghost kv = (k@, v@);
                pairs.push((k, v));
                assert(pair_views(pairs@) =~= before.push(kv));
                assert(pairs_after(s@, pos as int).0 =~= seq![kv] + pairs_after(s@, e as int).0);
                assert(pair_views(pairs@) + pairs_after(s@, e as int).0 =~= before
                    + pairs_after(s@, pos as int).0);
                pos = e;
            },
        }
    }
}

/// Recognizes one `key=value` token at the start of `input`: the key, the
/// value (both without their quotes) and how many characters the token takes.
pub fn key_value(input: &str) -> (r: Option<((String, String), usize)>)
    ensures
        match r {
            Some(((k, v), n)) => key_value_at(input@, 0) == Some((k@, v@, n as int)),
            None => key_value_at(input@, 0) is None,
        },
{
    let s = chars_of(input);
    match scan_key_value(&s, 0) {
        Some((k, v, e)) => Some(((k, v), e)),
        None => None,
    }
}

/// Splits a comment line into its `key=value` tokens, separated by runs of
/// blanks: the pairs in the order they stand, and how many characters they
/// take. Parsing stops before the first text that is not a further token.
pub fn parse_key_value_pairs(input: &str) -> (r: (Vec<(String, String)>, usize))
    ensures
        pair_views(r.0@) == pairs_at(input@, 0).0,
        r.1 == pairs_at(input@, 0).1,
{
    let s = chars_of(input);
    scan_pairs(&s)
}

/// One element of a legacy array at `p`: a float, a boolean or a bare
/// string, as its rewritten text.
pub open spec fn element_at(s: Seq<char>, p: int) -> Result<(Seq<char>, int), ScanError> {
    match sci_float_at(s, p) {
        Ok(x) => Ok(x),
        Err(ScanError::Cut) => Err(ScanError::Cut),
        Err(ScanError::Backtrack) => match boolean_at(s, p) {
            Some((b, e)) => Ok((bool_text(b), e)),
            None => match bare_at(s, p) {
                Some(e) => Ok((s.subrange(p, e), e)),
                None => Err(ScanError::Backtrack),
            },
        },
    }
}

/// A separator of a legacy array at `p`: blanks, or a comma and optional
/// blanks.
pub open spec fn separator_at(s: Seq<char>, p: int) -> Option<int> {
    if run_end(s, p, CharClass::Blank) > p {
        Some(run_end(s, p, CharClass::Blank))
    } else if 0 <= p < s.len() && s[p] == ',' {
        Some(run_end(s, p + 1, CharClass::Blank))
    } else {
        None
    }
}

/// The elements that follow one ending at `q`, each after a separator.
pub open spec fn elements_after(s: Seq<char>, q: int) -> Result<(Seq<Seq<char>>, int), ScanError>
    decreases s.len() - q,
{
    match separator_at(s, q) {
        None => Ok((seq![], q)),
        Some(w) => match element_at(s, w) {
            Err(ScanError::Cut) => Err(ScanError::Cut),
            Err(ScanError::Backtrack) => Ok((seq![], q)),
            Ok((t, e)) => if 0 <= q < e <= s.len() {
                match elements_after(s, e) {
                    Ok((ts, f)) => Ok((seq![t] + ts, f)),
                    Err(k) => Err(k),
                }
            } else {
                Ok((seq![], q))
            },
        },
    }
}

pub open spec fn is_open_bracket(c: char) -> bool {
    c == '[' || c == '{'
}

pub open spec fn is_close_bracket(c: char) -> bool {
    c == ']' || c == '}'
}

/// A legacy array at the start of `s`: an optional `[` or `{`, two or more
/// elements with separators, an optional `]` or `}`. Gives the rewritten
/// elements and the end.
pub open spec fn old_array_at(s: Seq<char>) -> Result<(Seq<Seq<char>>, int), ScanError> {
    let p: int = if 0 < s.len() && is_open_bracket(s[0]) {
        1
    } else {
        0
    };
    match element_at(s, p) {
        Err(k) => Err(k),
        Ok((t, e)) => match elements_after(s, e) {
            Err(k) => Err(k),
            Ok((ts, f)) => if ts.len() >= 1 {
                let g = if 0 <= f < s.len() && is_close_bracket(s[f]) {
                    f + 1
                } else {
                    f
                };
                Ok((seq![t] + ts, g))
            } else {
                Err(ScanError::Backtrack)
            },
        },
    }
}

/// The texts joined with `, `.
pub open spec fn joined(ts: Seq<Seq<char>>) -> Seq<char>
    decreases ts.len(),
{
    if ts.len() == 0 {
        seq![]
    } else if ts.len() == 1 {
        ts[0]
    } else {
        joined(ts.drop_last()) + seq![',', ' '] + ts.last()
    }
}

/// The texts as a bracketed, comma-separated array literal.
pub open spec fn bracketed(ts: Seq<Seq<char>>) -> Seq<char> {
    seq!['['] + joined(ts) + seq![']']
}

/// A value's text rewritten for decoding: a float that is the whole text in
/// its `E` form, a boolean that is the whole text as `true` or `false`, a
/// legacy array that is the whole text as a bracketed literal; any other text
/// as it is.
pub open spec fn rewritten(s: Seq<char>) -> Seq<char> {
    match sci_float_at(s, 0) {
        Ok((t, e)) => if e == s.len() {
            t
        } else {
            rewritten_as_non_float(s)
        },
        Err(_) => rewritten_as_non_float(s),
    }
}

pub open spec fn rewritten_as_non_float(s: Seq<char>) -> Seq<char> {
    match boolean_at(s, 0) {
        Some((b, e)) => if e == s.len() {
            bool_text(b)
        } else {
            rewritten_as_array(s)
        },
        None => rewritten_as_array(s),
    }
}

pub open spec fn rewritten_as_array(s: Seq<char>) -> Seq<char> {
    match old_array_at(s) {
        Ok((ts, e)) => if e == s.len() {
            bracketed(ts)
        } else {
            s
        },
        Err(_) => s,
    }
}

pub open spec fn string_views(v: Seq<String>) -> Seq<Seq<char>> {
    v.map_values(|x: String| x@)
}

fn bool_chars(b: bool) -> (r: Vec<char>)
    ensures
        r@ == bool_text(b),
{
    if b {
        let v = vec!['t', 'r', 'u', 'e'];
        assert(v@ == bool_text(b));
        v
    } else {
        let v = vec!['f', 'a', 'l', 's', 'e'];
        assert(v@ == bool_text(b));
        v
    }
}

fn scan_element(s: &Vec<char>, p: usize) -> (r: Result<(Vec<char>, usize), ScanError>)
    requires
        p <= s.len(),
    ensures
        match r {
            Ok((t, e)) => element_at(s@, p as int) == Ok::<(Seq<char>, int), ScanError>(
                (t@, e as int),
            ) && p < e <= s.len(),
            Err(k) => element_at(s@, p as int) == Err::<(Seq<char>, int), ScanError>(k),
        },
{
    match scan_sci_float(s, p) {
        Ok(x) => Ok(x),
        Err(ScanError::Cut) => Err(ScanError::Cut),
        Err(ScanError::Backtrack) => match scan_boolean(s, p) {
            Some((b, e)) => Ok((bool_chars(b), e)),
            None => match scan_bare(s, p) {
                Some(e) => Ok((copy_range(s, p, e), e)),
                None => Err(ScanError::Backtrack),
            },
        },
    }
}

fn scan_separator(s: &Vec<char>, p: usize) -> (r: Option<usize>)
    requires
        p <= s.len(),
    ensures
        match r {
            Some(w) => separator_at(s@, p as int) == Some(w as int) && p < w <= s.len(),
            None => separator_at(s@, p as int) is None,
        },
{
    let w = scan_run(s, p, CharClass::Blank);
    if w > p {
        Some(w)
    } else if p < s.len() && s[p] == ',' {
        Some(scan_run(s, p + 1, CharClass::Blank))
    } else {
        None
    }
}

fn scan_old_array(s: &Vec<char>) -> (r: Result<(Vec<Vec<char>>, usize), ScanError>)
    ensures
        match r {
            Ok((ts, e)) => old_array_at(s@) == Ok::<(Seq<Seq<char>>, int), ScanError>(
                (ts@.map_values(|t: Vec<char>| t@), e as int),
            ) && e <= s.len(),
            Err(k) => old_array_at(s@) == Err::<(Seq<Seq<char>>, int), ScanError>(k),
        },
        r matches Ok((ts, e)) ==> ts.len() >= 2,
{
    let p: usize = if 0 < s.len() && (s[0] == '[' || s[0] == '{') {
        1
    } else {
        0
    };
    let (t, e) = match scan_element(s, p) {
        Err(k) => {
            return Err(k);
        },
        Ok(x) => x,
    };
    let ghost first = t@;
    let ghost e0 = e as int;
    let mut items: Vec<Vec<char>> = Vec::new();
    items.push(t);
    let mut pos = e;
    assert(items@.map_values(|t: Vec<char>| t@) =~= seq![first]);
    loop
        invariant
            0 < pos <= s.len(),
            items@.len() >= 1,
            items@.map_values(|t: Vec<char>| t@)[0] == first,
            element_at(s@, p as int) == Ok::<(Seq<char>, int), ScanError>((first, e0)),
            p as int == (if 0 < s@.len() && is_open_bracket(s@[0]) {
                1int
            } else {
                0int
            }),
            match elements_after(s@, e0) {
                Ok((ts, f)) => match elements_after(s@, pos as int) {
                    Ok((us, g)) => g == f && items@.map_values(|t: Vec<char>| t@) + us == seq![
                        first,
                    ] + ts,
                    Err(_) => false,
                },
                Err(k) => elements_after(s@, pos as int) == Err::<(Seq<Seq<char>>, int), ScanError>(
                    k,
                ),
            },
        ensures
            0 < pos <= s.len(),
            elements_after(s@, pos as int) == Ok::<(Seq<Seq<char>>, int), ScanError>(
                (seq![], pos as int),
            ),
        decreases s.len() - pos,
    {
        let w = match scan_separator(s, pos) {
            None => {
                break ;
            },
            Some(w) => w,
        };
        match scan_element(s, w) {
            Err(ScanError::Cut) => {
                assert(elements_after(s@, pos as int) == Err::<(Seq<Seq<char>>, int), ScanError>(
                    ScanError::Cut,
                ));
                return Err(ScanError::Cut);
            },
            Err(ScanError::Backtrack) => {
                break ;
            },
            Ok((u, f)) => {
                let ghost before = items@.map_values(|t: Vec<char>| t@);
                let ghost uv = u@;
                items.push(u);
                assert(items@.map_values(|t: Vec<char>| t@) =~= before.push(uv));
                proof {
                    match elements_after(s@, f as int) {
                        Ok((us, g)) => {
                            assert(before.push(uv) + us =~= before + (seq![uv] + us));
                        },
                        Err(_) => {},
                    }
                }
                pos = f;
            },
        }
    }
    proof {
        assert(items@.map_values(|t: Vec<char>| t@) =~= items@.map_values(|t: Vec<char>| t@)
            + seq![]);
    }
    if items.len() < 2 {
        return Err(ScanError::Backtrack);
    }
    let g = if pos < s.len() && (s[pos] == ']' || s[pos] == '}') {
        pos + 1
    } else {
        pos
    };
    Ok((items, g))
}

/// A single scalar is never promoted to an array: where the whole text is one
/// float, one boolean or one bare string, no legacy array is recognized, and
/// the text is rewritten as that scalar or kept as it is.
pub proof fn lemma_single_scalar_not_array(s: Seq<char>)
    requires
        (sci_float_at(s, 0) matches Ok((t, e)) && e == s.len()) || (boolean_at(s, 0) matches Some(
            (b, e),
        ) && e == s.len()) || bare_at(s, 0) == Some(s.len() as int),
    ensures
        old_array_at(s) is Err,
        rewritten(s) == s || (sci_float_at(s, 0) matches Ok((t, e)) && rewritten(s) == t) || (
        boolean_at(s, 0) matches Some((b, e)) && rewritten(s) == bool_text(b)),
{
    crate::grammar::lemma_run_end_bounds(s, 0, CharClass::Bare);
    crate::grammar::lemma_run_end_bounds(s, sign_end(s, 0), CharClass::Digit);
    if word_at(s, 0, true_word(), true_upper()) {
        assert(s[0int + 0int] == true_word()[0] || s[0int + 0int] == true_upper()[0]);
    }
    if word_at(s, 0, false_word(), false_upper()) {
        assert(s[0int + 0int] == false_word()[0] || s[0int + 0int] == false_upper()[0]);
    }
    assert(!(0 < s.len() && is_open_bracket(s[0])));
    match element_at(s, 0) {
        Err(_) => {},
        Ok((t, e)) => {
            if bare_at(s, 0) == Some(s.len() as int) && 0 <= e < s.len() {
                assert(in_class(s[e], CharClass::Bare));
            }
            assert(separator_at(s, e) is None);
        },
    }
}

pub open spec fn char_views(v: Seq<Vec<char>>) -> Seq<Seq<char>> {
    v.map_values(|t: Vec<char>| t@)
}

fn bracket_chars(ts: &Vec<Vec<char>>) -> (r: Vec<char>)
    ensures
        r@ == bracketed(char_views(ts@)),
{
    let mut v: Vec<char> = Vec::new();
    v.push('[');
    let ghost all = char_views(ts@);
    let mut i: usize = 0;
    while i < ts.len()
        invariant
            0 <= i <= ts.len(),
            all == char_views(ts@),
            v@ == seq!['['] + joined(all.take(i as int)),
        decreases ts.len() - i,
    {
        assert(all.take(i + 1 as int).drop_last() =~= all.take(i as int));
        if i > 0 {
            v.push(',');
            v.push(' ');
        }
        append_chars(&mut v, &ts[i]);
        i = i + 1;
        assert(v@ =~= seq!['['] + joined(all.take(i as int)));
    }
    assert(all.take(ts.len() as int) =~= all);
    v.push(']');
    v
}

fn strings_of(ts: Vec<Vec<char>>) -> (r: Vec<String>)
    ensures
        string_views(r@) == char_views(ts@),
        r.len() == ts.len(),
{
    let mut out: Vec<String> = Vec::new();
    let mut i: usize = 0;
    while i < ts.len()
        invariant
            0 <= i <= ts.len(),
            string_views(out@) =~= char_views(ts@).take(i as int),
        decreases ts.len() - i,
    {
        let t = copy_range(&ts[i], 0, ts[i].len());
        assert(t@ =~= ts@[i as int]@);
        let ghost before = string_views(out@);
        out.push(string_from(t));
        assert(string_views(out@) =~= before.push(t@));
        assert(char_views(ts@).take(i + 1 as int) =~= char_views(ts@).take(i as int).push(
            char_views(ts@)[i as int],
        ));
        i = i + 1;
    }
    assert(char_views(ts@).take(ts.len() as int) =~= char_views(ts@));
    out
}

/// Recognizes a legacy array at the start of `input` (an optional bracket,
/// two or more floats, booleans or bare strings separated by blanks or commas,
/// an optional closing bracket): the elements as rewritten text, and how many
/// characters the array takes.
pub fn recognize_old_one_d_array(input: &str) -> (r: Result<(Vec<String>, usize), ScanError>)
    ensures
        match r {
            Ok((ts, n)) => old_array_at(input@) == Ok::<(Seq<Seq<char>>, int), ScanError>(
                (string_views(ts@), n as int),
            ),
            Err(k) => old_array_at(input@) == Err::<(Seq<Seq<char>>, int), ScanError>(k),
        },
        r matches Ok((ts, n)) ==> ts.len() >= 2,
{
    let s = chars_of(input);
    match scan_old_array(&s) {
        Ok((ts, e)) => Ok((strings_of(ts), e)),
        Err(k) => Err(k),
    }
}

fn rewrite_as_array(s: &Vec<char>) -> (r: Vec<char>)
    ensures
        r@ == rewritten_as_array(s@),
{
    match scan_old_array(s) {
        Ok((ts, e)) => if e == s.len() {
            bracket_chars(&ts)
        } else {
            copy_range(s, 0, s.len())
        },
        Err(_) => copy_range(s, 0, s.len()),
    }
}

pub(crate) fn rewrite(s: &Vec<char>) -> (r: Vec<char>)
    ensures
        r@ == rewritten(s@),
{
    proof {
        assert(s@.subrange(0, s.len() as int) =~= s@);
    }
    match scan_sci_float(s, 0) {
        Ok((t, e)) => if e == s.len() {
            return t;
        },
        Err(_) => {},
    }
    match scan_boolean(s, 0) {
        Some((b, e)) => if e == s.len() {
            return bool_chars(b);
        },
        None => {},
    }
    rewrite_as_array(s)
}

/// Rewrites the legacy array that is the whole of `input` as a bracketed,
/// comma-separated literal, or gives `input` back where the array stops
/// early; `Backtrack` or `Cut` where no legacy array starts `input`.
pub fn reformat_old_style_array(input: &str) -> (r: Result<String, ScanError>)
    ensures
        match r {
            Ok(t) => match old_array_at(input@) {
                Ok((ts, e)) => t@ == if e == input@.len() {
                    bracketed(ts)
                } else {
                    input@
                },
                Err(_) => false,
            },
            Err(k) => old_array_at(input@) == Err::<(Seq<Seq<char>>, int), ScanError>(k),
        },
{
    let s = chars_of(input);
    proof {
        assert(s@.subrange(0, s.len() as int) =~= s@);
    }
    match scan_old_array(&s) {
        Ok((ts, e)) => if e == s.len() {
            Ok(string_from(bracket_chars(&ts)))
        } else {
            Ok(string_from(copy_range(&s, 0, s.len())))
        },
        Err(k) => Err(k),
    }
}

/// Rewrites a value of the comment line for decoding: a float in its `E`
/// form, a boolean as `true` or `false`, a legacy array as a bracketed
/// literal, each only where it is the whole text; any other text as it is.
pub fn reformat_extxyz_value(input: &str) -> (r: String)
    ensures
        r@ == rewritten(input@),
{
    let s = chars_of(input);
    string_from(rewrite(&s))
}

} // verus!
