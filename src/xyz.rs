//! The frame grammar: an atom-count line, a comment line, and atom lines of an
//! element, three coordinates and the rest of the line.
use vstd::prelude::*;

use crate::error::{Context, ParseError};
use crate::grammar::{
    digits_value, run_end, scan_digits_value, scan_run, scan_sci_float, sci_float_at, CharClass,
};
use crate::text::{chars_of, copy_range, string_from, trim_end, trimmed_end};

verus! {

/// One atom line: the element symbol or atomic number, the three Cartesian
/// coordinates (each as its float text, exponent marked `E`), and the rest of
/// the line.
#[derive(Clone, Debug)]
pub struct RawAtom {
    pub element: String,
    pub position: [String; 3],
    pub extra: String,
}

/// One frame: the declared number of atoms, the comment line and the atom
/// lines. The declared number need not match the number of atom lines.
#[derive(Clone, Debug)]
pub struct RawAtoms {
    pub natoms: usize,
    pub comment: String,
    pub atoms: Vec<RawAtom>,
}

/// An atom line as plain values.
pub struct AtomView {
    pub element: Seq<char>,
    pub position: Seq<Seq<char>>,
    pub extra: Seq<char>,
}

impl View for RawAtom {
    type V = AtomView;

    open spec fn view(&self) -> AtomView {
        AtomView {
            element: self.element@,
            position: self.position@.map_values(|x: String| x@),
            extra: self.extra@,
        }
    }
}

pub open spec fn atom_views(v: Seq<RawAtom>) -> Seq<AtomView> {
    v.map_values(|a: RawAtom| a@)
}

/// A line ending at `q`: `\n` or `\r\n`.
pub open spec fn line_end_at(s: Seq<char>, q: int) -> Option<int> {
    if 0 <= q < s.len() && s[q] == '\n' {
        Some(q + 1)
    } else if 0 <= q && q + 1 < s.len() && s[q] == '\r' && s[q + 1] == '\n' {
        Some(q + 2)
    } else {
        None
    }
}

/// The element token after optional blanks at `p`: letters, or else digits.
pub open spec fn element_at(s: Seq<char>, p: int) -> Option<(int, int)> {
    let q = run_end(s, p, CharClass::Blank);
    if run_end(s, q, CharClass::Alpha) > q {
        Some((q, run_end(s, q, CharClass::Alpha)))
    } else if run_end(s, q, CharClass::Digit) > q {
        Some((q, run_end(s, q, CharClass::Digit)))
    } else {
        None
    }
}

/// A float at `p` that follows a run of blanks.
pub open spec fn spaced_float_at(s: Seq<char>, p: int) -> Option<(Seq<char>, int)> {
    let w = run_end(s, p, CharClass::Blank);
    if w > p {
        match sci_float_at(s, w) {
            Ok((t, e)) => Some((t, e)),
            Err(_) => None,
        }
    } else {
        None
    }
}

/// Three floats from `p`, separated by blanks.
pub open spec fn coords_at(s: Seq<char>, p: int) -> Option<(Seq<Seq<char>>, int)> {
    match sci_float_at(s, p) {
        Ok((x, e1)) => match spaced_float_at(s, e1) {
            Some((y, e2)) => match spaced_float_at(s, e2) {
                Some((z, e3)) => Some((seq![x, y, z], e3)),
                None => None,
            },
            None => None,
        },
        Err(_) => None,
    }
}

/// An atom line at `p`, up to its line ending or the end of the text; or the
/// grammar element that failed and where that element starts.
pub open spec fn atom_line_at(s: Seq<char>, p: int) -> Result<(AtomView, int), (Context, int)> {
    match element_at(s, p) {
        None => Err((Context::ElementSymbol, p)),
        Some((es, ee)) => {
            let w = run_end(s, ee, CharClass::Blank);
            if w == ee {
                Err((Context::ElementSymbol, p))
            } else {
                match coords_at(s, w) {
                    None => Err((Context::Coordinates, w)),
                    Some((xyz, c)) => {
                        let x0 = run_end(s, c, CharClass::Blank);
                        let t = run_end(s, x0, CharClass::InLine);
                        if t < s.len() && line_end_at(s, t) is None {
                            Err((Context::AtomExtra, c))
                        } else {
                            Ok(
                                (
                                    AtomView {
                                        element: s.subrange(es, ee),
                                        position: xyz,
                                        extra: s.subrange(x0, t),
                                    },
                                    t,
                                ),
                            )
                        }
                    },
                }
            }
        },
    }
}

/// The atom lines that follow one ending at `q`, each after a line ending.
pub open spec fn atoms_after(s: Seq<char>, q: int) -> Result<(Seq<AtomView>, int), (Context, int)>
    decreases s.len() - q,
{
    match line_end_at(s, q) {
        None => Ok((seq![], q)),
        Some(n) => match atom_line_at(s, n) {
            Err(x) => Err(x),
            Ok((a, e)) => if 0 <= q < e <= s.len() {
                match atoms_after(s, e) {
                    Ok((rest, f)) => Ok((seq![a] + rest, f)),
                    Err(x) => Err(x),
                }
            } else {
                Ok((seq![], q))
            },
        },
    }
}

/// A whole frame: the atom count, the comment line and the atom lines.
pub open spec fn frame_at(s: Seq<char>) -> Result<(int, Seq<char>, Seq<AtomView>), (Context, int)> {
    let q = run_end(s, 0, CharClass::Blank);
    let d = run_end(s, q, CharClass::Digit);
    let w = run_end(s, d, CharClass::Blank);
    if d == q || digits_value(s.subrange(q, d)) > usize::MAX {
        Err((Context::AtomCount, 0))
    } else {
        match line_end_at(s, w) {
            None => Err((Context::AtomCount, 0)),
            Some(c0) => {
                let t = run_end(s, c0, CharClass::InLine);
                match line_end_at(s, t) {
                    None => Err((Context::CommentLine, c0)),
                    Some(a0) => match atom_line_at(s, a0) {
                        Err(x) => Err(x),
                        Ok((a, e)) => match atoms_after(s, e) {
                            Err(x) => Err(x),
                            Ok((rest, f)) => if f == s.len() {
                                Ok((digits_value(s.subrange(q, d)), s.subrange(c0, t), seq![a] + rest))
                            } else {
                                Err((Context::TrailingText, f))
                            },
                        },
                    },
                }
            },
        }
    }
}

fn scan_line_end(s: &Vec<char>, q: usize) -> (r: Option<usize>)
    requires
        q <= s.len(),
    ensures
        match r {
            Some(n) => line_end_at(s@, q as int) == Some(n as int) && q < n <= s.len(),
            None => line_end_at(s@, q as int) is None,
        },
{
    if q < s.len() && s[q] == '\n' {
        Some(q + 1)
    } else if q < s.len() && s.len() - q > 1 && s[q] == '\r' && s[q + 1] == '\n' {
        Some(q + 2)
    } else {
        None
    }
}

fn scan_spaced_float(s: &Vec<char>, p: usize) -> (r: Option<(String, usize)>)
    requires
        p <= s.len(),
    ensures
        match r {
            Some((t, e)) => spaced_float_at(s@, p as int) == Some((t@, e as int)) && p < e
                <= s.len(),
            None => spaced_float_at(s@, p as int) is None,
        },
{
    let w = scan_run(s, p, CharClass::Blank);
    if w > p {
        match scan_sci_float(s, w) {
            Ok((t, e)) => Some((string_from(t), e)),
            Err(_) => None,
        }
    } else {
        None
    }
}

fn scan_atom_line(s: &Vec<char>, p: usize) -> (r: Result<(RawAtom, usize), (Context, usize)>)
    requires
        p <= s.len(),
    ensures
        match r {
            Ok((a, e)) => atom_line_at(s@, p as int) == Ok::<(AtomView, int), (Context, int)>(
                (a@, e as int),
            ) && p < e <= s.len(),
            Err((c, q)) => atom_line_at(s@, p as int) == Err::<(AtomView, int), (Context, int)>(
                (c, q as int),
            ) && q <= s.len(),
        },
{
    let q = scan_run(s, p, CharClass::Blank);
    let a = scan_run(s, q, CharClass::Alpha);
    let ee = if a > q {
        a
    } else {
        let d = scan_run(s, q, CharClass::Digit);
        if d > q {
            d
        } else {
            return Err((Context::ElementSymbol, p));
        }
    };
    let w = scan_run(s, ee, CharClass::Blank);
    if w == ee {
        return Err((Context::ElementSymbol, p));
    }
    let (x, e1) = match scan_sci_float(s, w) {
        Ok((t, e)) => (string_from(t), e),
        Err(_) => {
            return Err((Context::Coordinates, w));
        },
    };
    let (y, e2) = match scan_spaced_float(s, e1) {
        Some(v) => v,
        None => {
            return Err((Context::Coordinates, w));
        },
    };
    let (z, c) = match scan_spaced_float(s, e2) {
        Some(v) => v,
        None => {
            return Err((Context::Coordinates, w));
        },
    };
    let x0 = scan_run(s, c, CharClass::Blank);
    let t = scan_run(s, x0, CharClass::InLine);
    if t < s.len() && scan_line_end(s, t).is_none() {
        return Err((Context::AtomExtra, c));
    }
    let atom = RawAtom {
        element: string_from(copy_range(s, q, ee)),
        position: [x, y, z],
        extra: string_from(copy_range(s, x0, t)),
    };
    assert(atom@.position =~= (coords_at(s@, w as int)->0).0);
    Ok((atom, t))
}

fn scan_frame(s: &Vec<char>) -> (r: Result<(usize, String, Vec<RawAtom>), (Context, usize)>)
    ensures
        match r {
            Ok((n, c, atoms)) => frame_at(s@) == Ok::<
                (int, Seq<char>, Seq<AtomView>),
                (Context, int),
            >((n as int, c@, atom_views(atoms@))),
            Err((c, q)) => frame_at(s@) == Err::<(int, Seq<char>, Seq<AtomView>), (Context, int)>(
                (c, q as int),
            ) && q <= s.len(),
        },
{
    let q = scan_run(s, 0, CharClass::Blank);
    let d = scan_run(s, q, CharClass::Digit);
    if d == q {
        return Err((Context::AtomCount, 0));
    }
    let v = match scan_digits_value(s, q, d) {
        None => {
            return Err((Context::AtomCount, 0));
        },
        Some(v) => v,
    };
    if v > usize::MAX as u64 {
        return Err((Context::AtomCount, 0));
    }
    let w = scan_run(s, d, CharClass::Blank);
    let c0 = match scan_line_end(s, w) {
        None => {
            return Err((Context::AtomCount, 0));
        },
        Some(c) => c,
    };
    let t = scan_run(s, c0, CharClass::InLine);
    let a0 = match scan_line_end(s, t) {
        None => {
            return Err((Context::CommentLine, c0));
        },
        Some(a) => a,
    };
    let (first, e) = match scan_atom_line(s, a0) {
        Err(x) => {
            return Err(x);
        },
        Ok(x) => x,
    };
    let ghost fv = first@;
    let ghost e0 = e as int;
    let mut atoms: Vec<RawAtom> = Vec::new();
    atoms.push(first);
    let mut pos = e;
    assert(atom_views(atoms@) =~= seq![fv]);
    assert(atoms_after(s@, e0) matches Err(x) ==> frame_at(s@) == Err::<
        (int, Seq<char>, Seq<AtomView>),
        (Context, int),
    >(x));
    loop
        invariant
            0 < pos <= s.len(),
            atoms_after(s@, e0) matches Err(x) ==> frame_at(s@) == Err::<
                (int, Seq<char>, Seq<AtomView>),
                (Context, int),
            >(x),
            match atoms_after(s@, e0) {
                Ok((ts, f)) => match atoms_after(s@, pos as int) {
                    Ok((us, g)) => g == f && atom_views(atoms@) + us == seq![fv] + ts,
                    Err(_) => false,
                },
                Err(x) => atoms_after(s@, pos as int) == Err::<(Seq<AtomView>, int), (Context, int)>(
                    x,
                ),
            },
        ensures
            0 < pos <= s.len(),
            atoms_after(s@, pos as int) == Ok::<(Seq<AtomView>, int), (Context, int)>(
                (seq![], pos as int),
            ),
        decreases s.len() - pos,
    {
        let n = match scan_line_end(s, pos) {
            None => {
                break ;
            },
            Some(n) => n,
        };
        match scan_atom_line(s, n) {
            Err(x) => {
                assert(atoms_after(s@, pos as int) == Err::<(Seq<AtomView>, int), (Context, int)>(
                    (x.0, x.1 as int),
                ));
                return Err(x);
            },
            Ok((a, f)) => {
                let ghost before = atom_views(atoms@);
                let ghost av = a@;
                atoms.push(a);
                assert(atom_views(atoms@) =~= before.push(av));
                proof {
                    match atoms_after(s@, f as int) {
                        Ok((us, g)) => {
                            assert(before.push(av) + us =~= before + (seq![av] + us));
                        },
                        Err(_) => {},
                    }
                }
                pos = f;
            },
        }
    }
    assert(atom_views(atoms@) =~= atom_views(atoms@) + seq![]);
    if pos != s.len() {
        return Err((Context::TrailingText, pos));
    }
    Ok((v as usize, string_from(copy_range(s, c0, t)), atoms))
}

impl RawAtom {
    /// Parses one atom line (trailing whitespace ignored): an element symbol or
    /// atomic number, blanks, three floats separated by blanks, and the rest of
    /// the line as `extra`.
    pub fn parse_from(input: &str) -> (r: Result<RawAtom, ParseError>)
        ensures
            match r {
                Ok(a) => atom_line_at(trim_end(input@), 0) == Ok::<(AtomView, int), (Context, int)>(
                    (a@, trim_end(input@).len() as int),
                ),
                Err(e) => e.input@ == input@ && match atom_line_at(trim_end(input@), 0) {
                    Ok((_, end)) => end < trim_end(input@).len() && e.context == Context::TrailingText
                        && e.remainder@ == trim_end(input@).subrange(end, trim_end(input@).len() as int),
                    Err((c, q)) => e.context == c && e.remainder@ == trim_end(input@).subrange(
                        q,
                        trim_end(input@).len() as int,
                    ),
                },
            },
    {
        let s = trimmed_end(&chars_of(input));
        match scan_atom_line(&s, 0) {
            Ok((a, e)) => if e == s.len() {
                Ok(a)
            } else {
                Err(
                    ParseError {
                        context: Context::TrailingText,
                        remainder: string_from(copy_range(&s, e, s.len())),
                        input: input.to_owned(),
                    },
                )
            },
            Err((c, q)) => Err(
                ParseError {
                    context: c,
                    remainder: string_from(copy_range(&s, q, s.len())),
                    input: input.to_owned(),
                },
            ),
        }
    }
}

impl RawAtoms {
    /// Parses a complete frame (trailing whitespace ignored): the atom-count
    /// line, the comment line, and one or more atom lines.
    pub fn parse_from(input: &str) -> (r: Result<RawAtoms, ParseError>)
        ensures
            match r {
                Ok(f) => frame_at(trim_end(input@)) == Ok::<
                    (int, Seq<char>, Seq<AtomView>),
                    (Context, int),
                >((f.natoms as int, f.comment@, atom_views(f.atoms@))),
                Err(e) => e.input@ == input@ && (frame_at(trim_end(input@)) matches Err((c, q))
                    && e.context == c && e.remainder@ == trim_end(input@).subrange(
                    q,
                    trim_end(input@).len() as int,
                )),
            },
            r matches Ok(f) ==> f.atoms.len() >= 1,
    {
        let s = trimmed_end(&chars_of(input));
        match scan_frame(&s) {
            Ok((n, c, atoms)) => {
                proof {
                    if atoms.len() == 0 {
                        assert(atom_views(atoms@).len() == 0);
                    }
                }
                Ok(RawAtoms { natoms: n, comment: c, atoms })
            },
            Err((c, q)) => Err(
                ParseError {
                    context: c,
                    remainder: string_from(copy_range(&s, q, s.len())),
                    input: input.to_owned(),
                },
            ),
        }
    }
}

} // verus!
