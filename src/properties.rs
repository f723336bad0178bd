//! The `Properties` column specification and the decoding of an atom's extra
//! columns against it.
use vstd::prelude::*;

use crate::dict::Dict;
use crate::error::{Context, ParseError};
use crate::grammar::{
    bare_at, boolean_at, digits_value, integer_at, run_end, scan_bare, scan_boolean,
    scan_digits_value, scan_integer, scan_run, scan_sci_float, sci_float_at, sign_end, CharClass,
    ScanError,
};
use crate::info::Info;
use crate::json::json_string_of;
use crate::text::{chars_of, copy_range, string_from, trim, trimmed_end, trimmed_start};

verus! {

/// The type of the values in a column of `Properties`.
#[derive(Clone, Copy, PartialEq, Eq, Structural, Debug)]
pub enum PropertyValueType {
    /// S
    String,
    /// I
    Integer,
    /// L
    Logical,
    /// R
    Real,
}

pub open spec fn type_of_code(c: char) -> Option<PropertyValueType> {
    if c == 'S' {
        Some(PropertyValueType::String)
    } else if c == 'I' {
        Some(PropertyValueType::Integer)
    } else if c == 'R' {
        Some(PropertyValueType::Real)
    } else if c == 'L' {
        Some(PropertyValueType::Logical)
    } else {
        None
    }
}

impl PropertyValueType {
    /// The type that a one-letter code of `Properties` names.
    pub fn new(t: char) -> (r: Self)
        requires
            type_of_code(t) is Some,
        ensures
            type_of_code(t) == Some(r),
    {
        if t == 'S' {
            PropertyValueType::String
        } else if t == 'I' {
            PropertyValueType::Integer
        } else if t == 'R' {
            PropertyValueType::Real
        } else {
            PropertyValueType::Logical
        }
    }
}

/// One entry of `Properties`: a field name, the type of its values and the
/// number of consecutive columns it takes.
///
/// Example input: `Properties=species:S:1:pos:R:3`
#[derive(Clone, Debug)]
pub struct PropertyValue {
    pub name: String,
    pub value_type: PropertyValueType,
    pub num_columns: usize,
}

/// A column entry as plain values.
pub struct ColumnSpec {
    pub name: Seq<char>,
    pub value_type: PropertyValueType,
    pub num_columns: int,
}

impl View for PropertyValue {
    type V = ColumnSpec;

    open spec fn view(&self) -> ColumnSpec {
        ColumnSpec {
            name: self.name@,
            value_type: self.value_type,
            num_columns: self.num_columns as int,
        }
    }
}

pub open spec fn column_views(v: Seq<PropertyValue>) -> Seq<ColumnSpec> {
    v.map_values(|p: PropertyValue| p@)
}

/// One `name:T:count` entry at `p`: the name is letters and digits, `T` one
/// of `S`, `I`, `R`, `L`, the count a positive number of columns.
pub open spec fn property_at(s: Seq<char>, p: int) -> Option<(ColumnSpec, int)> {
    let n = run_end(s, p, CharClass::AlphaNum);
    let d = run_end(s, n + 3, CharClass::Digit);
    if n > p && n + 2 < s.len() && s[n] == ':' && type_of_code(s[n + 1]) is Some && s[n + 2]
        == ':' && d > n + 3 && 1 <= digits_value(s.subrange(n + 3, d)) <= usize::MAX {
        Some(
            (
                ColumnSpec {
                    name: s.subrange(p, n),
                    value_type: type_of_code(s[n + 1])->0,
                    num_columns: digits_value(s.subrange(n + 3, d)),
                },
                d,
            ),
        )
    } else {
        None
    }
}

/// The entries that follow one ending at `q`, each after a `:`.
pub open spec fn properties_after(s: Seq<char>, q: int) -> (Seq<ColumnSpec>, int)
    decreases s.len() - q,
{
    if 0 <= q < s.len() && s[q] == ':' {
        match property_at(s, q + 1) {
            Some((c, e)) => if q < e <= s.len() {
                let (rest, f) = properties_after(s, e);
                (seq![c] + rest, f)
            } else {
                (seq![], q)
            },
            None => (seq![], q),
        }
    } else {
        (seq![], q)
    }
}

/// One or more entries separated by `:` at the start of `s`.
pub open spec fn properties_at(s: Seq<char>) -> Option<(Seq<ColumnSpec>, int)> {
    match property_at(s, 0) {
        Some((c, e)) => if 0 < e <= s.len() {
            let (rest, f) = properties_after(s, e);
            Some((seq![c] + rest, f))
        } else {
            None
        },
        None => None,
    }
}

fn scan_property(s: &Vec<char>, p: usize) -> (r: Option<(PropertyValue, usize)>)
    requires
        p <= s.len(),
    ensures
        match r {
            Some((c, e)) => property_at(s@, p as int) == Some((c@, e as int)) && p < e <= s.len(),
            None => property_at(s@, p as int) is None,
        },
{
    let n = scan_run(s, p, CharClass::AlphaNum);
    if !(n > p && n < s.len() && s.len() - n > 2 && s[n] == ':' && s[n + 2] == ':') {
        return None;
    }
    let t = s[n + 1];
    if !(t == 'S' || t == 'I' || t == 'R' || t == 'L') {
        return None;
    }
    let d = scan_run(s, n + 3, CharClass::Digit);
    if d <= n + 3 {
        return None;
    }
    match scan_digits_value(s, n + 3, d) {
        None => None,
        Some(v) => {
            if v < 1 || v > usize::MAX as u64 {
                return None;
            }
            let c = PropertyValue {
                name: string_from(copy_range(s, p, n)),
                value_type: PropertyValueType::new(t),
                num_columns: v as usize,
            };
            assert(c@ == (property_at(s@, p as int)->0).0);
            Some((c, d))
        },
    }
}

fn scan_properties(s: &Vec<char>) -> (r: Option<(Vec<PropertyValue>, usize)>)
    ensures
        match r {
            Some((cs, e)) => properties_at(s@) == Some((column_views(cs@), e as int)) && e
                <= s.len(),
            None => properties_at(s@) is None,
        },
{
    let (c, e) = match scan_property(s, 0) {
        None => {
            return None;
        },
        Some(x) => x,
    };
    let ghost first = c@;
    let mut cols: Vec<PropertyValue> = Vec::new();
    cols.push(c);
    let mut pos = e;
    assert(column_views(cols@) =~= seq![first]);
    assert(column_views(cols@) + properties_after(s@, pos as int).0 =~= (properties_at(s@)->0).0);
    loop
        invariant
            0 < pos <= s.len(),
            properties_at(s@) is Some,
            column_views(cols@) + properties_after(s@, pos as int).0 == (properties_at(s@)->0).0,
            properties_after(s@, pos as int).1 == (properties_at(s@)->0).1,
        decreases s.len() - pos,
    {
        if !(pos < s.len() && s[pos] == ':') {
            assert(column_views(cols@) =~= column_views(cols@) + properties_after(s@, pos as int).0);
            return Some((cols, pos));
        }
        match scan_property(s, pos + 1) {
            None => {
                assert(column_views(cols@) =~= column_views(cols@) + properties_after(
                    s@,
                    pos as int,
                ).0);
                return Some((cols, pos));
            },
            Some((c, f)) => {
                let ghost before = column_views(cols@);
                let ghost cv = c@;
                cols.push(c);
                assert(column_views(cols@) =~= before.push(cv));
                assert(properties_after(s@, pos as int).0 =~= seq![cv] + properties_after(
                    s@,
                    f as int,
                ).0);
                assert(column_views(cols@) + properties_after(s@, f as int).0 =~= before
                    + properties_after(s@, pos as int).0);
                pos = f;
            },
        }
    }
}

/// Recognizes the column specification of `Properties` at the start of
/// `input`: one or more `name:T:count` entries separated by `:`, and how
/// many characters they take.
pub fn parse_property_values(input: &str) -> (r: Result<(Vec<PropertyValue>, usize), ScanError>)
    ensures
        match r {
            Ok((cs, n)) => properties_at(input@) == Some((column_views(cs@), n as int)),
            Err(k) => properties_at(input@) is None && k == ScanError::Backtrack,
        },
{
    let s = chars_of(input);
    match scan_properties(&s) {
        Some((cs, e)) => Ok((cs, e)),
        None => Err(ScanError::Backtrack),
    }
}

pub open spec fn properties_key() -> Seq<char> {
    seq!['P', 'r', 'o', 'p', 'e', 'r', 't', 'i', 'e', 's']
}

/// The column specification of a plain xyz file: `species:S:1:pos:R:3`.
pub open spec fn default_properties() -> Seq<char> {
    seq!['s', 'p', 'e', 'c', 'i', 'e', 's', ':', 'S', ':', '1', ':', 'p', 'o', 's', ':', 'R', ':', '3']
}

/// The column specification that metadata `m` gives: its `Properties` where
/// that is a string, the plain xyz one otherwise.
pub open spec fn properties_text(m: Map<Seq<char>, serde_json::Value>) -> Seq<char> {
    if m.contains_key(properties_key()) && exists|t: Seq<char>|
        m[properties_key()] == json_string_of(t) {
        choose|t: Seq<char>| m[properties_key()] == json_string_of(t)
    } else {
        default_properties()
    }
}

/// A typed value of one extra column.
#[derive(Clone, Debug)]
pub enum Scalar {
    /// a float, as its text with the exponent marked `E`
    Real(String),
    Integer(i64),
    Logical(bool),
    Str(String),
}

/// The decoded value of one `Properties` entry: one column, or several.
#[derive(Clone, Debug)]
pub enum ColumnValue {
    One(Scalar),
    Many(Vec<Scalar>),
}

pub enum ScalarView {
    Real(Seq<char>),
    Integer(int),
    Logical(bool),
    Str(Seq<char>),
}

pub enum ColumnView {
    One(ScalarView),
    Many(Seq<ScalarView>),
}

impl View for Scalar {
    type V = ScalarView;

    open spec fn view(&self) -> ScalarView {
        match self {
            Scalar::Real(t) => ScalarView::Real(t@),
            Scalar::Integer(i) => ScalarView::Integer(*i as int),
            Scalar::Logical(b) => ScalarView::Logical(*b),
            Scalar::Str(t) => ScalarView::Str(t@),
        }
    }
}

pub open spec fn scalar_views(v: Seq<Scalar>) -> Seq<ScalarView> {
    v.map_values(|x: Scalar| x@)
}

impl View for ColumnValue {
    type V = ColumnView;

    open spec fn view(&self) -> ColumnView {
        match self {
            ColumnValue::One(x) => ColumnView::One(x@),
            ColumnValue::Many(xs) => ColumnView::Many(scalar_views(xs@)),
        }
    }
}

/// The value of the integer that ends at `e` and starts at `q`.
pub open spec fn signed_value(s: Seq<char>, q: int, e: int) -> int {
    let m = digits_value(s.subrange(sign_end(s, q), e));
    if sign_end(s, q) > q && s[q] == '-' {
        -m
    } else {
        m
    }
}

/// One token of type `ty` after optional blanks at `p`.
pub open spec fn scalar_at(s: Seq<char>, p: int, ty: PropertyValueType) -> Option<(ScalarView, int)> {
    let q = run_end(s, p, CharClass::Blank);
    match ty {
        PropertyValueType::Real => match sci_float_at(s, q) {
            Ok((t, e)) => Some((ScalarView::Real(t), e)),
            Err(_) => None,
        },
        PropertyValueType::Integer => match integer_at(s, q) {
            Ok(e) => if i64::MIN <= signed_value(s, q, e) <= i64::MAX {
                Some((ScalarView::Integer(signed_value(s, q, e)), e))
            } else {
                None
            },
            Err(_) => None,
        },
        PropertyValueType::Logical => match boolean_at(s, q) {
            Some((b, e)) => Some((ScalarView::Logical(b), e)),
            None => None,
        },
        PropertyValueType::String => match bare_at(s, q) {
            Some(e) => Some((ScalarView::Str(s.subrange(q, e)), e)),
            None => None,
        },
    }
}

/// `n` tokens of type `ty` from `p`, separated by blanks.
pub open spec fn group_at(s: Seq<char>, p: int, ty: PropertyValueType, n: nat) -> Option<
    (Seq<ScalarView>, int),
>
    decreases n,
{
    if n == 0 {
        Some((seq![], p))
    } else {
        match group_at(s, p, ty, (n - 1) as nat) {
            None => None,
            Some((xs, q)) => if n >= 2 && run_end(s, q, CharClass::Blank) == q {
                None
            } else {
                match scalar_at(s, q, ty) {
                    Some((x, e)) => Some((xs.push(x), e)),
                    None => None,
                }
            },
        }
    }
}

pub open spec fn species_name() -> Seq<char> {
    seq!['s', 'p', 'e', 'c', 'i', 'e', 's']
}

pub open spec fn pos_name() -> Seq<char> {
    seq!['p', 'o', 's']
}

/// The entries `species` and `pos` are read with the atom's element and
/// position, not from its extra columns.
pub open spec fn is_structural(name: Seq<char>) -> bool {
    name == species_name() || name == pos_name()
}

/// The values of the entries `cols`, read in order from `p`; or where the
/// entry that failed starts.
pub open spec fn columns_at(s: Seq<char>, p: int, cols: Seq<ColumnSpec>) -> Result<
    Seq<(Seq<char>, ColumnView)>,
    int,
>
    decreases cols.len(),
{
    if cols.len() == 0 {
        Ok(seq![])
    } else {
        let c = cols[0];
        if is_structural(c.name) {
            columns_at(s, p, cols.drop_first())
        } else if c.num_columns == 1 {
            match scalar_at(s, p, c.value_type) {
                Some((x, e)) => match columns_at(s, e, cols.drop_first()) {
                    Ok(rest) => Ok(seq![(c.name, ColumnView::One(x))] + rest),
                    Err(q) => Err(q),
                },
                None => Err(p),
            }
        } else {
            match group_at(s, p, c.value_type, c.num_columns as nat) {
                Some((xs, e)) => match columns_at(s, e, cols.drop_first()) {
                    Ok(rest) => Ok(seq![(c.name, ColumnView::Many(xs))] + rest),
                    Err(q) => Err(q),
                },
                None => Err(p),
            }
        }
    }
}

/// The decoded extra columns of an atom, by the column specification of
/// metadata `m`; or the grammar element that failed, and for the columns the
/// position in the trimmed `extra` where the failing entry starts.
pub open spec fn extra_columns(m: Map<Seq<char>, serde_json::Value>, extra: Seq<char>) -> Result<
    Seq<(Seq<char>, ColumnView)>,
    (Context, int),
> {
    let t = properties_text(m);
    match properties_at(t) {
        Some((cs, e)) => if e == t.len() {
            match columns_at(trim(extra), 0, cs) {
                Ok(v) => Ok(v),
                Err(q) => Err((Context::ExtraColumns, q)),
            }
        } else {
            Err((Context::PropertySpec, e))
        },
        None => Err((Context::PropertySpec, 0)),
    }
}

pub open spec fn column_entry_views(v: Seq<(Seq<char>, ColumnValue)>) -> Seq<(Seq<char>, ColumnView)> {
    v.map_values(|e: (Seq<char>, ColumnValue)| (e.0, e.1@))
}

fn scan_signed(s: &Vec<char>, q: usize) -> (r: Option<(i64, usize)>)
    requires
        q <= s.len(),
    ensures
        match r {
            Some((v, e)) => integer_at(s@, q as int) == Ok::<int, ScanError>(e as int) && v
                == signed_value(s@, q as int, e as int) && q < e <= s.len(),
            None => match integer_at(s@, q as int) {
                Ok(e) => !(i64::MIN <= signed_value(s@, q as int, e) <= i64::MAX),
                Err(_) => true,
            },
        },
{
    let e = match scan_integer(s, q) {
        Ok(e) => e,
        Err(_) => {
            return None;
        },
    };
    let d = if q < s.len() && (s[q] == '+' || s[q] == '-') {
        q + 1
    } else {
        q
    };
    let neg = d > q && s[q] == '-';
    match scan_digits_value(s, d, e) {
        None => None,
        Some(m) => {
            if neg {
                if m <= 9223372036854775807u64 {
                    Some((-(m as i64), e))
                } else if m == 9223372036854775808u64 {
                    Some((i64::MIN, e))
                } else {
                    None
                }
            } else {
                if m <= 9223372036854775807u64 {
                    Some((m as i64, e))
                } else {
                    None
                }
            }
        },
    }
}

fn scan_scalar(s: &Vec<char>, p: usize, ty: PropertyValueType) -> (r: Option<(Scalar, usize)>)
    requires
        p <= s.len(),
    ensures
        match r {
            Some((x, e)) => scalar_at(s@, p as int, ty) == Some((x@, e as int)) && p < e <= s.len(),
            None => scalar_at(s@, p as int, ty) is None,
        },
{
    let q = scan_run(s, p, CharClass::Blank);
    match ty {
        PropertyValueType::Real => match scan_sci_float(s, q) {
            Ok((t, e)) => Some((Scalar::Real(string_from(t)), e)),
            Err(_) => None,
        },
        PropertyValueType::Integer => match scan_signed(s, q) {
            Some((v, e)) => Some((Scalar::Integer(v), e)),
            None => None,
        },
        PropertyValueType::Logical => match scan_boolean(s, q) {
            Some((b, e)) => Some((Scalar::Logical(b), e)),
            None => None,
        },
        PropertyValueType::String => match scan_bare(s, q) {
            Some(e) => Some((Scalar::Str(string_from(copy_range(s, q, e))), e)),
            None => None,
        },
    }
}

proof fn lemma_group_stays_none(s: Seq<char>, p: int, ty: PropertyValueType, k: nat, m: nat)
    requires
        k <= m,
        group_at(s, p, ty, k) is None,
    ensures
        group_at(s, p, ty, m) is None,
    decreases m,
{
    if m > k {
        lemma_group_stays_none(s, p, ty, k, (m - 1) as nat);
    }
}

fn scan_group(s: &Vec<char>, p: usize, ty: PropertyValueType, n: usize) -> (r: Option<(Vec<Scalar>, usize)>)
    requires
        p <= s.len(),
    ensures
        match r {
            Some((xs, e)) => group_at(s@, p as int, ty, n as nat) == Some((scalar_views(xs@), e as int))
                && p <= e <= s.len(),
            None => group_at(s@, p as int, ty, n as nat) is None,
        },
{
    let mut xs: Vec<Scalar> = Vec::new();
    let mut pos = p;
    let mut i: usize = 0;
    assert(scalar_views(xs@) =~= seq![]);
    while i < n
        invariant
            0 <= i <= n,
            p <= pos <= s.len(),
            group_at(s@, p as int, ty, i as nat) == Some((scalar_views(xs@), pos as int)),
        decreases n - i,
    {
        if i >= 1 && scan_run(s, pos, CharClass::Blank) == pos {
            proof {
                assert(group_at(s@, p as int, ty, (i + 1) as nat) is None);
                lemma_group_stays_none(s@, p as int, ty, (i + 1) as nat, n as nat);
            }
            return None;
        }
        match scan_scalar(s, pos, ty) {
            None => {
                proof {
                    assert(group_at(s@, p as int, ty, (i + 1) as nat) is None);
                    lemma_group_stays_none(s@, p as int, ty, (i + 1) as nat, n as nat);
                }
                return None;
            },
            Some((x, e)) => {
                let ghost before = scalar_views(xs@);
                let ghost xv = x@;
                xs.push(x);
                assert(scalar_views(xs@) =~= before.push(xv));
                pos = e;
            },
        }
        i = i + 1;
    }
    Some((xs, pos))
}

fn default_properties_chars() -> (r: Vec<char>)
    ensures
        r@ == default_properties(),
{
    let v = vec!['s', 'p', 'e', 'c', 'i', 'e', 's', ':', 'S', ':', '1', ':', 'p', 'o', 's', ':', 'R', ':', '3'];
    assert(v@ == default_properties());
    v
}

fn species_chars() -> (r: Vec<char>)
    ensures
        r@ == species_name(),
{
    let v = vec!['s', 'p', 'e', 'c', 'i', 'e', 's'];
    assert(v@ == species_name());
    v
}

fn pos_chars() -> (r: Vec<char>)
    ensures
        r@ == pos_name(),
{
    let v = vec!['p', 'o', 's'];
    assert(v@ == pos_name());
    v
}

fn same_chars(a: &Vec<char>, b: &Vec<char>) -> (r: bool)
    ensures
        r == (a@ == b@),
{
    if a.len() != b.len() {
        return false;
    }
    let mut i: usize = 0;
    while i < a.len()
        invariant
            0 <= i <= a.len() == b.len(),
            forall|j: int| 0 <= j < i ==> a@[j] == b@[j],
        decreases a.len() - i,
    {
        if a[i] != b[i] {
            return false;
        }
        i = i + 1;
    }
    assert(a@ =~= b@);
    true
}

impl Info {
    /// The characters of the column specification that this metadata gives.
    fn properties_chars(&self) -> (r: Vec<char>)
        ensures
            r@ == properties_text(self@),
    {
        let key = "Properties";
        proof {
            reveal_strlit("Properties");
            assert(key@ == properties_key());
        }
        match self.get(key) {
            Some(v) => match v.as_str() {
                Some(text) => {
                    proof {
                        assert(self@[properties_key()] == json_string_of(text@));
                        let t = choose|t: Seq<char>| self@[properties_key()] == json_string_of(t);
                        assert(t == text@);
                    }
                    chars_of(text)
                },
                None => default_properties_chars(),
            },
            None => default_properties_chars(),
        }
    }

    /// The column layout of the atom lines: the entries of `Properties`, or
    /// of `species:S:1:pos:R:3` where this metadata has no `Properties`
    /// string. Fails where the specification is not wholly made of
    /// `name:T:count` entries; the error's `input` is the specification.
    pub fn get_properties(&self) -> (r: Result<Vec<PropertyValue>, ParseError>)
        ensures
            r is Ok <==> (properties_at(properties_text(self@)) matches Some((cs, e)) && e
                == properties_text(self@).len()),
            r matches Ok(cs) ==> properties_at(properties_text(self@)) == Some(
                (column_views(cs@), properties_text(self@).len() as int),
            ),
            r matches Err(e) ==> e.context == Context::PropertySpec && e.input@ == properties_text(
                self@,
            ),
    {
        let t = self.properties_chars();
        match scan_properties(&t) {
            Some((cs, e)) => if e == t.len() {
                Ok(cs)
            } else {
                Err(
                    ParseError {
                        context: Context::PropertySpec,
                        remainder: string_from(copy_range(&t, e, t.len())),
                        input: string_from(copy_range(&t, 0, t.len())),
                    },
                )
            },
            None => {
                let whole = copy_range(&t, 0, t.len());
                assert(whole@ =~= t@);
                Err(
                    ParseError {
                        context: Context::PropertySpec,
                        remainder: string_from(copy_range(&t, 0, t.len())),
                        input: string_from(whole),
                    },
                )
            },
        }
    }

    /// Decodes the extra columns of an atom line by the column layout of
    /// this metadata: each entry but `species` and `pos` takes its number of
    /// blank-separated tokens of its type from the trimmed `extra`, in order,
    /// and maps its name to one value or, for several columns, to the list of
    /// them. Text after the last entry is left unread. Fails with
    /// `PropertySpec` where the layout does not parse, and with
    /// `ExtraColumns` (the remainder from the entry that failed, the layout as
    /// `input`) where a token is missing or not of its type.
    pub fn parse_extra_columns(&self, extra: &str) -> (r: Result<Dict<ColumnValue>, ParseError>)
        ensures
            match r {
                Ok(d) => extra_columns(self@, extra@) == Ok::<
                    Seq<(Seq<char>, ColumnView)>,
                    (Context, int),
                >(column_entry_views(d.insertions())),
                Err(e) => extra_columns(self@, extra@) matches Err((c, q)) && c == e.context && (c
                    == Context::ExtraColumns ==> e.remainder@ == trim(extra@).subrange(
                    q,
                    trim(extra@).len() as int,
                ) && e.input@ == properties_text(self@)),
            },
    {
        let cols = match self.get_properties() {
            Ok(cs) => cs,
            Err(e) => {
                return Err(e);
            },
        };
        let layout = self.properties_chars();
        let s = trimmed_start(&trimmed_end(&chars_of(extra)));
        let species = species_chars();
        let pos_word = pos_chars();
        let ghost cv = column_views(cols@);
        let mut d: Dict<ColumnValue> = Dict::new();
        let mut pos: usize = 0;
        let mut i: usize = 0;
        assert(cv.skip(0) =~= cv);
        assert(column_entry_views(d.insertions()) =~= seq![]);
        while i < cols.len()
            invariant
                0 <= i <= cols.len(),
                pos <= s.len(),
                s@ == trim(extra@),
                cv == column_views(cols@),
                properties_at(properties_text(self@)) == Some(
                    (cv, properties_text(self@).len() as int),
                ),
                species@ == species_name(),
                pos_word@ == pos_name(),
                layout@ == properties_text(self@),
                columns_at(s@, 0, cv) == match columns_at(s@, pos as int, cv.skip(i as int)) {
                    Ok(rest) => Ok(column_entry_views(d.insertions()) + rest),
                    Err(q) => Err::<Seq<(Seq<char>, ColumnView)>, int>(q),
                },
            decreases cols.len() - i,
        {
            let ghost c = cv[i as int];
            assert(cv.skip(i as int)[0] == c);
            assert(cv.skip(i as int).drop_first() =~= cv.skip(i + 1));
            let name = chars_of(cols[i].name.as_str());
            let ty = cols[i].value_type;
            let n = cols[i].num_columns;
            assert(name@ == c.name && ty == c.value_type && n as int == c.num_columns);
            if same_chars(&name, &species) || same_chars(&name, &pos_word) {
                i = i + 1;
            } else if n == 1 {
                match scan_scalar(&s, pos, ty) {
                    None => {
                        assert(columns_at(s@, pos as int, cv.skip(i as int)) == Err::<
                            Seq<(Seq<char>, ColumnView)>,
                            int,
                        >(pos as int));
                        assert(layout@.subrange(0, layout@.len() as int) =~= layout@);
                        return Err(
                            ParseError {
                                context: Context::ExtraColumns,
                                remainder: string_from(copy_range(&s, pos, s.len())),
                                input: string_from(copy_range(&layout, 0, layout.len())),
                            },
                        );
                    },
                    Some((x, e)) => {
                        let ghost before = column_entry_views(d.insertions());
                        let ghost entry = (c.name, ColumnView::One(x@));
                        d.insert(cols[i].name.clone(), ColumnValue::One(x));
                        assert(column_entry_views(d.insertions()) =~= before.push(entry));
                        proof {
                            match columns_at(s@, e as int, cv.skip(i + 1)) {
                                Ok(rest) => {
                                    assert(before.push(entry) + rest =~= before + (seq![entry]
                                        + rest));
                                },
                                Err(_) => {},
                            }
                        }
                        pos = e;
                        i = i + 1;
                    },
                }
            } else {
                match scan_group(&s, pos, ty, n) {
                    None => {
                        assert(columns_at(s@, pos as int, cv.skip(i as int)) == Err::<
                            Seq<(Seq<char>, ColumnView)>,
                            int,
                        >(pos as int));
                        assert(layout@.subrange(0, layout@.len() as int) =~= layout@);
                        return Err(
                            ParseError {
                                context: Context::ExtraColumns,
                                remainder: string_from(copy_range(&s, pos, s.len())),
                                input: string_from(copy_range(&layout, 0, layout.len())),
                            },
                        );
                    },
                    Some((xs, e)) => {
                        let ghost before = column_entry_views(d.insertions());
                        let ghost entry = (c.name, ColumnView::Many(scalar_views(xs@)));
                        d.insert(cols[i].name.clone(), ColumnValue::Many(xs));
                        assert(column_entry_views(d.insertions()) =~= before.push(entry));
                        proof {
                            match columns_at(s@, e as int, cv.skip(i + 1)) {
                                Ok(rest) => {
                                    assert(before.push(entry) + rest =~= before + (seq![entry]
                                        + rest));
                                },
                                Err(_) => {},
                            }
                        }
                        pos = e;
                        i = i + 1;
                    },
                }
            }
        }
        assert(cv.skip(cols.len() as int) =~= seq![]);
        assert(column_entry_views(d.insertions()) + seq![] =~= column_entry_views(d.insertions()));
        Ok(d)
    }
}

} // verus!
