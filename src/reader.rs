//! Reading text line by line from a buffered source, and the direct frame
//! reader, which takes each frame's length from its atom-count line.
use vstd::prelude::*;

use crate::grammar::{digits_value, run_end, scan_digits_value, scan_run, CharClass};
use crate::text::{chars_of, copy_range, string_from, trim, trimmed_end, trimmed_start};

verus! {

#[verifier::external_type_specification]
#[verifier::external_body]
pub struct ExIoError(std::io::Error);

/// A piece of text that `read_line` appends: no line feed but possibly as
/// its last character.
pub open spec fn is_line_piece(l: Seq<char>) -> bool {
    forall|i: int| 0 <= i < l.len() - 1 ==> l[i] != '\n'
}

/// Relies on `BufRead::read_line`: appends to `buf` the bytes up to and
/// including the next line feed, or up to the end of the stream; `Ok(0)` at
/// the end of the stream; the count of bytes appended otherwise. On an error
/// `buf` keeps at least what it held.
#[verifier::external_body]
fn read_line_into<R: std::io::BufRead>(inner: &mut R, buf: &mut String) -> (r: std::io::Result<usize>)
    ensures
        final(buf)@.len() >= old(buf)@.len(),
        final(buf)@.take(old(buf)@.len() as int) == old(buf)@,
        r matches Ok(n) ==> (n == 0 <==> final(buf)@.len() == old(buf)@.len()),
        r matches Ok(n) ==> is_line_piece(final(buf)@.skip(old(buf)@.len() as int)),
{
    inner.read_line(buf)
}

/// Relies on `Read::read_to_string`: appends the rest of the stream to `buf`
/// and gives the count of bytes appended. On an error `buf` keeps at least
/// what it held.
#[verifier::external_body]
fn read_rest_into<R: std::io::BufRead>(inner: &mut R, buf: &mut String) -> (r: std::io::Result<usize>)
    ensures
        final(buf)@.len() >= old(buf)@.len(),
        final(buf)@.take(old(buf)@.len() as int) == old(buf)@,
        r matches Ok(n) ==> (n == 0 <==> final(buf)@.len() == old(buf)@.len()),
{
    inner.read_to_string(buf)
}

/// A line without its line ending: a trailing `\n`, or `\r\n`.
pub open spec fn without_newline(l: Seq<char>) -> Seq<char> {
    if l.len() > 0 && l.last() == '\n' {
        if l.len() > 1 && l.drop_last().last() == '\r' {
            l.drop_last().drop_last()
        } else {
            l.drop_last()
        }
    } else {
        l
    }
}

/// The pieces joined in order.
pub open spec fn concat(ls: Seq<Seq<char>>) -> Seq<char>
    decreases ls.len(),
{
    if ls.len() == 0 {
        seq![]
    } else {
        concat(ls.drop_last()) + ls.last()
    }
}

/// The number that an atom-count line gives: the line without surrounding
/// whitespace is an optional `+` and one or more digits, of at most
/// `usize::MAX`.
pub open spec fn count_value(l: Seq<char>) -> Option<int> {
    let t = trim(l);
    let q: int = if t.len() > 0 && t[0] == '+' {
        1
    } else {
        0
    };
    if t.len() > q && run_end(t, q, CharClass::Digit) == t.len() && digits_value(
        t.subrange(q, t.len() as int),
    ) <= usize::MAX {
        Some(digits_value(t.subrange(q, t.len() as int)))
    } else {
        None
    }
}

/// `t` is a frame read line by line: the lines `ls`, each read whole, the
/// first an atom count that gives the number of lines after the comment line.
pub open spec fn is_frame_text(t: Seq<char>, ls: Seq<Seq<char>>) -> bool {
    &&& ls.len() >= 2
    &&& t == concat(ls)
    &&& count_value(ls[0]) == Some(ls.len() - 2)
    &&& forall|i: int| 0 <= i < ls.len() ==> (#[trigger] ls[i]).len() > 0 && is_line_piece(ls[i])
}

/// The atom count that the line `line` gives, if it is one.
pub fn atom_count_of(line: &str) -> (r: Option<usize>)
    ensures
        match r {
            Some(n) => count_value(line@) == Some(n as int),
            None => count_value(line@) is None,
        },
{
    let t = trimmed_start(&trimmed_end(&chars_of(line)));
    let q: usize = if t.len() > 0 && t[0] == '+' {
        1
    } else {
        0
    };
    if !(t.len() > q && scan_run(&t, q, CharClass::Digit) == t.len()) {
        return None;
    }
    match scan_digits_value(&t, q, t.len()) {
        Some(v) => if v <= usize::MAX as u64 {
            Some(v as usize)
        } else {
            None
        },
        None => None,
    }
}

/// A reader of a large text, line by line.
#[derive(Debug)]
pub struct TextReader<R> {
    inner: R,
}

impl<R> TextReader<R> {
    /// The source that the reader reads from.
    pub closed spec fn source(&self) -> R {
        self.inner
    }

    /// A text reader over the buffered source `inner`.
    pub fn new(inner: R) -> (r: TextReader<R>)
        ensures
            r.source() == inner,
    {
        TextReader { inner }
    }
}

impl<R: std::io::BufRead> TextReader<R> {
    /// Reads the next line, with its line feed if it has one, onto the end of
    /// `buf`: the number of bytes read, or `None` at the end of the stream or
    /// on an error.
    pub fn read_line(&mut self, buf: &mut String) -> (r: Option<usize>)
        ensures
            final(buf)@.len() >= old(buf)@.len(),
            final(buf)@.take(old(buf)@.len() as int) == old(buf)@,
            r matches Some(n) ==> n > 0 && final(buf)@.len() > old(buf)@.len() && is_line_piece(
                final(buf)@.skip(old(buf)@.len() as int),
            ),
    {
        match read_line_into(&mut self.inner, buf) {
            Ok(n) => if n == 0 {
                None
            } else {
                Some(n)
            },
            Err(_) => None,
        }
    }
}

impl<R: std::io::BufRead> TextReader<R> {
    /// Reads the rest of the stream onto the end of `buf`: the number of bytes
    /// read.
    pub fn read_to_string(&mut self, buf: &mut String) -> (r: std::io::Result<usize>)
        ensures
            final(buf)@.len() >= old(buf)@.len(),
            final(buf)@.take(old(buf)@.len() as int) == old(buf)@,
            r matches Ok(n) ==> (n == 0 <==> final(buf)@.len() == old(buf)@.len()),
    {
        read_rest_into(&mut self.inner, buf)
    }

    /// The lines of the rest of the stream, each without its line ending.
    pub fn lines(self) -> (r: Lines<R>)
        ensures
            r.source() == self.source(),
    {
        Lines { reader: self }
    }
}

/// The lines of a text reader, one at a time.
#[derive(Debug)]
pub struct Lines<R> {
    reader: TextReader<R>,
}

impl<R> Lines<R> {
    pub closed spec fn source(&self) -> R {
        self.reader.inner
    }
}

fn strip_newline(v: Vec<char>) -> (r: Vec<char>)
    ensures
        r@ == without_newline(v@),
{
    let mut v = v;
    if v.len() > 0 && v[v.len() - 1] == '\n' {
        v.pop();
        if v.len() > 0 && v[v.len() - 1] == '\r' {
            v.pop();
        }
    }
    v
}

impl<R: std::io::BufRead> Lines<R> {
    /// The next line without its line ending; `None` at the end of the
    /// stream; the error where reading failed.
    pub fn next_line(&mut self) -> (r: Option<std::io::Result<String>>)
        ensures
            r matches Some(Ok(l)) ==> exists|p: Seq<char>|
                p.len() > 0 && is_line_piece(p) && l@ == without_newline(p),
    {
        let mut buf = String::new();
        match read_line_into(&mut self.reader.inner, &mut buf) {
            Ok(n) => if n == 0 {
                None
            } else {
                let line = string_from(strip_newline(chars_of(buf.as_str())));
                assert(buf@.skip(0) =~= buf@);
                Some(Ok(line))
            },
            Err(e) => Some(Err(e)),
        }
    }
}

/// The frames of a text read one after another, each as long as its
/// atom-count line says.
#[derive(Debug)]
pub struct DirectFrames<R> {
    reader: TextReader<R>,
}

/// A reader of the frames of `reader` that takes each frame's length from its
/// first line: the atom count, then the comment line, then that many atom
/// lines. Suited to trajectories whose every frame has exactly as many atom
/// lines as it declares.
pub fn read_xyz_frames_direct<R: std::io::BufRead>(reader: TextReader<R>) -> (r: DirectFrames<R>)
    ensures
        r.source() == reader.source(),
{
    DirectFrames { reader }
}

impl<R> DirectFrames<R> {
    pub closed spec fn source(&self) -> R {
        self.reader.inner
    }
}

impl<R: std::io::BufRead> DirectFrames<R> {
    /// The text of the next frame; `None` where the stream ends, an error
    /// occurs, or the next line is no atom count.
    pub fn next_frame(&mut self) -> (r: Option<String>)
        ensures
            r matches Some(t) ==> exists|ls: Seq<Seq<char>>| is_frame_text(t@, ls),
    {
        let mut buf = String::new();
        if self.reader.read_line(&mut buf).is_none() {
            return None;
        }
        let ghost mut ls: Seq<Seq<char>> = seq![buf@];
        assert(buf@.skip(0) =~= buf@);
        assert(concat(ls) =~= buf@) by {
            assert(ls.drop_last() =~= Seq::<Seq<char>>::empty());
            assert(concat(ls.drop_last()) =~= Seq::<char>::empty());
        }
        let n = match atom_count_of(buf.as_str()) {
            None => {
                return None;
            },
            Some(n) => n,
        };
        let ghost before = buf@;
        if self.reader.read_line(&mut buf).is_none() {
            return None;
        }
        proof {
            let piece = buf@.skip(before.len() as int);
            assert(buf@ =~= before + piece);
            let ls2 = ls.push(piece);
            assert(ls2.drop_last() =~= ls);
            ls = ls2;
        }
        let mut i: usize = 0;
        while i < n
            invariant
                0 <= i <= n,
                ls.len() == i + 2,
                buf@ == concat(ls),
                count_value(ls[0]) == Some(n as int),
                forall|k: int| 0 <= k < ls.len() ==> (#[trigger] ls[k]).len() > 0 && is_line_piece(ls[k]),
            decreases n - i,
        {
            let ghost before = buf@;
            if self.reader.read_line(&mut buf).is_none() {
                return None;
            }
            proof {
                let piece = buf@.skip(before.len() as int);
                assert(buf@ =~= before + piece);
                let ls2 = ls.push(piece);
                assert(ls2.drop_last() =~= ls);
                ls = ls2;
            }
            i = i + 1;
        }
        let r = Some(buf);
        assert(is_frame_text(r->0@, ls));
        r
    }
}

} // verus!
