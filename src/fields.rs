//! The field list that follows a header: one `name: rhs` field per line, each
//! line starting with `-->` or with four spaces, an array literal spreading
//! over several lines.
use vstd::prelude::*;
use crate::literal::{Rhs, RhsModel};
use crate::model::{fail, ErrorKind, Failure, ParseError};
use crate::text::{chars_eq, is_single, slice, starts_with, trim, trimmed, views};

verus! {

broadcast use vstd::std_specs::vec::group_vec_axioms, vstd::seq::group_seq_axioms;

/// Whether `l` begins with `p`.
pub open spec fn begins(l: Seq<char>, p: Seq<char>) -> bool {
    p.len() <= l.len() && l.subrange(0, p.len() as int) == p
}

pub open spec fn marker() -> Seq<char> {
    seq!['-', '-', '>']
}

pub open spec fn indent() -> Seq<char> {
    seq![' ', ' ', ' ', ' ']
}

/// Whether a cleaned line belongs to a field list: it is not blank and
/// starts with the marker `-->` or with a four-space indent.
pub open spec fn in_block(l: Seq<char>) -> bool {
    trim(l).len() > 0 && (begins(l, marker()) || begins(l, indent()))
}

/// A field-list line without its marker or indent.
pub open spec fn content(l: Seq<char>) -> Seq<char> {
    if begins(l, marker()) {
        l.subrange(3, l.len() as int)
    } else {
        l.subrange(4, l.len() as int)
    }
}

/// The index of the first `:` of `c` at or after `i` that lies outside string
/// literals, `in_str` telling whether position `i` lies inside one; the length
/// of `c` if there is none.
pub open spec fn colon_at(c: Seq<char>, i: int, in_str: bool) -> int
    decreases c.len() - i,
{
    if i >= c.len() {
        c.len() as int
    } else if !in_str && c[i] == ':' {
        i
    } else if c[i] == '"' {
        colon_at(c, i + 1, !in_str)
    } else {
        colon_at(c, i + 1, in_str)
    }
}

pub proof fn lemma_colon_bounds(c: Seq<char>, i: int, in_str: bool)
    requires
        0 <= i <= c.len(),
    ensures
        i <= colon_at(c, i, in_str) <= c.len(),
    decreases c.len() - i,
{
    if i < c.len() {
        lemma_colon_bounds(c, i + 1, !in_str);
        lemma_colon_bounds(c, i + 1, in_str);
    }
}

/// The name of a field line's content `c`: the text before its first colon
/// outside string literals, or all of it where there is no such colon.
pub open spec fn field_name(c: Seq<char>) -> Seq<char> {
    trim(c.subrange(0, colon_at(c, 0, false)))
}

/// The right-hand side of a field line's content `c`: the text after its
/// first colon outside string literals, empty where there is no such colon.
pub open spec fn field_rhs(c: Seq<char>) -> Seq<char> {
    let k = colon_at(c, 0, false);
    if k < c.len() {
        trim(c.subrange(k + 1, c.len() as int))
    } else {
        Seq::empty()
    }
}

/// The text of an element line of a multi-line array literal.
pub open spec fn element_text(l: Seq<char>) -> Seq<char> {
    trim(content(l))
}

/// The index of the line that closes an array literal whose elements start
/// at line `k`: the first line consisting of `]` alone. `None` where the field
/// list or the text ends first.
pub open spec fn array_end(cs: Seq<Seq<char>>, k: int) -> Option<int>
    decreases cs.len() - k,
{
    if k < 0 || k >= cs.len() || !in_block(cs[k]) {
        None
    } else if element_text(cs[k]) == seq![']'] {
        Some(k)
    } else {
        array_end(cs, k + 1)
    }
}

pub proof fn lemma_array_end_bounds(cs: Seq<Seq<char>>, k: int)
    ensures
        array_end(cs, k) matches Some(e) ==> k <= e < cs.len(),
    decreases cs.len() - k,
{
    if 0 <= k < cs.len() && in_block(cs[k]) && element_text(cs[k]) != seq![']'] {
        lemma_array_end_bounds(cs, k + 1);
    }
}

/// The element texts of lines `lo` up to `hi`.
pub open spec fn array_elements(cs: Seq<Seq<char>>, lo: int, hi: int) -> Seq<Seq<char>> {
    Seq::new((hi - lo) as nat, |x: int| element_text(cs[lo + x]))
}

/// A field line as read: its name, its right-hand side and its line index.
pub struct RawField {
    pub name: Vec<char>,
    pub rhs: Rhs,
    pub line: usize,
}

pub struct RawFieldModel {
    pub name: Seq<char>,
    pub rhs: RhsModel,
    pub line: int,
}

impl View for RawField {
    type V = RawFieldModel;

    open spec fn view(&self) -> RawFieldModel {
        RawFieldModel { name: self.name@, rhs: self.rhs@, line: self.line as int }
    }
}

pub open spec fn raw_views(s: Seq<RawField>) -> Seq<RawFieldModel> {
    s.map_values(|f: RawField| f@)
}

/// Whether one of the fields `fs` is named `name`.
pub open spec fn has_field(fs: Seq<RawFieldModel>, name: Seq<char>) -> bool {
    exists|i: int| 0 <= i < fs.len() && (#[trigger] fs[i]).name == name
}

/// Reads the field list of the cleaned lines `cs` from line `j` on, after the
/// fields `acc` already read. Returns the fields and the index of the first
/// line after the list.
pub open spec fn read_fields(cs: Seq<Seq<char>>, j: int, acc: Seq<RawFieldModel>) -> Result<
    (Seq<RawFieldModel>, int),
    Failure,
>
    decreases cs.len() - j,
{
    if j < 0 || j >= cs.len() || !in_block(cs[j]) {
        Ok((acc, j))
    } else {
        let c = content(cs[j]);
        let name = field_name(c);
        let rhs = field_rhs(c);
        if name.len() == 0 {
            Err(fail(ErrorKind::EmptyName, j))
        } else if has_field(acc, name) {
            Err(fail(ErrorKind::DuplicateFieldName, j))
        } else if rhs == seq!['['] {
            match array_end(cs, j + 1) {
                None => Err(fail(ErrorKind::UnterminatedArray, j)),
                Some(e) => {
                    proof {
                        lemma_array_end_bounds(cs, j + 1);
                    }
                    read_fields(
                        cs,
                        e + 1,
                        acc.push(
                            RawFieldModel {
                                name,
                                rhs: RhsModel::Lines(array_elements(cs, j + 1, e)),
                                line: j,
                            },
                        ),
                    )
                },
            }
        } else {
            read_fields(
                cs,
                j + 1,
                acc.push(RawFieldModel { name, rhs: RhsModel::Single(rhs), line: j }),
            )
        }
    }
}

pub fn block_line(l: &Vec<char>) -> (r: bool)
    ensures
        r == in_block(l@),
{
    let t = trimmed(l);
    t.len() > 0 && (starts_with(l, &['-', '-', '>']) || starts_with(l, &[' ', ' ', ' ', ' ']))
}

pub fn line_content(l: &Vec<char>) -> (r: Vec<char>)
    requires
        in_block(l@),
    ensures
        r@ == content(l@),
{
    if starts_with(l, &['-', '-', '>']) {
        slice(l, 3, l.len())
    } else {
        slice(l, 4, l.len())
    }
}

fn find_colon(c: &Vec<char>) -> (r: usize)
    ensures
        r == colon_at(c@, 0, false),
        r <= c.len(),
{
    proof {
        lemma_colon_bounds(c@, 0, false);
    }
    let mut i: usize = 0;
    let mut in_str = false;
    while i < c.len()
        invariant
            i <= c.len(),
            colon_at(c@, 0, false) == colon_at(c@, i as int, in_str),
        ensures
            colon_at(c@, i as int, in_str) == i,
        decreases c.len() - i,
    {
        if !in_str && c[i] == ':' {
            break;
        }
        if c[i] == '"' {
            in_str = !in_str;
        }
        i = i + 1;
    }
    i
}

fn field_named(fs: &Vec<RawField>, name: &Vec<char>) -> (r: bool)
    ensures
        r == has_field(raw_views(fs@), name@),
{
    let mut i: usize = 0;
    while i < fs.len()
        invariant
            i <= fs.len(),
            forall|k: int| 0 <= k < i ==> fs@[k].name@ != name@,
        decreases fs.len() - i,
    {
        if chars_eq(&fs[i].name, name.as_slice()) {
            assert(raw_views(fs@)[i as int].name == name@);
            return true;
        }
        i = i + 1;
    }
    assert(!has_field(raw_views(fs@), name@)) by {
        assert forall|k: int| 0 <= k < fs.len() implies #[trigger] raw_views(fs@)[k].name
            != name@ by {
            assert(raw_views(fs@)[k] == fs@[k]@);
        }
    }
    false
}

/// Reads the field list that starts at line `start` of the cleaned lines
/// `lines`; returns its fields and the index of the first line after it.
#[verifier::loop_isolation(false)]
pub fn read_field_list(lines: &Vec<Vec<char>>, start: usize) -> (r: Result<
    (Vec<RawField>, usize),
    ParseError,
>)
    requires
        start <= lines.len(),
    ensures
        match r {
            Ok((fs, next)) => read_fields(views(lines@), start as int, seq![]) == Ok::<
                _,
                Failure,
            >((raw_views(fs@), next as int)),
            Err(e) => read_fields(views(lines@), start as int, seq![]) == Err::<
                (Seq<RawFieldModel>, int),
                _,
            >(e@),
        },
{
    let ghost cs = views(lines@);
    let mut acc: Vec<RawField> = Vec::new();
    let mut j: usize = start;
    assert(raw_views(acc@) =~= seq![]);
    while j < lines.len() && block_line(&lines[j])
        invariant
            start <= j <= lines.len(),
            cs == views(lines@),
            read_fields(cs, start as int, seq![]) == read_fields(cs, j as int, raw_views(acc@)),
        decreases lines.len() - j,
    {
        assert(cs[j as int] == lines@[j as int]@);
        let c = line_content(&lines[j]);
        let k = find_colon(&c);
        let name = trimmed(&slice(&c, 0, k));
        let rhs = if k < c.len() {
            trimmed(&slice(&c, k + 1, c.len()))
        } else {
            Vec::new()
        };
        if name.len() == 0 {
            return Err(ParseError { kind: ErrorKind::EmptyName, line: j });
        }
        if field_named(&acc, &name) {
            return Err(ParseError { kind: ErrorKind::DuplicateFieldName, line: j });
        }
        let ghost before = raw_views(acc@);
        if is_single(&rhs, '[') {
            let mut elems: Vec<Vec<char>> = Vec::new();
            let mut e: usize = j + 1;
            assert(views(elems@) =~= array_elements(cs, j + 1, e as int));
            loop
                invariant
                    j < e <= lines.len(),
                    cs == views(lines@),
                    array_end(cs, j + 1) == array_end(cs, e as int),
                    views(elems@) == array_elements(cs, j + 1, e as int),
                decreases lines.len() - e,
            {
                if e >= lines.len() || !block_line(&lines[e]) {
                    return Err(ParseError { kind: ErrorKind::UnterminatedArray, line: j });
                }
                assert(cs[e as int] == lines@[e as int]@);
                let t = trimmed(&line_content(&lines[e]));
                if is_single(&t, ']') {
                    break;
                }

                let ghost ev = views(elems@);
                elems.push(t);
                assert(views(elems@) == ev.push(t@));
                assert(views(elems@) =~= array_elements(cs, j + 1, e + 1));
                e = e + 1;
            }
            let f = RawField { name, rhs: Rhs::Lines(elems), line: j };
            let ghost fv = f@;
            acc.push(f);
            assert(raw_views(acc@) =~= before.push(fv));
            j = e + 1;
        } else {
            let f = RawField { name, rhs: Rhs::Single(rhs), line: j };
            let ghost fv = f@;
            acc.push(f);
            assert(raw_views(acc@) =~= before.push(fv));
            j = j + 1;
        }
    }
    Ok((acc, j))
}

} // verus!
