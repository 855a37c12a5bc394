//! Character-level helpers: splitting text into lines, trimming blanks and
//! cutting comments off a line.
use vstd::prelude::*;

verus! {

broadcast use vstd::std_specs::vec::group_vec_axioms, vstd::seq::group_seq_axioms;

/// Blank characters that trimming removes: the characters of Unicode's
/// `White_Space` property.
pub open spec fn is_blank(c: char) -> bool {
    c == ' '
        || c == '\t'
        || c == '\n'
        || c == '\u{0B}'
        || c == '\u{0C}'
        || c == '\r'
        || c == '\u{85}'
        || c == '\u{A0}'
        || c == '\u{1680}'
        || c == '\u{2028}'
        || c == '\u{2029}'
        || c == '\u{202F}'
        || c == '\u{205F}'
        || c == '\u{3000}'
        || ('\u{2000}' <= c && c <= '\u{200A}')
}

/// The lines of `t`, split at each line feed; there is always at least one.
pub open spec fn lines_of(t: Seq<char>) -> Seq<Seq<char>>
    decreases t.len(),
{
    if t.len() == 0 {
        seq![Seq::empty()]
    } else {
        let init = lines_of(t.drop_last());
        if t.last() == '\n' {
            init.push(Seq::empty())
        } else {
            init.update(init.len() - 1, init.last().push(t.last()))
        }
    }
}

pub proof fn lemma_lines_nonempty(t: Seq<char>)
    ensures
        lines_of(t).len() >= 1,
    decreases t.len(),
{
    if t.len() > 0 {
        lemma_lines_nonempty(t.drop_last());
    }
}

/// `s` without its leading blanks.
pub open spec fn trim_start(s: Seq<char>) -> Seq<char>
    decreases s.len(),
{
    if s.len() > 0 && is_blank(s[0]) {
        trim_start(s.drop_first())
    } else {
        s
    }
}

/// `s` without its trailing blanks.
pub open spec fn trim_end(s: Seq<char>) -> Seq<char>
    decreases s.len(),
{
    if s.len() > 0 && is_blank(s.last()) {
        trim_end(s.drop_last())
    } else {
        s
    }
}

/// `s` without blanks at either end.
pub open spec fn trim(s: Seq<char>) -> Seq<char> {
    trim_end(trim_start(s))
}

/// Where the comment of `l` starts, scanning from `i` with `in_str` telling
/// whether position `i` lies inside a string literal: the first `//` outside
/// string literals, or the length of the line if there is none.
pub open spec fn comment_start(l: Seq<char>, i: int, in_str: bool) -> int
    decreases l.len() - i,
{
    if i >= l.len() {
        l.len() as int
    } else if !in_str && i + 1 < l.len() && l[i] == '/' && l[i + 1] == '/' {
        i
    } else if l[i] == '"' {
        comment_start(l, i + 1, !in_str)
    } else {
        comment_start(l, i + 1, in_str)
    }
}

/// A line with its comment removed. A line that starts with `//` becomes empty.
pub open spec fn clean(l: Seq<char>) -> Seq<char> {
    l.subrange(0, comment_start(l, 0, false))
}

pub proof fn lemma_comment_start_bounds(l: Seq<char>, i: int, in_str: bool)
    requires
        0 <= i,
    ensures
        i <= comment_start(l, i, in_str) <= l.len() || (i > l.len() && comment_start(l, i, in_str)
            == l.len()),
    decreases l.len() - i,
{
    if i < l.len() {
        lemma_comment_start_bounds(l, i + 1, !in_str);
        lemma_comment_start_bounds(l, i + 1, in_str);
    }
}

/// A copy of `v[lo..hi]`.
pub fn slice(v: &Vec<char>, lo: usize, hi: usize) -> (r: Vec<char>)
    requires
        lo <= hi <= v.len(),
    ensures
        r@ == v@.subrange(lo as int, hi as int),
{
    let mut r: Vec<char> = Vec::new();
    let mut i: usize = lo;
    while i < hi
        invariant
            lo <= i <= hi <= v.len(),
            r@ == v@.subrange(lo as int, i as int),
        decreases hi - i,
    {
        r.push(v[i]);
        assert(r@ =~= v@.subrange(lo as int, i + 1));
        i = i + 1;
    }
    r
}

/// Whether `v` holds exactly the characters of `w`.
pub fn chars_eq(v: &Vec<char>, w: &[char]) -> (r: bool)
    ensures
        r == (v@ == w@),
{
    if v.len() != w.len() {
        return false;
    }
    let mut i: usize = 0;
    while i < v.len()
        invariant
            i <= v.len() == w@.len(),
            forall|k: int| 0 <= k < i ==> v@[k] == w@[k],
        decreases v.len() - i,
    {
        if v[i] != w[i] {
            return false;
        }
        i = i + 1;
    }
    assert(v@ =~= w@);
    true
}

/// Whether `v` consists of the one character `c`.
pub fn is_single(v: &Vec<char>, c: char) -> (r: bool)
    ensures
        r == (v@ == seq![c]),
{
    if v.len() == 1 && v[0] == c {
        assert(v@ =~= seq![c]);
        true
    } else {
        false
    }
}

/// Whether `v` begins with the characters of `p`.
pub fn starts_with(v: &Vec<char>, p: &[char]) -> (r: bool)
    ensures
        r == (p@.len() <= v@.len() && v@.subrange(0, p@.len() as int) == p@),
{
    if p.len() > v.len() {
        return false;
    }
    let mut i: usize = 0;
    while i < p.len()
        invariant
            i <= p@.len() <= v@.len(),
            forall|k: int| 0 <= k < i ==> v@[k] == p@[k],
        decreases p.len() - i,
    {
        if v[i] != p[i] {
            assert(v@.subrange(0, p@.len() as int)[i as int] != p@[i as int]);
            return false;
        }
        i = i + 1;
    }
    assert(v@.subrange(0, p@.len() as int) =~= p@);
    true
}

/// The character sequences held by `v`.
pub open spec fn views(v: Seq<Vec<char>>) -> Seq<Seq<char>> {
    v.map_values(|l: Vec<char>| l@)
}

/// Splits `t` into its lines.
pub fn split_lines(t: &Vec<char>) -> (r: Vec<Vec<char>>)
    ensures
        views(r@) == lines_of(t@),
{
    let mut done: Vec<Vec<char>> = Vec::new();
    let mut cur: Vec<char> = Vec::new();
    let mut i: usize = 0;
    while i < t.len()
        invariant
            i <= t.len(),
            views(done@).push(cur@) == lines_of(t@.subrange(0, i as int)),
        decreases t.len() - i,
    {
        let ghost pre = t@.subrange(0, i as int);
        let ghost next = t@.subrange(0, i + 1);
        assert(next.drop_last() =~= pre);
        proof {
            lemma_lines_nonempty(pre);
        }
        if t[i] == '\n' {
            let ghost old_done = views(done@);
            let line = cur;
            done.push(line);
            cur = Vec::new();
            assert(views(done@) =~= old_done.push(line@));
            assert(views(done@).push(cur@) =~= lines_of(next));
        } else {
            cur.push(t[i]);
            assert(views(done@).push(cur@) =~= lines_of(next));
        }
        i = i + 1;
    }
    assert(t@.subrange(0, t.len() as int) =~= t@);
    let ghost d = views(done@);
    done.push(cur);
    assert(views(done@) =~= d.push(cur@));
    done
}

/// Removes the leading and trailing blanks of `s`.
pub fn trimmed(s: &Vec<char>) -> (r: Vec<char>)
    ensures
        r@ == trim(s@),
{
    let mut lo: usize = 0;
    assert(s@.subrange(0, s.len() as int) =~= s@);
    while lo < s.len() && is_blank_char(s[lo])
        invariant
            lo <= s.len(),
            trim_start(s@) == trim_start(s@.subrange(lo as int, s.len() as int)),
        decreases s.len() - lo,
    {
        assert(s@.subrange(lo as int, s.len() as int).drop_first() =~= s@.subrange(
            lo + 1,
            s.len() as int,
        ));
        lo = lo + 1;
    }
    let mut hi: usize = s.len();
    assert(trim_start(s@) == s@.subrange(lo as int, hi as int));
    while hi > lo && is_blank_char(s[hi - 1])
        invariant
            lo <= hi <= s.len(),
            trim(s@) == trim_end(s@.subrange(lo as int, hi as int)),
        decreases hi,
    {
        assert(s@.subrange(lo as int, hi as int).drop_last() =~= s@.subrange(
            lo as int,
            hi - 1,
        ));
        hi = hi - 1;
    }
    slice(s, lo, hi)
}

pub fn is_blank_char(c: char) -> (r: bool)
    ensures
        r == is_blank(c),
{
    c == ' '
        || c == '\t'
        || c == '\n'
        || c == '\u{0B}'
        || c == '\u{0C}'
        || c == '\r'
        || c == '\u{85}'
        || c == '\u{A0}'
        || c == '\u{1680}'
        || c == '\u{2028}'
        || c == '\u{2029}'
        || c == '\u{202F}'
        || c == '\u{205F}'
        || c == '\u{3000}'
        || ('\u{2000}' <= c && c <= '\u{200A}')
}

/// Removes the comment of a line.
pub fn clean_line(l: &Vec<char>) -> (r: Vec<char>)
    ensures
        r@ == clean(l@),
{
    let mut i: usize = 0;
    let mut in_str = false;
    while i < l.len()
        invariant
            i <= l.len(),
            comment_start(l@, 0, false) == comment_start(l@, i as int, in_str),
        ensures
            comment_start(l@, i as int, in_str) == i,
        decreases l.len() - i,
    {
        if !in_str && i + 1 < l.len() && l[i] == '/' && l[i + 1] == '/' {
            break;
        }
        if l[i] == '"' {
            in_str = !in_str;
        }
        i = i + 1;
    }
    slice(l, 0, i)
}

/// The index of the first `c` in `s` at or after `i`, or the length of `s`.
pub open spec fn find(s: Seq<char>, c: char, i: int) -> int
    decreases s.len() - i,
{
    if i >= s.len() {
        s.len() as int
    } else if s[i] == c {
        i
    } else {
        find(s, c, i + 1)
    }
}

pub proof fn lemma_find_bounds(s: Seq<char>, c: char, i: int)
    requires
        0 <= i <= s.len(),
    ensures
        i <= find(s, c, i) <= s.len(),
        find(s, c, i) < s.len() ==> s[find(s, c, i)] == c,
    decreases s.len() - i,
{
    if i < s.len() {
        lemma_find_bounds(s, c, i + 1);
    }
}

/// The index of the first `c` in `s`, or the length of `s`.
pub fn find_char(s: &Vec<char>, c: char) -> (r: usize)
    ensures
        r == find(s@, c, 0),
        r <= s.len(),
{
    let mut i: usize = 0;
    while i < s.len()
        invariant
            i <= s.len(),
            find(s@, c, 0) == find(s@, c, i as int),
        ensures
            find(s@, c, i as int) == i,
        decreases s.len() - i,
    {
        if s[i] == c {
            break;
        }
        i = i + 1;
    }
    i
}

/// The characters of `s`.
pub fn chars_of(s: &str) -> (r: Vec<char>)
    ensures
        r@ == s@,
{
    broadcast use vstd::string::group_string_axioms;

    let mut r: Vec<char> = Vec::new();
    for c in it: s.chars()
        invariant
            it.seq() == s@,
            r@ == it.seq().subrange(0, it.index() as int),
    {
        r.push(c);
        assert(r@ =~= it.seq().subrange(0, it.index() + 1));
    }
    assert(r@ =~= s@);
    r
}

/// The string made of the characters of `c`.
///
/// Relies on `String`'s `FromIterator<&char>`, which appends each character
/// in order.
#[verifier::external_body]
pub fn string_from(c: &Vec<char>) -> (r: String)
    ensures
        r@ == c@,
{
    c.iter().collect()
}

} // verus!
