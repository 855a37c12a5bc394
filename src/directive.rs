//! Directive lines (`#_type(chunk)`, `#_chunk`) and the header line
//! (`[instance] @Name:`) that follows each of them.
use vstd::prelude::*;
use crate::model::ErrorKind;
use crate::literal::{ident, is_ident};
use crate::text::{
    chars_eq, find, find_char, is_blank, is_blank_char, lemma_find_bounds, slice, trim, trimmed,
};

verus! {

/// The kinds of type that a `type` directive may declare.
#[derive(Clone, Copy, Debug, PartialEq, Eq, Structural)]
pub enum TypeCategory {
    Chunk,
}

/// What a directive line selects for the block that follows it.
#[derive(Clone, Copy, Debug, PartialEq, Eq, Structural)]
pub enum Directive {
    Type(TypeCategory),
    Chunk,
}

/// Whether a cleaned line is a directive line, one that starts with `#_`.
pub open spec fn is_directive(l: Seq<char>) -> bool {
    l.len() >= 2 && l[0] == '#' && l[1] == '_'
}

/// What the directive line `l` means. Its text after `#_` is `keyword` or
/// `keyword(argument)`, blanks at either end aside.
pub open spec fn directive_of(l: Seq<char>) -> Result<Directive, ErrorKind> {
    let body = trim(l.subrange(2, l.len() as int));
    let p = find(body, '(', 0);
    let keyword = body.subrange(0, p);
    if keyword == seq!['t', 'y', 'p', 'e'] {
        if p < body.len() && body.last() == ')' {
            if body.subrange(p + 1, body.len() - 1) == seq!['c', 'h', 'u', 'n', 'k'] {
                Ok(Directive::Type(TypeCategory::Chunk))
            } else {
                Err(ErrorKind::UnknownCategory)
            }
        } else {
            Err(ErrorKind::MalformedDirective)
        }
    } else if keyword == seq!['c', 'h', 'u', 'n', 'k'] {
        if p == body.len() {
            Ok(Directive::Chunk)
        } else {
            Err(ErrorKind::MalformedDirective)
        }
    } else {
        Err(ErrorKind::UnknownDirective)
    }
}

/// Whether a line is a directive line.
pub fn line_is_directive(l: &Vec<char>) -> (r: bool)
    ensures
        r == is_directive(l@),
{
    l.len() >= 2 && l[0] == '#' && l[1] == '_'
}

/// Recognizes the directive of a directive line.
pub fn read_directive(l: &Vec<char>) -> (r: Result<Directive, ErrorKind>)
    requires
        is_directive(l@),
    ensures
        r == directive_of(l@),
{
    let body = trimmed(&slice(l, 2, l.len()));
    let p = find_char(&body, '(');
    proof {
        lemma_find_bounds(body@, '(', 0);
    }
    let keyword = slice(&body, 0, p);
    if chars_eq(&keyword, &['t', 'y', 'p', 'e']) {
        if p < body.len() && body[body.len() - 1] == ')' {
            let category = slice(&body, p + 1, body.len() - 1);
            if chars_eq(&category, &['c', 'h', 'u', 'n', 'k']) {
                Ok(Directive::Type(TypeCategory::Chunk))
            } else {
                Err(ErrorKind::UnknownCategory)
            }
        } else {
            Err(ErrorKind::MalformedDirective)
        }
    } else if chars_eq(&keyword, &['c', 'h', 'u', 'n', 'k']) {
        if p == body.len() {
            Ok(Directive::Chunk)
        } else {
            Err(ErrorKind::MalformedDirective)
        }
    } else {
        Err(ErrorKind::UnknownDirective)
    }
}

/// What the header line `l` declares: an optional instance name and the
/// type name. The line reads `@Name:`, or `instance @Name:` where `instance`
/// is an identifier followed by blanks. A missing `@`, a missing final `:` or
/// a malformed instance name is a missing `@Name:` marker; an empty name
/// after `@` is an empty name.
pub open spec fn header_of(l: Seq<char>) -> Result<(Option<Seq<char>>, Seq<char>), ErrorKind> {
    let h = trim(l);
    let a = find(h, '@', 0);
    if a >= h.len() {
        Err(ErrorKind::MissingAtSign)
    } else {
        let closed = h.last() == ':' && a < h.len() - 1;
        let name = if closed {
            trim(h.subrange(a + 1, h.len() - 1))
        } else {
            trim(h.subrange(a + 1, h.len() as int))
        };
        let before = h.subrange(0, a);
        let prefix = trim(before);
        if name.len() == 0 {
            Err(ErrorKind::EmptyName)
        } else if !closed {
            Err(ErrorKind::MissingAtSign)
        } else if prefix.len() == 0 {
            Ok((None, name))
        } else if is_ident(prefix) && is_blank(before.last()) {
            Ok((Some(prefix), name))
        } else {
            Err(ErrorKind::MissingAtSign)
        }
    }
}

/// Resolves a header line.
pub fn read_header(l: &Vec<char>) -> (r: Result<(Option<Vec<char>>, Vec<char>), ErrorKind>)
    ensures
        match r {
            Ok((prefix, name)) => header_of(l@) == Ok::<_, ErrorKind>(
                (
                    match prefix {
                        Some(p) => Some(p@),
                        None => None,
                    },
                    name@,
                ),
            ),
            Err(e) => header_of(l@) == Err::<(Option<Seq<char>>, Seq<char>), _>(e),
        },
{
    let h = trimmed(l);
    let a = find_char(&h, '@');
    proof {
        lemma_find_bounds(h@, '@', 0);
    }
    if a >= h.len() {
        return Err(ErrorKind::MissingAtSign);
    }
    let closed = h[h.len() - 1] == ':' && a < h.len() - 1;
    let name = if closed {
        trimmed(&slice(&h, a + 1, h.len() - 1))
    } else {
        trimmed(&slice(&h, a + 1, h.len()))
    };
    let before = slice(&h, 0, a);
    let prefix = trimmed(&before);
    if name.len() == 0 {
        Err(ErrorKind::EmptyName)
    } else if !closed {
        Err(ErrorKind::MissingAtSign)
    } else if prefix.len() == 0 {
        Ok((None, name))
    } else if ident(&prefix) && is_blank_char(before[a - 1]) {
        Ok((Some(prefix), name))
    } else {
        Err(ErrorKind::MissingAtSign)
    }
}

} // verus!
