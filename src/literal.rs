//! The right-hand sides of field lines: type expressions under a `type`
//! directive, value literals under a `chunk` directive.
use vstd::prelude::*;
use crate::model::{values_view, ErrorKind, FieldTypeExpression, Number, NumberKind, TypeExprModel, Value, ValueModel};
use crate::text::{chars_eq, slice, string_from, views};

verus! {

broadcast use vstd::std_specs::vec::group_vec_axioms, vstd::seq::group_seq_axioms;

/// The right-hand side of a field line: the text after the colon, or the
/// element lines of an array literal that spans several lines.
pub enum Rhs {
    Single(Vec<char>),
    Lines(Vec<Vec<char>>),
}

pub enum RhsModel {
    Single(Seq<char>),
    Lines(Seq<Seq<char>>),
}

impl View for Rhs {
    type V = RhsModel;

    open spec fn view(&self) -> RhsModel {
        match self {
            Rhs::Single(t) => RhsModel::Single(t@),
            Rhs::Lines(es) => RhsModel::Lines(views(es@)),
        }
    }
}

pub open spec fn is_ident_char(c: char) -> bool {
    ('a' <= c && c <= 'z') || ('A' <= c && c <= 'Z') || ('0' <= c && c <= '9') || c == '_'
}

/// A non-empty run of letters, digits and underscores.
pub open spec fn is_ident(s: Seq<char>) -> bool {
    s.len() > 0 && forall|i: int| 0 <= i < s.len() ==> is_ident_char(#[trigger] s[i])
}

/// The type expression written `t`: `Base`, `Base[]` or `Base?`.
pub open spec fn type_expr_of(t: Seq<char>) -> Result<TypeExprModel, ErrorKind> {
    let n = t.len() as int;
    let (base, is_array, is_optional) = if n >= 2 && t[n - 2] == '[' && t[n - 1] == ']' {
        (t.subrange(0, n - 2), true, false)
    } else if n >= 1 && t[n - 1] == '?' {
        (t.subrange(0, n - 1), false, true)
    } else {
        (t, false, false)
    };
    if is_ident(base) {
        Ok(TypeExprModel { base_name: base, is_array, is_optional })
    } else {
        Err(ErrorKind::BadTypeExpression)
    }
}

/// The type expression of a field's right-hand side; an array literal is none.
pub open spec fn rhs_type_of(r: RhsModel) -> Result<TypeExprModel, ErrorKind> {
    match r {
        RhsModel::Single(t) => type_expr_of(t),
        RhsModel::Lines(_) => Err(ErrorKind::BadTypeExpression),
    }
}

pub fn ident_char(c: char) -> (r: bool)
    ensures
        r == is_ident_char(c),
{
    ('a' <= c && c <= 'z') || ('A' <= c && c <= 'Z') || ('0' <= c && c <= '9') || c == '_'
}

pub fn ident(s: &Vec<char>) -> (r: bool)
    ensures
        r == is_ident(s@),
{
    if s.len() == 0 {
        return false;
    }
    let mut i: usize = 0;
    while i < s.len()
        invariant
            i <= s.len(),
            forall|k: int| 0 <= k < i ==> is_ident_char(#[trigger] s@[k]),
        decreases s.len() - i,
    {
        if !ident_char(s[i]) {
            return false;
        }
        i = i + 1;
    }
    true
}

/// Parses a type expression.
pub fn parse_type_expr(t: &Vec<char>) -> (r: Result<FieldTypeExpression, ErrorKind>)
    ensures
        match r {
            Ok(e) => type_expr_of(t@) == Ok::<_, ErrorKind>(e@),
            Err(k) => type_expr_of(t@) == Err::<TypeExprModel, _>(k),
        },
{
    let n = t.len();
    let (base, is_array, is_optional) = if n >= 2 && t[n - 2] == '[' && t[n - 1] == ']' {
        (slice(t, 0, n - 2), true, false)
    } else if n >= 1 && t[n - 1] == '?' {
        (slice(t, 0, n - 1), false, true)
    } else {
        (slice(t, 0, n), false, false)
    };
    assert(t@.subrange(0, n as int) =~= t@);
    if ident(&base) {
        Ok(FieldTypeExpression { base_name: string_from(&base), is_array, is_optional })
    } else {
        Err(ErrorKind::BadTypeExpression)
    }
}

/// Parses the right-hand side of a field line under a `type` directive.
pub fn parse_rhs_type(r: &Rhs) -> (res: Result<FieldTypeExpression, ErrorKind>)
    ensures
        match res {
            Ok(e) => rhs_type_of(r@) == Ok::<_, ErrorKind>(e@),
            Err(k) => rhs_type_of(r@) == Err::<TypeExprModel, _>(k),
        },
{
    match r {
        Rhs::Single(t) => parse_type_expr(t),
        Rhs::Lines(_) => Err(ErrorKind::BadTypeExpression),
    }
}

pub open spec fn is_digit(c: char) -> bool {
    '0' <= c && c <= '9'
}

/// `t` without a leading minus sign.
pub open spec fn unsigned_part(t: Seq<char>) -> Seq<char> {
    if t.len() > 0 && t[0] == '-' {
        t.drop_first()
    } else {
        t
    }
}

/// A numeric literal: an optional leading `-`, then digits with at most one
/// `.` among them, and at least one digit.
pub open spec fn is_number(t: Seq<char>) -> bool {
    let d = unsigned_part(t);
    &&& d.len() > 0
    &&& d != seq!['.']
    &&& forall|i: int| 0 <= i < d.len() ==> is_digit(#[trigger] d[i]) || d[i] == '.'
    &&& forall|i: int, j: int| 0 <= i < j < d.len() && #[trigger] d[i] == '.' ==> #[trigger] d[j] != '.'
}

/// Whether a numeric literal holds a `.`.
pub open spec fn has_dot(t: Seq<char>) -> bool {
    exists|i: int| 0 <= i < t.len() && t[i] == '.'
}

/// A string literal: text between two double quotes with no quote inside.
pub open spec fn is_string_literal(t: Seq<char>) -> bool {
    &&& t.len() >= 2
    &&& t[0] == '"'
    &&& t.last() == '"'
    &&& forall|i: int| 1 <= i < t.len() - 1 ==> #[trigger] t[i] != '"'
}

/// The value that the single-line literal `t` denotes.
pub open spec fn scalar_of(t: Seq<char>) -> Result<ValueModel, ErrorKind> {
    if t == seq!['n', 'u', 'l', 'l'] {
        Ok(ValueModel::Null)
    } else if t == seq!['t', 'r', 'u', 'e'] {
        Ok(ValueModel::Bool(true))
    } else if t == seq!['f', 'a', 'l', 's', 'e'] {
        Ok(ValueModel::Bool(false))
    } else if is_string_literal(t) {
        Ok(ValueModel::String(t.subrange(1, t.len() - 1)))
    } else if is_number(t) {
        Ok(
            ValueModel::Number(
                t,
                if has_dot(t) {
                    NumberKind::Decimal
                } else {
                    NumberKind::Integer
                },
            ),
        )
    } else {
        Err(ErrorKind::BadLiteral)
    }
}

/// The values of the element lines `es` of an array literal, in order.
pub open spec fn elements_of(es: Seq<Seq<char>>) -> Result<Seq<ValueModel>, ErrorKind>
    decreases es.len(),
{
    if es.len() == 0 {
        Ok(Seq::empty())
    } else {
        match elements_of(es.drop_last()) {
            Ok(vs) => match scalar_of(es.last()) {
                Ok(v) => Ok(vs.push(v)),
                Err(k) => Err(k),
            },
            Err(k) => Err(k),
        }
    }
}

/// Once a prefix of the element lines fails, so do all of them.
pub proof fn lemma_elements_err(es: Seq<Seq<char>>, i: int)
    requires
        0 <= i <= es.len(),
        elements_of(es.subrange(0, i)) is Err,
    ensures
        elements_of(es) == elements_of(es.subrange(0, i)),
    decreases es.len() - i,
{
    if i < es.len() {
        assert(es.subrange(0, i + 1).drop_last() =~= es.subrange(0, i));
        lemma_elements_err(es, i + 1);
    } else {
        assert(es.subrange(0, i) =~= es);
    }
}

/// The value of a field's right-hand side.
pub open spec fn rhs_value_of(r: RhsModel) -> Result<ValueModel, ErrorKind> {
    match r {
        RhsModel::Single(t) => scalar_of(t),
        RhsModel::Lines(es) => match elements_of(es) {
            Ok(vs) => Ok(ValueModel::Array(vs)),
            Err(k) => Err(k),
        },
    }
}

/// Whether `t` is a numeric literal, and whether it holds a `.`.
fn scan_number(t: &Vec<char>) -> (r: (bool, bool))
    ensures
        r.0 == is_number(t@),
        r.0 ==> r.1 == has_dot(t@),
{
    let start: usize = if t.len() > 0 && t[0] == '-' { 1 } else { 0 };
    let ghost d = unsigned_part(t@);
    assert(d =~= t@.subrange(start as int, t.len() as int));
    if start == t.len() {
        return (false, false);
    }
    let mut dots: usize = 0;
    let mut dot_at: usize = 0;
    let mut i: usize = start;
    while i < t.len()
        invariant
            start <= i <= t.len(),
            start < t.len(),
            d =~= t@.subrange(start as int, t.len() as int),
            d == unsigned_part(t@),
            dots <= 1,
            forall|k: int| start <= k < i ==> is_digit(#[trigger] t@[k]) || t@[k] == '.',
            dots == 0 ==> forall|k: int| start <= k < i ==> #[trigger] t@[k] != '.',
            dots == 1 ==> start <= dot_at < i && t@[dot_at as int] == '.',
            dots == 1 ==> forall|k: int| start <= k < i && k != dot_at ==> #[trigger] t@[k] != '.',
        decreases t.len() - i,
    {
        let c = t[i];
        if c == '.' {
            if dots == 1 {
                assert(d[dot_at - start] == '.' && d[i - start] == '.');
                assert(!is_number(t@));
                return (false, true);
            }
            dots = 1;
            dot_at = i;
        } else if !('0' <= c && c <= '9') {
            assert(!(is_digit(d[i - start]) || d[i - start] == '.'));
            assert(!is_number(t@));
            return (false, false);
        }
        i = i + 1;
    }
    if t.len() - start == 1 && dots == 1 {
        assert(d =~= seq!['.']);
        return (false, true);
    }
    assert forall|a: int, b: int| 0 <= a < b < d.len() && #[trigger] d[a] == '.' implies #[trigger] d[b] != '.' by {
        assert(d[a] == t@[a + start]);
        assert(d[b] == t@[b + start]);
    }
    assert forall|a: int| 0 <= a < d.len() implies is_digit(#[trigger] d[a]) || d[a] == '.' by {
        assert(d[a] == t@[a + start]);
    }
    if dots == 0 {
        assert(d[0] == t@[start as int]);
        assert(d != seq!['.']);
    } else {
        assert(d.len() != 1);
        assert(d != seq!['.']);
    }
    if dots == 1 {
        assert(t@[dot_at as int] == '.');
    } else {
        assert(!has_dot(t@)) by {
            if t.len() > 0 && t@[0] == '.' {
                assert(start == 0);
            }
        }
    }
    (true, dots == 1)
}

/// Parses a single-line literal.
pub fn parse_scalar(t: &Vec<char>) -> (r: Result<Value, ErrorKind>)
    ensures
        match r {
            Ok(v) => scalar_of(t@) == Ok::<_, ErrorKind>(v.view()),
            Err(k) => scalar_of(t@) == Err::<ValueModel, _>(k),
        },
{
    if chars_eq(t, &['n', 'u', 'l', 'l']) {
        return Ok(Value::Null);
    }
    if chars_eq(t, &['t', 'r', 'u', 'e']) {
        return Ok(Value::Bool(true));
    }
    if chars_eq(t, &['f', 'a', 'l', 's', 'e']) {
        return Ok(Value::Bool(false));
    }
    let n = t.len();
    if n >= 2 && t[0] == '"' && t[n - 1] == '"' {
        let mut i: usize = 1;
        while i < n - 1
            invariant
                1 <= i <= n - 1,
                n == t.len(),
                forall|k: int| 1 <= k < i ==> #[trigger] t@[k] != '"',
            ensures
                i < n - 1 ==> t@[i as int] == '"',
            decreases n - 1 - i,
        {
            if t[i] == '"' {
                break;
            }
            i = i + 1;
        }
        if i == n - 1 {
            return Ok(Value::String(string_from(&slice(t, 1, n - 1))));
        }
        assert(!is_string_literal(t@));
    }
    let (number, dot) = scan_number(t);
    if number {
        let kind = if dot {
            NumberKind::Decimal
        } else {
            NumberKind::Integer
        };
        Ok(Value::Number(Number { text: string_from(t), kind }))
    } else {
        Err(ErrorKind::BadLiteral)
    }
}

/// Parses the right-hand side of a field line under a `chunk` directive.
pub fn parse_rhs_value(r: &Rhs) -> (res: Result<Value, ErrorKind>)
    ensures
        match res {
            Ok(v) => rhs_value_of(r@) == Ok::<_, ErrorKind>(v.view()),
            Err(k) => rhs_value_of(r@) == Err::<ValueModel, _>(k),
        },
{
    match r {
        Rhs::Single(t) => parse_scalar(t),
        Rhs::Lines(es) => {
            let ghost ev = views(es@);
            let mut items: Vec<Value> = Vec::new();
            let mut i: usize = 0;
            assert(ev.subrange(0, 0) =~= Seq::<Seq<char>>::empty());
            assert(values_view(items@) =~= Seq::<ValueModel>::empty());
            while i < es.len()
                invariant
                    i <= es.len(),
                    items.len() == i,
                    ev == views(es@),
                    r@ == RhsModel::Lines(ev),
                    elements_of(ev.subrange(0, i as int)) == Ok::<_, ErrorKind>(
                        values_view(items@),
                    ),
                decreases es.len() - i,
            {
                assert(ev.subrange(0, i + 1).drop_last() =~= ev.subrange(0, i as int));
                match parse_scalar(&es[i]) {
                    Ok(v) => {
                        let ghost before = values_view(items@);
                        let ghost vv = v.view();
                        items.push(v);
                        assert(values_view(items@) =~= before.push(vv));
                    },
                    Err(k) => {
                        proof {
                            assert(ev.subrange(0, i + 1).last() == es@[i as int]@);
                            assert(elements_of(ev.subrange(0, i + 1)) == Err::<Seq<ValueModel>, ErrorKind>(k));
                            lemma_elements_err(ev, i + 1);
                        }
                        return Err(k);
                    },
                }
                i = i + 1;
            }
            assert(ev.subrange(0, es.len() as int) =~= ev);
            let out = Value::Array(items);
            assert(out.view() == ValueModel::Array(values_view(items@))) by {
                if let ValueModel::Array(s) = out.view() {
                    assert(s =~= values_view(items@));
                }
            }
            Ok(out)
        },
    }
}

} // verus!
