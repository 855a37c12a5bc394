//! Assembling a `Document` from the blocks of a text, and the entry point
//! `parse_str`.
use vstd::prelude::*;
use crate::directive::{directive_of, header_of, is_directive, line_is_directive, read_directive, read_header, Directive};
use crate::fields::{lemma_array_end_bounds, read_field_list, read_fields, RawField, RawFieldModel, raw_views, array_end};
use crate::literal::{parse_rhs_type, parse_rhs_value, rhs_type_of, rhs_value_of};
use crate::model::{
    def_views, instance_views, pair_views, schema_views, fail, ChunkInstance, DocModel, Document, ErrorKind, Failure, FieldDefModel, FieldDefinition,
    InstanceModel, ParseError, SchemaModel, TypeSchema, Value, ValueModel,
};
use crate::laws::{law_parsed_doc_wf, wf_doc};
use crate::text::{chars_eq, chars_of, clean, clean_line, lines_of, split_lines, string_from, views};

verus! {

broadcast use vstd::std_specs::vec::group_vec_axioms, vstd::seq::group_seq_axioms;

/// The field definitions of a schema block, each field's right-hand side read
/// as a type expression.
pub open spec fn schema_fields_of(fs: Seq<RawFieldModel>) -> Result<Seq<FieldDefModel>, Failure>
    decreases fs.len(),
{
    if fs.len() == 0 {
        Ok(Seq::empty())
    } else {
        match schema_fields_of(fs.drop_last()) {
            Ok(ds) => match rhs_type_of(fs.last().rhs) {
                Ok(t) => Ok(ds.push(FieldDefModel { name: fs.last().name, ty: t })),
                Err(k) => Err(fail(k, fs.last().line)),
            },
            Err(e) => Err(e),
        }
    }
}

/// The field values of a chunk block, each field's right-hand side read as a
/// value literal.
pub open spec fn instance_fields_of(fs: Seq<RawFieldModel>) -> Result<
    Seq<(Seq<char>, ValueModel)>,
    Failure,
>
    decreases fs.len(),
{
    if fs.len() == 0 {
        Ok(Seq::empty())
    } else {
        match instance_fields_of(fs.drop_last()) {
            Ok(vs) => match rhs_value_of(fs.last().rhs) {
                Ok(v) => Ok(vs.push((fs.last().name, v))),
                Err(k) => Err(fail(k, fs.last().line)),
            },
            Err(e) => Err(e),
        }
    }
}

/// The index of the first schema named `name` in `ss` at or after `i`, or the
/// length of `ss`.
pub open spec fn schema_pos(ss: Seq<SchemaModel>, name: Seq<char>, i: int) -> int
    decreases ss.len() - i,
{
    if i >= ss.len() {
        ss.len() as int
    } else if ss[i].name == name {
        i
    } else {
        schema_pos(ss, name, i + 1)
    }
}

pub open spec fn has_schema(ss: Seq<SchemaModel>, name: Seq<char>) -> bool {
    exists|i: int| 0 <= i < ss.len() && (#[trigger] ss[i]).name == name
}

pub open spec fn has_instance(cs: Seq<InstanceModel>, key: Seq<char>) -> bool {
    exists|i: int| 0 <= i < cs.len() && (#[trigger] cs[i]).key() == key
}

/// Whether the instance fields `vs` carry exactly the names of the schema
/// fields `ds`, in the same order.
pub open spec fn names_match(vs: Seq<(Seq<char>, ValueModel)>, ds: Seq<FieldDefModel>) -> bool {
    vs.len() == ds.len() && forall|i: int| 0 <= i < vs.len() ==> (#[trigger] vs[i]).0 == ds[i].name
}

/// The instance name of a header: its prefix, where that differs from the
/// type name.
pub open spec fn declared_name_of(prefix: Option<Seq<char>>, name: Seq<char>) -> Option<Seq<char>> {
    match prefix {
        Some(p) => if p != name {
            Some(p)
        } else {
            None
        },
        None => None,
    }
}

/// Registers the schema `name` with the fields `fs`, declared by the header at line `h`.
pub open spec fn add_schema_spec(doc: DocModel, name: Seq<char>, fs: Seq<RawFieldModel>, h: int) -> Result<
    DocModel,
    Failure,
> {
    match schema_fields_of(fs) {
        Err(e) => Err(e),
        Ok(ds) => if has_schema(doc.schemas, name) {
            Err(fail(ErrorKind::DuplicateSchemaName, h))
        } else {
            Ok(
                DocModel {
                    schemas: doc.schemas.push(SchemaModel { name, fields: ds }),
                    instances: doc.instances,
                },
            )
        },
    }
}

/// The line at which the field list after the header at line `h` starts: the
/// next line, or the header itself where it is the last line.
pub open spec fn list_line(cs: Seq<Seq<char>>, h: int) -> int {
    if h + 1 < cs.len() {
        h + 1
    } else {
        h
    }
}

/// Registers an instance of the schema `name` with the fields `fs`, declared by
/// the header at line `h` with the prefix `prefix`; `m` is the line of its
/// field list.
pub open spec fn add_instance_spec(
    doc: DocModel,
    prefix: Option<Seq<char>>,
    name: Seq<char>,
    fs: Seq<RawFieldModel>,
    h: int,
    m: int,
) -> Result<DocModel, Failure> {
    match instance_fields_of(fs) {
        Err(e) => Err(e),
        Ok(vs) => {
            let si = schema_pos(doc.schemas, name, 0);
            let inst = InstanceModel {
                declared_name: declared_name_of(prefix, name),
                schema_name: name,
                fields: vs,
            };
            if si >= doc.schemas.len() {
                Err(fail(ErrorKind::UnknownSchema, h))
            } else if !names_match(vs, doc.schemas[si].fields) {
                Err(fail(ErrorKind::FieldMismatch, m))
            } else if has_instance(doc.instances, inst.key()) {
                Err(fail(ErrorKind::DuplicateInstanceName, h))
            } else {
                Ok(DocModel { schemas: doc.schemas, instances: doc.instances.push(inst) })
            }
        },
    }
}

pub proof fn lemma_read_fields_bounds(cs: Seq<Seq<char>>, j: int, acc: Seq<RawFieldModel>)
    requires
        0 <= j <= cs.len(),
    ensures
        read_fields(cs, j, acc) matches Ok((_, n)) ==> j <= n <= cs.len(),
    decreases cs.len() - j,
{
    if j < cs.len() {
        lemma_array_end_bounds(cs, j + 1);
        let c = crate::fields::content(cs[j]);
        let name = crate::fields::field_name(c);
        let rhs = crate::fields::field_rhs(c);
        if let Some(e) = array_end(cs, j + 1) {
            lemma_read_fields_bounds(
                cs,
                e + 1,
                acc.push(
                    RawFieldModel {
                        name,
                        rhs: crate::literal::RhsModel::Lines(
                            crate::fields::array_elements(cs, j + 1, e),
                        ),
                        line: j,
                    },
                ),
            );
        }
        lemma_read_fields_bounds(
            cs,
            j + 1,
            acc.push(RawFieldModel { name, rhs: crate::literal::RhsModel::Single(rhs), line: j }),
        );
    }
}

/// Parses the cleaned lines `cs` from line `i` on, into the document `doc`
/// built from the lines before. Lines that are not directives are skipped;
/// a directive line is followed by a header line and a field list. An
/// instance name in the header of a `type` block plays no part.
pub open spec fn parse_from(cs: Seq<Seq<char>>, i: int, doc: DocModel) -> Result<DocModel, Failure>
    decreases cs.len() - i,
{
    if i < 0 || i >= cs.len() {
        Ok(doc)
    } else if !is_directive(cs[i]) {
        parse_from(cs, i + 1, doc)
    } else {
        match directive_of(cs[i]) {
            Err(k) => Err(fail(k, i)),
            Ok(d) => if i + 1 >= cs.len() {
                Err(fail(ErrorKind::MissingAtSign, i))
            } else {
                match header_of(cs[i + 1]) {
                    Err(k) => Err(fail(k, i + 1)),
                    Ok((prefix, name)) => match read_fields(cs, i + 2, seq![]) {
                        Err(e) => Err(e),
                        Ok((fs, next)) => {
                            let added = match d {
                                Directive::Type(_) => add_schema_spec(doc, name, fs, i + 1),
                                Directive::Chunk => add_instance_spec(
                                    doc,
                                    prefix,
                                    name,
                                    fs,
                                    i + 1,
                                    list_line(cs, i + 1),
                                ),
                            };
                            match added {
                                Err(e) => Err(e),
                                Ok(d2) => {
                                    proof {
                                        lemma_read_fields_bounds(cs, i + 2, seq![]);
                                    }
                                    parse_from(cs, next, d2)
                                },
                            }
                        },
                    },
                }
            },
        }
    }
}

/// The lines of a text with their comments removed.
pub open spec fn cleaned(ls: Seq<Seq<char>>) -> Seq<Seq<char>> {
    ls.map_values(|l: Seq<char>| clean(l))
}

pub open spec fn empty_doc() -> DocModel {
    DocModel { schemas: Seq::empty(), instances: Seq::empty() }
}

/// What parsing the text `t` yields: a document, or the first failure.
pub open spec fn parse_text(t: Seq<char>) -> Result<DocModel, Failure> {
    parse_from(cleaned(lines_of(t)), 0, empty_doc())
}

pub proof fn lemma_schema_fields_err(fs: Seq<RawFieldModel>, i: int)
    requires
        0 <= i <= fs.len(),
        schema_fields_of(fs.subrange(0, i)) is Err,
    ensures
        schema_fields_of(fs) == schema_fields_of(fs.subrange(0, i)),
    decreases fs.len() - i,
{
    if i < fs.len() {
        assert(fs.subrange(0, i + 1).drop_last() =~= fs.subrange(0, i));
        lemma_schema_fields_err(fs, i + 1);
    } else {
        assert(fs.subrange(0, i) =~= fs);
    }
}

pub proof fn lemma_instance_fields_err(fs: Seq<RawFieldModel>, i: int)
    requires
        0 <= i <= fs.len(),
        instance_fields_of(fs.subrange(0, i)) is Err,
    ensures
        instance_fields_of(fs) == instance_fields_of(fs.subrange(0, i)),
    decreases fs.len() - i,
{
    if i < fs.len() {
        assert(fs.subrange(0, i + 1).drop_last() =~= fs.subrange(0, i));
        lemma_instance_fields_err(fs, i + 1);
    } else {
        assert(fs.subrange(0, i) =~= fs);
    }
}

/// Registers a schema in `doc`: the schema `name`, declared by the header at
/// line `h`, with the field lines `fs`.
#[verifier::loop_isolation(false)]
fn add_schema(doc: Document, name: &Vec<char>, fs: &Vec<RawField>, h: usize) -> (r: Result<
    Document,
    ParseError,
>)
    ensures
        match r {
            Ok(d) => add_schema_spec(doc@, name@, raw_views(fs@), h as int) == Ok::<_, Failure>(d@),
            Err(e) => add_schema_spec(doc@, name@, raw_views(fs@), h as int) == Err::<DocModel, _>(
                e@,
            ),
        },
{
    let ghost fv = raw_views(fs@);
    let mut defs: Vec<FieldDefinition> = Vec::new();
    let mut i: usize = 0;
    assert(fv.subrange(0, 0) =~= Seq::<RawFieldModel>::empty());
    assert(def_views(defs@) =~= Seq::<FieldDefModel>::empty());
    while i < fs.len()
        invariant
            i <= fs.len(),
            schema_fields_of(fv.subrange(0, i as int)) == Ok::<_, Failure>(def_views(defs@)),
        decreases fs.len() - i,
    {
        assert(fv.subrange(0, i + 1).drop_last() =~= fv.subrange(0, i as int));
        assert(fv.subrange(0, i + 1).last() == fs@[i as int]@);
        match parse_rhs_type(&fs[i].rhs) {
            Ok(t) => {
                let d = FieldDefinition { name: string_from(&fs[i].name), ty: t };
                let ghost before = def_views(defs@);
                let ghost dv = d@;
                defs.push(d);
                assert(def_views(defs@) =~= before.push(dv));
            },
            Err(k) => {
                proof {
                    lemma_schema_fields_err(fv, i + 1);
                }
                return Err(ParseError { kind: k, line: fs[i].line });
            },
        }
        i = i + 1;
    }
    assert(fv.subrange(0, fs.len() as int) =~= fv);
    let name_s = string_from(name);
    let mut k: usize = 0;
    while k < doc.schemas.len()
        invariant
            k <= doc.schemas.len(),
            forall|m: int| 0 <= m < k ==> (#[trigger] schema_views(doc.schemas@)[m]).name != name@,
        decreases doc.schemas.len() - k,
    {
        if doc.schemas[k].name == name_s {
            assert(schema_views(doc.schemas@)[k as int].name == name@);
            return Err(ParseError { kind: ErrorKind::DuplicateSchemaName, line: h });
        }
        k = k + 1;
    }
    let ghost before = doc@;
    let mut doc = doc;
    let schema = TypeSchema { name: name_s, fields: defs };
    let ghost sv = schema@;
    doc.schemas.push(schema);
    assert(schema_views(doc.schemas@) =~= before.schemas.push(sv));
    Ok(doc)
}

/// The position of the first schema of `doc` named `name`, or the number of schemas.
fn find_schema(doc: &Document, name: &String) -> (r: usize)
    ensures
        r == schema_pos(doc@.schemas, name@, 0),
{
    let mut k: usize = 0;
    while k < doc.schemas.len()
        invariant
            k <= doc.schemas.len(),
            schema_pos(doc@.schemas, name@, 0) == schema_pos(doc@.schemas, name@, k as int),
        decreases doc.schemas.len() - k,
    {
        if doc.schemas[k].name == *name {
            return k;
        }
        k = k + 1;
    }
    k
}

/// Registers an instance in `doc`: an instance of the schema `name`, declared
/// by the header at line `h` with the prefix `prefix`, with the field lines `fs`.
#[verifier::loop_isolation(false)]
fn add_instance(
    doc: Document,
    prefix: &Option<Vec<char>>,
    name: &Vec<char>,
    fs: &Vec<RawField>,
    h: usize,
    m: usize,
) -> (r: Result<Document, ParseError>)
    ensures
        match r {
            Ok(d) => add_instance_spec(
                doc@,
                match prefix {
                    Some(p) => Some(p@),
                    None => None,
                },
                name@,
                raw_views(fs@),
                h as int,
                m as int,
            ) == Ok::<_, Failure>(d@),
            Err(e) => add_instance_spec(
                doc@,
                match prefix {
                    Some(p) => Some(p@),
                    None => None,
                },
                name@,
                raw_views(fs@),
                h as int,
                m as int,
            ) == Err::<DocModel, _>(e@),
        },
{
    let ghost fv = raw_views(fs@);
    let mut vals: Vec<(String, Value)> = Vec::new();
    let mut i: usize = 0;
    assert(fv.subrange(0, 0) =~= Seq::<RawFieldModel>::empty());
    assert(pair_views(vals@) =~= Seq::<(Seq<char>, ValueModel)>::empty());
    while i < fs.len()
        invariant
            i <= fs.len(),
            instance_fields_of(fv.subrange(0, i as int)) == Ok::<_, Failure>(pair_views(vals@)),
        decreases fs.len() - i,
    {
        assert(fv.subrange(0, i + 1).drop_last() =~= fv.subrange(0, i as int));
        assert(fv.subrange(0, i + 1).last() == fs@[i as int]@);
        match parse_rhs_value(&fs[i].rhs) {
            Ok(v) => {
                let pair = (string_from(&fs[i].name), v);
                let ghost before = pair_views(vals@);
                let ghost pv = (pair.0@, pair.1.view());
                vals.push(pair);
                assert(pair_views(vals@) =~= before.push(pv));
            },
            Err(k) => {
                proof {
                    lemma_instance_fields_err(fv, i + 1);
                }
                return Err(ParseError { kind: k, line: fs[i].line });
            },
        }
        i = i + 1;
    }
    assert(fv.subrange(0, fs.len() as int) =~= fv);
    let name_s = string_from(name);
    let si = find_schema(&doc, &name_s);
    if si >= doc.schemas.len() {
        return Err(ParseError { kind: ErrorKind::UnknownSchema, line: h });
    }
    let ghost sfields = doc@.schemas[si as int].fields;
    assert(sfields == def_views(doc.schemas@[si as int].fields@));
    let schema_fields = &doc.schemas[si].fields;
    if vals.len() != schema_fields.len() {
        return Err(ParseError { kind: ErrorKind::FieldMismatch, line: m });
    }
    let mut f: usize = 0;
    while f < vals.len()
        invariant
            f <= vals.len() == schema_fields.len(),
            forall|q: int| 0 <= q < f ==> (#[trigger] pair_views(vals@)[q]).0 == sfields[q].name,
        decreases vals.len() - f,
    {
        if vals[f].0 != schema_fields[f].name {
            assert(pair_views(vals@)[f as int].0 != sfields[f as int].name);
            return Err(ParseError { kind: ErrorKind::FieldMismatch, line: m });
        }
        assert(pair_views(vals@)[f as int].0 == sfields[f as int].name);
        f = f + 1;
    }
    let declared = match prefix {
        Some(p) => if chars_eq(p, name.as_slice()) {
            None
        } else {
            Some(string_from(p))
        },
        None => None,
    };
    let inst = ChunkInstance { declared_name: declared, schema_name: name_s, fields: vals };
    let mut k: usize = 0;
    while k < doc.instances.len()
        invariant
            k <= doc.instances.len(),
            forall|q: int| 0 <= q < k ==> (#[trigger] instance_views(doc.instances@)[q]).key() != inst@.key(),
        decreases doc.instances.len() - k,
    {
        if *doc.instances[k].key() == *inst.key() {
            assert(instance_views(doc.instances@)[k as int].key() == inst@.key());
            return Err(ParseError { kind: ErrorKind::DuplicateInstanceName, line: h });
        }
        k = k + 1;
    }
    let ghost before = doc@;
    let ghost iv = inst@;
    let mut doc = doc;
    doc.instances.push(inst);
    assert(instance_views(doc.instances@) =~= before.instances.push(iv));
    Ok(doc)
}

/// The cleaned lines of one text, walked once from the first to the last.
/// The driving loop alone owns the current line index and hands it to each
/// reader, which returns where it stopped.
pub struct Parser {
    lines: Vec<Vec<char>>,
}

impl Parser {
    /// The lines that the parser walks.
    pub closed spec fn lines_view(&self) -> Seq<Seq<char>> {
        views(self.lines@)
    }

    /// Splits `text` into lines and removes their comments.
    pub fn new(text: &str) -> (p: Parser)
        ensures
            p.lines_view() == cleaned(lines_of(text@)),
    {
        let chars = chars_of(text);
        let raw = split_lines(&chars);
        let ghost rv = views(raw@);
        let mut lines: Vec<Vec<char>> = Vec::new();
        let mut k: usize = 0;
        assert(views(lines@) =~= cleaned(rv).subrange(0, 0));
        while k < raw.len()
            invariant
                k <= raw.len(),
                rv == views(raw@),
                views(lines@) == cleaned(rv).subrange(0, k as int),
            decreases raw.len() - k,
        {
            let l = clean_line(&raw[k]);
            let ghost before = views(lines@);
            let ghost lv = l@;
            lines.push(l);
            assert(views(lines@) =~= before.push(lv));
            assert(cleaned(rv).subrange(0, k + 1) =~= cleaned(rv).subrange(0, k as int).push(lv));
            k = k + 1;
        }
        assert(cleaned(rv).subrange(0, raw.len() as int) =~= cleaned(rv));
        Parser { lines }
    }

    /// Parses the lines into a document, stopping at the first error.
    pub fn parse(&self) -> (r: Result<Document, ParseError>)
        ensures
            match r {
                Ok(d) => parse_from(self.lines_view(), 0, empty_doc()) == Ok::<_, Failure>(d@),
                Err(e) => parse_from(self.lines_view(), 0, empty_doc()) == Err::<DocModel, _>(e@),
            },
    {
        let n = self.lines.len();
        let ghost cs = views(self.lines@);
        let mut doc = Document { schemas: Vec::new(), instances: Vec::new() };
        assert(schema_views(doc.schemas@) =~= Seq::<SchemaModel>::empty());
        assert(instance_views(doc.instances@) =~= Seq::<InstanceModel>::empty());
        let mut i: usize = 0;
        while i < n
            invariant
                i <= n,
                n == self.lines.len(),
                cs == views(self.lines@),
                cs == self.lines_view(),
                parse_from(cs, 0, empty_doc()) == parse_from(cs, i as int, doc@),
            decreases n - i,
        {
            assert(cs[i as int] == self.lines@[i as int]@);
            if !line_is_directive(&self.lines[i]) {
                i = i + 1;
            } else {
                let d = match read_directive(&self.lines[i]) {
                    Ok(d) => d,
                    Err(k) => {
                        return Err(ParseError { kind: k, line: i });
                    },
                };
                if i + 1 >= n {
                    return Err(ParseError { kind: ErrorKind::MissingAtSign, line: i });
                }
                assert(cs[i + 1] == self.lines@[i + 1]@);
                let (prefix, name) = match read_header(&self.lines[i + 1]) {
                    Ok(h) => h,
                    Err(k) => {
                        return Err(ParseError { kind: k, line: i + 1 });
                    },
                };
                let (fields, next) = match read_field_list(&self.lines, i + 2) {
                    Ok(x) => x,
                    Err(e) => {
                        return Err(e);
                    },
                };
                proof {
                    lemma_read_fields_bounds(cs, i + 2, seq![]);
                }
                doc = match d {
                    Directive::Type(_) => match add_schema(doc, &name, &fields, i + 1) {
                        Ok(d2) => d2,
                        Err(e) => {
                            return Err(e);
                        },
                    },
                    Directive::Chunk => match add_instance(
                        doc,
                        &prefix,
                        &name,
                        &fields,
                        i + 1,
                        if i + 2 < n {
                            i + 2
                        } else {
                            i + 1
                        },
                    ) {
                        Ok(d2) => d2,
                        Err(e) => {
                            return Err(e);
                        },
                    },
                };
                i = next;
            }
        }
        Ok(doc)
    }
}

/// Parses a text in the chunk format into a `Document`: the schemas that its
/// `type` blocks declare and the instances that its `chunk` blocks declare,
/// or the first error, with the index of its line.
pub fn parse_str(input_str: &str) -> (r: Result<Document, ParseError>)
    ensures
        match r {
            Ok(d) => parse_text(input_str@) == Ok::<_, Failure>(d@),
            Err(e) => parse_text(input_str@) == Err::<DocModel, _>(e@),
        },
        r matches Ok(d) ==> wf_doc(d@),
{
    proof {
        law_parsed_doc_wf(input_str@);
    }
    Parser::new(input_str).parse()
}

/// The index of the first instance of `instances` registered under `key`, or
/// the number of instances.
pub open spec fn instance_pos(cs: Seq<InstanceModel>, key: Seq<char>, i: int) -> int
    decreases cs.len() - i,
{
    if i >= cs.len() {
        cs.len() as int
    } else if cs[i].key() == key {
        i
    } else {
        instance_pos(cs, key, i + 1)
    }
}

impl Document {
    /// The schema named `name`, if the document declares one.
    pub fn schema(&self, name: &str) -> (r: Option<&TypeSchema>)
        ensures
            match r {
                Some(s) => {
                    let p = schema_pos(self@.schemas, name@, 0);
                    0 <= p < self.schemas.len() && *s == self.schemas@[p]
                },
                None => schema_pos(self@.schemas, name@, 0) >= self.schemas.len(),
            },
    {
        let key = String::from_str(name);
        let p = find_schema(self, &key);
        if p < self.schemas.len() {
            Some(&self.schemas[p])
        } else {
            None
        }
    }

    /// The instance registered under `key`, if there is one.
    pub fn instance(&self, key: &str) -> (r: Option<&ChunkInstance>)
        ensures
            match r {
                Some(c) => {
                    let p = instance_pos(self@.instances, key@, 0);
                    0 <= p < self.instances.len() && *c == self.instances@[p]
                },
                None => instance_pos(self@.instances, key@, 0) >= self.instances.len(),
            },
    {
        let owned = String::from_str(key);
        let mut k: usize = 0;
        while k < self.instances.len()
            invariant
                k <= self.instances.len(),
                owned@ == key@,
                instance_pos(self@.instances, key@, 0) == instance_pos(self@.instances, key@, k as int),
            decreases self.instances.len() - k,
        {
            assert(self@.instances[k as int] == self.instances@[k as int]@);
            if *self.instances[k].key() == owned {
                return Some(&self.instances[k]);
            }
            k = k + 1;
        }
        None
    }
}

} // verus!
