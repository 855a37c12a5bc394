//! Properties of parsing as a whole, proved over the specification functions
//! that the parser's contracts use.
use vstd::prelude::*;
use crate::directive::{directive_of, header_of, is_directive, Directive, TypeCategory};
use crate::fields::{array_elements, array_end, content, element_text, field_name, field_rhs, has_field, in_block, lemma_array_end_bounds, read_fields, RawFieldModel};
use crate::literal::{elements_of, rhs_value_of, scalar_of, RhsModel};
use crate::model::{ErrorKind, DocModel, ValueModel, Failure, FieldDefModel, InstanceModel, SchemaModel};
use crate::parser::{
    add_instance_spec, add_schema_spec, cleaned, list_line, empty_doc, has_instance, has_schema,
    instance_fields_of, lemma_read_fields_bounds, names_match, parse_from, parse_text, schema_fields_of,
    schema_pos,
};
use crate::text::{find, is_blank, lines_of, trim, trim_start};

verus! {

broadcast use vstd::seq::group_seq_axioms;

/// Whether the field lines `fs` carry pairwise distinct names.
pub open spec fn raw_names_distinct(fs: Seq<RawFieldModel>) -> bool {
    forall|a: int, b: int| 0 <= a < b < fs.len() ==> (#[trigger] fs[a]).name != (#[trigger] fs[b]).name
}

/// Whether the field definitions `ds` carry pairwise distinct names.
pub open spec fn def_names_distinct(ds: Seq<FieldDefModel>) -> bool {
    forall|a: int, b: int| 0 <= a < b < ds.len() ==> (#[trigger] ds[a]).name != (#[trigger] ds[b]).name
}

/// Whether the instance `c` has a schema among `ss` and carries exactly that
/// schema's field names, in order.
pub open spec fn conforms(ss: Seq<SchemaModel>, c: InstanceModel) -> bool {
    let p = schema_pos(ss, c.schema_name, 0);
    0 <= p < ss.len() && names_match(c.fields, ss[p].fields)
}

/// The invariant of a document: schema names unique, field names unique
/// within each schema, instance keys unique, and each instance conforming to
/// a schema of the document.
pub open spec fn wf_doc(d: DocModel) -> bool {
    &&& forall|a: int, b: int|
        0 <= a < b < d.schemas.len() ==> (#[trigger] d.schemas[a]).name != (#[trigger] d.schemas[b]).name
    &&& forall|s: int| 0 <= s < d.schemas.len() ==> def_names_distinct(#[trigger] d.schemas[s].fields)
    &&& forall|a: int, b: int|
        0 <= a < b < d.instances.len() ==> (#[trigger] d.instances[a]).key() != (#[trigger] d.instances[b]).key()
    &&& forall|k: int| 0 <= k < d.instances.len() ==> conforms(d.schemas, #[trigger] d.instances[k])
}

proof fn lemma_no_directive_from(cs: Seq<Seq<char>>, i: int, doc: DocModel)
    requires
        0 <= i,
        forall|k: int| 0 <= k < cs.len() ==> !is_directive(#[trigger] cs[k]),
    ensures
        parse_from(cs, i, doc) == Ok::<_, Failure>(doc),
    decreases cs.len() - i,
{
    if i < cs.len() {
        lemma_no_directive_from(cs, i + 1, doc);
    }
}

/// A text none of whose lines is a directive, once comments are removed,
/// parses to the empty document.
pub proof fn law_no_directives_empty(t: Seq<char>)
    requires
        forall|k: int|
            0 <= k < cleaned(lines_of(t)).len() ==> !is_directive(#[trigger] cleaned(lines_of(t))[k]),
    ensures
        parse_text(t) == Ok::<_, Failure>(empty_doc()),
{
    lemma_no_directive_from(cleaned(lines_of(t)), 0, empty_doc());
}

/// The field lines of one field list carry pairwise distinct names: a
/// repeated name is rejected.
pub proof fn law_field_names_distinct(cs: Seq<Seq<char>>, j: int, acc: Seq<RawFieldModel>)
    requires
        0 <= j <= cs.len(),
        raw_names_distinct(acc),
    ensures
        read_fields(cs, j, acc) matches Ok((fs, _)) ==> raw_names_distinct(fs),
    decreases cs.len() - j,
{
    if j < cs.len() {
        lemma_array_end_bounds(cs, j + 1);
        let c = content(cs[j]);
        let name = crate::fields::field_name(c);
        let rhs = crate::fields::field_rhs(c);
        if !has_field(acc, name) {
            let single = acc.push(RawFieldModel { name, rhs: RhsModel::Single(rhs), line: j });
            assert(raw_names_distinct(single)) by {
                assert forall|a: int, b: int| 0 <= a < b < single.len() implies (#[trigger] single[a]).name
                    != (#[trigger] single[b]).name by {
                    if b == acc.len() {
                        assert(single[a] == acc[a]);
                    }
                }
            }
            law_field_names_distinct(cs, j + 1, single);
            if let Some(e) = array_end(cs, j + 1) {
                let multi = acc.push(
                    RawFieldModel {
                        name,
                        rhs: RhsModel::Lines(array_elements(cs, j + 1, e)),
                        line: j,
                    },
                );
                assert(raw_names_distinct(multi)) by {
                    assert forall|a: int, b: int| 0 <= a < b < multi.len() implies (#[trigger] multi[a]).name
                        != (#[trigger] multi[b]).name by {
                        if b == acc.len() {
                            assert(multi[a] == acc[a]);
                        }
                    }
                }
                law_field_names_distinct(cs, e + 1, multi);
            }
        }
    }
}

/// A schema's field definitions follow its field lines one for one, in the
/// order of declaration.
pub proof fn law_schema_fields_in_order(fs: Seq<RawFieldModel>)
    ensures
        schema_fields_of(fs) matches Ok(ds) ==> ds.len() == fs.len() && forall|i: int|
            0 <= i < fs.len() ==> (#[trigger] ds[i]).name == fs[i].name,
    decreases fs.len(),
{
    if fs.len() > 0 {
        law_schema_fields_in_order(fs.drop_last());
    }
}

/// An instance's fields follow its field lines one for one, in order.
pub proof fn law_instance_fields_in_order(fs: Seq<RawFieldModel>)
    ensures
        instance_fields_of(fs) matches Ok(vs) ==> vs.len() == fs.len() && forall|i: int|
            0 <= i < fs.len() ==> (#[trigger] vs[i]).0 == fs[i].name,
    decreases fs.len(),
{
    if fs.len() > 0 {
        law_instance_fields_in_order(fs.drop_last());
    }
}

proof fn lemma_schema_pos_push(ss: Seq<SchemaModel>, x: SchemaModel, name: Seq<char>, i: int)
    requires
        0 <= i,
        schema_pos(ss, name, i) < ss.len(),
    ensures
        schema_pos(ss.push(x), name, i) == schema_pos(ss, name, i),
    decreases ss.len() - i,
{
    if i < ss.len() && ss[i].name != name {
        lemma_schema_pos_push(ss, x, name, i + 1);
    }
}

proof fn lemma_schema_pos_found(ss: Seq<SchemaModel>, name: Seq<char>, i: int)
    requires
        0 <= i <= ss.len(),
    ensures
        i <= schema_pos(ss, name, i) <= ss.len(),
        schema_pos(ss, name, i) < ss.len() ==> ss[schema_pos(ss, name, i)].name == name,
    decreases ss.len() - i,
{
    if i < ss.len() && ss[i].name != name {
        lemma_schema_pos_found(ss, name, i + 1);
    }
}

proof fn lemma_add_schema_wf(doc: DocModel, name: Seq<char>, fs: Seq<RawFieldModel>, h: int)
    requires
        wf_doc(doc),
        raw_names_distinct(fs),
    ensures
        add_schema_spec(doc, name, fs, h) matches Ok(d2) ==> wf_doc(d2),
{
    law_schema_fields_in_order(fs);
    if let Ok(d2) = add_schema_spec(doc, name, fs, h) {
        let ds = schema_fields_of(fs)->Ok_0;
        let x = SchemaModel { name, fields: ds };
        assert(d2.schemas == doc.schemas.push(x));
        assert forall|a: int, b: int| 0 <= a < b < d2.schemas.len() implies (#[trigger] d2.schemas[a]).name
            != (#[trigger] d2.schemas[b]).name by {
            if b == doc.schemas.len() {
                assert(d2.schemas[a] == doc.schemas[a]);
                assert(!has_schema(doc.schemas, name));
            }
        }
        assert forall|s: int| 0 <= s < d2.schemas.len() implies def_names_distinct(
            #[trigger] d2.schemas[s].fields,
        ) by {
            if s == doc.schemas.len() {
                assert forall|a: int, b: int| 0 <= a < b < ds.len() implies (#[trigger] ds[a]).name
                    != (#[trigger] ds[b]).name by {
                    assert(ds[a].name == fs[a].name);
                    assert(ds[b].name == fs[b].name);
                }
            } else {
                assert(d2.schemas[s] == doc.schemas[s]);
            }
        }
        assert forall|k: int| 0 <= k < d2.instances.len() implies conforms(
            d2.schemas,
            #[trigger] d2.instances[k],
        ) by {
            let c = d2.instances[k];
            assert(conforms(doc.schemas, c));
            lemma_schema_pos_push(doc.schemas, x, c.schema_name, 0);
        }
    }
}

proof fn lemma_add_instance_wf(
    doc: DocModel,
    prefix: Option<Seq<char>>,
    name: Seq<char>,
    fs: Seq<RawFieldModel>,
    h: int,
    m: int,
)
    requires
        wf_doc(doc),
    ensures
        add_instance_spec(doc, prefix, name, fs, h, m) matches Ok(d2) ==> wf_doc(d2),
{
    if let Ok(d2) = add_instance_spec(doc, prefix, name, fs, h, m) {
        let n = doc.instances.len();
        let c = d2.instances[n as int];
        assert(d2.instances == doc.instances.push(c));
        assert(d2.schemas == doc.schemas);
        assert forall|a: int, b: int| 0 <= a < b < d2.instances.len() implies (#[trigger] d2.instances[a]).key()
            != (#[trigger] d2.instances[b]).key() by {
            if b == n {
                assert(d2.instances[a] == doc.instances[a]);
                assert(!has_instance(doc.instances, c.key()));
            }
        }
        assert forall|k: int| 0 <= k < d2.instances.len() implies conforms(
            d2.schemas,
            #[trigger] d2.instances[k],
        ) by {
            if k < n {
                assert(d2.instances[k] == doc.instances[k]);
            } else {
                let vs = instance_fields_of(fs)->Ok_0;
                assert(c.schema_name == name);
                assert(c.fields == vs);
                lemma_schema_pos_found(doc.schemas, name, 0);
                assert(schema_pos(doc.schemas, name, 0) < doc.schemas.len());
                assert(names_match(vs, doc.schemas[schema_pos(doc.schemas, name, 0)].fields));
            }
        }
    }
}

proof fn lemma_parse_from_wf(cs: Seq<Seq<char>>, i: int, doc: DocModel)
    requires
        0 <= i,
        wf_doc(doc),
    ensures
        parse_from(cs, i, doc) matches Ok(d) ==> wf_doc(d),
    decreases cs.len() - i,
{
    if i < cs.len() {
        if !is_directive(cs[i]) {
            lemma_parse_from_wf(cs, i + 1, doc);
        } else if let Ok(d) = directive_of(cs[i]) {
            if i + 1 < cs.len() {
                if let Ok((prefix, name)) = header_of(cs[i + 1]) {
                    lemma_read_fields_bounds(cs, i + 2, seq![]);
                    law_field_names_distinct(cs, i + 2, seq![]);
                    if let Ok((fs, next)) = read_fields(cs, i + 2, seq![]) {
                        let added = match d {
                            Directive::Type(_) => add_schema_spec(doc, name, fs, i + 1),
                            Directive::Chunk => add_instance_spec(
                                doc,
                                prefix,
                                name,
                                fs,
                                i + 1,
                                list_line(cs, i + 1),
                            ),
                        };
                        lemma_add_schema_wf(doc, name, fs, i + 1);
                        lemma_add_instance_wf(doc, prefix, name, fs, i + 1, list_line(cs, i + 1));
                        if let Ok(d2) = added {
                            lemma_parse_from_wf(cs, next, d2);
                        }
                    }
                }
            }
        }
    }
}

/// Every document that parsing yields keeps its invariant: unique schema
/// names, unique field names within a schema, unique instance keys, and each
/// instance carrying exactly its schema's field names, in order.
pub proof fn law_parsed_doc_wf(t: Seq<char>)
    ensures
        parse_text(t) matches Ok(d) ==> wf_doc(d),
{
    lemma_parse_from_wf(cleaned(lines_of(t)), 0, empty_doc());
}

/// An instance block whose field names are not exactly those of its schema,
/// in order, is rejected with a field mismatch at the line `m` of its field
/// list.
pub proof fn law_mismatch_rejected(
    doc: DocModel,
    prefix: Option<Seq<char>>,
    name: Seq<char>,
    fs: Seq<RawFieldModel>,
    h: int,
    m: int,
)
    requires
        instance_fields_of(fs) is Ok,
        has_schema(doc.schemas, name),
        !names_match(instance_fields_of(fs)->Ok_0, doc.schemas[schema_pos(doc.schemas, name, 0)].fields),
    ensures
        add_instance_spec(doc, prefix, name, fs, h, m) == Err::<DocModel, _>(
            crate::model::fail(ErrorKind::FieldMismatch, m),
        ),
{
    let w = choose|w: int| 0 <= w < doc.schemas.len() && (#[trigger] doc.schemas[w]).name == name;
    lemma_schema_pos_le(doc.schemas, name, 0, w);
}

proof fn lemma_schema_pos_le(ss: Seq<SchemaModel>, name: Seq<char>, i: int, w: int)
    requires
        0 <= i <= w < ss.len(),
        ss[w].name == name,
    ensures
        schema_pos(ss, name, i) <= w,
    decreases w - i,
{
    if ss[i].name != name {
        lemma_schema_pos_le(ss, name, i + 1, w);
    }
}

/// A multi-line array literal keeps its elements, one per element line and
/// in order; it fails exactly when one of its element lines does.
pub proof fn law_array_elements_kept(es: Seq<Seq<char>>)
    ensures
        elements_of(es) is Ok <==> forall|i: int| 0 <= i < es.len() ==> (#[trigger] scalar_of(es[i])) is Ok,
        elements_of(es) matches Ok(vs) ==> vs.len() == es.len() && forall|i: int|
            0 <= i < es.len() ==> scalar_of(es[i]) == Ok::<_, ErrorKind>(#[trigger] vs[i]),
        rhs_value_of(RhsModel::Lines(es)) is Ok <==> elements_of(es) is Ok,
    decreases es.len(),
{
    if es.len() > 0 {
        let init = es.drop_last();
        law_array_elements_kept(init);
        if elements_of(es) is Ok {
            assert forall|i: int| 0 <= i < es.len() implies (#[trigger] scalar_of(es[i])) is Ok by {
                if i < init.len() {
                    assert(init[i] == es[i]);
                    assert(scalar_of(init[i]) is Ok);
                }
            }
        }
        if forall|i: int| 0 <= i < es.len() ==> (#[trigger] scalar_of(es[i])) is Ok {
            assert forall|i: int| 0 <= i < init.len() implies (#[trigger] scalar_of(init[i])) is Ok by {
                assert(init[i] == es[i]);
                assert(scalar_of(es[i]) is Ok);
            }
            assert(scalar_of(es[es.len() - 1]) is Ok);
        }
    }
}

/// Parsing is a function of the text: two parses of one text agree.
pub proof fn law_parse_deterministic(
    t: Seq<char>,
    a: Result<DocModel, Failure>,
    b: Result<DocModel, Failure>,
)
    requires
        a == parse_text(t),
        b == parse_text(t),
    ensures
        a == b,
{
}

proof fn lemma_trim_unchanged(s: Seq<char>)
    requires
        s.len() > 0,
        !is_blank(s[0]),
        !is_blank(s.last()),
    ensures
        trim(s) == s,
{
    assert(trim_start(s) == s);
}

proof fn lemma_find_none(s: Seq<char>, c: char, i: int)
    requires
        0 <= i <= s.len(),
        forall|k: int| 0 <= k < s.len() ==> s[k] != c,
    ensures
        find(s, c, i) == s.len(),
    decreases s.len() - i,
{
    if i < s.len() {
        lemma_find_none(s, c, i + 1);
    }
}

/// The directive line `#_k`, where the keyword `k` holds no `(` and no blank
/// at either end: `chunk` is the chunk directive, `type` without its
/// `(category)` is malformed, and any other keyword is unknown.
pub proof fn law_directive_keyword(k: Seq<char>)
    requires
        k.len() > 0,
        !is_blank(k[0]),
        !is_blank(k.last()),
        forall|i: int| 0 <= i < k.len() ==> k[i] != '(',
    ensures
        directive_of(seq!['#', '_'] + k) == if k == seq!['c', 'h', 'u', 'n', 'k'] {
            Ok::<_, ErrorKind>(Directive::Chunk)
        } else if k == seq!['t', 'y', 'p', 'e'] {
            Err(ErrorKind::MalformedDirective)
        } else {
            Err(ErrorKind::UnknownDirective)
        },
{
    let l = seq!['#', '_'] + k;
    assert(l.subrange(2, l.len() as int) =~= k);
    lemma_trim_unchanged(k);
    lemma_find_none(k, '(', 0);
    assert(k.subrange(0, k.len() as int) =~= k);
}

/// The directive line `#_type(c)`: the type directive where the category `c`
/// is `chunk`, an unknown category otherwise.
pub proof fn law_directive_type(c: Seq<char>)
    ensures
        directive_of(seq!['#', '_', 't', 'y', 'p', 'e', '('] + c + seq![')']) == if c == seq![
            'c',
            'h',
            'u',
            'n',
            'k',
        ] {
            Ok::<_, ErrorKind>(Directive::Type(TypeCategory::Chunk))
        } else {
            Err(ErrorKind::UnknownCategory)
        },
{
    let l = seq!['#', '_', 't', 'y', 'p', 'e', '('] + c + seq![')'];
    let body = seq!['t', 'y', 'p', 'e', '('] + c + seq![')'];
    assert(l.subrange(2, l.len() as int) =~= body);
    lemma_trim_unchanged(body);
    assert(find(body, '(', 4) == 4);
    assert(find(body, '(', 3) == 4);
    assert(find(body, '(', 2) == 4);
    assert(find(body, '(', 1) == 4);
    assert(find(body, '(', 0) == 4);
    assert(body.subrange(0, 4) =~= seq!['t', 'y', 'p', 'e']);
    assert(body.subrange(5, body.len() - 1) =~= c);
}

/// A `type` block whose field lines all carry type expressions, and whose
/// name is new, registers one schema: its fields follow the field lines in
/// order, with pairwise distinct names, and parsing goes on after the block.
/// An instance name before `@` in a `type` header plays no part.
pub proof fn law_type_block_registers(cs: Seq<Seq<char>>, i: int, doc: DocModel)
    requires
        0 <= i,
        i + 1 < cs.len(),
        is_directive(cs[i]),
        directive_of(cs[i]) == Ok::<_, ErrorKind>(Directive::Type(TypeCategory::Chunk)),
        header_of(cs[i + 1]) is Ok,
        read_fields(cs, i + 2, seq![]) is Ok,
        schema_fields_of(read_fields(cs, i + 2, seq![])->Ok_0.0) is Ok,
        !has_schema(doc.schemas, header_of(cs[i + 1])->Ok_0.1),
    ensures
        ({
            let name = header_of(cs[i + 1])->Ok_0.1;
            let (fs, next) = read_fields(cs, i + 2, seq![])->Ok_0;
            let ds = schema_fields_of(fs)->Ok_0;
            &&& parse_from(cs, i, doc) == parse_from(
                cs,
                next,
                DocModel {
                    schemas: doc.schemas.push(SchemaModel { name, fields: ds }),
                    instances: doc.instances,
                },
            )
            &&& ds.len() == fs.len()
            &&& forall|k: int| 0 <= k < ds.len() ==> (#[trigger] ds[k]).name == fs[k].name
            &&& def_names_distinct(ds)
        }),
{
    let fs = read_fields(cs, i + 2, seq![])->Ok_0.0;
    let ds = schema_fields_of(fs)->Ok_0;
    law_schema_fields_in_order(fs);
    law_field_names_distinct(cs, i + 2, seq![]);
    assert forall|a: int, b: int| 0 <= a < b < ds.len() implies (#[trigger] ds[a]).name
        != (#[trigger] ds[b]).name by {
        assert(ds[a].name == fs[a].name);
        assert(ds[b].name == fs[b].name);
    }
}

/// At a `chunk` block of a known schema whose field names are not exactly the
/// schema's, in order, parsing stops with a field mismatch at the line of the
/// field list.
pub proof fn law_parse_mismatch(cs: Seq<Seq<char>>, i: int, doc: DocModel)
    requires
        0 <= i,
        i + 1 < cs.len(),
        is_directive(cs[i]),
        directive_of(cs[i]) == Ok::<_, ErrorKind>(Directive::Chunk),
        header_of(cs[i + 1]) is Ok,
        read_fields(cs, i + 2, seq![]) is Ok,
        instance_fields_of(read_fields(cs, i + 2, seq![])->Ok_0.0) is Ok,
        has_schema(doc.schemas, header_of(cs[i + 1])->Ok_0.1),
        !names_match(
            instance_fields_of(read_fields(cs, i + 2, seq![])->Ok_0.0)->Ok_0,
            doc.schemas[schema_pos(doc.schemas, header_of(cs[i + 1])->Ok_0.1, 0)].fields,
        ),
    ensures
        parse_from(cs, i, doc) == Err::<DocModel, _>(
            crate::model::fail(ErrorKind::FieldMismatch, list_line(cs, i + 1)),
        ),
{
    let (prefix, name) = header_of(cs[i + 1])->Ok_0;
    let fs = read_fields(cs, i + 2, seq![])->Ok_0.0;
    law_mismatch_rejected(doc, prefix, name, fs, i + 1, list_line(cs, i + 1));
}

/// A field line whose right-hand side is `[` reads the lines up to the
/// closing `]` as its elements, one per line and in order; the value of such
/// a field is the array of those elements' values, in the same order and
/// count.
pub proof fn law_multiline_array_field(cs: Seq<Seq<char>>, j: int, acc: Seq<RawFieldModel>)
    requires
        0 <= j < cs.len(),
        in_block(cs[j]),
        field_name(content(cs[j])).len() > 0,
        !has_field(acc, field_name(content(cs[j]))),
        field_rhs(content(cs[j])) == seq!['['],
        array_end(cs, j + 1) is Some,
    ensures
        ({
            let e = array_end(cs, j + 1)->Some_0;
            let es = array_elements(cs, j + 1, e);
            &&& read_fields(cs, j, acc) == read_fields(
                cs,
                e + 1,
                acc.push(
                    RawFieldModel {
                        name: field_name(content(cs[j])),
                        rhs: RhsModel::Lines(es),
                        line: j,
                    },
                ),
            )
            &&& es.len() == e - j - 1
            &&& forall|k: int| 0 <= k < es.len() ==> #[trigger] es[k] == element_text(cs[j + 1 + k])
            &&& (rhs_value_of(RhsModel::Lines(es)) matches Ok(v) ==> v == ValueModel::Array(
                elements_of(es)->Ok_0,
            ))
            &&& (elements_of(es) matches Ok(vs) ==> vs.len() == es.len() && forall|k: int|
                0 <= k < es.len() ==> scalar_of(es[k]) == Ok::<_, ErrorKind>(#[trigger] vs[k]))
        }),
{
    lemma_array_end_bounds(cs, j + 1);
    let e = array_end(cs, j + 1)->Some_0;
    law_array_elements_kept(array_elements(cs, j + 1, e));
}

} // verus!
