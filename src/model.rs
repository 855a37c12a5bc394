//! The in-memory model that parsing builds, and its mathematical views.
use vstd::prelude::*;

verus! {

broadcast use vstd::std_specs::vec::group_vec_axioms, vstd::seq::group_seq_axioms;

/// How a numeric literal is classified: `Integer` without a `.`, `Decimal` with one.
#[derive(Clone, Copy, Debug, PartialEq, Eq, Structural)]
pub enum NumberKind {
    Integer,
    Decimal,
}

/// A numeric literal, kept as its text and its classification.
#[derive(Debug)]
pub struct Number {
    pub text: String,
    pub kind: NumberKind,
}

/// A runtime value of a chunk instance's field.
#[derive(Debug)]
pub enum Value {
    Null,
    Bool(bool),
    Number(Number),
    String(String),
    Array(Vec<Value>),
    Chunk(Vec<(String, Value)>),
}

/// The mathematical form of a `Value`.
pub enum ValueModel {
    Null,
    Bool(bool),
    Number(Seq<char>, NumberKind),
    String(Seq<char>),
    Array(Seq<ValueModel>),
    Chunk(Seq<(Seq<char>, ValueModel)>),
}

impl Value {
    pub open spec fn view(&self) -> ValueModel
        decreases self,
    {
        match self {
            Value::Null => ValueModel::Null,
            Value::Bool(b) => ValueModel::Bool(*b),
            Value::Number(n) => ValueModel::Number(n.text@, n.kind),
            Value::String(s) => ValueModel::String(s@),
            Value::Array(items) => ValueModel::Array(
                Seq::new(
                    items.len() as nat,
                    |i: int|
                        if 0 <= i < items.len() {
                            items[i].view()
                        } else {
                            ValueModel::Null
                        },
                ),
            ),
            Value::Chunk(fields) => ValueModel::Chunk(
                Seq::new(
                    fields.len() as nat,
                    |i: int|
                        if 0 <= i < fields.len() {
                            (fields[i].0@, fields[i].1.view())
                        } else {
                            (Seq::empty(), ValueModel::Null)
                        },
                ),
            ),
        }
    }
}

/// The views of a sequence of values.
pub open spec fn values_view(s: Seq<Value>) -> Seq<ValueModel> {
    s.map_values(|v: Value| v.view())
}

/// The views of named values.
pub open spec fn pair_views(s: Seq<(String, Value)>) -> Seq<(Seq<char>, ValueModel)> {
    s.map_values(|f: (String, Value)| (f.0@, f.1.view()))
}

pub open spec fn def_views(s: Seq<FieldDefinition>) -> Seq<FieldDefModel> {
    s.map_values(|f: FieldDefinition| f@)
}

pub open spec fn schema_views(s: Seq<TypeSchema>) -> Seq<SchemaModel> {
    s.map_values(|t: TypeSchema| t@)
}

pub open spec fn instance_views(s: Seq<ChunkInstance>) -> Seq<InstanceModel> {
    s.map_values(|c: ChunkInstance| c@)
}

/// The type of a schema field: a base name with an optional `[]` or `?` suffix.
#[derive(Debug)]
pub struct FieldTypeExpression {
    pub base_name: String,
    pub is_array: bool,
    pub is_optional: bool,
}

pub struct TypeExprModel {
    pub base_name: Seq<char>,
    pub is_array: bool,
    pub is_optional: bool,
}

impl View for FieldTypeExpression {
    type V = TypeExprModel;

    open spec fn view(&self) -> TypeExprModel {
        TypeExprModel {
            base_name: self.base_name@,
            is_array: self.is_array,
            is_optional: self.is_optional,
        }
    }
}

/// One field of a schema.
#[derive(Debug)]
pub struct FieldDefinition {
    pub name: String,
    pub ty: FieldTypeExpression,
}

pub struct FieldDefModel {
    pub name: Seq<char>,
    pub ty: TypeExprModel,
}

impl View for FieldDefinition {
    type V = FieldDefModel;

    open spec fn view(&self) -> FieldDefModel {
        FieldDefModel { name: self.name@, ty: self.ty@ }
    }
}

/// A named record type with its fields in declaration order.
#[derive(Debug)]
pub struct TypeSchema {
    pub name: String,
    pub fields: Vec<FieldDefinition>,
}

pub struct SchemaModel {
    pub name: Seq<char>,
    pub fields: Seq<FieldDefModel>,
}

impl View for TypeSchema {
    type V = SchemaModel;

    open spec fn view(&self) -> SchemaModel {
        SchemaModel { name: self.name@, fields: def_views(self.fields@) }
    }
}

/// A record of field values that conforms to a schema.
#[derive(Debug)]
pub struct ChunkInstance {
    pub declared_name: Option<String>,
    pub schema_name: String,
    pub fields: Vec<(String, Value)>,
}

pub struct InstanceModel {
    pub declared_name: Option<Seq<char>>,
    pub schema_name: Seq<char>,
    pub fields: Seq<(Seq<char>, ValueModel)>,
}

impl InstanceModel {
    /// The name under which the instance is registered.
    pub open spec fn key(self) -> Seq<char> {
        match self.declared_name {
            Some(n) => n,
            None => self.schema_name,
        }
    }
}

impl ChunkInstance {
    /// The name under which the instance is registered: its declared name,
    /// else its schema's name.
    pub fn key(&self) -> (r: &String)
        ensures
            r@ == self@.key(),
    {
        match &self.declared_name {
            Some(n) => n,
            None => &self.schema_name,
        }
    }
}

impl View for ChunkInstance {
    type V = InstanceModel;

    open spec fn view(&self) -> InstanceModel {
        InstanceModel {
            declared_name: match self.declared_name {
                Some(n) => Some(n@),
                None => None,
            },
            schema_name: self.schema_name@,
            fields: pair_views(self.fields@),
        }
    }
}

/// The schemas and instances of one parsed text, in the order of declaration.
#[derive(Debug)]
pub struct Document {
    pub schemas: Vec<TypeSchema>,
    pub instances: Vec<ChunkInstance>,
}

pub struct DocModel {
    pub schemas: Seq<SchemaModel>,
    pub instances: Seq<InstanceModel>,
}

impl View for Document {
    type V = DocModel;

    open spec fn view(&self) -> DocModel {
        DocModel {
            schemas: schema_views(self.schemas@),
            instances: instance_views(self.instances@),
        }
    }
}

/// What went wrong in a parse.
#[derive(Clone, Copy, Debug, PartialEq, Eq, Structural)]
pub enum ErrorKind {
    UnknownDirective,
    MalformedDirective,
    UnknownCategory,
    MissingAtSign,
    EmptyName,
    UnterminatedArray,
    BadTypeExpression,
    BadLiteral,
    DuplicateFieldName,
    DuplicateSchemaName,
    UnknownSchema,
    FieldMismatch,
    DuplicateInstanceName,
}

impl ErrorKind {
    /// The human-readable text of the error kind.
    pub open spec fn text(self) -> Seq<char> {
        match self {
            ErrorKind::UnknownDirective => "unknown directive keyword"@,
            ErrorKind::MalformedDirective => "malformed directive"@,
            ErrorKind::UnknownCategory => "unknown type category"@,
            ErrorKind::MissingAtSign => "expected an @Name: header"@,
            ErrorKind::EmptyName => "empty name"@,
            ErrorKind::UnterminatedArray => "array literal is not closed"@,
            ErrorKind::BadTypeExpression => "bad type expression"@,
            ErrorKind::BadLiteral => "bad value literal"@,
            ErrorKind::DuplicateFieldName => "duplicate field name"@,
            ErrorKind::DuplicateSchemaName => "duplicate schema name"@,
            ErrorKind::UnknownSchema => "unknown schema"@,
            ErrorKind::FieldMismatch => "fields do not match the schema"@,
            ErrorKind::DuplicateInstanceName => "duplicate instance name"@,
        }
    }

    /// A human-readable description of the error kind.
    pub fn message(&self) -> (r: String)
        ensures
            r@ == self.text(),
    {
        match self {
            ErrorKind::UnknownDirective => String::from_str("unknown directive keyword"),
            ErrorKind::MalformedDirective => String::from_str("malformed directive"),
            ErrorKind::UnknownCategory => String::from_str("unknown type category"),
            ErrorKind::MissingAtSign => String::from_str("expected an @Name: header"),
            ErrorKind::EmptyName => String::from_str("empty name"),
            ErrorKind::UnterminatedArray => String::from_str("array literal is not closed"),
            ErrorKind::BadTypeExpression => String::from_str("bad type expression"),
            ErrorKind::BadLiteral => String::from_str("bad value literal"),
            ErrorKind::DuplicateFieldName => String::from_str("duplicate field name"),
            ErrorKind::DuplicateSchemaName => String::from_str("duplicate schema name"),
            ErrorKind::UnknownSchema => String::from_str("unknown schema"),
            ErrorKind::FieldMismatch => String::from_str("fields do not match the schema"),
            ErrorKind::DuplicateInstanceName => String::from_str("duplicate instance name"),
        }
    }
}

/// A parse error: its kind and the 0-based index of the line it was found at.
#[derive(Clone, Copy, Debug, PartialEq, Eq, Structural)]
pub struct ParseError {
    pub kind: ErrorKind,
    pub line: usize,
}

pub struct Failure {
    pub kind: ErrorKind,
    pub line: int,
}

/// The failure of kind `kind` at line `line`.
pub open spec fn fail(kind: ErrorKind, line: int) -> Failure {
    Failure { kind, line }
}

impl ParseError {
    /// A human-readable description of the error.
    pub fn message(&self) -> (r: String)
        ensures
            r@ == self.kind.text(),
    {
        self.kind.message()
    }
}

impl View for ParseError {
    type V = Failure;

    open spec fn view(&self) -> Failure {
        Failure { kind: self.kind, line: self.line as int }
    }
}

} // verus!
