//! Field descriptors: the declared shape of a bindable record.
//!
//! A record's shape is a table of descriptors, one per field: the fragment of
//! the environment-variable name derived from the field's identifier, whether
//! the field is ignored, and the field's kind.  The set of kinds is closed:
//! scalar, optional (of a scalar or of a nested record), nested record,
//! sequence of scalars, and sequence of nested records.  The binder consumes
//! this table; producing it from a record declaration is the front end's job
//! and out of scope here.

use vstd::prelude::*;

verus! {

broadcast use vstd::seq::group_seq_axioms, vstd::std_specs::vec::group_vec_axioms;

/// The value types a scalar field can hold.
#[derive(Clone, Copy, Debug, PartialEq, Eq, Structural)]
pub enum ScalarKind {
    /// An unsigned 8-bit integer.
    U8,
    /// An unsigned 16-bit integer.
    U16,
    /// An unsigned 32-bit integer.
    U32,
    /// An unsigned 64-bit integer.
    U64,
    /// An unsigned 128-bit integer.
    U128,
    /// A signed 8-bit integer.
    I8,
    /// A signed 16-bit integer.
    I16,
    /// A signed 32-bit integer.
    I32,
    /// A signed 64-bit integer.
    I64,
    /// A signed 128-bit integer.
    I128,
    /// A boolean, written `true` or `false`.
    Bool,
    /// Unicode text, taken verbatim.
    Text,
    /// Filesystem path text, taken verbatim.
    PathText,
    /// A text-encoding label, decoded to the encoding's canonical name.
    Encoding,
}

/// Mathematical image of a field's kind.
pub enum FieldKindV {
    /// A scalar bound from one variable.
    Scalar(ScalarKind),
    /// An optional scalar: present after binding only if its variable is.
    OptionalScalar(ScalarKind),
    /// An optional nested record: present after binding only if some nested
    /// variable is.
    OptionalNested(Seq<FieldSchemaV>),
    /// A nested record, bound under both separator conventions.
    Nested(Seq<FieldSchemaV>),
    /// A growable sequence of scalars with probed length.
    Sequence(ScalarKind),
    /// A growable sequence of nested records with probed length.
    NestedSequence(Seq<FieldSchemaV>),
}

/// Mathematical image of one field descriptor.
pub struct FieldSchemaV {
    /// The variable-name fragment this field contributes.
    pub fragment: Seq<char>,
    /// Whether traversal skips the field entirely.
    pub ignored: bool,
    /// The field's kind.
    pub kind: FieldKindV,
}

/// A field's kind, carrying the shape of any nested record.
#[derive(Debug)]
pub enum FieldKind {
    /// A scalar bound from one variable.
    Scalar(ScalarKind),
    /// An optional scalar.
    OptionalScalar(ScalarKind),
    /// An optional nested record with the given shape.
    OptionalNested(Vec<FieldSchema>),
    /// A nested record with the given shape.
    Nested(Vec<FieldSchema>),
    /// A sequence of scalars.
    Sequence(ScalarKind),
    /// A sequence of nested records with the given shape.
    NestedSequence(Vec<FieldSchema>),
}

/// One field descriptor: name fragment, ignore mark, and kind.
#[derive(Debug)]
pub struct FieldSchema {
    /// The variable-name fragment this field contributes, treated as an
    /// opaque string.
    pub fragment: String,
    /// Whether traversal skips the field entirely.
    pub ignored: bool,
    /// The field's kind.
    pub kind: FieldKind,
}

/// The declared shape of a record: its statically configured default
/// variable-name prefix and its field descriptors.
#[derive(Debug)]
pub struct Schema {
    /// The prefix [`bind`](crate::bind::bind) uses when none is supplied.
    pub prefix: String,
    /// The record's field descriptors, in traversal order.
    pub fields: Vec<FieldSchema>,
}

/// The image of a field kind.
pub open spec fn kind_view(k: FieldKind) -> FieldKindV
    decreases k,
{
    match k {
        FieldKind::Scalar(sk) => FieldKindV::Scalar(sk),
        FieldKind::OptionalScalar(sk) => FieldKindV::OptionalScalar(sk),
        FieldKind::OptionalNested(fs) => FieldKindV::OptionalNested(fields_view(fs@)),
        FieldKind::Nested(fs) => FieldKindV::Nested(fields_view(fs@)),
        FieldKind::Sequence(sk) => FieldKindV::Sequence(sk),
        FieldKind::NestedSequence(fs) => FieldKindV::NestedSequence(fields_view(fs@)),
    }
}

/// The image of one field descriptor.
pub open spec fn field_view(f: FieldSchema) -> FieldSchemaV
    decreases f,
{
    FieldSchemaV { fragment: f.fragment@, ignored: f.ignored, kind: kind_view(f.kind) }
}

/// The image of a descriptor table.
pub open spec fn fields_view(fs: Seq<FieldSchema>) -> Seq<FieldSchemaV>
    decreases fs,
{
    if fs.len() == 0 {
        Seq::empty()
    } else {
        fields_view(fs.drop_last()).push(field_view(fs.last()))
    }
}

/// A descriptor table's image has one descriptor image per descriptor.
pub broadcast proof fn lemma_fields_view_len(fs: Seq<FieldSchema>)
    ensures
        #[trigger] fields_view(fs).len() == fs.len(),
    decreases fs,
{
    if fs.len() > 0 {
        lemma_fields_view_len(fs.drop_last());
    }
}

/// A descriptor table's image is the pointwise image of its descriptors.
pub broadcast proof fn lemma_fields_view_index(fs: Seq<FieldSchema>, i: int)
    requires
        0 <= i < fs.len(),
    ensures
        #[trigger] fields_view(fs)[i] == field_view(fs[i]),
    decreases fs,
{
    lemma_fields_view_len(fs.drop_last());
    if i < fs.len() - 1 {
        lemma_fields_view_index(fs.drop_last(), i);
    }
}

} // verus!
