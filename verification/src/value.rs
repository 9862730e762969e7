//! Record data: the values a schema describes.
//!
//! A [`Record`] holds one [`Value`] per field descriptor, positionally.  A
//! record conforms to a schema when every value's shape matches its
//! descriptor's kind; binding requires conformance and preserves it.

use vstd::prelude::*;
use crate::schema::{FieldKindV, FieldSchema, FieldSchemaV, ScalarKind, FieldKind, field_view, fields_view, kind_view};

verus! {

broadcast use
    vstd::seq::group_seq_axioms,
    vstd::std_specs::vec::group_vec_axioms,
    crate::schema::lemma_fields_view_len,
    crate::schema::lemma_fields_view_index,
;

/// One scalar value.
#[derive(Debug)]
pub enum Scalar {
    /// An unsigned 8-bit integer.
    U8(u8),
    /// An unsigned 16-bit integer.
    U16(u16),
    /// An unsigned 32-bit integer.
    U32(u32),
    /// An unsigned 64-bit integer.
    U64(u64),
    /// An unsigned 128-bit integer.
    U128(u128),
    /// A signed 8-bit integer.
    I8(i8),
    /// A signed 16-bit integer.
    I16(i16),
    /// A signed 32-bit integer.
    I32(i32),
    /// A signed 64-bit integer.
    I64(i64),
    /// A signed 128-bit integer.
    I128(i128),
    /// A boolean.
    Bool(bool),
    /// Unicode text.
    Text(String),
    /// Filesystem path text.
    PathText(String),
    /// A text encoding, held as its canonical name.
    Encoding(String),
}

/// Mathematical image of a scalar value.
pub enum ScalarV {
    /// An unsigned 8-bit integer.
    U8(u8),
    /// An unsigned 16-bit integer.
    U16(u16),
    /// An unsigned 32-bit integer.
    U32(u32),
    /// An unsigned 64-bit integer.
    U64(u64),
    /// An unsigned 128-bit integer.
    U128(u128),
    /// A signed 8-bit integer.
    I8(i8),
    /// A signed 16-bit integer.
    I16(i16),
    /// A signed 32-bit integer.
    I32(i32),
    /// A signed 64-bit integer.
    I64(i64),
    /// A signed 128-bit integer.
    I128(i128),
    /// A boolean.
    Bool(bool),
    /// Unicode text.
    Text(Seq<char>),
    /// Filesystem path text.
    PathText(Seq<char>),
    /// A text encoding's canonical name.
    Encoding(Seq<char>),
}

/// One field's data.
#[derive(Debug)]
pub enum Value {
    /// A scalar field.
    Scalar(Scalar),
    /// An optional scalar field.
    OptionalScalar(Option<Scalar>),
    /// An optional nested record field.
    OptionalNested(Option<Record>),
    /// A nested record field.
    Nested(Record),
    /// A sequence-of-scalars field.
    Sequence(Vec<Scalar>),
    /// A sequence-of-records field.
    NestedSequence(Vec<Record>),
}

/// A record's data: one value per field descriptor, in descriptor order.
#[derive(Debug)]
pub struct Record {
    /// The field values.
    pub values: Vec<Value>,
}

/// Mathematical image of one field's data.
pub enum ValueV {
    /// A scalar field.
    Scalar(ScalarV),
    /// An optional scalar field.
    OptionalScalar(Option<ScalarV>),
    /// An optional nested record field.
    OptionalNested(Option<Seq<ValueV>>),
    /// A nested record field.
    Nested(Seq<ValueV>),
    /// A sequence-of-scalars field.
    Sequence(Seq<ScalarV>),
    /// A sequence-of-records field.
    NestedSequence(Seq<Seq<ValueV>>),
}

/// The image of a scalar.
pub open spec fn scalar_view(s: Scalar) -> ScalarV {
    match s {
        Scalar::U8(x) => ScalarV::U8(x),
        Scalar::U16(x) => ScalarV::U16(x),
        Scalar::U32(x) => ScalarV::U32(x),
        Scalar::U64(x) => ScalarV::U64(x),
        Scalar::U128(x) => ScalarV::U128(x),
        Scalar::I8(x) => ScalarV::I8(x),
        Scalar::I16(x) => ScalarV::I16(x),
        Scalar::I32(x) => ScalarV::I32(x),
        Scalar::I64(x) => ScalarV::I64(x),
        Scalar::I128(x) => ScalarV::I128(x),
        Scalar::Bool(x) => ScalarV::Bool(x),
        Scalar::Text(s) => ScalarV::Text(s@),
        Scalar::PathText(s) => ScalarV::PathText(s@),
        Scalar::Encoding(s) => ScalarV::Encoding(s@),
    }
}

/// The image of one field's data.
pub open spec fn value_view(v: Value) -> ValueV
    decreases v,
{
    match v {
        Value::Scalar(s) => ValueV::Scalar(scalar_view(s)),
        Value::OptionalScalar(o) => ValueV::OptionalScalar(
            match o {
                Some(s) => Some(scalar_view(s)),
                None => None,
            },
        ),
        Value::OptionalNested(o) => ValueV::OptionalNested(
            match o {
                Some(r) => Some(record_view(r)),
                None => None,
            },
        ),
        Value::Nested(r) => ValueV::Nested(record_view(r)),
        Value::Sequence(items) => ValueV::Sequence(scalars_view(items@)),
        Value::NestedSequence(items) => ValueV::NestedSequence(records_view(items@)),
    }
}

/// The image of a run of scalars.
pub open spec fn scalars_view(s: Seq<Scalar>) -> Seq<ScalarV> {
    Seq::new(s.len(), |i: int| scalar_view(s[i]))
}

/// The image of a run of records.
pub open spec fn records_view(rs: Seq<Record>) -> Seq<Seq<ValueV>>
    decreases rs,
{
    if rs.len() == 0 {
        Seq::empty()
    } else {
        records_view(rs.drop_last()).push(record_view(rs.last()))
    }
}

/// The image of a run of values.
pub open spec fn values_view(vs: Seq<Value>) -> Seq<ValueV>
    decreases vs,
{
    if vs.len() == 0 {
        Seq::empty()
    } else {
        values_view(vs.drop_last()).push(value_view(vs.last()))
    }
}

/// The image of a record: the images of its values, in order.
pub open spec fn record_view(r: Record) -> Seq<ValueV>
    decreases r,
{
    values_view(r.values@)
}

/// A run of records' image has one record image per record.
pub broadcast proof fn lemma_records_view_len(rs: Seq<Record>)
    ensures
        #[trigger] records_view(rs).len() == rs.len(),
    decreases rs,
{
    if rs.len() > 0 {
        lemma_records_view_len(rs.drop_last());
    }
}

/// A run of records' image is the pointwise image of the records.
pub broadcast proof fn lemma_records_view_index(rs: Seq<Record>, i: int)
    requires
        0 <= i < rs.len(),
    ensures
        #[trigger] records_view(rs)[i] == record_view(rs[i]),
    decreases rs,
{
    lemma_records_view_len(rs.drop_last());
    if i < rs.len() - 1 {
        lemma_records_view_index(rs.drop_last(), i);
    }
}

/// A run of values' image has one value image per value.
pub broadcast proof fn lemma_values_view_len(vs: Seq<Value>)
    ensures
        #[trigger] values_view(vs).len() == vs.len(),
    decreases vs,
{
    if vs.len() > 0 {
        lemma_values_view_len(vs.drop_last());
    }
}

/// A run of values' image is the pointwise image of the values.
pub broadcast proof fn lemma_values_view_index(vs: Seq<Value>, i: int)
    requires
        0 <= i < vs.len(),
    ensures
        #[trigger] values_view(vs)[i] == value_view(vs[i]),
    decreases vs,
{
    lemma_values_view_len(vs.drop_last());
    if i < vs.len() - 1 {
        lemma_values_view_index(vs.drop_last(), i);
    }
}

/// Whether a scalar's variant matches a scalar kind.
pub open spec fn scalar_conforms(s: ScalarV, k: ScalarKind) -> bool {
    match k {
        ScalarKind::U8 => s is U8,
        ScalarKind::U16 => s is U16,
        ScalarKind::U32 => s is U32,
        ScalarKind::U64 => s is U64,
        ScalarKind::U128 => s is U128,
        ScalarKind::I8 => s is I8,
        ScalarKind::I16 => s is I16,
        ScalarKind::I32 => s is I32,
        ScalarKind::I64 => s is I64,
        ScalarKind::I128 => s is I128,
        ScalarKind::Bool => s is Bool,
        ScalarKind::Text => s is Text,
        ScalarKind::PathText => s is PathText,
        ScalarKind::Encoding => s is Encoding,
    }
}

/// Whether a value's shape matches a field kind.
pub open spec fn value_conforms(v: ValueV, k: FieldKindV) -> bool
    decreases k,
{
    match k {
        FieldKindV::Scalar(sk) => v matches ValueV::Scalar(s) && scalar_conforms(s, sk),
        FieldKindV::OptionalScalar(sk) => v matches ValueV::OptionalScalar(o) && match o {
            Some(s) => scalar_conforms(s, sk),
            None => true,
        },
        FieldKindV::OptionalNested(fs) => v matches ValueV::OptionalNested(o) && match o {
            Some(vs) => record_conforms(vs, fs),
            None => true,
        },
        FieldKindV::Nested(fs) => v matches ValueV::Nested(vs) && record_conforms(vs, fs),
        FieldKindV::Sequence(sk) => v matches ValueV::Sequence(items) && forall|i: int|
            0 <= i < items.len() ==> scalar_conforms(items[i], sk),
        FieldKindV::NestedSequence(fs) => v matches ValueV::NestedSequence(items) && forall|
            i: int,
        |
            0 <= i < items.len() ==> record_conforms(items[i], fs),
    }
}

/// Whether a record's values match a descriptor table, one for one.
pub open spec fn record_conforms(vs: Seq<ValueV>, fs: Seq<FieldSchemaV>) -> bool
    decreases fs,
{
    vs.len() == fs.len() && forall|i: int|
        0 <= i < fs.len() ==> value_conforms(vs[i], fs[i].kind)
}

/// The default scalar of a kind: zero, `false`, or empty text.
pub open spec fn default_scalar(k: ScalarKind) -> ScalarV {
    match k {
        ScalarKind::U8 => ScalarV::U8(0),
        ScalarKind::U16 => ScalarV::U16(0),
        ScalarKind::U32 => ScalarV::U32(0),
        ScalarKind::U64 => ScalarV::U64(0),
        ScalarKind::U128 => ScalarV::U128(0),
        ScalarKind::I8 => ScalarV::I8(0),
        ScalarKind::I16 => ScalarV::I16(0),
        ScalarKind::I32 => ScalarV::I32(0),
        ScalarKind::I64 => ScalarV::I64(0),
        ScalarKind::I128 => ScalarV::I128(0),
        ScalarKind::Bool => ScalarV::Bool(false),
        ScalarKind::Text => ScalarV::Text(Seq::empty()),
        ScalarKind::PathText => ScalarV::PathText(Seq::empty()),
        ScalarKind::Encoding => ScalarV::Encoding(Seq::empty()),
    }
}

/// The default data of a field kind: default scalars, absent optionals,
/// empty sequences.
pub open spec fn default_value(k: FieldKindV) -> ValueV
    decreases k,
{
    match k {
        FieldKindV::Scalar(sk) => ValueV::Scalar(default_scalar(sk)),
        FieldKindV::OptionalScalar(_) => ValueV::OptionalScalar(None),
        FieldKindV::OptionalNested(_) => ValueV::OptionalNested(None),
        FieldKindV::Nested(fs) => ValueV::Nested(default_record(fs)),
        FieldKindV::Sequence(_) => ValueV::Sequence(Seq::empty()),
        FieldKindV::NestedSequence(_) => ValueV::NestedSequence(Seq::empty()),
    }
}

/// The default data of a descriptor table: each field's default.
pub open spec fn default_record(fs: Seq<FieldSchemaV>) -> Seq<ValueV>
    decreases fs,
{
    if fs.len() == 0 {
        Seq::empty()
    } else {
        default_record(fs.drop_last()).push(default_value(fs.last().kind))
    }
}

/// A descriptor table's default has one value per descriptor.
pub broadcast proof fn lemma_default_record_len(fs: Seq<FieldSchemaV>)
    ensures
        #[trigger] default_record(fs).len() == fs.len(),
    decreases fs,
{
    if fs.len() > 0 {
        lemma_default_record_len(fs.drop_last());
    }
}

/// A descriptor table's default is the pointwise default of its kinds.
pub broadcast proof fn lemma_default_record_index(fs: Seq<FieldSchemaV>, i: int)
    requires
        0 <= i < fs.len(),
    ensures
        #[trigger] default_record(fs)[i] == default_value(fs[i].kind),
    decreases fs,
{
    lemma_default_record_len(fs.drop_last());
    if i < fs.len() - 1 {
        lemma_default_record_index(fs.drop_last(), i);
    }
}

/// A field kind's default conforms to the kind.
pub proof fn lemma_default_value_conforms(k: FieldKindV)
    ensures
        value_conforms(default_value(k), k),
    decreases k,
{
    match k {
        FieldKindV::Nested(fs) => {
            lemma_default_record_conforms(fs);
        },
        _ => {},
    }
}

/// A descriptor table's default conforms to the table.
pub proof fn lemma_default_record_conforms(fs: Seq<FieldSchemaV>)
    ensures
        record_conforms(default_record(fs), fs),
    decreases fs,
{
    broadcast use lemma_default_record_len, lemma_default_record_index;

    assert forall|i: int| 0 <= i < fs.len() implies value_conforms(
        default_record(fs)[i],
        fs[i].kind,
    ) by {
        lemma_default_value_conforms(fs[i].kind);
    }
}

/// The default scalar of a kind, executably.
pub fn scalar_default(k: &ScalarKind) -> (r: Scalar)
    ensures
        scalar_view(r) == default_scalar(*k),
{
    match k {
        ScalarKind::U8 => Scalar::U8(0),
        ScalarKind::U16 => Scalar::U16(0),
        ScalarKind::U32 => Scalar::U32(0),
        ScalarKind::U64 => Scalar::U64(0),
        ScalarKind::U128 => Scalar::U128(0),
        ScalarKind::I8 => Scalar::I8(0),
        ScalarKind::I16 => Scalar::I16(0),
        ScalarKind::I32 => Scalar::I32(0),
        ScalarKind::I64 => Scalar::I64(0),
        ScalarKind::I128 => Scalar::I128(0),
        ScalarKind::Bool => Scalar::Bool(false),
        ScalarKind::Text => {
            let s = Scalar::Text(String::new());
            proof {
                assert(scalar_view(s)->Text_0 =~= Seq::<char>::empty());
            }
            s
        },
        ScalarKind::PathText => {
            let s = Scalar::PathText(String::new());
            proof {
                assert(scalar_view(s)->PathText_0 =~= Seq::<char>::empty());
            }
            s
        },
        ScalarKind::Encoding => {
            let s = Scalar::Encoding(String::new());
            proof {
                assert(scalar_view(s)->Encoding_0 =~= Seq::<char>::empty());
            }
            s
        },
    }
}

/// The default data of a field kind, executably.
pub fn value_default(k: &FieldKind) -> (r: Value)
    ensures
        value_view(r) == default_value(kind_view(*k)),
    decreases *k,
{
    match k {
        FieldKind::Scalar(sk) => Value::Scalar(scalar_default(sk)),
        FieldKind::OptionalScalar(_) => Value::OptionalScalar(None),
        FieldKind::OptionalNested(_) => Value::OptionalNested(None),
        FieldKind::Nested(fs) => Value::Nested(record_default(fs)),
        FieldKind::Sequence(_) => {
            let v = Value::Sequence(Vec::new());
            proof {
                assert(value_view(v)->Sequence_0 =~= Seq::<ScalarV>::empty());
            }
            v
        },
        FieldKind::NestedSequence(_) => {
            let v = Value::NestedSequence(Vec::new());
            proof {
                assert(value_view(v)->NestedSequence_0 =~= Seq::<Seq<ValueV>>::empty());
            }
            v
        },
    }
}

/// The default data of a descriptor table, executably.
pub fn record_default(fs: &Vec<FieldSchema>) -> (r: Record)
    ensures
        record_view(r) == default_record(fields_view(fs@)),
    decreases fs@,
{
    let n = fs.len();
    let mut values: Vec<Value> = Vec::new();
    let mut i: usize = 0;
    while i < n
        invariant
            n == fs@.len(),
            i <= n,
            values@.len() == i,
            forall|j: int|
                0 <= j < i ==> value_view(values@[j]) == default_value(kind_view(fs@[j].kind)),
        decreases n - i,
    {
        proof {
            assert(fs@[i as int] == fs[i as int]);
        }
        values.push(value_default(&fs[i].kind));
        i += 1;
    }
    let ghost vs = values@;
    let r = Record { values };
    proof {
        broadcast use
            lemma_values_view_len,
            lemma_values_view_index,
            lemma_default_record_len,
            lemma_default_record_index,
        ;

        assert(r.values@ == vs);
        assert(record_view(r) == values_view(vs));
        assert(record_view(r) =~= default_record(fields_view(fs@))) by {
            assert forall|j: int| 0 <= j < fs@.len() implies values_view(vs)[j] == default_record(
                fields_view(fs@),
            )[j] by {
                assert(fields_view(fs@)[j] == field_view(fs@[j]));
                assert(values_view(vs)[j] == value_view(vs[j]));
                assert(default_record(fields_view(fs@))[j] == default_value(
                    fields_view(fs@)[j].kind,
                ));
            }
        }
    }
    r
}

} // verus!
