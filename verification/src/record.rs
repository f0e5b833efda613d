//! Record type shapes and record instances.
//!
//! A record type is described by an ordered list of field descriptors; a
//! record instance is an ordered list of values, one per descriptor. The
//! order of the fields fixes the byte layout of the encoded record.

use vstd::prelude::*;

verus! {

/// The declared type of one field: a fixed-width scalar, a zero-terminated
/// text field, or a nested record with its own shape.
#[derive(Debug, PartialEq, Eq)]
pub enum FieldType {
    U8,
    U16,
    U32,
    U64,
    I8,
    I16,
    I32,
    I64,
    Bool,
    Text,
    Record(Vec<FieldDescriptor>),
}

/// One field of a record type: its name and its declared type.
#[derive(Debug, PartialEq, Eq)]
pub struct FieldDescriptor {
    pub name: String,
    pub ty: FieldType,
}

/// A concrete field value of a record instance.
#[derive(Debug, PartialEq, Eq)]
pub enum Value {
    U8(u8),
    U16(u16),
    U32(u32),
    U64(u64),
    I8(i8),
    I16(i16),
    I32(i32),
    I64(i64),
    Bool(bool),
    Text(String),
    Record(Vec<Value>),
}

/// Mathematical model of a field type.
#[verifier::ext_equal]
pub enum TyModel {
    U8,
    U16,
    U32,
    U64,
    I8,
    I16,
    I32,
    I64,
    Bool,
    Text,
    Rec(Seq<FieldModel>),
}

/// Mathematical model of a field descriptor.
#[verifier::ext_equal]
pub struct FieldModel {
    pub name: Seq<char>,
    pub ty: TyModel,
}

/// Mathematical model of a field value.
#[verifier::ext_equal]
pub enum ValModel {
    U8(u8),
    U16(u16),
    U32(u32),
    U64(u64),
    I8(i8),
    I16(i16),
    I32(i32),
    I64(i64),
    Bool(bool),
    Text(Seq<char>),
    Rec(Seq<ValModel>),
}

impl FieldType {
    /// The model of this field type.
    pub open spec fn model(self) -> TyModel
        decreases self,
    {
        match self {
            FieldType::U8 => TyModel::U8,
            FieldType::U16 => TyModel::U16,
            FieldType::U32 => TyModel::U32,
            FieldType::U64 => TyModel::U64,
            FieldType::I8 => TyModel::I8,
            FieldType::I16 => TyModel::I16,
            FieldType::I32 => TyModel::I32,
            FieldType::I64 => TyModel::I64,
            FieldType::Bool => TyModel::Bool,
            FieldType::Text => TyModel::Text,
            FieldType::Record(fs) => TyModel::Rec(fields_model(fs@)),
        }
    }
}

/// The model of an ordered list of field descriptors.
pub open spec fn fields_model(fs: Seq<FieldDescriptor>) -> Seq<FieldModel>
    decreases fs,
{
    if fs.len() == 0 {
        Seq::empty()
    } else {
        seq![FieldModel { name: fs[0].name@, ty: fs[0].ty.model() }] + fields_model(fs.drop_first())
    }
}

impl Value {
    /// The model of this field value.
    pub open spec fn model(self) -> ValModel
        decreases self,
    {
        match self {
            Value::U8(x) => ValModel::U8(x),
            Value::U16(x) => ValModel::U16(x),
            Value::U32(x) => ValModel::U32(x),
            Value::U64(x) => ValModel::U64(x),
            Value::I8(x) => ValModel::I8(x),
            Value::I16(x) => ValModel::I16(x),
            Value::I32(x) => ValModel::I32(x),
            Value::I64(x) => ValModel::I64(x),
            Value::Bool(b) => ValModel::Bool(b),
            Value::Text(s) => ValModel::Text(s@),
            Value::Record(vs) => ValModel::Rec(vals_model(vs@)),
        }
    }
}

/// The model of an ordered list of field values.
pub open spec fn vals_model(vs: Seq<Value>) -> Seq<ValModel>
    decreases vs,
{
    if vs.len() == 0 {
        Seq::empty()
    } else {
        seq![vs[0].model()] + vals_model(vs.drop_first())
    }
}

pub proof fn lemma_fields_model_len(fs: Seq<FieldDescriptor>)
    ensures
        fields_model(fs).len() == fs.len(),
    decreases fs,
{
    if fs.len() > 0 {
        lemma_fields_model_len(fs.drop_first());
    }
}

pub proof fn lemma_fields_model_index(fs: Seq<FieldDescriptor>, i: int)
    requires
        0 <= i < fs.len(),
    ensures
        fields_model(fs).len() == fs.len(),
        fields_model(fs)[i] == (FieldModel { name: fs[i].name@, ty: fs[i].ty.model() }),
    decreases fs,
{
    lemma_fields_model_len(fs);
    if i > 0 {
        lemma_fields_model_index(fs.drop_first(), i - 1);
    }
}

pub proof fn lemma_vals_model_len(vs: Seq<Value>)
    ensures
        vals_model(vs).len() == vs.len(),
    decreases vs,
{
    if vs.len() > 0 {
        lemma_vals_model_len(vs.drop_first());
    }
}

pub proof fn lemma_vals_model_index(vs: Seq<Value>, i: int)
    requires
        0 <= i < vs.len(),
    ensures
        vals_model(vs).len() == vs.len(),
        vals_model(vs)[i] == vs[i].model(),
    decreases vs,
{
    lemma_vals_model_len(vs);
    if i > 0 {
        lemma_vals_model_index(vs.drop_first(), i - 1);
    }
}

/// A list of values appended by one more value models to the model of the
/// list followed by the model of the value.
pub proof fn lemma_vals_model_push(vs: Seq<Value>, v: Value)
    ensures
        vals_model(vs.push(v)) == vals_model(vs) + seq![v.model()],
    decreases vs,
{
    reveal_with_fuel(vals_model, 2);
    if vs.len() == 0 {
        assert(vs.push(v)[0] == v);
        assert(vs.push(v).drop_first() =~= Seq::<Value>::empty());
        assert(vals_model(vs.push(v)) =~= vals_model(vs) + seq![v.model()]);
    } else {
        lemma_vals_model_push(vs.drop_first(), v);
        assert(vs.push(v)[0] == vs[0]);
        assert(vs.push(v).drop_first() =~= vs.drop_first().push(v));
        assert(vals_model(vs.push(v)) =~= vals_model(vs) + seq![v.model()]);
    }
}

/// Whether a field value fits a field type.
pub open spec fn ty_matches(t: TyModel, v: ValModel) -> bool
    decreases v,
{
    match (t, v) {
        (TyModel::U8, ValModel::U8(_)) => true,
        (TyModel::U16, ValModel::U16(_)) => true,
        (TyModel::U32, ValModel::U32(_)) => true,
        (TyModel::U64, ValModel::U64(_)) => true,
        (TyModel::I8, ValModel::I8(_)) => true,
        (TyModel::I16, ValModel::I16(_)) => true,
        (TyModel::I32, ValModel::I32(_)) => true,
        (TyModel::I64, ValModel::I64(_)) => true,
        (TyModel::Bool, ValModel::Bool(_)) => true,
        (TyModel::Text, ValModel::Text(_)) => true,
        (TyModel::Rec(fs), ValModel::Rec(vs)) => fields_match(fs, vs),
        _ => false,
    }
}

/// Whether a list of values fits a list of field descriptors, field by field
/// in declaration order.
pub open spec fn fields_match(fs: Seq<FieldModel>, vs: Seq<ValModel>) -> bool
    decreases vs,
{
    &&& fs.len() == vs.len()
    &&& (vs.len() == 0 || (ty_matches(fs[0].ty, vs[0]) && fields_match(
        fs.drop_first(),
        vs.drop_first(),
    )))
}

pub proof fn lemma_fields_match_iff(fs: Seq<FieldModel>, vs: Seq<ValModel>)
    ensures
        fields_match(fs, vs) <==> (fs.len() == vs.len() && forall|i: int|
            0 <= i < vs.len() ==> ty_matches(#[trigger] fs[i].ty, vs[i])),
    decreases vs,
{
    if fs.len() == vs.len() && vs.len() > 0 {
        lemma_fields_match_iff(fs.drop_first(), vs.drop_first());
        if ty_matches(fs[0].ty, vs[0]) && fields_match(fs.drop_first(), vs.drop_first()) {
            assert forall|i: int| 0 <= i < vs.len() implies ty_matches(
                #[trigger] fs[i].ty,
                vs[i],
            ) by {
                if i > 0 {
                    assert(fs.drop_first()[i - 1] == fs[i]);
                    assert(vs.drop_first()[i - 1] == vs[i]);
                }
            }
        }
        if fs.len() == vs.len() && forall|i: int|
            0 <= i < vs.len() ==> ty_matches(#[trigger] fs[i].ty, vs[i]) {
            assert forall|i: int| 0 <= i < vs.drop_first().len() implies ty_matches(
                #[trigger] fs.drop_first()[i].ty,
                vs.drop_first()[i],
            ) by {
                assert(fs.drop_first()[i] == fs[i + 1]);
                assert(vs.drop_first()[i] == vs[i + 1]);
            }
        }
    }
}

/// No text field of the value holds a zero character.
pub open spec fn no_nul_val(v: ValModel) -> bool
    decreases v,
{
    match v {
        ValModel::Text(s) => forall|i: int| 0 <= i < s.len() ==> #[trigger] s[i] != '\0',
        ValModel::Rec(vs) => no_nul_vals(vs),
        _ => true,
    }
}

/// No text field of any of the values holds a zero character.
pub open spec fn no_nul_vals(vs: Seq<ValModel>) -> bool
    decreases vs,
{
    vs.len() == 0 || (no_nul_val(vs[0]) && no_nul_vals(vs.drop_first()))
}

/// Checks whether a value fits a field type.
pub fn value_matches(t: &FieldType, v: &Value) -> (r: bool)
    ensures
        r == ty_matches(t.model(), v.model()),
    decreases v,
{
    match (t, v) {
        (FieldType::U8, Value::U8(_)) => true,
        (FieldType::U16, Value::U16(_)) => true,
        (FieldType::U32, Value::U32(_)) => true,
        (FieldType::U64, Value::U64(_)) => true,
        (FieldType::I8, Value::I8(_)) => true,
        (FieldType::I16, Value::I16(_)) => true,
        (FieldType::I32, Value::I32(_)) => true,
        (FieldType::I64, Value::I64(_)) => true,
        (FieldType::Bool, Value::Bool(_)) => true,
        (FieldType::Text, Value::Text(_)) => true,
        (FieldType::Record(fs), Value::Record(vs)) => record_matches(fs, vs),
        _ => false,
    }
}

/// Checks whether a record instance fits a record type shape.
pub fn record_matches(fs: &Vec<FieldDescriptor>, vs: &Vec<Value>) -> (r: bool)
    ensures
        r == fields_match(fields_model(fs@), vals_model(vs@)),
    decreases vs,
{
    proof {
        lemma_fields_model_len(fs@);
        lemma_vals_model_len(vs@);
        lemma_fields_match_iff(fields_model(fs@), vals_model(vs@));
    }
    if fs.len() != vs.len() {
        return false;
    }
    let n = vs.len();
    let mut i: usize = 0;
    while i < n
        invariant
            n == vs.len(),
            fs@.len() == vs@.len(),
            0 <= i <= n,
            forall|j: int|
                0 <= j < i ==> ty_matches(
                    #[trigger] fields_model(fs@)[j].ty,
                    vals_model(vs@)[j],
                ),
        decreases n - i,
    {
        proof {
            lemma_fields_model_index(fs@, i as int);
            lemma_vals_model_index(vs@, i as int);
        }
        if !value_matches(&fs[i].ty, &vs[i]) {
            proof {
                lemma_fields_match_iff(fields_model(fs@), vals_model(vs@));
                assert(!ty_matches(fields_model(fs@)[i as int].ty, vals_model(vs@)[i as int]));
            }
            return false;
        }
        i += 1;
    }
    proof {
        lemma_fields_model_len(fs@);
        lemma_vals_model_len(vs@);
        lemma_fields_match_iff(fields_model(fs@), vals_model(vs@));
    }
    true
}

} // verus!
