//! The generic value representation: a closed tagged union with one variant
//! per shape a serializable datum can take, together with its mathematical
//! model, the default-ness predicate, deep equality and deep cloning.
//!
//! Floating-point payloads are carried as their IEEE 754 bit patterns
//! (`F32Bits`, `F64Bits`), so two float values are equal exactly when their
//! bits are; both zero bit patterns still count as default.
//!
//! Map entries and struct fields are ordered lists of key/value pairs; the
//! order is preserved by every operation, and a well-formed value (see
//! [`wf`]) has pairwise-distinct keys at every level.

use vstd::prelude::*;

verus! {

/// IEEE 754 bit pattern of `-0.0f32`; `0x8000_0000`.
pub const F32_NEG_ZERO_BITS: u32 = 0x8000_0000;

/// IEEE 754 bit pattern of `-0.0f64`; `0x8000_0000_0000_0000`.
pub const F64_NEG_ZERO_BITS: u64 = 0x8000_0000_0000_0000;

/// Mathematical model of a [`Value`]: the same tree, with strings as
/// `Seq<char>`, byte strings as `Seq<u8>`, and every list of elements,
/// map entries or named fields as a `Seq`.
#[verifier::ext_equal]
pub enum ValueModel {
    Unit,
    Bool(bool),
    I8(i8),
    I16(i16),
    I32(i32),
    I64(i64),
    I128(i128),
    U8(u8),
    U16(u16),
    U32(u32),
    U64(u64),
    U128(u128),
    F32Bits(u32),
    F64Bits(u64),
    Char(char),
    Str(Seq<char>),
    Bytes(Seq<u8>),
    OptionNone,
    OptionSome(Box<ValueModel>),
    UnitStruct(Seq<char>),
    UnitVariant { name: Seq<char>, variant_index: u32, variant: Seq<char> },
    NewtypeStruct(Seq<char>, Box<ValueModel>),
    NewtypeVariant { name: Seq<char>, variant_index: u32, variant: Seq<char>, value: Box<ValueModel> },
    Sequence(Seq<ValueModel>),
    Tuple(Seq<ValueModel>),
    TupleStruct(Seq<char>, Seq<ValueModel>),
    TupleVariant { name: Seq<char>, variant_index: u32, variant: Seq<char>, elements: Seq<ValueModel> },
    Mapping(Seq<(ValueModel, ValueModel)>),
    Struct(Seq<char>, Seq<(Seq<char>, ValueModel)>),
    StructVariant { name: Seq<char>, variant_index: u32, variant: Seq<char>, fields: Seq<(Seq<char>, ValueModel)> },
}

/// The generic value representation: one variant per shape a serializable
/// datum can take.
#[derive(Debug)]
pub enum Value {
    /// Absence marker.
    Unit,
    Bool(bool),
    I8(i8),
    I16(i16),
    I32(i32),
    I64(i64),
    I128(i128),
    U8(u8),
    U16(u16),
    U32(u32),
    U64(u64),
    U128(u128),
    /// A 32-bit float, by its IEEE 754 bit pattern.
    F32Bits(u32),
    /// A 64-bit float, by its IEEE 754 bit pattern.
    F64Bits(u64),
    Char(char),
    Str(String),
    Bytes(Vec<u8>),
    /// The "none" case of an optional value.
    OptionNone,
    /// The "some" case of an optional value.
    OptionSome(Box<Value>),
    /// A named unit marker: `unit-struct(name)`.
    UnitStruct(String),
    /// A bare enum case: `unit-variant(enum name, variant index, variant name)`.
    UnitVariant { name: String, variant_index: u32, variant: String },
    /// A named wrapper around one inner value.
    NewtypeStruct(String, Box<Value>),
    /// An enum case wrapping one inner value.
    NewtypeVariant { name: String, variant_index: u32, variant: String, value: Box<Value> },
    /// An ordered list of values.
    Sequence(Vec<Value>),
    /// A fixed-arity ordered list.
    Tuple(Vec<Value>),
    /// A named fixed-arity list.
    TupleStruct(String, Vec<Value>),
    /// An enum case holding a fixed-arity list.
    TupleVariant { name: String, variant_index: u32, variant: String, elements: Vec<Value> },
    /// An ordered mapping of value to value with unique keys.
    Mapping(Vec<(Value, Value)>),
    /// A named ordered field mapping of string to value.
    Struct(String, Vec<(String, Value)>),
    /// An enum case holding named fields.
    StructVariant { name: String, variant_index: u32, variant: String, fields: Vec<(String, Value)> },
}

/// The models of a list of values, elementwise.
pub open spec fn models_of(s: Seq<Value>) -> Seq<ValueModel>
    decreases s,
{
    Seq::new(s.len(), |i: int| if 0 <= i < s.len() {
        model_of(s[i])
    } else {
        ValueModel::Unit
    })
}

/// The models of a list of map entries, elementwise.
pub open spec fn entry_models_of(s: Seq<(Value, Value)>) -> Seq<(ValueModel, ValueModel)>
    decreases s,
{
    Seq::new(s.len(), |i: int| if 0 <= i < s.len() {
        (model_of(s[i].0), model_of(s[i].1))
    } else {
        (ValueModel::Unit, ValueModel::Unit)
    })
}

/// The models of a list of named fields, elementwise.
pub open spec fn field_models_of(s: Seq<(String, Value)>) -> Seq<(Seq<char>, ValueModel)>
    decreases s,
{
    Seq::new(s.len(), |i: int| if 0 <= i < s.len() {
        (s[i].0@, model_of(s[i].1))
    } else {
        (Seq::empty(), ValueModel::Unit)
    })
}

/// The model of a [`Value`], defined recursively over the tree.
pub open spec fn model_of(v: Value) -> ValueModel
    decreases v,
{
    match v {
        Value::Unit => ValueModel::Unit,
        Value::Bool(b) => ValueModel::Bool(b),
        Value::I8(n) => ValueModel::I8(n),
        Value::I16(n) => ValueModel::I16(n),
        Value::I32(n) => ValueModel::I32(n),
        Value::I64(n) => ValueModel::I64(n),
        Value::I128(n) => ValueModel::I128(n),
        Value::U8(n) => ValueModel::U8(n),
        Value::U16(n) => ValueModel::U16(n),
        Value::U32(n) => ValueModel::U32(n),
        Value::U64(n) => ValueModel::U64(n),
        Value::U128(n) => ValueModel::U128(n),
        Value::F32Bits(n) => ValueModel::F32Bits(n),
        Value::F64Bits(n) => ValueModel::F64Bits(n),
        Value::Char(c) => ValueModel::Char(c),
        Value::Str(s) => ValueModel::Str(s@),
        Value::Bytes(bs) => ValueModel::Bytes(bs@),
        Value::OptionNone => ValueModel::OptionNone,
        Value::OptionSome(inner) => ValueModel::OptionSome(Box::new(model_of(*inner))),
        Value::UnitStruct(n) => ValueModel::UnitStruct(n@),
        Value::UnitVariant { name, variant_index, variant } => ValueModel::UnitVariant {
            name: name@,
            variant_index,
            variant: variant@,
        },
        Value::NewtypeStruct(n, inner) => ValueModel::NewtypeStruct(n@, Box::new(model_of(*inner))),
        Value::NewtypeVariant { name, variant_index, variant, value } => ValueModel::NewtypeVariant {
            name: name@,
            variant_index,
            variant: variant@,
            value: Box::new(model_of(*value)),
        },
        Value::Sequence(vs) => ValueModel::Sequence(models_of(vs@)),
        Value::Tuple(vs) => ValueModel::Tuple(models_of(vs@)),
        Value::TupleStruct(n, vs) => ValueModel::TupleStruct(n@, models_of(vs@)),
        Value::TupleVariant { name, variant_index, variant, elements } => ValueModel::TupleVariant {
            name: name@,
            variant_index,
            variant: variant@,
            elements: models_of(elements@),
        },
        Value::Mapping(es) => ValueModel::Mapping(entry_models_of(es@)),
        Value::Struct(n, fs) => ValueModel::Struct(n@, field_models_of(fs@)),
        Value::StructVariant { name, variant_index, variant, fields } => ValueModel::StructVariant {
            name: name@,
            variant_index,
            variant: variant@,
            fields: field_models_of(fields@),
        },
    }
}

impl View for Value {
    type V = ValueModel;

    open spec fn view(&self) -> ValueModel {
        model_of(*self)
    }
}

/// Pairwise-distinct keys in a list of entries.
pub open spec fn keys_unique<K>(es: Seq<(K, ValueModel)>) -> bool {
    forall|i: int, j: int| 0 <= i < j < es.len() ==> es[i].0 != es[j].0
}

/// Well-formedness: every map and every field set in the tree has
/// pairwise-distinct keys.
pub open spec fn wf(m: ValueModel) -> bool
    decreases m,
{
    match m {
        ValueModel::OptionSome(inner) => wf(*inner),
        ValueModel::NewtypeStruct(_n, inner) => wf(*inner),
        ValueModel::NewtypeVariant { value, .. } => wf(*value),
        ValueModel::Sequence(vs) => forall|i: int| 0 <= i < vs.len() ==> wf(#[trigger] vs[i]),
        ValueModel::Tuple(vs) => forall|i: int| 0 <= i < vs.len() ==> wf(#[trigger] vs[i]),
        ValueModel::TupleStruct(_n, vs) => forall|i: int| 0 <= i < vs.len() ==> wf(#[trigger] vs[i]),
        ValueModel::TupleVariant { elements, .. } => forall|i: int|
            0 <= i < elements.len() ==> wf(#[trigger] elements[i]),
        ValueModel::Mapping(es) => keys_unique(es) && forall|i: int|
            0 <= i < es.len() ==> wf(#[trigger] es[i].0) && wf(es[i].1),
        ValueModel::Struct(_n, fs) => keys_unique(fs) && forall|i: int|
            0 <= i < fs.len() ==> wf(#[trigger] fs[i].1),
        ValueModel::StructVariant { fields, .. } => keys_unique(fields) && forall|i: int|
            0 <= i < fields.len() ==> wf(#[trigger] fields[i].1),
        _ => true,
    }
}

/// Whether a value is equivalent to the zero value of its shape: booleans
/// iff false, numbers iff zero, strings and collections iff empty, "none"
/// and unit markers always, "some" and newtype wrappers iff their payload
/// is.  A bare enum case (`UnitVariant`) never counts as default, because
/// nothing says which variant a schema treats as the zero case.
pub open spec fn model_is_default(m: ValueModel) -> bool
    decreases m,
{
    match m {
        ValueModel::Unit => true,
        ValueModel::Bool(b) => !b,
        ValueModel::I8(n) => n == 0,
        ValueModel::I16(n) => n == 0,
        ValueModel::I32(n) => n == 0,
        ValueModel::I64(n) => n == 0,
        ValueModel::I128(n) => n == 0,
        ValueModel::U8(n) => n == 0,
        ValueModel::U16(n) => n == 0,
        ValueModel::U32(n) => n == 0,
        ValueModel::U64(n) => n == 0,
        ValueModel::U128(n) => n == 0,
        ValueModel::F32Bits(n) => n == 0 || n == F32_NEG_ZERO_BITS,
        ValueModel::F64Bits(n) => n == 0 || n == F64_NEG_ZERO_BITS,
        ValueModel::Char(c) => c == '\0',
        ValueModel::Str(s) => s.len() == 0,
        ValueModel::Bytes(bs) => bs.len() == 0,
        ValueModel::OptionNone => true,
        ValueModel::OptionSome(inner) => model_is_default(*inner),
        ValueModel::UnitStruct(_n) => true,
        ValueModel::UnitVariant { .. } => false,
        ValueModel::NewtypeStruct(_n, inner) => model_is_default(*inner),
        ValueModel::NewtypeVariant { value, .. } => model_is_default(*value),
        ValueModel::Sequence(vs) => vs.len() == 0,
        ValueModel::Tuple(vs) => vs.len() == 0,
        ValueModel::TupleStruct(_n, vs) => vs.len() == 0,
        ValueModel::TupleVariant { elements, .. } => elements.len() == 0,
        ValueModel::Mapping(es) => es.len() == 0,
        ValueModel::Struct(_n, fs) => fs.len() == 0,
        ValueModel::StructVariant { fields, .. } => fields.len() == 0,
    }
}

/// Classify a value as "equivalent to the zero value for its shape": this is
/// how a caller infers whether a source actually set a field.
pub fn is_default(value: &Value) -> (r: bool)
    ensures
        r == model_is_default(value@),
    decreases value,
{
    match value {
        Value::Unit => return true,
        Value::Bool(b) => return !*b,
        Value::I8(n) => return *n == 0,
        Value::I16(n) => return *n == 0,
        Value::I32(n) => return *n == 0,
        Value::I64(n) => return *n == 0,
        Value::I128(n) => return *n == 0,
        Value::U8(n) => return *n == 0,
        Value::U16(n) => return *n == 0,
        Value::U32(n) => return *n == 0,
        Value::U64(n) => return *n == 0,
        Value::U128(n) => return *n == 0,
        Value::F32Bits(n) => return *n == 0 || *n == F32_NEG_ZERO_BITS,
        Value::F64Bits(n) => return *n == 0 || *n == F64_NEG_ZERO_BITS,
        Value::Char(c) => return *c == '\0',
        Value::Str(s) => return s.as_str().unicode_len() == 0,
        Value::Bytes(bs) => return bs.len() == 0,
        Value::OptionNone => return true,
        Value::OptionSome(inner) => return is_default(inner),
        Value::UnitStruct(_n) => return true,
        Value::UnitVariant { .. } => return false,
        Value::NewtypeStruct(_n, inner) => return is_default(inner),
        Value::NewtypeVariant { value: inner, .. } => return is_default(inner),
        Value::Sequence(vs) => {
            proof {
                assert(model_of(*value) == ValueModel::Sequence(models_of(vs@)));
            }
            return vs.len() == 0;
        },
        Value::Tuple(vs) => {
            proof {
                assert(model_of(*value) == ValueModel::Tuple(models_of(vs@)));
            }
            return vs.len() == 0;
        },
        Value::TupleStruct(_n, vs) => {
            proof {
                assert(model_of(*value) == ValueModel::TupleStruct(_n@, models_of(vs@)));
            }
            return vs.len() == 0;
        },
        Value::TupleVariant { elements, .. } => {
            proof {
                assert(model_of(*value) matches ValueModel::TupleVariant { elements: me, .. }
                    && me == models_of(elements@));
            }
            return elements.len() == 0;
        },
        Value::Mapping(es) => {
            proof {
                assert(model_of(*value) == ValueModel::Mapping(entry_models_of(es@)));
            }
            return es.len() == 0;
        },
        Value::Struct(_n, fs) => {
            proof {
                assert(model_of(*value) == ValueModel::Struct(_n@, field_models_of(fs@)));
            }
            return fs.len() == 0;
        },
        Value::StructVariant { fields, .. } => {
            proof {
                assert(model_of(*value) matches ValueModel::StructVariant { fields: mf, .. }
                    && mf == field_models_of(fields@));
            }
            return fields.len() == 0;
        },
    }
}

} // verus!


verus! {

/// Equality of two byte strings, elementwise.
fn bytes_eq(xs: &Vec<u8>, ys: &Vec<u8>) -> (r: bool)
    ensures
        r == (xs@ == ys@),
{
    if xs.len() != ys.len() {
        return false;
    }
    let mut i: usize = 0;
    while i < xs.len()
        invariant
            i <= xs@.len(),
            xs@.len() == ys@.len(),
            forall|j: int| 0 <= j < i ==> xs@[j] == ys@[j],
        decreases xs@.len() - i,
    {
        if xs[i] != ys[i] {
            return false;
        }
        i += 1;
    }
    proof {
        assert(xs@ =~= ys@);
    }
    true
}

/// Deep structural equality of two values: `true` exactly when the two
/// models are equal.
pub fn value_eq(a: &Value, b: &Value) -> (r: bool)
    ensures
        r == (a@ == b@),
    decreases a,
{
    match (a, b) {
        (Value::Unit, Value::Unit) => return true,
        (Value::Bool(x), Value::Bool(y)) => return *x == *y,
        (Value::I8(x), Value::I8(y)) => return *x == *y,
        (Value::I16(x), Value::I16(y)) => return *x == *y,
        (Value::I32(x), Value::I32(y)) => return *x == *y,
        (Value::I64(x), Value::I64(y)) => return *x == *y,
        (Value::I128(x), Value::I128(y)) => return *x == *y,
        (Value::U8(x), Value::U8(y)) => return *x == *y,
        (Value::U16(x), Value::U16(y)) => return *x == *y,
        (Value::U32(x), Value::U32(y)) => return *x == *y,
        (Value::U64(x), Value::U64(y)) => return *x == *y,
        (Value::U128(x), Value::U128(y)) => return *x == *y,
        (Value::F32Bits(x), Value::F32Bits(y)) => return *x == *y,
        (Value::F64Bits(x), Value::F64Bits(y)) => return *x == *y,
        (Value::Char(x), Value::Char(y)) => return *x == *y,
        (Value::Str(x), Value::Str(y)) => return *x == *y,
        (Value::Bytes(x), Value::Bytes(y)) => return bytes_eq(x, y),
        (Value::OptionNone, Value::OptionNone) => return true,
        (Value::OptionSome(x), Value::OptionSome(y)) => {
            proof {
                assert(model_of(*a) == ValueModel::OptionSome(Box::new(model_of(**x))));
                assert(model_of(*b) == ValueModel::OptionSome(Box::new(model_of(**y))));
            }
            return value_eq(x, y);
        },
        (Value::UnitStruct(x), Value::UnitStruct(y)) => return *x == *y,
        (
            Value::UnitVariant { name: xn, variant_index: xi, variant: xv },
            Value::UnitVariant { name: yn, variant_index: yi, variant: yv },
        ) => return *xn == *yn && *xi == *yi && *xv == *yv,
        (Value::NewtypeStruct(xn, x), Value::NewtypeStruct(yn, y)) => {
            proof {
                assert(model_of(*a) == ValueModel::NewtypeStruct(xn@, Box::new(model_of(**x))));
                assert(model_of(*b) == ValueModel::NewtypeStruct(yn@, Box::new(model_of(**y))));
            }
            return *xn == *yn && value_eq(x, y);
        },
        (
            Value::NewtypeVariant { name: xn, variant_index: xi, variant: xv, value: x },
            Value::NewtypeVariant { name: yn, variant_index: yi, variant: yv, value: y },
        ) => {
            proof {
                assert(model_of(*a) matches ValueModel::NewtypeVariant { value: mx, .. }
                    && mx == Box::new(model_of(**x)));
                assert(model_of(*b) matches ValueModel::NewtypeVariant { value: my, .. }
                    && my == Box::new(model_of(**y)));
            }
            return *xn == *yn && *xi == *yi && *xv == *yv && value_eq(x, y);
        },
        (Value::Sequence(xs), Value::Sequence(ys)) => {
            proof {
                assert(model_of(*a) == ValueModel::Sequence(models_of(xs@)));
                assert(model_of(*b) == ValueModel::Sequence(models_of(ys@)));
            }
            return values_eq(xs, ys);
        },
        (Value::Tuple(xs), Value::Tuple(ys)) => {
            proof {
                assert(model_of(*a) == ValueModel::Tuple(models_of(xs@)));
                assert(model_of(*b) == ValueModel::Tuple(models_of(ys@)));
            }
            return values_eq(xs, ys);
        },
        (Value::TupleStruct(xn, xs), Value::TupleStruct(yn, ys)) => {
            proof {
                assert(model_of(*a) == ValueModel::TupleStruct(xn@, models_of(xs@)));
                assert(model_of(*b) == ValueModel::TupleStruct(yn@, models_of(ys@)));
            }
            return *xn == *yn && values_eq(xs, ys);
        },
        (
            Value::TupleVariant { name: xn, variant_index: xi, variant: xv, elements: xs },
            Value::TupleVariant { name: yn, variant_index: yi, variant: yv, elements: ys },
        ) => {
            proof {
                assert(model_of(*a) matches ValueModel::TupleVariant { elements: mx, .. }
                    && mx == models_of(xs@));
                assert(model_of(*b) matches ValueModel::TupleVariant { elements: my, .. }
                    && my == models_of(ys@));
            }
            return *xn == *yn && *xi == *yi && *xv == *yv && values_eq(xs, ys);
        },
        (Value::Mapping(xs), Value::Mapping(ys)) => {
            proof {
                assert(model_of(*a) == ValueModel::Mapping(entry_models_of(xs@)));
                assert(model_of(*b) == ValueModel::Mapping(entry_models_of(ys@)));
            }
            return entries_eq(xs, ys);
        },
        (Value::Struct(xn, xs), Value::Struct(yn, ys)) => {
            proof {
                assert(model_of(*a) == ValueModel::Struct(xn@, field_models_of(xs@)));
                assert(model_of(*b) == ValueModel::Struct(yn@, field_models_of(ys@)));
            }
            return *xn == *yn && fields_eq(xs, ys);
        },
        (
            Value::StructVariant { name: xn, variant_index: xi, variant: xv, fields: xs },
            Value::StructVariant { name: yn, variant_index: yi, variant: yv, fields: ys },
        ) => {
            proof {
                assert(model_of(*a) matches ValueModel::StructVariant { fields: mx, .. }
                    && mx == field_models_of(xs@));
                assert(model_of(*b) matches ValueModel::StructVariant { fields: my, .. }
                    && my == field_models_of(ys@));
            }
            return *xn == *yn && *xi == *yi && *xv == *yv && fields_eq(xs, ys);
        },
        _ => return false,
    }
}

/// Equality of two lists of values, elementwise on the models.
fn values_eq(xs: &Vec<Value>, ys: &Vec<Value>) -> (r: bool)
    ensures
        r == (models_of(xs@) == models_of(ys@)),
    decreases xs,
{
    proof {
        assert(models_of(xs@).len() == xs@.len());
        assert(models_of(ys@).len() == ys@.len());
    }
    if xs.len() != ys.len() {
        return false;
    }
    let mut i: usize = 0;
    while i < xs.len()
        invariant
            i <= xs@.len(),
            xs@.len() == ys@.len(),
            forall|j: int| 0 <= j < i ==> models_of(xs@)[j] == models_of(ys@)[j],
        decreases xs@.len() - i,
    {
        if !value_eq(&xs[i], &ys[i]) {
            proof {
                assert(models_of(xs@)[i as int] == model_of(xs@[i as int]));
                assert(models_of(ys@)[i as int] == model_of(ys@[i as int]));
            }
            return false;
        }
        i += 1;
    }
    proof {
        assert(models_of(xs@) =~= models_of(ys@));
    }
    true
}

/// Equality of two lists of map entries, elementwise on the models.
fn entries_eq(xs: &Vec<(Value, Value)>, ys: &Vec<(Value, Value)>) -> (r: bool)
    ensures
        r == (entry_models_of(xs@) == entry_models_of(ys@)),
    decreases xs,
{
    proof {
        assert(entry_models_of(xs@).len() == xs@.len());
        assert(entry_models_of(ys@).len() == ys@.len());
    }
    if xs.len() != ys.len() {
        return false;
    }
    let mut i: usize = 0;
    while i < xs.len()
        invariant
            i <= xs@.len(),
            xs@.len() == ys@.len(),
            forall|j: int| 0 <= j < i ==> entry_models_of(xs@)[j] == entry_models_of(ys@)[j],
        decreases xs@.len() - i,
    {
        if !value_eq(&xs[i].0, &ys[i].0) {
            proof {
                assert(entry_models_of(xs@)[i as int].0 == model_of(xs@[i as int].0));
                assert(entry_models_of(ys@)[i as int].0 == model_of(ys@[i as int].0));
            }
            return false;
        }
        if !value_eq(&xs[i].1, &ys[i].1) {
            proof {
                assert(entry_models_of(xs@)[i as int].1 == model_of(xs@[i as int].1));
                assert(entry_models_of(ys@)[i as int].1 == model_of(ys@[i as int].1));
            }
            return false;
        }
        i += 1;
    }
    proof {
        assert(entry_models_of(xs@) =~= entry_models_of(ys@));
    }
    true
}

/// Equality of two lists of named fields, elementwise on the models.
fn fields_eq(xs: &Vec<(String, Value)>, ys: &Vec<(String, Value)>) -> (r: bool)
    ensures
        r == (field_models_of(xs@) == field_models_of(ys@)),
    decreases xs,
{
    proof {
        assert(field_models_of(xs@).len() == xs@.len());
        assert(field_models_of(ys@).len() == ys@.len());
    }
    if xs.len() != ys.len() {
        return false;
    }
    let mut i: usize = 0;
    while i < xs.len()
        invariant
            i <= xs@.len(),
            xs@.len() == ys@.len(),
            forall|j: int| 0 <= j < i ==> field_models_of(xs@)[j] == field_models_of(ys@)[j],
        decreases xs@.len() - i,
    {
        if !(xs[i].0 == ys[i].0) {
            proof {
                assert(field_models_of(xs@)[i as int].0 == xs@[i as int].0@);
                assert(field_models_of(ys@)[i as int].0 == ys@[i as int].0@);
            }
            return false;
        }
        if !value_eq(&xs[i].1, &ys[i].1) {
            proof {
                assert(field_models_of(xs@)[i as int].1 == model_of(xs@[i as int].1));
                assert(field_models_of(ys@)[i as int].1 == model_of(ys@[i as int].1));
            }
            return false;
        }
        i += 1;
    }
    proof {
        assert(field_models_of(xs@) =~= field_models_of(ys@));
    }
    true
}

} // verus!

verus! {

/// A copy of a byte string.
fn clone_bytes(xs: &Vec<u8>) -> (out: Vec<u8>)
    ensures
        out@ == xs@,
{
    let mut out: Vec<u8> = Vec::new();
    let mut i: usize = 0;
    while i < xs.len()
        invariant
            i <= xs@.len(),
            out@ == xs@.subrange(0, i as int),
        decreases xs@.len() - i,
    {
        out.push(xs[i]);
        i += 1;
    }
    proof {
        assert(out@ =~= xs@);
    }
    out
}

/// A deep copy of a value; the copy has the same model.
pub fn deep_clone(v: &Value) -> (out: Value)
    ensures
        out@ == v@,
    decreases v,
{
    match v {
        Value::Unit => Value::Unit,
        Value::Bool(b) => Value::Bool(*b),
        Value::I8(n) => Value::I8(*n),
        Value::I16(n) => Value::I16(*n),
        Value::I32(n) => Value::I32(*n),
        Value::I64(n) => Value::I64(*n),
        Value::I128(n) => Value::I128(*n),
        Value::U8(n) => Value::U8(*n),
        Value::U16(n) => Value::U16(*n),
        Value::U32(n) => Value::U32(*n),
        Value::U64(n) => Value::U64(*n),
        Value::U128(n) => Value::U128(*n),
        Value::F32Bits(n) => Value::F32Bits(*n),
        Value::F64Bits(n) => Value::F64Bits(*n),
        Value::Char(c) => Value::Char(*c),
        Value::Str(s) => Value::Str(s.clone()),
        Value::Bytes(bs) => Value::Bytes(clone_bytes(bs)),
        Value::OptionNone => Value::OptionNone,
        Value::OptionSome(inner) => Value::OptionSome(Box::new(deep_clone(inner))),
        Value::UnitStruct(n) => Value::UnitStruct(n.clone()),
        Value::UnitVariant { name, variant_index, variant } => Value::UnitVariant {
            name: name.clone(),
            variant_index: *variant_index,
            variant: variant.clone(),
        },
        Value::NewtypeStruct(n, inner) => Value::NewtypeStruct(n.clone(), Box::new(deep_clone(inner))),
        Value::NewtypeVariant { name, variant_index, variant, value } => Value::NewtypeVariant {
            name: name.clone(),
            variant_index: *variant_index,
            variant: variant.clone(),
            value: Box::new(deep_clone(value)),
        },
        Value::Sequence(vs) => Value::Sequence(clone_values(vs)),
        Value::Tuple(vs) => Value::Tuple(clone_values(vs)),
        Value::TupleStruct(n, vs) => Value::TupleStruct(n.clone(), clone_values(vs)),
        Value::TupleVariant { name, variant_index, variant, elements } => Value::TupleVariant {
            name: name.clone(),
            variant_index: *variant_index,
            variant: variant.clone(),
            elements: clone_values(elements),
        },
        Value::Mapping(es) => Value::Mapping(clone_entries(es)),
        Value::Struct(n, fs) => Value::Struct(n.clone(), clone_fields(fs)),
        Value::StructVariant { name, variant_index, variant, fields } => Value::StructVariant {
            name: name.clone(),
            variant_index: *variant_index,
            variant: variant.clone(),
            fields: clone_fields(fields),
        },
    }
}

/// A deep copy of a list of values.
fn clone_values(xs: &Vec<Value>) -> (out: Vec<Value>)
    ensures
        models_of(out@) == models_of(xs@),
    decreases xs,
{
    let mut out: Vec<Value> = Vec::new();
    let mut i: usize = 0;
    while i < xs.len()
        invariant
            i <= xs@.len(),
            out@.len() == i,
            forall|j: int| 0 <= j < i ==> models_of(out@)[j] == models_of(xs@)[j],
        decreases xs@.len() - i,
    {
        let c = deep_clone(&xs[i]);
        out.push(c);
        i += 1;
    }
    proof {
        assert(models_of(out@) =~= models_of(xs@));
    }
    out
}

/// A deep copy of a list of map entries.
fn clone_entries(xs: &Vec<(Value, Value)>) -> (out: Vec<(Value, Value)>)
    ensures
        entry_models_of(out@) == entry_models_of(xs@),
    decreases xs,
{
    let mut out: Vec<(Value, Value)> = Vec::new();
    let mut i: usize = 0;
    while i < xs.len()
        invariant
            i <= xs@.len(),
            out@.len() == i,
            forall|j: int| 0 <= j < i ==> entry_models_of(out@)[j] == entry_models_of(xs@)[j],
        decreases xs@.len() - i,
    {
        let k = deep_clone(&xs[i].0);
        let w = deep_clone(&xs[i].1);
        out.push((k, w));
        i += 1;
    }
    proof {
        assert(entry_models_of(out@) =~= entry_models_of(xs@));
    }
    out
}

/// A deep copy of a list of named fields.
fn clone_fields(xs: &Vec<(String, Value)>) -> (out: Vec<(String, Value)>)
    ensures
        field_models_of(out@) == field_models_of(xs@),
    decreases xs,
{
    let mut out: Vec<(String, Value)> = Vec::new();
    let mut i: usize = 0;
    while i < xs.len()
        invariant
            i <= xs@.len(),
            out@.len() == i,
            forall|j: int| 0 <= j < i ==> field_models_of(out@)[j] == field_models_of(xs@)[j],
        decreases xs@.len() - i,
    {
        let k = xs[i].0.clone();
        let w = deep_clone(&xs[i].1);
        out.push((k, w));
        i += 1;
    }
    proof {
        assert(field_models_of(out@) =~= field_models_of(xs@));
    }
    out
}

} // verus!

verus! {

/// Appending a value appends its model.
pub proof fn lemma_models_of_push(s: Seq<Value>, e: Value)
    ensures
        models_of(s.push(e)) =~= models_of(s).push(model_of(e)),
{
}

/// Appending an entry appends its model pair.
pub proof fn lemma_entry_models_of_push(s: Seq<(Value, Value)>, e: (Value, Value))
    ensures
        entry_models_of(s.push(e)) =~= entry_models_of(s).push((model_of(e.0), model_of(e.1))),
{
}

/// Appending a field appends its model pair.
pub proof fn lemma_field_models_of_push(s: Seq<(String, Value)>, e: (String, Value))
    ensures
        field_models_of(s.push(e)) =~= field_models_of(s).push((e.0@, model_of(e.1))),
{
}

} // verus!
