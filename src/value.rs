use vstd::prelude::*;

verus! {

/// A decimal number `mantissa * 10^exponent`: the library's representation of a
/// floating-point value. It is not normalized: `5e-1` and `50e-2` are distinct
/// representations of one number.
#[derive(Clone, Copy, Debug, PartialEq, Eq, Structural)]
pub struct Decimal {
    pub mantissa: i128,
    pub exponent: i32,
}

/// The primitive numeric types.
#[derive(Clone, Copy, Debug, PartialEq, Eq, Structural)]
pub enum NumKind {
    I32,
    U32,
    I64,
    U64,
    F64,
}

/// The identity of a runtime type.
#[derive(Clone, Copy, Debug, PartialEq, Eq, Structural)]
pub enum TypeKey {
    /// a primitive number
    Num(NumKind),
    /// an owned string
    Text,
    /// an owned vector of numbers of one kind
    Vector(NumKind),
    /// a borrowed view over numbers of one kind
    View(NumKind),
    /// a type registered by the user, by its numeric identity
    User(u64),
}

/// One primitive number.
#[derive(Clone, Copy, Debug, PartialEq, Eq, Structural)]
pub enum Number {
    I32(i32),
    U32(u32),
    I64(i64),
    U64(u64),
    F64(Decimal),
}

/// A type-erased value: a payload together with what identifies its type.
#[derive(Debug)]
pub enum Value {
    Num(Number),
    Text(String),
    /// an owned vector of numbers of the given kind (see `ValueView::wf`)
    Vector(NumKind, Vec<Number>),
    /// a view over numbers of the given kind (see `ValueView::wf`)
    View(NumKind, Vec<Number>),
    /// a tag of the user type `class`: the `index`-th of its named tags
    Tag(u64, u64),
    /// an instance of the user type `class` with its field values
    Object(u64, Vec<Value>),
}

/// What a `Value` holds, with its collections seen as sequences.
pub ghost enum ValueView {
    Num(Number),
    Text(Seq<char>),
    Vector(NumKind, Seq<Number>),
    View(NumKind, Seq<Number>),
    Tag(u64, u64),
    Object(u64, Seq<Value>),
}

impl Number {
    pub open spec fn kind(self) -> NumKind {
        match self {
            Number::I32(_) => NumKind::I32,
            Number::U32(_) => NumKind::U32,
            Number::I64(_) => NumKind::I64,
            Number::U64(_) => NumKind::U64,
            Number::F64(_) => NumKind::F64,
        }
    }
}

impl ValueView {
    /// The elements of a vector or view are all of its kind.
    pub open spec fn wf(self) -> bool {
        match self {
            ValueView::Vector(k, items) => forall|i: int| 0 <= i < items.len() ==> (#[trigger] items[i]).kind() == k,
            ValueView::View(k, items) => forall|i: int| 0 <= i < items.len() ==> (#[trigger] items[i]).kind() == k,
            _ => true,
        }
    }

    /// The type identity of a value.
    pub open spec fn type_key(self) -> TypeKey {
        match self {
            ValueView::Num(n) => TypeKey::Num(n.kind()),
            ValueView::Text(_) => TypeKey::Text,
            ValueView::Vector(k, _) => TypeKey::Vector(k),
            ValueView::View(k, _) => TypeKey::View(k),
            ValueView::Tag(c, _) => TypeKey::User(c),
            ValueView::Object(c, _) => TypeKey::User(c),
        }
    }
}

impl View for Value {
    type V = ValueView;

    open spec fn view(&self) -> ValueView {
        match self {
            Value::Num(n) => ValueView::Num(*n),
            Value::Text(s) => ValueView::Text(s@),
            Value::Vector(k, v) => ValueView::Vector(*k, v@),
            Value::View(k, v) => ValueView::View(*k, v@),
            Value::Tag(c, i) => ValueView::Tag(*c, *i),
            Value::Object(c, f) => ValueView::Object(*c, f@),
        }
    }
}

/// The views of a sequence of values.
pub open spec fn views(s: Seq<Value>) -> Seq<ValueView> {
    s.map_values(|v: Value| v@)
}

/// The type identities of a sequence of values.
pub open spec fn type_keys(s: Seq<ValueView>) -> Seq<TypeKey> {
    s.map_values(|v: ValueView| v.type_key())
}

impl Number {
    pub fn kind_of(&self) -> (r: NumKind)
        ensures
            r == self.kind(),
    {
        match self {
            Number::I32(_) => NumKind::I32,
            Number::U32(_) => NumKind::U32,
            Number::I64(_) => NumKind::I64,
            Number::U64(_) => NumKind::U64,
            Number::F64(_) => NumKind::F64,
        }
    }
}

impl Value {
    /// The type identity of this value.
    pub fn type_key(&self) -> (r: TypeKey)
        ensures
            r == self@.type_key(),
    {
        match self {
            Value::Num(n) => TypeKey::Num(n.kind_of()),
            Value::Text(_) => TypeKey::Text,
            Value::Vector(k, _) => TypeKey::Vector(*k),
            Value::View(k, _) => TypeKey::View(*k),
            Value::Tag(c, _) => TypeKey::User(*c),
            Value::Object(c, _) => TypeKey::User(*c),
        }
    }
}

} // verus!
