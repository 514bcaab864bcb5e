use vstd::prelude::*;
use crate::entity::{Entity, EntityMap, map_entity};

verus! {

/// The primitive types that every registry knows from the start.
#[derive(Clone, Copy, Debug, PartialEq, Eq, Structural)]
pub enum Prim {
    Bool,
    U8,
    U16,
    U32,
    U64,
    U128,
    Usize,
    I8,
    I16,
    I32,
    I64,
    I128,
    Isize,
    Text,
}

/// Identity of a data type: a primitive, or a user type known by its name.
#[derive(Clone, Debug)]
pub enum TypeKey {
    Prim(Prim),
    Named(String),
}

/// What a type identity is, as a mathematical value.
pub enum KeyModel {
    Prim(Prim),
    Named(Seq<char>),
}

impl View for TypeKey {
    type V = KeyModel;

    open spec fn view(&self) -> KeyModel {
        match self {
            TypeKey::Prim(p) => KeyModel::Prim(*p),
            TypeKey::Named(s) => KeyModel::Named(s@),
        }
    }
}

/// The display name of a type.
pub open spec fn key_name(k: KeyModel) -> Seq<char> {
    match k {
        KeyModel::Named(s) => s,
        KeyModel::Prim(p) => match p {
            Prim::Bool => "bool"@,
            Prim::U8 => "u8"@,
            Prim::U16 => "u16"@,
            Prim::U32 => "u32"@,
            Prim::U64 => "u64"@,
            Prim::U128 => "u128"@,
            Prim::Usize => "usize"@,
            Prim::I8 => "i8"@,
            Prim::I16 => "i16"@,
            Prim::I32 => "i32"@,
            Prim::I64 => "i64"@,
            Prim::I128 => "i128"@,
            Prim::Isize => "isize"@,
            Prim::Text => "String"@,
        },
    }
}

fn prim_name(p: Prim) -> (r: &'static str)
    ensures
        r@ == key_name(KeyModel::Prim(p)),
{
    match p {
        Prim::Bool => "bool",
        Prim::U8 => "u8",
        Prim::U16 => "u16",
        Prim::U32 => "u32",
        Prim::U64 => "u64",
        Prim::U128 => "u128",
        Prim::Usize => "usize",
        Prim::I8 => "i8",
        Prim::I16 => "i16",
        Prim::I32 => "i32",
        Prim::I64 => "i64",
        Prim::I128 => "i128",
        Prim::Isize => "isize",
        Prim::Text => "String",
    }
}

impl TypeKey {
    /// Whether two keys name the same type.
    pub fn same(&self, other: &TypeKey) -> (r: bool)
        ensures
            r == (self@ == other@),
    {
        match (self, other) {
            (TypeKey::Prim(a), TypeKey::Prim(b)) => *a == *b,
            (TypeKey::Named(a), TypeKey::Named(b)) => *a == *b,
            _ => false,
        }
    }

    pub fn duplicate(&self) -> (r: TypeKey)
        ensures
            r@ == self@,
    {
        match self {
            TypeKey::Prim(p) => TypeKey::Prim(*p),
            TypeKey::Named(s) => TypeKey::Named(s.clone()),
        }
    }

    /// The display name of the type, as carried by errors.
    pub fn name(&self) -> (r: String)
        ensures
            r@ == key_name(self@),
    {
        match self {
            TypeKey::Prim(p) => prim_name(*p).to_owned(),
            TypeKey::Named(s) => s.clone(),
        }
    }
}

/// A value of one of the primitive scalar types.
#[derive(Clone, Copy, Debug, PartialEq, Eq, Structural)]
pub enum Scalar {
    Bool(bool),
    U8(u8),
    U16(u16),
    U32(u32),
    U64(u64),
    U128(u128),
    Usize(usize),
    I8(i8),
    I16(i16),
    I32(i32),
    I64(i64),
    I128(i128),
    Isize(isize),
}

/// One field of a user-defined record; `Ref` holds another entity's identity.
#[derive(Clone, Copy, Debug, PartialEq, Eq, Structural)]
pub enum Field {
    Int(i128),
    Uint(u128),
    Flag(bool),
    Ref(Entity),
}

/// A component or resource value: a scalar, a text, or a user record whose
/// type is known by name.
#[derive(Clone, Debug)]
pub enum Value {
    Scalar(Scalar),
    Text(String),
    Record(String, Vec<Field>),
}

/// What a value is, as a mathematical value.
pub enum ValueModel {
    Scalar(Scalar),
    Text(Seq<char>),
    Record(Seq<char>, Seq<Field>),
}

impl View for Value {
    type V = ValueModel;

    open spec fn view(&self) -> ValueModel {
        match self {
            Value::Scalar(x) => ValueModel::Scalar(*x),
            Value::Text(s) => ValueModel::Text(s@),
            Value::Record(n, f) => ValueModel::Record(n@, f@),
        }
    }
}

/// The model of an optional value.
pub open spec fn opt_view(o: Option<Value>) -> Option<ValueModel> {
    match o {
        Some(v) => Some(v@),
        None => None,
    }
}

pub open spec fn scalar_prim(x: Scalar) -> Prim {
    match x {
        Scalar::Bool(_) => Prim::Bool,
        Scalar::U8(_) => Prim::U8,
        Scalar::U16(_) => Prim::U16,
        Scalar::U32(_) => Prim::U32,
        Scalar::U64(_) => Prim::U64,
        Scalar::U128(_) => Prim::U128,
        Scalar::Usize(_) => Prim::Usize,
        Scalar::I8(_) => Prim::I8,
        Scalar::I16(_) => Prim::I16,
        Scalar::I32(_) => Prim::I32,
        Scalar::I64(_) => Prim::I64,
        Scalar::I128(_) => Prim::I128,
        Scalar::Isize(_) => Prim::Isize,
    }
}

/// The type of a value.
pub open spec fn key_of(v: ValueModel) -> KeyModel {
    match v {
        ValueModel::Scalar(x) => KeyModel::Prim(scalar_prim(x)),
        ValueModel::Text(_) => KeyModel::Prim(Prim::Text),
        ValueModel::Record(n, _) => KeyModel::Named(n),
    }
}

/// A field with its entity reference, if any, carried through `m`; a
/// reference that `m` does not know stays as it is.
pub open spec fn remap_field(f: Field, m: Map<u64, u64>) -> Field {
    match f {
        Field::Ref(e) => match map_entity(m, e) {
            Some(t) => Field::Ref(t),
            None => f,
        },
        _ => f,
    }
}

/// A value with every entity reference it holds carried through `m`.
pub open spec fn remap_value(v: ValueModel, m: Map<u64, u64>) -> ValueModel {
    match v {
        ValueModel::Record(n, fs) => ValueModel::Record(n, fs.map_values(|f: Field| remap_field(f, m))),
        _ => v,
    }
}

fn scalar_key(x: Scalar) -> (r: Prim)
    ensures
        r == scalar_prim(x),
{
    match x {
        Scalar::Bool(_) => Prim::Bool,
        Scalar::U8(_) => Prim::U8,
        Scalar::U16(_) => Prim::U16,
        Scalar::U32(_) => Prim::U32,
        Scalar::U64(_) => Prim::U64,
        Scalar::U128(_) => Prim::U128,
        Scalar::Usize(_) => Prim::Usize,
        Scalar::I8(_) => Prim::I8,
        Scalar::I16(_) => Prim::I16,
        Scalar::I32(_) => Prim::I32,
        Scalar::I64(_) => Prim::I64,
        Scalar::I128(_) => Prim::I128,
        Scalar::Isize(_) => Prim::Isize,
    }
}

impl Value {
    /// The type of this value.
    pub fn key(&self) -> (r: TypeKey)
        ensures
            r@ == key_of(self@),
    {
        match self {
            Value::Scalar(x) => TypeKey::Prim(scalar_key(*x)),
            Value::Text(_) => TypeKey::Prim(Prim::Text),
            Value::Record(n, _) => TypeKey::Named(n.clone()),
        }
    }

    /// Whether this value is of type `k`.
    pub fn has_key(&self, k: &TypeKey) -> (r: bool)
        ensures
            r == (key_of(self@) == k@),
    {
        match (self, k) {
            (Value::Scalar(x), TypeKey::Prim(p)) => scalar_key(*x) == *p,
            (Value::Text(_), TypeKey::Prim(p)) => *p == Prim::Text,
            (Value::Record(n, _), TypeKey::Named(m)) => *n == *m,
            _ => false,
        }
    }

    /// An independent copy of this value.
    pub fn duplicate(&self) -> (r: Value)
        ensures
            r@ == self@,
    {
        match self {
            Value::Scalar(x) => Value::Scalar(*x),
            Value::Text(s) => Value::Text(s.clone()),
            Value::Record(n, fs) => {
                let mut out: Vec<Field> = Vec::new();
                let mut i: usize = 0;
                while i < fs.len()
                    invariant
                        i <= fs@.len(),
                        out@ == fs@.subrange(0, i as int),
                    decreases fs@.len() - i,
                {
                    out.push(fs[i]);
                    i = i + 1;
                }
                assert(out@ =~= fs@);
                Value::Record(n.clone(), out)
            },
        }
    }

    /// Carries every entity reference held by this value through `map`.
    pub fn map_entities(&mut self, map: &EntityMap)
        ensures
            final(self)@ == remap_value(old(self)@, map@),
    {
        match self {
            Value::Record(n, fs) => {
                let ghost before = fs@;
                let mut i: usize = 0;
                while i < fs.len()
                    invariant
                        i <= fs@.len(),
                        fs@.len() == before.len(),
                        forall|j: int| 0 <= j < i ==> fs@[j] == remap_field(before[j], map@),
                        forall|j: int| i <= j < fs@.len() ==> fs@[j] == before[j],
                    decreases fs@.len() - i,
                {
                    let f = fs[i];
                    if let Field::Ref(e) = f {
                        if let Some(t) = map.get(e) {
                            fs.set(i, Field::Ref(t));
                        }
                    }
                    i = i + 1;
                }
                assert(fs@ =~= before.map_values(|f: Field| remap_field(f, map@)));
            },
            _ => {},
        }
    }
}

} // verus!
