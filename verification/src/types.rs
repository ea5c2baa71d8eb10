//! The structured values a successful parse produces, with their
//! mathematical views.

use crate::grammar::SpecDescriptor;
use crate::grammar::SpecFieldType;
use crate::grammar::SpecMethodType;
use crate::grammar::SpecSingleType;
use vstd::prelude::*;

verus! {

/// A base type, without array data: one of the eight primitive codes or a
/// reference type carrying its class name.
#[derive(Debug, Clone, PartialEq, Eq, Hash)]
pub enum SingleType {
    Byte,
    Char,
    Double,
    Float,
    Int,
    Long,
    Reference(String),
    Short,
    Boolean,
}

impl View for SingleType {
    type V = SpecSingleType;

    open spec fn view(&self) -> SpecSingleType {
        match self {
            SingleType::Byte => SpecSingleType::Byte,
            SingleType::Char => SpecSingleType::Char,
            SingleType::Double => SpecSingleType::Double,
            SingleType::Float => SpecSingleType::Float,
            SingleType::Int => SpecSingleType::Int,
            SingleType::Long => SpecSingleType::Long,
            SingleType::Reference(name) => SpecSingleType::Reference(name@),
            SingleType::Short => SpecSingleType::Short,
            SingleType::Boolean => SpecSingleType::Boolean,
        }
    }
}

/// A field descriptor: a base type together with its array nesting depth.
/// A depth of 0 means the value is not an array.
#[derive(Debug, Clone, PartialEq, Eq, Hash)]
pub struct FieldType {
    pub base: SingleType,
    pub array_cnt: u8,
}

impl View for FieldType {
    type V = SpecFieldType;

    open spec fn view(&self) -> SpecFieldType {
        SpecFieldType { base: self.base@, array_cnt: self.array_cnt as nat }
    }
}

impl From<SingleType> for FieldType {
    /// Wraps a base type as a field descriptor with no array nesting.
    fn from(v: SingleType) -> (r: Self) {
        FieldType { base: v, array_cnt: 0 }
    }
}

impl vstd::std_specs::convert::FromSpecImpl<SingleType> for FieldType {
    open spec fn obeys_from_spec() -> bool {
        true
    }

    open spec fn from_spec(v: SingleType) -> Self {
        FieldType { base: v, array_cnt: 0 }
    }
}

/// A method descriptor: the parameter types in declaration order and the
/// return type.
#[derive(Debug, Clone, PartialEq, Eq, Hash)]
pub struct MethodType {
    pub params: Vec<FieldType>,
    pub ret: FieldType,
}

impl View for MethodType {
    type V = SpecMethodType;

    open spec fn view(&self) -> SpecMethodType {
        SpecMethodType {
            params: self.params@.map_values(|f: FieldType| f@),
            ret: self.ret@,
        }
    }
}

/// A descriptor of either kind: the result type for an input whose kind is
/// not known beforehand.
#[derive(Debug, Clone, PartialEq, Eq, Hash)]
pub enum Descriptor {
    Field(FieldType),
    Method(MethodType),
}

impl View for Descriptor {
    type V = SpecDescriptor;

    open spec fn view(&self) -> SpecDescriptor {
        match self {
            Descriptor::Field(f) => SpecDescriptor::Field(f@),
            Descriptor::Method(m) => SpecDescriptor::Method(m@),
        }
    }
}

impl From<FieldType> for Descriptor {
    /// Wraps a field descriptor in the tagged result type.
    fn from(v: FieldType) -> (r: Self) {
        Descriptor::Field(v)
    }
}

impl vstd::std_specs::convert::FromSpecImpl<FieldType> for Descriptor {
    open spec fn obeys_from_spec() -> bool {
        true
    }

    open spec fn from_spec(v: FieldType) -> Self {
        Descriptor::Field(v)
    }
}

impl From<MethodType> for Descriptor {
    /// Wraps a method descriptor in the tagged result type.
    fn from(v: MethodType) -> (r: Self) {
        Descriptor::Method(v)
    }
}

impl vstd::std_specs::convert::FromSpecImpl<MethodType> for Descriptor {
    open spec fn obeys_from_spec() -> bool {
        true
    }

    open spec fn from_spec(v: MethodType) -> Self {
        Descriptor::Method(v)
    }
}

} // verus!
