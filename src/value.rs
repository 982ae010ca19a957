//! Field values as stored on a page: the raw eight bytes of a bool, an
//! unsigned or signed integer, or a float.
use vstd::prelude::*;
use crate::dbfile::{le_value, le_bytes, read_u64_at, write_u64_at};
use crate::value_type::ValueType;

verus! {

/// A fixed-size field value, held as its 64 bits (an `Int` in two's
/// complement, a `Float` in IEEE 754 form); two values are equal when their
/// bits are.
#[derive(Debug, PartialEq, Eq, Clone, Copy, Structural)]
pub struct Value {
    pub bits: u64,
}

/// Bytes that a value of type `t` occupies when encoded; zero for types that
/// have no fixed-size encoding.
pub open spec fn encoded_len(t: ValueType) -> nat {
    match t {
        ValueType::Bool => 1,
        ValueType::Uint | ValueType::Int | ValueType::Float => 8,
        _ => 0,
    }
}

impl Value {
    pub fn from_bits(bits: u64) -> (r: Value)
        ensures
            r.bits == bits,
    {
        Value { bits }
    }

    pub fn from_bool(b: bool) -> (r: Value)
        ensures
            r.bits == if b { 1u64 } else { 0u64 },
    {
        Value { bits: if b { 1 } else { 0 } }
    }

    pub fn from_uint(n: u64) -> (r: Value)
        ensures
            r.bits == n,
    {
        Value { bits: n }
    }

    pub fn from_int(n: i64) -> (r: Value)
        ensures
            r.bits == n as u64,
    {
        Value { bits: n as u64 }
    }

    /// Decodes a value of type `value_type` from the start of `bytes`: a bool
    /// from one byte (nonzero is true), the numeric types from eight
    /// little-endian bytes. `None` for other types.
    pub fn from_bytes(bytes: &[u8], value_type: &ValueType) -> (r: Option<Value>)
        requires
            bytes@.len() >= encoded_len(*value_type),
        ensures
            match *value_type {
                ValueType::Bool => r == Some(Value { bits: if bytes@[0] != 0 { 1u64 } else { 0u64 } }),
                ValueType::Uint | ValueType::Int | ValueType::Float =>
                    r == Some(Value { bits: le_value(bytes@.subrange(0, 8)) }),
                _ => r is None,
            },
    {
        match value_type {
            ValueType::Bool => Some(Value { bits: if bytes[0] != 0 { 1 } else { 0 } }),
            ValueType::Uint | ValueType::Int | ValueType::Float => Some(Value { bits: read_u64_at(bytes, 0) }),
            _ => None,
        }
    }

    /// Encodes the value as type `value_type` at the start of `bytes`: a bool
    /// as one byte (1 for nonzero bits), the numeric types as eight
    /// little-endian bytes. Other types write nothing.
    pub fn to_bytes(&self, bytes: &mut Vec<u8>, value_type: &ValueType)
        requires
            old(bytes)@.len() >= encoded_len(*value_type),
        ensures
            match *value_type {
                ValueType::Bool => final(bytes)@ == old(bytes)@.update(0, if self.bits != 0 { 1u8 } else { 0u8 }),
                ValueType::Uint | ValueType::Int | ValueType::Float =>
                    final(bytes)@ == le_bytes(self.bits) + old(bytes)@.subrange(8, old(bytes)@.len() as int),
                _ => final(bytes)@ == old(bytes)@,
            },
    {
        match value_type {
            ValueType::Bool => bytes.set(0, if self.bits != 0 { 1 } else { 0 }),
            ValueType::Uint | ValueType::Int | ValueType::Float => {
                write_u64_at(bytes, 0, self.bits);
                assert(bytes@ =~= le_bytes(self.bits) + old(bytes)@.subrange(8, old(bytes)@.len() as int));
            },
            _ => {},
        }
    }
}

} // verus!
