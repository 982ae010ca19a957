//! Field value types: byte sizes and DDL text.
use vstd::prelude::*;
use crate::text::{decimal, push_decimal};
use vstd::string::StringExecFns;

verus! {

/// The largest inline string length, in bytes.
pub const MAX_INLINE_STRING_LENGTH: u64 = 256;

/// Bytes taken on-page by an off-page string handle: a page id and an offset.
pub const OFF_PAGE_STRING_SIZE: u64 = 10;

/// A tagged description of a field.
#[derive(Debug, PartialEq)]
pub enum ValueType {
    /// Placeholder during type inference; illegal in a stored schema.
    Unknown,
    /// Auto-assigned unsigned identifier.
    AutoId,
    Bool,
    Uint,
    Int,
    Float,
    /// Inline string of bounded length; zero means variable length, stored off-page.
    Str(u64),
    Nullable(Box<ValueType>),
    Vector(u64, Box<ValueType>),
}

/// True when `Unknown` appears nowhere in `t`.
pub open spec fn is_known(t: ValueType) -> bool
    decreases t,
{
    match t {
        ValueType::Unknown => false,
        ValueType::Nullable(v) => is_known(*v),
        ValueType::Vector(_, v) => is_known(*v),
        _ => true,
    }
}

/// Bytes a value of type `t` occupies on a page.
pub open spec fn size_spec(t: ValueType) -> nat
    decreases t,
{
    match t {
        ValueType::Unknown => 0,
        ValueType::Bool => 1,
        ValueType::Str(n) => if n == 0 {
            OFF_PAGE_STRING_SIZE as nat
        } else if n > MAX_INLINE_STRING_LENGTH {
            MAX_INLINE_STRING_LENGTH as nat
        } else {
            n as nat
        },
        ValueType::Nullable(v) => 1 + size_spec(*v),
        ValueType::Vector(n, v) => (n as nat) * size_spec(*v),
        _ => 8,
    }
}

/// `t` holds no `Unknown` and its size, and that of every part, fits in a `u64`.
pub open spec fn sizable(t: ValueType) -> bool
    decreases t,
{
    &&& is_known(t)
    &&& size_spec(t) <= u64::MAX
    &&& match t {
        ValueType::Nullable(v) => sizable(*v),
        ValueType::Vector(_, v) => sizable(*v),
        _ => true,
    }
}

/// The DDL text of `t`.
pub open spec fn ddl_spec(t: ValueType) -> Seq<char>
    decreases t,
{
    match t {
        ValueType::Unknown => Seq::empty(),
        ValueType::AutoId => "autoid"@,
        ValueType::Bool => "bool"@,
        ValueType::Uint => "unsigned int"@,
        ValueType::Int => "int"@,
        ValueType::Float => "float"@,
        ValueType::Str(n) => if n > 0 {
            "str("@ + decimal(n as nat) + ")"@
        } else {
            "str"@
        },
        ValueType::Nullable(v) => "nullable "@ + ddl_spec(*v),
        ValueType::Vector(n, v) => "vector("@ + decimal(n as nat) + ") "@ + ddl_spec(*v),
    }
}

impl Clone for ValueType {
    fn clone(&self) -> (r: Self)
        ensures
            r == *self,
        decreases *self,
    {
        match self {
            ValueType::Unknown => ValueType::Unknown,
            ValueType::AutoId => ValueType::AutoId,
            ValueType::Bool => ValueType::Bool,
            ValueType::Uint => ValueType::Uint,
            ValueType::Int => ValueType::Int,
            ValueType::Float => ValueType::Float,
            ValueType::Str(n) => ValueType::Str(*n),
            ValueType::Nullable(v) => ValueType::Nullable(Box::new((**v).clone())),
            ValueType::Vector(n, v) => ValueType::Vector(*n, Box::new((**v).clone())),
        }
    }
}

impl ValueType {
    /// True when `Unknown` appears nowhere in this type.
    pub fn is_known(&self) -> (r: bool)
        ensures
            r == is_known(*self),
        decreases *self,
    {
        match self {
            ValueType::Unknown => false,
            ValueType::Nullable(v) => v.is_known(),
            ValueType::Vector(_, v) => v.is_known(),
            _ => true,
        }
    }

    /// Size required for a value of this type, in bytes.
    pub fn size_of(&self) -> (r: u64)
        requires
            sizable(*self),
        ensures
            r == size_spec(*self),
        decreases *self,
    {
        match self {
            ValueType::Unknown => 0,
            ValueType::Bool => 1,
            ValueType::Uint => 8,
            ValueType::Int => 8,
            ValueType::Float => 8,
            ValueType::AutoId => 8,
            ValueType::Str(n) => {
                if *n == 0 {
                    OFF_PAGE_STRING_SIZE
                } else if *n > MAX_INLINE_STRING_LENGTH {
                    MAX_INLINE_STRING_LENGTH
                } else {
                    *n
                }
            },
            ValueType::Nullable(v) => 1 + v.size_of(),
            ValueType::Vector(n, v) => {
                let inner = v.size_of();
                *n * inner
            },
        }
    }

    /// Appends the DDL text of this type to `s`.
    pub fn push_ddl(&self, s: &mut String)
        requires
            is_known(*self),
        ensures
            final(s)@ == old(s)@ + ddl_spec(*self),
        decreases *self,
    {
        proof {
            reveal_strlit("autoid");
            reveal_strlit("bool");
            reveal_strlit("unsigned int");
            reveal_strlit("int");
            reveal_strlit("float");
            reveal_strlit("str(");
            reveal_strlit(")");
            reveal_strlit("str");
            reveal_strlit("nullable ");
            reveal_strlit("vector(");
            reveal_strlit(") ");
        }
        let ghost s0 = s@;
        match self {
            ValueType::Unknown => {},
            ValueType::AutoId => s.append("autoid"),
            ValueType::Bool => s.append("bool"),
            ValueType::Uint => s.append("unsigned int"),
            ValueType::Int => s.append("int"),
            ValueType::Float => s.append("float"),
            ValueType::Str(n) => {
                if *n > 0 {
                    s.append("str(");
                    push_decimal(s, *n);
                    s.append(")");
                    assert(s@ =~= s0 + ("str("@ + decimal(*n as nat) + ")"@));
                } else {
                    s.append("str");
                }
            },
            ValueType::Nullable(v) => {
                s.append("nullable ");
                v.push_ddl(s);
                assert(s@ =~= s0 + ("nullable "@ + ddl_spec(**v)));
            },
            ValueType::Vector(n, v) => {
                s.append("vector(");
                push_decimal(s, *n);
                s.append(") ");
                v.push_ddl(s);
                assert(s@ =~= s0 + ("vector("@ + decimal(*n as nat) + ") "@ + ddl_spec(**v)));
            },
        }
    }

    /// The DDL text of this type, as the parser reads it back.
    pub fn to_ddl(&self) -> (r: String)
        requires
            is_known(*self),
        ensures
            r@ == ddl_spec(*self),
    {
        let mut s = String::new();
        self.push_ddl(&mut s);
        assert(s@ =~= ddl_spec(*self));
        s
    }
}

} // verus!
