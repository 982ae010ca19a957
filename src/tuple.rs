//! Tuple schemas: ordered lists of named, typed fields.
use vstd::prelude::*;
use crate::value_type::{ValueType, is_known, sizable, size_spec, ddl_spec};
use vstd::string::StringExecFns;

verus! {

/// One field of a tuple: its name and value type.
#[derive(Debug, PartialEq)]
pub struct TupleEntry {
    pub name: String,
    pub value: ValueType,
}

/// An ordered sequence of fields.
#[derive(Debug, PartialEq)]
pub struct TupleDef(pub Vec<TupleEntry>);

/// A field as text and type.
pub type FieldView = (Seq<char>, ValueType);

/// The fields of a tuple as names and types.
pub open spec fn field_views(es: Seq<TupleEntry>) -> Seq<FieldView> {
    es.map_values(|e: TupleEntry| (e.name@, e.value))
}

/// The DDL text of one field: its name, a space and its type.
pub open spec fn entry_ddl(e: FieldView) -> Seq<char> {
    e.0 + " "@ + ddl_spec(e.1)
}

/// The fields' DDL texts joined by `", "`.
pub open spec fn entries_ddl(es: Seq<FieldView>) -> Seq<char>
    decreases es.len(),
{
    if es.len() == 0 {
        Seq::empty()
    } else if es.len() == 1 {
        entry_ddl(es[0])
    } else {
        entries_ddl(es.drop_last()) + ", "@ + entry_ddl(es.last())
    }
}

/// The DDL text of a tuple: its fields in parentheses.
pub open spec fn tuple_ddl(es: Seq<FieldView>) -> Seq<char> {
    "("@ + entries_ddl(es) + ")"@
}

/// The sum of the sizes of the fields.
pub open spec fn tuple_size(es: Seq<TupleEntry>) -> nat
    decreases es.len(),
{
    if es.len() == 0 {
        0
    } else {
        tuple_size(es.drop_last()) + size_spec(es.last().value)
    }
}

/// Every field's type is free of `Unknown`.
pub open spec fn tuple_known(es: Seq<TupleEntry>) -> bool {
    forall|i: int| 0 <= i < es.len() ==> is_known(#[trigger] es[i].value)
}

/// Every field's size is computable and the total fits in a `u64`.
pub open spec fn tuple_sizable(es: Seq<TupleEntry>) -> bool {
    &&& forall|i: int| 0 <= i < es.len() ==> sizable(#[trigger] es[i].value)
    &&& tuple_size(es) <= u64::MAX
}

proof fn lemma_prefix_size(es: Seq<TupleEntry>, i: int)
    requires
        0 <= i <= es.len(),
    ensures
        tuple_size(es.subrange(0, i)) <= tuple_size(es),
    decreases es.len(),
{
    if i < es.len() {
        assert(es.drop_last() =~= es.subrange(0, es.len() - 1));
        lemma_prefix_size(es.drop_last(), i);
        assert(es.drop_last().subrange(0, i) =~= es.subrange(0, i));
    } else {
        assert(es.subrange(0, i) =~= es);
    }
}

impl Clone for TupleEntry {
    fn clone(&self) -> (r: Self)
        ensures
            r == *self,
    {
        TupleEntry { name: self.name.clone(), value: self.value.clone() }
    }
}

impl Clone for TupleDef {
    fn clone(&self) -> (r: Self)
        ensures
            r@ == self@,
    {
        let mut v: Vec<TupleEntry> = Vec::new();
        let mut i: usize = 0;
        while i < self.0.len()
            invariant
                i <= self.0@.len(),
                v@ == self.0@.subrange(0, i as int),
            decreases self.0@.len() - i,
        {
            v.push(self.0[i].clone());
            i += 1;
            assert(v@ =~= self.0@.subrange(0, i as int));
        }
        assert(v@ =~= self.0@);
        TupleDef(v)
    }
}

impl TupleEntry {
    /// The DDL text of this field.
    pub fn to_ddl(&self) -> (r: String)
        requires
            is_known(self.value),
        ensures
            r@ == entry_ddl((self.name@, self.value)),
    {
        let mut s = self.name.clone();
        s.append(" ");
        self.value.push_ddl(&mut s);
        proof { reveal_strlit(" "); }
        assert(s@ =~= entry_ddl((self.name@, self.value)));
        s
    }
}

impl View for TupleDef {
    type V = Seq<TupleEntry>;

    open spec fn view(&self) -> Seq<TupleEntry> {
        self.0@
    }
}

impl TupleDef {
    /// The byte size of a record of this schema: the sum of its field sizes.
    pub fn size_of(&self) -> (r: u64)
        requires
            tuple_sizable(self@),
        ensures
            r == tuple_size(self@),
    {
        let mut size: u64 = 0;
        let mut i: usize = 0;
        while i < self.0.len()
            invariant
                i <= self@.len(),
                tuple_sizable(self@),
                size == tuple_size(self@.subrange(0, i as int)),
            decreases self@.len() - i,
        {
            proof {
                lemma_prefix_size(self@, i + 1);
                assert(self@.subrange(0, i + 1).drop_last() =~= self@.subrange(0, i as int));
            }
            let entry = &self.0[i];
            size = size + entry.value.size_of();
            i += 1;
        }
        assert(self@.subrange(0, i as int) =~= self@);
        size
    }

    /// True when no field's type holds `Unknown`.
    pub fn is_known(&self) -> (r: bool)
        ensures
            r == tuple_known(self@),
    {
        let mut i: usize = 0;
        while i < self.0.len()
            invariant
                i <= self@.len(),
                forall|j: int| 0 <= j < i ==> is_known(#[trigger] self@[j].value),
            decreases self@.len() - i,
        {
            if !self.0[i].value.is_known() {
                return false;
            }
            i += 1;
        }
        true
    }

    /// The DDL text of this schema: `(name type, name type, ...)`.
    pub fn to_ddl(&self) -> (r: String)
        requires
            tuple_known(self@),
        ensures
            r@ == tuple_ddl(field_views(self@)),
    {
        let mut s = String::from_str("(");
        let mut i: usize = 0;
        proof {
            reveal_strlit("(");
            reveal_strlit(", ");
            reveal_strlit(")");
            reveal_strlit(" ");
        }
        while i < self.0.len()
            invariant
                i <= self@.len(),
                tuple_known(self@),
                s@ == "("@ + entries_ddl(field_views(self@.subrange(0, i as int))),
            decreases self@.len() - i,
        {
            let ghost prev = s@;
            let ghost pre = field_views(self@.subrange(0, i as int));
            let ghost next = field_views(self@.subrange(0, i + 1));
            assert(next.drop_last() =~= pre);
            if i > 0 {
                s.append(", ");
            }
            let e = self.0[i].to_ddl();
            s.append(e.as_str());
            assert(s@ =~= "("@ + entries_ddl(next));
            i += 1;
        }
        s.append(")");
        assert(self@.subrange(0, i as int) =~= self@);
        assert(s@ =~= tuple_ddl(field_views(self@)));
        s
    }

    /// The field at `index`.
    pub fn index(&self, index: usize) -> (r: &TupleEntry)
        requires
            index < self@.len(),
        ensures
            *r == self@[index as int],
    {
        &self.0[index]
    }
}

} // verus!
