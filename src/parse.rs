//! The DDL front end: value types, tuple definitions and `CREATE` commands.
use vstd::prelude::*;
use crate::Error;
use crate::scan::{
    skip_ws, kw_at, char_at, ident_spec, uint_spec, chars_of, string_of_range, skip_ws_at, ident_run_at,
    char_at_exec, is_alpha_at, kw_at_exec, uint_at, lemma_skip_ws,
};
use crate::tuple::{TupleDef, TupleEntry, FieldView, field_views};
use crate::value_type::ValueType;
use crate::model::{Model, ModelType, SchemaView, Table, Document, GeoHash, Graph, TimeSeries};
use crate::command::Command;
use crate::text::string_of;
use vstd::string::StringExecFns;

verus! {

pub open spec fn kw_bool() -> Seq<char> { seq!['b', 'o', 'o', 'l'] }
pub open spec fn kw_unsigned() -> Seq<char> { seq!['u', 'n', 's', 'i', 'g', 'n', 'e', 'd'] }
pub open spec fn kw_int() -> Seq<char> { seq!['i', 'n', 't'] }
pub open spec fn kw_float() -> Seq<char> { seq!['f', 'l', 'o', 'a', 't'] }
pub open spec fn kw_str() -> Seq<char> { seq!['s', 't', 'r'] }
pub open spec fn kw_nullable() -> Seq<char> { seq!['n', 'u', 'l', 'l', 'a', 'b', 'l', 'e'] }
pub open spec fn kw_vector() -> Seq<char> { seq!['v', 'e', 'c', 't', 'o', 'r'] }
pub open spec fn kw_autoid() -> Seq<char> { seq!['a', 'u', 't', 'o', 'i', 'd'] }
pub open spec fn kw_create() -> Seq<char> { seq!['c', 'r', 'e', 'a', 't', 'e'] }
pub open spec fn kw_table() -> Seq<char> { seq!['t', 'a', 'b', 'l', 'e'] }
pub open spec fn kw_document() -> Seq<char> { seq!['d', 'o', 'c', 'u', 'm', 'e', 'n', 't'] }
pub open spec fn kw_geohash() -> Seq<char> { seq!['g', 'e', 'o', 'h', 'a', 's', 'h'] }
pub open spec fn kw_graph() -> Seq<char> { seq!['g', 'r', 'a', 'p', 'h'] }
pub open spec fn kw_timeseries() -> Seq<char> { seq!['t', 'i', 'm', 'e', 's', 'e', 'r', 'i', 'e', 's'] }

/// `( n )`: a size in parentheses, whitespace allowed around each part.
pub open spec fn size_spec(s: Seq<char>, i: int) -> Option<(u64, int)> {
    let p = skip_ws(s, i);
    if char_at(s, p, '(') {
        match uint_spec(s, skip_ws(s, p + 1)) {
            Some((n, e)) => if char_at(s, skip_ws(s, e), ')') { Some((n, skip_ws(s, e) + 1)) } else { None },
            None => None,
        }
    } else {
        None
    }
}

/// A value type at `i` (after optional whitespace): `bool`, `unsigned int`,
/// `int`, `float`, `str` with an optional `(n)`, `nullable <type>`,
/// `vector(n) <type>` or `autoid`, keywords in any case. The type and where it ends.
pub open spec fn vt_spec(s: Seq<char>, i: int) -> Option<(ValueType, int)>
    decreases s.len() - i,
{
    let p = skip_ws(s, i);
    if p < i {
        None
    } else if kw_at(s, p, kw_bool()) {
        Some((ValueType::Bool, p + 4))
    } else if kw_at(s, p, kw_unsigned()) && kw_at(s, skip_ws(s, p + 8), kw_int()) {
        Some((ValueType::Uint, skip_ws(s, p + 8) + 3))
    } else if kw_at(s, p, kw_int()) {
        Some((ValueType::Int, p + 3))
    } else if kw_at(s, p, kw_float()) {
        Some((ValueType::Float, p + 5))
    } else if kw_at(s, p, kw_str()) {
        match size_spec(s, p + 3) {
            Some((n, e)) => Some((ValueType::Str(n), e)),
            None => Some((ValueType::Str(0), p + 3)),
        }
    } else if kw_at(s, p, kw_nullable()) {
        match vt_spec(s, p + 8) {
            Some((t, e)) => Some((ValueType::Nullable(Box::new(t)), e)),
            None => None,
        }
    } else if kw_at(s, p, kw_vector()) {
        match size_spec(s, p + 6) {
            Some((n, e)) => if e > i {
                match vt_spec(s, e) {
                    Some((t, e2)) => Some((ValueType::Vector(n, Box::new(t)), e2)),
                    None => None,
                }
            } else {
                None
            },
            None => None,
        }
    } else if kw_at(s, p, kw_autoid()) {
        Some((ValueType::AutoId, p + 6))
    } else {
        None
    }
}


fn size_at(s: &Vec<char>, i: usize) -> (r: Option<(u64, usize)>)
    requires
        i <= s@.len(),
    ensures
        match size_spec(s@, i as int) {
            Some((n, e)) => r matches Some((n2, e2)) && n2 == n && e2 == e,
            None => r is None,
        },
        r matches Some((n, e)) ==> i < e <= s@.len(),
{
    let len = s.len();
    let p = skip_ws_at(s, i);
    if !char_at_exec(s, p, '(') {
        return None;
    }
    let q = skip_ws_at(s, p + 1);
    proof {
        lemma_skip_ws(s@, i as int);
        lemma_skip_ws(s@, p + 1);
    }
    match uint_at(s, q) {
        Some((n, e)) => {
            proof { crate::scan::lemma_uint_end(s@, q as int); }
            let c = skip_ws_at(s, e);
            proof { lemma_skip_ws(s@, e as int); }
            if char_at_exec(s, c, ')') {
                Some((n, c + 1))
            } else {
                None
            }
        },
        None => None,
    }
}

/// Parses a value type at `i` (see `vt_spec`).
pub fn value_type_at(s: &Vec<char>, i: usize) -> (r: Option<(ValueType, usize)>)
    requires
        i <= s@.len(),
    ensures
        match vt_spec(s@, i as int) {
            Some((t, e)) => r matches Some((t2, e2)) && t2 == t && e2 == e,
            None => r is None,
        },
        r matches Some((t, e)) ==> i < e <= s@.len(),
    decreases s@.len() - i,
{
    let len = s.len();
    let p = skip_ws_at(s, i);
    proof { lemma_skip_ws(s@, i as int); }
    let k_bool = ['b', 'o', 'o', 'l'];
    assert(k_bool@ =~= kw_bool());
    let k_unsigned = ['u', 'n', 's', 'i', 'g', 'n', 'e', 'd'];
    assert(k_unsigned@ =~= kw_unsigned());
    let k_int = ['i', 'n', 't'];
    assert(k_int@ =~= kw_int());
    let k_float = ['f', 'l', 'o', 'a', 't'];
    assert(k_float@ =~= kw_float());
    let k_str = ['s', 't', 'r'];
    assert(k_str@ =~= kw_str());
    let k_nullable = ['n', 'u', 'l', 'l', 'a', 'b', 'l', 'e'];
    assert(k_nullable@ =~= kw_nullable());
    let k_vector = ['v', 'e', 'c', 't', 'o', 'r'];
    assert(k_vector@ =~= kw_vector());
    let k_autoid = ['a', 'u', 't', 'o', 'i', 'd'];
    assert(k_autoid@ =~= kw_autoid());
    if kw_at_exec(s, p, &k_bool) {
        Some((ValueType::Bool, p + 4))
    } else if kw_at_exec(s, p, &k_unsigned)
        && kw_at_exec(s, skip_ws_at(s, p + 8), &k_int) {
        let q = skip_ws_at(s, p + 8);
        proof { lemma_skip_ws(s@, p + 8); }
        Some((ValueType::Uint, q + 3))
    } else if kw_at_exec(s, p, &k_int) {
        Some((ValueType::Int, p + 3))
    } else if kw_at_exec(s, p, &k_float) {
        Some((ValueType::Float, p + 5))
    } else if kw_at_exec(s, p, &k_str) {
        match size_at(s, p + 3) {
            Some((n, e)) => Some((ValueType::Str(n), e)),
            None => Some((ValueType::Str(0), p + 3)),
        }
    } else if kw_at_exec(s, p, &k_nullable) {
        match value_type_at(s, p + 8) {
            Some((t, e)) => Some((ValueType::Nullable(Box::new(t)), e)),
            None => None,
        }
    } else if kw_at_exec(s, p, &k_vector) {
        match size_at(s, p + 6) {
            Some((n, e)) => match value_type_at(s, e) {
                Some((t, e2)) => Some((ValueType::Vector(n, Box::new(t)), e2)),
                None => None,
            },
            None => None,
        }
    } else if kw_at_exec(s, p, &k_autoid) {
        Some((ValueType::AutoId, p + 6))
    } else {
        None
    }
}


/// `name type` at `i`.
pub open spec fn entry_spec(s: Seq<char>, i: int) -> Option<(FieldView, int)> {
    match ident_spec(s, skip_ws(s, i)) {
        Some((name, e)) => match vt_spec(s, e) {
            Some((t, e2)) => Some(((name, t), e2)),
            None => None,
        },
        None => None,
    }
}

/// After the fields `acc`: more `, name type` until `)`.
pub open spec fn fields_rest(s: Seq<char>, i: int, acc: Seq<FieldView>) -> Option<(Seq<FieldView>, int)>
    decreases s.len() - i,
{
    let q = skip_ws(s, i);
    if char_at(s, q, ',') {
        match entry_spec(s, q + 1) {
            Some((f, j)) => if i < j <= s.len() { fields_rest(s, j, acc.push(f)) } else { None },
            None => None,
        }
    } else if char_at(s, q, ')') {
        Some((acc, q + 1))
    } else {
        None
    }
}

/// A tuple definition `( name type, ... )` at `i`, possibly empty.
pub open spec fn tuple_spec(s: Seq<char>, i: int) -> Option<(Seq<FieldView>, int)> {
    let p = skip_ws(s, i);
    if char_at(s, p, '(') {
        match entry_spec(s, p + 1) {
            Some((f, j)) => fields_rest(s, j, seq![f]),
            None => if char_at(s, skip_ws(s, p + 1), ')') {
                Some((Seq::empty(), skip_ws(s, p + 1) + 1))
            } else {
                None
            },
        }
    } else {
        None
    }
}

fn entry_at(s: &Vec<char>, i: usize) -> (r: Option<(TupleEntry, usize)>)
    requires
        i <= s@.len(),
    ensures
        match entry_spec(s@, i as int) {
            Some((f, e)) => r matches Some((t, e2)) && (t.name@, t.value) == f && e2 == e,
            None => r is None,
        },
        r matches Some((t, e)) ==> i < e <= s@.len(),
{
    let len = s.len();
    let p = skip_ws_at(s, i);
    proof { lemma_skip_ws(s@, i as int); }
    if !is_alpha_at(s, p) {
        return None;
    }
    let e = ident_run_at(s, p + 1);
    let name = string_of_range(s, p, e);
    match value_type_at(s, e) {
        Some((t, e2)) => Some((TupleEntry { name, value: t }, e2)),
        None => None,
    }
}

fn tuple_at(s: &Vec<char>, i: usize) -> (r: Option<(TupleDef, usize)>)
    requires
        i <= s@.len(),
    ensures
        match tuple_spec(s@, i as int) {
            Some((fs, e)) => r matches Some((t, e2)) && field_views(t@) == fs && e2 == e,
            None => r is None,
        },
        r matches Some((t, e)) ==> i < e <= s@.len(),
{
    let len = s.len();
    let p = skip_ws_at(s, i);
    proof { lemma_skip_ws(s@, i as int); }
    if !char_at_exec(s, p, '(') {
        return None;
    }
    let mut fields: Vec<TupleEntry> = Vec::new();
    let mut j: usize;
    match entry_at(s, p + 1) {
        Some((f, e)) => {
            fields.push(f);
            j = e;
        },
        None => {
            let q = skip_ws_at(s, p + 1);
            proof { lemma_skip_ws(s@, p + 1); }
            if char_at_exec(s, q, ')') {
                let r = TupleDef(fields);
                assert(field_views(r@) =~= Seq::<FieldView>::empty());
                return Some((r, q + 1));
            } else {
                return None;
            }
        },
    }
    let ghost first = fields@;
    assert(field_views(fields@) =~= seq![(fields@[0].name@, fields@[0].value)]);
    loop
        invariant
            i <= p < j <= s@.len(),
            len == s@.len(),
            fields_rest(s@, j as int, field_views(fields@)) == tuple_spec(s@, i as int),
        decreases s@.len() - j,
    {
        let q = skip_ws_at(s, j);
        proof { lemma_skip_ws(s@, j as int); }
        if char_at_exec(s, q, ',') {
            match entry_at(s, q + 1) {
                Some((f, e)) => {
                    let ghost before = field_views(fields@);
                    fields.push(f);
                    assert(field_views(fields@) =~= before.push((f.name@, f.value)));
                    j = e;
                },
                None => return None,
            }
        } else if char_at_exec(s, q, ')') {
            return Some((TupleDef(fields), q + 1));
        } else {
            return None;
        }
    }
}

/// `;` after optional whitespace at `i`: the position after it.
pub open spec fn end_spec(s: Seq<char>, i: int) -> Option<int> {
    if char_at(s, skip_ws(s, i), ';') { Some(skip_ws(s, i) + 1) } else { None }
}

/// The name after a kind keyword ending at `k`, then `n` tuples, then `;`.
pub open spec fn named_tuples_spec(s: Seq<char>, k: int, n: nat)
    -> Option<(Seq<char>, Seq<FieldView>, Seq<FieldView>, int)>
{
    match ident_spec(s, skip_ws(s, k)) {
        Some((name, e)) => if n == 0 {
            match end_spec(s, e) {
                Some(e2) => Some((name, Seq::empty(), Seq::empty(), e2)),
                None => None,
            }
        } else {
            match tuple_spec(s, e) {
                Some((t1, e1)) => if n == 1 {
                    match end_spec(s, e1) {
                        Some(e2) => Some((name, t1, Seq::empty(), e2)),
                        None => None,
                    }
                } else {
                    match tuple_spec(s, e1) {
                        Some((t2, e2)) => match end_spec(s, e2) {
                            Some(e3) => Some((name, t1, t2, e3)),
                            None => None,
                        },
                        None => None,
                    }
                },
                None => None,
            }
        },
        None => None,
    }
}

/// `CREATE { TABLE | DOCUMENT | GEOHASH | GRAPH | TIMESERIES } name [tuple
/// [tuple]] ;` at `i`: the name, the schema and where the command ends.
pub open spec fn create_spec(s: Seq<char>, i: int) -> Option<(Seq<char>, SchemaView, int)> {
    let p = skip_ws(s, i);
    let k = skip_ws(s, p + 6);
    if !kw_at(s, p, kw_create()) {
        None
    } else if kw_at(s, k, kw_table()) {
        match named_tuples_spec(s, k + 5, 1) {
            Some((name, t, _, e)) => Some((name, SchemaView::Table(t), e)),
            None => None,
        }
    } else if kw_at(s, k, kw_document()) {
        match named_tuples_spec(s, k + 8, 0) {
            Some((name, _, _, e)) => Some((name, SchemaView::Document, e)),
            None => None,
        }
    } else if kw_at(s, k, kw_geohash()) {
        match named_tuples_spec(s, k + 7, 1) {
            Some((name, t, _, e)) => Some((name, SchemaView::GeoHash(t), e)),
            None => None,
        }
    } else if kw_at(s, k, kw_graph()) {
        match named_tuples_spec(s, k + 5, 2) {
            Some((name, t1, t2, e)) => Some((name, SchemaView::Graph(t1, t2), e)),
            None => None,
        }
    } else if kw_at(s, k, kw_timeseries()) {
        match named_tuples_spec(s, k + 10, 1) {
            Some((name, t, _, e)) => Some((name, SchemaView::TimeSeries(t), e)),
            None => None,
        }
    } else {
        None
    }
}

/// A whole command text: a create command with nothing but whitespace after it.
pub open spec fn command_spec(s: Seq<char>) -> Option<(Seq<char>, SchemaView)> {
    match create_spec(s, 0) {
        Some((name, v, e)) => if skip_ws(s, e) == s.len() { Some((name, v)) } else { None },
        None => None,
    }
}

fn end_at(s: &Vec<char>, i: usize) -> (r: Option<usize>)
    requires
        i <= s@.len(),
    ensures
        match end_spec(s@, i as int) {
            Some(e) => r matches Some(e2) && e2 == e,
            None => r is None,
        },
        r matches Some(e) ==> i < e <= s@.len(),
{
    let len = s.len();
    let q = skip_ws_at(s, i);
    proof { lemma_skip_ws(s@, i as int); }
    if char_at_exec(s, q, ';') { Some(q + 1) } else { None }
}

fn named_tuples_at(s: &Vec<char>, k: usize, n: usize) -> (r: Option<(String, TupleDef, TupleDef, usize)>)
    requires
        k <= s@.len(),
        n <= 2,
    ensures
        match named_tuples_spec(s@, k as int, n as nat) {
            Some((name, t1, t2, e)) => r matches Some((nm, d1, d2, e2)) && nm@ == name
                && field_views(d1@) == t1 && field_views(d2@) == t2 && e2 == e,
            None => r is None,
        },
        r matches Some((nm, d1, d2, e)) ==> e <= s@.len(),
{
    let len = s.len();
    let p = skip_ws_at(s, k);
    proof { lemma_skip_ws(s@, k as int); }
    if !is_alpha_at(s, p) {
        return None;
    }
    let e = ident_run_at(s, p + 1);
    let name = string_of_range(s, p, e);
    let empty1 = TupleDef(Vec::new());
    let empty2 = TupleDef(Vec::new());
    assert(field_views(empty1@) =~= Seq::<FieldView>::empty());
    assert(field_views(empty2@) =~= Seq::<FieldView>::empty());
    if n == 0 {
        return match end_at(s, e) {
            Some(e2) => Some((name, empty1, empty2, e2)),
            None => None,
        };
    }
    match tuple_at(s, e) {
        Some((t1, e1)) => {
            if n == 1 {
                match end_at(s, e1) {
                    Some(e2) => Some((name, t1, empty2, e2)),
                    None => None,
                }
            } else {
                match tuple_at(s, e1) {
                    Some((t2, e2)) => match end_at(s, e2) {
                        Some(e3) => Some((name, t1, t2, e3)),
                        None => None,
                    },
                    None => None,
                }
            }
        },
        None => None,
    }
}

fn create_at(s: &Vec<char>) -> (r: Option<(String, ModelType, usize)>)
    ensures
        match create_spec(s@, 0) {
            Some((name, v, e)) => r matches Some((nm, m, e2)) && nm@ == name && m.view() == v && e2 == e,
            None => r is None,
        },
        r matches Some((nm, m, e)) ==> e <= s@.len(),
{
    let len = s.len();
    let p = skip_ws_at(s, 0);
    proof { lemma_skip_ws(s@, 0); }
    let k_create = ['c', 'r', 'e', 'a', 't', 'e'];
    assert(k_create@ =~= kw_create());
    if !kw_at_exec(s, p, &k_create) {
        return None;
    }
    let k = skip_ws_at(s, p + 6);
    proof { lemma_skip_ws(s@, p + 6); }
    let k_table = ['t', 'a', 'b', 'l', 'e'];
    let k_document = ['d', 'o', 'c', 'u', 'm', 'e', 'n', 't'];
    let k_geohash = ['g', 'e', 'o', 'h', 'a', 's', 'h'];
    let k_graph = ['g', 'r', 'a', 'p', 'h'];
    let k_timeseries = ['t', 'i', 'm', 'e', 's', 'e', 'r', 'i', 'e', 's'];
    assert(k_table@ =~= kw_table());
    assert(k_document@ =~= kw_document());
    assert(k_geohash@ =~= kw_geohash());
    assert(k_graph@ =~= kw_graph());
    assert(k_timeseries@ =~= kw_timeseries());
    if kw_at_exec(s, k, &k_table) {
        match named_tuples_at(s, k + 5, 1) {
            Some((name, t, _, e)) => Some((name, ModelType::Table(Table { schema: t }), e)),
            None => None,
        }
    } else if kw_at_exec(s, k, &k_document) {
        match named_tuples_at(s, k + 8, 0) {
            Some((name, _, _, e)) => Some((name, ModelType::Document(Document {}), e)),
            None => None,
        }
    } else if kw_at_exec(s, k, &k_geohash) {
        match named_tuples_at(s, k + 7, 1) {
            Some((name, t, _, e)) => Some((name, ModelType::GeoHash(GeoHash { schema: t }), e)),
            None => None,
        }
    } else if kw_at_exec(s, k, &k_graph) {
        match named_tuples_at(s, k + 5, 2) {
            Some((name, t1, t2, e)) => Some((name, ModelType::Graph(Graph { node_schema: t1, edge_schema: t2 }), e)),
            None => None,
        }
    } else if kw_at_exec(s, k, &k_timeseries) {
        match named_tuples_at(s, k + 10, 1) {
            Some((name, t, _, e)) => Some((name, ModelType::TimeSeries(TimeSeries { schema: t }), e)),
            None => None,
        }
    } else {
        None
    }
}

fn parse_error(what: &str, input: &str) -> (r: Error)
    ensures
        r is ParseError,
{
    let mut msg = string_of(what);
    msg.append(input);
    Error::ParseError(msg)
}

/// Parses a command: `CREATE { TABLE | DOCUMENT | GEOHASH | GRAPH |
/// TIMESERIES } name [tuple [tuple]] ;`, keywords in any case. A parse
/// error when the text is no such command or holds more after it.
pub fn parse_command(input: &str) -> (r: Result<Command, Error>)
    ensures
        command_spec(input@) matches Some((name, v)) ==> r matches Ok(Command::CreateModel { name: n, schema })
            && n@ == name && schema.view() == v,
        command_spec(input@) is None ==> r matches Err(Error::ParseError(_)),
{
    let s = chars_of(input);
    match create_at(&s) {
        Some((name, m, e)) => {
            let q = skip_ws_at(&s, e);
            if q == s.len() {
                Ok(Command::CreateModel { name, schema: Box::new(m) })
            } else {
                Err(parse_error("Parsed statement contained additional unparsed content: ", input))
            }
        },
        None => Err(parse_error("Parse error: ", input)),
    }
}

/// The same grammar as `parse_command`, for schema definitions.
pub fn parse_ddl(input: &str) -> (r: Result<Command, Error>)
    ensures
        command_spec(input@) matches Some((name, v)) ==> r matches Ok(Command::CreateModel { name: n, schema })
            && n@ == name && schema.view() == v,
        command_spec(input@) is None ==> r matches Err(Error::ParseError(_)),
{
    parse_command(input)
}

impl Model {
    /// The model that a create command's DDL describes; a parse error for
    /// text that is not one.
    pub fn from_ddl(ddl: &str) -> (r: Result<Model, Error>)
        ensures
            command_spec(ddl@) matches Some((name, v)) ==> r matches Ok(m) && m.name@ == name && m.schema.view() == v,
            command_spec(ddl@) is None ==> r matches Err(Error::ParseError(_)),
    {
        match parse_command(ddl) {
            Ok(Command::CreateModel { name, schema }) => Ok(Model { name, schema }),
            Ok(_) => Err(parse_error("invalid DDL: ", ddl)),
            Err(e) => Err(e),
        }
    }
}

} // verus!
