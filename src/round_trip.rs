//! Reading DDL back: the text that `to_ddl` writes for a value type parses to
//! that value type.
use vstd::prelude::*;
use crate::scan::{
    skip_ws, is_ws, is_digit, digit_run, digits_value, kw_at, ci_eq, uint_spec, char_at, is_alpha, is_ident_char,
    ident_run, ident_spec,
};
use crate::tuple::{FieldView, entry_ddl, entries_ddl, tuple_ddl};
use crate::text::{decimal, digit_char};
use crate::value_type::{ValueType, ddl_spec};
use crate::parse::{
    vt_spec, size_spec, kw_bool, kw_unsigned, kw_int, kw_float, kw_str, kw_nullable, kw_vector, kw_autoid, entry_spec,
    fields_rest, tuple_spec, end_spec, named_tuples_spec, create_spec, command_spec, kw_create, kw_table,
    kw_document, kw_geohash, kw_graph, kw_timeseries,
};
use crate::model::{SchemaView, model_ddl};

verus! {

/// The types whose DDL the grammar reads: those without `Unknown`.
pub open spec fn ddl_readable(t: ValueType) -> bool
    decreases t,
{
    match t {
        ValueType::Unknown => false,
        ValueType::Nullable(v) => ddl_readable(*v),
        ValueType::Vector(_, v) => ddl_readable(*v),
        _ => true,
    }
}

/// No `( ...` follows (after optional whitespace), so a bare `str` ends.
pub open spec fn no_size_follows(rest: Seq<char>) -> bool {
    !char_at(rest, skip_ws(rest, 0), '(')
}

proof fn lemma_digit_char(d: nat)
    requires
        d < 10,
    ensures
        is_digit(digit_char(d)),
        (digit_char(d) as u32) - 48 == d,
{
}

proof fn lemma_decimal(n: nat)
    ensures
        decimal(n).len() >= 1,
        forall|i: int| 0 <= i < decimal(n).len() ==> is_digit(#[trigger] decimal(n)[i]),
        digits_value(decimal(n)) == n,
    decreases n,
{
    if n < 10 {
        lemma_digit_char(n);
        let d = decimal(n);
        assert(d.drop_last() =~= Seq::<char>::empty());
        assert(d.last() == digit_char(n));
        assert(digits_value(d.drop_last()) == 0);
        assert(digits_value(d) == digits_value(d.drop_last()) * 10 + ((d.last() as u32) - 48) as nat);
    } else {
        lemma_decimal(n / 10);
        lemma_digit_char(n % 10);
        let d = decimal(n);
        assert(d.drop_last() =~= decimal(n / 10));
        assert(d.last() == digit_char(n % 10));
        assert(digits_value(d) == digits_value(d.drop_last()) * 10 + ((d.last() as u32) - 48) as nat);
        assert((n / 10) * 10 + n % 10 == n) by (nonlinear_arith);
    }
}

proof fn lemma_digit_run_to(s: Seq<char>, i: int, k: int)
    requires
        0 <= i,
        0 <= k,
        i + k <= s.len(),
        forall|j: int| 0 <= j < k ==> is_digit(#[trigger] s[i + j]),
        i + k == s.len() || !is_digit(s[i + k]),
    ensures
        digit_run(s, i) == i + k,
    decreases k,
{
    if k > 0 {
        assert(is_digit(s[i + 0]));
        assert forall|j: int| 0 <= j < k - 1 implies is_digit(#[trigger] s[(i + 1) + j]) by {
            assert(is_digit(s[i + (j + 1)]));
        }
        lemma_digit_run_to(s, i + 1, k - 1);
    }
}

proof fn lemma_skip_ws_shift(a: Seq<char>, b: Seq<char>, i: int)
    requires
        0 <= i,
    ensures
        skip_ws(a + b, a.len() + i) == a.len() + skip_ws(b, i),
    decreases b.len() - i,
{
    if i < b.len() {
        assert((a + b)[a.len() + i] == b[i]);
        if is_ws(b[i]) {
            lemma_skip_ws_shift(a, b, i + 1);
        }
    }
}

proof fn lemma_kw_match(s: Seq<char>, p: int, kw: Seq<char>)
    requires
        0 <= p,
        p + kw.len() <= s.len(),
        s.subrange(p, p + kw.len()) =~= kw,
    ensures
        kw_at(s, p, kw),
{
    assert forall|j: int| 0 <= j < kw.len() implies ci_eq(#[trigger] s[p + j], kw[j]) by {
        assert(s.subrange(p, p + kw.len())[j] == s[p + j]);
    }
}

proof fn lemma_kw_mismatch(s: Seq<char>, p: int, kw: Seq<char>)
    requires
        0 <= p < s.len(),
        kw.len() > 0,
        'a' <= s[p] && s[p] <= 'z',
        'a' <= kw[0] && kw[0] <= 'z',
        s[p] != kw[0],
    ensures
        !kw_at(s, p, kw),
{
    assert(!ci_eq(s[p + 0], kw[0]));
}

/// Stepping over leading whitespace does not change what `vt_spec` reads.
proof fn lemma_vt_from_ws(s: Seq<char>, i: int, j: int)
    requires
        0 <= i <= j,
        j < s.len(),
        forall|k: int| i <= k < j ==> is_ws(#[trigger] s[k]),
        !is_ws(s[j]),
    ensures
        skip_ws(s, i) == j,
        vt_spec(s, i) == vt_spec(s, j),
    decreases j - i,
{
    if i < j {
        assert(is_ws(s[i]));
        lemma_vt_from_ws(s, i + 1, j);
    }
}

/// The DDL of `t`, between any prefix and a suffix that opens no size, reads
/// back as `t` and ends right after it.
pub proof fn lemma_value_type_ddl_read_back(pre: Seq<char>, t: ValueType, rest: Seq<char>)
    requires
        ddl_readable(t),
        no_size_follows(rest),
    ensures
        vt_spec(pre + ddl_spec(t) + rest, pre.len() as int) == Some((t, pre.len() + ddl_spec(t).len() as int)),
    decreases t, 1int,
{
    match t {
        ValueType::Str(_) => lemma_read_back_str(pre, t, rest),
        ValueType::Nullable(_) => lemma_read_back_nullable(pre, t, rest),
        ValueType::Vector(_, _) => lemma_read_back_vector(pre, t, rest),
        ValueType::AutoId => lemma_read_back_autoid(pre, rest),
        _ => lemma_read_back_word(pre, t, rest),
    }
}

proof fn lemma_read_back_autoid(pre: Seq<char>, rest: Seq<char>)
    ensures
        vt_spec(pre + ddl_spec(ValueType::AutoId) + rest, pre.len() as int)
            == Some((ValueType::AutoId, pre.len() + ddl_spec(ValueType::AutoId).len() as int)),
{
    reveal_strlit("autoid");
    let d = ddl_spec(ValueType::AutoId);
    let s = pre + d + rest;
    let p = pre.len() as int;
    assert forall|j: int| 0 <= j < d.len() implies #[trigger] s[p + j] == d[j] by {}
    assert(s[p] == 'a');
    assert(skip_ws(s, p) == p);
    lemma_kw_mismatch(s, p, kw_bool());
    lemma_kw_mismatch(s, p, kw_unsigned());
    lemma_kw_mismatch(s, p, kw_int());
    lemma_kw_mismatch(s, p, kw_float());
    lemma_kw_mismatch(s, p, kw_str());
    lemma_kw_mismatch(s, p, kw_nullable());
    lemma_kw_mismatch(s, p, kw_vector());
    assert(s.subrange(p, p + 6) =~= kw_autoid());
    lemma_kw_match(s, p, kw_autoid());
}

proof fn lemma_read_back_word(pre: Seq<char>, t: ValueType, rest: Seq<char>)
    requires
        ddl_readable(t),
        t is Bool || t is Uint || t is Int || t is Float,
    ensures
        vt_spec(pre + ddl_spec(t) + rest, pre.len() as int) == Some((t, pre.len() + ddl_spec(t).len() as int)),
{
    reveal_strlit("bool");
    reveal_strlit("unsigned int");
    reveal_strlit("int");
    reveal_strlit("float");
    let d = ddl_spec(t);
    let s = pre + d + rest;
    let p = pre.len() as int;
    assert forall|j: int| 0 <= j < d.len() implies #[trigger] s[p + j] == d[j] by {}
    match t {
        ValueType::Bool => {
            assert(s[p] == 'b');
            assert(skip_ws(s, p) == p);
            assert(s.subrange(p, p + 4) =~= kw_bool());
            lemma_kw_match(s, p, kw_bool());
        },
        ValueType::Uint => {
            assert(s[p] == 'u');
            assert(skip_ws(s, p) == p);
            lemma_kw_mismatch(s, p, kw_bool());
            assert(s.subrange(p, p + 8) =~= kw_unsigned());
            lemma_kw_match(s, p, kw_unsigned());
            assert(s[p + 8] == ' ' && s[p + 9] == 'i');
            assert(skip_ws(s, p + 9) == p + 9);
            assert(skip_ws(s, p + 8) == p + 9);
            assert(s.subrange(p + 9, p + 12) =~= kw_int());
            lemma_kw_match(s, p + 9, kw_int());
        },
        ValueType::Int => {
            assert(s[p] == 'i');
            assert(skip_ws(s, p) == p);
            lemma_kw_mismatch(s, p, kw_bool());
            lemma_kw_mismatch(s, p, kw_unsigned());
            assert(s.subrange(p, p + 3) =~= kw_int());
            lemma_kw_match(s, p, kw_int());
        },
        _ => {
            assert(s[p] == 'f');
            assert(skip_ws(s, p) == p);
            lemma_kw_mismatch(s, p, kw_bool());
            lemma_kw_mismatch(s, p, kw_unsigned());
            lemma_kw_mismatch(s, p, kw_int());
            assert(s.subrange(p, p + 5) =~= kw_float());
            lemma_kw_match(s, p, kw_float());
        },
    }
}

/// `(n)` at `p` in `s`, with `n`'s digits: the size and where it ends.
proof fn lemma_size_read_back(s: Seq<char>, p: int, n: u64)
    requires
        0 <= p,
        p + 2 + decimal(n as nat).len() <= s.len(),
        s[p] == '(',
        s.subrange(p + 1, p + 1 + decimal(n as nat).len()) == decimal(n as nat),
        s[p + 1 + decimal(n as nat).len()] == ')',
    ensures
        size_spec(s, p) == Some((n, p + 2 + decimal(n as nat).len())),
{
    let dec = decimal(n as nat);
    lemma_decimal(n as nat);
    let l = dec.len() as int;
    assert(skip_ws(s, p) == p);
    assert forall|j: int| 0 <= j < l implies is_digit(#[trigger] s[(p + 1) + j]) by {
        assert(s.subrange(p + 1, p + 1 + l)[j] == s[p + 1 + j]);
    }
    assert(is_digit(s[(p + 1) + 0]));
    assert(skip_ws(s, p + 1) == p + 1);
    lemma_digit_run_to(s, p + 1, l);
    assert(uint_spec(s, p + 1) == Some((n, p + 1 + l)));
    assert(skip_ws(s, p + 1 + l) == p + 1 + l);
}

#[verifier::rlimit(100)]
#[verifier::spinoff_prover]
proof fn lemma_read_back_str(pre: Seq<char>, t: ValueType, rest: Seq<char>)
    requires
        t is Str,
        no_size_follows(rest),
    ensures
        vt_spec(pre + ddl_spec(t) + rest, pre.len() as int) == Some((t, pre.len() + ddl_spec(t).len() as int)),
{
    reveal_strlit("str(");
    reveal_strlit(")");
    reveal_strlit("str");
    let d = ddl_spec(t);
    let s = pre + d + rest;
    let p = pre.len() as int;
    let n = t->Str_0;
    assert forall|j: int| 0 <= j < d.len() implies #[trigger] s[p + j] == d[j] by {}
    assert(s[p] == 's');
    assert(skip_ws(s, p) == p);
    lemma_kw_mismatch(s, p, kw_bool());
    lemma_kw_mismatch(s, p, kw_unsigned());
    lemma_kw_mismatch(s, p, kw_int());
    lemma_kw_mismatch(s, p, kw_float());
    assert(s.subrange(p, p + 3) =~= kw_str());
    lemma_kw_match(s, p, kw_str());
    if n > 0 {
        let dec = decimal(n as nat);
        lemma_decimal(n as nat);
        let l = dec.len() as int;
        assert(d == "str("@ + dec + ")"@);
        assert(s.subrange(p + 4, p + 4 + l) =~= dec) by {
            assert forall|j: int| 0 <= j < l implies s.subrange(p + 4, p + 4 + l)[j] == dec[j] by {
                assert(s[p + (4 + j)] == d[4 + j]);
            }
        }
        assert(s[p + 4 + l] == d[4 + l]);
        lemma_size_read_back(s, p + 3, n);
    } else {
        assert(d == "str"@);
        lemma_skip_ws_shift(pre + d, rest, 0);
        assert(s == (pre + d) + rest);
        let k = skip_ws(rest, 0);
        crate::scan::lemma_skip_ws(rest, 0);
        if 0 <= k < rest.len() {
            assert(s[p + 3 + k] == rest[k]);
        }
        assert(size_spec(s, p + 3) is None);
    }
}

#[verifier::rlimit(100)]
#[verifier::spinoff_prover]
proof fn lemma_read_back_nullable(pre: Seq<char>, t: ValueType, rest: Seq<char>)
    requires
        t is Nullable,
        ddl_readable(t),
        no_size_follows(rest),
    ensures
        vt_spec(pre + ddl_spec(t) + rest, pre.len() as int) == Some((t, pre.len() + ddl_spec(t).len() as int)),
    decreases t, 0int,
{
    reveal_strlit("nullable ");
    let v = *(t->Nullable_0);
    let d = ddl_spec(t);
    let s = pre + d + rest;
    let p = pre.len() as int;
    let inner = ddl_spec(v);
    assert(d == "nullable "@ + inner);
    assert forall|j: int| 0 <= j < d.len() implies #[trigger] s[p + j] == d[j] by {}
    assert(s[p] == 'n');
    assert(skip_ws(s, p) == p);
    lemma_kw_mismatch(s, p, kw_bool());
    lemma_kw_mismatch(s, p, kw_unsigned());
    lemma_kw_mismatch(s, p, kw_int());
    lemma_kw_mismatch(s, p, kw_float());
    lemma_kw_mismatch(s, p, kw_str());
    assert(s.subrange(p, p + 8) =~= kw_nullable());
    lemma_kw_match(s, p, kw_nullable());
    let pre2 = pre + "nullable "@;
    lemma_value_type_ddl_read_back(pre2, v, rest);
    assert(pre2 + inner + rest =~= s);
    lemma_inner_starts(v);
    assert(s[p + 8] == ' ');
    assert(s[p + 9] == inner[0]);
    lemma_vt_from_ws(s, p + 8, p + 9);
}

/// Only the `vector` keyword matches at a `v`.
proof fn lemma_vector_keyword(s: Seq<char>, p: int)
    requires
        0 <= p,
        p + 6 <= s.len(),
        s.subrange(p, p + 6) =~= kw_vector(),
    ensures
        skip_ws(s, p) == p,
        !kw_at(s, p, kw_bool()),
        !kw_at(s, p, kw_unsigned()),
        !kw_at(s, p, kw_int()),
        !kw_at(s, p, kw_float()),
        !kw_at(s, p, kw_str()),
        !kw_at(s, p, kw_nullable()),
        kw_at(s, p, kw_vector()),
{
    assert(s[p] == s.subrange(p, p + 6)[0]);
    assert(s[p] == 'v');
    lemma_kw_mismatch(s, p, kw_bool());
    lemma_kw_mismatch(s, p, kw_unsigned());
    lemma_kw_mismatch(s, p, kw_int());
    lemma_kw_mismatch(s, p, kw_float());
    lemma_kw_mismatch(s, p, kw_str());
    lemma_kw_mismatch(s, p, kw_nullable());
    lemma_kw_match(s, p, kw_vector());
}

#[verifier::rlimit(100)]
#[verifier::spinoff_prover]
proof fn lemma_read_back_vector(pre: Seq<char>, t: ValueType, rest: Seq<char>)
    requires
        t is Vector,
        ddl_readable(t),
        no_size_follows(rest),
    ensures
        vt_spec(pre + ddl_spec(t) + rest, pre.len() as int) == Some((t, pre.len() + ddl_spec(t).len() as int)),
    decreases t, 0int,
{
    reveal_strlit("vector(");
    reveal_strlit(") ");
    let n = t->Vector_0;
    let v = *(t->Vector_1);
    let dec = decimal(n as nat);
    lemma_decimal(n as nat);
    let l = dec.len() as int;
    let inner = ddl_spec(v);
    let d = ddl_spec(t);
    let s = pre + d + rest;
    let p = pre.len() as int;
    assert(d == "vector("@ + dec + ") "@ + inner);
    assert forall|j: int| 0 <= j < d.len() implies #[trigger] s[p + j] == d[j] by {}
    assert(s.subrange(p, p + 6) =~= kw_vector());
    lemma_vector_keyword(s, p);
    assert(s.subrange(p + 7, p + 7 + l) =~= dec) by {
        assert forall|j: int| 0 <= j < l implies s.subrange(p + 7, p + 7 + l)[j] == dec[j] by {
            assert(s[p + (7 + j)] == d[7 + j]);
        }
    }
    assert(s[p + 6] == d[6]);
    assert(s[p + 7 + l] == d[7 + l]);
    lemma_size_read_back(s, p + 6, n);
    let pre2 = pre + "vector("@ + dec + ") "@;
    lemma_value_type_ddl_read_back(pre2, v, rest);
    assert(pre2 + inner + rest =~= s);
    lemma_inner_starts(v);
    assert(s[p + 8 + l] == d[8 + l]);
    assert(s[p + 9 + l] == inner[0]);
    lemma_vt_from_ws(s, p + 8 + l, p + 9 + l);
}

/// The DDL of a type starts with a lower-case letter.
proof fn lemma_inner_starts(t: ValueType)
    requires
        ddl_readable(t),
    ensures
        ddl_spec(t).len() > 0,
        'a' <= ddl_spec(t)[0] && ddl_spec(t)[0] <= 'z',
{
    reveal_strlit("bool");
    reveal_strlit("unsigned int");
    reveal_strlit("int");
    reveal_strlit("float");
    reveal_strlit("str(");
    reveal_strlit("str");
    reveal_strlit("nullable ");
    reveal_strlit("vector(");
    reveal_strlit("autoid");
    match t {
        ValueType::Str(n) => {
            if n > 0 {
                assert(ddl_spec(t)[0] == 's');
            }
        },
        ValueType::Nullable(v) => {
            assert(ddl_spec(t)[0] == 'n');
        },
        ValueType::Vector(n, v) => {
            assert(ddl_spec(t)[0] == 'v');
        },
        _ => {},
    }
}

/// Parsing the DDL text of a value type gives back that type, reading the
/// whole text (for every type without `Unknown`).
pub proof fn lemma_value_type_ddl_round_trip(t: ValueType)
    requires
        ddl_readable(t),
    ensures
        vt_spec(ddl_spec(t), 0) == Some((t, ddl_spec(t).len() as int)),
{
    let e = Seq::<char>::empty();
    assert(skip_ws(e, 0) == 0);
    lemma_value_type_ddl_read_back(e, t, e);
    assert(e + ddl_spec(t) + e =~= ddl_spec(t));
}


/// `n` is an identifier: a letter or `_`, then letters, digits or `_`.
pub open spec fn is_identifier(n: Seq<char>) -> bool {
    &&& n.len() > 0
    &&& is_alpha(n[0])
    &&& forall|i: int| 1 <= i < n.len() ==> is_ident_char(#[trigger] n[i])
}

/// Every field has an identifier for a name and a type the grammar can name.
pub open spec fn fields_readable(fs: Seq<FieldView>) -> bool {
    forall|i: int| 0 <= i < fs.len() ==> is_identifier(#[trigger] fs[i].0) && ddl_readable(fs[i].1)
}

proof fn lemma_ident_run_to(s: Seq<char>, i: int, k: int)
    requires
        0 <= i,
        0 <= k,
        i + k <= s.len(),
        forall|j: int| 0 <= j < k ==> is_ident_char(#[trigger] s[i + j]),
        i + k == s.len() || !is_ident_char(s[i + k]),
    ensures
        ident_run(s, i) == i + k,
    decreases k,
{
    if k > 0 {
        assert(is_ident_char(s[i + 0]));
        assert forall|j: int| 0 <= j < k - 1 implies is_ident_char(#[trigger] s[(i + 1) + j]) by {
            assert(is_ident_char(s[i + (j + 1)]));
        }
        lemma_ident_run_to(s, i + 1, k - 1);
    }
}

/// One field's DDL, followed by `,` or `)`, reads back as that field.
proof fn lemma_entry_read_back(pre: Seq<char>, f: FieldView, rest: Seq<char>)
    requires
        is_identifier(f.0),
        ddl_readable(f.1),
        rest.len() > 0,
        rest[0] == ',' || rest[0] == ')',
    ensures
        entry_spec(pre + entry_ddl(f) + rest, pre.len() as int) == Some((f, pre.len() + entry_ddl(f).len() as int)),
{
    reveal_strlit(" ");
    let name = f.0;
    let t = f.1;
    let d = entry_ddl(f);
    let s = pre + d + rest;
    let p = pre.len() as int;
    let l = name.len() as int;
    assert(d == name + " "@ + ddl_spec(t));
    assert forall|j: int| 0 <= j < d.len() implies #[trigger] s[p + j] == d[j] by {}
    assert(s[p] == name[0]);
    assert(skip_ws(s, p) == p);
    assert forall|j: int| 0 <= j < l - 1 implies is_ident_char(#[trigger] s[(p + 1) + j]) by {
        assert(s[p + (1 + j)] == name[1 + j]);
    }
    assert(s[p + l] == ' ');
    lemma_ident_run_to(s, p + 1, l - 1);
    assert(s.subrange(p, p + l) =~= name);
    assert(ident_spec(s, p) == Some((name, p + l)));
    assert(skip_ws(rest, 0) == 0);
    let pre2 = pre + name + " "@;
    lemma_value_type_ddl_read_back(pre2, t, rest);
    assert(pre2 + ddl_spec(t) + rest =~= s);
    lemma_inner_starts(t);
    assert(s[p + l + 1] == ddl_spec(t)[0]);
    lemma_vt_from_ws(s, p + l, p + l + 1);
}

/// The fields from `k` on, each after `", "`.
pub open spec fn fields_after(fs: Seq<FieldView>, k: int) -> Seq<char>
    decreases fs.len() - k,
{
    if k < 0 || k >= fs.len() {
        Seq::empty()
    } else {
        ", "@ + entry_ddl(fs[k]) + fields_after(fs, k + 1)
    }
}

proof fn lemma_fields_after_split(fs: Seq<FieldView>, k: int)
    requires
        0 <= k < fs.len(),
    ensures
        fields_after(fs.subrange(0, fs.len() - 1), k) + ", "@ + entry_ddl(fs.last()) == fields_after(fs, k),
    decreases fs.len() - k,
{
    let init = fs.subrange(0, fs.len() - 1);
    if k == fs.len() - 1 {
        assert(fields_after(init, k) == Seq::<char>::empty());
        assert(fields_after(fs, k + 1) == Seq::<char>::empty());
        assert(fields_after(init, k) + ", "@ + entry_ddl(fs.last()) =~= fields_after(fs, k));
    } else {
        lemma_fields_after_split(fs, k + 1);
        let init = fs.subrange(0, fs.len() - 1);
        assert(init[k] == fs[k]);
        if k + 1 < fs.len() - 1 {
            assert(fields_after(init, k) + ", "@ + entry_ddl(fs.last())
                =~= ", "@ + entry_ddl(fs[k]) + (fields_after(init, k + 1) + ", "@ + entry_ddl(fs.last())));
        } else {
            assert(fields_after(init, k + 1) == Seq::<char>::empty());
            assert(fields_after(fs, k + 1) == ", "@ + entry_ddl(fs[k + 1]) + fields_after(fs, k + 2));
            assert(fields_after(fs, k + 2) == Seq::<char>::empty());
            assert(fields_after(init, k) + ", "@ + entry_ddl(fs.last()) =~= fields_after(fs, k));
        }
    }
}

/// The joined DDL of the fields is the first field's, then the others after
/// `", "`, left to right.
proof fn lemma_entries_left(fs: Seq<FieldView>)
    requires
        fs.len() > 0,
    ensures
        entries_ddl(fs) == entry_ddl(fs[0]) + fields_after(fs, 1),
    decreases fs.len(),
{
    if fs.len() == 1 {
        assert(fields_after(fs, 1) == Seq::<char>::empty());
        assert(entries_ddl(fs) =~= entry_ddl(fs[0]) + fields_after(fs, 1));
    } else {
        let init = fs.drop_last();
        lemma_entries_left(init);
        assert(init[0] == fs[0]);
        assert(init =~= fs.subrange(0, fs.len() - 1));
        if fs.len() > 2 {
            lemma_fields_after_split(fs, 1);
        } else {
            assert(fields_after(init, 1) == Seq::<char>::empty());
            assert(fields_after(fs, 2) == Seq::<char>::empty());
        }
        assert(entries_ddl(fs) =~= entry_ddl(fs[0]) + fields_after(fs, 1));
    }
}


#[verifier::rlimit(100)]
#[verifier::spinoff_prover]
proof fn lemma_fields_rest_read_back(a: Seq<char>, fs: Seq<FieldView>, k: int, rest: Seq<char>)
    requires
        fields_readable(fs),
        1 <= k <= fs.len(),
    ensures
        fields_rest(a + fields_after(fs, k) + ")"@ + rest, a.len() as int, fs.subrange(0, k))
            == Some((fs, a.len() + fields_after(fs, k).len() + 1int)),
    decreases fs.len() - k,
{
    reveal_strlit(")");
    reveal_strlit(", ");
    let s = a + fields_after(fs, k) + ")"@ + rest;
    let p = a.len() as int;
    if k == fs.len() {
        assert(fields_after(fs, k) == Seq::<char>::empty());
        assert(s[p] == ')');
        assert(skip_ws(s, p) == p);
        assert(fs.subrange(0, k) =~= fs);
    } else {
        let e = entry_ddl(fs[k]);
        let tail = fields_after(fs, k + 1);
        assert(fields_after(fs, k) == ", "@ + e + tail);
        let a2 = a + ", "@;
        let rest2 = tail + ")"@ + rest;
        assert(s =~= a2 + e + rest2);
        assert(rest2.len() > 0);
        if k + 1 < fs.len() {
            assert(tail == ", "@ + entry_ddl(fs[k + 1]) + fields_after(fs, k + 2));
            assert(rest2[0] == ',');
        } else {
            assert(tail == Seq::<char>::empty());
            assert(rest2[0] == ')');
        }
        assert(is_identifier(fs[k].0) && ddl_readable(fs[k].1));
        lemma_entry_read_back(a2, fs[k], rest2);
        assert(s[p] == ',');
        assert(skip_ws(s, p) == p);
        assert(s[p + 1] == ' ');
        assert(e == fs[k].0 + " "@ + ddl_spec(fs[k].1));
        assert(s[p + 2] == e[0]);
        assert(e[0] == fs[k].0[0]);
        assert(skip_ws(s, p + 2) == p + 2);
        assert(skip_ws(s, p + 1) == p + 2);
        let a3 = a + ", "@ + e;
        lemma_fields_rest_read_back(a3, fs, k + 1, rest);
        assert(a3 + tail + ")"@ + rest =~= s);
        assert(fs.subrange(0, k).push(fs[k]) =~= fs.subrange(0, k + 1));
    }
}

/// The DDL of a tuple, between any prefix and suffix, reads back as its
/// fields and ends right after the closing parenthesis.
#[verifier::rlimit(100)]
#[verifier::spinoff_prover]
pub proof fn lemma_tuple_ddl_read_back(pre: Seq<char>, fs: Seq<FieldView>, rest: Seq<char>)
    requires
        fields_readable(fs),
    ensures
        tuple_spec(pre + tuple_ddl(fs) + rest, pre.len() as int) == Some((fs, pre.len() + tuple_ddl(fs).len() as int)),
{
    reveal_strlit("(");
    reveal_strlit(")");
    reveal_strlit(", ");
    let s = pre + tuple_ddl(fs) + rest;
    let p = pre.len() as int;
    assert(s[p] == '(');
    assert(skip_ws(s, p) == p);
    if fs.len() == 0 {
        assert(tuple_ddl(fs) == "("@ + ")"@);
        assert(s[p + 1] == ')');
        assert(skip_ws(s, p + 1) == p + 1);
        assert(entry_spec(s, p + 1) is None);
        assert(fs =~= Seq::<FieldView>::empty());
    } else {
        lemma_entries_left(fs);
        let e0 = entry_ddl(fs[0]);
        let tail = fields_after(fs, 1);
        let rest2 = tail + ")"@ + rest;
        assert(s =~= (pre + "("@) + e0 + rest2);
        if fs.len() > 1 {
            assert(tail == ", "@ + entry_ddl(fs[1]) + fields_after(fs, 2));
            assert(rest2[0] == ',');
        } else {
            assert(tail == Seq::<char>::empty());
            assert(rest2[0] == ')');
        }
        assert(is_identifier(fs[0].0) && ddl_readable(fs[0].1));
        lemma_entry_read_back(pre + "("@, fs[0], rest2);
        let a = pre + "("@ + e0;
        lemma_fields_rest_read_back(a, fs, 1, rest);
        assert(a + tail + ")"@ + rest =~= s);
        assert(fs.subrange(0, 1) =~= seq![fs[0]]);
    }
}

/// Parsing the DDL text of a tuple gives back its fields, reading the whole
/// text (for fields named by identifiers, with types the grammar can name).
pub proof fn lemma_tuple_ddl_round_trip(fs: Seq<FieldView>)
    requires
        fields_readable(fs),
    ensures
        tuple_spec(tuple_ddl(fs), 0) == Some((fs, tuple_ddl(fs).len() as int)),
{
    let e = Seq::<char>::empty();
    lemma_tuple_ddl_read_back(e, fs, e);
    assert(e + tuple_ddl(fs) + e =~= tuple_ddl(fs));
}


/// What follows a kind keyword: a space, the name, `n` tuples each after a
/// space, and `;`.
pub open spec fn named_ddl(name: Seq<char>, t1: Seq<FieldView>, t2: Seq<FieldView>, n: nat) -> Seq<char> {
    " "@ + name + (if n >= 1 { " "@ + tuple_ddl(t1) } else { Seq::empty() })
        + (if n >= 2 { " "@ + tuple_ddl(t2) } else { Seq::empty() }) + ";"@
}

/// `tuple_spec` reads the same from before a space as from after it.
proof fn lemma_tuple_after_space(s: Seq<char>, i: int)
    requires
        0 <= i,
        i + 1 < s.len(),
        s[i] == ' ',
        s[i + 1] == '(',
    ensures
        tuple_spec(s, i) == tuple_spec(s, i + 1),
{
    assert(skip_ws(s, i + 1) == i + 1);
    assert(skip_ws(s, i) == i + 1);
}

#[verifier::rlimit(100)]
#[verifier::spinoff_prover]
proof fn lemma_named_read_back(pre: Seq<char>, name: Seq<char>, t1: Seq<FieldView>, t2: Seq<FieldView>, n: nat)
    requires
        is_identifier(name),
        fields_readable(t1),
        fields_readable(t2),
        n <= 2,
    ensures
        named_tuples_spec(pre + named_ddl(name, t1, t2, n), pre.len() as int, n) == Some((
            name,
            if n >= 1 { t1 } else { Seq::<FieldView>::empty() },
            if n >= 2 { t2 } else { Seq::<FieldView>::empty() },
            (pre + named_ddl(name, t1, t2, n)).len() as int,
        )),
{
    reveal_strlit(" ");
    reveal_strlit(";");
    reveal_strlit("(");
    let tail = named_ddl(name, t1, t2, n);
    let s = pre + tail;
    let p = pre.len() as int;
    let l = name.len() as int;
    let d1 = if n >= 1 { " "@ + tuple_ddl(t1) } else { Seq::<char>::empty() };
    let d2 = if n >= 2 { " "@ + tuple_ddl(t2) } else { Seq::<char>::empty() };
    assert(tail == " "@ + name + d1 + d2 + ";"@);
    assert(s =~= pre + " "@ + name + d1 + d2 + ";"@);
    assert(s[p] == ' ');
    assert forall|j: int| 0 <= j < l implies #[trigger] s[p + 1 + j] == name[j] by {
        assert(s[p + 1 + j] == tail[1 + j]);
    }
    assert(s[p + 1] == name[0]);
    assert(skip_ws(s, p + 1) == p + 1);
    assert(skip_ws(s, p) == p + 1);
    let after = p + 1 + l;
    if n >= 1 {
        assert(s[after] == ' ');
        assert(s[after + 1] == '(');
    } else {
        assert(s[after] == ';');
    }
    assert forall|j: int| 0 <= j < l - 1 implies is_ident_char(#[trigger] s[(p + 2) + j]) by {
        assert(s[p + 1 + (1 + j)] == name[1 + j]);
    }
    lemma_ident_run_to(s, p + 2, l - 1);
    assert(s.subrange(p + 1, after) =~= name);
    assert(ident_spec(s, p + 1) == Some((name, after)));
    if n == 0 {
        assert(skip_ws(s, after) == after);
        assert(end_spec(s, after) == Some(after + 1));
    } else {
        let pre1 = pre + " "@ + name + " "@;
        let rest1 = d2 + ";"@;
        assert(s =~= pre1 + tuple_ddl(t1) + rest1);
        lemma_tuple_ddl_read_back(pre1, t1, rest1);
        lemma_tuple_after_space(s, after);
        let e1 = after + 1 + tuple_ddl(t1).len();
        if n == 1 {
            assert(s[e1] == ';');
            assert(skip_ws(s, e1) == e1);
        } else {
            let pre2 = pre1 + tuple_ddl(t1) + " "@;
            assert(s =~= pre2 + tuple_ddl(t2) + ";"@);
            lemma_tuple_ddl_read_back(pre2, t2, ";"@);
            assert(s[e1] == ' ');
            assert(s[e1 + 1] == '(');
            lemma_tuple_after_space(s, e1);
            let e2 = e1 + 1 + tuple_ddl(t2).len();
            assert(s[e2] == ';');
            assert(skip_ws(s, e2) == e2);
        }
    }
}

proof fn lemma_kw_mismatch_at(s: Seq<char>, p: int, kw: Seq<char>, j: int)
    requires
        0 <= p,
        0 <= j < kw.len(),
        p + j < s.len(),
        'a' <= s[p + j] && s[p + j] <= 'z',
        'a' <= kw[j] && kw[j] <= 'z',
        s[p + j] != kw[j],
    ensures
        !kw_at(s, p, kw),
{
    assert(!ci_eq(s[p + j], kw[j]));
}

/// The model kinds whose schemas the grammar can read back.
pub open spec fn schema_readable(v: SchemaView) -> bool {
    match v {
        SchemaView::Table(t) => fields_readable(t),
        SchemaView::Document => true,
        SchemaView::GeoHash(t) => fields_readable(t),
        SchemaView::Graph(n, e) => fields_readable(n) && fields_readable(e),
        SchemaView::TimeSeries(t) => fields_readable(t),
    }
}

/// `create <kw> <name> ...;`: the command keyword, then the kind keyword
/// `kw` at 7, then the name and tuples.
#[verifier::rlimit(100)]
#[verifier::spinoff_prover]
proof fn lemma_create_read_back(kw: Seq<char>, name: Seq<char>, t1: Seq<FieldView>, t2: Seq<FieldView>, n: nat)
    requires
        is_identifier(name),
        fields_readable(t1),
        fields_readable(t2),
        n <= 2,
        kw.len() > 1,
        'a' <= kw[0] && kw[0] <= 'z',
    ensures
        ({
            let s = kw_create() + " "@ + kw + named_ddl(name, t1, t2, n);
            &&& kw_at(s, 0, kw_create())
            &&& skip_ws(s, 0) == 0
            &&& skip_ws(s, 6) == 7
            &&& kw_at(s, 7, kw)
            &&& forall|j: int| 0 <= j < kw.len() ==> #[trigger] s[7 + j] == kw[j]
            &&& s[7] == kw[0]
            &&& s[8] == kw[1]
            &&& named_tuples_spec(s, 7 + kw.len() as int, n) == Some((
                name,
                if n >= 1 { t1 } else { Seq::<FieldView>::empty() },
                if n >= 2 { t2 } else { Seq::<FieldView>::empty() },
                s.len() as int,
            ))
        }),
{
    reveal_strlit(" ");
    let head = kw_create() + " "@ + kw;
    let s = head + named_ddl(name, t1, t2, n);
    lemma_named_read_back(head, name, t1, t2, n);
    assert(s[0] == 'c');
    assert(s.subrange(0, 6) =~= kw_create());
    lemma_kw_match(s, 0, kw_create());
    assert(s[6] == ' ');
    assert(s[7] == kw[0]);
    assert(skip_ws(s, 7) == 7);
    assert forall|j: int| 0 <= j < kw.len() implies #[trigger] s[7 + j] == kw[j] by {
        assert(s[7 + j] == head[7 + j]);
    }
    assert(s.subrange(7, 7 + kw.len() as int) =~= kw);
    lemma_kw_match(s, 7, kw);
    assert(s[7 + 1int] == kw[1]);
}

#[verifier::rlimit(100)]
#[verifier::spinoff_prover]
proof fn lemma_model_table(name: Seq<char>, t: Seq<FieldView>)
    requires
        is_identifier(name),
        fields_readable(t),
    ensures
        command_spec(model_ddl(name, SchemaView::Table(t))) == Some((name, SchemaView::Table(t))),
{
    let e = Seq::<FieldView>::empty();
    let c = kw_create() + " "@ + kw_table() + named_ddl(name, t, e, 1);
    lemma_create_read_back(kw_table(), name, t, e, 1);
    assert(create_spec(c, 0) == Some((name, SchemaView::Table(t), c.len() as int)));
    assert(skip_ws(c, c.len() as int) == c.len());
    assert(command_spec(c) == Some((name, SchemaView::Table(t))));
    lemma_table_text(name, t);
}

#[verifier::rlimit(100)]
#[verifier::spinoff_prover]
proof fn lemma_model_document(name: Seq<char>)
    requires
        is_identifier(name),
    ensures
        command_spec(model_ddl(name, SchemaView::Document)) == Some((name, SchemaView::Document)),
{
    let e = Seq::<FieldView>::empty();
    let c = kw_create() + " "@ + kw_document() + named_ddl(name, e, e, 0);
    lemma_create_read_back(kw_document(), name, e, e, 0);
    lemma_kw_mismatch_at(c, 7, kw_table(), 0);
    assert(create_spec(c, 0) == Some((name, SchemaView::Document, c.len() as int)));
    assert(skip_ws(c, c.len() as int) == c.len());
    assert(command_spec(c) == Some((name, SchemaView::Document)));
    lemma_document_text(name);
}

#[verifier::rlimit(100)]
#[verifier::spinoff_prover]
proof fn lemma_model_geohash(name: Seq<char>, t: Seq<FieldView>)
    requires
        is_identifier(name),
        fields_readable(t),
    ensures
        command_spec(model_ddl(name, SchemaView::GeoHash(t))) == Some((name, SchemaView::GeoHash(t))),
{
    let e = Seq::<FieldView>::empty();
    let c = kw_create() + " "@ + kw_geohash() + named_ddl(name, t, e, 1);
    lemma_geohash_keywords(name, t);
    assert(create_spec(c, 0) == Some((name, SchemaView::GeoHash(t), c.len() as int)));
    assert(skip_ws(c, c.len() as int) == c.len());
    assert(command_spec(c) == Some((name, SchemaView::GeoHash(t))));
    lemma_geohash_text(name, t);
}

#[verifier::rlimit(100)]
#[verifier::spinoff_prover]
proof fn lemma_model_graph(name: Seq<char>, t1: Seq<FieldView>, t2: Seq<FieldView>)
    requires
        is_identifier(name),
        fields_readable(t1),
        fields_readable(t2),
    ensures
        command_spec(model_ddl(name, SchemaView::Graph(t1, t2))) == Some((name, SchemaView::Graph(t1, t2))),
{
    let e = Seq::<FieldView>::empty();
    let c = kw_create() + " "@ + kw_graph() + named_ddl(name, t1, t2, 2);
    lemma_graph_keywords(name, t1, t2);
    assert(create_spec(c, 0) == Some((name, SchemaView::Graph(t1, t2), c.len() as int)));
    assert(skip_ws(c, c.len() as int) == c.len());
    assert(command_spec(c) == Some((name, SchemaView::Graph(t1, t2))));
    lemma_graph_text(name, t1, t2);
}

#[verifier::rlimit(100)]
#[verifier::spinoff_prover]
proof fn lemma_model_timeseries(name: Seq<char>, t: Seq<FieldView>)
    requires
        is_identifier(name),
        fields_readable(t),
    ensures
        command_spec(model_ddl(name, SchemaView::TimeSeries(t))) == Some((name, SchemaView::TimeSeries(t))),
{
    let e = Seq::<FieldView>::empty();
    let c = kw_create() + " "@ + kw_timeseries() + named_ddl(name, t, e, 1);
    lemma_timeseries_keywords(name, t);
    assert(create_spec(c, 0) == Some((name, SchemaView::TimeSeries(t), c.len() as int)));
    assert(skip_ws(c, c.len() as int) == c.len());
    assert(command_spec(c) == Some((name, SchemaView::TimeSeries(t))));
    lemma_timeseries_text(name, t);
}

proof fn lemma_document_text(name: Seq<char>)
    ensures
        model_ddl(name, SchemaView::Document) == kw_create() + " "@ + kw_document() + named_ddl(name, Seq::<FieldView>::empty(), Seq::<FieldView>::empty(), 0),
{
    reveal_strlit("create document ");
    reveal_strlit(" ");
    reveal_strlit(";");
    let e = Seq::<FieldView>::empty();
    assert(model_ddl(name, SchemaView::Document) =~= kw_create() + " "@ + kw_document() + named_ddl(name, e, e, 0));
}

proof fn lemma_geohash_text(name: Seq<char>, t: Seq<FieldView>)
    ensures
        model_ddl(name, SchemaView::GeoHash(t)) == kw_create() + " "@ + kw_geohash() + named_ddl(name, t, Seq::<FieldView>::empty(), 1),
{
    reveal_strlit("create geohash ");
    reveal_strlit(" ");
    reveal_strlit(";");
    let e = Seq::<FieldView>::empty();
    assert(model_ddl(name, SchemaView::GeoHash(t)) =~= kw_create() + " "@ + kw_geohash() + named_ddl(name, t, e, 1));
}

proof fn lemma_graph_text(name: Seq<char>, t1: Seq<FieldView>, t2: Seq<FieldView>)
    ensures
        model_ddl(name, SchemaView::Graph(t1, t2)) == kw_create() + " "@ + kw_graph() + named_ddl(name, t1, t2, 2),
{
    reveal_strlit("create graph ");
    reveal_strlit(" ");
    reveal_strlit(";");
    let e = Seq::<FieldView>::empty();
    assert(model_ddl(name, SchemaView::Graph(t1, t2)) =~= kw_create() + " "@ + kw_graph() + named_ddl(name, t1, t2, 2));
}

proof fn lemma_timeseries_text(name: Seq<char>, t: Seq<FieldView>)
    ensures
        model_ddl(name, SchemaView::TimeSeries(t)) == kw_create() + " "@ + kw_timeseries() + named_ddl(name, t, Seq::<FieldView>::empty(), 1),
{
    reveal_strlit("create timeseries ");
    reveal_strlit(" ");
    reveal_strlit(";");
    let e = Seq::<FieldView>::empty();
    assert(model_ddl(name, SchemaView::TimeSeries(t)) =~= kw_create() + " "@ + kw_timeseries() + named_ddl(name, t, e, 1));
}

proof fn lemma_table_text(name: Seq<char>, t: Seq<FieldView>)
    ensures
        model_ddl(name, SchemaView::Table(t)) == kw_create() + " "@ + kw_table() + named_ddl(name, t, Seq::<FieldView>::empty(), 1),
{
    reveal_strlit("create table ");
    reveal_strlit(" ");
    reveal_strlit(";");
    let e = Seq::<FieldView>::empty();
    assert(model_ddl(name, SchemaView::Table(t)) =~= kw_create() + " "@ + kw_table() + named_ddl(name, t, e, 1));
}

#[verifier::rlimit(100)]
#[verifier::spinoff_prover]
proof fn lemma_graph_keywords(name: Seq<char>, t1: Seq<FieldView>, t2: Seq<FieldView>)
    requires
        is_identifier(name),
        fields_readable(t1),
        fields_readable(t2),
    ensures
        ({
            let c = kw_create() + " "@ + kw_graph() + named_ddl(name, t1, t2, 2);
            &&& kw_at(c, 0, kw_create())
            &&& skip_ws(c, 0) == 0
            &&& skip_ws(c, 6) == 7
            &&& !kw_at(c, 7, kw_table())
            &&& !kw_at(c, 7, kw_document())
            &&& !kw_at(c, 7, kw_geohash())
            &&& kw_at(c, 7, kw_graph())
            &&& named_tuples_spec(c, 12, 2) == Some((name, t1, t2, c.len() as int))
        }),
{
    let c = kw_create() + " "@ + kw_graph() + named_ddl(name, t1, t2, 2);
    lemma_create_read_back(kw_graph(), name, t1, t2, 2);
    lemma_kw_mismatch_at(c, 7, kw_table(), 0);
    lemma_kw_mismatch_at(c, 7, kw_document(), 0);
    lemma_kw_mismatch_at(c, 7, kw_geohash(), 1);
}

#[verifier::rlimit(100)]
#[verifier::spinoff_prover]
proof fn lemma_timeseries_keywords(name: Seq<char>, t: Seq<FieldView>)
    requires
        is_identifier(name),
        fields_readable(t),
    ensures
        ({
            let e = Seq::<FieldView>::empty();
            let c = kw_create() + " "@ + kw_timeseries() + named_ddl(name, t, e, 1);
            &&& kw_at(c, 0, kw_create())
            &&& skip_ws(c, 0) == 0
            &&& skip_ws(c, 6) == 7
            &&& !kw_at(c, 7, kw_table())
            &&& !kw_at(c, 7, kw_document())
            &&& !kw_at(c, 7, kw_geohash())
            &&& !kw_at(c, 7, kw_graph())
            &&& kw_at(c, 7, kw_timeseries())
            &&& named_tuples_spec(c, 7 + kw_timeseries().len() as int, 1) == Some((name, t, e, c.len() as int))
        }),
{
    let e = Seq::<FieldView>::empty();
    let c = kw_create() + " "@ + kw_timeseries() + named_ddl(name, t, e, 1);
    lemma_create_read_back(kw_timeseries(), name, t, e, 1);
    lemma_kw_mismatch_at(c, 7, kw_table(), 1);
    lemma_kw_mismatch_at(c, 7, kw_document(), 0);
    lemma_kw_mismatch_at(c, 7, kw_geohash(), 0);
    lemma_kw_mismatch_at(c, 7, kw_graph(), 0);
}

#[verifier::rlimit(100)]
#[verifier::spinoff_prover]
proof fn lemma_geohash_keywords(name: Seq<char>, t: Seq<FieldView>)
    requires
        is_identifier(name),
        fields_readable(t),
    ensures
        ({
            let e = Seq::<FieldView>::empty();
            let c = kw_create() + " "@ + kw_geohash() + named_ddl(name, t, e, 1);
            &&& kw_at(c, 0, kw_create())
            &&& skip_ws(c, 0) == 0
            &&& skip_ws(c, 6) == 7
            &&& !kw_at(c, 7, kw_table())
            &&& !kw_at(c, 7, kw_document())
            &&& kw_at(c, 7, kw_geohash())
            &&& named_tuples_spec(c, 7 + kw_geohash().len() as int, 1) == Some((name, t, e, c.len() as int))
        }),
{
    let e = Seq::<FieldView>::empty();
    let c = kw_create() + " "@ + kw_geohash() + named_ddl(name, t, e, 1);
    lemma_create_read_back(kw_geohash(), name, t, e, 1);
    lemma_kw_mismatch_at(c, 7, kw_table(), 0);
    lemma_kw_mismatch_at(c, 7, kw_document(), 0);
}

/// Parsing the DDL that creates a model gives back its name and schema: the
/// DDL text a model writes is a command that recreates it.
pub proof fn lemma_model_ddl_round_trip(name: Seq<char>, v: SchemaView)
    requires
        is_identifier(name),
        schema_readable(v),
    ensures
        command_spec(model_ddl(name, v)) == Some((name, v)),
{
    match v {
        SchemaView::Table(t) => lemma_model_table(name, t),
        SchemaView::Document => lemma_model_document(name),
        SchemaView::GeoHash(t) => lemma_model_geohash(name, t),
        SchemaView::Graph(a, b) => lemma_model_graph(name, a, b),
        SchemaView::TimeSeries(t) => lemma_model_timeseries(name, t),
    }
}

} // verus!
