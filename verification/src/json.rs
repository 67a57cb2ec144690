//! The wire-level JSON representation of a change.
//!
//! A change is rendered as a one-key object named after its variant, its
//! fields in declaration order; a tuple as an object from column name to
//! text value or `null`; absent old tuples as `null`. `json_of` defines
//! the document exactly, the parser in this module accepts exactly those
//! documents, and the round-trip law proves that every change survives
//! the trip unchanged.

use vstd::prelude::*;

use crate::change::{Change, ChangeV, ColumnInfoV, Field, FieldV, Tuple};
use crate::lsn::{hex_digit, hex_digit_char};
use crate::num::{dec_i64, dec_seq, push_dec_i64, push_dec_u64};
use crate::util::push_char;

verus! {

/// How one character is written inside a JSON string: quote and backslash
/// get a backslash escape, control characters a `\u00XX` escape, and
/// everything else stands as itself.
pub open spec fn esc_char(c: char) -> Seq<char> {
    if c == '"' {
        seq!['\\', '"']
    } else if c == '\\' {
        seq!['\\', '\\']
    } else if (c as u32) < 32 {
        seq![
            '\\',
            'u',
            '0',
            '0',
            hex_digit(((c as u32) / 16) as nat),
            hex_digit(((c as u32) % 16) as nat),
        ]
    } else {
        seq![c]
    }
}

/// A string's characters, escaped.
pub open spec fn esc(s: Seq<char>) -> Seq<char>
    decreases s.len(),
{
    if s.len() == 0 {
        Seq::empty()
    } else {
        esc_char(s[0]) + esc(s.drop_first())
    }
}

/// A JSON string: the escaped characters between quotes.
pub open spec fn jstr(s: Seq<char>) -> Seq<char> {
    seq!['"'] + esc(s) + seq!['"']
}

/// A column value: its text as a JSON string, NULL as `null`.
pub open spec fn val_json(v: Option<Seq<char>>) -> Seq<char> {
    match v {
        None => "null"@,
        Some(s) => jstr(s),
    }
}

/// One tuple member: the column name and its value.
pub open spec fn field_json(f: FieldV) -> Seq<char> {
    jstr(f.name) + seq![':'] + val_json(f.value)
}

/// The members after the first, each preceded by a comma.
pub open spec fn rest_fields_json(fs: Seq<FieldV>) -> Seq<char>
    decreases fs.len(),
{
    if fs.len() == 0 {
        Seq::empty()
    } else {
        seq![','] + field_json(fs[0]) + rest_fields_json(fs.drop_first())
    }
}

/// A tuple as a JSON object, members in stored order.
pub open spec fn tuple_json(fs: Seq<FieldV>) -> Seq<char> {
    seq!['{'] + (if fs.len() == 0 {
        Seq::<char>::empty()
    } else {
        field_json(fs[0]) + rest_fields_json(fs.drop_first())
    }) + seq!['}']
}

/// An optional old tuple: `null` when the protocol supplied none.
pub open spec fn opt_tuple_json(o: Option<Seq<FieldV>>) -> Seq<char> {
    match o {
        None => "null"@,
        Some(fs) => tuple_json(fs),
    }
}

/// One column definition as a JSON object.
pub open spec fn col_json(c: ColumnInfoV) -> Seq<char> {
    "{\"name\":"@ + jstr(c.name) + ",\"type_id\":"@ + dec_seq(c.type_id as nat) + ",\"flags\":"@
        + dec_seq(c.flags as nat) + seq!['}']
}

/// The column definitions after the first, each preceded by a comma.
pub open spec fn rest_cols_json(cs: Seq<ColumnInfoV>) -> Seq<char>
    decreases cs.len(),
{
    if cs.len() == 0 {
        Seq::empty()
    } else {
        seq![','] + col_json(cs[0]) + rest_cols_json(cs.drop_first())
    }
}

/// The column definitions as a JSON array.
pub open spec fn cols_json(cs: Seq<ColumnInfoV>) -> Seq<char> {
    seq!['['] + (if cs.len() == 0 {
        Seq::<char>::empty()
    } else {
        col_json(cs[0]) + rest_cols_json(cs.drop_first())
    }) + seq![']']
}

/// The whole document for one change: a one-key object named after the
/// variant, fields in declaration order.
pub open spec fn json_of(c: ChangeV) -> Seq<char> {
    match c {
        ChangeV::Begin { lsn, timestamp, xid } => "{\"Begin\":{\"lsn\":"@ + jstr(lsn)
            + ",\"timestamp\":"@ + dec_i64(timestamp) + ",\"xid\":"@ + dec_seq(xid as nat)
            + "}}"@,
        ChangeV::Commit { lsn, timestamp } => "{\"Commit\":{\"lsn\":"@ + jstr(lsn)
            + ",\"timestamp\":"@ + dec_i64(timestamp) + "}}"@,
        ChangeV::Insert { relation_id, schema, table, new_tuple } => "{\"Insert\":{\"relation_id\":"@
            + dec_seq(relation_id as nat) + ",\"schema\":"@ + jstr(schema) + ",\"table\":"@
            + jstr(table) + ",\"new_tuple\":"@ + tuple_json(new_tuple) + "}}"@,
        ChangeV::Update { relation_id, schema, table, old_tuple, new_tuple } => "{\"Update\":{\"relation_id\":"@
            + dec_seq(relation_id as nat) + ",\"schema\":"@ + jstr(schema) + ",\"table\":"@
            + jstr(table) + ",\"old_tuple\":"@ + opt_tuple_json(old_tuple) + ",\"new_tuple\":"@
            + tuple_json(new_tuple) + "}}"@,
        ChangeV::Delete { relation_id, schema, table, old_tuple } => "{\"Delete\":{\"relation_id\":"@
            + dec_seq(relation_id as nat) + ",\"schema\":"@ + jstr(schema) + ",\"table\":"@
            + jstr(table) + ",\"old_tuple\":"@ + tuple_json(old_tuple) + "}}"@,
        ChangeV::Relation { relation_id, schema, table, columns } => "{\"Relation\":{\"relation_id\":"@
            + dec_seq(relation_id as nat) + ",\"schema\":"@ + jstr(schema) + ",\"table\":"@
            + jstr(table) + ",\"columns\":"@ + cols_json(columns) + "}}"@,
    }
}

proof fn lemma_esc_append(a: Seq<char>, b: Seq<char>)
    ensures
        esc(a + b) == esc(a) + esc(b),
    decreases a.len(),
{
    if a.len() == 0 {
        assert(a + b =~= b);
        assert(esc(a) + esc(b) =~= esc(b));
    } else {
        assert((a + b).drop_first() =~= a.drop_first() + b);
        lemma_esc_append(a.drop_first(), b);
        assert((a + b)[0] == a[0]);
        assert(esc_char(a[0]) + (esc(a.drop_first()) + esc(b)) =~= (esc_char(a[0]) + esc(
            a.drop_first(),
        )) + esc(b));
    }
}

pub(crate) fn push_jstr(s: &str, out: &mut String)
    ensures
        final(out)@ == old(out)@ + jstr(s@),
{
    push_char(out, '"');
    let n = s.unicode_len();
    let mut i: usize = 0;
    while i < n
        invariant
            i <= n,
            n == s@.len(),
            out@ == old(out)@ + seq!['"'] + esc(s@.take(i as int)),
        decreases n - i,
    {
        let ghost pre = out@;
        let c = s.get_char(i);
        if c == '"' {
            push_char(out, '\\');
            push_char(out, '"');
        } else if c == '\\' {
            push_char(out, '\\');
            push_char(out, '\\');
        } else if (c as u32) < 32 {
            let code = c as u32;
            push_char(out, '\\');
            push_char(out, 'u');
            push_char(out, '0');
            push_char(out, '0');
            push_char(out, hex_digit_char(code / 16));
            push_char(out, hex_digit_char(code % 16));
        } else {
            push_char(out, c);
        }
        proof {
            assert(out@ =~= pre + esc_char(s@[i as int]));
            assert(s@.take(i + 1) =~= s@.take(i as int) + seq![s@[i as int]]);
            lemma_esc_append(s@.take(i as int), seq![s@[i as int]]);
            assert(seq![s@[i as int]].drop_first() =~= Seq::<char>::empty());
            assert(esc(Seq::<char>::empty()) =~= Seq::<char>::empty());
            assert(esc(seq![s@[i as int]]) =~= esc_char(s@[i as int]));
            assert(out@ =~= old(out)@ + seq!['"'] + esc(s@.take(i + 1)));
        }
        i += 1;
    }
    push_char(out, '"');
    proof {
        assert(s@.take(n as int) =~= s@);
        assert(final(out)@ =~= old(out)@ + jstr(s@));
    }
}

pub(crate) fn push_val(v: &Option<String>, out: &mut String)
    ensures
        final(out)@ == old(out)@ + val_json(v.deep_view()),
{
    match v {
        None => {
            out.append("null");
        }
        Some(s) => {
            push_jstr(s.as_str(), out);
        }
    }
}

proof fn lemma_rest_fields_append(a: Seq<FieldV>, b: Seq<FieldV>)
    ensures
        rest_fields_json(a + b) == rest_fields_json(a) + rest_fields_json(b),
    decreases a.len(),
{
    if a.len() == 0 {
        assert(a + b =~= b);
        assert(rest_fields_json(a) + rest_fields_json(b) =~= rest_fields_json(b));
    } else {
        assert((a + b).drop_first() =~= a.drop_first() + b);
        lemma_rest_fields_append(a.drop_first(), b);
        assert((a + b)[0] == a[0]);
        assert(seq![','] + field_json(a[0]) + (rest_fields_json(a.drop_first())
            + rest_fields_json(b)) =~= (seq![','] + field_json(a[0]) + rest_fields_json(
            a.drop_first(),
        )) + rest_fields_json(b));
    }
}

fn push_tuple(t: &Tuple, out: &mut String)
    ensures
        final(out)@ == old(out)@ + tuple_json(t@),
{
    push_char(out, '{');
    let n = t.entries.len();
    let mut i: usize = 0;
    while i < n
        invariant
            i <= n,
            n == t@.len(),
            i == 0 ==> out@ == old(out)@ + seq!['{'],
            i > 0 ==> out@ == old(out)@ + seq!['{'] + field_json(t@[0]) + rest_fields_json(
                t@.subrange(1, i as int),
            ),
        decreases n - i,
    {
        let ghost pre = out@;
        if i > 0 {
            push_char(out, ',');
        }
        push_jstr(t.entries[i].name.as_str(), out);
        push_char(out, ':');
        push_val(&t.entries[i].value, out);
        proof {
            assert(t@[i as int] == t.entries@[i as int]@);
            if i == 0 {
                assert(out@ =~= old(out)@ + seq!['{'] + field_json(t@[0]));
                assert(t@.subrange(1, 1) =~= Seq::<FieldV>::empty());
                assert(out@ =~= old(out)@ + seq!['{'] + field_json(t@[0]) + rest_fields_json(
                    t@.subrange(1, 1),
                ));
            } else {
                assert(out@ =~= pre + (seq![','] + field_json(t@[i as int])));
                assert(t@.subrange(1, i + 1) =~= t@.subrange(1, i as int) + seq![t@[i as int]]);
                lemma_rest_fields_append(t@.subrange(1, i as int), seq![t@[i as int]]);
                assert(seq![t@[i as int]].drop_first() =~= Seq::<FieldV>::empty());
                assert(rest_fields_json(Seq::<FieldV>::empty()) =~= Seq::<char>::empty());
                assert(rest_fields_json(seq![t@[i as int]]) =~= seq![','] + field_json(
                    t@[i as int],
                ));
                assert(out@ =~= old(out)@ + seq!['{'] + field_json(t@[0]) + rest_fields_json(
                    t@.subrange(1, i + 1),
                ));
            }
        }
        i += 1;
    }
    push_char(out, '}');
    proof {
        if n == 0 {
            assert(final(out)@ =~= old(out)@ + tuple_json(t@));
        } else {
            assert(t@.subrange(1, n as int) =~= t@.drop_first());
            assert(final(out)@ =~= old(out)@ + tuple_json(t@));
        }
    }
}

proof fn lemma_rest_cols_append(a: Seq<ColumnInfoV>, b: Seq<ColumnInfoV>)
    ensures
        rest_cols_json(a + b) == rest_cols_json(a) + rest_cols_json(b),
    decreases a.len(),
{
    if a.len() == 0 {
        assert(a + b =~= b);
        assert(rest_cols_json(a) + rest_cols_json(b) =~= rest_cols_json(b));
    } else {
        assert((a + b).drop_first() =~= a.drop_first() + b);
        lemma_rest_cols_append(a.drop_first(), b);
        assert((a + b)[0] == a[0]);
        assert(seq![','] + col_json(a[0]) + (rest_cols_json(a.drop_first()) + rest_cols_json(b))
            =~= (seq![','] + col_json(a[0]) + rest_cols_json(a.drop_first())) + rest_cols_json(b));
    }
}

fn push_col(c: &crate::change::ColumnInfo, out: &mut String)
    ensures
        final(out)@ == old(out)@ + col_json(c@),
{
    out.append("{\"name\":");
    push_jstr(c.name.as_str(), out);
    out.append(",\"type_id\":");
    push_dec_u64(c.type_id as u64, out);
    out.append(",\"flags\":");
    push_dec_u64(c.flags as u64, out);
    push_char(out, '}');
    proof {
        assert(final(out)@ =~= old(out)@ + col_json(c@));
    }
}

fn push_cols(cs: &Vec<crate::change::ColumnInfo>, out: &mut String)
    ensures
        final(out)@ == old(out)@ + cols_json(cs.deep_view()),
{
    let ghost csv = cs.deep_view();
    push_char(out, '[');
    let n = cs.len();
    let mut i: usize = 0;
    while i < n
        invariant
            i <= n,
            n == csv.len(),
            csv == cs.deep_view(),
            i == 0 ==> out@ == old(out)@ + seq!['['],
            i > 0 ==> out@ == old(out)@ + seq!['['] + col_json(csv[0]) + rest_cols_json(
                csv.subrange(1, i as int),
            ),
        decreases n - i,
    {
        let ghost pre = out@;
        if i > 0 {
            push_char(out, ',');
        }
        push_col(&cs[i], out);
        proof {
            if i == 0 {
                assert(csv.subrange(1, 1) =~= Seq::<ColumnInfoV>::empty());
                assert(out@ =~= old(out)@ + seq!['['] + col_json(csv[0]) + rest_cols_json(
                    csv.subrange(1, 1),
                ));
            } else {
                assert(out@ =~= pre + (seq![','] + col_json(csv[i as int])));
                assert(csv.subrange(1, i + 1) =~= csv.subrange(1, i as int) + seq![csv[i as int]]);
                lemma_rest_cols_append(csv.subrange(1, i as int), seq![csv[i as int]]);
                assert(seq![csv[i as int]].drop_first() =~= Seq::<ColumnInfoV>::empty());
                assert(rest_cols_json(Seq::<ColumnInfoV>::empty()) =~= Seq::<char>::empty());
                assert(rest_cols_json(seq![csv[i as int]]) =~= seq![','] + col_json(
                    csv[i as int],
                ));
                assert(out@ =~= old(out)@ + seq!['['] + col_json(csv[0]) + rest_cols_json(
                    csv.subrange(1, i + 1),
                ));
            }
        }
        i += 1;
    }
    push_char(out, ']');
    proof {
        if n == 0 {
            assert(final(out)@ =~= old(out)@ + cols_json(csv));
        } else {
            assert(csv.subrange(1, n as int) =~= csv.drop_first());
            assert(final(out)@ =~= old(out)@ + cols_json(csv));
        }
    }
}

impl Change {
    /// Render the change's wire-level JSON document.
    pub fn to_json(&self) -> (r: String)
        ensures
            r@ == json_of(self@),
    {
        let mut out = String::new();
        match self {
            Change::Begin { lsn, timestamp, xid } => {
                out.append("{\"Begin\":{\"lsn\":");
                push_jstr(lsn.as_str(), &mut out);
                out.append(",\"timestamp\":");
                push_dec_i64(*timestamp, &mut out);
                out.append(",\"xid\":");
                push_dec_u64(*xid as u64, &mut out);
                out.append("}}");
            }
            Change::Commit { lsn, timestamp } => {
                out.append("{\"Commit\":{\"lsn\":");
                push_jstr(lsn.as_str(), &mut out);
                out.append(",\"timestamp\":");
                push_dec_i64(*timestamp, &mut out);
                out.append("}}");
            }
            Change::Insert { relation_id, schema, table, new_tuple } => {
                out.append("{\"Insert\":{\"relation_id\":");
                push_dec_u64(*relation_id as u64, &mut out);
                out.append(",\"schema\":");
                push_jstr(schema.as_str(), &mut out);
                out.append(",\"table\":");
                push_jstr(table.as_str(), &mut out);
                out.append(",\"new_tuple\":");
                push_tuple(new_tuple, &mut out);
                out.append("}}");
            }
            Change::Update { relation_id, schema, table, old_tuple, new_tuple } => {
                out.append("{\"Update\":{\"relation_id\":");
                push_dec_u64(*relation_id as u64, &mut out);
                out.append(",\"schema\":");
                push_jstr(schema.as_str(), &mut out);
                out.append(",\"table\":");
                push_jstr(table.as_str(), &mut out);
                out.append(",\"old_tuple\":");
                match old_tuple {
                    None => out.append("null"),
                    Some(t) => push_tuple(t, &mut out),
                }
                out.append(",\"new_tuple\":");
                push_tuple(new_tuple, &mut out);
                out.append("}}");
            }
            Change::Delete { relation_id, schema, table, old_tuple } => {
                out.append("{\"Delete\":{\"relation_id\":");
                push_dec_u64(*relation_id as u64, &mut out);
                out.append(",\"schema\":");
                push_jstr(schema.as_str(), &mut out);
                out.append(",\"table\":");
                push_jstr(table.as_str(), &mut out);
                out.append(",\"old_tuple\":");
                push_tuple(old_tuple, &mut out);
                out.append("}}");
            }
            Change::Relation { relation_id, schema, table, columns } => {
                out.append("{\"Relation\":{\"relation_id\":");
                push_dec_u64(*relation_id as u64, &mut out);
                out.append(",\"schema\":");
                push_jstr(schema.as_str(), &mut out);
                out.append(",\"table\":");
                push_jstr(table.as_str(), &mut out);
                out.append(",\"columns\":");
                push_cols(columns, &mut out);
                out.append("}}");
            }
        }
        proof {
            assert(out@ =~= json_of(self@));
        }
        out
    }
}


/// Whether `p` is an initial segment of `s`.
pub open spec fn is_prefix(p: Seq<char>, s: Seq<char>) -> bool {
    p.len() <= s.len() && p == s.subrange(0, p.len() as int)
}

/// Consume an expected literal.
pub open spec fn p_lit(s: Seq<char>, lit: Seq<char>) -> Option<Seq<char>> {
    if is_prefix(lit, s) {
        Some(s.skip(lit.len() as int))
    } else {
        None
    }
}

pub open spec fn is_digit(c: char) -> bool {
    '0' <= c && c <= '9'
}

pub open spec fn digit_val(c: char) -> nat {
    (((c as u32) - 48) as nat)
}

/// The value of a hexadecimal digit, or `-1` for any other character.
pub open spec fn hex_lo_val(c: char) -> int {
    if is_digit(c) {
        ((c as u32) - 48) as int
    } else if 'A' <= c && c <= 'F' {
        ((c as u32) - 55) as int
    } else if 'a' <= c && c <= 'f' {
        ((c as u32) - 87) as int
    } else {
        -1
    }
}

pub open spec fn str_cons(c: char, r: Option<(Seq<char>, Seq<char>)>) -> Option<(Seq<char>, Seq<char>)> {
    match r {
        Some((x, rest)) => Some((seq![c] + x, rest)),
        None => None,
    }
}

/// The body of a JSON string after its opening quote: the decoded
/// characters and what follows the closing quote.
pub open spec fn p_str_body(s: Seq<char>) -> Option<(Seq<char>, Seq<char>)>
    decreases s.len(),
{
    if s.len() == 0 {
        None
    } else if s[0] == '"' {
        Some((Seq::empty(), s.drop_first()))
    } else if s[0] == '\\' {
        if s.len() >= 2 && s[1] == '"' {
            str_cons('"', p_str_body(s.skip(2)))
        } else if s.len() >= 2 && s[1] == '\\' {
            str_cons('\\', p_str_body(s.skip(2)))
        } else if s.len() >= 6 && s[1] == 'u' && s[2] == '0' && s[3] == '0' && hex_lo_val(s[4]) >= 0
            && hex_lo_val(s[5]) >= 0 {
            str_cons(
                (((16 * hex_lo_val(s[4]) + hex_lo_val(s[5])) as u8) as char),
                p_str_body(s.skip(6)),
            )
        } else {
            None
        }
    } else {
        str_cons(s[0], p_str_body(s.drop_first()))
    }
}

/// A whole JSON string, quotes included.
pub open spec fn p_jstr(s: Seq<char>) -> Option<(Seq<char>, Seq<char>)> {
    if s.len() >= 1 && s[0] == '"' {
        p_str_body(s.drop_first())
    } else {
        None
    }
}

/// The longest digit prefix and what follows it.
pub open spec fn p_digits(s: Seq<char>) -> (Seq<char>, Seq<char>)
    decreases s.len(),
{
    if s.len() > 0 && is_digit(s[0]) {
        let (ds, rest) = p_digits(s.drop_first());
        (seq![s[0]] + ds, rest)
    } else {
        (Seq::empty(), s)
    }
}

/// The value of a digit run, most significant first.
pub open spec fn val_of(ds: Seq<char>) -> nat
    decreases ds.len(),
{
    if ds.len() == 0 {
        0
    } else {
        val_of(ds.drop_last()) * 10 + digit_val(ds.last())
    }
}

/// An unsigned decimal number no larger than `bound`.
pub open spec fn p_unat(s: Seq<char>, bound: nat) -> Option<(nat, Seq<char>)> {
    let (ds, rest) = p_digits(s);
    if ds.len() == 0 || val_of(ds) > bound {
        None
    } else {
        Some((val_of(ds), rest))
    }
}

/// A signed 64-bit decimal number.
pub open spec fn p_i64v(s: Seq<char>) -> Option<(i64, Seq<char>)> {
    if s.len() > 0 && s[0] == '-' {
        match p_unat(s.drop_first(), 0x8000_0000_0000_0000) {
            Some((v, rest)) => Some(((-(v as int)) as i64, rest)),
            None => None,
        }
    } else {
        match p_unat(s, 0x7FFF_FFFF_FFFF_FFFF) {
            Some((v, rest)) => Some((v as i64, rest)),
            None => None,
        }
    }
}

/// A column value: `null` or a JSON string.
pub open spec fn p_val(s: Seq<char>) -> Option<(Option<Seq<char>>, Seq<char>)> {
    match p_lit(s, "null"@) {
        Some(rest) => Some((None, rest)),
        None => match p_jstr(s) {
            Some((x, rest)) => Some((Some(x), rest)),
            None => None,
        },
    }
}

/// One tuple member: a name, a colon, a value.
pub open spec fn p_field(s: Seq<char>) -> Option<(FieldV, Seq<char>)> {
    match p_jstr(s) {
        None => None,
        Some((name, r1)) => match p_lit(r1, seq![':']) {
            None => None,
            Some(r2) => match p_val(r2) {
                None => None,
                Some((v, r3)) => Some((FieldV { name, value: v }, r3)),
            },
        },
    }
}

/// The members after the first: comma-separated until the closing brace.
pub open spec fn p_fields_rest(s: Seq<char>, acc: Seq<FieldV>, fuel: nat) -> Option<
    (Seq<FieldV>, Seq<char>),
>
    decreases fuel,
{
    if s.len() > 0 && s[0] == '}' {
        Some((acc, s.drop_first()))
    } else if s.len() > 0 && s[0] == ',' {
        if fuel == 0 {
            None
        } else {
            match p_field(s.drop_first()) {
                None => None,
                Some((f, r)) => p_fields_rest(r, acc.push(f), (fuel - 1) as nat),
            }
        }
    } else {
        None
    }
}

/// A tuple object.
pub open spec fn p_tuple(s: Seq<char>) -> Option<(Seq<FieldV>, Seq<char>)> {
    if s.len() > 0 && s[0] == '{' {
        let s1 = s.drop_first();
        if s1.len() > 0 && s1[0] == '}' {
            Some((Seq::empty(), s1.drop_first()))
        } else {
            match p_field(s1) {
                None => None,
                Some((f, r)) => p_fields_rest(r, seq![f], s.len()),
            }
        }
    } else {
        None
    }
}

/// An optional old tuple: `null` or a tuple object.
pub open spec fn p_opt_tuple(s: Seq<char>) -> Option<(Option<Seq<FieldV>>, Seq<char>)> {
    match p_lit(s, "null"@) {
        Some(rest) => Some((None, rest)),
        None => match p_tuple(s) {
            Some((fs, rest)) => Some((Some(fs), rest)),
            None => None,
        },
    }
}

/// One column definition object.
pub open spec fn p_col(s: Seq<char>) -> Option<(ColumnInfoV, Seq<char>)> {
    match p_lit(s, "{\"name\":"@) {
        None => None,
        Some(r1) => match p_jstr(r1) {
            None => None,
            Some((name, r2)) => match p_lit(r2, ",\"type_id\":"@) {
                None => None,
                Some(r3) => match p_unat(r3, 0xFFFF_FFFF) {
                    None => None,
                    Some((tid, r4)) => match p_lit(r4, ",\"flags\":"@) {
                        None => None,
                        Some(r5) => match p_unat(r5, 255) {
                            None => None,
                            Some((fl, r6)) => match p_lit(r6, seq!['}']) {
                                None => None,
                                Some(r7) => Some(
                                    (ColumnInfoV { name, type_id: tid as u32, flags: fl as u8 }, r7),
                                ),
                            },
                        },
                    },
                },
            },
        },
    }
}

/// The column definitions after the first: comma-separated until the
/// closing bracket.
pub open spec fn p_cols_rest(s: Seq<char>, acc: Seq<ColumnInfoV>, fuel: nat) -> Option<
    (Seq<ColumnInfoV>, Seq<char>),
>
    decreases fuel,
{
    if s.len() > 0 && s[0] == ']' {
        Some((acc, s.drop_first()))
    } else if s.len() > 0 && s[0] == ',' {
        if fuel == 0 {
            None
        } else {
            match p_col(s.drop_first()) {
                None => None,
                Some((c, r)) => p_cols_rest(r, acc.push(c), (fuel - 1) as nat),
            }
        }
    } else {
        None
    }
}

/// A column definition array.
pub open spec fn p_cols(s: Seq<char>) -> Option<(Seq<ColumnInfoV>, Seq<char>)> {
    if s.len() > 0 && s[0] == '[' {
        let s1 = s.drop_first();
        if s1.len() > 0 && s1[0] == ']' {
            Some((Seq::empty(), s1.drop_first()))
        } else {
            match p_col(s1) {
                None => None,
                Some((c, r)) => p_cols_rest(r, seq![c], s.len()),
            }
        }
    } else {
        None
    }
}

/// The fields of a transaction-begin document, after its head literal.
pub open spec fn p_begin_body(s: Seq<char>) -> Option<(ChangeV, Seq<char>)> {
    match p_jstr(s) {
        None => None,
        Some((lsn, r1)) => match p_lit(r1, ",\"timestamp\":"@) {
            None => None,
            Some(r2) => match p_i64v(r2) {
                None => None,
                Some((ts, r3)) => match p_lit(r3, ",\"xid\":"@) {
                    None => None,
                    Some(r4) => match p_unat(r4, 0xFFFF_FFFF) {
                        None => None,
                        Some((xid, r5)) => match p_lit(r5, "}}"@) {
                            None => None,
                            Some(r6) => Some(
                                (ChangeV::Begin { lsn, timestamp: ts, xid: xid as u32 }, r6),
                            ),
                        },
                    },
                },
            },
        },
    }
}

/// The fields of a transaction-commit document, after its head literal.
pub open spec fn p_commit_body(s: Seq<char>) -> Option<(ChangeV, Seq<char>)> {
    match p_jstr(s) {
        None => None,
        Some((lsn, r1)) => match p_lit(r1, ",\"timestamp\":"@) {
            None => None,
            Some(r2) => match p_i64v(r2) {
                None => None,
                Some((ts, r3)) => match p_lit(r3, "}}"@) {
                    None => None,
                    Some(r4) => Some((ChangeV::Commit { lsn, timestamp: ts }, r4)),
                },
            },
        },
    }
}

/// The fields of an insert document, after its head literal.
pub open spec fn p_insert_body(s: Seq<char>) -> Option<(ChangeV, Seq<char>)> {
    match p_unat(s, 0xFFFF_FFFF) {
        None => None,
        Some((rid, r1)) => match p_lit(r1, ",\"schema\":"@) {
            None => None,
            Some(r2) => match p_jstr(r2) {
                None => None,
                Some((schema, r3)) => match p_lit(r3, ",\"table\":"@) {
                    None => None,
                    Some(r4) => match p_jstr(r4) {
                        None => None,
                        Some((table, r5)) => match p_lit(r5, ",\"new_tuple\":"@) {
                            None => None,
                            Some(r6) => match p_tuple(r6) {
                                None => None,
                                Some((nt, r7)) => match p_lit(r7, "}}"@) {
                                    None => None,
                                    Some(r8) => Some(
                                        (
                                            ChangeV::Insert {
                                                relation_id: rid as u32,
                                                schema,
                                                table,
                                                new_tuple: nt,
                                            },
                                            r8,
                                        ),
                                    ),
                                },
                            },
                        },
                    },
                },
            },
        },
    }
}

/// The fields of an update document, after its head literal.
pub open spec fn p_update_body(s: Seq<char>) -> Option<(ChangeV, Seq<char>)> {
    match p_unat(s, 0xFFFF_FFFF) {
        None => None,
        Some((rid, r1)) => match p_lit(r1, ",\"schema\":"@) {
            None => None,
            Some(r2) => match p_jstr(r2) {
                None => None,
                Some((schema, r3)) => match p_lit(r3, ",\"table\":"@) {
                    None => None,
                    Some(r4) => match p_jstr(r4) {
                        None => None,
                        Some((table, r5)) => match p_lit(r5, ",\"old_tuple\":"@) {
                            None => None,
                            Some(r6) => match p_opt_tuple(r6) {
                                None => None,
                                Some((ot, r7)) => match p_lit(r7, ",\"new_tuple\":"@) {
                                    None => None,
                                    Some(r8) => match p_tuple(r8) {
                                        None => None,
                                        Some((nt, r9)) => match p_lit(r9, "}}"@) {
                                            None => None,
                                            Some(r10) => Some(
                                                (
                                                    ChangeV::Update {
                                                        relation_id: rid as u32,
                                                        schema,
                                                        table,
                                                        old_tuple: ot,
                                                        new_tuple: nt,
                                                    },
                                                    r10,
                                                ),
                                            ),
                                        },
                                    },
                                },
                            },
                        },
                    },
                },
            },
        },
    }
}

/// The fields of a delete document, after its head literal.
pub open spec fn p_delete_body(s: Seq<char>) -> Option<(ChangeV, Seq<char>)> {
    match p_unat(s, 0xFFFF_FFFF) {
        None => None,
        Some((rid, r1)) => match p_lit(r1, ",\"schema\":"@) {
            None => None,
            Some(r2) => match p_jstr(r2) {
                None => None,
                Some((schema, r3)) => match p_lit(r3, ",\"table\":"@) {
                    None => None,
                    Some(r4) => match p_jstr(r4) {
                        None => None,
                        Some((table, r5)) => match p_lit(r5, ",\"old_tuple\":"@) {
                            None => None,
                            Some(r6) => match p_tuple(r6) {
                                None => None,
                                Some((ot, r7)) => match p_lit(r7, "}}"@) {
                                    None => None,
                                    Some(r8) => Some(
                                        (
                                            ChangeV::Delete {
                                                relation_id: rid as u32,
                                                schema,
                                                table,
                                                old_tuple: ot,
                                            },
                                            r8,
                                        ),
                                    ),
                                },
                            },
                        },
                    },
                },
            },
        },
    }
}

/// The fields of a schema document, after its head literal.
pub open spec fn p_relation_body(s: Seq<char>) -> Option<(ChangeV, Seq<char>)> {
    match p_unat(s, 0xFFFF_FFFF) {
        None => None,
        Some((rid, r1)) => match p_lit(r1, ",\"schema\":"@) {
            None => None,
            Some(r2) => match p_jstr(r2) {
                None => None,
                Some((schema, r3)) => match p_lit(r3, ",\"table\":"@) {
                    None => None,
                    Some(r4) => match p_jstr(r4) {
                        None => None,
                        Some((table, r5)) => match p_lit(r5, ",\"columns\":"@) {
                            None => None,
                            Some(r6) => match p_cols(r6) {
                                None => None,
                                Some((cols, r7)) => match p_lit(r7, "}}"@) {
                                    None => None,
                                    Some(r8) => Some(
                                        (
                                            ChangeV::Relation {
                                                relation_id: rid as u32,
                                                schema,
                                                table,
                                                columns: cols,
                                            },
                                            r8,
                                        ),
                                    ),
                                },
                            },
                        },
                    },
                },
            },
        },
    }
}

/// One change document and what follows it.
pub open spec fn p_change(s: Seq<char>) -> Option<(ChangeV, Seq<char>)> {
    if p_lit(s, "{\"Begin\":{\"lsn\":"@) is Some {
        p_begin_body(p_lit(s, "{\"Begin\":{\"lsn\":"@)->Some_0)
    } else if p_lit(s, "{\"Commit\":{\"lsn\":"@) is Some {
        p_commit_body(p_lit(s, "{\"Commit\":{\"lsn\":"@)->Some_0)
    } else if p_lit(s, "{\"Insert\":{\"relation_id\":"@) is Some {
        p_insert_body(p_lit(s, "{\"Insert\":{\"relation_id\":"@)->Some_0)
    } else if p_lit(s, "{\"Update\":{\"relation_id\":"@) is Some {
        p_update_body(p_lit(s, "{\"Update\":{\"relation_id\":"@)->Some_0)
    } else if p_lit(s, "{\"Delete\":{\"relation_id\":"@) is Some {
        p_delete_body(p_lit(s, "{\"Delete\":{\"relation_id\":"@)->Some_0)
    } else if p_lit(s, "{\"Relation\":{\"relation_id\":"@) is Some {
        p_relation_body(p_lit(s, "{\"Relation\":{\"relation_id\":"@)->Some_0)
    } else {
        None
    }
}

/// A whole document: one change with nothing after it.
pub open spec fn parse_change(s: Seq<char>) -> Option<ChangeV> {
    match p_change(s) {
        Some((c, rest)) => if rest.len() == 0 {
            Some(c)
        } else {
            None
        },
        None => None,
    }
}

proof fn lemma_lit_rt(lit: Seq<char>, rest: Seq<char>)
    ensures
        p_lit(lit + rest, lit) == Some(rest),
{
    assert((lit + rest).subrange(0, lit.len() as int) =~= lit);
    assert((lit + rest).skip(lit.len() as int) =~= rest);
}

proof fn lemma_lit_mismatch(s: Seq<char>, lit: Seq<char>, k: int)
    requires
        0 <= k < lit.len(),
        k < s.len(),
        s[k] != lit[k],
    ensures
        p_lit(s, lit) is None,
{
    if is_prefix(lit, s) {
        assert(s.subrange(0, lit.len() as int)[k] == s[k]);
    }
}

proof fn lemma_hex_digit_val(d: nat)
    requires
        d < 16,
    ensures
        hex_lo_val(hex_digit(d)) == d,
{
}

proof fn lemma_digit_char(d: nat)
    requires
        d < 10,
    ensures
        is_digit(hex_digit(d)),
        digit_val(hex_digit(d)) == d,
{
}

proof fn lemma_char_code_rt(c: char)
    requires
        (c as u32) < 32,
    ensures
        (((c as u32) as u8) as char) == c,
{
}

proof fn lemma_str_body_rt(x: Seq<char>, rest: Seq<char>)
    ensures
        p_str_body(esc(x) + seq!['"'] + rest) == Some((x, rest)),
    decreases x.len(),
{
    let s = esc(x) + seq!['"'] + rest;
    if x.len() == 0 {
        assert(esc(x) =~= Seq::<char>::empty());
        assert(s =~= seq!['"'] + rest);
        assert(s[0] == '"');
        assert(s.drop_first() =~= rest);
        assert(Seq::<char>::empty() =~= x);
    } else {
        let c = x[0];
        let x1 = x.drop_first();
        lemma_str_body_rt(x1, rest);
        let s1 = esc(x1) + seq!['"'] + rest;
        if c == '"' {
            assert(s =~= seq!['\\', '"'] + s1);
            assert(s.skip(2) =~= s1);
            assert(seq![c] + x1 =~= x);
        } else if c == '\\' {
            assert(s =~= seq!['\\', '\\'] + s1);
            assert(s.skip(2) =~= s1);
            assert(seq![c] + x1 =~= x);
        } else if (c as u32) < 32 {
            let code = c as u32;
            let hi = (code / 16) as nat;
            let lo = (code % 16) as nat;
            assert(s =~= seq!['\\', 'u', '0', '0', hex_digit(hi), hex_digit(lo)] + s1);
            lemma_hex_digit_val(hi);
            lemma_hex_digit_val(lo);
            assert(16 * (code / 16) + code % 16 == code) by (nonlinear_arith);
            assert(s[4] == hex_digit(hi));
            assert(s[5] == hex_digit(lo));
            assert(hex_lo_val(s[4]) == hi as int);
            assert(hex_lo_val(s[5]) == lo as int);
            assert(16 * hex_lo_val(s[4]) + hex_lo_val(s[5]) == code);
            lemma_char_code_rt(c);
            assert(((code as u8) as char) == c);
            assert((((16 * hex_lo_val(s[4]) + hex_lo_val(s[5])) as u8) as char) == c);
            assert(s.skip(6) =~= s1);
            assert(seq![c] + x1 =~= x);
        } else {
            assert(s =~= seq![c] + s1);
            assert(s.drop_first() =~= s1);
            assert(seq![c] + x1 =~= x);
        }
    }
}

proof fn lemma_jstr_rt(x: Seq<char>, rest: Seq<char>)
    ensures
        p_jstr(jstr(x) + rest) == Some((x, rest)),
{
    let s = jstr(x) + rest;
    assert(s =~= seq!['"'] + (esc(x) + seq!['"'] + rest));
    assert(s[0] == '"');
    assert(s.drop_first() =~= esc(x) + seq!['"'] + rest);
    lemma_str_body_rt(x, rest);
}

proof fn lemma_dec_seq_digits(n: nat)
    ensures
        dec_seq(n).len() >= 1,
        forall|i: int| 0 <= i < dec_seq(n).len() ==> is_digit(#[trigger] dec_seq(n)[i]),
    decreases n,
{
    if n < 10 {
        lemma_digit_char(n);
    } else {
        lemma_dec_seq_digits(n / 10);
        lemma_digit_char(n % 10);
        assert(forall|i: int|
            0 <= i < dec_seq(n / 10).len() ==> dec_seq(n)[i] == dec_seq(n / 10)[i]);
        assert(dec_seq(n)[dec_seq(n).len() - 1] == hex_digit(n % 10));
    }
}

proof fn lemma_p_digits_split(a: Seq<char>, b: Seq<char>)
    requires
        forall|i: int| 0 <= i < a.len() ==> is_digit(#[trigger] a[i]),
        b.len() == 0 || !is_digit(b[0]),
    ensures
        p_digits(a + b) == (a, b),
    decreases a.len(),
{
    if a.len() == 0 {
        assert(a + b =~= b);
        assert(Seq::<char>::empty() =~= a);
    } else {
        assert((a + b)[0] == a[0]);
        assert((a + b).drop_first() =~= a.drop_first() + b);
        lemma_p_digits_split(a.drop_first(), b);
        assert(seq![a[0]] + a.drop_first() =~= a);
    }
}

proof fn lemma_val_of_dec_seq(n: nat)
    ensures
        val_of(dec_seq(n)) == n,
    decreases n,
{
    if n < 10 {
        lemma_digit_char(n);
        assert(dec_seq(n) =~= seq![hex_digit(n)]);
        assert(seq![hex_digit(n)].drop_last() =~= Seq::<char>::empty());
        assert(val_of(Seq::<char>::empty()) == 0);
    } else {
        lemma_val_of_dec_seq(n / 10);
        lemma_digit_char(n % 10);
        let ds = dec_seq(n);
        assert(ds == dec_seq(n / 10) + seq![hex_digit(n % 10)]);
        assert(ds.drop_last() =~= dec_seq(n / 10));
        assert(ds.last() == hex_digit(n % 10));
        assert(n / 10 * 10 + n % 10 == n) by (nonlinear_arith);
    }
}

proof fn lemma_unat_rt(n: nat, bound: nat, rest: Seq<char>)
    requires
        n <= bound,
        rest.len() == 0 || !is_digit(rest[0]),
    ensures
        p_unat(dec_seq(n) + rest, bound) == Some((n, rest)),
{
    lemma_dec_seq_digits(n);
    lemma_p_digits_split(dec_seq(n), rest);
    lemma_val_of_dec_seq(n);
}

proof fn lemma_i64_rt(t: i64, rest: Seq<char>)
    requires
        rest.len() == 0 || !is_digit(rest[0]),
    ensures
        p_i64v(dec_i64(t) + rest) == Some((t, rest)),
{
    let s = dec_i64(t) + rest;
    if t >= 0 {
        lemma_dec_seq_digits(t as nat);
        assert(s[0] == dec_seq(t as nat)[0]);
        assert(is_digit(s[0]));
        assert(s[0] != '-');
        lemma_unat_rt(t as nat, 0x7FFF_FFFF_FFFF_FFFF, rest);
        assert(dec_seq(t as nat) + rest =~= s);
    } else {
        let mag = (-(t as int)) as nat;
        assert(s =~= seq!['-'] + (dec_seq(mag) + rest));
        assert(s[0] == '-');
        assert(s.drop_first() =~= dec_seq(mag) + rest);
        lemma_unat_rt(mag, 0x8000_0000_0000_0000, rest);
        assert((-(mag as int)) as i64 == t);
    }
}

proof fn lemma_val_rt(v: Option<Seq<char>>, rest: Seq<char>)
    ensures
        p_val(val_json(v) + rest) == Some((v, rest)),
{
    let s = val_json(v) + rest;
    match v {
        None => {
            lemma_lit_rt("null"@, rest);
        }
        Some(x) => {
            reveal_strlit("null");
            assert(s =~= seq!['"'] + (esc(x) + seq!['"'] + rest));
            assert(s[0] == '"');
            assert("null"@[0] == 'n');
            lemma_lit_mismatch(s, "null"@, 0);
            lemma_jstr_rt(x, rest);
            assert(jstr(x) + rest =~= s);
        }
    }
}

proof fn lemma_field_rt(f: FieldV, rest: Seq<char>)
    ensures
        p_field(field_json(f) + rest) == Some((f, rest)),
{
    let s = field_json(f) + rest;
    let t1 = seq![':'] + (val_json(f.value) + rest);
    assert(s =~= jstr(f.name) + t1);
    lemma_jstr_rt(f.name, t1);
    lemma_lit_rt(seq![':'], val_json(f.value) + rest);
    lemma_val_rt(f.value, rest);
    match f {
        FieldV { name, value } => {
            assert(FieldV { name: f.name, value: f.value } == f);
        }
    }
}

proof fn lemma_rfj_len(fs: Seq<FieldV>)
    ensures
        rest_fields_json(fs).len() >= fs.len(),
    decreases fs.len(),
{
    if fs.len() > 0 {
        lemma_rfj_len(fs.drop_first());
    }
}

proof fn lemma_fields_rest_rt(fs: Seq<FieldV>, acc: Seq<FieldV>, fuel: nat, rest: Seq<char>)
    requires
        fuel >= fs.len(),
    ensures
        p_fields_rest(rest_fields_json(fs) + seq!['}'] + rest, acc, fuel) == Some((acc + fs, rest)),
    decreases fs.len(),
{
    let s = rest_fields_json(fs) + seq!['}'] + rest;
    if fs.len() == 0 {
        assert(s =~= seq!['}'] + rest);
        assert(s.drop_first() =~= rest);
        assert(acc + fs =~= acc);
    } else {
        let f0 = fs[0];
        let fs1 = fs.drop_first();
        let tail = rest_fields_json(fs1) + seq!['}'] + rest;
        assert(s =~= seq![','] + (field_json(f0) + tail));
        assert(s[0] == ',');
        assert(s.drop_first() =~= field_json(f0) + tail);
        lemma_field_rt(f0, tail);
        lemma_fields_rest_rt(fs1, acc.push(f0), (fuel - 1) as nat, rest);
        assert(acc.push(f0) + fs1 =~= acc + fs);
    }
}

#[verifier::rlimit(50)]
proof fn lemma_tuple_rt(fs: Seq<FieldV>, rest: Seq<char>)
    ensures
        p_tuple(tuple_json(fs) + rest) == Some((fs, rest)),
{
    let s = tuple_json(fs) + rest;
    if fs.len() == 0 {
        assert(s =~= seq!['{'] + (seq!['}'] + rest));
        assert(s[0] == '{');
        assert(s.drop_first() =~= seq!['}'] + rest);
        assert(s.drop_first()[0] == '}');
        assert(s.drop_first().drop_first() =~= rest);
        assert(Seq::<FieldV>::empty() =~= fs);
    } else {
        let f0 = fs[0];
        let fs1 = fs.drop_first();
        let tail = rest_fields_json(fs1) + seq!['}'] + rest;
        assert(s =~= seq!['{'] + (field_json(f0) + tail));
        assert(s[0] == '{');
        let s1 = s.drop_first();
        assert(s1 =~= field_json(f0) + tail);
        assert(s1 =~= jstr(f0.name) + (seq![':'] + (val_json(f0.value) + tail)));
        assert(s1[0] == '"');
        assert(s1.len() > 0 && s1[0] != '}');
        lemma_field_rt(f0, tail);
        lemma_rfj_len(fs1);
        assert(s.len() >= fs1.len());
        lemma_fields_rest_rt(fs1, seq![f0], s.len(), rest);
        assert(seq![f0] + fs1 =~= fs);
    }
}

proof fn lemma_opt_tuple_rt(o: Option<Seq<FieldV>>, rest: Seq<char>)
    ensures
        p_opt_tuple(opt_tuple_json(o) + rest) == Some((o, rest)),
{
    let s = opt_tuple_json(o) + rest;
    match o {
        None => {
            lemma_lit_rt("null"@, rest);
        }
        Some(fs) => {
            reveal_strlit("null");
            assert(s =~= seq!['{'] + ((if fs.len() == 0 {
                Seq::<char>::empty()
            } else {
                field_json(fs[0]) + rest_fields_json(fs.drop_first())
            }) + seq!['}'] + rest));
            assert(s[0] == '{');
            assert("null"@[0] == 'n');
            lemma_lit_mismatch(s, "null"@, 0);
            lemma_tuple_rt(fs, rest);
            assert(tuple_json(fs) + rest =~= s);
        }
    }
}

proof fn lemma_col_rt(c: ColumnInfoV, rest: Seq<char>)
    ensures
        p_col(col_json(c) + rest) == Some((c, rest)),
{
    reveal_strlit(",\"type_id\":");
    reveal_strlit(",\"flags\":");
    let s = col_json(c) + rest;
    let t4 = seq!['}'] + rest;
    let t3 = dec_seq(c.flags as nat) + t4;
    let t2 = ",\"flags\":"@ + t3;
    let t1 = dec_seq(c.type_id as nat) + t2;
    let t0 = ",\"type_id\":"@ + t1;
    let tn = jstr(c.name) + t0;
    assert(s =~= "{\"name\":"@ + tn);
    lemma_lit_rt("{\"name\":"@, tn);
    lemma_jstr_rt(c.name, t0);
    lemma_lit_rt(",\"type_id\":"@, t1);
    assert(t2[0] == ',');
    assert(!is_digit(t2[0]));
    lemma_unat_rt(c.type_id as nat, 0xFFFF_FFFF, t2);
    assert(dec_seq(c.type_id as nat) + t2 =~= t1);
    lemma_lit_rt(",\"flags\":"@, t3);
    assert(t4[0] == '}');
    assert(!is_digit(t4[0]));
    lemma_unat_rt(c.flags as nat, 255, t4);
    assert(dec_seq(c.flags as nat) + t4 =~= t3);
    lemma_lit_rt(seq!['}'], rest);
    match c {
        ColumnInfoV { name, type_id, flags } => {
            assert(ColumnInfoV {
                name: c.name,
                type_id: ((c.type_id as nat) as u32),
                flags: ((c.flags as nat) as u8),
            } == c);
        }
    }
}

proof fn lemma_rcj_len(cs: Seq<ColumnInfoV>)
    ensures
        rest_cols_json(cs).len() >= cs.len(),
    decreases cs.len(),
{
    if cs.len() > 0 {
        lemma_rcj_len(cs.drop_first());
    }
}

#[verifier::rlimit(50)]
proof fn lemma_cols_rest_rt(cs: Seq<ColumnInfoV>, acc: Seq<ColumnInfoV>, fuel: nat, rest: Seq<char>)
    requires
        fuel >= cs.len(),
    ensures
        p_cols_rest(rest_cols_json(cs) + seq![']'] + rest, acc, fuel) == Some((acc + cs, rest)),
    decreases cs.len(),
{
    let s = rest_cols_json(cs) + seq![']'] + rest;
    if cs.len() == 0 {
        assert(s =~= seq![']'] + rest);
        assert(s.drop_first() =~= rest);
        assert(acc + cs =~= acc);
    } else {
        let c0 = cs[0];
        let cs1 = cs.drop_first();
        let tail = rest_cols_json(cs1) + seq![']'] + rest;
        assert(s =~= seq![','] + (col_json(c0) + tail));
        assert(s[0] == ',');
        assert(s.drop_first() =~= col_json(c0) + tail);
        lemma_col_rt(c0, tail);
        lemma_cols_rest_rt(cs1, acc.push(c0), (fuel - 1) as nat, rest);
        assert(acc.push(c0) + cs1 =~= acc + cs);
    }
}

#[verifier::rlimit(50)]
proof fn lemma_cols_rt(cs: Seq<ColumnInfoV>, rest: Seq<char>)
    ensures
        p_cols(cols_json(cs) + rest) == Some((cs, rest)),
{
    reveal_strlit("{\"name\":");
    let s = cols_json(cs) + rest;
    if cs.len() == 0 {
        assert(s =~= seq!['['] + (seq![']'] + rest));
        assert(s[0] == '[');
        assert(s.drop_first() =~= seq![']'] + rest);
        assert(s.drop_first()[0] == ']');
        assert(s.drop_first().drop_first() =~= rest);
        assert(Seq::<ColumnInfoV>::empty() =~= cs);
    } else {
        let c0 = cs[0];
        let cs1 = cs.drop_first();
        let tail = rest_cols_json(cs1) + seq![']'] + rest;
        assert(s =~= seq!['['] + (col_json(c0) + tail));
        assert(s[0] == '[');
        let s1 = s.drop_first();
        assert(s1 =~= col_json(c0) + tail);
        assert(s1 =~= "{\"name\":"@ + (jstr(c0.name) + (",\"type_id\":"@ + (dec_seq(
            c0.type_id as nat,
        ) + (",\"flags\":"@ + (dec_seq(c0.flags as nat) + (seq!['}'] + tail)))))));
        assert(s1[0] == '{');
        assert(s1.len() > 0 && s1[0] != ']');
        lemma_col_rt(c0, tail);
        lemma_rcj_len(cs1);
        assert(s.len() >= cs1.len());
        lemma_cols_rest_rt(cs1, seq![c0], s.len(), rest);
        assert(seq![c0] + cs1 =~= cs);
    }
}


#[verifier::rlimit(60)]
proof fn lemma_change_rt_begin(lsn: Seq<char>, timestamp: i64, xid: u32, rest: Seq<char>)
    ensures
        p_change(json_of(ChangeV::Begin { lsn, timestamp, xid }) + rest) == Some(
            (ChangeV::Begin { lsn, timestamp, xid }, rest),
        ),
{
    reveal_strlit("{\"Begin\":{\"lsn\":");
    reveal_strlit(",\"timestamp\":");
    reveal_strlit(",\"xid\":");
    reveal_strlit("}}");
    let c = ChangeV::Begin { lsn, timestamp, xid };
    let t5 = "}}"@ + rest;
    let t4 = dec_seq(xid as nat) + t5;
    let t3 = ",\"xid\":"@ + t4;
    let t2 = dec_i64(timestamp) + t3;
    let t1 = ",\"timestamp\":"@ + t2;
    let t0 = jstr(lsn) + t1;
    let s = json_of(c) + rest;
    assert(s =~= "{\"Begin\":{\"lsn\":"@ + t0);
    lemma_lit_rt("{\"Begin\":{\"lsn\":"@, t0);
    lemma_jstr_rt(lsn, t1);
    lemma_lit_rt(",\"timestamp\":"@, t2);
    assert(t3[0] == ',');
    lemma_i64_rt(timestamp, t3);
    assert(dec_i64(timestamp) + t3 =~= t2);
    lemma_lit_rt(",\"xid\":"@, t4);
    assert(t5[0] == '}');
    lemma_unat_rt(xid as nat, 0xFFFF_FFFF, t5);
    assert(dec_seq(xid as nat) + t5 =~= t4);
    lemma_lit_rt("}}"@, rest);
}

#[verifier::rlimit(60)]
proof fn lemma_change_rt_commit(lsn: Seq<char>, timestamp: i64, rest: Seq<char>)
    ensures
        p_change(json_of(ChangeV::Commit { lsn, timestamp }) + rest) == Some(
            (ChangeV::Commit { lsn, timestamp }, rest),
        ),
{
    reveal_strlit("{\"Begin\":{\"lsn\":");
    reveal_strlit("{\"Commit\":{\"lsn\":");
    reveal_strlit(",\"timestamp\":");
    reveal_strlit("}}");
    let c = ChangeV::Commit { lsn, timestamp };
    let t3 = "}}"@ + rest;
    let t2 = dec_i64(timestamp) + t3;
    let t1 = ",\"timestamp\":"@ + t2;
    let t0 = jstr(lsn) + t1;
    let s = json_of(c) + rest;
    assert(s =~= "{\"Commit\":{\"lsn\":"@ + t0);
    assert(s[2] == "{\"Commit\":{\"lsn\":"@[2]);
    assert(s[2] == 'C');
    assert("{\"Begin\":{\"lsn\":"@[2] == 'B');
    lemma_lit_mismatch(s, "{\"Begin\":{\"lsn\":"@, 2);
    lemma_lit_rt("{\"Commit\":{\"lsn\":"@, t0);
    lemma_jstr_rt(lsn, t1);
    lemma_lit_rt(",\"timestamp\":"@, t2);
    assert(t3[0] == '}');
    lemma_i64_rt(timestamp, t3);
    assert(dec_i64(timestamp) + t3 =~= t2);
    lemma_lit_rt("}}"@, rest);
}

#[verifier::rlimit(60)]
proof fn lemma_change_rt_insert(
    relation_id: u32,
    schema: Seq<char>,
    table: Seq<char>,
    new_tuple: Seq<FieldV>,
    rest: Seq<char>,
)
    ensures
        p_change(json_of(ChangeV::Insert { relation_id, schema, table, new_tuple }) + rest)
            == Some((ChangeV::Insert { relation_id, schema, table, new_tuple }, rest)),
{
    reveal_strlit("{\"Begin\":{\"lsn\":");
    reveal_strlit("{\"Commit\":{\"lsn\":");
    reveal_strlit("{\"Insert\":{\"relation_id\":");
    reveal_strlit(",\"schema\":");
    reveal_strlit(",\"table\":");
    reveal_strlit(",\"new_tuple\":");
    reveal_strlit("}}");
    let c = ChangeV::Insert { relation_id, schema, table, new_tuple };
    let t4 = "}}"@ + rest;
    let t3 = tuple_json(new_tuple) + t4;
    let t2b = ",\"new_tuple\":"@ + t3;
    let t2 = jstr(table) + t2b;
    let t1b = ",\"table\":"@ + t2;
    let t1 = jstr(schema) + t1b;
    let t0b = ",\"schema\":"@ + t1;
    let t0 = dec_seq(relation_id as nat) + t0b;
    let s = json_of(c) + rest;
    assert(s =~= "{\"Insert\":{\"relation_id\":"@ + t0);
    assert(s[2] == "{\"Insert\":{\"relation_id\":"@[2]);
    assert(s[2] == 'I');
    assert("{\"Begin\":{\"lsn\":"@[2] == 'B');
    assert("{\"Commit\":{\"lsn\":"@[2] == 'C');
    lemma_lit_mismatch(s, "{\"Begin\":{\"lsn\":"@, 2);
    lemma_lit_mismatch(s, "{\"Commit\":{\"lsn\":"@, 2);
    lemma_lit_rt("{\"Insert\":{\"relation_id\":"@, t0);
    assert(t0b[0] == ',');
    lemma_unat_rt(relation_id as nat, 0xFFFF_FFFF, t0b);
    assert(dec_seq(relation_id as nat) + t0b =~= t0);
    lemma_lit_rt(",\"schema\":"@, t1);
    lemma_jstr_rt(schema, t1b);
    lemma_lit_rt(",\"table\":"@, t2);
    lemma_jstr_rt(table, t2b);
    lemma_lit_rt(",\"new_tuple\":"@, t3);
    lemma_tuple_rt(new_tuple, t4);
    lemma_lit_rt("}}"@, rest);
}

#[verifier::rlimit(80)]
proof fn lemma_change_rt_update(
    relation_id: u32,
    schema: Seq<char>,
    table: Seq<char>,
    old_tuple: Option<Seq<FieldV>>,
    new_tuple: Seq<FieldV>,
    rest: Seq<char>,
)
    ensures
        p_change(
            json_of(ChangeV::Update { relation_id, schema, table, old_tuple, new_tuple }) + rest,
        ) == Some((ChangeV::Update { relation_id, schema, table, old_tuple, new_tuple }, rest)),
{
    reveal_strlit("{\"Begin\":{\"lsn\":");
    reveal_strlit("{\"Commit\":{\"lsn\":");
    reveal_strlit("{\"Insert\":{\"relation_id\":");
    reveal_strlit("{\"Update\":{\"relation_id\":");
    reveal_strlit(",\"schema\":");
    reveal_strlit(",\"table\":");
    reveal_strlit(",\"old_tuple\":");
    reveal_strlit(",\"new_tuple\":");
    reveal_strlit("}}");
    let c = ChangeV::Update { relation_id, schema, table, old_tuple, new_tuple };
    let t5 = "}}"@ + rest;
    let t4 = tuple_json(new_tuple) + t5;
    let t3b = ",\"new_tuple\":"@ + t4;
    let t3 = opt_tuple_json(old_tuple) + t3b;
    let t2b = ",\"old_tuple\":"@ + t3;
    let t2 = jstr(table) + t2b;
    let t1b = ",\"table\":"@ + t2;
    let t1 = jstr(schema) + t1b;
    let t0b = ",\"schema\":"@ + t1;
    let t0 = dec_seq(relation_id as nat) + t0b;
    let s = json_of(c) + rest;
    assert(s =~= "{\"Update\":{\"relation_id\":"@ + t0);
    assert(s[2] == "{\"Update\":{\"relation_id\":"@[2]);
    assert(s[2] == 'U');
    assert("{\"Begin\":{\"lsn\":"@[2] == 'B');
    assert("{\"Commit\":{\"lsn\":"@[2] == 'C');
    assert("{\"Insert\":{\"relation_id\":"@[2] == 'I');
    lemma_lit_mismatch(s, "{\"Begin\":{\"lsn\":"@, 2);
    lemma_lit_mismatch(s, "{\"Commit\":{\"lsn\":"@, 2);
    lemma_lit_mismatch(s, "{\"Insert\":{\"relation_id\":"@, 2);
    lemma_lit_rt("{\"Update\":{\"relation_id\":"@, t0);
    assert(t0b[0] == ',');
    lemma_unat_rt(relation_id as nat, 0xFFFF_FFFF, t0b);
    assert(dec_seq(relation_id as nat) + t0b =~= t0);
    lemma_lit_rt(",\"schema\":"@, t1);
    lemma_jstr_rt(schema, t1b);
    lemma_lit_rt(",\"table\":"@, t2);
    lemma_jstr_rt(table, t2b);
    lemma_lit_rt(",\"old_tuple\":"@, t3);
    lemma_opt_tuple_rt(old_tuple, t3b);
    assert(opt_tuple_json(old_tuple) + t3b =~= t3);
    lemma_lit_rt(",\"new_tuple\":"@, t4);
    lemma_tuple_rt(new_tuple, t5);
    lemma_lit_rt("}}"@, rest);
}

#[verifier::rlimit(60)]
proof fn lemma_change_rt_delete(
    relation_id: u32,
    schema: Seq<char>,
    table: Seq<char>,
    old_tuple: Seq<FieldV>,
    rest: Seq<char>,
)
    ensures
        p_change(json_of(ChangeV::Delete { relation_id, schema, table, old_tuple }) + rest)
            == Some((ChangeV::Delete { relation_id, schema, table, old_tuple }, rest)),
{
    reveal_strlit("{\"Begin\":{\"lsn\":");
    reveal_strlit("{\"Commit\":{\"lsn\":");
    reveal_strlit("{\"Insert\":{\"relation_id\":");
    reveal_strlit("{\"Update\":{\"relation_id\":");
    reveal_strlit("{\"Delete\":{\"relation_id\":");
    reveal_strlit(",\"schema\":");
    reveal_strlit(",\"table\":");
    reveal_strlit(",\"old_tuple\":");
    reveal_strlit("}}");
    let c = ChangeV::Delete { relation_id, schema, table, old_tuple };
    let t4 = "}}"@ + rest;
    let t3 = tuple_json(old_tuple) + t4;
    let t2b = ",\"old_tuple\":"@ + t3;
    let t2 = jstr(table) + t2b;
    let t1b = ",\"table\":"@ + t2;
    let t1 = jstr(schema) + t1b;
    let t0b = ",\"schema\":"@ + t1;
    let t0 = dec_seq(relation_id as nat) + t0b;
    let s = json_of(c) + rest;
    assert(s =~= "{\"Delete\":{\"relation_id\":"@ + t0);
    assert(s[2] == "{\"Delete\":{\"relation_id\":"@[2]);
    assert(s[2] == 'D');
    assert("{\"Begin\":{\"lsn\":"@[2] == 'B');
    assert("{\"Commit\":{\"lsn\":"@[2] == 'C');
    assert("{\"Insert\":{\"relation_id\":"@[2] == 'I');
    assert("{\"Update\":{\"relation_id\":"@[2] == 'U');
    lemma_lit_mismatch(s, "{\"Begin\":{\"lsn\":"@, 2);
    lemma_lit_mismatch(s, "{\"Commit\":{\"lsn\":"@, 2);
    lemma_lit_mismatch(s, "{\"Insert\":{\"relation_id\":"@, 2);
    lemma_lit_mismatch(s, "{\"Update\":{\"relation_id\":"@, 2);
    lemma_lit_rt("{\"Delete\":{\"relation_id\":"@, t0);
    assert(t0b[0] == ',');
    lemma_unat_rt(relation_id as nat, 0xFFFF_FFFF, t0b);
    assert(dec_seq(relation_id as nat) + t0b =~= t0);
    lemma_lit_rt(",\"schema\":"@, t1);
    lemma_jstr_rt(schema, t1b);
    lemma_lit_rt(",\"table\":"@, t2);
    lemma_jstr_rt(table, t2b);
    lemma_lit_rt(",\"old_tuple\":"@, t3);
    lemma_tuple_rt(old_tuple, t4);
    lemma_lit_rt("}}"@, rest);
}

#[verifier::rlimit(60)]
proof fn lemma_change_rt_relation(
    relation_id: u32,
    schema: Seq<char>,
    table: Seq<char>,
    columns: Seq<ColumnInfoV>,
    rest: Seq<char>,
)
    ensures
        p_change(json_of(ChangeV::Relation { relation_id, schema, table, columns }) + rest)
            == Some((ChangeV::Relation { relation_id, schema, table, columns }, rest)),
{
    reveal_strlit("{\"Begin\":{\"lsn\":");
    reveal_strlit("{\"Commit\":{\"lsn\":");
    reveal_strlit("{\"Insert\":{\"relation_id\":");
    reveal_strlit("{\"Update\":{\"relation_id\":");
    reveal_strlit("{\"Delete\":{\"relation_id\":");
    reveal_strlit("{\"Relation\":{\"relation_id\":");
    reveal_strlit(",\"schema\":");
    reveal_strlit(",\"table\":");
    reveal_strlit(",\"columns\":");
    reveal_strlit("}}");
    let c = ChangeV::Relation { relation_id, schema, table, columns };
    let t4 = "}}"@ + rest;
    let t3 = cols_json(columns) + t4;
    let t2b = ",\"columns\":"@ + t3;
    let t2 = jstr(table) + t2b;
    let t1b = ",\"table\":"@ + t2;
    let t1 = jstr(schema) + t1b;
    let t0b = ",\"schema\":"@ + t1;
    let t0 = dec_seq(relation_id as nat) + t0b;
    let s = json_of(c) + rest;
    assert(s =~= "{\"Relation\":{\"relation_id\":"@ + t0);
    assert(s[2] == "{\"Relation\":{\"relation_id\":"@[2]);
    assert(s[2] == 'R');
    assert("{\"Begin\":{\"lsn\":"@[2] == 'B');
    assert("{\"Commit\":{\"lsn\":"@[2] == 'C');
    assert("{\"Insert\":{\"relation_id\":"@[2] == 'I');
    assert("{\"Update\":{\"relation_id\":"@[2] == 'U');
    assert("{\"Delete\":{\"relation_id\":"@[2] == 'D');
    lemma_lit_mismatch(s, "{\"Begin\":{\"lsn\":"@, 2);
    lemma_lit_mismatch(s, "{\"Commit\":{\"lsn\":"@, 2);
    lemma_lit_mismatch(s, "{\"Insert\":{\"relation_id\":"@, 2);
    lemma_lit_mismatch(s, "{\"Update\":{\"relation_id\":"@, 2);
    lemma_lit_mismatch(s, "{\"Delete\":{\"relation_id\":"@, 2);
    lemma_lit_rt("{\"Relation\":{\"relation_id\":"@, t0);
    assert(t0b[0] == ',');
    lemma_unat_rt(relation_id as nat, 0xFFFF_FFFF, t0b);
    assert(dec_seq(relation_id as nat) + t0b =~= t0);
    lemma_lit_rt(",\"schema\":"@, t1);
    lemma_jstr_rt(schema, t1b);
    lemma_lit_rt(",\"table\":"@, t2);
    lemma_jstr_rt(table, t2b);
    lemma_lit_rt(",\"columns\":"@, t3);
    lemma_cols_rt(columns, t4);
    lemma_lit_rt("}}"@, rest);
}

/// Any change's document, followed by anything, parses back to exactly
/// that change with the trailer untouched.
pub proof fn lemma_p_change_rt(c: ChangeV, rest: Seq<char>)
    ensures
        p_change(json_of(c) + rest) == Some((c, rest)),
{
    match c {
        ChangeV::Begin { lsn, timestamp, xid } => {
            lemma_change_rt_begin(lsn, timestamp, xid, rest);
        }
        ChangeV::Commit { lsn, timestamp } => {
            lemma_change_rt_commit(lsn, timestamp, rest);
        }
        ChangeV::Insert { relation_id, schema, table, new_tuple } => {
            lemma_change_rt_insert(relation_id, schema, table, new_tuple, rest);
        }
        ChangeV::Update { relation_id, schema, table, old_tuple, new_tuple } => {
            lemma_change_rt_update(relation_id, schema, table, old_tuple, new_tuple, rest);
        }
        ChangeV::Delete { relation_id, schema, table, old_tuple } => {
            lemma_change_rt_delete(relation_id, schema, table, old_tuple, rest);
        }
        ChangeV::Relation { relation_id, schema, table, columns } => {
            lemma_change_rt_relation(relation_id, schema, table, columns, rest);
        }
    }
}

/// Law: the JSON round trip. Every change, rendered to its wire-level
/// JSON document and parsed back, yields exactly the original change —
/// same variant, equal field values, strings character for character.
pub proof fn lemma_json_round_trip(c: ChangeV)
    ensures
        parse_change(json_of(c)) == Some(c),
{
    lemma_p_change_rt(c, Seq::empty());
    assert(json_of(c) + Seq::<char>::empty() =~= json_of(c));
}


pub open spec fn body_rel(
    whole: Option<(Seq<char>, Seq<char>)>,
    acc: Seq<char>,
    cur: Option<(Seq<char>, Seq<char>)>,
) -> bool {
    match cur {
        Some((x, rest)) => whole == Some((acc + x, rest)),
        None => whole is None,
    }
}

proof fn lemma_body_rel_step(
    whole: Option<(Seq<char>, Seq<char>)>,
    acc: Seq<char>,
    c: char,
    cur: Option<(Seq<char>, Seq<char>)>,
    next: Option<(Seq<char>, Seq<char>)>,
)
    requires
        body_rel(whole, acc, cur),
        cur == str_cons(c, next),
    ensures
        body_rel(whole, acc + seq![c], next),
{
    match next {
        Some((x, rest)) => {
            assert(acc + (seq![c] + x) =~= (acc + seq![c]) + x);
        }
        None => {}
    }
}

fn e_lit(v: &Vec<char>, pos: &mut usize, lit: &str) -> (r: bool)
    requires
        *old(pos) <= v@.len(),
    ensures
        r ==> p_lit(v@.skip(*old(pos) as int), lit@) == Some(v@.skip(*final(pos) as int))
            && *final(pos) == *old(pos) + lit@.len() && *final(pos) <= v@.len(),
        !r ==> p_lit(v@.skip(*old(pos) as int), lit@) is None && *final(pos) == *old(pos),
{
    let n = lit.unicode_len();
    let start = *pos;
    let vlen = v.len();
    let ghost suff = v@.skip(start as int);
    if vlen - start < n {
        proof {
            assert(suff.len() < lit@.len());
        }
        return false;
    }
    let mut k: usize = 0;
    while k < n
        invariant
            k <= n,
            n == lit@.len(),
            start + n <= vlen,
            vlen == v@.len(),
            start == *old(pos),
            *pos == start,
            suff == v@.skip(start as int),
            forall|j: int| 0 <= j < k ==> v@[start + j] == lit@[j],
        decreases n - k,
    {
        if v[start + k] != lit.get_char(k) {
            proof {
                assert(suff[k as int] == v@[start + k]);
                if is_prefix(lit@, suff) {
                    assert(suff.subrange(0, n as int)[k as int] == suff[k as int]);
                }
            }
            return false;
        }
        k += 1;
    }
    proof {
        assert(forall|j: int| 0 <= j < n ==> suff[j] == v@[start + j]);
        assert(lit@ =~= suff.subrange(0, n as int));
        assert(suff.skip(n as int) =~= v@.skip(start + n));
    }
    *pos = start + n;
    true
}

fn hex_digit_of(c: char) -> (r: Option<u32>)
    ensures
        match r {
            Some(x) => hex_lo_val(c) == x as int && x < 16,
            None => hex_lo_val(c) < 0,
        },
{
    if c >= '0' && c <= '9' {
        Some((c as u32) - 48)
    } else if c >= 'A' && c <= 'F' {
        Some((c as u32) - 55)
    } else if c >= 'a' && c <= 'f' {
        Some((c as u32) - 87)
    } else {
        None
    }
}

fn e_jstr(v: &Vec<char>, pos: &mut usize) -> (r: Option<String>)
    requires
        *old(pos) <= v@.len(),
    ensures
        match r {
            Some(s) => p_jstr(v@.skip(*old(pos) as int)) matches Some(pr) && s@ == pr.0 && v@.skip(
                *final(pos) as int,
            ) == pr.1 && *old(pos) < *final(pos) <= v@.len(),
            None => p_jstr(v@.skip(*old(pos) as int)) is None && *final(pos) == *old(pos),
        },
{
    let start = *pos;
    if start >= v.len() {
        proof {
            assert(v@.skip(start as int).len() == 0);
        }
        return None;
    }
    if v[start] != '"' {
        proof {
            assert(v@.skip(start as int)[0] == v@[start as int]);
        }
        return None;
    }
    proof {
        assert(v@.skip(start as int)[0] == v@[start as int]);
        assert(v@.skip(start as int).drop_first() =~= v@.skip(start + 1));
    }
    let ghost s0 = v@.skip(start + 1);
    let ghost whole = p_str_body(s0);
    let mut p = start + 1;
    let mut acc = String::new();
    proof {
        match whole {
            Some((x, rest)) => {
                assert(Seq::<char>::empty() + x =~= x);
            }
            None => {}
        }
    }
    loop
        invariant
            start + 1 <= p <= v@.len(),
            start == *old(pos),
            s0 == v@.skip(start + 1),
            whole == p_str_body(s0),
            p_jstr(v@.skip(start as int)) == whole,
            body_rel(whole, acc@, p_str_body(v@.skip(p as int))),
            *pos == start,
        decreases v@.len() - p,
    {
        if p >= v.len() {
            proof {
                assert(v@.skip(p as int).len() == 0);
            }
            return None;
        }
        let c = v[p];
        proof {
            assert(v@.skip(p as int)[0] == v@[p as int]);
        }
        if c == '"' {
            proof {
                assert(v@.skip(p as int).drop_first() =~= v@.skip(p + 1));
                assert(acc@ + Seq::<char>::empty() =~= acc@);
            }
            *pos = p + 1;
            return Some(acc);
        }
        if c == '\\' {
            if p + 1 >= v.len() {
                proof {
                    assert(v@.skip(p as int).len() < 2);
                }
                return None;
            }
            let c2 = v[p + 1];
            proof {
                assert(v@.skip(p as int)[1] == v@[p + 1]);
            }
            if c2 == '"' {
                proof {
                    assert(v@.skip(p as int).skip(2) =~= v@.skip(p + 2));
                    lemma_body_rel_step(
                        whole,
                        acc@,
                        '"',
                        p_str_body(v@.skip(p as int)),
                        p_str_body(v@.skip(p + 2)),
                    );
                }
                push_char(&mut acc, '"');
                p += 2;
            } else if c2 == '\\' {
                proof {
                    assert(v@.skip(p as int).skip(2) =~= v@.skip(p + 2));
                    lemma_body_rel_step(
                        whole,
                        acc@,
                        '\\',
                        p_str_body(v@.skip(p as int)),
                        p_str_body(v@.skip(p + 2)),
                    );
                }
                push_char(&mut acc, '\\');
                p += 2;
            } else if c2 == 'u' {
                if v.len() - p < 6 {
                    proof {
                        assert(v@.skip(p as int).len() < 6);
                    }
                    return None;
                }
                let c3 = v[p + 2];
                let c4 = v[p + 3];
                proof {
                    assert(v@.skip(p as int)[2] == v@[p + 2]);
                    assert(v@.skip(p as int)[3] == v@[p + 3]);
                    assert(v@.skip(p as int)[4] == v@[p + 4]);
                    assert(v@.skip(p as int)[5] == v@[p + 5]);
                }
                if c3 != '0' || c4 != '0' {
                    return None;
                }
                let h1 = match hex_digit_of(v[p + 4]) {
                    Some(x) => x,
                    None => {
                        return None;
                    }
                };
                let h2 = match hex_digit_of(v[p + 5]) {
                    Some(x) => x,
                    None => {
                        return None;
                    }
                };
                let code = 16 * h1 + h2;
                let dc = (code as u8) as char;
                proof {
                    assert(v@.skip(p as int).skip(6) =~= v@.skip(p + 6));
                    assert(16 * hex_lo_val(v@.skip(p as int)[4]) + hex_lo_val(
                        v@.skip(p as int)[5],
                    ) == code as int);
                    lemma_body_rel_step(
                        whole,
                        acc@,
                        dc,
                        p_str_body(v@.skip(p as int)),
                        p_str_body(v@.skip(p + 6)),
                    );
                }
                push_char(&mut acc, dc);
                p += 6;
            } else {
                return None;
            }
        } else {
            proof {
                assert(v@.skip(p as int).drop_first() =~= v@.skip(p + 1));
                lemma_body_rel_step(
                    whole,
                    acc@,
                    c,
                    p_str_body(v@.skip(p as int)),
                    p_str_body(v@.skip(p + 1)),
                );
            }
            push_char(&mut acc, c);
            p += 1;
        }
    }
}

fn e_unat(v: &Vec<char>, pos: &mut usize, bound: u64) -> (r: Option<u64>)
    requires
        *old(pos) <= v@.len(),
    ensures
        match r {
            Some(x) => p_unat(v@.skip(*old(pos) as int), bound as nat) matches Some(pr) && x as nat
                == pr.0 && v@.skip(*final(pos) as int) == pr.1 && *old(pos) < *final(pos)
                <= v@.len(),
            None => p_unat(v@.skip(*old(pos) as int), bound as nat) is None && *final(pos) == *old(
                pos,
            ),
        },
{
    let start = *pos;
    let mut p = start;
    while p < v.len() && v[p] >= '0' && v[p] <= '9'
        invariant
            start <= p <= v@.len(),
            forall|j: int| start <= j < p ==> is_digit(v@[j]),
        decreases v@.len() - p,
    {
        p += 1;
    }
    let ghost ds = v@.subrange(start as int, p as int);
    let ghost tail = v@.skip(p as int);
    proof {
        assert(v@.skip(start as int) =~= ds + tail);
        if p < v@.len() {
            assert(tail[0] == v@[p as int]);
        }
        assert(forall|j: int| 0 <= j < ds.len() ==> is_digit(#[trigger] ds[j]));
        lemma_p_digits_split(ds, tail);
    }
    if p == start {
        return None;
    }
    let mut q = start;
    let mut acc: u64 = 0;
    let mut over = false;
    proof {
        assert(v@.subrange(start as int, start as int) =~= Seq::<char>::empty());
        assert(bound / 10 * 10 + bound % 10 == bound) by (nonlinear_arith);
    }
    while q < p
        invariant
            start <= q <= p <= v@.len(),
            ds == v@.subrange(start as int, p as int),
            forall|j: int| start <= j < p ==> is_digit(v@[j]),
            !over ==> acc as nat == val_of(v@.subrange(start as int, q as int)) && acc <= bound,
            over ==> val_of(v@.subrange(start as int, q as int)) > bound,
            bound / 10 * 10 + bound % 10 == bound,
        decreases p - q,
    {
        let c = v[q];
        let d = (c as u32) - 48;
        let ghost pre = v@.subrange(start as int, q as int);
        let ghost ext = v@.subrange(start as int, q + 1);
        proof {
            assert(ext.drop_last() =~= pre);
            assert(ext.last() == v@[q as int]);
            assert(val_of(ext) == val_of(pre) * 10 + d);
        }
        if !over {
            if acc > bound / 10 || (acc == bound / 10 && (d as u64) > bound % 10) {
                over = true;
            } else {
                acc = acc * 10 + (d as u64);
            }
        }
        q += 1;
    }
    if over {
        return None;
    }
    *pos = p;
    Some(acc)
}

fn e_i64(v: &Vec<char>, pos: &mut usize) -> (r: Option<i64>)
    requires
        *old(pos) <= v@.len(),
    ensures
        match r {
            Some(t) => p_i64v(v@.skip(*old(pos) as int)) matches Some(pr) && t == pr.0 && v@.skip(
                *final(pos) as int,
            ) == pr.1 && *old(pos) < *final(pos) <= v@.len(),
            None => p_i64v(v@.skip(*old(pos) as int)) is None && *final(pos) == *old(pos),
        },
{
    let start = *pos;
    if start < v.len() && v[start] == '-' {
        proof {
            assert(v@.skip(start as int)[0] == v@[start as int]);
            assert(v@.skip(start as int).drop_first() =~= v@.skip(start + 1));
        }
        let mut p = start + 1;
        match e_unat(v, &mut p, 0x8000_0000_0000_0000) {
            Some(x) => {
                let t: i64 = if x == 0 {
                    0
                } else {
                    -((x - 1) as i64) - 1
                };
                *pos = p;
                Some(t)
            }
            None => None,
        }
    } else {
        proof {
            if start < v@.len() {
                assert(v@.skip(start as int)[0] == v@[start as int]);
            } else {
                assert(v@.skip(start as int).len() == 0);
            }
        }
        match e_unat(v, pos, 0x7FFF_FFFF_FFFF_FFFF) {
            Some(x) => Some(x as i64),
            None => None,
        }
    }
}

fn e_val(v: &Vec<char>, pos: &mut usize) -> (r: Option<Option<String>>)
    requires
        *old(pos) <= v@.len(),
    ensures
        match r {
            Some(ov) => p_val(v@.skip(*old(pos) as int)) matches Some(pr) && ov.deep_view() == pr.0
                && v@.skip(*final(pos) as int) == pr.1 && *old(pos) < *final(pos) <= v@.len(),
            None => p_val(v@.skip(*old(pos) as int)) is None && *final(pos) == *old(pos),
        },
{
    proof {
        reveal_strlit("null");
    }
    if e_lit(v, pos, "null") {
        return Some(None);
    }
    match e_jstr(v, pos) {
        Some(s) => Some(Some(s)),
        None => None,
    }
}

fn e_field(v: &Vec<char>, pos: &mut usize) -> (r: Option<Field>)
    requires
        *old(pos) <= v@.len(),
    ensures
        match r {
            Some(f) => p_field(v@.skip(*old(pos) as int)) matches Some(pr) && f@ == pr.0 && v@.skip(
                *final(pos) as int,
            ) == pr.1 && *old(pos) < *final(pos) <= v@.len(),
            None => p_field(v@.skip(*old(pos) as int)) is None && *final(pos) == *old(pos),
        },
{
    let start = *pos;
    let mut p = start;
    let name = match e_jstr(v, &mut p) {
        Some(s) => s,
        None => {
            return None;
        }
    };
    if p >= v.len() {
        proof {
            assert(v@.skip(p as int).len() == 0);
            assert(p_lit(v@.skip(p as int), seq![':']) is None);
        }
        return None;
    }
    if v[p] != ':' {
        proof {
            assert(v@.skip(p as int)[0] == v@[p as int]);
            if is_prefix(seq![':'], v@.skip(p as int)) {
                assert(v@.skip(p as int).subrange(0, 1)[0] == v@.skip(p as int)[0]);
            }
            assert(p_lit(v@.skip(p as int), seq![':']) is None);
        }
        return None;
    }
    proof {
        assert(v@.skip(p as int).subrange(0, 1) =~= seq![v@[p as int]]);
        assert(is_prefix(seq![':'], v@.skip(p as int)));
        assert(v@.skip(p as int).skip(1) =~= v@.skip(p + 1));
    }
    p += 1;
    let value = match e_val(v, &mut p) {
        Some(ov) => ov,
        None => {
            return None;
        }
    };
    *pos = p;
    Some(Field { name, value })
}

fn e_tuple(v: &Vec<char>, pos: &mut usize) -> (r: Option<Tuple>)
    requires
        *old(pos) <= v@.len(),
    ensures
        match r {
            Some(t) => p_tuple(v@.skip(*old(pos) as int)) matches Some(pr) && t@ == pr.0 && v@.skip(
                *final(pos) as int,
            ) == pr.1 && *old(pos) < *final(pos) <= v@.len(),
            None => p_tuple(v@.skip(*old(pos) as int)) is None && *final(pos) == *old(pos),
        },
{
    let start = *pos;
    let ghost s = v@.skip(start as int);
    if start >= v.len() {
        proof {
            assert(s.len() == 0);
        }
        return None;
    }
    if v[start] != '{' {
        proof {
            assert(s[0] == v@[start as int]);
        }
        return None;
    }
    proof {
        assert(s[0] == v@[start as int]);
        assert(s.drop_first() =~= v@.skip(start + 1));
    }
    if start + 1 < v.len() && v[start + 1] == '}' {
        proof {
            assert(v@.skip(start + 1)[0] == v@[start + 1]);
            assert(v@.skip(start + 1).drop_first() =~= v@.skip(start + 2));
        }
        *pos = start + 2;
        let t = Tuple::new();
        return Some(t);
    }
    proof {
        if start + 1 < v@.len() {
            assert(v@.skip(start + 1)[0] == v@[start + 1]);
        } else {
            assert(v@.skip(start + 1).len() == 0);
        }
    }
    let mut p = start + 1;
    let f0 = match e_field(v, &mut p) {
        Some(f) => f,
        None => {
            return None;
        }
    };
    let ghost fuel0 = s.len();
    let mut entries: Vec<Field> = Vec::new();
    entries.push(f0);
    let ghost whole = p_fields_rest(v@.skip(p as int), entries.deep_view(), fuel0);
    let ghost mut fuelk = fuel0;
    proof {
        assert(entries.deep_view() =~= seq![entries@[0]@]);
        assert(fuel0 >= v@.len() - p);
        assert(p_tuple(s) == whole);
    }
    loop
        invariant
            start + 1 <= p <= v@.len(),
            start == *old(pos),
            *pos == start,
            s == v@.skip(start as int),
            whole == p_fields_rest(v@.skip(p as int), entries.deep_view(), fuelk),
            fuelk >= v@.len() - p,
            p_tuple(s) == whole,
        decreases v@.len() - p,
    {
        if p < v.len() && v[p] == '}' {
            proof {
                assert(v@.skip(p as int)[0] == v@[p as int]);
                assert(v@.skip(p as int).drop_first() =~= v@.skip(p + 1));
            }
            *pos = p + 1;
            return Some(Tuple { entries });
        }
        if p < v.len() && v[p] == ',' {
            proof {
                assert(v@.skip(p as int)[0] == v@[p as int]);
                assert(v@.skip(p as int).drop_first() =~= v@.skip(p + 1));
                assert(fuelk > 0);
            }
            let mut p2 = p + 1;
            let f = match e_field(v, &mut p2) {
                Some(f) => f,
                None => {
                    return None;
                }
            };
            let ghost acc0 = entries.deep_view();
            entries.push(f);
            proof {
                assert(entries.deep_view() =~= acc0.push(entries@[entries@.len() - 1]@));
            }
            proof {
                fuelk = (fuelk - 1) as nat;
            }
            p = p2;
        } else {
            proof {
                if p < v@.len() {
                    assert(v@.skip(p as int)[0] == v@[p as int]);
                } else {
                    assert(v@.skip(p as int).len() == 0);
                }
            }
            return None;
        }
    }
}

fn e_col(v: &Vec<char>, pos: &mut usize) -> (r: Option<crate::change::ColumnInfo>)
    requires
        *old(pos) <= v@.len(),
    ensures
        match r {
            Some(c) => p_col(v@.skip(*old(pos) as int)) matches Some(pr) && c@ == pr.0 && v@.skip(
                *final(pos) as int,
            ) == pr.1 && *old(pos) < *final(pos) <= v@.len(),
            None => p_col(v@.skip(*old(pos) as int)) is None && *final(pos) == *old(pos),
        },
{
    let start = *pos;
    let mut p = start;
    if !e_lit(v, &mut p, "{\"name\":") {
        return None;
    }
    let name = match e_jstr(v, &mut p) {
        Some(s) => s,
        None => {
            return None;
        }
    };
    if !e_lit(v, &mut p, ",\"type_id\":") {
        return None;
    }
    let tid = match e_unat(v, &mut p, 0xFFFF_FFFF) {
        Some(x) => x as u32,
        None => {
            return None;
        }
    };
    if !e_lit(v, &mut p, ",\"flags\":") {
        return None;
    }
    let fl = match e_unat(v, &mut p, 255) {
        Some(x) => x as u8,
        None => {
            return None;
        }
    };
    if p >= v.len() {
        proof {
            assert(v@.skip(p as int).len() == 0);
            assert(p_lit(v@.skip(p as int), seq!['}']) is None);
        }
        return None;
    }
    if v[p] != '}' {
        proof {
            assert(v@.skip(p as int)[0] == v@[p as int]);
            if is_prefix(seq!['}'], v@.skip(p as int)) {
                assert(v@.skip(p as int).subrange(0, 1)[0] == v@.skip(p as int)[0]);
            }
            assert(p_lit(v@.skip(p as int), seq!['}']) is None);
        }
        return None;
    }
    proof {
        assert(v@.skip(p as int).subrange(0, 1) =~= seq![v@[p as int]]);
        assert(is_prefix(seq!['}'], v@.skip(p as int)));
        assert(v@.skip(p as int).skip(1) =~= v@.skip(p + 1));
    }
    p += 1;
    *pos = p;
    Some(crate::change::ColumnInfo { name, type_id: tid, flags: fl })
}

fn e_cols(v: &Vec<char>, pos: &mut usize) -> (r: Option<Vec<crate::change::ColumnInfo>>)
    requires
        *old(pos) <= v@.len(),
    ensures
        match r {
            Some(cs) => p_cols(v@.skip(*old(pos) as int)) matches Some(pr) && cs.deep_view()
                == pr.0 && v@.skip(*final(pos) as int) == pr.1 && *old(pos) < *final(pos)
                <= v@.len(),
            None => p_cols(v@.skip(*old(pos) as int)) is None && *final(pos) == *old(pos),
        },
{
    let start = *pos;
    let ghost s = v@.skip(start as int);
    if start >= v.len() {
        proof {
            assert(s.len() == 0);
        }
        return None;
    }
    if v[start] != '[' {
        proof {
            assert(s[0] == v@[start as int]);
        }
        return None;
    }
    proof {
        assert(s[0] == v@[start as int]);
        assert(s.drop_first() =~= v@.skip(start + 1));
    }
    if start + 1 < v.len() && v[start + 1] == ']' {
        proof {
            assert(v@.skip(start + 1)[0] == v@[start + 1]);
            assert(v@.skip(start + 1).drop_first() =~= v@.skip(start + 2));
        }
        *pos = start + 2;
        let cs: Vec<crate::change::ColumnInfo> = Vec::new();
        proof {
            assert(cs.deep_view() =~= Seq::<ColumnInfoV>::empty());
        }
        return Some(cs);
    }
    proof {
        if start + 1 < v@.len() {
            assert(v@.skip(start + 1)[0] == v@[start + 1]);
        } else {
            assert(v@.skip(start + 1).len() == 0);
        }
    }
    let mut p = start + 1;
    let c0 = match e_col(v, &mut p) {
        Some(c) => c,
        None => {
            return None;
        }
    };
    let ghost fuel0 = s.len();
    let mut cs: Vec<crate::change::ColumnInfo> = Vec::new();
    cs.push(c0);
    let ghost whole = p_cols_rest(v@.skip(p as int), cs.deep_view(), fuel0);
    let ghost mut fuelk = fuel0;
    proof {
        assert(cs.deep_view() =~= seq![cs@[0]@]);
        assert(fuel0 >= v@.len() - p);
        assert(p_cols(s) == whole);
    }
    loop
        invariant
            start + 1 <= p <= v@.len(),
            start == *old(pos),
            *pos == start,
            s == v@.skip(start as int),
            whole == p_cols_rest(v@.skip(p as int), cs.deep_view(), fuelk),
            fuelk >= v@.len() - p,
            p_cols(s) == whole,
        decreases v@.len() - p,
    {
        if p < v.len() && v[p] == ']' {
            proof {
                assert(v@.skip(p as int)[0] == v@[p as int]);
                assert(v@.skip(p as int).drop_first() =~= v@.skip(p + 1));
            }
            *pos = p + 1;
            return Some(cs);
        }
        if p < v.len() && v[p] == ',' {
            proof {
                assert(v@.skip(p as int)[0] == v@[p as int]);
                assert(v@.skip(p as int).drop_first() =~= v@.skip(p + 1));
                assert(fuelk > 0);
            }
            let mut p2 = p + 1;
            let c = match e_col(v, &mut p2) {
                Some(c) => c,
                None => {
                    return None;
                }
            };
            let ghost acc0 = cs.deep_view();
            cs.push(c);
            proof {
                assert(cs.deep_view() =~= acc0.push(cs@[cs@.len() - 1]@));
            }
            proof {
                fuelk = (fuelk - 1) as nat;
            }
            p = p2;
        } else {
            proof {
                if p < v@.len() {
                    assert(v@.skip(p as int)[0] == v@[p as int]);
                } else {
                    assert(v@.skip(p as int).len() == 0);
                }
            }
            return None;
        }
    }
}

fn str_to_chars(s: &str) -> (v: Vec<char>)
    ensures
        v@ == s@,
{
    let n = s.unicode_len();
    let mut v: Vec<char> = Vec::new();
    let mut i: usize = 0;
    while i < n
        invariant
            i <= n,
            n == s@.len(),
            v@ =~= s@.subrange(0, i as int),
        decreases n - i,
    {
        v.push(s.get_char(i));
        proof {
            assert(v@ =~= s@.subrange(0, i + 1));
        }
        i += 1;
    }
    proof {
        assert(s@.subrange(0, n as int) =~= s@);
    }
    v
}

fn e_begin_body(v: &Vec<char>, pos: &mut usize) -> (r: Option<Change>)
    requires
        *old(pos) <= v@.len(),
    ensures
        match r {
            Some(c) => p_begin_body(v@.skip(*old(pos) as int)) matches Some(pr) && c@ == pr.0
                && v@.skip(*final(pos) as int) == pr.1 && *final(pos) <= v@.len(),
            None => p_begin_body(v@.skip(*old(pos) as int)) is None,
        },
{
    let lsn = match e_jstr(v, pos) {
        Some(x) => x,
        None => {
            return None;
        }
    };
    if !e_lit(v, pos, ",\"timestamp\":") {
        return None;
    }
    let timestamp = match e_i64(v, pos) {
        Some(x) => x,
        None => {
            return None;
        }
    };
    if !e_lit(v, pos, ",\"xid\":") {
        return None;
    }
    let xid = match e_unat(v, pos, 0xFFFF_FFFF) {
        Some(x) => x as u32,
        None => {
            return None;
        }
    };
    if !e_lit(v, pos, "}}") {
        return None;
    }
    Some(Change::Begin { lsn, timestamp, xid })
}

fn e_commit_body(v: &Vec<char>, pos: &mut usize) -> (r: Option<Change>)
    requires
        *old(pos) <= v@.len(),
    ensures
        match r {
            Some(c) => p_commit_body(v@.skip(*old(pos) as int)) matches Some(pr) && c@ == pr.0
                && v@.skip(*final(pos) as int) == pr.1 && *final(pos) <= v@.len(),
            None => p_commit_body(v@.skip(*old(pos) as int)) is None,
        },
{
    let lsn = match e_jstr(v, pos) {
        Some(x) => x,
        None => {
            return None;
        }
    };
    if !e_lit(v, pos, ",\"timestamp\":") {
        return None;
    }
    let timestamp = match e_i64(v, pos) {
        Some(x) => x,
        None => {
            return None;
        }
    };
    if !e_lit(v, pos, "}}") {
        return None;
    }
    Some(Change::Commit { lsn, timestamp })
}

fn e_insert_body(v: &Vec<char>, pos: &mut usize) -> (r: Option<Change>)
    requires
        *old(pos) <= v@.len(),
    ensures
        match r {
            Some(c) => p_insert_body(v@.skip(*old(pos) as int)) matches Some(pr) && c@ == pr.0
                && v@.skip(*final(pos) as int) == pr.1 && *final(pos) <= v@.len(),
            None => p_insert_body(v@.skip(*old(pos) as int)) is None,
        },
{
    let relation_id = match e_unat(v, pos, 0xFFFF_FFFF) {
        Some(x) => x as u32,
        None => {
            return None;
        }
    };
    if !e_lit(v, pos, ",\"schema\":") {
        return None;
    }
    let schema = match e_jstr(v, pos) {
        Some(x) => x,
        None => {
            return None;
        }
    };
    if !e_lit(v, pos, ",\"table\":") {
        return None;
    }
    let table = match e_jstr(v, pos) {
        Some(x) => x,
        None => {
            return None;
        }
    };
    if !e_lit(v, pos, ",\"new_tuple\":") {
        return None;
    }
    let new_tuple = match e_tuple(v, pos) {
        Some(x) => x,
        None => {
            return None;
        }
    };
    if !e_lit(v, pos, "}}") {
        return None;
    }
    Some(Change::Insert { relation_id, schema, table, new_tuple })
}

fn e_update_body(v: &Vec<char>, pos: &mut usize) -> (r: Option<Change>)
    requires
        *old(pos) <= v@.len(),
    ensures
        match r {
            Some(c) => p_update_body(v@.skip(*old(pos) as int)) matches Some(pr) && c@ == pr.0
                && v@.skip(*final(pos) as int) == pr.1 && *final(pos) <= v@.len(),
            None => p_update_body(v@.skip(*old(pos) as int)) is None,
        },
{
    let relation_id = match e_unat(v, pos, 0xFFFF_FFFF) {
        Some(x) => x as u32,
        None => {
            return None;
        }
    };
    if !e_lit(v, pos, ",\"schema\":") {
        return None;
    }
    let schema = match e_jstr(v, pos) {
        Some(x) => x,
        None => {
            return None;
        }
    };
    if !e_lit(v, pos, ",\"table\":") {
        return None;
    }
    let table = match e_jstr(v, pos) {
        Some(x) => x,
        None => {
            return None;
        }
    };
    if !e_lit(v, pos, ",\"old_tuple\":") {
        return None;
    }
    let old_tuple: Option<Tuple> = if e_lit(v, pos, "null") {
        None
    } else {
        match e_tuple(v, pos) {
            Some(x) => Some(x),
            None => {
                return None;
            }
        }
    };
    if !e_lit(v, pos, ",\"new_tuple\":") {
        return None;
    }
    let new_tuple = match e_tuple(v, pos) {
        Some(x) => x,
        None => {
            return None;
        }
    };
    if !e_lit(v, pos, "}}") {
        return None;
    }
    Some(Change::Update { relation_id, schema, table, old_tuple, new_tuple })
}

fn e_delete_body(v: &Vec<char>, pos: &mut usize) -> (r: Option<Change>)
    requires
        *old(pos) <= v@.len(),
    ensures
        match r {
            Some(c) => p_delete_body(v@.skip(*old(pos) as int)) matches Some(pr) && c@ == pr.0
                && v@.skip(*final(pos) as int) == pr.1 && *final(pos) <= v@.len(),
            None => p_delete_body(v@.skip(*old(pos) as int)) is None,
        },
{
    let relation_id = match e_unat(v, pos, 0xFFFF_FFFF) {
        Some(x) => x as u32,
        None => {
            return None;
        }
    };
    if !e_lit(v, pos, ",\"schema\":") {
        return None;
    }
    let schema = match e_jstr(v, pos) {
        Some(x) => x,
        None => {
            return None;
        }
    };
    if !e_lit(v, pos, ",\"table\":") {
        return None;
    }
    let table = match e_jstr(v, pos) {
        Some(x) => x,
        None => {
            return None;
        }
    };
    if !e_lit(v, pos, ",\"old_tuple\":") {
        return None;
    }
    let old_tuple = match e_tuple(v, pos) {
        Some(x) => x,
        None => {
            return None;
        }
    };
    if !e_lit(v, pos, "}}") {
        return None;
    }
    Some(Change::Delete { relation_id, schema, table, old_tuple })
}

fn e_relation_body(v: &Vec<char>, pos: &mut usize) -> (r: Option<Change>)
    requires
        *old(pos) <= v@.len(),
    ensures
        match r {
            Some(c) => p_relation_body(v@.skip(*old(pos) as int)) matches Some(pr) && c@ == pr.0
                && v@.skip(*final(pos) as int) == pr.1 && *final(pos) <= v@.len(),
            None => p_relation_body(v@.skip(*old(pos) as int)) is None,
        },
{
    let relation_id = match e_unat(v, pos, 0xFFFF_FFFF) {
        Some(x) => x as u32,
        None => {
            return None;
        }
    };
    if !e_lit(v, pos, ",\"schema\":") {
        return None;
    }
    let schema = match e_jstr(v, pos) {
        Some(x) => x,
        None => {
            return None;
        }
    };
    if !e_lit(v, pos, ",\"table\":") {
        return None;
    }
    let table = match e_jstr(v, pos) {
        Some(x) => x,
        None => {
            return None;
        }
    };
    if !e_lit(v, pos, ",\"columns\":") {
        return None;
    }
    let columns = match e_cols(v, pos) {
        Some(x) => x,
        None => {
            return None;
        }
    };
    if !e_lit(v, pos, "}}") {
        return None;
    }
    Some(Change::Relation { relation_id, schema, table, columns })
}

/// Parse a wire-level JSON document back into a change: `Some` exactly
/// when the whole input is one well-formed change document.
pub fn from_json(s: &str) -> (r: Option<Change>)
    ensures
        match r {
            Some(c) => parse_change(s@) == Some(c@),
            None => parse_change(s@) is None,
        },
{
    let v = str_to_chars(s);
    let mut pos: usize = 0;
    proof {
        assert(v@.skip(0) =~= s@);
    }
    let parsed: Option<Change> = if e_lit(&v, &mut pos, "{\"Begin\":{\"lsn\":") {
        e_begin_body(&v, &mut pos)
    } else if e_lit(&v, &mut pos, "{\"Commit\":{\"lsn\":") {
        e_commit_body(&v, &mut pos)
    } else if e_lit(&v, &mut pos, "{\"Insert\":{\"relation_id\":") {
        e_insert_body(&v, &mut pos)
    } else if e_lit(&v, &mut pos, "{\"Update\":{\"relation_id\":") {
        e_update_body(&v, &mut pos)
    } else if e_lit(&v, &mut pos, "{\"Delete\":{\"relation_id\":") {
        e_delete_body(&v, &mut pos)
    } else if e_lit(&v, &mut pos, "{\"Relation\":{\"relation_id\":") {
        e_relation_body(&v, &mut pos)
    } else {
        None
    };
    match parsed {
        Some(c) => {
            if pos == v.len() {
                proof {
                    assert(v@.skip(pos as int).len() == 0);
                }
                Some(c)
            } else {
                proof {
                    assert(v@.skip(pos as int).len() > 0);
                }
                None
            }
        }
        None => None,
    }
}

} // verus!
