//! Console renderings of a change: the fixed human-readable text template
//! and the indented JSON form. The compact JSON form lives with its parser
//! in the JSON module; `render_change` selects among the three.

use vstd::prelude::*;

use crate::change::{Change, ChangeV, ColumnInfoV, FieldV, Tuple};
use crate::json::{json_of, jstr, push_jstr, push_val, val_json};
use crate::num::{dec_i64, dec_seq, push_dec_i64, push_dec_u64};
use crate::output::OutputFormat;

verus! {

/// One `name: value` line of the text template; NULL renders literally.
pub open spec fn text_field_line(f: FieldV) -> Seq<char> {
    "    "@ + f.name + ": "@ + (match f.value {
        Some(x) => x,
        None => "NULL"@,
    }) + "\n"@
}

/// The text lines for a tuple's fields, in stored order.
pub open spec fn text_fields(fs: Seq<FieldV>) -> Seq<char>
    decreases fs.len(),
{
    if fs.len() == 0 {
        Seq::empty()
    } else {
        text_field_line(fs[0]) + text_fields(fs.drop_first())
    }
}

/// One column line of a schema's text rendering.
pub open spec fn text_col_line(c: ColumnInfoV) -> Seq<char> {
    "    - "@ + c.name + " (type_id: "@ + dec_seq(c.type_id as nat) + ", flags: "@ + dec_seq(
        c.flags as nat,
    ) + ")\n"@
}

/// The text lines for a schema's columns.
pub open spec fn text_cols(cs: Seq<ColumnInfoV>) -> Seq<char>
    decreases cs.len(),
{
    if cs.len() == 0 {
        Seq::empty()
    } else {
        text_col_line(cs[0]) + text_cols(cs.drop_first())
    }
}

/// The fixed human-readable template: one banner line per change, then a
/// field-by-field dump of the rows it carries.
pub open spec fn text_of(c: ChangeV) -> Seq<char> {
    match c {
        ChangeV::Begin { lsn, timestamp, xid } => "BEGIN [LSN: "@ + lsn + ", XID: "@ + dec_seq(
            xid as nat,
        ) + ", Time: "@ + dec_i64(timestamp) + "]\n"@,
        ChangeV::Commit { lsn, timestamp } => "COMMIT [LSN: "@ + lsn + ", Time: "@ + dec_i64(
            timestamp,
        ) + "]\n"@,
        ChangeV::Relation { relation_id, schema, table, columns } => "RELATION ["@ + schema + "."@
            + table + " (ID: "@ + dec_seq(relation_id as nat) + ")]\n  Columns:\n"@ + text_cols(
            columns,
        ),
        ChangeV::Insert { relation_id, schema, table, new_tuple } => "INSERT into "@ + schema
            + "."@ + table + " (ID: "@ + dec_seq(relation_id as nat) + ")\n  New values:\n"@
            + text_fields(new_tuple),
        ChangeV::Update { relation_id, schema, table, old_tuple, new_tuple } => "UPDATE "@ + schema
            + "."@ + table + " (ID: "@ + dec_seq(relation_id as nat) + ")\n"@ + (match old_tuple {
            Some(old) => "  Old values:\n"@ + text_fields(old),
            None => Seq::<char>::empty(),
        }) + "  New values:\n"@ + text_fields(new_tuple),
        ChangeV::Delete { relation_id, schema, table, old_tuple } => "DELETE from "@ + schema
            + "."@ + table + " (ID: "@ + dec_seq(relation_id as nat) + ")\n  Old values:\n"@
            + text_fields(old_tuple),
    }
}

proof fn lemma_text_fields_append(a: Seq<FieldV>, b: Seq<FieldV>)
    ensures
        text_fields(a + b) == text_fields(a) + text_fields(b),
    decreases a.len(),
{
    if a.len() == 0 {
        assert(a + b =~= b);
        assert(text_fields(a) + text_fields(b) =~= text_fields(b));
    } else {
        assert((a + b).drop_first() =~= a.drop_first() + b);
        lemma_text_fields_append(a.drop_first(), b);
        assert((a + b)[0] == a[0]);
        assert(text_field_line(a[0]) + (text_fields(a.drop_first()) + text_fields(b)) =~= (
        text_field_line(a[0]) + text_fields(a.drop_first())) + text_fields(b));
    }
}

proof fn lemma_text_cols_append(a: Seq<ColumnInfoV>, b: Seq<ColumnInfoV>)
    ensures
        text_cols(a + b) == text_cols(a) + text_cols(b),
    decreases a.len(),
{
    if a.len() == 0 {
        assert(a + b =~= b);
        assert(text_cols(a) + text_cols(b) =~= text_cols(b));
    } else {
        assert((a + b).drop_first() =~= a.drop_first() + b);
        lemma_text_cols_append(a.drop_first(), b);
        assert((a + b)[0] == a[0]);
        assert(text_col_line(a[0]) + (text_cols(a.drop_first()) + text_cols(b)) =~= (text_col_line(
            a[0],
        ) + text_cols(a.drop_first())) + text_cols(b));
    }
}

fn push_text_fields(t: &Tuple, out: &mut String)
    ensures
        final(out)@ == old(out)@ + text_fields(t@),
{
    let n = t.entries.len();
    let mut i: usize = 0;
    while i < n
        invariant
            i <= n,
            n == t@.len(),
            out@ == old(out)@ + text_fields(t@.take(i as int)),
        decreases n - i,
    {
        let ghost pre = out@;
        out.append("    ");
        out.append(t.entries[i].name.as_str());
        out.append(": ");
        match &t.entries[i].value {
            Some(x) => out.append(x.as_str()),
            None => out.append("NULL"),
        }
        out.append("\n");
        proof {
            assert(t@[i as int] == t.entries@[i as int]@);
            assert(out@ =~= pre + text_field_line(t@[i as int]));
            assert(t@.take(i + 1) =~= t@.take(i as int) + seq![t@[i as int]]);
            lemma_text_fields_append(t@.take(i as int), seq![t@[i as int]]);
            assert(seq![t@[i as int]].drop_first() =~= Seq::<FieldV>::empty());
            assert(text_fields(Seq::<FieldV>::empty()) =~= Seq::<char>::empty());
            assert(text_fields(seq![t@[i as int]]) =~= text_field_line(t@[i as int]));
            assert(out@ =~= old(out)@ + text_fields(t@.take(i + 1)));
        }
        i += 1;
    }
    proof {
        assert(t@.take(n as int) =~= t@);
    }
}

fn push_text_cols(cs: &Vec<crate::change::ColumnInfo>, out: &mut String)
    ensures
        final(out)@ == old(out)@ + text_cols(cs.deep_view()),
{
    let ghost csv = cs.deep_view();
    let n = cs.len();
    let mut i: usize = 0;
    while i < n
        invariant
            i <= n,
            n == csv.len(),
            csv == cs.deep_view(),
            out@ == old(out)@ + text_cols(csv.take(i as int)),
        decreases n - i,
    {
        let ghost pre = out@;
        out.append("    - ");
        out.append(cs[i].name.as_str());
        out.append(" (type_id: ");
        push_dec_u64(cs[i].type_id as u64, out);
        out.append(", flags: ");
        push_dec_u64(cs[i].flags as u64, out);
        out.append(")\n");
        proof {
            assert(out@ =~= pre + text_col_line(csv[i as int]));
            assert(csv.take(i + 1) =~= csv.take(i as int) + seq![csv[i as int]]);
            lemma_text_cols_append(csv.take(i as int), seq![csv[i as int]]);
            assert(seq![csv[i as int]].drop_first() =~= Seq::<ColumnInfoV>::empty());
            assert(text_cols(Seq::<ColumnInfoV>::empty()) =~= Seq::<char>::empty());
            assert(text_cols(seq![csv[i as int]]) =~= text_col_line(csv[i as int]));
            assert(out@ =~= old(out)@ + text_cols(csv.take(i + 1)));
        }
        i += 1;
    }
    proof {
        assert(csv.take(n as int) =~= csv);
    }
}

/// Render the fixed human-readable text template for a change.
pub fn render_text(change: &Change) -> (r: String)
    ensures
        r@ == text_of(change@),
{
    let mut out = String::new();
    match change {
        Change::Begin { lsn, timestamp, xid } => {
            out.append("BEGIN [LSN: ");
            out.append(lsn.as_str());
            out.append(", XID: ");
            push_dec_u64(*xid as u64, &mut out);
            out.append(", Time: ");
            push_dec_i64(*timestamp, &mut out);
            out.append("]\n");
        }
        Change::Commit { lsn, timestamp } => {
            out.append("COMMIT [LSN: ");
            out.append(lsn.as_str());
            out.append(", Time: ");
            push_dec_i64(*timestamp, &mut out);
            out.append("]\n");
        }
        Change::Relation { relation_id, schema, table, columns } => {
            out.append("RELATION [");
            out.append(schema.as_str());
            out.append(".");
            out.append(table.as_str());
            out.append(" (ID: ");
            push_dec_u64(*relation_id as u64, &mut out);
            out.append(")]\n  Columns:\n");
            push_text_cols(columns, &mut out);
        }
        Change::Insert { relation_id, schema, table, new_tuple } => {
            out.append("INSERT into ");
            out.append(schema.as_str());
            out.append(".");
            out.append(table.as_str());
            out.append(" (ID: ");
            push_dec_u64(*relation_id as u64, &mut out);
            out.append(")\n  New values:\n");
            push_text_fields(new_tuple, &mut out);
        }
        Change::Update { relation_id, schema, table, old_tuple, new_tuple } => {
            out.append("UPDATE ");
            out.append(schema.as_str());
            out.append(".");
            out.append(table.as_str());
            out.append(" (ID: ");
            push_dec_u64(*relation_id as u64, &mut out);
            out.append(")\n");
            match old_tuple {
                Some(old) => {
                    out.append("  Old values:\n");
                    push_text_fields(old, &mut out);
                }
                None => (),
            }
            out.append("  New values:\n");
            push_text_fields(new_tuple, &mut out);
        }
        Change::Delete { relation_id, schema, table, old_tuple } => {
            out.append("DELETE from ");
            out.append(schema.as_str());
            out.append(".");
            out.append(table.as_str());
            out.append(" (ID: ");
            push_dec_u64(*relation_id as u64, &mut out);
            out.append(")\n  Old values:\n");
            push_text_fields(old_tuple, &mut out);
        }
    }
    proof {
        assert(out@ =~= text_of(change@));
    }
    out
}

/// One member of an indented tuple object.
pub open spec fn pretty_field(f: FieldV) -> Seq<char> {
    "      "@ + jstr(f.name) + ": "@ + val_json(f.value)
}

/// The members after the first, each on a new line.
pub open spec fn pretty_rest_fields(fs: Seq<FieldV>) -> Seq<char>
    decreases fs.len(),
{
    if fs.len() == 0 {
        Seq::empty()
    } else {
        ",\n"@ + pretty_field(fs[0]) + pretty_rest_fields(fs.drop_first())
    }
}

/// A tuple as an indented JSON object.
pub open spec fn pretty_tuple(fs: Seq<FieldV>) -> Seq<char> {
    if fs.len() == 0 {
        "{}"@
    } else {
        "{\n"@ + pretty_field(fs[0]) + pretty_rest_fields(fs.drop_first()) + "\n    }"@
    }
}

/// One column definition as an indented JSON object.
pub open spec fn pretty_col(c: ColumnInfoV) -> Seq<char> {
    "      {\n        \"name\": "@ + jstr(c.name) + ",\n        \"type_id\": "@ + dec_seq(
        c.type_id as nat,
    ) + ",\n        \"flags\": "@ + dec_seq(c.flags as nat) + "\n      }"@
}

/// The column definitions after the first, each on a new line.
pub open spec fn pretty_rest_cols(cs: Seq<ColumnInfoV>) -> Seq<char>
    decreases cs.len(),
{
    if cs.len() == 0 {
        Seq::empty()
    } else {
        ",\n"@ + pretty_col(cs[0]) + pretty_rest_cols(cs.drop_first())
    }
}

/// The column definitions as an indented JSON array.
pub open spec fn pretty_cols(cs: Seq<ColumnInfoV>) -> Seq<char> {
    if cs.len() == 0 {
        "[]"@
    } else {
        "[\n"@ + pretty_col(cs[0]) + pretty_rest_cols(cs.drop_first()) + "\n    ]"@
    }
}

/// An optional old tuple in the indented form.
pub open spec fn pretty_opt_tuple(o: Option<Seq<FieldV>>) -> Seq<char> {
    match o {
        None => "null"@,
        Some(fs) => pretty_tuple(fs),
    }
}

/// The indented JSON document for a change: the same content as the
/// compact form, two-space indentation per level.
pub open spec fn pretty_json_of(c: ChangeV) -> Seq<char> {
    match c {
        ChangeV::Begin { lsn, timestamp, xid } => "{\n  \"Begin\": {\n    \"lsn\": "@ + jstr(lsn)
            + ",\n    \"timestamp\": "@ + dec_i64(timestamp) + ",\n    \"xid\": "@ + dec_seq(
            xid as nat,
        ) + "\n  }\n}"@,
        ChangeV::Commit { lsn, timestamp } => "{\n  \"Commit\": {\n    \"lsn\": "@ + jstr(lsn)
            + ",\n    \"timestamp\": "@ + dec_i64(timestamp) + "\n  }\n}"@,
        ChangeV::Insert { relation_id, schema, table, new_tuple } => "{\n  \"Insert\": {\n    \"relation_id\": "@
            + dec_seq(relation_id as nat) + ",\n    \"schema\": "@ + jstr(schema)
            + ",\n    \"table\": "@ + jstr(table) + ",\n    \"new_tuple\": "@ + pretty_tuple(
            new_tuple,
        ) + "\n  }\n}"@,
        ChangeV::Update { relation_id, schema, table, old_tuple, new_tuple } => "{\n  \"Update\": {\n    \"relation_id\": "@
            + dec_seq(relation_id as nat) + ",\n    \"schema\": "@ + jstr(schema)
            + ",\n    \"table\": "@ + jstr(table) + ",\n    \"old_tuple\": "@ + pretty_opt_tuple(
            old_tuple,
        ) + ",\n    \"new_tuple\": "@ + pretty_tuple(new_tuple) + "\n  }\n}"@,
        ChangeV::Delete { relation_id, schema, table, old_tuple } => "{\n  \"Delete\": {\n    \"relation_id\": "@
            + dec_seq(relation_id as nat) + ",\n    \"schema\": "@ + jstr(schema)
            + ",\n    \"table\": "@ + jstr(table) + ",\n    \"old_tuple\": "@ + pretty_tuple(
            old_tuple,
        ) + "\n  }\n}"@,
        ChangeV::Relation { relation_id, schema, table, columns } => "{\n  \"Relation\": {\n    \"relation_id\": "@
            + dec_seq(relation_id as nat) + ",\n    \"schema\": "@ + jstr(schema)
            + ",\n    \"table\": "@ + jstr(table) + ",\n    \"columns\": "@ + pretty_cols(columns)
            + "\n  }\n}"@,
    }
}

proof fn lemma_pretty_rest_fields_append(a: Seq<FieldV>, b: Seq<FieldV>)
    ensures
        pretty_rest_fields(a + b) == pretty_rest_fields(a) + pretty_rest_fields(b),
    decreases a.len(),
{
    if a.len() == 0 {
        assert(a + b =~= b);
        assert(pretty_rest_fields(a) + pretty_rest_fields(b) =~= pretty_rest_fields(b));
    } else {
        assert((a + b).drop_first() =~= a.drop_first() + b);
        lemma_pretty_rest_fields_append(a.drop_first(), b);
        assert((a + b)[0] == a[0]);
        assert(",\n"@ + pretty_field(a[0]) + (pretty_rest_fields(a.drop_first())
            + pretty_rest_fields(b)) =~= (",\n"@ + pretty_field(a[0]) + pretty_rest_fields(
            a.drop_first(),
        )) + pretty_rest_fields(b));
    }
}

proof fn lemma_pretty_rest_cols_append(a: Seq<ColumnInfoV>, b: Seq<ColumnInfoV>)
    ensures
        pretty_rest_cols(a + b) == pretty_rest_cols(a) + pretty_rest_cols(b),
    decreases a.len(),
{
    if a.len() == 0 {
        assert(a + b =~= b);
        assert(pretty_rest_cols(a) + pretty_rest_cols(b) =~= pretty_rest_cols(b));
    } else {
        assert((a + b).drop_first() =~= a.drop_first() + b);
        lemma_pretty_rest_cols_append(a.drop_first(), b);
        assert((a + b)[0] == a[0]);
        assert(",\n"@ + pretty_col(a[0]) + (pretty_rest_cols(a.drop_first()) + pretty_rest_cols(b))
            =~= (",\n"@ + pretty_col(a[0]) + pretty_rest_cols(a.drop_first())) + pretty_rest_cols(
            b,
        ));
    }
}

fn push_pretty_tuple(t: &Tuple, out: &mut String)
    ensures
        final(out)@ == old(out)@ + pretty_tuple(t@),
{
    let n = t.entries.len();
    if n == 0 {
        out.append("{}");
        return ;
    }
    out.append("{\n");
    let mut i: usize = 0;
    while i < n
        invariant
            i <= n,
            n == t@.len(),
            n > 0,
            i == 0 ==> out@ == old(out)@ + "{\n"@,
            i > 0 ==> out@ == old(out)@ + "{\n"@ + pretty_field(t@[0]) + pretty_rest_fields(
                t@.subrange(1, i as int),
            ),
        decreases n - i,
    {
        let ghost pre = out@;
        if i > 0 {
            out.append(",\n");
        }
        out.append("      ");
        push_jstr(t.entries[i].name.as_str(), out);
        out.append(": ");
        push_val(&t.entries[i].value, out);
        proof {
            assert(t@[i as int] == t.entries@[i as int]@);
            if i == 0 {
                assert(out@ =~= old(out)@ + "{\n"@ + pretty_field(t@[0]));
                assert(t@.subrange(1, 1) =~= Seq::<FieldV>::empty());
                assert(out@ =~= old(out)@ + "{\n"@ + pretty_field(t@[0]) + pretty_rest_fields(
                    t@.subrange(1, 1),
                ));
            } else {
                assert(out@ =~= pre + (",\n"@ + pretty_field(t@[i as int])));
                assert(t@.subrange(1, i + 1) =~= t@.subrange(1, i as int) + seq![t@[i as int]]);
                lemma_pretty_rest_fields_append(t@.subrange(1, i as int), seq![t@[i as int]]);
                assert(seq![t@[i as int]].drop_first() =~= Seq::<FieldV>::empty());
                assert(pretty_rest_fields(Seq::<FieldV>::empty()) =~= Seq::<char>::empty());
                assert(pretty_rest_fields(seq![t@[i as int]]) =~= ",\n"@ + pretty_field(
                    t@[i as int],
                ));
                assert(out@ =~= old(out)@ + "{\n"@ + pretty_field(t@[0]) + pretty_rest_fields(
                    t@.subrange(1, i + 1),
                ));
            }
        }
        i += 1;
    }
    out.append("\n    }");
    proof {
        assert(t@.subrange(1, n as int) =~= t@.drop_first());
        assert(final(out)@ =~= old(out)@ + pretty_tuple(t@));
    }
}

fn push_pretty_cols(cs: &Vec<crate::change::ColumnInfo>, out: &mut String)
    ensures
        final(out)@ == old(out)@ + pretty_cols(cs.deep_view()),
{
    let ghost csv = cs.deep_view();
    let n = cs.len();
    if n == 0 {
        out.append("[]");
        return ;
    }
    out.append("[\n");
    let mut i: usize = 0;
    while i < n
        invariant
            i <= n,
            n == csv.len(),
            n > 0,
            csv == cs.deep_view(),
            i == 0 ==> out@ == old(out)@ + "[\n"@,
            i > 0 ==> out@ == old(out)@ + "[\n"@ + pretty_col(csv[0]) + pretty_rest_cols(
                csv.subrange(1, i as int),
            ),
        decreases n - i,
    {
        let ghost pre = out@;
        if i > 0 {
            out.append(",\n");
        }
        out.append("      {\n        \"name\": ");
        push_jstr(cs[i].name.as_str(), out);
        out.append(",\n        \"type_id\": ");
        push_dec_u64(cs[i].type_id as u64, out);
        out.append(",\n        \"flags\": ");
        push_dec_u64(cs[i].flags as u64, out);
        out.append("\n      }");
        proof {
            if i == 0 {
                assert(out@ =~= old(out)@ + "[\n"@ + pretty_col(csv[0]));
                assert(csv.subrange(1, 1) =~= Seq::<ColumnInfoV>::empty());
                assert(out@ =~= old(out)@ + "[\n"@ + pretty_col(csv[0]) + pretty_rest_cols(
                    csv.subrange(1, 1),
                ));
            } else {
                assert(out@ =~= pre + (",\n"@ + pretty_col(csv[i as int])));
                assert(csv.subrange(1, i + 1) =~= csv.subrange(1, i as int) + seq![csv[i as int]]);
                lemma_pretty_rest_cols_append(csv.subrange(1, i as int), seq![csv[i as int]]);
                assert(seq![csv[i as int]].drop_first() =~= Seq::<ColumnInfoV>::empty());
                assert(pretty_rest_cols(Seq::<ColumnInfoV>::empty()) =~= Seq::<char>::empty());
                assert(pretty_rest_cols(seq![csv[i as int]]) =~= ",\n"@ + pretty_col(
                    csv[i as int],
                ));
                assert(out@ =~= old(out)@ + "[\n"@ + pretty_col(csv[0]) + pretty_rest_cols(
                    csv.subrange(1, i + 1),
                ));
            }
        }
        i += 1;
    }
    out.append("\n    ]");
    proof {
        assert(csv.subrange(1, n as int) =~= csv.drop_first());
        assert(final(out)@ =~= old(out)@ + pretty_cols(csv));
    }
}

impl Change {
    /// Render the change's indented JSON document.
    pub fn to_json_pretty(&self) -> (r: String)
        ensures
            r@ == pretty_json_of(self@),
    {
        let mut out = String::new();
        match self {
            Change::Begin { lsn, timestamp, xid } => {
                out.append("{\n  \"Begin\": {\n    \"lsn\": ");
                push_jstr(lsn.as_str(), &mut out);
                out.append(",\n    \"timestamp\": ");
                push_dec_i64(*timestamp, &mut out);
                out.append(",\n    \"xid\": ");
                push_dec_u64(*xid as u64, &mut out);
                out.append("\n  }\n}");
            }
            Change::Commit { lsn, timestamp } => {
                out.append("{\n  \"Commit\": {\n    \"lsn\": ");
                push_jstr(lsn.as_str(), &mut out);
                out.append(",\n    \"timestamp\": ");
                push_dec_i64(*timestamp, &mut out);
                out.append("\n  }\n}");
            }
            Change::Insert { relation_id, schema, table, new_tuple } => {
                out.append("{\n  \"Insert\": {\n    \"relation_id\": ");
                push_dec_u64(*relation_id as u64, &mut out);
                out.append(",\n    \"schema\": ");
                push_jstr(schema.as_str(), &mut out);
                out.append(",\n    \"table\": ");
                push_jstr(table.as_str(), &mut out);
                out.append(",\n    \"new_tuple\": ");
                push_pretty_tuple(new_tuple, &mut out);
                out.append("\n  }\n}");
            }
            Change::Update { relation_id, schema, table, old_tuple, new_tuple } => {
                out.append("{\n  \"Update\": {\n    \"relation_id\": ");
                push_dec_u64(*relation_id as u64, &mut out);
                out.append(",\n    \"schema\": ");
                push_jstr(schema.as_str(), &mut out);
                out.append(",\n    \"table\": ");
                push_jstr(table.as_str(), &mut out);
                out.append(",\n    \"old_tuple\": ");
                match old_tuple {
                    None => out.append("null"),
                    Some(t) => push_pretty_tuple(t, &mut out),
                }
                out.append(",\n    \"new_tuple\": ");
                push_pretty_tuple(new_tuple, &mut out);
                out.append("\n  }\n}");
            }
            Change::Delete { relation_id, schema, table, old_tuple } => {
                out.append("{\n  \"Delete\": {\n    \"relation_id\": ");
                push_dec_u64(*relation_id as u64, &mut out);
                out.append(",\n    \"schema\": ");
                push_jstr(schema.as_str(), &mut out);
                out.append(",\n    \"table\": ");
                push_jstr(table.as_str(), &mut out);
                out.append(",\n    \"old_tuple\": ");
                push_pretty_tuple(old_tuple, &mut out);
                out.append("\n  }\n}");
            }
            Change::Relation { relation_id, schema, table, columns } => {
                out.append("{\n  \"Relation\": {\n    \"relation_id\": ");
                push_dec_u64(*relation_id as u64, &mut out);
                out.append(",\n    \"schema\": ");
                push_jstr(schema.as_str(), &mut out);
                out.append(",\n    \"table\": ");
                push_jstr(table.as_str(), &mut out);
                out.append(",\n    \"columns\": ");
                push_pretty_cols(columns, &mut out);
                out.append("\n  }\n}");
            }
        }
        proof {
            assert(out@ =~= pretty_json_of(self@));
        }
        out
    }
}

/// The console rendering of a change in a given format.
pub open spec fn rendering_of(c: ChangeV, format: OutputFormat) -> Seq<char> {
    match format {
        OutputFormat::Json => json_of(c),
        OutputFormat::JsonPretty => pretty_json_of(c),
        OutputFormat::Text => text_of(c),
    }
}

/// Render a change for the console sink: compact JSON, indented JSON, or
/// the fixed text template. The caller prints the result; writing is the
/// only thing left to do.
pub fn render_change(change: &Change, format: &OutputFormat) -> (r: String)
    ensures
        r@ == rendering_of(change@, *format),
{
    match format {
        OutputFormat::Json => change.to_json(),
        OutputFormat::JsonPretty => change.to_json_pretty(),
        OutputFormat::Text => render_text(change),
    }
}

} // verus!
