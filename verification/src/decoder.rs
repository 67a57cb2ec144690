//! The binary protocol decoder.
//!
//! Each message is one byte buffer whose first byte is a tag. Row-change
//! messages carry no inline schema: they are resolved against the
//! [`Catalog`], which schema messages populate. The spec-level `parse_*`
//! functions define the wire format exactly; every decoder is proved to
//! return precisely what they say.

use vstd::prelude::*;
use vstd::slice::{slice_index_get, slice_subrange};

use crate::catalog::{Catalog, RelationInfo, RelationInfoV};
use crate::change::{
    tuple_insert, Change, ChangeV, ColumnInfo, ColumnInfoV, FieldV, Tuple,
};
use crate::lsn::{format_lsn, lsn_text};
use crate::num::{dec_seq, push_dec_u64};
use crate::util::{utf8_lossy, utf8_lossy_string};

verus! {

/// Why decoding one message failed.
#[derive(Debug, Clone, Copy, PartialEq, Eq, Structural)]
pub enum DecodeError {
    /// The message ended before a field it promises.
    Truncated,
    /// A tuple-kind or value-kind marker byte had an unexpected value.
    BadMarker(u8),
    /// A row-change message referenced a relation the catalog has not seen.
    UnknownRelation(u32),
}

pub open spec fn pow256(n: nat) -> nat
    decreases n,
{
    if n == 0 {
        1
    } else {
        256 * pow256((n - 1) as nat)
    }
}

/// The big-endian value of a byte sequence.
pub open spec fn be_val(b: Seq<u8>) -> nat
    decreases b.len(),
{
    if b.len() == 0 {
        0
    } else {
        be_val(b.drop_last()) * 256 + (b.last() as nat)
    }
}

proof fn lemma_pow256_vals()
    ensures
        pow256(2) == 0x1_0000,
        pow256(4) == 0x1_0000_0000,
        pow256(7) == 0x100_0000_0000_0000,
        pow256(8) == 0x1_0000_0000_0000_0000,
{
    reveal_with_fuel(pow256, 9);
}

proof fn lemma_pow256_mono(a: nat, b: nat)
    requires
        a <= b,
    ensures
        pow256(a) <= pow256(b),
    decreases b,
{
    if a < b {
        lemma_pow256_mono(a, (b - 1) as nat);
        assert(pow256((b - 1) as nat) <= 256 * pow256((b - 1) as nat)) by (nonlinear_arith);
    }
}

proof fn lemma_be_val_bound(b: Seq<u8>)
    ensures
        be_val(b) < pow256(b.len()),
    decreases b.len(),
{
    if b.len() == 0 {
    } else {
        lemma_be_val_bound(b.drop_last());
        let m = pow256((b.len() - 1) as nat);
        assert(be_val(b.drop_last()) * 256 <= (m - 1) * 256) by (nonlinear_arith)
            requires
                be_val(b.drop_last()) <= m - 1,
                m >= 1,
        ;
    }
}

/// The signed 64-bit value whose two's-complement bits have value `v`.
pub open spec fn i64_from(v: nat) -> i64 {
    if v >= 0x8000_0000_0000_0000 {
        (v - 0x1_0000_0000_0000_0000) as i64
    } else {
        v as i64
    }
}

/// Position of the first zero byte at or after `from`, or the buffer's
/// length if there is none.
pub open spec fn zero_pos(d: Seq<u8>, from: int) -> int
    decreases d.len() - from,
{
    if from < 0 || from >= d.len() {
        d.len() as int
    } else if d[from] == 0 {
        from
    } else {
        zero_pos(d, from + 1)
    }
}

proof fn lemma_zero_pos_scan(d: Seq<u8>, from: int, p: int)
    requires
        0 <= from <= p <= d.len(),
        forall|j: int| from <= j < p ==> d[j] != 0,
        p == d.len() || d[p] == 0,
    ensures
        zero_pos(d, from) == p,
    decreases p - from,
{
    if from < p {
        lemma_zero_pos_scan(d, from + 1, p);
    }
}

/// A zero-terminated string starting at `from`: its characters and the
/// position just past the terminator. The terminator may be missing at the
/// buffer's end; the consumed region then runs to the end.
pub open spec fn parse_cstring(d: Seq<u8>, from: int) -> Result<(Seq<char>, int), DecodeError> {
    if from < 0 || from > d.len() {
        Err(DecodeError::Truncated)
    } else {
        Ok((utf8_lossy(d.subrange(from, zero_pos(d, from))), zero_pos(d, from) + 1))
    }
}

/// A transaction-begin payload: 8-byte position, 8-byte signed timestamp,
/// 4-byte transaction id.
pub open spec fn parse_begin(d: Seq<u8>) -> Result<ChangeV, DecodeError> {
    if d.len() < 20 {
        Err(DecodeError::Truncated)
    } else {
        Ok(
            ChangeV::Begin {
                lsn: lsn_text(be_val(d.subrange(0, 8)) as u64),
                timestamp: i64_from(be_val(d.subrange(8, 16))),
                xid: be_val(d.subrange(16, 20)) as u32,
            },
        )
    }
}

/// A transaction-commit payload: 1 flags byte (ignored), 8-byte position,
/// 8-byte end position (ignored), 8-byte signed timestamp.
pub open spec fn parse_commit(d: Seq<u8>) -> Result<ChangeV, DecodeError> {
    if d.len() < 25 {
        Err(DecodeError::Truncated)
    } else {
        Ok(
            ChangeV::Commit {
                lsn: lsn_text(be_val(d.subrange(1, 9)) as u64),
                timestamp: i64_from(be_val(d.subrange(17, 25))),
            },
        )
    }
}

/// `n` column definitions starting at `pos`, appended to `acc`: per column
/// a flags byte, a zero-terminated name, a 4-byte type id and a 4-byte type
/// modifier (ignored).
pub open spec fn parse_columns(
    d: Seq<u8>,
    pos: int,
    n: nat,
    acc: Seq<ColumnInfoV>,
) -> Result<(Seq<ColumnInfoV>, int), DecodeError>
    decreases n,
{
    if n == 0 {
        Ok((acc, pos))
    } else if pos < 0 || pos + 1 > d.len() {
        Err(DecodeError::Truncated)
    } else {
        let flags = d[pos];
        match parse_cstring(d, pos + 1) {
            Err(e) => Err(e),
            Ok((name, p2)) => {
                if p2 + 8 > d.len() {
                    Err(DecodeError::Truncated)
                } else {
                    let type_id = be_val(d.subrange(p2, p2 + 4)) as u32;
                    parse_columns(
                        d,
                        p2 + 8,
                        (n - 1) as nat,
                        acc.push(ColumnInfoV { name, type_id, flags }),
                    )
                }
            }
        }
    }
}

/// A schema payload: 4-byte relation id, zero-terminated schema and table
/// names, a replica-identity byte (ignored), a 2-byte column count, then
/// the columns.
pub open spec fn parse_relation(d: Seq<u8>) -> Result<(u32, RelationInfoV), DecodeError> {
    if d.len() < 4 {
        Err(DecodeError::Truncated)
    } else {
        let rid = be_val(d.subrange(0, 4)) as u32;
        match parse_cstring(d, 4) {
            Err(e) => Err(e),
            Ok((schema, p1)) => match parse_cstring(d, p1) {
                Err(e) => Err(e),
                Ok((table, p2)) => {
                    if p2 + 3 > d.len() {
                        Err(DecodeError::Truncated)
                    } else {
                        let n = be_val(d.subrange(p2 + 1, p2 + 3));
                        match parse_columns(d, p2 + 3, n, Seq::empty()) {
                            Err(e) => Err(e),
                            Ok((columns, _end)) => Ok(
                                (rid, RelationInfoV { schema, table, columns }),
                            ),
                        }
                    }
                }
            },
        }
    }
}

/// The name row values are keyed under: the relation's column at that
/// index, or a positional name past the known columns.
pub open spec fn field_name(columns: Seq<ColumnInfoV>, idx: nat) -> Seq<char> {
    if idx < columns.len() {
        columns[idx as int].name
    } else {
        "column_"@ + dec_seq(idx)
    }
}

/// `rem` tuple fields starting at `pos`, inserted into `acc`: per field a
/// value-kind marker, `n` (NULL) and `u` (unchanged) giving an absent
/// value, `t` a 4-byte length and that many bytes of text.
pub open spec fn parse_fields(
    d: Seq<u8>,
    pos: int,
    rem: nat,
    idx: nat,
    columns: Seq<ColumnInfoV>,
    acc: Seq<FieldV>,
) -> Result<(Seq<FieldV>, int), DecodeError>
    decreases rem,
{
    if rem == 0 {
        Ok((acc, pos))
    } else if pos < 0 || pos + 1 > d.len() {
        Err(DecodeError::Truncated)
    } else {
        let name = field_name(columns, idx);
        let m = d[pos];
        if m == 110 || m == 117 {
            // 'n' (NULL) and 'u' (unchanged) both yield an absent value
            parse_fields(d, pos + 1, (rem - 1) as nat, idx + 1, columns, tuple_insert(acc, name, None))
        } else if m == 116 {
            // 't': a length-prefixed text value
            if pos + 5 > d.len() {
                Err(DecodeError::Truncated)
            } else {
                let len = be_val(d.subrange(pos + 1, pos + 5));
                if pos + 5 + len > d.len() {
                    Err(DecodeError::Truncated)
                } else {
                    parse_fields(
                        d,
                        pos + 5 + len,
                        (rem - 1) as nat,
                        idx + 1,
                        columns,
                        tuple_insert(
                            acc,
                            name,
                            Some(utf8_lossy(d.subrange(pos + 5, pos + 5 + len))),
                        ),
                    )
                }
            }
        } else {
            Err(DecodeError::BadMarker(m))
        }
    }
}

/// One tuple at `pos`: a 2-byte field count, then the fields, with the
/// column names resolved against the catalog. Fails when the relation is
/// unknown.
pub open spec fn parse_tuple_msg(
    d: Seq<u8>,
    pos: int,
    cat: Map<u32, RelationInfoV>,
    rid: u32,
) -> Result<(Seq<FieldV>, int), DecodeError> {
    if pos < 0 || pos + 2 > d.len() {
        Err(DecodeError::Truncated)
    } else if !cat.contains_key(rid) {
        Err(DecodeError::UnknownRelation(rid))
    } else {
        parse_fields(
            d,
            pos + 2,
            be_val(d.subrange(pos, pos + 2)),
            0,
            cat[rid].columns,
            Seq::empty(),
        )
    }
}

/// An insert payload: 4-byte relation id, a marker that must be `N`, then
/// the new tuple.
pub open spec fn parse_insert(d: Seq<u8>, cat: Map<u32, RelationInfoV>) -> Result<
    ChangeV,
    DecodeError,
> {
    if d.len() < 5 {
        Err(DecodeError::Truncated)
    } else {
        let rid = be_val(d.subrange(0, 4)) as u32;
        let m = d[4];
        if m != 78 {
            // not 'N'
            Err(DecodeError::BadMarker(m))
        } else {
            match parse_tuple_msg(d, 5, cat, rid) {
                Err(e) => Err(e),
                Ok((new_tuple, _end)) => Ok(
                    ChangeV::Insert {
                        relation_id: rid,
                        schema: cat[rid].schema,
                        table: cat[rid].table,
                        new_tuple,
                    },
                ),
            }
        }
    }
}

/// An update payload: 4-byte relation id, then either `K`/`O`, an old
/// tuple, `N` and a new tuple, or `N` and only a new tuple.
pub open spec fn parse_update(d: Seq<u8>, cat: Map<u32, RelationInfoV>) -> Result<
    ChangeV,
    DecodeError,
> {
    if d.len() < 5 {
        Err(DecodeError::Truncated)
    } else {
        let rid = be_val(d.subrange(0, 4)) as u32;
        let m = d[4];
        if m == 75 || m == 79 {
            // 'K' or 'O': an old tuple precedes the new one
            match parse_tuple_msg(d, 5, cat, rid) {
                Err(e) => Err(e),
                Ok((old_tuple, p)) => {
                    if p + 1 > d.len() {
                        Err(DecodeError::Truncated)
                    } else if d[p] != 78 {
                        Err(DecodeError::BadMarker(d[p]))
                    } else {
                        match parse_tuple_msg(d, p + 1, cat, rid) {
                            Err(e) => Err(e),
                            Ok((new_tuple, _end)) => Ok(
                                ChangeV::Update {
                                    relation_id: rid,
                                    schema: cat[rid].schema,
                                    table: cat[rid].table,
                                    old_tuple: Some(old_tuple),
                                    new_tuple,
                                },
                            ),
                        }
                    }
                }
            }
        } else if m == 78 {
            // 'N': no old tuple was supplied
            match parse_tuple_msg(d, 5, cat, rid) {
                Err(e) => Err(e),
                Ok((new_tuple, _end)) => Ok(
                    ChangeV::Update {
                        relation_id: rid,
                        schema: cat[rid].schema,
                        table: cat[rid].table,
                        old_tuple: None,
                        new_tuple,
                    },
                ),
            }
        } else {
            Err(DecodeError::BadMarker(m))
        }
    }
}

/// A delete payload: 4-byte relation id, a marker that must be `K` or `O`,
/// then the old tuple.
pub open spec fn parse_delete(d: Seq<u8>, cat: Map<u32, RelationInfoV>) -> Result<
    ChangeV,
    DecodeError,
> {
    if d.len() < 5 {
        Err(DecodeError::Truncated)
    } else {
        let rid = be_val(d.subrange(0, 4)) as u32;
        let m = d[4];
        if m != 75 && m != 79 {
            Err(DecodeError::BadMarker(m))
        } else {
            match parse_tuple_msg(d, 5, cat, rid) {
                Err(e) => Err(e),
                Ok((old_tuple, _end)) => Ok(
                    ChangeV::Delete {
                        relation_id: rid,
                        schema: cat[rid].schema,
                        table: cat[rid].table,
                        old_tuple,
                    },
                ),
            }
        }
    }
}

/// One whole message: the tag byte selects the payload decoder. Unknown
/// and intentionally unsupported tags give `Ok(None)`.
pub open spec fn spec_decode(d: Seq<u8>, cat: Map<u32, RelationInfoV>) -> Result<
    Option<ChangeV>,
    DecodeError,
> {
    if d.len() == 0 {
        Ok(None)
    } else {
        let rest = d.drop_first();
        if d[0] == 66 {
            // 'B'
            match parse_begin(rest) {
                Ok(c) => Ok(Some(c)),
                Err(e) => Err(e),
            }
        } else if d[0] == 67 {
            // 'C'
            match parse_commit(rest) {
                Ok(c) => Ok(Some(c)),
                Err(e) => Err(e),
            }
        } else if d[0] == 82 {
            // 'R'
            match parse_relation(rest) {
                Ok((rid, info)) => Ok(
                    Some(
                        ChangeV::Relation {
                            relation_id: rid,
                            schema: info.schema,
                            table: info.table,
                            columns: info.columns,
                        },
                    ),
                ),
                Err(e) => Err(e),
            }
        } else if d[0] == 73 {
            // 'I'
            match parse_insert(rest, cat) {
                Ok(c) => Ok(Some(c)),
                Err(e) => Err(e),
            }
        } else if d[0] == 85 {
            // 'U'
            match parse_update(rest, cat) {
                Ok(c) => Ok(Some(c)),
                Err(e) => Err(e),
            }
        } else if d[0] == 68 {
            // 'D'
            match parse_delete(rest, cat) {
                Ok(c) => Ok(Some(c)),
                Err(e) => Err(e),
            }
        } else {
            // 'O', 'T', 'Y' are recognized but unsupported; anything else is
            // an unknown tag: both are non-errors that produce nothing.
            Ok(None)
        }
    }
}

/// The catalog after one message: only a successfully decoded schema
/// message changes it.
pub open spec fn spec_decode_catalog(d: Seq<u8>, cat: Map<u32, RelationInfoV>) -> Map<
    u32,
    RelationInfoV,
> {
    if d.len() > 0 && d[0] == 82 {
        match parse_relation(d.drop_first()) {
            Ok((rid, info)) => cat.insert(rid, info),
            Err(_) => cat,
        }
    } else {
        cat
    }
}

/// Wraps a column parse as a whole-message schema parse result.
pub open spec fn relation_result(
    rid: u32,
    schema: Seq<char>,
    table: Seq<char>,
    pc: Result<(Seq<ColumnInfoV>, int), DecodeError>,
) -> Result<(u32, RelationInfoV), DecodeError> {
    match pc {
        Ok((columns, _end)) => Ok((rid, RelationInfoV { schema, table, columns })),
        Err(e) => Err(e),
    }
}

/// Read `n` big-endian bytes at `*pos` as an unsigned value, advancing the
/// position; fails without moving when fewer than `n` bytes remain.
fn read_be(data: &[u8], pos: &mut usize, n: usize) -> (r: Result<u64, DecodeError>)
    requires
        n <= 8,
    ensures
        match r {
            Ok(v) => *old(pos) + n <= data@.len() && *final(pos) == *old(pos) + n && v as nat
                == be_val(data@.subrange(*old(pos) as int, *old(pos) + n as int)),
            Err(e) => e == DecodeError::Truncated && *old(pos) + n > data@.len() && *final(pos)
                == *old(pos),
        },
{
    let start = *pos;
    let dlen = data.len();
    if dlen < n || start > dlen - n {
        return Err(DecodeError::Truncated);
    }
    let ghost d = data@;
    let mut acc: u64 = 0;
    let mut i: usize = 0;
    while i < n
        invariant
            i <= n,
            n <= 8,
            start + n <= dlen,
            dlen == d.len(),
            d == data@,
            acc as nat == be_val(d.subrange(start as int, start + i as int)),
            (acc as nat) < pow256(i as nat),
        decreases n - i,
    {
        proof {
            lemma_pow256_vals();
            lemma_pow256_mono(i as nat, 7);
            assert((acc as nat) * 256 + 255 < 0x1_0000_0000_0000_0000) by (nonlinear_arith)
                requires
                    (acc as nat) < 0x100_0000_0000_0000,
            ;
        }
        let b = *slice_index_get(data, start + i);
        acc = acc * 256 + (b as u64);
        proof {
            let sub1 = d.subrange(start as int, start + i + 1 as int);
            assert(sub1.drop_last() =~= d.subrange(start as int, start + i as int));
            assert(sub1.last() == d[start + i as int]);
            lemma_be_val_bound(sub1);
        }
        i += 1;
    }
    *pos = start + n;
    Ok(acc)
}

/// Read the zero-terminated string at `*pos`, advancing past the
/// terminator (or to just past the end when none is found).
pub fn read_string(data: &[u8], pos: &mut usize) -> (r: Result<String, DecodeError>)
    requires
        data@.len() < usize::MAX,
    ensures
        match r {
            Ok(s) => parse_cstring(data@, *old(pos) as int) matches Ok(pr) && s@ == pr.0
                && *final(pos) == pr.1,
            Err(e) => parse_cstring(data@, *old(pos) as int) matches Err(pe) && pe == e
                && *final(pos) == *old(pos),
        },
{
    let start = *pos;
    if start > data.len() {
        return Err(DecodeError::Truncated);
    }
    let ghost d = data@;
    let mut p = start;
    while p < data.len() && *slice_index_get(data, p) != 0
        invariant
            start <= p <= d.len(),
            d == data@,
            forall|j: int| start <= j < p ==> d[j] != 0,
        decreases d.len() - p,
    {
        p += 1;
    }
    proof {
        lemma_zero_pos_scan(d, start as int, p as int);
    }
    let bytes = slice_subrange(data, start, p);
    let s = utf8_lossy_string(bytes);
    *pos = p + 1;
    Ok(s)
}

/// Decode one tuple at `*pos` for `relation_id`, resolving column names
/// against the catalog; the position is advanced only on success.
pub fn decode_tuple(data: &[u8], pos: &mut usize, catalog: &Catalog, relation_id: u32) -> (r:
    Result<Tuple, DecodeError>)
    requires
        data@.len() < usize::MAX,
    ensures
        match r {
            Ok(t) => parse_tuple_msg(data@, *old(pos) as int, catalog@, relation_id) matches Ok(pr)
                && t@ == pr.0 && *final(pos) == pr.1,
            Err(e) => parse_tuple_msg(data@, *old(pos) as int, catalog@, relation_id) matches Err(
                pe,
            ) && pe == e && *final(pos) == *old(pos),
        },
{
    let ghost d = data@;
    let ghost cat = catalog@;
    let ghost startpos = *pos as int;
    let mut p = *pos;
    let count: usize = match read_be(data, &mut p, 2) {
        Ok(v) => {
            proof {
                lemma_be_val_bound(d.subrange(startpos, startpos + 2));
                lemma_pow256_vals();
            }
            v as usize
        }
        Err(e) => {
            return Err(e);
        }
    };
    let info = match catalog.get(relation_id) {
        Some(info) => info,
        None => {
            return Err(DecodeError::UnknownRelation(relation_id));
        }
    };
    let ghost colsv = cat[relation_id].columns;
    proof {
        assert(parse_tuple_msg(d, startpos, cat, relation_id) == parse_fields(
            d,
            startpos + 2,
            count as nat,
            0,
            colsv,
            Seq::empty(),
        ));
    }
    let mut tuple = Tuple::new();
    let mut i: usize = 0;
    while i < count
        invariant
            i <= count,
            d == data@,
            d.len() < usize::MAX,
            cat == catalog@,
            cat.contains_key(relation_id),
            colsv == cat[relation_id].columns,
            info@ == cat[relation_id],
            p <= d.len(),
            *pos == *old(pos),
            startpos == *old(pos) as int,
            parse_tuple_msg(d, startpos, cat, relation_id) == parse_fields(
                d,
                p as int,
                (count - i) as nat,
                i as nat,
                colsv,
                tuple@,
            ),
        decreases count - i,
    {
        let ghost rem = (count - i) as nat;
        let ghost acc0 = tuple@;
        let ghost p0 = p as int;
        if p >= data.len() {
            proof {
                assert(parse_fields(d, p0, rem, i as nat, colsv, acc0) == Err::<
                    (Seq<FieldV>, int),
                    DecodeError,
                >(DecodeError::Truncated));
            }
            return Err(DecodeError::Truncated);
        }
        let m = *slice_index_get(data, p);
        let name: String = if i < info.columns.len() {
            info.columns[i].name.clone()
        } else {
            let mut nm = String::from_str("column_");
            push_dec_u64(i as u64, &mut nm);
            nm
        };
        proof {
            assert(name@ == field_name(colsv, i as nat));
        }
        let ghost namev = name@;
        if m == 110 || m == 117 {
            p += 1;
            tuple.insert(name, None);
            proof {
                assert(parse_fields(d, p0, rem, i as nat, colsv, acc0) == parse_fields(
                    d,
                    p0 + 1,
                    (rem - 1) as nat,
                    (i + 1) as nat,
                    colsv,
                    tuple_insert(acc0, namev, None),
                ));
                assert(tuple@ == tuple_insert(acc0, namev, None));
            }
        } else if m == 116 {
            p += 1;
            let vlen: usize = match read_be(data, &mut p, 4) {
                Ok(v) => {
                    proof {
                        lemma_be_val_bound(d.subrange(p0 + 1, p0 + 5));
                        lemma_pow256_vals();
                    }
                    v as usize
                }
                Err(e) => {
                    proof {
                        assert(parse_fields(d, p0, rem, i as nat, colsv, acc0) == Err::<
                            (Seq<FieldV>, int),
                            DecodeError,
                        >(DecodeError::Truncated));
                    }
                    return Err(e);
                }
            };
            if vlen > data.len() - p {
                proof {
                    assert(parse_fields(d, p0, rem, i as nat, colsv, acc0) == Err::<
                        (Seq<FieldV>, int),
                        DecodeError,
                    >(DecodeError::Truncated));
                }
                return Err(DecodeError::Truncated);
            }
            let bytes = slice_subrange(data, p, p + vlen);
            let s = utf8_lossy_string(bytes);
            let ghost sv = s@;
            p += vlen;
            tuple.insert(name, Some(s));
            proof {
                assert(parse_fields(d, p0, rem, i as nat, colsv, acc0) == parse_fields(
                    d,
                    p0 + 5 + vlen,
                    (rem - 1) as nat,
                    (i + 1) as nat,
                    colsv,
                    tuple_insert(acc0, namev, Some(utf8_lossy(d.subrange(p0 + 5, p0 + 5 + vlen)))),
                ));
                assert(tuple@ == tuple_insert(acc0, namev, Some(sv)));
            }
        } else {
            proof {
                assert(parse_fields(d, p0, rem, i as nat, colsv, acc0) == Err::<
                    (Seq<FieldV>, int),
                    DecodeError,
                >(DecodeError::BadMarker(m)));
            }
            return Err(DecodeError::BadMarker(m));
        }
        i += 1;
    }
    *pos = p;
    Ok(tuple)
}

fn timestamp_from(v: u64) -> (t: i64)
    ensures
        t == i64_from(v as nat),
{
    if v >= 0x8000_0000_0000_0000 {
        -((u64::MAX - v) as i64) - 1
    } else {
        v as i64
    }
}

/// Decode a transaction-begin payload (the bytes after the tag).
pub fn decode_begin(data: &[u8]) -> (r: Result<Option<Change>, DecodeError>)
    ensures
        match r {
            Ok(c) => parse_begin(data@) matches Ok(cv) && c matches Some(ch) && ch@ == cv,
            Err(e) => parse_begin(data@) matches Err(pe) && pe == e,
        },
{
    if data.len() < 20 {
        return Err(DecodeError::Truncated);
    }
    let ghost d = data@;
    let mut pos: usize = 0;
    let lsn_v = match read_be(data, &mut pos, 8) {
        Ok(v) => v,
        Err(e) => {
            proof {
                assert(false);
            }
            return Err(e);
        }
    };
    let ts_v = match read_be(data, &mut pos, 8) {
        Ok(v) => v,
        Err(e) => {
            proof {
                assert(false);
            }
            return Err(e);
        }
    };
    let xid_v = match read_be(data, &mut pos, 4) {
        Ok(v) => v,
        Err(e) => {
            proof {
                assert(false);
            }
            return Err(e);
        }
    };
    proof {
        lemma_be_val_bound(d.subrange(0, 8));
        lemma_be_val_bound(d.subrange(16, 20));
        lemma_pow256_vals();
    }
    let lsn = format_lsn(lsn_v);
    let timestamp = timestamp_from(ts_v);
    let xid = xid_v as u32;
    Ok(Some(Change::Begin { lsn, timestamp, xid }))
}

/// Decode a transaction-commit payload (the bytes after the tag).
pub fn decode_commit(data: &[u8]) -> (r: Result<Option<Change>, DecodeError>)
    ensures
        match r {
            Ok(c) => parse_commit(data@) matches Ok(cv) && c matches Some(ch) && ch@ == cv,
            Err(e) => parse_commit(data@) matches Err(pe) && pe == e,
        },
{
    if data.len() < 25 {
        return Err(DecodeError::Truncated);
    }
    let ghost d = data@;
    let mut pos: usize = 1;
    let lsn_v = match read_be(data, &mut pos, 8) {
        Ok(v) => v,
        Err(e) => {
            proof {
                assert(false);
            }
            return Err(e);
        }
    };
    let _end_lsn = match read_be(data, &mut pos, 8) {
        Ok(v) => v,
        Err(e) => {
            proof {
                assert(false);
            }
            return Err(e);
        }
    };
    let ts_v = match read_be(data, &mut pos, 8) {
        Ok(v) => v,
        Err(e) => {
            proof {
                assert(false);
            }
            return Err(e);
        }
    };
    proof {
        lemma_be_val_bound(d.subrange(1, 9));
        lemma_pow256_vals();
    }
    let lsn = format_lsn(lsn_v);
    let timestamp = timestamp_from(ts_v);
    Ok(Some(Change::Commit { lsn, timestamp }))
}

/// Decode a schema payload (the bytes after the tag) and upsert the
/// catalog: the one decoder with a side effect.
pub fn decode_relation(data: &[u8], catalog: &mut Catalog) -> (r: Result<
    Option<Change>,
    DecodeError,
>)
    requires
        data@.len() < usize::MAX,
    ensures
        match r {
            Ok(c) => parse_relation(data@) matches Ok(pr) && c matches Some(ch) && ch@ == (
            ChangeV::Relation {
                relation_id: pr.0,
                schema: pr.1.schema,
                table: pr.1.table,
                columns: pr.1.columns,
            }) && final(catalog)@ == old(catalog)@.insert(pr.0, pr.1),
            Err(e) => parse_relation(data@) matches Err(pe) && pe == e && final(catalog)@ == old(
                catalog,
            )@,
        },
{
    let ghost d = data@;
    let mut pos: usize = 0;
    let rid_v = match read_be(data, &mut pos, 4) {
        Ok(v) => v,
        Err(e) => {
            return Err(e);
        }
    };
    proof {
        lemma_be_val_bound(d.subrange(0, 4));
        lemma_pow256_vals();
    }
    let rid = rid_v as u32;
    let schema = match read_string(data, &mut pos) {
        Ok(s) => s,
        Err(e) => {
            proof {
                assert(false);
            }
            return Err(e);
        }
    };
    // the schema name may have run unterminated to the buffer's end, in
    // which case the table name is missing
    let table = match read_string(data, &mut pos) {
        Ok(s) => s,
        Err(e) => {
            return Err(e);
        }
    };
    let ghost schemav = schema@;
    let ghost tablev = table@;
    let ghost p2 = pos as int;
    // replica identity byte (ignored), then the 2-byte column count
    if pos >= data.len() {
        return Err(DecodeError::Truncated);
    }
    pos += 1;
    let count: usize = match read_be(data, &mut pos, 2) {
        Ok(v) => {
            proof {
                lemma_be_val_bound(d.subrange(p2 + 1, p2 + 3));
                lemma_pow256_vals();
            }
            v as usize
        }
        Err(e) => {
            return Err(e);
        }
    };
    proof {
        assert(parse_relation(d) == relation_result(
            rid,
            schemav,
            tablev,
            parse_columns(d, pos as int, count as nat, Seq::empty()),
        ));
    }
    let mut columns: Vec<ColumnInfo> = Vec::new();
    proof {
        assert(columns.deep_view() =~= Seq::<ColumnInfoV>::empty());
    }
    let mut k: usize = 0;
    while k < count
        invariant
            k <= count,
            d == data@,
            d.len() < usize::MAX,
            pos <= d.len(),
            parse_relation(d) == relation_result(
                rid,
                schemav,
                tablev,
                parse_columns(d, pos as int, (count - k) as nat, columns.deep_view()),
            ),
        decreases count - k,
    {
        let ghost p0 = pos as int;
        let ghost acc0 = columns.deep_view();
        let ghost rem = (count - k) as nat;
        if pos >= data.len() {
            proof {
                assert(parse_columns(d, p0, rem, acc0) == Err::<
                    (Seq<ColumnInfoV>, int),
                    DecodeError,
                >(DecodeError::Truncated));
            }
            return Err(DecodeError::Truncated);
        }
        let flags = *slice_index_get(data, pos);
        pos += 1;
        let name = match read_string(data, &mut pos) {
            Ok(s) => s,
            Err(e) => {
                proof {
                    assert(false);
                }
                return Err(e);
            }
        };
        let ghost namev = name@;
        let ghost pn = pos as int;
        let tid_v = match read_be(data, &mut pos, 4) {
            Ok(v) => v,
            Err(e) => {
                proof {
                    assert(parse_columns(d, p0, rem, acc0) == Err::<
                        (Seq<ColumnInfoV>, int),
                        DecodeError,
                    >(DecodeError::Truncated));
                }
                return Err(e);
            }
        };
        proof {
            lemma_be_val_bound(d.subrange(pn, pn + 4));
            lemma_pow256_vals();
        }
        let type_id = tid_v as u32;
        let _modifier = match read_be(data, &mut pos, 4) {
            Ok(v) => v,
            Err(e) => {
                proof {
                    assert(parse_columns(d, p0, rem, acc0) == Err::<
                        (Seq<ColumnInfoV>, int),
                        DecodeError,
                    >(DecodeError::Truncated));
                }
                return Err(e);
            }
        };
        let ghost colv = ColumnInfoV { name: namev, type_id, flags };
        proof {
            assert(parse_columns(d, p0, rem, acc0) == parse_columns(
                d,
                pos as int,
                (rem - 1) as nat,
                acc0.push(colv),
            ));
        }
        columns.push(ColumnInfo { name, type_id, flags });
        proof {
            assert(columns.deep_view() =~= acc0.push(colv));
        }
        k += 1;
    }
    let info = RelationInfo {
        schema: schema.clone(),
        table: table.clone(),
        columns: crate::catalog::clone_columns(&columns),
    };
    catalog.put(rid, info);
    Ok(Some(Change::Relation { relation_id: rid, schema, table, columns }))
}

/// Decode an insert payload (the bytes after the tag): the relation must
/// be known and the tuple marker must be `N`.
pub fn decode_insert(data: &[u8], catalog: &Catalog) -> (r: Result<Option<Change>, DecodeError>)
    requires
        data@.len() < usize::MAX,
    ensures
        match r {
            Ok(c) => parse_insert(data@, catalog@) matches Ok(cv) && c matches Some(ch) && ch@
                == cv,
            Err(e) => parse_insert(data@, catalog@) matches Err(pe) && pe == e,
        },
{
    let ghost d = data@;
    let mut pos: usize = 0;
    let rid_v = match read_be(data, &mut pos, 4) {
        Ok(v) => v,
        Err(e) => {
            return Err(e);
        }
    };
    proof {
        lemma_be_val_bound(d.subrange(0, 4));
        lemma_pow256_vals();
    }
    let rid = rid_v as u32;
    if pos >= data.len() {
        return Err(DecodeError::Truncated);
    }
    let m = *slice_index_get(data, pos);
    pos += 1;
    if m != 78 {
        return Err(DecodeError::BadMarker(m));
    }
    let new_tuple = match decode_tuple(data, &mut pos, catalog, rid) {
        Ok(t) => t,
        Err(e) => {
            return Err(e);
        }
    };
    match catalog.get(rid) {
        Some(info) => Ok(
            Some(
                Change::Insert {
                    relation_id: rid,
                    schema: info.schema.clone(),
                    table: info.table.clone(),
                    new_tuple,
                },
            ),
        ),
        None => {
            proof {
                assert(false);
            }
            Err(DecodeError::UnknownRelation(rid))
        }
    }
}

/// Decode an update payload (the bytes after the tag): `K`/`O` introduce
/// an old tuple which must be followed by `N` and the new tuple; a direct
/// `N` carries only the new tuple.
pub fn decode_update(data: &[u8], catalog: &Catalog) -> (r: Result<Option<Change>, DecodeError>)
    requires
        data@.len() < usize::MAX,
    ensures
        match r {
            Ok(c) => parse_update(data@, catalog@) matches Ok(cv) && c matches Some(ch) && ch@
                == cv,
            Err(e) => parse_update(data@, catalog@) matches Err(pe) && pe == e,
        },
{
    let ghost d = data@;
    let mut pos: usize = 0;
    let rid_v = match read_be(data, &mut pos, 4) {
        Ok(v) => v,
        Err(e) => {
            return Err(e);
        }
    };
    proof {
        lemma_be_val_bound(d.subrange(0, 4));
        lemma_pow256_vals();
    }
    let rid = rid_v as u32;
    if pos >= data.len() {
        return Err(DecodeError::Truncated);
    }
    let m = *slice_index_get(data, pos);
    pos += 1;
    let old_tuple: Option<Tuple> = if m == 75 || m == 79 {
        let t = match decode_tuple(data, &mut pos, catalog, rid) {
            Ok(t) => t,
            Err(e) => {
                return Err(e);
            }
        };
        if pos >= data.len() {
            return Err(DecodeError::Truncated);
        }
        let m2 = *slice_index_get(data, pos);
        pos += 1;
        if m2 != 78 {
            return Err(DecodeError::BadMarker(m2));
        }
        Some(t)
    } else if m == 78 {
        None
    } else {
        return Err(DecodeError::BadMarker(m));
    };
    let new_tuple = match decode_tuple(data, &mut pos, catalog, rid) {
        Ok(t) => t,
        Err(e) => {
            return Err(e);
        }
    };
    match catalog.get(rid) {
        Some(info) => Ok(
            Some(
                Change::Update {
                    relation_id: rid,
                    schema: info.schema.clone(),
                    table: info.table.clone(),
                    old_tuple,
                    new_tuple,
                },
            ),
        ),
        None => {
            proof {
                assert(false);
            }
            Err(DecodeError::UnknownRelation(rid))
        }
    }
}

/// Decode a delete payload (the bytes after the tag): the marker must be
/// `K` or `O` and the tuple is stored as the old tuple.
pub fn decode_delete(data: &[u8], catalog: &Catalog) -> (r: Result<Option<Change>, DecodeError>)
    requires
        data@.len() < usize::MAX,
    ensures
        match r {
            Ok(c) => parse_delete(data@, catalog@) matches Ok(cv) && c matches Some(ch) && ch@
                == cv,
            Err(e) => parse_delete(data@, catalog@) matches Err(pe) && pe == e,
        },
{
    let ghost d = data@;
    let mut pos: usize = 0;
    let rid_v = match read_be(data, &mut pos, 4) {
        Ok(v) => v,
        Err(e) => {
            return Err(e);
        }
    };
    proof {
        lemma_be_val_bound(d.subrange(0, 4));
        lemma_pow256_vals();
    }
    let rid = rid_v as u32;
    if pos >= data.len() {
        return Err(DecodeError::Truncated);
    }
    let m = *slice_index_get(data, pos);
    pos += 1;
    if m != 75 && m != 79 {
        return Err(DecodeError::BadMarker(m));
    }
    let old_tuple = match decode_tuple(data, &mut pos, catalog, rid) {
        Ok(t) => t,
        Err(e) => {
            return Err(e);
        }
    };
    match catalog.get(rid) {
        Some(info) => Ok(
            Some(
                Change::Delete {
                    relation_id: rid,
                    schema: info.schema.clone(),
                    table: info.table.clone(),
                    old_tuple,
                },
            ),
        ),
        None => {
            proof {
                assert(false);
            }
            Err(DecodeError::UnknownRelation(rid))
        }
    }
}

/// Decode one whole protocol message. The tag byte selects the payload
/// decoder; a schema message upserts the catalog; unknown and unsupported
/// tags give `Ok(None)`.
pub fn decode_pgoutput_message(data: &[u8], catalog: &mut Catalog) -> (r: Result<
    Option<Change>,
    DecodeError,
>)
    requires
        data@.len() < usize::MAX,
    ensures
        match r {
            Ok(oc) => spec_decode(data@, old(catalog)@) matches Ok(ov) && oc.deep_view() == ov,
            Err(e) => spec_decode(data@, old(catalog)@) matches Err(pe) && pe == e,
        },
        final(catalog)@ == spec_decode_catalog(data@, old(catalog)@),
{
    let ghost d = data@;
    if data.len() == 0 {
        return Ok(None);
    }
    let tag = *slice_index_get(data, 0);
    let rest = slice_subrange(data, 1, data.len());
    proof {
        assert(rest@ =~= d.drop_first());
    }
    if tag == 66 {
        decode_begin(rest)
    } else if tag == 67 {
        decode_commit(rest)
    } else if tag == 82 {
        decode_relation(rest, catalog)
    } else if tag == 73 {
        decode_insert(rest, catalog)
    } else if tag == 85 {
        decode_update(rest, catalog)
    } else if tag == 68 {
        decode_delete(rest, catalog)
    } else {
        Ok(None)
    }
}

/// The relation id a row-change payload names: its first four bytes.
pub open spec fn encoded_relation_id(d: Seq<u8>) -> u32 {
    be_val(d.subrange(0, 4)) as u32
}

pub open spec fn spec_update_old(r: Result<ChangeV, DecodeError>) -> Option<Seq<FieldV>> {
    match r {
        Ok(ChangeV::Update { old_tuple, .. }) => old_tuple,
        _ => None,
    }
}

/// Law: for every schema payload that decodes, looking the relation id up
/// in the catalog afterwards yields exactly the encoded definition - the
/// columns in their original order, with their names, type ids and flags.
pub proof fn lemma_relation_then_lookup(d: Seq<u8>, cat: Map<u32, RelationInfoV>)
    requires
        parse_relation(d) is Ok,
    ensures
        ({
            let (rid, info) = parse_relation(d)->Ok_0;
            cat.insert(rid, info).contains_key(rid) && cat.insert(rid, info)[rid] == info
        }),
{
}

/// Law: a row-change payload naming a relation the catalog has never seen
/// fails to decode, whatever the rest of the payload holds.
pub proof fn lemma_unseen_relation_rejected(d: Seq<u8>, cat: Map<u32, RelationInfoV>)
    requires
        !cat.contains_key(encoded_relation_id(d)),
    ensures
        parse_insert(d, cat) is Err,
        parse_update(d, cat) is Err,
        parse_delete(d, cat) is Err,
{
    if d.len() >= 5 {
        let rid = encoded_relation_id(d);
        assert(parse_tuple_msg(d, 5, cat, rid) is Err);
    }
}

/// Law: an update whose first marker is `N` carries no old tuple; one
/// whose marker is `K` or `O` carries one; and after such an old tuple a
/// marker other than `N` makes the whole payload fail.
pub proof fn lemma_update_marker_shapes(d: Seq<u8>, cat: Map<u32, RelationInfoV>)
    ensures
        parse_update(d, cat) is Ok ==> d.len() >= 5 && (d[4] == 78 || d[4] == 75 || d[4] == 79),
        parse_update(d, cat) is Ok && d.len() >= 5 && d[4] == 78 ==> spec_update_old(
            parse_update(d, cat),
        ) is None,
        parse_update(d, cat) is Ok && d.len() >= 5 && (d[4] == 75 || d[4] == 79)
            ==> spec_update_old(parse_update(d, cat)) is Some,
        (parse_tuple_msg(d, 5, cat, encoded_relation_id(d)) matches Ok(pr) && d.len() >= 5 && (
        d[4] == 75 || d[4] == 79) && pr.1 < d.len() && d[pr.1] != 78) ==> parse_update(d, cat)
            is Err,
{
}

/// Law: the value markers of a tuple field. `n` (NULL) and `u` (unchanged)
/// both store an absent value under the resolved column name; `t` stores
/// exactly the declared number of bytes, decoded as text; anything else
/// fails.
pub proof fn lemma_value_markers(
    d: Seq<u8>,
    pos: int,
    rem: nat,
    idx: nat,
    columns: Seq<ColumnInfoV>,
    acc: Seq<FieldV>,
)
    requires
        rem > 0,
        0 <= pos,
        pos + 1 <= d.len(),
    ensures
        d[pos] == 110 || d[pos] == 117 ==> parse_fields(d, pos, rem, idx, columns, acc)
            == parse_fields(
            d,
            pos + 1,
            (rem - 1) as nat,
            idx + 1,
            columns,
            tuple_insert(acc, field_name(columns, idx), None),
        ),
        d[pos] == 116 && pos + 5 + be_val(d.subrange(pos + 1, pos + 5)) <= d.len()
            ==> parse_fields(d, pos, rem, idx, columns, acc) == parse_fields(
            d,
            pos + 5 + be_val(d.subrange(pos + 1, pos + 5)),
            (rem - 1) as nat,
            idx + 1,
            columns,
            tuple_insert(
                acc,
                field_name(columns, idx),
                Some(
                    utf8_lossy(
                        d.subrange(pos + 5, pos + 5 + be_val(d.subrange(pos + 1, pos + 5))),
                    ),
                ),
            ),
        ),
        d[pos] != 110 && d[pos] != 117 && d[pos] != 116 ==> parse_fields(
            d,
            pos,
            rem,
            idx,
            columns,
            acc,
        ) == Err::<(Seq<FieldV>, int), DecodeError>(DecodeError::BadMarker(d[pos])),
{
}

} // verus!
