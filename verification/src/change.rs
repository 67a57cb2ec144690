//! The decoded change events and the row tuples they carry.
//!
//! A `Change` is everything the replication protocol can emit that this
//! library understands: transaction markers, schema announcements, and
//! row-level inserts, updates and deletes. A `Tuple` maps column names to
//! optional text values; the inner option distinguishes SQL NULL from a
//! present value.

use vstd::prelude::*;

verus! {

/// Mathematical model of one column definition.
pub ghost struct ColumnInfoV {
    pub name: Seq<char>,
    pub type_id: u32,
    pub flags: u8,
}

/// One column of a relation: its name, type identifier and flags byte.
#[derive(Debug, Clone, PartialEq, Eq)]
pub struct ColumnInfo {
    pub name: String,
    pub type_id: u32,
    pub flags: u8,
}

impl View for ColumnInfo {
    type V = ColumnInfoV;

    open spec fn view(&self) -> ColumnInfoV {
        ColumnInfoV { name: self.name@, type_id: self.type_id, flags: self.flags }
    }
}

impl DeepView for ColumnInfo {
    type V = ColumnInfoV;

    open spec fn deep_view(&self) -> ColumnInfoV {
        self@
    }
}

/// Mathematical model of one tuple field: a column name and its value,
/// `None` standing for SQL NULL.
pub ghost struct FieldV {
    pub name: Seq<char>,
    pub value: Option<Seq<char>>,
}

/// One stored column of a [`Tuple`]: a name and its (possibly NULL) value.
#[derive(Debug, Clone, PartialEq, Eq)]
pub struct Field {
    pub name: String,
    pub value: Option<String>,
}

impl View for Field {
    type V = FieldV;

    open spec fn view(&self) -> FieldV {
        FieldV { name: self.name@, value: self.value.deep_view() }
    }
}

impl DeepView for Field {
    type V = FieldV;

    open spec fn deep_view(&self) -> FieldV {
        self@
    }
}

/// Index of the first field named `name`, or `-1` if there is none.
pub open spec fn tuple_index_of(t: Seq<FieldV>, name: Seq<char>) -> int
    decreases t.len(),
{
    if t.len() == 0 {
        -1
    } else if t[0].name == name {
        0
    } else {
        let r = tuple_index_of(t.drop_first(), name);
        if r == -1 {
            -1
        } else {
            r + 1
        }
    }
}

/// The value under `name`: `None` when the tuple has no such column,
/// `Some(v)` where `v` is the column's (possibly NULL) value otherwise.
pub open spec fn tuple_get(t: Seq<FieldV>, name: Seq<char>) -> Option<Option<Seq<char>>> {
    let i = tuple_index_of(t, name);
    if i == -1 {
        None
    } else {
        Some(t[i].value)
    }
}

/// Insertion into a tuple: overwrites the value in place when the name is
/// already present, appends a new field otherwise.
pub open spec fn tuple_insert(
    t: Seq<FieldV>,
    name: Seq<char>,
    value: Option<Seq<char>>,
) -> Seq<FieldV> {
    let i = tuple_index_of(t, name);
    if i == -1 {
        t.push(FieldV { name, value })
    } else {
        t.update(i, FieldV { name, value })
    }
}

proof fn lemma_index_of_first_match(t: Seq<FieldV>, name: Seq<char>, i: int)
    requires
        0 <= i < t.len(),
        t[i].name == name,
        forall|j: int| 0 <= j < i ==> t[j].name != name,
    ensures
        tuple_index_of(t, name) == i,
    decreases t.len(),
{
    if i > 0 {
        lemma_index_of_first_match(t.drop_first(), name, i - 1);
    }
}

proof fn lemma_index_of_no_match(t: Seq<FieldV>, name: Seq<char>)
    requires
        forall|j: int| 0 <= j < t.len() ==> t[j].name != name,
    ensures
        tuple_index_of(t, name) == -1,
    decreases t.len(),
{
    if t.len() > 0 {
        lemma_index_of_no_match(t.drop_first(), name);
    }
}

/// One row's columns, in the order they were first inserted. Names are kept
/// unique: inserting an existing name overwrites its value in place.
#[derive(Debug, Clone, PartialEq, Eq)]
pub struct Tuple {
    pub entries: Vec<Field>,
}

impl View for Tuple {
    type V = Seq<FieldV>;

    open spec fn view(&self) -> Seq<FieldV> {
        self.entries.deep_view()
    }
}

impl DeepView for Tuple {
    type V = Seq<FieldV>;

    open spec fn deep_view(&self) -> Seq<FieldV> {
        self@
    }
}

impl Tuple {
    /// The empty tuple.
    pub fn new() -> (t: Tuple)
        ensures
            t@ == Seq::<FieldV>::empty(),
    {
        Tuple { entries: Vec::new() }
    }

    pub fn len(&self) -> (n: usize)
        ensures
            n == self@.len(),
    {
        self.entries.len()
    }

    fn index_of(&self, name: &str) -> (r: Option<usize>)
        ensures
            match r {
                Some(i) => i == tuple_index_of(self@, name@) && i < self@.len(),
                None => tuple_index_of(self@, name@) == -1,
            },
    {
        let n = self.entries.len();
        let mut i: usize = 0;
        while i < n
            invariant
                n == self@.len(),
                i <= n,
                forall|j: int| 0 <= j < i ==> self@[j].name != name@,
            decreases n - i,
        {
            if crate::util::str_eq(self.entries[i].name.as_str(), name) {
                proof {
                    lemma_index_of_first_match(self@, name@, i as int);
                }
                return Some(i);
            }
            i += 1;
        }
        proof {
            lemma_index_of_no_match(self@, name@);
        }
        None
    }

    /// Set `name` to `value`, overwriting a present column of that name and
    /// appending a fresh one otherwise.
    pub fn insert(&mut self, name: String, value: Option<String>)
        ensures
            final(self)@ == tuple_insert(old(self)@, name@, value.deep_view()),
    {
        match self.index_of(name.as_str()) {
            Some(i) => {
                self.entries.set(i, Field { name, value });
                proof {
                    assert(final(self)@ =~= tuple_insert(old(self)@, name@, value.deep_view()));
                }
            }
            None => {
                self.entries.push(Field { name, value });
                proof {
                    assert(final(self)@ =~= tuple_insert(old(self)@, name@, value.deep_view()));
                }
            }
        }
    }

    /// Look a column up by name: `None` when the tuple has no such column,
    /// `Some(v)` with the column's (possibly NULL) value otherwise.
    pub fn get(&self, name: &str) -> (r: Option<Option<String>>)
        ensures
            r.deep_view() == tuple_get(self@, name@),
    {
        match self.index_of(name) {
            Some(i) => Some(self.entries[i].value.clone()),
            None => None,
        }
    }
}

/// Mathematical model of a change event.
pub ghost enum ChangeV {
    Begin { lsn: Seq<char>, timestamp: i64, xid: u32 },
    Commit { lsn: Seq<char>, timestamp: i64 },
    Insert { relation_id: u32, schema: Seq<char>, table: Seq<char>, new_tuple: Seq<FieldV> },
    Update {
        relation_id: u32,
        schema: Seq<char>,
        table: Seq<char>,
        old_tuple: Option<Seq<FieldV>>,
        new_tuple: Seq<FieldV>,
    },
    Delete { relation_id: u32, schema: Seq<char>, table: Seq<char>, old_tuple: Seq<FieldV> },
    Relation { relation_id: u32, schema: Seq<char>, table: Seq<char>, columns: Seq<ColumnInfoV> },
}

/// Everything the replication protocol can emit that this library
/// understands. Transaction markers carry a rendered log sequence number;
/// row-level events carry the owning table's identity and the affected row.
#[derive(Debug, Clone, PartialEq, Eq)]
pub enum Change {
    Begin { lsn: String, timestamp: i64, xid: u32 },
    Commit { lsn: String, timestamp: i64 },
    Insert { relation_id: u32, schema: String, table: String, new_tuple: Tuple },
    Update {
        relation_id: u32,
        schema: String,
        table: String,
        old_tuple: Option<Tuple>,
        new_tuple: Tuple,
    },
    Delete { relation_id: u32, schema: String, table: String, old_tuple: Tuple },
    Relation { relation_id: u32, schema: String, table: String, columns: Vec<ColumnInfo> },
}

impl View for Change {
    type V = ChangeV;

    open spec fn view(&self) -> ChangeV {
        match self {
            Change::Begin { lsn, timestamp, xid } => ChangeV::Begin {
                lsn: lsn@,
                timestamp: *timestamp,
                xid: *xid,
            },
            Change::Commit { lsn, timestamp } => ChangeV::Commit {
                lsn: lsn@,
                timestamp: *timestamp,
            },
            Change::Insert { relation_id, schema, table, new_tuple } => ChangeV::Insert {
                relation_id: *relation_id,
                schema: schema@,
                table: table@,
                new_tuple: new_tuple@,
            },
            Change::Update { relation_id, schema, table, old_tuple, new_tuple } => ChangeV::Update {
                relation_id: *relation_id,
                schema: schema@,
                table: table@,
                old_tuple: old_tuple.deep_view(),
                new_tuple: new_tuple@,
            },
            Change::Delete { relation_id, schema, table, old_tuple } => ChangeV::Delete {
                relation_id: *relation_id,
                schema: schema@,
                table: table@,
                old_tuple: old_tuple@,
            },
            Change::Relation { relation_id, schema, table, columns } => ChangeV::Relation {
                relation_id: *relation_id,
                schema: schema@,
                table: table@,
                columns: columns.deep_view(),
            },
        }
    }
}

impl DeepView for Change {
    type V = ChangeV;

    open spec fn deep_view(&self) -> ChangeV {
        self@
    }
}

impl Change {
    /// The log sequence number a change carries directly: only transaction
    /// markers have one.
    pub fn get_lsn(&self) -> (r: Option<&str>)
        ensures
            match self@ {
                ChangeV::Begin { lsn, .. } => r matches Some(s) && s@ == lsn,
                ChangeV::Commit { lsn, .. } => r matches Some(s) && s@ == lsn,
                _ => r is None,
            },
    {
        match self {
            Change::Begin { lsn, .. } => Some(lsn.as_str()),
            Change::Commit { lsn, .. } => Some(lsn.as_str()),
            _ => None,
        }
    }
}

} // verus!
