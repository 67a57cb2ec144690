//! The relation catalog: relation identifier to current table schema.
//!
//! Schema announcements upsert entries; row-change decoding reads them. The
//! latest definition always wins and nothing is ever evicted.

use vstd::prelude::*;

use crate::change::{ColumnInfo, ColumnInfoV};

verus! {

/// Mathematical model of one catalog entry's payload.
pub ghost struct RelationInfoV {
    pub schema: Seq<char>,
    pub table: Seq<char>,
    pub columns: Seq<ColumnInfoV>,
}

/// A table's identity and its current column schema, as announced by a
/// schema message.
#[derive(Debug, Clone, PartialEq, Eq)]
pub struct RelationInfo {
    pub schema: String,
    pub table: String,
    pub columns: Vec<ColumnInfo>,
}

impl View for RelationInfo {
    type V = RelationInfoV;

    open spec fn view(&self) -> RelationInfoV {
        RelationInfoV {
            schema: self.schema@,
            table: self.table@,
            columns: self.columns.deep_view(),
        }
    }
}

impl DeepView for RelationInfo {
    type V = RelationInfoV;

    open spec fn deep_view(&self) -> RelationInfoV {
        self@
    }
}

ghost struct CatalogEntryV {
    id: u32,
    info: RelationInfoV,
}

struct CatalogEntry {
    id: u32,
    info: RelationInfo,
}

impl View for CatalogEntry {
    type V = CatalogEntryV;

    closed spec fn view(&self) -> CatalogEntryV {
        CatalogEntryV { id: self.id, info: self.info@ }
    }
}

impl DeepView for CatalogEntry {
    type V = CatalogEntryV;

    closed spec fn deep_view(&self) -> CatalogEntryV {
        self@
    }
}

spec fn entries_map(s: Seq<CatalogEntryV>) -> Map<u32, RelationInfoV>
    decreases s.len(),
{
    if s.len() == 0 {
        Map::empty()
    } else {
        entries_map(s.drop_first()).insert(s[0].id, s[0].info)
    }
}

proof fn lemma_entries_map_no_match(s: Seq<CatalogEntryV>, id: u32)
    requires
        forall|j: int| 0 <= j < s.len() ==> s[j].id != id,
    ensures
        !entries_map(s).contains_key(id),
    decreases s.len(),
{
    if s.len() > 0 {
        lemma_entries_map_no_match(s.drop_first(), id);
    }
}

proof fn lemma_entries_map_first_match(s: Seq<CatalogEntryV>, id: u32, i: int)
    requires
        0 <= i < s.len(),
        s[i].id == id,
        forall|j: int| 0 <= j < i ==> s[j].id != id,
    ensures
        entries_map(s).contains_key(id),
        entries_map(s)[id] == s[i].info,
    decreases s.len(),
{
    if i > 0 {
        lemma_entries_map_first_match(s.drop_first(), id, i - 1);
    }
}

proof fn lemma_entries_map_update_first(s: Seq<CatalogEntryV>, i: int, e: CatalogEntryV)
    requires
        0 <= i < s.len(),
        s[i].id == e.id,
        forall|j: int| 0 <= j < i ==> s[j].id != e.id,
    ensures
        entries_map(s.update(i, e)) == entries_map(s).insert(e.id, e.info),
    decreases s.len(),
{
    let t = s.update(i, e);
    if i == 0 {
        assert(t.drop_first() =~= s.drop_first());
        assert(entries_map(s.drop_first()).insert(s[0].id, s[0].info).insert(e.id, e.info)
            =~= entries_map(s.drop_first()).insert(e.id, e.info));
    } else {
        assert(t.drop_first() =~= s.drop_first().update(i - 1, e));
        lemma_entries_map_update_first(s.drop_first(), i - 1, e);
        assert(s[0].id != e.id);
        assert(entries_map(s.drop_first()).insert(e.id, e.info).insert(s[0].id, s[0].info)
            =~= entries_map(s.drop_first()).insert(s[0].id, s[0].info).insert(e.id, e.info));
    }
}

proof fn lemma_entries_map_push_fresh(s: Seq<CatalogEntryV>, e: CatalogEntryV)
    requires
        forall|j: int| 0 <= j < s.len() ==> s[j].id != e.id,
    ensures
        entries_map(s.push(e)) == entries_map(s).insert(e.id, e.info),
    decreases s.len(),
{
    if s.len() == 0 {
        reveal_with_fuel(entries_map, 2);
        assert(s.push(e).drop_first() =~= Seq::<CatalogEntryV>::empty());
        assert(s.push(e)[0] == e);
        assert(entries_map(Seq::<CatalogEntryV>::empty()) == Map::<u32, RelationInfoV>::empty());
        assert(entries_map(s.push(e)) =~= entries_map(s).insert(e.id, e.info));
    } else {
        assert(s.push(e).drop_first() =~= s.drop_first().push(e));
        assert(s.push(e)[0] == s[0]);
        lemma_entries_map_push_fresh(s.drop_first(), e);
        assert(entries_map(s.push(e)) == entries_map(s.drop_first()).insert(e.id, e.info).insert(
            s[0].id,
            s[0].info,
        ));
        assert(s[0].id != e.id);
        assert(entries_map(s.drop_first()).insert(e.id, e.info).insert(s[0].id, s[0].info)
            =~= entries_map(s.drop_first()).insert(s[0].id, s[0].info).insert(e.id, e.info));
        assert(entries_map(s) == entries_map(s.drop_first()).insert(s[0].id, s[0].info));
        assert(entries_map(s.push(e)) =~= entries_map(s).insert(e.id, e.info));
    }
}

/// The relation catalog: a mapping from relation identifier to the table's
/// current schema. Viewed as a `Map<u32, RelationInfoV>`.
pub struct Catalog {
    entries: Vec<CatalogEntry>,
}

impl View for Catalog {
    type V = Map<u32, RelationInfoV>;

    closed spec fn view(&self) -> Map<u32, RelationInfoV> {
        entries_map(self.entries.deep_view())
    }
}

impl Catalog {
    /// The empty catalog.
    pub fn new() -> (c: Catalog)
        ensures
            c@ == Map::<u32, RelationInfoV>::empty(),
    {
        Catalog { entries: Vec::new() }
    }

    fn index_of(&self, relation_id: u32) -> (r: Option<usize>)
        ensures
            match r {
                Some(i) => i < self.entries.deep_view().len() && self.entries.deep_view()[
                    i as int
                ].id == relation_id && forall|j: int|
                    0 <= j < i ==> self.entries.deep_view()[j].id != relation_id,
                None => forall|j: int|
                    0 <= j < self.entries.deep_view().len() ==> self.entries.deep_view()[j].id
                        != relation_id,
            },
    {
        let n = self.entries.len();
        let mut i: usize = 0;
        while i < n
            invariant
                n == self.entries.deep_view().len(),
                i <= n,
                forall|j: int| 0 <= j < i ==> self.entries.deep_view()[j].id != relation_id,
            decreases n - i,
        {
            if self.entries[i].id == relation_id {
                return Some(i);
            }
            i += 1;
        }
        None
    }

    /// Unconditional upsert: the new definition replaces any prior one for
    /// the same relation identifier.
    pub fn put(&mut self, relation_id: u32, info: RelationInfo)
        ensures
            final(self)@ == old(self)@.insert(relation_id, info@),
    {
        let e = CatalogEntry { id: relation_id, info };
        let ghost ev = e@;
        match self.index_of(relation_id) {
            Some(i) => {
                proof {
                    lemma_entries_map_update_first(self.entries.deep_view(), i as int, ev);
                }
                self.entries.set(i, e);
                proof {
                    assert(final(self).entries.deep_view() =~= old(self).entries.deep_view().update(
                        i as int,
                        ev,
                    ));
                }
            }
            None => {
                proof {
                    lemma_entries_map_push_fresh(self.entries.deep_view(), ev);
                }
                self.entries.push(e);
                proof {
                    assert(final(self).entries.deep_view() =~= old(self).entries.deep_view().push(
                        ev,
                    ));
                }
            }
        }
    }

    /// Look a relation up: `Some` exactly when a schema message for the
    /// identifier has been decoded, carrying the latest definition.
    pub fn get(&self, relation_id: u32) -> (r: Option<&RelationInfo>)
        ensures
            match r {
                Some(info) => self@.contains_key(relation_id) && info@ == self@[relation_id],
                None => !self@.contains_key(relation_id),
            },
    {
        match self.index_of(relation_id) {
            Some(i) => {
                proof {
                    lemma_entries_map_first_match(self.entries.deep_view(), relation_id, i as int);
                }
                Some(&self.entries[i].info)
            }
            None => {
                proof {
                    lemma_entries_map_no_match(self.entries.deep_view(), relation_id);
                }
                None
            }
        }
    }

    /// Whether the catalog holds a definition for the identifier.
    pub fn contains(&self, relation_id: u32) -> (r: bool)
        ensures
            r == self@.contains_key(relation_id),
    {
        self.get(relation_id).is_some()
    }
}

pub(crate) fn clone_columns(cols: &Vec<ColumnInfo>) -> (r: Vec<ColumnInfo>)
    ensures
        r.deep_view() == cols.deep_view(),
{
    let mut r: Vec<ColumnInfo> = Vec::new();
    let n = cols.len();
    let mut i: usize = 0;
    while i < n
        invariant
            n == cols.deep_view().len(),
            n == cols@.len(),
            i <= n,
            r.deep_view().len() == i,
            forall|j: int| 0 <= j < i ==> r.deep_view()[j] == cols.deep_view()[j],
        decreases n - i,
    {
        r.push(
            ColumnInfo {
                name: cols[i].name.clone(),
                type_id: cols[i].type_id,
                flags: cols[i].flags,
            },
        );
        i += 1;
    }
    proof {
        assert(r.deep_view() =~= cols.deep_view());
    }
    r
}

/// Column metadata for a relation, copied out of the catalog: `Some` exactly
/// when the relation is known.
pub fn get_relation_columns(catalog: &Catalog, relation_id: u32) -> (r: Option<Vec<ColumnInfo>>)
    ensures
        match r {
            Some(cols) => catalog@.contains_key(relation_id) && cols.deep_view()
                == catalog@[relation_id].columns,
            None => !catalog@.contains_key(relation_id),
        },
{
    match catalog.get(relation_id) {
        Some(info) => Some(clone_columns(&info.columns)),
        None => None,
    }
}

} // verus!
