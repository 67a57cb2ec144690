//! Output formats, sink routing and the fan-out reduction.
//!
//! Sinks themselves perform I/O and live outside the library; everything
//! they need decided — which console rendering, which broker subject,
//! which ingestion destination, and how a fan-out's outcomes reduce to
//! one result — is computed and verified here.

use vstd::prelude::*;

use crate::change::{Change, ChangeV};
use crate::util::{push_char, str_eq};

verus! {

/// The console sink's three renderings.
#[derive(Debug, Clone)]
pub enum OutputFormat {
    Json,
    JsonPretty,
    Text,
}

/// A configuration problem found before streaming starts.
#[derive(Debug, Clone, PartialEq, Eq)]
pub enum ConfigError {
    /// The requested console format name is not recognized.
    UnknownFormat(String),
}

/// ASCII lowercasing of one character.
pub open spec fn lower_char(c: char) -> char {
    if 'A' <= c && c <= 'Z' {
        (((c as u8) + 32) as char)
    } else {
        c
    }
}

/// ASCII lowercasing of a string.
pub open spec fn ascii_lower(s: Seq<char>) -> Seq<char> {
    s.map_values(|c: char| lower_char(c))
}

fn to_ascii_lower(s: &str) -> (r: String)
    ensures
        r@ == ascii_lower(s@),
{
    let n = s.unicode_len();
    let mut r = String::new();
    let mut i: usize = 0;
    while i < n
        invariant
            i <= n,
            n == s@.len(),
            r@.len() == i,
            forall|j: int| 0 <= j < i ==> r@[j] == lower_char(s@[j]),
        decreases n - i,
    {
        let c = s.get_char(i);
        let lc: char = if c >= 'A' && c <= 'Z' {
            (((c as u8) + 32) as char)
        } else {
            c
        };
        push_char(&mut r, lc);
        i += 1;
    }
    proof {
        assert(r@ =~= ascii_lower(s@));
    }
    r
}

impl OutputFormat {
    /// Select a console rendering by name, ASCII-case-insensitively:
    /// `json`, `json-pretty` or `text`; anything else is a configuration
    /// error carrying the offending name.
    pub fn from_str(s: &str) -> (r: Result<OutputFormat, ConfigError>)
        ensures
            ascii_lower(s@) == "json"@ ==> (r matches Ok(f) && f is Json),
            ascii_lower(s@) == "json-pretty"@ ==> (r matches Ok(f) && f is JsonPretty),
            ascii_lower(s@) == "text"@ ==> (r matches Ok(f) && f is Text),
            ascii_lower(s@) != "json"@ && ascii_lower(s@) != "json-pretty"@ && ascii_lower(s@)
                != "text"@ ==> (r matches Err(e) && e matches ConfigError::UnknownFormat(n) && n@
                == s@),
    {
        proof {
            reveal_strlit("json");
            reveal_strlit("json-pretty");
            reveal_strlit("text");
            assert("json"@.len() == 4);
            assert("json-pretty"@.len() == 11);
            assert("text"@.len() == 4);
            assert("json"@ != "json-pretty"@);
            assert("json"@[0] == 'j' && "text"@[0] == 't');
            assert("json"@ != "text"@);
            assert("json-pretty"@ != "text"@);
        }
        let l = to_ascii_lower(s);
        if str_eq(l.as_str(), "json") {
            Ok(OutputFormat::Json)
        } else if str_eq(l.as_str(), "json-pretty") {
            Ok(OutputFormat::JsonPretty)
        } else if str_eq(l.as_str(), "text") {
            Ok(OutputFormat::Text)
        } else {
            Err(ConfigError::UnknownFormat(String::from_str(s)))
        }
    }
}

/// The broker subject a change is published under: table-scoped changes
/// route to `<prefix>.<schema>.<table>.<operation>`, transaction markers
/// to `<prefix>.transactions.<begin|commit>.event`.
pub open spec fn subject_text(prefix: Seq<char>, c: ChangeV) -> Seq<char> {
    match c {
        ChangeV::Begin { .. } => prefix + ".transactions.begin.event"@,
        ChangeV::Commit { .. } => prefix + ".transactions.commit.event"@,
        ChangeV::Insert { schema, table, .. } => prefix + "."@ + schema + "."@ + table
            + ".insert"@,
        ChangeV::Update { schema, table, .. } => prefix + "."@ + schema + "."@ + table
            + ".update"@,
        ChangeV::Delete { schema, table, .. } => prefix + "."@ + schema + "."@ + table
            + ".delete"@,
        ChangeV::Relation { schema, table, .. } => prefix + "."@ + schema + "."@ + table
            + ".relation"@,
    }
}

/// Compute the broker subject for a change.
pub fn nats_subject(prefix: &str, change: &Change) -> (r: String)
    ensures
        r@ == subject_text(prefix@, change@),
{
    let mut s = String::from_str(prefix);
    match change {
        Change::Begin { .. } => {
            s.append(".transactions.begin.event");
        }
        Change::Commit { .. } => {
            s.append(".transactions.commit.event");
        }
        Change::Insert { schema, table, .. } => {
            s.append(".");
            s.append(schema.as_str());
            s.append(".");
            s.append(table.as_str());
            s.append(".insert");
        }
        Change::Update { schema, table, .. } => {
            s.append(".");
            s.append(schema.as_str());
            s.append(".");
            s.append(table.as_str());
            s.append(".update");
        }
        Change::Delete { schema, table, .. } => {
            s.append(".");
            s.append(schema.as_str());
            s.append(".");
            s.append(table.as_str());
            s.append(".delete");
        }
        Change::Relation { schema, table, .. } => {
            s.append(".");
            s.append(schema.as_str());
            s.append(".");
            s.append(table.as_str());
            s.append(".relation");
        }
    }
    proof {
        assert(s@ =~= subject_text(prefix@, change@));
    }
    s
}

/// The `schema_table` identifier a table-scoped change ingests under;
/// transaction markers carry no rows and route nowhere.
pub open spec fn table_ident(c: ChangeV) -> Option<Seq<char>> {
    match c {
        ChangeV::Insert { schema, table, .. } => Some(schema + "_"@ + table),
        ChangeV::Update { schema, table, .. } => Some(schema + "_"@ + table),
        ChangeV::Delete { schema, table, .. } => Some(schema + "_"@ + table),
        ChangeV::Relation { schema, table, .. } => Some(schema + "_"@ + table),
        _ => None,
    }
}

/// Where the HTTP-ingestion sink routes a change: its own
/// `schema_table` name when no allow-list is configured or the list holds
/// that name; `None` (dropped, not an error) otherwise, and always `None`
/// for transaction markers.
pub open spec fn ingest_destination(allowed: Option<Seq<Seq<char>>>, c: ChangeV) -> Option<
    Seq<char>,
> {
    match table_ident(c) {
        None => None,
        Some(name) => match allowed {
            None => Some(name),
            Some(list) => if list.contains(name) {
                Some(name)
            } else {
                None
            },
        },
    }
}

fn contains_str(list: &Vec<String>, name: &str) -> (r: bool)
    ensures
        r == list.deep_view().contains(name@),
{
    let n = list.len();
    let mut i: usize = 0;
    while i < n
        invariant
            i <= n,
            n == list.deep_view().len(),
            forall|j: int| 0 <= j < i ==> list.deep_view()[j] != name@,
        decreases n - i,
    {
        if str_eq(list[i].as_str(), name) {
            proof {
                assert(list.deep_view()[i as int] == name@);
            }
            return true;
        }
        i += 1;
    }
    proof {
        assert(forall|j: int| 0 <= j < list.deep_view().len() ==> list.deep_view()[j] != name@);
    }
    false
}

/// Compute the ingestion destination for a change under an optional
/// allow-list.
pub fn feldera_destination(allowed: &Option<Vec<String>>, change: &Change) -> (r: Option<String>)
    ensures
        r.deep_view() == ingest_destination(allowed.deep_view(), change@),
{
    let name: String = match change {
        Change::Insert { schema, table, .. } | Change::Update { schema, table, .. } | Change::Delete {
            schema,
            table,
            ..
        } | Change::Relation { schema, table, .. } => {
            let mut n = String::from_str(schema.as_str());
            n.append("_");
            n.append(table.as_str());
            n
        }
        _ => {
            return None;
        }
    };
    match allowed {
        None => Some(name),
        Some(list) => {
            if contains_str(list, name.as_str()) {
                Some(name)
            } else {
                None
            }
        }
    }
}

/// What one sink reported for one delivered change.
#[derive(Debug, Clone, PartialEq, Eq)]
pub enum DeliveryOutcome {
    Delivered,
    Failed(String),
}

/// Index of the first failed outcome, if any.
pub open spec fn spec_first_failure(outcomes: Seq<DeliveryOutcome>) -> Option<int>
    decreases outcomes.len(),
{
    if outcomes.len() == 0 {
        None
    } else if outcomes[0] is Failed {
        Some(0)
    } else {
        match spec_first_failure(outcomes.drop_first()) {
            None => None,
            Some(i) => Some(i + 1),
        }
    }
}

/// Reduce a fan-out's per-sink outcomes to one result. The dispatcher
/// invokes every sink and collects all outcomes; delivery as a whole
/// succeeds exactly when every sink delivered (trivially so with zero
/// sinks), and otherwise the first failure is reported.
pub fn first_failure(outcomes: &Vec<DeliveryOutcome>) -> (r: Option<usize>)
    ensures
        match r {
            Some(i) => spec_first_failure(outcomes@) == Some(i as int),
            None => spec_first_failure(outcomes@) is None,
        },
{
    proof {
        lemma_first_failure_characterization(outcomes@);
    }
    let n = outcomes.len();
    let mut i: usize = 0;
    while i < n
        invariant
            i <= n,
            n == outcomes@.len(),
            forall|j: int| 0 <= j < i ==> !(outcomes@[j] is Failed),
        decreases n - i,
    {
        let failed = match &outcomes[i] {
            DeliveryOutcome::Failed(_) => true,
            DeliveryOutcome::Delivered => false,
        };
        if failed {
            proof {
                lemma_first_failure_witness(outcomes@, i as int);
            }
            return Some(i);
        }
        i += 1;
    }
    proof {
        lemma_first_failure_none(outcomes@);
    }
    None
}

proof fn lemma_first_failure_witness(outcomes: Seq<DeliveryOutcome>, i: int)
    requires
        0 <= i < outcomes.len(),
        outcomes[i] is Failed,
        forall|j: int| 0 <= j < i ==> !(outcomes[j] is Failed),
    ensures
        spec_first_failure(outcomes) == Some(i),
    decreases outcomes.len(),
{
    if i > 0 {
        lemma_first_failure_witness(outcomes.drop_first(), i - 1);
    }
}

proof fn lemma_first_failure_none(outcomes: Seq<DeliveryOutcome>)
    requires
        forall|j: int| 0 <= j < outcomes.len() ==> !(outcomes[j] is Failed),
    ensures
        spec_first_failure(outcomes) is None,
    decreases outcomes.len(),
{
    if outcomes.len() > 0 {
        lemma_first_failure_none(outcomes.drop_first());
    }
}

/// Law: with zero sinks the reduction succeeds trivially, and whenever
/// any sink failed the reduction reports a failure — the first one — so
/// a failing sink among many is never swallowed.
pub proof fn lemma_first_failure_characterization(outcomes: Seq<DeliveryOutcome>)
    ensures
        outcomes.len() == 0 ==> spec_first_failure(outcomes) is None,
        (exists|i: int| 0 <= i < outcomes.len() && outcomes[i] is Failed) ==> spec_first_failure(
            outcomes,
        ) is Some,
        match spec_first_failure(outcomes) {
            Some(i) => 0 <= i < outcomes.len() && outcomes[i] is Failed && forall|j: int|
                0 <= j < i ==> !(outcomes[j] is Failed),
            None => forall|j: int| 0 <= j < outcomes.len() ==> !(outcomes[j] is Failed),
        },
    decreases outcomes.len(),
{
    if outcomes.len() > 0 {
        lemma_first_failure_characterization(outcomes.drop_first());
        assert(forall|j: int|
            1 <= j < outcomes.len() ==> outcomes[j] == outcomes.drop_first()[j - 1]);
        if exists|i: int| 0 <= i < outcomes.len() && outcomes[i] is Failed {
            let i = choose|i: int| 0 <= i < outcomes.len() && outcomes[i] is Failed;
            if !(outcomes[0] is Failed) {
                assert(outcomes.drop_first()[i - 1] is Failed);
            }
        }
    }
}

} // verus!
