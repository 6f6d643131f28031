//! Commit attribution: the operation a commit performed and who wrote it.
use crate::text::{ascii_upper_all, spec_to_uppercase, str_eq, to_uppercase};
use vstd::utf8::is_ascii_chars;
use vstd::prelude::*;

verus! {

/// The operation type performed in a commit.
#[derive(Debug)]
pub enum OperationType {
    Write,
    Merge,
    Delete,
    Update,
    Optimize,
    VacuumStart,
    VacuumEnd,
    CreateTable,
    ReplaceTable,
    Restore,
    Other(String),
}

/// The value of an [`OperationType`].
pub enum OpView {
    Write,
    Merge,
    Delete,
    Update,
    Optimize,
    VacuumStart,
    VacuumEnd,
    CreateTable,
    ReplaceTable,
    Restore,
    Other(Seq<char>),
}

impl View for OperationType {
    type V = OpView;

    open spec fn view(&self) -> OpView {
        match self {
            OperationType::Write => OpView::Write,
            OperationType::Merge => OpView::Merge,
            OperationType::Delete => OpView::Delete,
            OperationType::Update => OpView::Update,
            OperationType::Optimize => OpView::Optimize,
            OperationType::VacuumStart => OpView::VacuumStart,
            OperationType::VacuumEnd => OpView::VacuumEnd,
            OperationType::CreateTable => OpView::CreateTable,
            OperationType::ReplaceTable => OpView::ReplaceTable,
            OperationType::Restore => OpView::Restore,
            OperationType::Other(s) => OpView::Other(s@),
        }
    }
}

/// The operation that an upper-case operation name `u` denotes.
pub open spec fn op_of_upper(u: Seq<char>) -> OpView {
    if u == "WRITE"@ {
        OpView::Write
    } else if u == "MERGE"@ {
        OpView::Merge
    } else if u == "DELETE"@ {
        OpView::Delete
    } else if u == "UPDATE"@ {
        OpView::Update
    } else if u == "OPTIMIZE"@ {
        OpView::Optimize
    } else if u == "VACUUM START"@ {
        OpView::VacuumStart
    } else if u == "VACUUM END"@ {
        OpView::VacuumEnd
    } else if u == "CREATE TABLE"@ || u == "CREATE TABLE AS SELECT"@ {
        OpView::CreateTable
    } else if u == "REPLACE TABLE"@ {
        OpView::ReplaceTable
    } else if u == "RESTORE"@ {
        OpView::Restore
    } else {
        OpView::Other(u)
    }
}

/// The operation that the name `s` denotes, in any letter case.
pub open spec fn spec_parse_op(s: Seq<char>) -> OpView {
    op_of_upper(spec_to_uppercase(s))
}

/// The name of an operation.
pub open spec fn op_name(op: OpView) -> Seq<char> {
    match op {
        OpView::Write => "WRITE"@,
        OpView::Merge => "MERGE"@,
        OpView::Delete => "DELETE"@,
        OpView::Update => "UPDATE"@,
        OpView::Optimize => "OPTIMIZE"@,
        OpView::VacuumStart => "VACUUM START"@,
        OpView::VacuumEnd => "VACUUM END"@,
        OpView::CreateTable => "CREATE TABLE"@,
        OpView::ReplaceTable => "REPLACE TABLE"@,
        OpView::Restore => "RESTORE"@,
        OpView::Other(s) => s,
    }
}

proof fn lemma_op_names_distinct()
    ensures
        "WRITE"@ != "MERGE"@,
        "WRITE"@ != "DELETE"@,
        "WRITE"@ != "UPDATE"@,
        "WRITE"@ != "OPTIMIZE"@,
        "WRITE"@ != "VACUUM START"@,
        "WRITE"@ != "VACUUM END"@,
        "WRITE"@ != "CREATE TABLE"@,
        "WRITE"@ != "CREATE TABLE AS SELECT"@,
        "WRITE"@ != "REPLACE TABLE"@,
        "WRITE"@ != "RESTORE"@,
        "MERGE"@ != "DELETE"@,
        "MERGE"@ != "UPDATE"@,
        "MERGE"@ != "OPTIMIZE"@,
        "MERGE"@ != "VACUUM START"@,
        "MERGE"@ != "VACUUM END"@,
        "MERGE"@ != "CREATE TABLE"@,
        "MERGE"@ != "CREATE TABLE AS SELECT"@,
        "MERGE"@ != "REPLACE TABLE"@,
        "MERGE"@ != "RESTORE"@,
        "DELETE"@ != "UPDATE"@,
        "DELETE"@ != "OPTIMIZE"@,
        "DELETE"@ != "VACUUM START"@,
        "DELETE"@ != "VACUUM END"@,
        "DELETE"@ != "CREATE TABLE"@,
        "DELETE"@ != "CREATE TABLE AS SELECT"@,
        "DELETE"@ != "REPLACE TABLE"@,
        "DELETE"@ != "RESTORE"@,
        "UPDATE"@ != "OPTIMIZE"@,
        "UPDATE"@ != "VACUUM START"@,
        "UPDATE"@ != "VACUUM END"@,
        "UPDATE"@ != "CREATE TABLE"@,
        "UPDATE"@ != "CREATE TABLE AS SELECT"@,
        "UPDATE"@ != "REPLACE TABLE"@,
        "UPDATE"@ != "RESTORE"@,
        "OPTIMIZE"@ != "VACUUM START"@,
        "OPTIMIZE"@ != "VACUUM END"@,
        "OPTIMIZE"@ != "CREATE TABLE"@,
        "OPTIMIZE"@ != "CREATE TABLE AS SELECT"@,
        "OPTIMIZE"@ != "REPLACE TABLE"@,
        "OPTIMIZE"@ != "RESTORE"@,
        "VACUUM START"@ != "VACUUM END"@,
        "VACUUM START"@ != "CREATE TABLE"@,
        "VACUUM START"@ != "CREATE TABLE AS SELECT"@,
        "VACUUM START"@ != "REPLACE TABLE"@,
        "VACUUM START"@ != "RESTORE"@,
        "VACUUM END"@ != "CREATE TABLE"@,
        "VACUUM END"@ != "CREATE TABLE AS SELECT"@,
        "VACUUM END"@ != "REPLACE TABLE"@,
        "VACUUM END"@ != "RESTORE"@,
        "CREATE TABLE"@ != "CREATE TABLE AS SELECT"@,
        "CREATE TABLE"@ != "REPLACE TABLE"@,
        "CREATE TABLE"@ != "RESTORE"@,
        "CREATE TABLE AS SELECT"@ != "REPLACE TABLE"@,
        "CREATE TABLE AS SELECT"@ != "RESTORE"@,
        "REPLACE TABLE"@ != "RESTORE"@,
{
    reveal_strlit("WRITE");
    reveal_strlit("MERGE");
    reveal_strlit("DELETE");
    reveal_strlit("UPDATE");
    reveal_strlit("OPTIMIZE");
    reveal_strlit("VACUUM START");
    reveal_strlit("VACUUM END");
    reveal_strlit("CREATE TABLE");
    reveal_strlit("CREATE TABLE AS SELECT");
    reveal_strlit("REPLACE TABLE");
    reveal_strlit("RESTORE");
    assert("WRITE"@[0] != "MERGE"@[0]);
    assert("WRITE"@[0] != "DELETE"@[0]);
    assert("WRITE"@[0] != "UPDATE"@[0]);
    assert("WRITE"@[0] != "OPTIMIZE"@[0]);
    assert("WRITE"@[0] != "VACUUM START"@[0]);
    assert("WRITE"@[0] != "VACUUM END"@[0]);
    assert("WRITE"@[0] != "CREATE TABLE"@[0]);
    assert("WRITE"@[0] != "CREATE TABLE AS SELECT"@[0]);
    assert("WRITE"@[0] != "REPLACE TABLE"@[0]);
    assert("WRITE"@[1] != "RESTORE"@[1]);
    assert("MERGE"@[0] != "DELETE"@[0]);
    assert("MERGE"@[0] != "UPDATE"@[0]);
    assert("MERGE"@[0] != "OPTIMIZE"@[0]);
    assert("MERGE"@[0] != "VACUUM START"@[0]);
    assert("MERGE"@[0] != "VACUUM END"@[0]);
    assert("MERGE"@[0] != "CREATE TABLE"@[0]);
    assert("MERGE"@[0] != "CREATE TABLE AS SELECT"@[0]);
    assert("MERGE"@[0] != "REPLACE TABLE"@[0]);
    assert("MERGE"@[0] != "RESTORE"@[0]);
    assert("DELETE"@[0] != "UPDATE"@[0]);
    assert("DELETE"@[0] != "OPTIMIZE"@[0]);
    assert("DELETE"@[0] != "VACUUM START"@[0]);
    assert("DELETE"@[0] != "VACUUM END"@[0]);
    assert("DELETE"@[0] != "CREATE TABLE"@[0]);
    assert("DELETE"@[0] != "CREATE TABLE AS SELECT"@[0]);
    assert("DELETE"@[0] != "REPLACE TABLE"@[0]);
    assert("DELETE"@[0] != "RESTORE"@[0]);
    assert("UPDATE"@[0] != "OPTIMIZE"@[0]);
    assert("UPDATE"@[0] != "VACUUM START"@[0]);
    assert("UPDATE"@[0] != "VACUUM END"@[0]);
    assert("UPDATE"@[0] != "CREATE TABLE"@[0]);
    assert("UPDATE"@[0] != "CREATE TABLE AS SELECT"@[0]);
    assert("UPDATE"@[0] != "REPLACE TABLE"@[0]);
    assert("UPDATE"@[0] != "RESTORE"@[0]);
    assert("OPTIMIZE"@[0] != "VACUUM START"@[0]);
    assert("OPTIMIZE"@[0] != "VACUUM END"@[0]);
    assert("OPTIMIZE"@[0] != "CREATE TABLE"@[0]);
    assert("OPTIMIZE"@[0] != "CREATE TABLE AS SELECT"@[0]);
    assert("OPTIMIZE"@[0] != "REPLACE TABLE"@[0]);
    assert("OPTIMIZE"@[0] != "RESTORE"@[0]);
    assert("VACUUM START"@[7] != "VACUUM END"@[7]);
    assert("VACUUM START"@[0] != "CREATE TABLE"@[0]);
    assert("VACUUM START"@[0] != "CREATE TABLE AS SELECT"@[0]);
    assert("VACUUM START"@[0] != "REPLACE TABLE"@[0]);
    assert("VACUUM START"@[0] != "RESTORE"@[0]);
    assert("VACUUM END"@[0] != "CREATE TABLE"@[0]);
    assert("VACUUM END"@[0] != "CREATE TABLE AS SELECT"@[0]);
    assert("VACUUM END"@[0] != "REPLACE TABLE"@[0]);
    assert("VACUUM END"@[0] != "RESTORE"@[0]);
    assert("CREATE TABLE"@.len() != "CREATE TABLE AS SELECT"@.len());
    assert("CREATE TABLE"@[0] != "REPLACE TABLE"@[0]);
    assert("CREATE TABLE"@[0] != "RESTORE"@[0]);
    assert("CREATE TABLE AS SELECT"@[0] != "REPLACE TABLE"@[0]);
    assert("CREATE TABLE AS SELECT"@[0] != "RESTORE"@[0]);
    assert("REPLACE TABLE"@[2] != "RESTORE"@[2]);
}

/// Every operation other than `Other` is recognised again from its name.
pub proof fn lemma_op_name_roundtrip(op: OpView)
    requires
        !(op is Other),
    ensures
        op_of_upper(op_name(op)) == op,
{
    lemma_op_names_distinct();
}

/// The operation that ASCII text names, in any letter case.
pub open spec fn parse_ascii_op(s: Seq<char>) -> OpView {
    op_of_upper(ascii_upper_all(s))
}

/// An operation's name is upper-case ASCII text, so reading it back, in any
/// letter case, gives the operation: `from_str(op.as_str())` is `op`.
pub proof fn lemma_name_parses_back(op: OpView)
    requires
        !(op is Other),
    ensures
        is_ascii_chars(op_name(op)),
        parse_ascii_op(op_name(op)) == op,
{
    lemma_op_names_distinct();
    let n = op_name(op);
    match op {
        OpView::Write => { reveal_strlit("WRITE"); },
        OpView::Merge => { reveal_strlit("MERGE"); },
        OpView::Delete => { reveal_strlit("DELETE"); },
        OpView::Update => { reveal_strlit("UPDATE"); },
        OpView::Optimize => { reveal_strlit("OPTIMIZE"); },
        OpView::VacuumStart => { reveal_strlit("VACUUM START"); },
        OpView::VacuumEnd => { reveal_strlit("VACUUM END"); },
        OpView::CreateTable => { reveal_strlit("CREATE TABLE"); },
        OpView::ReplaceTable => { reveal_strlit("REPLACE TABLE"); },
        OpView::Restore => { reveal_strlit("RESTORE"); },
        OpView::Other(_) => {},
    }
    assert(ascii_upper_all(n) =~= n);
}

/// Parsing an operation name and naming the result gives the upper-cased
/// name back, except for `CREATE TABLE AS SELECT`, which is recognised as
/// `CREATE TABLE`.
pub proof fn lemma_parse_then_name(s: Seq<char>)
    requires
        spec_to_uppercase(s) != "CREATE TABLE AS SELECT"@,
    ensures
        op_name(spec_parse_op(s)) == spec_to_uppercase(s),
{
    lemma_op_names_distinct();
}

/// Parsing ASCII text as an operation name and naming the result gives the
/// text upper-cased, except for `CREATE TABLE AS SELECT` in any letter case,
/// which is recognised as `CREATE TABLE`.
pub proof fn lemma_ascii_parse_then_name(s: Seq<char>)
    requires
        ascii_upper_all(s) != "CREATE TABLE AS SELECT"@,
    ensures
        op_name(parse_ascii_op(s)) == ascii_upper_all(s),
{
    lemma_op_names_distinct();
}

impl OperationType {
    /// The operation named `s`, in any letter case; unknown names are kept,
    /// upper-cased, as `Other`.
    pub fn from_str(s: &str) -> (op: OperationType)
        ensures
            op@ == spec_parse_op(s@),
            is_ascii_chars(s@) ==> op@ == parse_ascii_op(s@),
    {
        let u = to_uppercase(s);
        let us = u.as_str();
        if str_eq(us, "WRITE") {
            OperationType::Write
        } else if str_eq(us, "MERGE") {
            OperationType::Merge
        } else if str_eq(us, "DELETE") {
            OperationType::Delete
        } else if str_eq(us, "UPDATE") {
            OperationType::Update
        } else if str_eq(us, "OPTIMIZE") {
            OperationType::Optimize
        } else if str_eq(us, "VACUUM START") {
            OperationType::VacuumStart
        } else if str_eq(us, "VACUUM END") {
            OperationType::VacuumEnd
        } else if str_eq(us, "CREATE TABLE") || str_eq(us, "CREATE TABLE AS SELECT") {
            OperationType::CreateTable
        } else if str_eq(us, "REPLACE TABLE") {
            OperationType::ReplaceTable
        } else if str_eq(us, "RESTORE") {
            OperationType::Restore
        } else {
            OperationType::Other(u)
        }
    }

    /// A copy of the operation.
    pub fn duplicate(&self) -> (op: OperationType)
        ensures
            op@ == self@,
    {
        match self {
            OperationType::Write => OperationType::Write,
            OperationType::Merge => OperationType::Merge,
            OperationType::Delete => OperationType::Delete,
            OperationType::Update => OperationType::Update,
            OperationType::Optimize => OperationType::Optimize,
            OperationType::VacuumStart => OperationType::VacuumStart,
            OperationType::VacuumEnd => OperationType::VacuumEnd,
            OperationType::CreateTable => OperationType::CreateTable,
            OperationType::ReplaceTable => OperationType::ReplaceTable,
            OperationType::Restore => OperationType::Restore,
            OperationType::Other(s) => OperationType::Other(s.clone()),
        }
    }

    /// The name of the operation.
    pub fn as_str(&self) -> (s: &str)
        ensures
            s@ == op_name(self@),
    {
        match self {
            OperationType::Write => "WRITE",
            OperationType::Merge => "MERGE",
            OperationType::Delete => "DELETE",
            OperationType::Update => "UPDATE",
            OperationType::Optimize => "OPTIMIZE",
            OperationType::VacuumStart => "VACUUM START",
            OperationType::VacuumEnd => "VACUUM END",
            OperationType::CreateTable => "CREATE TABLE",
            OperationType::ReplaceTable => "REPLACE TABLE",
            OperationType::Restore => "RESTORE",
            OperationType::Other(s) => s.as_str(),
        }
    }
}

/// A single lineage entry: one commit's attribution and impact.
#[derive(Debug)]
pub struct LineageEntry {
    pub version: u64,
    pub timestamp: i64,
    pub operation: OperationType,
    pub operation_raw: String,
    /// Human-readable writer attribution: engine/job/notebook.
    pub writer: String,
    pub num_files_added: i64,
    pub num_files_removed: i64,
    pub bytes_added: i64,
    pub bytes_removed: i64,
    pub num_output_rows: Option<i64>,
    pub predicate: Option<String>,
    pub user_name: Option<String>,
    pub cluster_id: Option<String>,
    pub engine_info: Option<String>,
}

} // verus!
