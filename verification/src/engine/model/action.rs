//! The actions recorded in a Delta commit file. Every line of a commit file
//! holds one action. Map-valued fields are kept as lists of key/value pairs in
//! the order the commit file lists them; JSON values that the analyses read are
//! kept as [`ParamValue`]s.
use crate::engine::model::schema::StructType;
use vstd::prelude::*;

verus! {

/// A JSON value of an operation parameter or metric, as far as the analyses
/// read it.
#[derive(Debug)]
pub enum ParamValue {
    /// A JSON string, with its content.
    Text(String),
    /// A JSON number, with its literal text.
    Number(String),
    /// A JSON array; `Some` for each element that is a string.
    List(Vec<Option<String>>),
    /// Any other JSON value (null, boolean, object), as JSON text.
    Other(String),
}

/// Every line in a Delta commit JSON file is one of these.
#[derive(Debug)]
pub enum Action {
    Add(AddAction),
    Remove(RemoveAction),
    MetaData(MetaDataAction),
    Protocol(ProtocolAction),
    CommitInfo(CommitInfoAction),
    Cdc(CdcAction),
}

/// A file being added to the table.
#[derive(Debug)]
pub struct AddAction {
    pub path: String,
    pub size: i64,
    pub modification_time: i64,
    pub data_change: bool,
    pub partition_values: Vec<(String, Option<String>)>,
    /// JSON string with row counts and min/max per column.
    pub stats: Option<String>,
    pub tags: Option<Vec<(String, String)>>,
}

/// A file being logically deleted (soft delete).
#[derive(Debug)]
pub struct RemoveAction {
    pub path: String,
    pub deletion_timestamp: Option<i64>,
    pub data_change: bool,
    pub size: Option<i64>,
    pub partition_values: Option<Vec<(String, Option<String>)>>,
}

/// Table-level metadata: schema, partitioning, configuration.
#[derive(Debug)]
pub struct MetaDataAction {
    pub id: String,
    pub name: Option<String>,
    pub description: Option<String>,
    pub format: Format,
    /// JSON schema string.
    pub schema_string: String,
    /// The schema that `schema_string` holds, when it is a valid schema.
    pub schema: Option<StructType>,
    pub partition_columns: Vec<String>,
    pub configuration: Vec<(String, String)>,
    pub created_time: Option<i64>,
}

/// Protocol version requirements.
#[derive(Debug)]
pub struct ProtocolAction {
    pub min_reader_version: i32,
    pub min_writer_version: i32,
    pub reader_features: Option<Vec<String>>,
    pub writer_features: Option<Vec<String>>,
}

/// Per-commit metadata: operation, parameters, notebook/job info.
/// This is the primary source for lineage attribution.
#[derive(Debug)]
pub struct CommitInfoAction {
    pub timestamp: i64,
    pub operation: String,
    pub operation_parameters: Vec<(String, ParamValue)>,
    pub notebook_info: Option<NotebookInfo>,
    pub cluster_id: Option<String>,
    pub user_id: Option<String>,
    pub user_name: Option<String>,
    pub operation_metrics: Option<Vec<(String, ParamValue)>>,
    pub engine_info: Option<String>,
    pub is_blind_append: Option<bool>,
    pub txn_id: Option<String>,
}

/// The notebook that made a commit.
#[derive(Debug)]
pub struct NotebookInfo {
    pub notebook_id: String,
}

/// A change-data file written by a commit.
#[derive(Debug)]
pub struct CdcAction {
    pub path: String,
    pub size: i64,
    pub partition_values: Vec<(String, Option<String>)>,
    pub data_change: bool,
}

/// The data file format of a table.
#[derive(Debug)]
pub struct Format {
    pub provider: String,
}

/// The value of the first pair whose key is `key`, as a `HashMap` lookup finds
/// it when the keys are distinct.
pub open spec fn lookup<V>(pairs: Seq<(String, V)>, key: Seq<char>) -> Option<V>
    decreases pairs.len(),
{
    if pairs.len() == 0 {
        None
    } else if pairs[0].0@ == key {
        Some(pairs[0].1)
    } else {
        lookup(pairs.drop_first(), key)
    }
}

/// Looks a key up in a list of pairs.
pub fn find_param<'a>(pairs: &'a Vec<(String, ParamValue)>, key: &str) -> (r: Option<&'a ParamValue>)
    ensures
        match r {
            Some(v) => lookup(pairs@, key@) == Some(*v),
            None => lookup(pairs@, key@) is None,
        },
{
    let kc = crate::text::chars_of(key);
    let mut i: usize = 0;
    assert(pairs@.skip(0) =~= pairs@);
    while i < pairs.len()
        invariant
            i <= pairs@.len(),
            kc@ == key@,
            lookup(pairs@, key@) == lookup(pairs@.skip(i as int), key@),
        decreases pairs@.len() - i,
    {
        let pc = crate::text::chars_of(pairs[i].0.as_str());
        assert(pairs@.skip(i as int)[0] == pairs@[i as int]);
        if crate::text::seq_eq(&pc, &kc) {
            return Some(&pairs[i].1);
        }
        assert(pairs@.skip(i as int).drop_first() =~= pairs@.skip(i + 1));
        i += 1;
    }
    None
}

} // verus!
