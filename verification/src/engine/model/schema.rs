//! Table schemas, schema snapshots and schema changes.
use vstd::prelude::*;

verus! {

/// The primitive column types of a Delta schema.
#[derive(Debug, Clone, Copy, PartialEq, Eq)]
pub enum DataType {
    String,
    Long,
    Integer,
    Short,
    Byte,
    Float,
    Double,
    Boolean,
    Binary,
    Date,
    Timestamp,
    Other,
}

/// A single column in a Delta schema.
#[derive(Debug)]
pub struct StructField {
    pub name: String,
    /// The column's type as compact JSON text: a quoted primitive name such as
    /// `"integer"`, or a nested type object.
    pub data_type: String,
    pub nullable: bool,
    /// The column's metadata as compact JSON text.
    pub metadata: String,
}

/// The top-level schema struct.
#[derive(Debug)]
pub struct StructType {
    /// Always `"struct"`.
    pub kind: String,
    pub fields: Vec<StructField>,
}

/// The names of the fields, in order.
pub open spec fn field_names(fields: Seq<StructField>) -> Seq<Seq<char>> {
    fields.map_values(|f: StructField| f.name@)
}

/// Number of nullable fields among `fields`.
pub open spec fn count_nullable(fields: Seq<StructField>) -> nat
    decreases fields.len(),
{
    if fields.len() == 0 {
        0
    } else {
        count_nullable(fields.drop_last()) + if fields.last().nullable {
            1nat
        } else {
            0nat
        }
    }
}

impl StructType {
    /// The column names, in order.
    pub fn column_names(&self) -> (names: Vec<&str>)
        ensures
            names@.map_values(|s: &str| s@) == field_names(self.fields@),
    {
        let mut names: Vec<&str> = Vec::new();
        let mut i: usize = 0;
        while i < self.fields.len()
            invariant
                i <= self.fields@.len(),
                names@.map_values(|s: &str| s@) == field_names(self.fields@.take(i as int)),
            decreases self.fields@.len() - i,
        {
            names.push(self.fields[i].name.as_str());
            assert(field_names(self.fields@.take(i + 1)) =~= field_names(self.fields@.take(i as int)).push(self.fields@[i as int].name@));
            assert(names@.map_values(|s: &str| s@) =~= field_names(self.fields@.take(i + 1)));
            i += 1;
        }
        assert(self.fields@.take(i as int) =~= self.fields@);
        names
    }

    /// Number of nullable columns.
    pub fn nullable_count(&self) -> (n: usize)
        ensures
            n == count_nullable(self.fields@),
    {
        let mut n: usize = 0;
        let mut i: usize = 0;
        while i < self.fields.len()
            invariant
                i <= self.fields@.len(),
                n == count_nullable(self.fields@.take(i as int)),
                n <= i,
            decreases self.fields@.len() - i,
        {
            assert(self.fields@.take(i + 1).drop_last() =~= self.fields@.take(i as int));
            if self.fields[i].nullable {
                n += 1;
            }
            i += 1;
        }
        assert(self.fields@.take(i as int) =~= self.fields@);
        n
    }
}

/// The content of a field: name, type, nullability, metadata.
pub open spec fn field_view(f: StructField) -> (Seq<char>, Seq<char>, bool, Seq<char>) {
    (f.name@, f.data_type@, f.nullable, f.metadata@)
}

/// The content of a schema: its kind and its fields.
pub open spec fn schema_view(s: StructType) -> (Seq<char>, Seq<(Seq<char>, Seq<char>, bool, Seq<char>)>) {
    (s.kind@, s.fields@.map_values(|f: StructField| field_view(f)))
}

impl StructType {
    /// A copy of the schema.
    pub fn duplicate(&self) -> (c: StructType)
        ensures
            schema_view(c) == schema_view(*self),
            field_names(c.fields@) == field_names(self.fields@),
    {
        let mut fields: Vec<StructField> = Vec::new();
        let mut i: usize = 0;
        while i < self.fields.len()
            invariant
                i <= self.fields@.len(),
                fields@.map_values(|f: StructField| field_view(f)) == self.fields@.take(i as int).map_values(
                    |f: StructField| field_view(f),
                ),
            decreases self.fields@.len() - i,
        {
            let f = &self.fields[i];
            let ghost before = fields@.map_values(|f: StructField| field_view(f));
            fields.push(
                StructField {
                    name: f.name.clone(),
                    data_type: f.data_type.clone(),
                    nullable: f.nullable,
                    metadata: f.metadata.clone(),
                },
            );
            assert(fields@.map_values(|f: StructField| field_view(f)) =~= before.push(field_view(*f)));
            assert(self.fields@.take(i + 1).map_values(|f: StructField| field_view(f)) =~= self.fields@.take(
                i as int,
            ).map_values(|f: StructField| field_view(f)).push(field_view(*f)));
            i += 1;
        }
        assert(self.fields@.take(i as int) =~= self.fields@);
        let c = StructType { kind: self.kind.clone(), fields };
        assert(field_names(c.fields@) =~= field_names(self.fields@)) by {
            assert forall|k: int| 0 <= k < c.fields@.len() implies c.fields@[k].name@ == self.fields@[k].name@ by {
                assert(c.fields@.map_values(|f: StructField| field_view(f))[k] == self.fields@.map_values(
                    |f: StructField| field_view(f),
                )[k]);
            }
        }
        c
    }
}

/// A point-in-time schema snapshot tied to a table version.
#[derive(Debug)]
pub struct SchemaSnapshot {
    pub version: u64,
    pub timestamp: Option<i64>,
    pub schema: StructType,
}

/// A schema change event between two consecutive versions.
#[derive(Debug)]
pub struct SchemaChange {
    pub version: u64,
    pub timestamp: Option<i64>,
    pub added_columns: Vec<String>,
    pub removed_columns: Vec<String>,
    /// (name, old type, new type)
    pub modified_columns: Vec<(String, String, String)>,
}

} // verus!
