//! Columnar schema model: field lists with names, data types and
//! nullability. Schema-level metadata is carried but never takes part in
//! schema comparison.

use vstd::prelude::*;

verus! {

/// The data type of one column.
#[derive(Clone, Copy, PartialEq, Eq, Structural, Debug)]
pub enum DataType {
    Boolean,
    Int32,
    Int64,
    Float64,
    Utf8,
    Binary,
}

/// One named, typed column of a schema.
pub struct Field {
    pub name: String,
    pub data_type: DataType,
    pub nullable: bool,
}

/// Mathematical image of a `Field`.
pub struct FieldV {
    pub name: Seq<char>,
    pub data_type: DataType,
    pub nullable: bool,
}

impl View for Field {
    type V = FieldV;

    open spec fn view(&self) -> FieldV {
        FieldV { name: self.name@, data_type: self.data_type, nullable: self.nullable }
    }
}

impl Clone for Field {
    fn clone(&self) -> (r: Self)
        ensures
            r@ == self@,
    {
        Field { name: self.name.clone(), data_type: self.data_type, nullable: self.nullable }
    }
}

/// A record schema: an ordered field list plus free-form metadata pairs.
pub struct Schema {
    pub fields: Vec<Field>,
    pub metadata: Vec<(String, String)>,
}

/// Mathematical image of a `Schema`.
pub struct SchemaV {
    pub fields: Seq<FieldV>,
    pub metadata: Seq<(Seq<char>, Seq<char>)>,
}

impl View for Schema {
    type V = SchemaV;

    open spec fn view(&self) -> SchemaV {
        SchemaV {
            fields: self.fields@.map_values(|f: Field| f@),
            metadata: self.metadata@.map_values(|p: (String, String)| (p.0@, p.1@)),
        }
    }
}

/// Two schemas agree on their field lists: same length, and fields equal
/// pairwise on name, data type and nullability. Metadata is ignored.
pub open spec fn spec_fields_equal(a: SchemaV, b: SchemaV) -> bool {
    a.fields == b.fields
}

impl Schema {
    /// A schema with no fields and no metadata.
    pub fn empty() -> (r: Schema)
        ensures
            r@.fields == Seq::<FieldV>::empty(),
            r@.metadata == Seq::<(Seq<char>, Seq<char>)>::empty(),
    {
        let r = Schema { fields: Vec::new(), metadata: Vec::new() };
        proof {
            assert(r@.fields =~= Seq::<FieldV>::empty());
            assert(r@.metadata =~= Seq::<(Seq<char>, Seq<char>)>::empty());
        }
        r
    }

    /// Compares two schemas on their field lists alone; metadata on either
    /// side never affects the outcome.
    pub fn fields_equal(&self, other: &Schema) -> (r: bool)
        ensures
            r == spec_fields_equal(self@, other@),
    {
        if self.fields.len() != other.fields.len() {
            proof {
                assert(self@.fields.len() != other@.fields.len());
            }
            return false;
        }
        let n = self.fields.len();
        let mut i: usize = 0;
        while i < n
            invariant
                n == self.fields.len(),
                n == other.fields.len(),
                0 <= i <= n,
                forall|j: int| 0 <= j < i ==> self@.fields[j] == other@.fields[j],
            decreases n - i,
        {
            let a = &self.fields[i];
            let b = &other.fields[i];
            if !(a.name == b.name) || !(a.data_type == b.data_type) || a.nullable != b.nullable {
                proof {
                    assert(self@.fields[i as int] != other@.fields[i as int]);
                }
                return false;
            }
            proof {
                assert(self@.fields[i as int] == other@.fields[i as int]);
            }
            i += 1;
        }
        proof {
            assert(self@.fields =~= other@.fields);
        }
        true
    }
}

impl Clone for Schema {
    fn clone(&self) -> (r: Self)
        ensures
            r@ == self@,
    {
        let mut fields: Vec<Field> = Vec::new();
        let mut i: usize = 0;
        while i < self.fields.len()
            invariant
                0 <= i <= self.fields.len(),
                fields@.len() == i,
                forall|j: int| 0 <= j < i ==> fields@[j]@ == self@.fields[j],
            decreases self.fields.len() - i,
        {
            fields.push(self.fields[i].clone());
            i += 1;
        }
        let mut metadata: Vec<(String, String)> = Vec::new();
        let mut j: usize = 0;
        while j < self.metadata.len()
            invariant
                0 <= j <= self.metadata.len(),
                metadata@.len() == j,
                forall|t: int|
                    0 <= t < j ==> (metadata@[t].0@, metadata@[t].1@) == self@.metadata[t],
            decreases self.metadata.len() - j,
        {
            metadata.push((self.metadata[j].0.clone(), self.metadata[j].1.clone()));
            j += 1;
        }
        let r = Schema { fields, metadata };
        proof {
            assert(r@.fields =~= self@.fields);
            assert(r@.metadata =~= self@.metadata);
        }
        r
    }
}

} // verus!
