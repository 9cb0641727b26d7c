//! The logical-plan model the planner works on.
//!
//! A plan is a tree with one table-scan leaf per linear branch. Interior
//! nodes carry their expression list and their output schema, both computed
//! by the host's SQL front; the fabric never interprets expressions, it only
//! rebuilds nodes around rewritten inputs. Leaves carry a table source:
//! a still-unresolved name, a splittable catalog, one per-file scan table,
//! or the combiner-side intermediate result table.

use vstd::prelude::*;

use crate::models::{SizedFile, SizedFileV};
use crate::schema::{Schema, SchemaV};

verus! {

/// One opaque expression of an interior plan node, kept as the SQL front
/// rendered it. The fabric carries expressions through rebuilds unchanged.
pub struct Expr {
    pub repr: String,
}

impl View for Expr {
    type V = Seq<char>;

    open spec fn view(&self) -> Seq<char> {
        self.repr@
    }
}

impl Clone for Expr {
    fn clone(&self) -> (r: Self)
        ensures
            r@ == self@,
    {
        Expr { repr: self.repr.clone() }
    }
}

/// One file group a single scanner works on: the files, their schema, and
/// whether the scanner's range cache has been bound to the leaf yet.
pub struct ScanTable {
    pub files: Vec<SizedFile>,
    pub schema: Schema,
    pub cache_bound: bool,
}

/// Mathematical image of a `ScanTable`.
pub struct ScanTableV {
    pub files: Seq<SizedFileV>,
    pub schema: SchemaV,
    pub cache_bound: bool,
}

impl View for ScanTable {
    type V = ScanTableV;

    open spec fn view(&self) -> ScanTableV {
        ScanTableV {
            files: self.files@.map_values(|f: SizedFile| f@),
            schema: self.schema@,
            cache_bound: self.cache_bound,
        }
    }
}

impl Clone for ScanTable {
    fn clone(&self) -> (r: Self)
        ensures
            r@ == self@,
    {
        let mut files: Vec<SizedFile> = Vec::new();
        let mut i: usize = 0;
        while i < self.files.len()
            invariant
                0 <= i <= self.files.len(),
                files@.len() == i,
                forall|j: int| 0 <= j < i ==> files@[j]@ == self@.files[j],
            decreases self.files.len() - i,
        {
            files.push(self.files[i].clone());
            i += 1;
        }
        let r = ScanTable { files, schema: self.schema.clone(), cache_bound: self.cache_bound };
        proof {
            assert(r@.files =~= self@.files);
        }
        r
    }
}

/// A splittable table: a catalog that enumerates the object store into one
/// `ScanTable` per file group. It appears only in planner-side plans and is
/// lowered by `split` before a plan leaves the planner.
pub struct CatalogTable {
    pub tables: Vec<ScanTable>,
    pub schema: Schema,
}

/// Mathematical image of a `CatalogTable`.
pub struct CatalogTableV {
    pub tables: Seq<ScanTableV>,
    pub schema: SchemaV,
}

impl View for CatalogTable {
    type V = CatalogTableV;

    open spec fn view(&self) -> CatalogTableV {
        CatalogTableV {
            tables: self.tables@.map_values(|t: ScanTable| t@),
            schema: self.schema@,
        }
    }
}

impl Clone for CatalogTable {
    fn clone(&self) -> (r: Self)
        ensures
            r@ == self@,
    {
        let r = CatalogTable { tables: self.split(), schema: self.schema.clone() };
        proof {
            assert(r@.tables =~= self@.tables);
        }
        r
    }
}

impl CatalogTable {
    /// Enumerates the catalog into its per-file scan tables.
    pub fn split(&self) -> (r: Vec<ScanTable>)
        ensures
            r@.map_values(|t: ScanTable| t@) == self@.tables,
    {
        let mut tables: Vec<ScanTable> = Vec::new();
        let mut i: usize = 0;
        while i < self.tables.len()
            invariant
                0 <= i <= self.tables.len(),
                tables@.len() == i,
                forall|j: int| 0 <= j < i ==> tables@[j]@ == self@.tables[j],
            decreases self.tables.len() - i,
        {
            tables.push(self.tables[i].clone());
            i += 1;
        }
        proof {
            assert(tables@.map_values(|t: ScanTable| t@) =~= self@.tables);
        }
        tables
    }
}

/// The combiner-side virtual table: the rendezvous of one query's partial
/// results. Its scan yields `nb_expected` partitions fed by that many
/// scanner uploads.
pub struct ResultTable {
    pub query_id: String,
    pub nb_expected: usize,
    pub schema: Schema,
}

/// Mathematical image of a `ResultTable`.
pub struct ResultTableV {
    pub query_id: Seq<char>,
    pub nb_expected: usize,
    pub schema: SchemaV,
}

impl View for ResultTable {
    type V = ResultTableV;

    open spec fn view(&self) -> ResultTableV {
        ResultTableV {
            query_id: self.query_id@,
            nb_expected: self.nb_expected,
            schema: self.schema@,
        }
    }
}

impl Clone for ResultTable {
    fn clone(&self) -> (r: Self)
        ensures
            r@ == self@,
    {
        ResultTable {
            query_id: self.query_id.clone(),
            nb_expected: self.nb_expected,
            schema: self.schema.clone(),
        }
    }
}

/// The table source of a plan leaf.
pub enum TableDesc {
    /// A table reference the SQL front left by name, to be resolved against
    /// the planner's registry.
    Named(String),
    /// A splittable catalog table.
    Catalog(CatalogTable),
    /// One scanner's file group.
    Scan(ScanTable),
    /// The combiner's intermediate result table.
    Intermediate(ResultTable),
}

/// Mathematical image of a `TableDesc`.
pub enum TableDescV {
    Named(Seq<char>),
    Catalog(CatalogTableV),
    Scan(ScanTableV),
    Intermediate(ResultTableV),
}

impl View for TableDesc {
    type V = TableDescV;

    open spec fn view(&self) -> TableDescV {
        match self {
            TableDesc::Named(n) => TableDescV::Named(n@),
            TableDesc::Catalog(c) => TableDescV::Catalog(c@),
            TableDesc::Scan(s) => TableDescV::Scan(s@),
            TableDesc::Intermediate(r) => TableDescV::Intermediate(r@),
        }
    }
}

impl Clone for TableDesc {
    fn clone(&self) -> (r: Self)
        ensures
            r@ == self@,
    {
        match self {
            TableDesc::Named(n) => TableDesc::Named(n.clone()),
            TableDesc::Catalog(c) => TableDesc::Catalog(c.clone()),
            TableDesc::Scan(s) => TableDesc::Scan(s.clone()),
            TableDesc::Intermediate(r) => TableDesc::Intermediate(r.clone()),
        }
    }
}

/// The schema a table source presents. A still-unresolved name presents the
/// empty schema until resolution replaces it.
pub open spec fn table_schema(t: TableDescV) -> SchemaV {
    match t {
        TableDescV::Named(_) => SchemaV { fields: Seq::empty(), metadata: Seq::empty() },
        TableDescV::Catalog(c) => c.schema,
        TableDescV::Scan(s) => s.schema,
        TableDescV::Intermediate(r) => r.schema,
    }
}

/// A logical plan: a leaf table scan, an interior node over one input, or an
/// interior node over two inputs. Nodes with two inputs can be written but
/// are rejected by the planner's `split`.
pub enum LogicalPlan {
    TableScan { source: TableDesc },
    Unary { exprs: Vec<Expr>, schema: Schema, input: Box<LogicalPlan> },
    Binary { left: Box<LogicalPlan>, right: Box<LogicalPlan> },
}

/// Mathematical image of a `LogicalPlan`.
pub enum PlanV {
    TableScan { source: TableDescV },
    Unary { exprs: Seq<Seq<char>>, schema: SchemaV, input: Box<PlanV> },
    Binary { left: Box<PlanV>, right: Box<PlanV> },
}

/// The image of a plan tree.
pub open spec fn plan_view(p: LogicalPlan) -> PlanV
    decreases p,
{
    match p {
        LogicalPlan::TableScan { source } => PlanV::TableScan { source: source@ },
        LogicalPlan::Unary { exprs, schema, input } => PlanV::Unary {
            exprs: exprs@.map_values(|e: Expr| e@),
            schema: schema@,
            input: Box::new(plan_view(*input)),
        },
        LogicalPlan::Binary { left, right } => PlanV::Binary {
            left: Box::new(plan_view(*left)),
            right: Box::new(plan_view(*right)),
        },
    }
}

impl View for LogicalPlan {
    type V = PlanV;

    open spec fn view(&self) -> PlanV {
        plan_view(*self)
    }
}

/// Whether the tree holds a node with more than one input.
pub open spec fn has_multi_input(p: PlanV) -> bool
    decreases p,
{
    match p {
        PlanV::TableScan { .. } => false,
        PlanV::Unary { input, .. } => has_multi_input(*input),
        PlanV::Binary { .. } => true,
    }
}

/// The table source at the leaf of a linear plan. On a plan with a
/// two-input node it follows the left branch; the planner never relies on
/// that case.
pub open spec fn leaf_source(p: PlanV) -> TableDescV
    decreases p,
{
    match p {
        PlanV::TableScan { source } => source,
        PlanV::Unary { input, .. } => leaf_source(*input),
        PlanV::Binary { left, .. } => leaf_source(*left),
    }
}

/// The plan with its leaf table source replaced, every interior node rebuilt
/// over the rewritten input with its expressions and schema kept.
pub open spec fn replace_leaf(p: PlanV, t: TableDescV) -> PlanV
    decreases p,
{
    match p {
        PlanV::TableScan { .. } => PlanV::TableScan { source: t },
        PlanV::Unary { exprs, schema, input } => PlanV::Unary {
            exprs,
            schema,
            input: Box::new(replace_leaf(*input, t)),
        },
        PlanV::Binary { .. } => p,
    }
}

/// The output schema of a plan: an interior node's recorded schema, or the
/// leaf table's schema.
pub open spec fn plan_schema(p: PlanV) -> SchemaV {
    match p {
        PlanV::TableScan { source } => table_schema(source),
        PlanV::Unary { schema, .. } => schema,
        PlanV::Binary { .. } => SchemaV { fields: Seq::empty(), metadata: Seq::empty() },
    }
}

/// What `split` yields on a linear plan: one plan per catalog file group
/// when the leaf is a catalog table, else the plan alone.
pub open spec fn split_plans(p: PlanV) -> Seq<PlanV> {
    match leaf_source(p) {
        TableDescV::Catalog(c) => Seq::new(
            c.tables.len(),
            |i: int| replace_leaf(p, TableDescV::Scan(c.tables[i])),
        ),
        _ => seq![p],
    }
}

/// Clones a plan tree.
pub fn clone_plan(p: &LogicalPlan) -> (r: LogicalPlan)
    ensures
        r@ == p@,
    decreases *p,
{
    match p {
        LogicalPlan::TableScan { source } => LogicalPlan::TableScan { source: source.clone() },
        LogicalPlan::Unary { exprs, schema, input } => {
            let mut es: Vec<Expr> = Vec::new();
            let mut i: usize = 0;
            while i < exprs.len()
                invariant
                    0 <= i <= exprs.len(),
                    es@.len() == i,
                    forall|j: int| 0 <= j < i ==> es@[j]@ == exprs@.map_values(|e: Expr| e@)[j],
                decreases exprs.len() - i,
            {
                es.push(exprs[i].clone());
                i += 1;
            }
            proof {
                assert(es@.map_values(|e: Expr| e@) =~= exprs@.map_values(|e: Expr| e@));
            }
            LogicalPlan::Unary {
                exprs: es,
                schema: schema.clone(),
                input: Box::new(clone_plan(input)),
            }
        },
        LogicalPlan::Binary { left, right } => LogicalPlan::Binary {
            left: Box::new(clone_plan(left)),
            right: Box::new(clone_plan(right)),
        },
    }
}

} // verus!
