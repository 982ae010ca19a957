//! Named schemas of the five model kinds, their DDL text and implicit row-id
//! schemas.
use vstd::prelude::*;
use crate::tuple::{TupleDef, TupleEntry, FieldView, field_views, tuple_ddl, tuple_known};
use crate::value_type::ValueType;
use crate::value::Value;
use crate::text::string_of;
use vstd::string::StringExecFns;

verus! {

/// A collection of tuples keyed by an automatic row id.
#[derive(Debug, PartialEq)]
pub struct Table {
    pub schema: TupleDef,
}

/// Tuples keyed by a timestamp.
#[derive(Debug, PartialEq)]
pub struct TimeSeries {
    pub schema: TupleDef,
}

/// Tuples keyed by a two-dimensional point.
#[derive(Debug, PartialEq)]
pub struct GeoHash {
    pub schema: TupleDef,
}

/// A directed graph with a schema for nodes and one for edges.
#[derive(Debug, PartialEq)]
pub struct Graph {
    pub node_schema: TupleDef,
    pub edge_schema: TupleDef,
}

/// A schemaless tree of values, arrays and nested documents.
#[derive(Debug, PartialEq)]
pub struct Document {}

/// A node of a document: a value, an array of nodes, or a nested document.
#[derive(Debug, PartialEq)]
pub enum DocumentValue {
    ConcreteValue(Value),
    Array(Vec<Box<DocumentValue>>),
    SubDocument(Box<DocumentValue>),
}

/// A model kind with its kind-specific schema.
#[derive(Debug, PartialEq)]
pub enum ModelType {
    Table(Table),
    Document(Document),
    GeoHash(GeoHash),
    Graph(Graph),
    TimeSeries(TimeSeries),
}

/// A model kind's schema as field views.
pub enum SchemaView {
    Table(Seq<FieldView>),
    Document,
    GeoHash(Seq<FieldView>),
    Graph(Seq<FieldView>, Seq<FieldView>),
    TimeSeries(Seq<FieldView>),
}

/// A named model.
#[derive(Debug, PartialEq)]
pub struct Model {
    pub name: String,
    pub schema: Box<ModelType>,
}

impl ModelType {
    pub open spec fn view(&self) -> SchemaView {
        match self {
            ModelType::Table(t) => SchemaView::Table(field_views(t.schema@)),
            ModelType::Document(_) => SchemaView::Document,
            ModelType::GeoHash(g) => SchemaView::GeoHash(field_views(g.schema@)),
            ModelType::Graph(g) => SchemaView::Graph(field_views(g.node_schema@), field_views(g.edge_schema@)),
            ModelType::TimeSeries(t) => SchemaView::TimeSeries(field_views(t.schema@)),
        }
    }

    /// Every schema of the model is free of `Unknown`.
    pub open spec fn known(&self) -> bool {
        match self {
            ModelType::Table(t) => tuple_known(t.schema@),
            ModelType::Document(_) => true,
            ModelType::GeoHash(g) => tuple_known(g.schema@),
            ModelType::Graph(g) => tuple_known(g.node_schema@) && tuple_known(g.edge_schema@),
            ModelType::TimeSeries(t) => tuple_known(t.schema@),
        }
    }
}

/// The DDL that creates a model named `name` with schema `v`.
pub open spec fn model_ddl(name: Seq<char>, v: SchemaView) -> Seq<char> {
    match v {
        SchemaView::Table(t) => "create table "@ + name + " "@ + tuple_ddl(t) + ";"@,
        SchemaView::Document => "create document "@ + name + ";"@,
        SchemaView::GeoHash(t) => "create geohash "@ + name + " "@ + tuple_ddl(t) + ";"@,
        SchemaView::Graph(n, e) => "create graph "@ + name + " "@ + tuple_ddl(n) + " "@ + tuple_ddl(e) + ";"@,
        SchemaView::TimeSeries(t) => "create timeseries "@ + name + " "@ + tuple_ddl(t) + ";"@,
    }
}

/// The implicit row-id schema of a kind, if it has one.
pub open spec fn rowid_spec(v: SchemaView) -> Option<Seq<FieldView>> {
    match v {
        SchemaView::Table(_) => Some(seq![("rowid"@, ValueType::Uint)]),
        SchemaView::TimeSeries(_) => Some(seq![("timestamp"@, ValueType::Float)]),
        SchemaView::GeoHash(_) => Some(seq![("point"@, ValueType::Vector(2, Box::new(ValueType::Float)))]),
        _ => None,
    }
}

fn single_field(name: &str, value: ValueType) -> (r: TupleDef)
    ensures
        field_views(r@) == seq![(name@, value)],
{
    let mut v: Vec<TupleEntry> = Vec::new();
    v.push(TupleEntry { name: string_of(name), value });
    let r = TupleDef(v);
    assert(field_views(r@) =~= seq![(name@, value)]);
    r
}

/// `create <kind> <name>` followed by each tuple after a space, then `;`.
fn kind_ddl(head: &str, name: &str, first: Option<&TupleDef>, second: Option<&TupleDef>) -> (r: String)
    requires
        first matches Some(t) ==> tuple_known(t@),
        second matches Some(t) ==> tuple_known(t@),
    ensures
        r@ == head@ + name@
            + (match first { Some(t) => " "@ + tuple_ddl(field_views(t@)), None => Seq::empty() })
            + (match second { Some(t) => " "@ + tuple_ddl(field_views(t@)), None => Seq::empty() })
            + ";"@,
{
    let mut s = string_of(head);
    s.append(name);
    let ghost s1 = s@;
    match first {
        Some(t) => {
            s.append(" ");
            let d = t.to_ddl();
            s.append(d.as_str());
        },
        None => {},
    }
    let ghost s2 = s@;
    match second {
        Some(t) => {
            s.append(" ");
            let d = t.to_ddl();
            s.append(d.as_str());
        },
        None => {},
    }
    s.append(";");
    s
}

impl Table {
    pub fn rowid_schema(&self) -> (r: Option<TupleDef>)
        ensures
            r matches Some(t) && field_views(t@) == seq![("rowid"@, ValueType::Uint)],
    {
        Some(single_field("rowid", ValueType::Uint))
    }
}

impl TimeSeries {
    pub fn rowid_schema(&self) -> (r: Option<TupleDef>)
        ensures
            r matches Some(t) && field_views(t@) == seq![("timestamp"@, ValueType::Float)],
    {
        Some(single_field("timestamp", ValueType::Float))
    }
}

impl GeoHash {
    pub fn rowid_schema(&self) -> (r: Option<TupleDef>)
        ensures
            r matches Some(t) && field_views(t@) == seq![("point"@, ValueType::Vector(2, Box::new(ValueType::Float)))],
    {
        Some(single_field("point", ValueType::Vector(2, Box::new(ValueType::Float))))
    }
}

impl ModelType {
    /// The implicit row-id schema: `(rowid uint)` for tables, `(timestamp
    /// float)` for time series, `(point vector(2) float)` for geohashes.
    pub fn rowid_schema(&self) -> (r: Option<TupleDef>)
        ensures
            match rowid_spec(self.view()) {
                Some(f) => r matches Some(t) && field_views(t@) == f,
                None => r is None,
            },
    {
        match self {
            ModelType::Table(t) => t.rowid_schema(),
            ModelType::TimeSeries(t) => t.rowid_schema(),
            ModelType::GeoHash(g) => g.rowid_schema(),
            _ => None,
        }
    }

    /// True when no schema of the model holds `Unknown`.
    pub fn is_known(&self) -> (r: bool)
        ensures
            r == self.known(),
    {
        match self {
            ModelType::Table(t) => t.schema.is_known(),
            ModelType::Document(_) => true,
            ModelType::GeoHash(g) => g.schema.is_known(),
            ModelType::Graph(g) => g.node_schema.is_known() && g.edge_schema.is_known(),
            ModelType::TimeSeries(t) => t.schema.is_known(),
        }
    }

    /// The DDL that creates this model under `name`.
    pub fn to_ddl(&self, name: &str) -> (r: String)
        requires
            self.known(),
        ensures
            r@ == model_ddl(name@, self.view()),
    {
        proof {
            reveal_strlit("create ");
            reveal_strlit(" ");
            reveal_strlit(";");
            reveal_strlit("table");
            reveal_strlit("document");
            reveal_strlit("geohash");
            reveal_strlit("graph");
            reveal_strlit("timeseries");
            reveal_strlit("create table ");
            reveal_strlit("create document ");
            reveal_strlit("create geohash ");
            reveal_strlit("create graph ");
            reveal_strlit("create timeseries ");
        }
        match self {
            ModelType::Table(t) => {
                let r = kind_ddl("create table ", name, Some(&t.schema), None);
                assert(r@ =~= model_ddl(name@, self.view()));
                r
            },
            ModelType::Document(_) => {
                let r = kind_ddl("create document ", name, None, None);
                assert(r@ =~= model_ddl(name@, self.view()));
                r
            },
            ModelType::GeoHash(g) => {
                let r = kind_ddl("create geohash ", name, Some(&g.schema), None);
                assert(r@ =~= model_ddl(name@, self.view()));
                r
            },
            ModelType::Graph(g) => {
                let r = kind_ddl("create graph ", name, Some(&g.node_schema), Some(&g.edge_schema));
                assert(r@ =~= model_ddl(name@, self.view()));
                r
            },
            ModelType::TimeSeries(t) => {
                let r = kind_ddl("create timeseries ", name, Some(&t.schema), None);
                assert(r@ =~= model_ddl(name@, self.view()));
                r
            },
        }
    }
}

impl Model {
    pub fn new(name: String, schema: Box<ModelType>) -> (r: Model)
        ensures
            r.name == name,
            r.schema == schema,
    {
        Model { name, schema }
    }

    /// The DDL that creates this model.
    pub fn to_ddl(&self) -> (r: String)
        requires
            self.schema.known(),
        ensures
            r@ == model_ddl(self.name@, self.schema.view()),
    {
        self.schema.to_ddl(self.name.as_str())
    }
}

} // verus!
