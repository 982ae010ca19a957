use soupdb::config::Config;
use soupdb::db::Database;
use soupdb::model::{Document, GeoHash, Graph, Model, ModelType, Table, TimeSeries};
use soupdb::tuple::{TupleDef, TupleEntry};
use soupdb::value_type::ValueType;
use soupdb::value_type::ValueType::{AutoId, Bool, Int, Nullable, Str, Uint, Vector};
use soupdb::command::Command;
use soupdb::Error;

fn entry(name: &str, value: ValueType) -> TupleEntry {
    TupleEntry { name: name.to_string(), value }
}

fn int_and_vector() -> TupleDef {
    TupleDef(vec![
        entry("col_1", ValueType::Int),
        entry("col_2", Nullable(Box::new(Vector(3, Box::new(ValueType::Float))))),
    ])
}

#[test]
fn test_tuple_size() {
    assert_eq!(25, TupleDef(vec![
        entry("col_1", Bool),
        entry("col_2", Uint),
        entry("col_3", Vector(2, Box::new(Int))),
    ]).size_of());
}

#[test]
fn test_value_size() {
    assert_eq!(8, AutoId.size_of());
    assert_eq!(1, Bool.size_of());
    assert_eq!(8, Uint.size_of());
    assert_eq!(8, Int.size_of());
    assert_eq!(10, Str(0).size_of());
    assert_eq!(27, Str(27).size_of());
    assert_eq!(28, Nullable(Box::new(Str(27))).size_of());
    assert_eq!(112, Vector(4, Box::new(Nullable(Box::new(Str(27))))).size_of());
}

#[test]
fn long_strings_are_clamped_inline() {
    assert_eq!(8, ValueType::Float.size_of());
    assert_eq!(256, Str(300).size_of());
    assert_eq!(256, Str(256).size_of());
    assert_eq!(0, Vector(0, Box::new(Int)).size_of());
}

#[test]
fn test_ddl() {
    assert_eq!("bool", ValueType::Bool.to_ddl());
    assert_eq!("int", ValueType::Int.to_ddl());
    assert_eq!("unsigned int", ValueType::Uint.to_ddl());
    assert_eq!("float", ValueType::Float.to_ddl());
    assert_eq!("str", ValueType::Str(0).to_ddl());
    assert_eq!("str(12)", ValueType::Str(12).to_ddl());
    assert_eq!("nullable bool", (ValueType::Nullable(Box::new(ValueType::Bool))).to_ddl());
    assert_eq!("nullable int", (ValueType::Nullable(Box::new(ValueType::Int))).to_ddl());
    assert_eq!("nullable str(189)", (ValueType::Nullable(Box::new(ValueType::Str(189)))).to_ddl());
    assert_eq!("vector(3) nullable bool", (ValueType::Vector(3, Box::new(ValueType::Nullable(Box::new(ValueType::Bool))))).to_ddl());
}

#[test]
fn tuple_ddl_joins_fields() {
    assert_eq!("(col_1 int, col_2 nullable vector(3) float)", int_and_vector().to_ddl());
    assert_eq!("()", TupleDef(vec![]).to_ddl());
    assert_eq!("col_1 int", entry("col_1", Int).to_ddl());
    assert_eq!("col_1", int_and_vector().index(0).name);
}

#[test]
fn value_type_ddl_parses_back() {
    let types = vec![
        AutoId,
        Nullable(Box::new(AutoId)),
        Bool,
        Uint,
        Int,
        ValueType::Float,
        Str(0),
        Str(12),
        Nullable(Box::new(Str(189))),
        Vector(3, Box::new(Nullable(Box::new(Bool)))),
        Nullable(Box::new(Vector(2, Box::new(Uint)))),
    ];
    for t in types {
        let ddl = format!("create table t (c {});", t.to_ddl());
        let parsed = Model::from_ddl(&ddl).unwrap();
        match *parsed.schema {
            ModelType::Table(table) => assert_eq!(table.schema, TupleDef(vec![entry("c", t)])),
            other => panic!("unexpected schema {:?}", other),
        }
    }
}

#[test]
fn test_config() {
    let config = Config::new();
    assert!(config.data_dir.len() > 0);
}

#[test]
fn test_database() {
    let db = Database::new("test_db".to_string(), None);
    assert_eq!(db.config.data_dir, Config::new().data_dir);
    assert_eq!("/var/soupdb/test_db", db.data_dir);
}

#[test]
fn commands_are_not_implemented() {
    let command = Command::DropModel { name: "x".to_string() };
    assert_eq!(Err(Error::NotYetImplemented), Database::run_command(command));
}

#[test]
fn document_test_document_ddl() {
    let test_ddl = "create document test_doc;".to_string();
    assert_eq!(
        test_ddl,
        (Model { name: "test_doc".to_string(), schema: Box::new(ModelType::Document(Document {})) }).to_ddl()
    );
    let parsed_model = Model::from_ddl(&test_ddl).unwrap();
    assert_eq!(test_ddl, parsed_model.to_ddl());
}

#[test]
fn test_geohash_ddl() {
    let test_ddl = "create geohash test_geohash (col_1 int, col_2 nullable vector(3) float);".to_string();
    assert_eq!(
        test_ddl,
        (Model { name: "test_geohash".to_string(), schema: Box::new(ModelType::GeoHash(GeoHash { schema: int_and_vector() })) }).to_ddl()
    );
    let parsed_model = Model::from_ddl(&test_ddl).unwrap();
    assert_eq!(test_ddl, parsed_model.to_ddl());
}

#[test]
fn test_graph_ddl() {
    let test_ddl = "create graph test_graph (col_1 int, col_2 nullable vector(3) float) (edge_length float);".to_string();
    assert_eq!(
        test_ddl,
        (Model { name: "test_graph".to_string(), schema: Box::new(ModelType::Graph(Graph {
            node_schema: int_and_vector(),
            edge_schema: TupleDef(vec![entry("edge_length", ValueType::Float)]),
        })) }).to_ddl()
    );
    let parsed_model = Model::from_ddl(&test_ddl).unwrap();
    assert_eq!(test_ddl, parsed_model.to_ddl());
}

#[test]
fn table_test_table_ddl() {
    let test_ddl = "create table test_table (col_1 int, col_2 nullable vector(3) float);".to_string();
    assert_eq!(
        test_ddl,
        (Model { name: "test_table".to_string(), schema: Box::new(ModelType::Table(Table { schema: int_and_vector() })) }).to_ddl()
    );
    let parsed_model = Model::from_ddl(&test_ddl).unwrap();
    assert_eq!(test_ddl, parsed_model.to_ddl());
}

#[test]
fn test_timeseries_ddl() {
    let test_ddl = "create timeseries test_ts (col_1 int, col_2 nullable vector(3) float);".to_string();
    assert_eq!(
        test_ddl,
        (Model { name: "test_ts".to_string(), schema: Box::new(ModelType::TimeSeries(TimeSeries { schema: int_and_vector() })) }).to_ddl()
    );
    let parsed_model = Model::from_ddl(&test_ddl).unwrap();
    assert_eq!(test_ddl, parsed_model.to_ddl());
}

#[test]
fn rowid_schemas_by_kind() {
    let table = ModelType::Table(Table { schema: int_and_vector() });
    assert_eq!(Some(TupleDef(vec![entry("rowid", Uint)])), table.rowid_schema());
    let ts = ModelType::TimeSeries(TimeSeries { schema: int_and_vector() });
    assert_eq!(Some(TupleDef(vec![entry("timestamp", ValueType::Float)])), ts.rowid_schema());
    let geo = ModelType::GeoHash(GeoHash { schema: int_and_vector() });
    assert_eq!(Some(TupleDef(vec![entry("point", Vector(2, Box::new(ValueType::Float)))])), geo.rowid_schema());
    assert_eq!(None, ModelType::Document(Document {}).rowid_schema());
    let graph = ModelType::Graph(Graph { node_schema: int_and_vector(), edge_schema: int_and_vector() });
    assert_eq!(None, graph.rowid_schema());
}

#[test]
fn from_ddl_rejects_non_models() {
    assert!(matches!(Model::from_ddl("create table t (a int)"), Err(Error::ParseError(_))));
    assert!(matches!(Model::from_ddl("select 1;"), Err(Error::ParseError(_))));
}
