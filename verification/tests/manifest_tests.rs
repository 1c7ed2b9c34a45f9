use welds::{Backend, Column, ColumnDef, DataType, MergeError, Relation, Table, TableDef, TableIdent};

fn col(name: &str, ty: &str) -> ColumnDef {
    ColumnDef { name: name.to_string(), ty: ty.to_string(), null: false }
}

fn def(name: &str, cols: Vec<ColumnDef>) -> TableDef {
    TableDef {
        ident: TableIdent { schema: None, name: name.to_string() },
        ty: DataType::Table,
        columns: cols,
        belongs_to: vec![],
        has_many: vec![],
    }
}

fn names(t: &Table) -> Vec<String> {
    t.columns.iter().map(|c| c.db_name.clone()).collect()
}

#[test]
fn new_manifest_copies_the_introspected_definition() {
    let d = def("products", vec![col("id", "int"), col("name", "text")]);
    let t = Table::new(&d, Backend::MySql);
    assert_eq!(t.name, "products");
    assert_eq!(t.schema, None);
    assert_eq!(t.kind, "table");
    assert!(!t.manual_update);
    assert_eq!(t.model, None);
    assert_eq!(names(&t), vec!["id", "name"]);
    assert_eq!(t.databases, vec![Backend::MySql]);
}

#[test]
fn merge_appends_new_columns_in_introspection_order() {
    let d1 = def("products", vec![col("id", "int"), col("name", "text")]);
    let mut t = Table::new(&d1, Backend::MySql);
    let d2 = def(
        "products",
        vec![col("id", "int"), col("name", "text"), col("price", "int")],
    );
    t.update_from(&d2, Backend::MySql);
    assert_eq!(names(&t), vec!["id", "name", "price"]);
}

#[test]
fn merge_drops_columns_missing_from_introspection() {
    let d1 = def(
        "products",
        vec![col("id", "int"), col("name", "text"), col("legacy_col", "text")],
    );
    let mut t = Table::new(&d1, Backend::MySql);
    let d2 = def("products", vec![col("id", "int"), col("name", "text")]);
    t.update_from(&d2, Backend::MySql);
    assert_eq!(names(&t), vec!["id", "name"]);
}

#[test]
fn merge_refreshes_attributes_keeping_identity_and_position() {
    let d1 = def("t", vec![col("a", "int"), col("b", "int")]);
    let mut t = Table::new(&d1, Backend::MySql);
    let mut b2 = col("b", "bigint");
    b2.null = true;
    let d2 = def("t", vec![col("a", "int"), b2]);
    t.update_from(&d2, Backend::MySql);
    assert_eq!(names(&t), vec!["a", "b"]);
    assert_eq!(t.columns[1].ty, "bigint");
    assert!(t.columns[1].null);
}

#[test]
fn merging_twice_against_the_same_introspection_changes_nothing() {
    let d1 = def("products", vec![col("id", "int"), col("legacy_col", "text")]);
    let mut t = Table::new(&d1, Backend::MySql);
    let d2 = def(
        "products",
        vec![col("id", "bigint"), col("price", "int")],
    );
    t.update_from(&d2, Backend::Postgres);
    let after_first = t.clone();
    t.update_from(&d2, Backend::Postgres);
    assert_eq!(t, after_first);
}

#[test]
fn manual_update_makes_the_merge_a_no_op() {
    let d1 = def("products", vec![col("id", "int")]);
    let mut t = Table::new(&d1, Backend::MySql);
    t.manual_update = true;
    let before = t.clone();
    let d2 = def(
        "renamed",
        vec![col("totally", "text"), col("different", "text")],
    );
    t.update_from(&d2, Backend::Postgres);
    assert_eq!(t, before);
}

#[test]
fn backends_accumulate_without_duplicates() {
    let d = def("t", vec![col("id", "int")]);
    let mut t = Table::new(&d, Backend::MySql);
    t.update_from(&d, Backend::Postgres);
    assert_eq!(t.databases, vec![Backend::MySql, Backend::Postgres]);
    t.update_from(&d, Backend::Postgres);
    assert_eq!(t.databases, vec![Backend::MySql, Backend::Postgres]);
}

#[test]
fn relations_are_replaced_wholesale() {
    let mut d1 = def("products", vec![col("id", "int")]);
    d1.has_many.push(Relation {
        name: "orders".to_string(),
        foreign_table: "orders".to_string(),
        foreign_key: "product_id".to_string(),
    });
    let mut t = Table::new(&d1, Backend::MySql);
    assert_eq!(t.has_many.len(), 1);
    let mut d2 = def("products", vec![col("id", "int")]);
    d2.belongs_to.push(Relation {
        name: "vendor".to_string(),
        foreign_table: "vendors".to_string(),
        foreign_key: "vendor_id".to_string(),
    });
    t.update_from(&d2, Backend::MySql);
    assert!(t.has_many.is_empty());
    assert_eq!(t.belongs_to.len(), 1);
    assert_eq!(t.belongs_to[0].foreign_table, "vendors");
}

#[test]
fn view_definitions_are_marked_as_views() {
    let mut d = def("v_products", vec![col("id", "int")]);
    d.ty = DataType::View;
    let t = Table::new(&d, Backend::Sqlite);
    assert_eq!(t.kind, "view");
    assert_eq!(welds::type_str(DataType::Table), "table");
    assert_eq!(welds::type_str(DataType::View), "view");
}

#[test]
fn module_name_singularizes_and_snake_cases() {
    let d = def("products", vec![col("id", "int")]);
    let t = Table::new(&d, Backend::MySql);
    assert_eq!(t.module_name(), "product");
    assert_eq!(t.struct_name(), "Product");
}

#[test]
fn model_override_drives_generated_names() {
    let d = def("products", vec![col("id", "int")]);
    let mut t = Table::new(&d, Backend::MySql);
    t.model = Some("WidgetBox".to_string());
    assert_eq!(t.module_name(), "widget_box");
    assert_eq!(t.struct_name(), "WidgetBox");
}

#[test]
fn ident_reports_schema_and_name() {
    let mut d = def("products", vec![col("id", "int")]);
    d.ident.schema = Some("public".to_string());
    let t = Table::new(&d, Backend::Postgres);
    let ident = t.ident();
    assert_eq!(ident.name, "products");
    assert_eq!(ident.schema, Some("public".to_string()));
}

#[test]
fn column_update_from_keeps_its_name() {
    let mut c = Column { db_name: "a".to_string(), ty: "int".to_string(), null: false };
    let mut fresh = col("a", "bigint");
    fresh.null = true;
    c.update_from(&fresh);
    assert_eq!(c.db_name, "a");
    assert_eq!(c.ty, "bigint");
    assert!(c.null);

    let made = Column::new(&fresh);
    assert_eq!(made.db_name, "a");
    assert_eq!(made.ty, "bigint");
}

#[test]
fn merge_manifest_creates_when_no_previous_exists() {
    let d = def("products", vec![col("id", "int")]);
    let merged = welds::merge_manifest(None, &d, Backend::MySql).unwrap();
    assert_eq!(merged, Table::new(&d, Backend::MySql));
}

#[test]
fn merge_manifest_merges_matching_identities() {
    let d1 = def("products", vec![col("id", "int")]);
    let t = Table::new(&d1, Backend::MySql);
    let d2 = def("products", vec![col("id", "int"), col("price", "int")]);
    let merged = welds::merge_manifest(Some(t), &d2, Backend::MySql).unwrap();
    assert_eq!(names(&merged), vec!["id", "price"]);
}

#[test]
fn merge_manifest_rejects_an_identity_mismatch() {
    let d1 = def("products", vec![col("id", "int")]);
    let t = Table::new(&d1, Backend::MySql);
    let d2 = def("orders", vec![col("id", "int")]);
    let r = welds::merge_manifest(Some(t.clone()), &d2, Backend::MySql);
    assert_eq!(r, Err(MergeError::IdentityMismatch));

    let mut d3 = def("products", vec![col("id", "int")]);
    d3.ident.schema = Some("other".to_string());
    let r = welds::merge_manifest(Some(t), &d3, Backend::MySql);
    assert_eq!(r, Err(MergeError::IdentityMismatch));
}
