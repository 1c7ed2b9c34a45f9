use welds::{
    Backend, Basic, BasicOpt, Numeric, NumericOpt, QueryBuilder, RelationKind, Relationship, Value,
};

fn orders_rel() -> Relationship {
    Relationship::new(RelationKind::HasMany, "id", "product_id", "orders")
}

#[test]
fn products_has_many_orders_renders_exists() {
    let orders_q = QueryBuilder::new("orders").where_col(Numeric::new("id").gt(5));
    let products_q = QueryBuilder::new("products").where_relation(&orders_rel(), orders_q);
    let (sql, params) = welds::render(&products_q, &Backend::MySql);
    assert_eq!(
        sql,
        "SELECT * FROM products WHERE EXISTS (SELECT 1 FROM orders WHERE orders.product_id = products.id AND orders.id > ?)"
    );
    assert_eq!(params, vec![Value::Int(5)]);
}

#[test]
fn empty_inner_query_still_renders_valid_exists() {
    let q = QueryBuilder::new("products").where_relation(&orders_rel(), QueryBuilder::new("orders"));
    let (sql, params) = welds::render(&q, &Backend::Sqlite);
    assert_eq!(
        sql,
        "SELECT * FROM products WHERE EXISTS (SELECT 1 FROM orders WHERE orders.product_id = products.id)"
    );
    assert!(params.is_empty());
}

#[test]
fn where_col_and_joins_in_call_order() {
    let q = QueryBuilder::new("t")
        .where_col(Basic::new("a").equal(Value::Int(1)))
        .where_col(Basic::new("b").equal(Value::Int(2)))
        .where_col(Basic::new("c").equal(Value::Int(3)));
    let (sql, params) = welds::render(&q, &Backend::MySql);
    assert_eq!(sql, "SELECT * FROM t WHERE t.a = ? AND t.b = ? AND t.c = ?");
    assert_eq!(params, vec![Value::Int(1), Value::Int(2), Value::Int(3)]);
}

#[test]
fn removing_a_clause_removes_only_its_fragment() {
    let with = QueryBuilder::new("t")
        .where_col(Basic::new("a").equal(Value::Int(1)))
        .where_col(Basic::new("x").equal(Value::Int(9)))
        .where_col(Basic::new("b").equal(Value::Int(2)));
    let without = QueryBuilder::new("t")
        .where_col(Basic::new("a").equal(Value::Int(1)))
        .where_col(Basic::new("b").equal(Value::Int(2)));
    let (sql_with, _) = welds::render(&with, &Backend::Sqlite);
    let (sql_without, _) = welds::render(&without, &Backend::Sqlite);
    assert_eq!(sql_with, "SELECT * FROM t WHERE t.a = ? AND t.x = ? AND t.b = ?");
    assert_eq!(sql_without, sql_with.replace(" AND t.x = ?", ""));
}

#[test]
fn optional_equal_with_no_value_renders_is_null() {
    let q = QueryBuilder::new("t").where_col(BasicOpt::new("c").equal(None));
    let (sql, params) = welds::render(&q, &Backend::MySql);
    assert_eq!(sql, "SELECT * FROM t WHERE t.c IS NULL");
    assert!(params.is_empty());
}

#[test]
fn optional_not_equal_with_no_value_renders_is_not_null() {
    let q = QueryBuilder::new("t")
        .where_col(BasicOpt::new("c").not_equal(None))
        .where_col(NumericOpt::new("n").not_equal(None));
    let (sql, params) = welds::render(&q, &Backend::MySql);
    assert_eq!(sql, "SELECT * FROM t WHERE t.c IS NOT NULL AND t.n IS NOT NULL");
    assert!(params.is_empty());
}

#[test]
fn optional_comparison_with_no_value_renders_is_null() {
    let q = QueryBuilder::new("t")
        .where_col(NumericOpt::new("n").gt(None))
        .where_col(NumericOpt::new("m").lte(None));
    let (sql, params) = welds::render(&q, &Backend::Postgres);
    assert_eq!(sql, "SELECT * FROM t WHERE t.n IS NULL AND t.m IS NULL");
    assert!(params.is_empty());
}

#[test]
fn optional_present_value_binds_positionally() {
    let q = QueryBuilder::new("t")
        .where_col(BasicOpt::new("c").equal(Some(Value::Text(String::from("x")))))
        .where_col(NumericOpt::new("n").gte(Some(7)));
    let (sql, params) = welds::render(&q, &Backend::MySql);
    assert_eq!(sql, "SELECT * FROM t WHERE t.c = ? AND t.n >= ?");
    assert_eq!(params, vec![Value::Text(String::from("x")), Value::Int(7)]);
}

#[test]
fn map_query_mirrors_where_relation_keys() {
    let rel = orders_rel();
    let filtered = QueryBuilder::new("products").where_relation(&rel, QueryBuilder::new("orders"));
    let mapped = QueryBuilder::new("products").map_query(&rel);
    let (sql_rel, _) = welds::render(&filtered, &Backend::MySql);
    let (sql_map, _) = welds::render(&mapped, &Backend::MySql);
    assert_eq!(
        sql_rel,
        "SELECT * FROM products WHERE EXISTS (SELECT 1 FROM orders WHERE orders.product_id = products.id)"
    );
    assert_eq!(
        sql_map,
        "SELECT * FROM orders WHERE EXISTS (SELECT 1 FROM products WHERE products.id = orders.product_id)"
    );
}

#[test]
fn map_query_keeps_inner_filters() {
    let q = QueryBuilder::new("products")
        .where_col(Numeric::new("price").lt(100))
        .map_query(&orders_rel());
    let (sql, params) = welds::render(&q, &Backend::MySql);
    assert_eq!(
        sql,
        "SELECT * FROM orders WHERE EXISTS (SELECT 1 FROM products WHERE products.id = orders.product_id AND products.price < ?)"
    );
    assert_eq!(params, vec![Value::Int(100)]);
}

#[test]
fn rendering_twice_is_byte_identical() {
    let q = QueryBuilder::new("t")
        .where_col(Basic::new("a").equal(Value::Bool(true)))
        .where_col(BasicOpt::new("b").equal(None))
        .order_by_asc("a")
        .limit(3);
    let (sql1, params1) = welds::render(&q, &Backend::Postgres);
    let (sql2, params2) = welds::render(&q, &Backend::Postgres);
    assert_eq!(sql1, sql2);
    assert_eq!(params1, params2);
}

#[test]
fn params_collected_depth_first_skipping_null_tests() {
    let inner = QueryBuilder::new("orders")
        .where_col(NumericOpt::new("qty").equal(None))
        .where_col(Numeric::new("id").gt(2));
    let q = QueryBuilder::new("products")
        .where_col(Numeric::new("price").lte(1))
        .where_col(BasicOpt::new("name").not_equal(None))
        .where_relation(&orders_rel(), inner);
    let (sql, params) = welds::render(&q, &Backend::Postgres);
    assert_eq!(
        sql,
        "SELECT * FROM products WHERE products.price <= $1 AND products.name IS NOT NULL AND EXISTS (SELECT 1 FROM orders WHERE orders.product_id = products.id AND orders.qty IS NULL AND orders.id > $2)"
    );
    assert_eq!(params, vec![Value::Int(1), Value::Int(2)]);
}

#[test]
fn mssql_placeholders_are_numbered() {
    let q = QueryBuilder::new("t")
        .where_col(Basic::new("a").equal(Value::Int(1)))
        .where_col(Basic::new("b").equal(Value::Int(2)));
    let (sql, params) = welds::render(&q, &Backend::Mssql);
    assert_eq!(sql, "SELECT * FROM t WHERE t.a = @p1 AND t.b = @p2");
    assert_eq!(params.len(), 2);
}

#[test]
fn numeric_operators_render_their_symbols() {
    let q = QueryBuilder::new("t")
        .where_col(Numeric::new("a").equal(1))
        .where_col(Numeric::new("b").not_equal(2))
        .where_col(Numeric::new("c").gt(3))
        .where_col(Numeric::new("d").lt(4))
        .where_col(Numeric::new("e").gte(5))
        .where_col(Numeric::new("f").lte(6));
    let (sql, _) = welds::render(&q, &Backend::MySql);
    assert_eq!(
        sql,
        "SELECT * FROM t WHERE t.a = ? AND t.b != ? AND t.c > ? AND t.d < ? AND t.e >= ? AND t.f <= ?"
    );
}

#[test]
fn limit_and_offset_render_independently() {
    let both = QueryBuilder::new("t").limit(10).offset(5);
    let (sql, _) = welds::render(&both, &Backend::MySql);
    assert_eq!(sql, "SELECT * FROM t LIMIT 10 OFFSET 5");

    let only_limit = QueryBuilder::new("t").limit(7);
    let (sql, _) = welds::render(&only_limit, &Backend::Postgres);
    assert_eq!(sql, "SELECT * FROM t LIMIT 7");

    let only_offset = QueryBuilder::new("t").offset(4);
    let (sql, _) = welds::render(&only_offset, &Backend::Sqlite);
    assert_eq!(sql, "SELECT * FROM t OFFSET 4");
}

#[test]
fn last_limit_call_wins() {
    let q = QueryBuilder::new("t").limit(1).limit(2).offset(8).offset(9);
    let (sql, _) = welds::render(&q, &Backend::MySql);
    assert_eq!(sql, "SELECT * FROM t LIMIT 2 OFFSET 9");
}

#[test]
fn mssql_limit_alone_renders_top() {
    let q = QueryBuilder::new("t").limit(10);
    let (sql, _) = welds::render(&q, &Backend::Mssql);
    assert_eq!(sql, "SELECT TOP 10 * FROM t");
}

#[test]
fn mssql_offset_renders_offset_fetch() {
    let q = QueryBuilder::new("t").order_by_asc("id").limit(10).offset(5);
    let (sql, _) = welds::render(&q, &Backend::Mssql);
    assert_eq!(
        sql,
        "SELECT * FROM t ORDER BY id ASC OFFSET 5 ROWS FETCH NEXT 10 ROWS ONLY"
    );

    let only_offset = QueryBuilder::new("t").offset(5);
    let (sql, _) = welds::render(&only_offset, &Backend::Mssql);
    assert_eq!(sql, "SELECT * FROM t OFFSET 5 ROWS");
}

#[test]
fn order_by_builds_a_multi_key_sort() {
    let q = QueryBuilder::new("t").order_by_desc("a").order_by_asc("b");
    let (sql, _) = welds::render(&q, &Backend::MySql);
    assert_eq!(sql, "SELECT * FROM t ORDER BY a DESC, b ASC");
}

#[test]
fn empty_builder_renders_no_where_clause() {
    let q = QueryBuilder::new("t");
    let (sql, params) = welds::render(&q, &Backend::MySql);
    assert_eq!(sql, "SELECT * FROM t");
    assert!(params.is_empty());
}

#[test]
fn negative_paging_values_render_signed() {
    let q = QueryBuilder::new("t").limit(-3).offset(i64::MIN);
    let (sql, _) = welds::render(&q, &Backend::Sqlite);
    assert_eq!(sql, "SELECT * FROM t LIMIT -3 OFFSET -9223372036854775808");
}

#[test]
fn quote_ident_uses_the_backend_quoting_character() {
    assert_eq!(welds::quote_ident(&Backend::MySql, "products"), "`products`");
    assert_eq!(welds::quote_ident(&Backend::Postgres, "products"), "\"products\"");
    assert_eq!(welds::quote_ident(&Backend::Sqlite, "products"), "\"products\"");
    assert_eq!(welds::quote_ident(&Backend::Mssql, "products"), "[products]");
}

#[test]
fn basic_not_equal_binds_its_value() {
    let q = QueryBuilder::new("t").where_col(Basic::new("name").not_equal(Value::Text(
        String::from("gone"),
    )));
    let (sql, params) = welds::render(&q, &Backend::MySql);
    assert_eq!(sql, "SELECT * FROM t WHERE t.name != ?");
    assert_eq!(params, vec![Value::Text(String::from("gone"))]);
}

#[test]
fn nested_exists_numbering_continues_depth_first() {
    let inner_inner = QueryBuilder::new("items").where_col(Numeric::new("n").equal(3));
    let items_rel = Relationship::new(RelationKind::HasMany, "id", "order_id", "items");
    let inner = QueryBuilder::new("orders")
        .where_col(Numeric::new("id").gt(1))
        .where_relation(&items_rel, inner_inner);
    let q = QueryBuilder::new("products")
        .where_col(Numeric::new("price").lt(2))
        .where_relation(&orders_rel(), inner);
    let (sql, params) = welds::render(&q, &Backend::Postgres);
    assert_eq!(
        sql,
        "SELECT * FROM products WHERE products.price < $1 AND EXISTS (SELECT 1 FROM orders WHERE orders.product_id = products.id AND orders.id > $2 AND EXISTS (SELECT 1 FROM items WHERE items.order_id = orders.id AND items.n = $3))"
    );
    assert_eq!(params, vec![Value::Int(2), Value::Int(1), Value::Int(3)]);
}
