//! Rendering a composed query into backend-specific SQL text plus an
//! ordered parameter list.
//!
//! The renderer walks the builder's clauses and EXISTS subqueries in
//! insertion order, AND-joining their fragments, then appends ordering
//! and the backend's paging form.  The parameter list is collected in
//! emission order, so placeholders and parameters always line up
//! positionally whatever numbering scheme the backend uses.

use vstd::prelude::*;
use vstd::string::*;

use crate::builder::{
    clauses_view, exist_view, exists_views, orderbys_view, qb_view, qb_wf, Direction, ExistIn,
    ExistInV, OrderBy, OrderByV, QueryBuilder, QueryBuilderV,
};
use crate::clause::{clause_wf, ClauseColVal, ClauseV, Operator, Value, ValueV};
use crate::dialect::{placeholder_text, push_placeholder, Backend};
use crate::numtext::{i64_to_dec, int_dec_seq};

verus! {

/// The values one clause binds: none for a null test, else its value.
pub open spec fn clause_params(c: ClauseV) -> Seq<ValueV> {
    if c.isnull_clause {
        Seq::empty()
    } else {
        seq![c.val.unwrap()]
    }
}

/// The values a clause list binds, in order.
pub open spec fn wheres_params(ws: Seq<ClauseV>) -> Seq<ValueV>
    decreases ws.len(),
{
    if ws.len() == 0 {
        Seq::empty()
    } else {
        wheres_params(ws.drop_last()) + clause_params(ws.last())
    }
}

/// The values an EXISTS-subquery list binds, depth first, in order.
pub open spec fn exists_params(es: Seq<ExistInV>) -> Seq<ValueV>
    decreases es,
{
    if es.len() == 0 {
        Seq::empty()
    } else {
        exists_params(es.drop_last()) + query_params(es.last().inner)
    }
}

/// The values a whole query binds, depth first, in emission order:
/// its own clauses first, then each EXISTS subquery in turn.
pub open spec fn query_params(q: QueryBuilderV) -> Seq<ValueV>
    decreases q,
{
    wheres_params(q.wheres) + exists_params(q.exist_ins)
}

/// The SQL token of a comparison operator.
pub open spec fn op_text(op: Operator) -> Seq<char> {
    match op {
        Operator::Equal => "="@,
        Operator::NotEqual => "!="@,
        Operator::Gt => ">"@,
        Operator::Lt => "<"@,
        Operator::Gte => ">="@,
        Operator::Lte => "<="@,
    }
}

/// The rendered text of one clause, `k` being the one-based number of
/// its bound parameter.  A null test renders `IS NULL`, or `IS NOT
/// NULL` for `not_equal`, whatever comparison operator was asked for,
/// and binds nothing.
pub open spec fn clause_text(table: Seq<char>, c: ClauseV, b: Backend, k: nat) -> Seq<char> {
    if c.isnull_clause {
        table + "."@ + c.col + (if c.operator == Operator::NotEqual {
            " IS NOT NULL"@
        } else {
            " IS NULL"@
        })
    } else {
        table + "."@ + c.col + " "@ + op_text(c.operator) + " "@ + placeholder_text(b, k)
    }
}

/// All fragments of a list, each prefixed by the AND separator.
pub open spec fn and_tail(frags: Seq<Seq<char>>) -> Seq<char>
    decreases frags.len(),
{
    if frags.len() == 0 {
        Seq::empty()
    } else {
        and_tail(frags.drop_last()) + " AND "@ + frags.last()
    }
}

/// The fragments of a list AND-joined, with no leading separator.
pub open spec fn join_and(frags: Seq<Seq<char>>) -> Seq<char>
    decreases frags.len(),
{
    if frags.len() == 0 {
        Seq::empty()
    } else if frags.len() == 1 {
        frags[0]
    } else {
        join_and(frags.drop_last()) + " AND "@ + frags.last()
    }
}

/// The rendered fragments of a clause list, in order; `k` numbers the
/// first parameter the list binds.
pub open spec fn where_frags(table: Seq<char>, ws: Seq<ClauseV>, b: Backend, k: nat) -> Seq<
    Seq<char>,
>
    decreases ws.len(),
{
    if ws.len() == 0 {
        Seq::empty()
    } else {
        where_frags(table, ws.drop_last(), b, k).push(
            clause_text(table, ws.last(), b, k + wheres_params(ws.drop_last()).len()),
        )
    }
}

/// The rendered fragments of an EXISTS-subquery list, in order; `k`
/// numbers the first parameter the list binds.
pub open spec fn exists_frags(table: Seq<char>, es: Seq<ExistInV>, b: Backend, k: nat) -> Seq<
    Seq<char>,
>
    decreases es,
{
    if es.len() == 0 {
        Seq::empty()
    } else {
        exists_frags(table, es.drop_last(), b, k).push(
            exists_text(table, es.last(), b, k + exists_params(es.drop_last()).len()),
        )
    }
}

/// The rendered text of one EXISTS subquery: a correlated
/// `EXISTS (SELECT 1 FROM inner WHERE inner.their_key = outer.my_key
/// AND <inner predicates>)` block, the inner query's own predicates
/// rendered recursively.
pub open spec fn exists_text(outer_table: Seq<char>, e: ExistInV, b: Backend, k: nat) -> Seq<char>
    decreases e,
{
    "EXISTS (SELECT 1 FROM "@ + e.inner_table + " WHERE "@ + e.inner_table + "."@ + e.inner_column
        + " = "@ + outer_table + "."@ + e.outer_column + and_tail(
        where_frags(e.inner_table, e.inner.wheres, b, k) + exists_frags(
            e.inner_table,
            e.inner.exist_ins,
            b,
            k + wheres_params(e.inner.wheres).len(),
        ),
    ) + ")"@
}

/// All predicate fragments of a query, clauses first, then EXISTS
/// subqueries, each numbered from `k` in emission order.
pub open spec fn query_frags(q: QueryBuilderV, b: Backend, k: nat) -> Seq<Seq<char>> {
    where_frags(q.table, q.wheres, b, k) + exists_frags(
        q.table,
        q.exist_ins,
        b,
        k + wheres_params(q.wheres).len(),
    )
}

/// The WHERE part of a rendered query: nothing at all when the query
/// has no predicate, else the AND-joined fragments.
pub open spec fn where_text(q: QueryBuilderV, b: Backend) -> Seq<char> {
    if q.wheres.len() == 0 && q.exist_ins.len() == 0 {
        Seq::empty()
    } else {
        " WHERE "@ + join_and(query_frags(q, b, 1))
    }
}

/// The rendered text of one ordering entry.
pub open spec fn order_frag(o: OrderByV) -> Seq<char> {
    o.col + (if o.dir == Direction::Desc {
        " DESC"@
    } else {
        " ASC"@
    })
}

/// The fragments of a list comma-joined.
pub open spec fn comma_join(frags: Seq<Seq<char>>) -> Seq<char>
    decreases frags.len(),
{
    if frags.len() == 0 {
        Seq::empty()
    } else if frags.len() == 1 {
        frags[0]
    } else {
        comma_join(frags.drop_last()) + ", "@ + frags.last()
    }
}

/// The rendered fragments of the ordering entries, in declared order.
pub open spec fn order_frags(os: Seq<OrderByV>) -> Seq<Seq<char>>
    decreases os.len(),
{
    if os.len() == 0 {
        Seq::empty()
    } else {
        order_frags(os.drop_last()).push(order_frag(os.last()))
    }
}

/// The ORDER BY part: nothing when no ordering was declared.
pub open spec fn order_text(os: Seq<OrderByV>) -> Seq<char> {
    if os.len() == 0 {
        Seq::empty()
    } else {
        " ORDER BY "@ + comma_join(order_frags(os))
    }
}

/// The `TOP n ` prefix: only for the T-SQL backend, and only when a
/// limit is set without an offset.
pub open spec fn top_text(limit: Option<i64>, offset: Option<i64>, b: Backend) -> Seq<char> {
    if b == Backend::Mssql && limit is Some && offset is None {
        "TOP "@ + int_dec_seq(limit.unwrap() as int) + " "@
    } else {
        Seq::empty()
    }
}

/// The trailing paging clause.  The T-SQL backend pages with
/// `OFFSET m ROWS FETCH NEXT n ROWS ONLY` once an offset is set (limit
/// alone is the `TOP` prefix); the others append `LIMIT n` and
/// `OFFSET m` independently.
pub open spec fn paging_text(limit: Option<i64>, offset: Option<i64>, b: Backend) -> Seq<char> {
    if b == Backend::Mssql {
        match offset {
            Some(m) => " OFFSET "@ + int_dec_seq(m as int) + " ROWS"@ + (match limit {
                Some(n) => " FETCH NEXT "@ + int_dec_seq(n as int) + " ROWS ONLY"@,
                None => Seq::empty(),
            }),
            None => Seq::empty(),
        }
    } else {
        (match limit {
            Some(n) => " LIMIT "@ + int_dec_seq(n as int),
            None => Seq::empty(),
        }) + (match offset {
            Some(m) => " OFFSET "@ + int_dec_seq(m as int),
            None => Seq::empty(),
        })
    }
}

/// The full rendered SQL text of a query for a backend.
pub open spec fn render_text(q: QueryBuilderV, b: Backend) -> Seq<char> {
    "SELECT "@ + top_text(q.limit, q.offset, b) + "* FROM "@ + q.table + where_text(q, b)
        + order_text(q.orderby) + paging_text(q.limit, q.offset, b)
}

/// How many values one clause binds.
pub open spec fn clause_nonnull(c: ClauseV) -> nat {
    if c.isnull_clause {
        0
    } else {
        1
    }
}

/// How many values a clause list binds.
pub open spec fn wheres_nonnull(ws: Seq<ClauseV>) -> nat
    decreases ws.len(),
{
    if ws.len() == 0 {
        0
    } else {
        wheres_nonnull(ws.drop_last()) + clause_nonnull(ws.last())
    }
}

/// How many values an EXISTS-subquery list binds, depth first.
pub open spec fn exists_nonnull(es: Seq<ExistInV>) -> nat
    decreases es,
{
    if es.len() == 0 {
        0
    } else {
        exists_nonnull(es.drop_last()) + query_nonnull(es.last().inner)
    }
}

/// How many non-null-predicate clause values a whole query holds,
/// across all nested EXISTS subqueries.
pub open spec fn query_nonnull(q: QueryBuilderV) -> nat
    decreases q,
{
    wheres_nonnull(q.wheres) + exists_nonnull(q.exist_ins)
}

/// A clause list binds one value per non-null clause.
proof fn lemma_wheres_params_count(ws: Seq<ClauseV>)
    ensures
        wheres_params(ws).len() == wheres_nonnull(ws),
    decreases ws.len(),
{
    if ws.len() > 0 {
        lemma_wheres_params_count(ws.drop_last());
    }
}

/// An EXISTS list binds as many values as its inner queries hold.
proof fn lemma_exists_params_count(es: Seq<ExistInV>)
    ensures
        exists_params(es).len() == exists_nonnull(es),
    decreases es,
{
    if es.len() > 0 {
        lemma_exists_params_count(es.drop_last());
        lemma_query_params_count(es.last().inner);
    }
}

/// The parameter sequence of a query is exactly one value per
/// non-null-predicate clause, counted depth first across all nested
/// EXISTS subqueries, in emission order.
pub proof fn lemma_query_params_count(q: QueryBuilderV)
    ensures
        query_params(q).len() == query_nonnull(q),
    decreases q,
{
    lemma_wheres_params_count(q.wheres);
    lemma_exists_params_count(q.exist_ins);
}

/// A null-test clause binds nothing and renders `IS NULL` — or
/// `IS NOT NULL` for `not_equal` — whatever comparison operator was
/// asked for, on every backend and at every parameter position.
pub proof fn lemma_null_clause_rendering(table: Seq<char>, c: ClauseV, b: Backend, k: nat)
    requires
        c.isnull_clause,
    ensures
        clause_params(c) == Seq::<ValueV>::empty(),
        c.operator != Operator::NotEqual ==> clause_text(table, c, b, k) == table + "."@ + c.col
            + " IS NULL"@,
        c.operator == Operator::NotEqual ==> clause_text(table, c, b, k) == table + "."@ + c.col
            + " IS NOT NULL"@,
{
}

/// With positional placeholders the text of a clause does not depend
/// on its parameter's number.
proof fn lemma_clause_text_positional(
    table: Seq<char>,
    c: ClauseV,
    b: Backend,
    k1: nat,
    k2: nat,
)
    requires
        crate::dialect::positional_placeholders(b),
    ensures
        clause_text(table, c, b, k1) == clause_text(table, c, b, k2),
{
}

/// With positional placeholders a clause list's fragments do not
/// depend on where its parameters start.
proof fn lemma_where_frags_positional(
    table: Seq<char>,
    ws: Seq<ClauseV>,
    b: Backend,
    k1: nat,
    k2: nat,
)
    requires
        crate::dialect::positional_placeholders(b),
    ensures
        where_frags(table, ws, b, k1) == where_frags(table, ws, b, k2),
    decreases ws.len(),
{
    if ws.len() > 0 {
        lemma_where_frags_positional(table, ws.drop_last(), b, k1, k2);
        assert(where_frags(table, ws, b, k1) =~= where_frags(table, ws, b, k2));
    }
}

/// A split clause list renders the two parts' fragments in turn.
proof fn lemma_where_frags_append(
    table: Seq<char>,
    a: Seq<ClauseV>,
    c: Seq<ClauseV>,
    b: Backend,
    k: nat,
)
    ensures
        where_frags(table, a + c, b, k) == where_frags(table, a, b, k) + where_frags(
            table,
            c,
            b,
            k + wheres_params(a).len(),
        ),
        wheres_params(a + c) == wheres_params(a) + wheres_params(c),
    decreases c.len(),
{
    if c.len() == 0 {
        assert(a + c =~= a);
        assert(where_frags(table, a, b, k) + where_frags(
            table,
            c,
            b,
            k + wheres_params(a).len(),
        ) =~= where_frags(table, a, b, k));
        assert(wheres_params(a) + wheres_params(c) =~= wheres_params(a));
    } else {
        lemma_where_frags_append(table, a, c.drop_last(), b, k);
        assert((a + c).drop_last() =~= a + c.drop_last());
        assert((a + c).last() == c.last());
        assert(wheres_params(a + c) =~= wheres_params(a) + wheres_params(c));
        assert(where_frags(table, a + c, b, k) =~= where_frags(table, a, b, k) + where_frags(
            table,
            c,
            b,
            k + wheres_params(a).len(),
        ));
    }
}

/// AND-joining a split fragment list joins the first part, then tails
/// the second.
proof fn lemma_join_and_append(a: Seq<Seq<char>>, b: Seq<Seq<char>>)
    requires
        a.len() > 0,
    ensures
        join_and(a + b) == join_and(a) + and_tail(b),
    decreases b.len(),
{
    if b.len() == 0 {
        assert(a + b =~= a);
        assert(join_and(a) + and_tail(b) =~= join_and(a));
    } else {
        lemma_join_and_append(a, b.drop_last());
        assert((a + b).drop_last() =~= a + b.drop_last());
        assert((a + b).last() == b.last());
        assert(join_and(a) + and_tail(b) =~= join_and(a) + and_tail(b.drop_last()) + " AND "@
            + b.last());
    }
}

/// With no EXISTS subqueries, the WHERE text is the AND-join of the
/// clause fragments alone.
proof fn lemma_where_text_no_exists(q: QueryBuilderV, b: Backend)
    requires
        q.exist_ins.len() == 0,
        q.wheres.len() > 0,
    ensures
        where_text(q, b) == " WHERE "@ + join_and(where_frags(q.table, q.wheres, b, 1)),
{
    let kE = 1 + wheres_params(q.wheres).len();
    assert(exists_frags(q.table, q.exist_ins, b, kE) =~= Seq::<Seq<char>>::empty());
    assert(query_frags(q, b, 1) =~= where_frags(q.table, q.wheres, b, 1));
}

/// Joining a clause list split in two parts: the first part joined,
/// the second part as an AND-prefixed tail.
proof fn lemma_join_frags_cat(table: Seq<char>, w1: Seq<ClauseV>, w2: Seq<ClauseV>, b: Backend)
    requires
        crate::dialect::positional_placeholders(b),
        w1.len() > 0,
    ensures
        join_and(where_frags(table, w1 + w2, b, 1)) == join_and(where_frags(table, w1, b, 1))
            + and_tail(where_frags(table, w2, b, 1)),
{
    lemma_where_frags_append(table, w1, w2, b, 1);
    lemma_where_frags_positional(table, w2, b, 1 + wheres_params(w1).len(), 1);
    lemma_where_frags_len(table, w1, b, 1);
    lemma_join_and_append(where_frags(table, w1, b, 1), where_frags(table, w2, b, 1));
}

/// A single clause's fragment list, and its AND-prefixed tail.
proof fn lemma_single_frag(table: Seq<char>, c: ClauseV, b: Backend)
    ensures
        where_frags(table, seq![c], b, 1) == seq![clause_text(table, c, b, 1)],
        and_tail(seq![clause_text(table, c, b, 1)]) == Seq::<char>::empty() + " AND "@
            + clause_text(table, c, b, 1),
{
    assert(seq![c].drop_last() =~= Seq::<ClauseV>::empty());
    assert(seq![c].last() == c);
    assert(where_frags(table, Seq::<ClauseV>::empty(), b, 1) =~= Seq::<Seq<char>>::empty());
    assert(wheres_params(Seq::<ClauseV>::empty()) =~= Seq::<ValueV>::empty());
    assert(where_frags(table, seq![c], b, 1) =~= seq![clause_text(table, c, b, 1)]);
    let fc = seq![clause_text(table, c, b, 1)];
    assert(fc.drop_last() =~= Seq::<Seq<char>>::empty());
    assert(and_tail(Seq::<Seq<char>>::empty()) =~= Seq::<char>::empty());
}

/// Clauses AND-join in call order, and removing one clause from a
/// query built of `where_col` calls removes exactly its ` AND `-joined
/// fragment from the WHERE text — on the backends whose placeholder
/// token carries no number, so that the other fragments are unchanged.
pub proof fn lemma_where_col_compositional(
    q: QueryBuilderV,
    c: ClauseV,
    w1: Seq<ClauseV>,
    w2: Seq<ClauseV>,
    b: Backend,
)
    requires
        crate::dialect::positional_placeholders(b),
        q.exist_ins.len() == 0,
        q.wheres == w1 + seq![c] + w2,
        w1.len() > 0,
    ensures
        where_text(q, b) == " WHERE "@ + join_and(where_frags(q.table, w1, b, 1)) + " AND "@
            + clause_text(q.table, c, b, 1) + and_tail(where_frags(q.table, w2, b, 1)),
        where_text(QueryBuilderV { wheres: w1 + w2, ..q }, b) == " WHERE "@ + join_and(
            where_frags(q.table, w1, b, 1),
        ) + and_tail(where_frags(q.table, w2, b, 1)),
{
    let t = q.table;
    let f1 = where_frags(t, w1, b, 1);
    let f2 = where_frags(t, w2, b, 1);
    let ct = clause_text(t, c, b, 1);

    assert(q.wheres.len() > 0);
    lemma_where_text_no_exists(q, b);
    lemma_join_frags_cat(t, w1 + seq![c], w2, b);
    lemma_join_frags_cat(t, w1, seq![c], b);
    lemma_single_frag(t, c, b);
    assert(join_and(where_frags(t, q.wheres, b, 1)) == join_and(f1) + (Seq::<char>::empty()
        + " AND "@ + ct) + and_tail(f2));
    assert(" WHERE "@ + join_and(where_frags(t, q.wheres, b, 1)) =~= " WHERE "@ + join_and(f1)
        + " AND "@ + ct + and_tail(f2));

    let q2 = QueryBuilderV { wheres: w1 + w2, ..q };
    assert(q2.wheres.len() > 0);
    lemma_where_text_no_exists(q2, b);
    lemma_join_frags_cat(t, w1, w2, b);
}

/// After `where_relation`, the WHERE text is the old WHERE text with
/// one ` AND EXISTS (SELECT 1 FROM their_table WHERE their_table
/// .their_key = my_table.my_key AND <filter predicates>)` block
/// appended, its parameters numbered after all existing ones.
pub proof fn lemma_where_relation_renders_exists(
    q: QueryBuilderV,
    rel: crate::relation::RelationshipV,
    f: QueryBuilderV,
    b: Backend,
)
    requires
        q.wheres.len() + q.exist_ins.len() > 0,
    ensures
        where_text(crate::builder::where_relation_spec(q, rel, f), b) == where_text(q, b)
            + " AND "@ + exists_text(
            q.table,
            ExistInV {
                inner: f,
                outer_column: rel.local_key,
                inner_table: rel.foreign_table,
                inner_column: rel.foreign_key,
            },
            b,
            1 + query_params(q).len(),
        ),
{
    let q2 = crate::builder::where_relation_spec(q, rel, f);
    let e = ExistInV {
        inner: f,
        outer_column: rel.local_key,
        inner_table: rel.foreign_table,
        inner_column: rel.foreign_key,
    };
    let t = q.table;
    let kE = 1 + wheres_params(q.wheres).len();
    let wfr = where_frags(t, q.wheres, b, 1);
    let efr = exists_frags(t, q.exist_ins, b, kE);
    lemma_where_frags_len(t, q.wheres, b, 1);
    lemma_exists_frags_len(t, q.exist_ins, b, kE);
    assert(q2.exist_ins.drop_last() =~= q.exist_ins);
    assert(q2.exist_ins.last() == e);
    assert(exists_frags(t, q2.exist_ins, b, kE) =~= efr.push(
        exists_text(t, e, b, kE + exists_params(q.exist_ins).len()),
    ));
    assert(kE + exists_params(q.exist_ins).len() == 1 + query_params(q).len());
    let et = exists_text(t, e, b, 1 + query_params(q).len());
    assert(exists_text(t, e, b, kE + exists_params(q.exist_ins).len()) == et);
    assert(query_frags(q2, b, 1) =~= (wfr + efr).push(et));
    assert(query_frags(q, b, 1) =~= wfr + efr);
    let fr = wfr + efr;
    assert(fr.len() > 0);
    assert(fr.push(et).drop_last() =~= fr);
    assert(fr.push(et).last() == et);
    assert(join_and(fr.push(et)) == join_and(fr) + " AND "@ + et);
    assert(q2.wheres.len() + q2.exist_ins.len() > 0);
    assert(where_text(q2, b) =~= where_text(q, b) + " AND "@ + et);
}

/// Splitting a fragment list splits its AND-prefixed rendering.
proof fn lemma_and_tail_append(a: Seq<Seq<char>>, b: Seq<Seq<char>>)
    ensures
        and_tail(a + b) == and_tail(a) + and_tail(b),
    decreases b.len(),
{
    if b.len() == 0 {
        assert(a + b =~= a);
        assert(and_tail(a) + and_tail(b) =~= and_tail(a));
    } else {
        lemma_and_tail_append(a, b.drop_last());
        assert((a + b).drop_last() =~= a + b.drop_last());
        assert((a + b).last() == b.last());
        assert(and_tail(a) + and_tail(b) =~= and_tail(a) + and_tail(b.drop_last()) + " AND "@
            + b.last());
    }
}

/// A clause list renders one fragment per clause.
proof fn lemma_where_frags_len(table: Seq<char>, ws: Seq<ClauseV>, b: Backend, k: nat)
    ensures
        where_frags(table, ws, b, k).len() == ws.len(),
    decreases ws.len(),
{
    if ws.len() > 0 {
        lemma_where_frags_len(table, ws.drop_last(), b, k);
    }
}

/// An EXISTS list renders one fragment per subquery.
proof fn lemma_exists_frags_len(table: Seq<char>, es: Seq<ExistInV>, b: Backend, k: nat)
    ensures
        exists_frags(table, es, b, k).len() == es.len(),
    decreases es.len(),
{
    if es.len() > 0 {
        lemma_exists_frags_len(table, es.drop_last(), b, k);
    }
}

/// The SQL token of a comparison operator.
fn op_str(op: &Operator) -> (r: &'static str)
    ensures
        r@ == op_text(*op),
{
    match op {
        Operator::Equal => "=",
        Operator::NotEqual => "!=",
        Operator::Gt => ">",
        Operator::Lt => "<",
        Operator::Gte => ">=",
        Operator::Lte => "<=",
    }
}

/// Emit one clause and collect its bound value, if any.
fn push_clause(out: &mut String, params: &mut Vec<Value>, table: &str, c: &ClauseColVal, b: &Backend)
    requires
        clause_wf(c.deep_view()),
    ensures
        final(out)@ == old(out)@ + clause_text(
            table@,
            c.deep_view(),
            *b,
            old(params).deep_view().len() + 1,
        ),
        final(params).deep_view() == old(params).deep_view() + clause_params(c.deep_view()),
{
    let ghost p0 = params.deep_view();
    out.append(table);
    out.append(".");
    out.append(c.col.as_str());
    if c.isnull_clause {
        match c.operator {
            Operator::NotEqual => out.append(" IS NOT NULL"),
            _ => out.append(" IS NULL"),
        }
        proof {
            assert(params.deep_view() =~= p0 + clause_params(c.deep_view()));
        }
    } else {
        out.append(" ");
        out.append(op_str(&c.operator));
        out.append(" ");
        if let Some(v) = &c.val {
            params.push(v.duplicate());
        }
        proof {
            assert(params.deep_view() =~= p0 + clause_params(c.deep_view()));
        }
        push_placeholder(out, b, params.len());
    }
}

/// Emit one EXISTS block, recursively rendering the inner query's
/// predicates, and collect the inner query's bound values.
fn push_exists(out: &mut String, params: &mut Vec<Value>, outer_table: &str, e: &ExistIn, b: &Backend)
    requires
        qb_wf(exist_view(*e).inner),
    ensures
        final(out)@ == old(out)@ + exists_text(
            outer_table@,
            exist_view(*e),
            *b,
            old(params).deep_view().len() + 1,
        ),
        final(params).deep_view() == old(params).deep_view() + query_params(exist_view(*e).inner),
    decreases *e,
{
    out.append("EXISTS (SELECT 1 FROM ");
    out.append(e.inner_table.as_str());
    out.append(" WHERE ");
    out.append(e.inner_table.as_str());
    out.append(".");
    out.append(e.inner_column.as_str());
    out.append(" = ");
    out.append(outer_table);
    out.append(".");
    out.append(e.outer_column.as_str());
    proof {
        let qv = exist_view(*e).inner;
        assert(qv == qb_view(*e.inner));
        assert forall|i: int| 0 <= i < e.inner.wheres@.len() implies clause_wf(
            #[trigger] e.inner.wheres@[i].deep_view(),
        ) by {
            assert(qv.wheres == clauses_view(e.inner.wheres@));
            assert(qv.wheres[i] == e.inner.wheres@[i].deep_view());
            assert(clause_wf(qv.wheres[i]));
        }
        assert forall|i: int| 0 <= i < e.inner.exist_ins@.len() implies qb_wf(
            exist_view(#[trigger] e.inner.exist_ins@[i]).inner,
        ) by {
            lemma_exists_views_index(e.inner.exist_ins@, i);
            assert(qv.exist_ins[i] == exist_view(e.inner.exist_ins@[i]));
            assert(qb_wf(qv.exist_ins[i].inner));
        }
    }
    push_pred_tail(out, params, e.inner_table.as_str(), &e.inner.wheres, &e.inner.exist_ins, b);
    out.append(")");
}

/// Emit every predicate of a query as an ` AND <fragment>` tail, and
/// collect the bound values in emission order.
fn push_pred_tail(
    out: &mut String,
    params: &mut Vec<Value>,
    table: &str,
    wheres: &Vec<ClauseColVal>,
    exist_ins: &Vec<ExistIn>,
    b: &Backend,
)
    requires
        forall|i: int| 0 <= i < wheres@.len() ==> clause_wf(#[trigger] wheres@[i].deep_view()),
        forall|i: int|
            0 <= i < exist_ins@.len() ==> qb_wf(exist_view(#[trigger] exist_ins@[i]).inner),
    ensures
        final(out)@ == old(out)@ + and_tail(
            where_frags(table@, clauses_view(wheres@), *b, old(params).deep_view().len() + 1)
                + exists_frags(
                table@,
                exists_views(exist_ins@),
                *b,
                old(params).deep_view().len() + 1 + wheres_params(clauses_view(wheres@)).len(),
            ),
        ),
        final(params).deep_view() == old(params).deep_view() + wheres_params(clauses_view(wheres@))
            + exists_params(exists_views(exist_ins@)),
    decreases exist_ins,
{
    let ghost out0 = out@;
    let ghost p0 = params.deep_view();
    let ghost wsv = clauses_view(wheres@);
    let ghost esv = exists_views(exist_ins@);
    let ghost k0 = p0.len() + 1;

    let mut i: usize = 0;
    while i < wheres.len()
        invariant
            i <= wheres@.len(),
            wsv == clauses_view(wheres@),
            k0 == p0.len() + 1,
            forall|j: int| 0 <= j < wheres@.len() ==> clause_wf(#[trigger] wheres@[j].deep_view()),
            out@ == out0 + and_tail(where_frags(table@, wsv.take(i as int), *b, k0)),
            params.deep_view() == p0 + wheres_params(wsv.take(i as int)),
        decreases wheres@.len() - i,
    {
        out.append(" AND ");
        let ghost taken = wsv.take(i as int);
        let ghost out_a = out@;
        let ghost p_a = params.deep_view();
        push_clause(out, params, table, &wheres[i], b);
        proof {
            assert(out@ == out_a + clause_text(
                table@,
                wheres@[i as int].deep_view(),
                *b,
                p_a.len() + 1,
            ));
            let ct = clause_text(table@, wsv[i as int], *b, k0 + wheres_params(taken).len());
            let fr = where_frags(table@, taken, *b, k0);
            assert(wsv.take(i + 1).drop_last() =~= taken);
            assert(wsv.take(i + 1).last() == wsv[i as int]);
            assert(wsv[i as int] == wheres@[i as int].deep_view());
            assert(where_frags(table@, wsv.take(i + 1), *b, k0) =~= fr.push(ct));
            assert(fr.push(ct).drop_last() =~= fr);
            assert(fr.push(ct).last() == ct);
            assert(and_tail(fr.push(ct)) == and_tail(fr) + " AND "@ + ct);
            assert(out_a == out0 + and_tail(fr) + " AND "@);
            assert(ct == clause_text(table@, wheres@[i as int].deep_view(), *b, p_a.len() + 1));
            assert(out@ == out0 + and_tail(fr) + " AND "@ + ct);
            assert(out@ =~= out0 + and_tail(where_frags(table@, wsv.take(i + 1), *b, k0)));
        }
        i = i + 1;
    }
    proof {
        assert(wsv.take(wheres@.len() as int) =~= wsv);
    }

    let ghost outw = out0 + and_tail(where_frags(table@, wsv, *b, k0));
    let ghost kE = k0 + wheres_params(wsv).len();
    proof {
        lemma_exists_views_len(exist_ins@);
    }
    let mut j: usize = 0;
    while j < exist_ins.len()
        invariant
            j <= exist_ins@.len(),
            wsv == clauses_view(wheres@),
            esv == exists_views(exist_ins@),
            esv.len() == exist_ins@.len(),
            k0 == p0.len() + 1,
            kE == k0 + wheres_params(wsv).len(),
            outw == out0 + and_tail(where_frags(table@, wsv, *b, k0)),
            forall|m: int|
                0 <= m < exist_ins@.len() ==> qb_wf(exist_view(#[trigger] exist_ins@[m]).inner),
            out@ == outw + and_tail(exists_frags(table@, esv.take(j as int), *b, kE)),
            params.deep_view() == p0 + wheres_params(wsv) + exists_params(esv.take(j as int)),
        decreases exist_ins@.len() - j,
    {
        out.append(" AND ");
        let ghost taken = esv.take(j as int);
        proof {
            assert(esv =~= exists_views(exist_ins@));
            lemma_exists_views_index(exist_ins@, j as int);
        }
        push_exists(out, params, table, &exist_ins[j], b);
        proof {
            let et = exists_text(table@, esv[j as int], *b, kE + exists_params(taken).len());
            let fr = exists_frags(table@, taken, *b, kE);
            assert(esv.take(j + 1).drop_last() =~= taken);
            assert(esv.take(j + 1).last() == esv[j as int]);
            assert(exists_frags(table@, esv.take(j + 1), *b, kE) =~= fr.push(et));
            assert(fr.push(et).drop_last() =~= fr);
            assert(fr.push(et).last() == et);
            assert(and_tail(fr.push(et)) == and_tail(fr) + " AND "@ + et);
            assert(out@ =~= outw + and_tail(exists_frags(table@, esv.take(j + 1), *b, kE)));
        }
        j = j + 1;
    }
    proof {
        assert(esv.take(exist_ins@.len() as int) =~= esv);
        lemma_and_tail_append(
            where_frags(table@, wsv, *b, k0),
            exists_frags(table@, esv, *b, kE),
        );
    }
}

/// Emit the WHERE part of a query and collect every bound value, in
/// emission order.
fn push_where(out: &mut String, params: &mut Vec<Value>, qb: &QueryBuilder, b: &Backend)
    requires
        qb_wf(qb_view(*qb)),
        old(params)@.len() == 0,
    ensures
        final(out)@ == old(out)@ + where_text(qb_view(*qb), *b),
        final(params).deep_view() == query_params(qb_view(*qb)),
{
    let ghost qv = qb_view(*qb);
    let ghost wsv = clauses_view(qb.wheres@);
    let ghost esv = exists_views(qb.exist_ins@);
    let ghost out0 = out@;
    proof {
        lemma_exists_views_len(qb.exist_ins@);
        assert(params.deep_view() =~= Seq::<ValueV>::empty());
        assert forall|i: int| 0 <= i < qb.wheres@.len() implies clause_wf(
            #[trigger] qb.wheres@[i].deep_view(),
        ) by {
            assert(qv.wheres[i] == qb.wheres@[i].deep_view());
            assert(clause_wf(qv.wheres[i]));
        }
        assert forall|i: int| 0 <= i < qb.exist_ins@.len() implies qb_wf(
            exist_view(#[trigger] qb.exist_ins@[i]).inner,
        ) by {
            lemma_exists_views_index(qb.exist_ins@, i);
            assert(qb_wf(qv.exist_ins[i].inner));
        }
    }
    if qb.wheres.len() == 0 && qb.exist_ins.len() == 0 {
        proof {
            assert(out@ =~= out0 + where_text(qv, *b));
            assert(params.deep_view() =~= query_params(qv));
        }
        return ;
    }
    out.append(" WHERE ");
    let ghost out_w = out0 + " WHERE "@;
    let mut i: usize = 0;
    while i < qb.wheres.len()
        invariant
            i <= qb.wheres@.len(),
            qv == qb_view(*qb),
            wsv == clauses_view(qb.wheres@),
            wsv == qv.wheres,
            forall|m: int|
                0 <= m < qb.wheres@.len() ==> clause_wf(#[trigger] qb.wheres@[m].deep_view()),
            out@ == out_w + join_and(where_frags(qv.table, wsv.take(i as int), *b, 1)),
            params.deep_view() == wheres_params(wsv.take(i as int)),
        decreases qb.wheres@.len() - i,
    {
        if i > 0 {
            out.append(" AND ");
        }
        let ghost taken = wsv.take(i as int);
        let ghost p_a = params.deep_view();
        push_clause(out, params, qb.table.as_str(), &qb.wheres[i], b);
        proof {
            let ct = clause_text(qv.table, wsv[i as int], *b, 1 + wheres_params(taken).len());
            let fr = where_frags(qv.table, taken, *b, 1);
            lemma_where_frags_len(qv.table, taken, *b, 1);
            assert(wsv.take(i + 1).drop_last() =~= taken);
            assert(wsv.take(i + 1).last() == wsv[i as int]);
            assert(wsv[i as int] == qb.wheres@[i as int].deep_view());
            assert(where_frags(qv.table, wsv.take(i + 1), *b, 1) =~= fr.push(ct));
            assert(fr.push(ct).drop_last() =~= fr);
            assert(fr.push(ct).last() == ct);
            assert(ct == clause_text(qv.table, qb.wheres@[i as int].deep_view(), *b, p_a.len() + 1));
            if i == 0 {
                assert(join_and(fr.push(ct)) == ct);
            } else {
                assert(join_and(fr.push(ct)) == join_and(fr) + " AND "@ + ct);
            }
            assert(out@ =~= out_w + join_and(where_frags(qv.table, wsv.take(i + 1), *b, 1)));
            assert(params.deep_view() =~= wheres_params(wsv.take(i + 1)));
        }
        i = i + 1;
    }
    proof {
        assert(wsv.take(qb.wheres@.len() as int) =~= wsv);
        lemma_where_frags_len(qv.table, wsv, *b, 1);
    }

    let ghost wfr = where_frags(qv.table, wsv, *b, 1);
    let ghost k_e = 1 + wheres_params(wsv).len();
    let mut j: usize = 0;
    while j < qb.exist_ins.len()
        invariant
            j <= qb.exist_ins@.len(),
            qv == qb_view(*qb),
            wsv == clauses_view(qb.wheres@),
            wsv == qv.wheres,
            esv == exists_views(qb.exist_ins@),
            esv == qv.exist_ins,
            esv.len() == qb.exist_ins@.len(),
            wfr == where_frags(qv.table, wsv, *b, 1),
            wfr.len() == wsv.len(),
            k_e == 1 + wheres_params(wsv).len(),
            forall|m: int|
                0 <= m < qb.exist_ins@.len() ==> qb_wf(
                    exist_view(#[trigger] qb.exist_ins@[m]).inner,
                ),
            out@ == out_w + join_and(wfr + exists_frags(qv.table, esv.take(j as int), *b, k_e)),
            params.deep_view() == wheres_params(wsv) + exists_params(esv.take(j as int)),
        decreases qb.exist_ins@.len() - j,
    {
        if qb.wheres.len() > 0 || j > 0 {
            out.append(" AND ");
        }
        let ghost taken = esv.take(j as int);
        let ghost p_a = params.deep_view();
        proof {
            lemma_exists_views_index(qb.exist_ins@, j as int);
            lemma_exists_frags_len(qv.table, taken, *b, k_e);
        }
        push_exists(out, params, qb.table.as_str(), &qb.exist_ins[j], b);
        proof {
            let et = exists_text(qv.table, esv[j as int], *b, k_e + exists_params(taken).len());
            let fr = wfr + exists_frags(qv.table, taken, *b, k_e);
            assert(esv.take(j + 1).drop_last() =~= taken);
            assert(esv.take(j + 1).last() == esv[j as int]);
            assert(exists_frags(qv.table, esv.take(j + 1), *b, k_e) =~= exists_frags(
                qv.table,
                taken,
                *b,
                k_e,
            ).push(et));
            assert(wfr + exists_frags(qv.table, esv.take(j + 1), *b, k_e) =~= fr.push(et));
            assert(fr.push(et).drop_last() =~= fr);
            assert(fr.push(et).last() == et);
            assert(et == exists_text(qv.table, exist_view(qb.exist_ins@[j as int]), *b, p_a.len() + 1));
            if fr.len() == 0 {
                assert(join_and(fr.push(et)) == et);
            } else {
                assert(join_and(fr.push(et)) == join_and(fr) + " AND "@ + et);
            }
            assert(out@ =~= out_w + join_and(
                wfr + exists_frags(qv.table, esv.take(j + 1), *b, k_e),
            ));
            assert(params.deep_view() =~= wheres_params(wsv) + exists_params(esv.take(j + 1)));
        }
        j = j + 1;
    }
    proof {
        assert(esv.take(qb.exist_ins@.len() as int) =~= esv);
        assert(out@ =~= out0 + where_text(qv, *b));
        assert(params.deep_view() =~= query_params(qv));
    }
}

/// Emit the ORDER BY part, in declared order.
fn push_order(out: &mut String, orderby: &Vec<OrderBy>)
    ensures
        final(out)@ == old(out)@ + order_text(orderbys_view(orderby@)),
{
    let ghost ov = orderbys_view(orderby@);
    let ghost out0 = out@;
    if orderby.len() == 0 {
        proof {
            assert(out@ =~= out0 + order_text(ov));
        }
        return ;
    }
    out.append(" ORDER BY ");
    let ghost out_o = out0 + " ORDER BY "@;
    let mut k: usize = 0;
    while k < orderby.len()
        invariant
            k <= orderby@.len(),
            ov == orderbys_view(orderby@),
            out@ == out_o + comma_join(order_frags(ov.take(k as int))),
        decreases orderby@.len() - k,
    {
        if k > 0 {
            out.append(", ");
        }
        let ghost taken = ov.take(k as int);
        out.append(orderby[k].col.as_str());
        match orderby[k].dir {
            Direction::Desc => out.append(" DESC"),
            Direction::Asc => out.append(" ASC"),
        }
        proof {
            let of = order_frag(ov[k as int]);
            let fr = order_frags(taken);
            lemma_order_frags_len(taken);
            assert(ov.take(k + 1).drop_last() =~= taken);
            assert(ov.take(k + 1).last() == ov[k as int]);
            assert(ov[k as int] == orderby@[k as int].deep_view());
            assert(order_frags(ov.take(k + 1)) =~= fr.push(of));
            assert(fr.push(of).drop_last() =~= fr);
            assert(fr.push(of).last() == of);
            if k == 0 {
                assert(comma_join(fr.push(of)) == of);
            } else {
                assert(comma_join(fr.push(of)) == comma_join(fr) + ", "@ + of);
            }
            assert(out@ =~= out_o + comma_join(order_frags(ov.take(k + 1))));
        }
        k = k + 1;
    }
    proof {
        assert(ov.take(orderby@.len() as int) =~= ov);
        assert(out@ =~= out0 + order_text(ov));
    }
}

/// Emit the `TOP n ` prefix where the backend calls for one.
fn push_top(out: &mut String, limit: &Option<i64>, offset: &Option<i64>, b: &Backend)
    ensures
        final(out)@ == old(out)@ + top_text(*limit, *offset, *b),
{
    let ghost out0 = out@;
    if offset.is_none() {
        if let Some(n) = limit {
            if let Backend::Mssql = b {
                out.append("TOP ");
                let d = i64_to_dec(*n);
                out.append(d.as_str());
                out.append(" ");
            }
        }
    }
    proof {
        assert(out@ =~= out0 + top_text(*limit, *offset, *b));
    }
}

/// Emit the trailing paging clause in the backend's form.
fn push_paging(out: &mut String, limit: &Option<i64>, offset: &Option<i64>, b: &Backend)
    ensures
        final(out)@ == old(out)@ + paging_text(*limit, *offset, *b),
{
    let ghost out0 = out@;
    if let Backend::Mssql = b {
        if let Some(m) = offset {
            out.append(" OFFSET ");
            let d = i64_to_dec(*m);
            out.append(d.as_str());
            out.append(" ROWS");
            if let Some(n) = limit {
                out.append(" FETCH NEXT ");
                let d2 = i64_to_dec(*n);
                out.append(d2.as_str());
                out.append(" ROWS ONLY");
            }
        }
    } else {
        if let Some(n) = limit {
            out.append(" LIMIT ");
            let d = i64_to_dec(*n);
            out.append(d.as_str());
        }
        if let Some(m) = offset {
            out.append(" OFFSET ");
            let d = i64_to_dec(*m);
            out.append(d.as_str());
        }
    }
    proof {
        assert(out@ =~= out0 + paging_text(*limit, *offset, *b));
    }
}

/// Render a composed query for a backend: the SQL text, and the bound
/// values in emission order.  Rendering is pure: the same builder and
/// backend always give exactly this text and this parameter list.
pub fn render(qb: &QueryBuilder, b: &Backend) -> (r: (String, Vec<Value>))
    requires
        qb_wf(qb_view(*qb)),
    ensures
        r.0@ == render_text(qb_view(*qb), *b),
        r.1.deep_view() == query_params(qb_view(*qb)),
{
    let ghost qv = qb_view(*qb);
    let mut out = String::new();
    let mut params: Vec<Value> = Vec::new();
    out.append("SELECT ");
    push_top(&mut out, &qb.limit, &qb.offset, b);
    out.append("* FROM ");
    out.append(qb.table.as_str());
    push_where(&mut out, &mut params, qb, b);
    push_order(&mut out, &qb.orderby);
    push_paging(&mut out, &qb.limit, &qb.offset, b);
    proof {
        assert(qv.limit == qb.limit);
        assert(qv.offset == qb.offset);
        assert(qv.orderby == orderbys_view(qb.orderby@));
        assert(out@ =~= render_text(qv, *b));
    }
    (out, params)
}

/// An ordering list renders one fragment per entry.
proof fn lemma_order_frags_len(os: Seq<OrderByV>)
    ensures
        order_frags(os).len() == os.len(),
    decreases os.len(),
{
    if os.len() > 0 {
        lemma_order_frags_len(os.drop_last());
    }
}

/// A subquery list and its model have the same length.
proof fn lemma_exists_views_len(s: Seq<ExistIn>)
    ensures
        exists_views(s).len() == s.len(),
    decreases s.len(),
{
    if s.len() > 0 {
        lemma_exists_views_len(s.drop_last());
    }
}

/// The model of the `i`-th EXISTS subquery is the `i`-th model.
proof fn lemma_exists_views_index(s: Seq<ExistIn>, i: int)
    requires
        0 <= i < s.len(),
    ensures
        exists_views(s).len() == s.len(),
        exists_views(s)[i] == exist_view(s[i]),
    decreases s.len(),
{
    lemma_exists_views_len(s);
    if s.len() > 0 {
        lemma_exists_views_len(s.drop_last());
        if i < s.len() - 1 {
            lemma_exists_views_index(s.drop_last(), i);
            assert(s.drop_last()[i] == s[i]);
        }
    }
}

} // verus!

