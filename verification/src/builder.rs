//! The query builder: an un-executed query.
//!
//! A [`QueryBuilder`] collects clause values, relationship-following
//! EXISTS subqueries, ordering entries and paging bounds.  Every
//! combinator consumes `self` and returns a new value, so there is no
//! aliasing and no hidden mutation after a call returns.

use vstd::prelude::*;

use crate::clause::{clause_wf, ClauseColVal, ClauseV};
use crate::relation::Relationship;

verus! {

/// The direction of one ordering entry.
#[derive(Clone, Copy, PartialEq, Eq, Structural, Debug)]
pub enum Direction {
    Asc,
    Desc,
}

/// One ordering entry: a column and a direction.
#[derive(Debug, Clone, PartialEq, Eq)]
pub struct OrderBy {
    pub col: String,
    pub dir: Direction,
}

/// The mathematical model of an [`OrderBy`].
#[verifier::ext_equal]
pub struct OrderByV {
    pub col: Seq<char>,
    pub dir: Direction,
}

impl DeepView for OrderBy {
    type V = OrderByV;

    open spec fn deep_view(&self) -> OrderByV {
        OrderByV { col: self.col@, dir: self.dir }
    }
}

impl OrderBy {
    pub fn new(col: String, dir: Direction) -> (r: Self)
        ensures
            r.deep_view() == (OrderByV { col: col@, dir: dir }),
    {
        OrderBy { col: col, dir: dir }
    }
}

/// A correlated "a related row exists" predicate: the inner query,
/// restricted to rows whose `inner_column` equals the enclosing query's
/// `outer_column`.
#[derive(Debug)]
pub struct ExistIn {
    pub inner: Box<QueryBuilder>,
    pub outer_column: String,
    pub inner_table: String,
    pub inner_column: String,
}

/// An un-executed query over one table: WHERE clauses, EXISTS
/// subqueries, ordering and paging, all in insertion order.
#[derive(Debug)]
pub struct QueryBuilder {
    pub table: String,
    pub wheres: Vec<ClauseColVal>,
    pub exist_ins: Vec<ExistIn>,
    pub limit: Option<i64>,
    pub offset: Option<i64>,
    pub orderby: Vec<OrderBy>,
}

/// The mathematical model of an [`ExistIn`].
#[verifier::ext_equal]
pub struct ExistInV {
    pub inner: QueryBuilderV,
    pub outer_column: Seq<char>,
    pub inner_table: Seq<char>,
    pub inner_column: Seq<char>,
}

/// The mathematical model of a [`QueryBuilder`].
#[verifier::ext_equal]
pub struct QueryBuilderV {
    pub table: Seq<char>,
    pub wheres: Seq<ClauseV>,
    pub exist_ins: Seq<ExistInV>,
    pub limit: Option<i64>,
    pub offset: Option<i64>,
    pub orderby: Seq<OrderByV>,
}

/// The model of a sequence of clause values.
pub open spec fn clauses_view(s: Seq<ClauseColVal>) -> Seq<ClauseV> {
    s.map_values(|c: ClauseColVal| c.deep_view())
}

/// The model of a sequence of ordering entries.
pub open spec fn orderbys_view(s: Seq<OrderBy>) -> Seq<OrderByV> {
    s.map_values(|o: OrderBy| o.deep_view())
}

/// The model of a query builder.
pub open spec fn qb_view(qb: QueryBuilder) -> QueryBuilderV
    decreases qb,
{
    QueryBuilderV {
        table: qb.table@,
        wheres: clauses_view(qb.wheres@),
        exist_ins: exists_views(qb.exist_ins@),
        limit: qb.limit,
        offset: qb.offset,
        orderby: orderbys_view(qb.orderby@),
    }
}

/// The model of one EXISTS subquery.
pub open spec fn exist_view(e: ExistIn) -> ExistInV
    decreases e,
{
    ExistInV {
        inner: qb_view(*e.inner),
        outer_column: e.outer_column@,
        inner_table: e.inner_table@,
        inner_column: e.inner_column@,
    }
}

/// The model of a sequence of EXISTS subqueries.
pub open spec fn exists_views(s: Seq<ExistIn>) -> Seq<ExistInV>
    decreases s,
{
    if s.len() == 0 {
        Seq::empty()
    } else {
        exists_views(s.drop_last()).push(exist_view(s.last()))
    }
}

/// Invariant of a well-formed query: every clause is well formed, and so
/// is every nested inner query.
pub open spec fn qb_wf(q: QueryBuilderV) -> bool
    decreases q,
{
    (forall|i: int| 0 <= i < q.wheres.len() ==> clause_wf(#[trigger] q.wheres[i]))
        && (forall|i: int|
        0 <= i < q.exist_ins.len() ==> qb_wf(#[trigger] q.exist_ins[i].inner))
}

/// The empty query over one table.
pub open spec fn new_query(table: Seq<char>) -> QueryBuilderV {
    QueryBuilderV {
        table: table,
        wheres: Seq::empty(),
        exist_ins: Seq::empty(),
        limit: None,
        offset: None,
        orderby: Seq::empty(),
    }
}

/// What `where_col` does: append one clause, in call order.
pub open spec fn where_col_spec(q: QueryBuilderV, c: ClauseV) -> QueryBuilderV {
    QueryBuilderV { wheres: q.wheres.push(c), ..q }
}

/// What `where_relation` does: append an EXISTS subquery wrapping the
/// filter query, keyed my-key = their-key as the relationship declares.
pub open spec fn where_relation_spec(
    q: QueryBuilderV,
    rel: crate::relation::RelationshipV,
    filter: QueryBuilderV,
) -> QueryBuilderV {
    QueryBuilderV {
        exist_ins: q.exist_ins.push(
            ExistInV {
                inner: filter,
                outer_column: rel.local_key,
                inner_table: rel.foreign_table,
                inner_column: rel.foreign_key,
            },
        ),
        ..q
    }
}

/// What `map_query` does: wrap the whole query as the inner query of a
/// fresh builder for the related table, with the key roles of
/// `where_relation` mirrored.
pub open spec fn map_query_spec(
    q: QueryBuilderV,
    rel: crate::relation::RelationshipV,
) -> QueryBuilderV {
    QueryBuilderV {
        table: rel.foreign_table,
        wheres: Seq::empty(),
        exist_ins: seq![
            ExistInV {
                inner: q,
                outer_column: rel.foreign_key,
                inner_table: q.table,
                inner_column: rel.local_key,
            },
        ],
        limit: None,
        offset: None,
        orderby: Seq::empty(),
    }
}

/// The "my key" / "their key" pair that `map_query` joins on is the
/// mirror image of the pair that `where_relation` joins on for the same
/// relationship: the outer column of one is the inner column of the
/// other.
pub proof fn lemma_map_query_mirrors_where_relation(
    q: QueryBuilderV,
    rel: crate::relation::RelationshipV,
    filter: QueryBuilderV,
)
    ensures
        where_relation_spec(q, rel, filter).exist_ins.last().outer_column == map_query_spec(
            q,
            rel,
        ).exist_ins.last().inner_column,
        where_relation_spec(q, rel, filter).exist_ins.last().inner_column == map_query_spec(
            q,
            rel,
        ).exist_ins.last().outer_column,
{
}

impl QueryBuilder {
    pub fn new(table: &str) -> (r: Self)
        ensures
            qb_view(r) == new_query(table@),
            qb_wf(qb_view(r)),
    {
        let r = QueryBuilder {
            table: table.to_owned(),
            wheres: Vec::new(),
            exist_ins: Vec::new(),
            limit: None,
            offset: None,
            orderby: Vec::new(),
        };
        proof {
            assert(qb_view(r) =~~= new_query(table@));
        }
        r
    }

    /// Filter the rows returned by this query by one more clause; calls
    /// AND together, in call order.
    pub fn where_col(self, c: ClauseColVal) -> (r: Self)
        requires
            qb_wf(qb_view(self)),
            clause_wf(c.deep_view()),
        ensures
            qb_view(r) == where_col_spec(qb_view(self), c.deep_view()),
            qb_wf(qb_view(r)),
    {
        let ghost pre = qb_view(self);
        let mut s = self;
        s.wheres.push(c);
        proof {
            assert(clauses_view(s.wheres@) =~= pre.wheres.push(c.deep_view()));
            assert(qb_view(s) =~~= where_col_spec(pre, c.deep_view()));
        }
        s
    }

    /// Restrict this query to rows for which at least one row of the
    /// filter query relates through the given relationship: a semi-join,
    /// rendered as a correlated EXISTS, which never expands the outer
    /// row count.
    pub fn where_relation(self, relationship: &Relationship, filter: QueryBuilder) -> (r: Self)
        requires
            qb_wf(qb_view(self)),
            qb_wf(qb_view(filter)),
        ensures
            qb_view(r) == where_relation_spec(
                qb_view(self),
                relationship.deep_view(),
                qb_view(filter),
            ),
            qb_wf(qb_view(r)),
    {
        let ghost pre = qb_view(self);
        let ghost filterv = qb_view(filter);
        let e = ExistIn {
            inner: Box::new(filter),
            outer_column: relationship.my_key().clone(),
            inner_table: relationship.foreign_table.clone(),
            inner_column: relationship.their_key().clone(),
        };
        let ghost ev = exist_view(e);
        let mut s = self;
        s.exist_ins.push(e);
        proof {
            assert(s.exist_ins@.drop_last() =~= self.exist_ins@);
            assert(exists_views(s.exist_ins@) =~= pre.exist_ins.push(ev));
            assert(qb_view(s) =~~= where_relation_spec(pre, relationship.deep_view(), filterv));
        }
        s
    }

    /// Consume this query entirely and return a query for the related
    /// table whose sole predicate is that a row of this query exists:
    /// `where_relation` with the key roles mirrored.
    pub fn map_query(self, relationship: &Relationship) -> (r: QueryBuilder)
        requires
            qb_wf(qb_view(self)),
        ensures
            qb_view(r) == map_query_spec(qb_view(self), relationship.deep_view()),
            qb_wf(qb_view(r)),
    {
        let ghost pre = qb_view(self);
        let inner_table = self.table.clone();
        let e = ExistIn {
            outer_column: relationship.their_key().clone(),
            inner_table: inner_table,
            inner_column: relationship.my_key().clone(),
            inner: Box::new(self),
        };
        let ghost ev = exist_view(e);
        let mut r = QueryBuilder {
            table: relationship.foreign_table.clone(),
            wheres: Vec::new(),
            exist_ins: Vec::new(),
            limit: None,
            offset: None,
            orderby: Vec::new(),
        };
        r.exist_ins.push(e);
        proof {
            assert(r.exist_ins@.drop_last() =~= Seq::<ExistIn>::empty());
            assert(exists_views(r.exist_ins@) =~= seq![ev]);
            assert(qb_view(r) =~~= map_query_spec(pre, relationship.deep_view()));
        }
        r
    }

    /// Limit the number of rows returned; the last call wins.
    pub fn limit(self, x: i64) -> (r: Self)
        requires
            qb_wf(qb_view(self)),
        ensures
            qb_view(r) == (QueryBuilderV { limit: Some(x), ..qb_view(self) }),
            qb_wf(qb_view(r)),
    {
        let mut s = self;
        s.limit = Some(x);
        s
    }

    /// Offset the starting row of the results; the last call wins.
    pub fn offset(self, x: i64) -> (r: Self)
        requires
            qb_wf(qb_view(self)),
        ensures
            qb_view(r) == (QueryBuilderV { offset: Some(x), ..qb_view(self) }),
            qb_wf(qb_view(r)),
    {
        let mut s = self;
        s.offset = Some(x);
        s
    }

    /// Append a descending ordering entry; multiple calls make a
    /// multi-key sort whose primary key is the first call.
    pub fn order_by_desc(self, col: &str) -> (r: Self)
        requires
            qb_wf(qb_view(self)),
        ensures
            qb_view(r) == (QueryBuilderV {
                orderby: qb_view(self).orderby.push(OrderByV { col: col@, dir: Direction::Desc }),
                ..qb_view(self)
            }),
            qb_wf(qb_view(r)),
    {
        let ghost pre = qb_view(self);
        let mut s = self;
        s.orderby.push(OrderBy { col: col.to_owned(), dir: Direction::Desc });
        proof {
            assert(orderbys_view(s.orderby@) =~= pre.orderby.push(
                OrderByV { col: col@, dir: Direction::Desc },
            ));
            assert(qb_view(s) =~= (QueryBuilderV {
                orderby: pre.orderby.push(OrderByV { col: col@, dir: Direction::Desc }),
                ..pre
            }));
        }
        s
    }

    /// Append an ascending ordering entry; multiple calls make a
    /// multi-key sort whose primary key is the first call.
    pub fn order_by_asc(self, col: &str) -> (r: Self)
        requires
            qb_wf(qb_view(self)),
        ensures
            qb_view(r) == (QueryBuilderV {
                orderby: qb_view(self).orderby.push(OrderByV { col: col@, dir: Direction::Asc }),
                ..qb_view(self)
            }),
            qb_wf(qb_view(r)),
    {
        let ghost pre = qb_view(self);
        let mut s = self;
        s.orderby.push(OrderBy { col: col.to_owned(), dir: Direction::Asc });
        proof {
            assert(orderbys_view(s.orderby@) =~= pre.orderby.push(
                OrderByV { col: col@, dir: Direction::Asc },
            ));
            assert(qb_view(s) =~= (QueryBuilderV {
                orderby: pre.orderby.push(OrderByV { col: col@, dir: Direction::Asc }),
                ..pre
            }));
        }
        s
    }
}

} // verus!
