//! Typed predicate fragments (clause values) and the builder families that
//! construct them.
//!
//! A [`ClauseColVal`] is one WHERE-clause fragment: a column, a comparison
//! operator, and either a bound value or a null test.  The builder families
//! [`Basic`] / [`BasicOpt`] construct equality predicates for any value
//! type; [`Numeric`] / [`NumericOpt`] additionally offer the ordered
//! comparisons.  The `Opt` families accept a missing value and then turn
//! the predicate into `IS NULL` / `IS NOT NULL`.

use vstd::prelude::*;

verus! {

/// The comparison operator of one predicate fragment.
#[derive(Clone, Copy, PartialEq, Eq, Structural, Debug)]
pub enum Operator {
    Equal,
    NotEqual,
    Gt,
    Lt,
    Gte,
    Lte,
}

/// A value bound into a query positionally.
#[derive(Debug, Clone, PartialEq, Eq)]
pub enum Value {
    Int(i64),
    Text(String),
    Bool(bool),
}

/// The mathematical model of a [`Value`].
#[verifier::ext_equal]
pub enum ValueV {
    Int(int),
    Text(Seq<char>),
    Bool(bool),
}

impl View for Value {
    type V = ValueV;

    open spec fn view(&self) -> ValueV {
        match self {
            Value::Int(i) => ValueV::Int(*i as int),
            Value::Text(s) => ValueV::Text(s@),
            Value::Bool(b) => ValueV::Bool(*b),
        }
    }
}

impl DeepView for Value {
    type V = ValueV;

    open spec fn deep_view(&self) -> ValueV {
        self.view()
    }
}

impl Value {
    /// An exact copy; the original is untouched.
    pub fn duplicate(&self) -> (r: Value)
        ensures
            r@ == self@,
    {
        match self {
            Value::Int(i) => Value::Int(*i),
            Value::Text(s) => Value::Text(s.clone()),
            Value::Bool(b) => Value::Bool(*b),
        }
    }
}

/// One WHERE-clause fragment: `col <operator> <bound value>`, or a null
/// test when the source value represented "no value".
#[derive(Debug, Clone, PartialEq, Eq)]
pub struct ClauseColVal {
    pub isnull_clause: bool,
    pub col: String,
    pub operator: Operator,
    pub val: Option<Value>,
}

/// The mathematical model of a [`ClauseColVal`].
#[verifier::ext_equal]
pub struct ClauseV {
    pub isnull_clause: bool,
    pub col: Seq<char>,
    pub operator: Operator,
    pub val: Option<ValueV>,
}

impl DeepView for ClauseColVal {
    type V = ClauseV;

    open spec fn deep_view(&self) -> ClauseV {
        ClauseV {
            isnull_clause: self.isnull_clause,
            col: self.col@,
            operator: self.operator,
            val: self.val.deep_view(),
        }
    }
}

/// Invariant of a well-formed clause: it is a null test exactly when it
/// carries no bound value.
pub open spec fn clause_wf(c: ClauseV) -> bool {
    c.isnull_clause <==> c.val is None
}

/// Builder for equality predicates over a required (always present) value.
#[derive(Debug, Clone, PartialEq, Eq)]
pub struct Basic {
    pub field: String,
}

impl Basic {
    pub fn new(field: &str) -> (r: Self)
        ensures
            r.field@ == field@,
    {
        Basic { field: field.to_owned() }
    }

    pub fn equal(self, v: Value) -> (r: ClauseColVal)
        ensures
            r.deep_view() == (ClauseV {
                isnull_clause: false,
                col: self.field@,
                operator: Operator::Equal,
                val: Some(v@),
            }),
            clause_wf(r.deep_view()),
    {
        ClauseColVal {
            isnull_clause: false,
            col: self.field,
            operator: Operator::Equal,
            val: Some(v),
        }
    }

    pub fn not_equal(self, v: Value) -> (r: ClauseColVal)
        ensures
            r.deep_view() == (ClauseV {
                isnull_clause: false,
                col: self.field@,
                operator: Operator::NotEqual,
                val: Some(v@),
            }),
            clause_wf(r.deep_view()),
    {
        ClauseColVal {
            isnull_clause: false,
            col: self.field,
            operator: Operator::NotEqual,
            val: Some(v),
        }
    }
}

/// Builder for equality predicates over an optional value: a missing
/// value turns the predicate into a null test.
#[derive(Debug, Clone, PartialEq, Eq)]
pub struct BasicOpt {
    pub field: String,
}

impl BasicOpt {
    pub fn new(field: &str) -> (r: Self)
        ensures
            r.field@ == field@,
    {
        BasicOpt { field: field.to_owned() }
    }

    pub fn equal(self, v: Option<Value>) -> (r: ClauseColVal)
        ensures
            r.deep_view() == (ClauseV {
                isnull_clause: v is None,
                col: self.field@,
                operator: Operator::Equal,
                val: v.deep_view(),
            }),
            clause_wf(r.deep_view()),
    {
        ClauseColVal {
            isnull_clause: v.is_none(),
            col: self.field,
            operator: Operator::Equal,
            val: v,
        }
    }

    pub fn not_equal(self, v: Option<Value>) -> (r: ClauseColVal)
        ensures
            r.deep_view() == (ClauseV {
                isnull_clause: v is None,
                col: self.field@,
                operator: Operator::NotEqual,
                val: v.deep_view(),
            }),
            clause_wf(r.deep_view()),
    {
        ClauseColVal {
            isnull_clause: v.is_none(),
            col: self.field,
            operator: Operator::NotEqual,
            val: v,
        }
    }
}

/// Builder for predicates over a required ordered value: the equality
/// predicates plus the four comparisons.
#[derive(Debug, Clone, PartialEq, Eq)]
pub struct Numeric {
    pub field: String,
}

/// The clause a required numeric builder constructs: never a null test,
/// always binding the given integer.
pub open spec fn numeric_clause(field: Seq<char>, op: Operator, v: int) -> ClauseV {
    ClauseV { isnull_clause: false, col: field, operator: op, val: Some(ValueV::Int(v)) }
}

impl Numeric {
    pub fn new(field: &str) -> (r: Self)
        ensures
            r.field@ == field@,
    {
        Numeric { field: field.to_owned() }
    }

    pub fn equal(self, v: i64) -> (r: ClauseColVal)
        ensures
            r.deep_view() == numeric_clause(self.field@, Operator::Equal, v as int),
            clause_wf(r.deep_view()),
    {
        ClauseColVal {
            isnull_clause: false,
            col: self.field,
            operator: Operator::Equal,
            val: Some(Value::Int(v)),
        }
    }

    pub fn not_equal(self, v: i64) -> (r: ClauseColVal)
        ensures
            r.deep_view() == numeric_clause(self.field@, Operator::NotEqual, v as int),
            clause_wf(r.deep_view()),
    {
        ClauseColVal {
            isnull_clause: false,
            col: self.field,
            operator: Operator::NotEqual,
            val: Some(Value::Int(v)),
        }
    }

    pub fn gt(self, v: i64) -> (r: ClauseColVal)
        ensures
            r.deep_view() == numeric_clause(self.field@, Operator::Gt, v as int),
            clause_wf(r.deep_view()),
    {
        ClauseColVal {
            isnull_clause: false,
            col: self.field,
            operator: Operator::Gt,
            val: Some(Value::Int(v)),
        }
    }

    pub fn lt(self, v: i64) -> (r: ClauseColVal)
        ensures
            r.deep_view() == numeric_clause(self.field@, Operator::Lt, v as int),
            clause_wf(r.deep_view()),
    {
        ClauseColVal {
            isnull_clause: false,
            col: self.field,
            operator: Operator::Lt,
            val: Some(Value::Int(v)),
        }
    }

    pub fn gte(self, v: i64) -> (r: ClauseColVal)
        ensures
            r.deep_view() == numeric_clause(self.field@, Operator::Gte, v as int),
            clause_wf(r.deep_view()),
    {
        ClauseColVal {
            isnull_clause: false,
            col: self.field,
            operator: Operator::Gte,
            val: Some(Value::Int(v)),
        }
    }

    pub fn lte(self, v: i64) -> (r: ClauseColVal)
        ensures
            r.deep_view() == numeric_clause(self.field@, Operator::Lte, v as int),
            clause_wf(r.deep_view()),
    {
        ClauseColVal {
            isnull_clause: false,
            col: self.field,
            operator: Operator::Lte,
            val: Some(Value::Int(v)),
        }
    }
}

/// Builder for predicates over an optional ordered value; a missing value
/// turns the predicate into a null test whatever comparison was asked for.
#[derive(Debug, Clone, PartialEq, Eq)]
pub struct NumericOpt {
    pub field: String,
}

/// The clause an optional numeric builder constructs: a null test exactly
/// when no value was given.
pub open spec fn numeric_opt_clause(field: Seq<char>, op: Operator, v: Option<i64>) -> ClauseV {
    ClauseV {
        isnull_clause: v is None,
        col: field,
        operator: op,
        val: match v {
            Some(i) => Some(ValueV::Int(i as int)),
            None => None,
        },
    }
}

impl NumericOpt {
    pub fn new(field: &str) -> (r: Self)
        ensures
            r.field@ == field@,
    {
        NumericOpt { field: field.to_owned() }
    }

    fn clause(self, op: Operator, v: Option<i64>) -> (r: ClauseColVal)
        ensures
            r.deep_view() == numeric_opt_clause(self.field@, op, v),
            clause_wf(r.deep_view()),
    {
        ClauseColVal {
            isnull_clause: v.is_none(),
            col: self.field,
            operator: op,
            val: match v {
                Some(i) => Some(Value::Int(i)),
                None => None,
            },
        }
    }

    pub fn equal(self, v: Option<i64>) -> (r: ClauseColVal)
        ensures
            r.deep_view() == numeric_opt_clause(self.field@, Operator::Equal, v),
            clause_wf(r.deep_view()),
    {
        self.clause(Operator::Equal, v)
    }

    pub fn not_equal(self, v: Option<i64>) -> (r: ClauseColVal)
        ensures
            r.deep_view() == numeric_opt_clause(self.field@, Operator::NotEqual, v),
            clause_wf(r.deep_view()),
    {
        self.clause(Operator::NotEqual, v)
    }

    pub fn gt(self, v: Option<i64>) -> (r: ClauseColVal)
        ensures
            r.deep_view() == numeric_opt_clause(self.field@, Operator::Gt, v),
            clause_wf(r.deep_view()),
    {
        self.clause(Operator::Gt, v)
    }

    pub fn lt(self, v: Option<i64>) -> (r: ClauseColVal)
        ensures
            r.deep_view() == numeric_opt_clause(self.field@, Operator::Lt, v),
            clause_wf(r.deep_view()),
    {
        self.clause(Operator::Lt, v)
    }

    pub fn gte(self, v: Option<i64>) -> (r: ClauseColVal)
        ensures
            r.deep_view() == numeric_opt_clause(self.field@, Operator::Gte, v),
            clause_wf(r.deep_view()),
    {
        self.clause(Operator::Gte, v)
    }

    pub fn lte(self, v: Option<i64>) -> (r: ClauseColVal)
        ensures
            r.deep_view() == numeric_opt_clause(self.field@, Operator::Lte, v),
            clause_wf(r.deep_view()),
    {
        self.clause(Operator::Lte, v)
    }
}

} // verus!
