//! The relationship model: how two tables relate through a foreign-key
//! column pair.
//!
//! A [`Relationship`] is declared once per pair of related tables and
//! reused by every query built against either table; it is immutable and
//! carries no query-specific state.  Given a direction (following the
//! relationship, or inverting it), it resolves which side's column is
//! "my key" and which is "their key".

use vstd::prelude::*;

verus! {

/// Which side of the relationship holds the foreign key.
#[derive(Clone, Copy, PartialEq, Eq, Structural, Debug)]
pub enum RelationKind {
    /// The related table holds a foreign key pointing at this table's
    /// unique identifier.
    HasMany,
    /// This table holds a foreign key pointing at the related table's
    /// unique identifier.
    BelongsTo,
}

/// A declared relation between two tables: the join column on the local
/// table, the join column on the foreign table, and the foreign table's
/// identifier.
#[derive(Debug, Clone, PartialEq, Eq)]
pub struct Relationship {
    pub kind: RelationKind,
    pub local_key: String,
    pub foreign_key: String,
    pub foreign_table: String,
}

/// The mathematical model of a [`Relationship`].
#[verifier::ext_equal]
pub struct RelationshipV {
    pub kind: RelationKind,
    pub local_key: Seq<char>,
    pub foreign_key: Seq<char>,
    pub foreign_table: Seq<char>,
}

impl DeepView for Relationship {
    type V = RelationshipV;

    open spec fn deep_view(&self) -> RelationshipV {
        RelationshipV {
            kind: self.kind,
            local_key: self.local_key@,
            foreign_key: self.foreign_key@,
            foreign_table: self.foreign_table@,
        }
    }
}

impl Relationship {
    pub fn new(kind: RelationKind, local_key: &str, foreign_key: &str, foreign_table: &str) -> (r: Self)
        ensures
            r.deep_view() == (RelationshipV {
                kind: kind,
                local_key: local_key@,
                foreign_key: foreign_key@,
                foreign_table: foreign_table@,
            }),
    {
        Relationship {
            kind: kind,
            local_key: local_key.to_owned(),
            foreign_key: foreign_key.to_owned(),
            foreign_table: foreign_table.to_owned(),
        }
    }

    /// The join column on this side when the relationship is followed
    /// from the local table outward.
    pub fn my_key(&self) -> (r: &String)
        ensures
            r@ == self.deep_view().local_key,
    {
        &self.local_key
    }

    /// The join column on the related side when the relationship is
    /// followed from the local table outward.
    pub fn their_key(&self) -> (r: &String)
        ensures
            r@ == self.deep_view().foreign_key,
    {
        &self.foreign_key
    }
}

} // verus!
