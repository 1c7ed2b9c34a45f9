//! The schema manifest: the persisted definition of one table or view,
//! and the merge that reconciles it with fresh database introspection.
//!
//! A [`Table`] is created once from an introspection result; on every
//! later run it is merged in place, unless its `manual_update` flag says
//! a user has taken ownership of the definition.  Columns are merged by
//! identity (`db_name`): dropped columns are removed, common columns are
//! refreshed in place keeping their position, and new columns are
//! appended in introspection order.  Backends accumulate across runs.

use vstd::prelude::*;

use crate::dialect::Backend;
use crate::inflect::{class_of, singular_of, snake_of, to_class_case, to_singular, to_snake_case};

verus! {

/// Whether an introspected definition is a table or a view.
#[derive(Clone, Copy, PartialEq, Eq, Structural, Debug)]
pub enum DataType {
    Table,
    View,
}

/// The manifest text of a definition's kind.
pub open spec fn kind_text(ty: DataType) -> Seq<char> {
    match ty {
        DataType::View => "view"@,
        DataType::Table => "table"@,
    }
}

/// The manifest text of a definition's kind.
pub fn type_str(ty: DataType) -> (r: &'static str)
    ensures
        r@ == kind_text(ty),
{
    proof {
        reveal_strlit("view");
        reveal_strlit("table");
    }
    match ty {
        DataType::View => "view",
        DataType::Table => "table",
    }
}

/// How the database identifies a table: its name, and its schema where
/// the backend has schemas.
#[derive(Debug, Clone, PartialEq, Eq)]
pub struct TableIdent {
    pub schema: Option<String>,
    pub name: String,
}

/// The mathematical model of a [`TableIdent`].
#[verifier::ext_equal]
pub struct TableIdentV {
    pub schema: Option<Seq<char>>,
    pub name: Seq<char>,
}

impl DeepView for TableIdent {
    type V = TableIdentV;

    open spec fn deep_view(&self) -> TableIdentV {
        TableIdentV { schema: self.schema.deep_view(), name: self.name@ }
    }
}

/// One introspected column: its database name, type and nullability.
#[derive(Debug, Clone, PartialEq, Eq)]
pub struct ColumnDef {
    pub name: String,
    pub ty: String,
    pub null: bool,
}

/// The mathematical model of a [`ColumnDef`].
#[verifier::ext_equal]
pub struct ColumnDefV {
    pub name: Seq<char>,
    pub ty: Seq<char>,
    pub null: bool,
}

impl DeepView for ColumnDef {
    type V = ColumnDefV;

    open spec fn deep_view(&self) -> ColumnDefV {
        ColumnDefV { name: self.name@, ty: self.ty@, null: self.null }
    }
}

/// One declared relation between two tables, as introspected and as
/// persisted: both sides are replaced wholesale on every merge.
#[derive(Debug, Clone, PartialEq, Eq)]
pub struct Relation {
    pub name: String,
    pub foreign_table: String,
    pub foreign_key: String,
}

/// The mathematical model of a [`Relation`].
#[verifier::ext_equal]
pub struct RelationV {
    pub name: Seq<char>,
    pub foreign_table: Seq<char>,
    pub foreign_key: Seq<char>,
}

impl DeepView for Relation {
    type V = RelationV;

    open spec fn deep_view(&self) -> RelationV {
        RelationV {
            name: self.name@,
            foreign_table: self.foreign_table@,
            foreign_key: self.foreign_key@,
        }
    }
}

/// A freshly introspected table definition: the input of a merge.
#[derive(Debug, Clone, PartialEq, Eq)]
pub struct TableDef {
    pub ident: TableIdent,
    pub ty: DataType,
    pub columns: Vec<ColumnDef>,
    pub belongs_to: Vec<Relation>,
    pub has_many: Vec<Relation>,
}

/// The mathematical model of a [`TableDef`].
#[verifier::ext_equal]
pub struct TableDefV {
    pub ident: TableIdentV,
    pub ty: DataType,
    pub columns: Seq<ColumnDefV>,
    pub belongs_to: Seq<RelationV>,
    pub has_many: Seq<RelationV>,
}

impl DeepView for TableDef {
    type V = TableDefV;

    open spec fn deep_view(&self) -> TableDefV {
        TableDefV {
            ident: self.ident.deep_view(),
            ty: self.ty,
            columns: self.columns.deep_view(),
            belongs_to: self.belongs_to.deep_view(),
            has_many: self.has_many.deep_view(),
        }
    }
}

/// One persisted manifest column; its identity across merges is
/// `db_name`.
#[derive(Debug, Clone, PartialEq, Eq)]
pub struct Column {
    pub db_name: String,
    pub ty: String,
    pub null: bool,
}

/// The mathematical model of a [`Column`].
#[verifier::ext_equal]
pub struct ColumnV {
    pub db_name: Seq<char>,
    pub ty: Seq<char>,
    pub null: bool,
}

impl DeepView for Column {
    type V = ColumnV;

    open spec fn deep_view(&self) -> ColumnV {
        ColumnV { db_name: self.db_name@, ty: self.ty@, null: self.null }
    }
}

/// The persisted manifest of one table or view.
#[derive(Debug, Clone, PartialEq, Eq)]
pub struct Table {
    pub schema: Option<String>,
    pub name: String,
    pub manual_update: bool,
    pub model: Option<String>,
    pub kind: String,
    pub columns: Vec<Column>,
    pub belongs_to: Vec<Relation>,
    pub has_many: Vec<Relation>,
    pub databases: Vec<Backend>,
}

/// The mathematical model of a [`Table`].
#[verifier::ext_equal]
pub struct TableV {
    pub schema: Option<Seq<char>>,
    pub name: Seq<char>,
    pub manual_update: bool,
    pub model: Option<Seq<char>>,
    pub kind: Seq<char>,
    pub columns: Seq<ColumnV>,
    pub belongs_to: Seq<RelationV>,
    pub has_many: Seq<RelationV>,
    pub databases: Seq<Backend>,
}

impl DeepView for Table {
    type V = TableV;

    open spec fn deep_view(&self) -> TableV {
        TableV {
            schema: self.schema.deep_view(),
            name: self.name@,
            manual_update: self.manual_update,
            model: self.model.deep_view(),
            kind: self.kind@,
            columns: self.columns.deep_view(),
            belongs_to: self.belongs_to.deep_view(),
            has_many: self.has_many.deep_view(),
            databases: self.databases@,
        }
    }
}

/// Whether the introspected list has a column of the given name.
pub open spec fn def_has_col(fresh: Seq<ColumnDefV>, name: Seq<char>) -> bool {
    exists|i: int| 0 <= i < fresh.len() && fresh[i].name == name
}

/// Whether the manifest list has a column of the given name.
pub open spec fn has_col(cols: Seq<ColumnV>, name: Seq<char>) -> bool {
    exists|i: int| 0 <= i < cols.len() && cols[i].db_name == name
}

/// The first introspected column of the given name.
pub open spec fn first_def_with(fresh: Seq<ColumnDefV>, name: Seq<char>) -> ColumnDefV
    decreases fresh.len(),
{
    if fresh.len() == 0 {
        ColumnDefV { name: name, ty: Seq::empty(), null: false }
    } else if fresh.first().name == name {
        fresh.first()
    } else {
        first_def_with(fresh.drop_first(), name)
    }
}

/// A manifest column refreshed from its introspected counterpart:
/// identity kept, attributes replaced.
pub open spec fn refreshed(c: ColumnV, f: ColumnDefV) -> ColumnV {
    ColumnV { db_name: c.db_name, ty: f.ty, null: f.null }
}

/// The manifest column a new introspected column becomes.
pub open spec fn new_col(f: ColumnDefV) -> ColumnV {
    ColumnV { db_name: f.name, ty: f.ty, null: f.null }
}

/// The manifest columns that survive a merge: those the fresh
/// introspection still has, in their old order, each refreshed.
pub open spec fn kept_columns(old: Seq<ColumnV>, fresh: Seq<ColumnDefV>) -> Seq<ColumnV>
    decreases old.len(),
{
    if old.len() == 0 {
        Seq::empty()
    } else {
        kept_columns(old.drop_last(), fresh) + (if def_has_col(fresh, old.last().db_name) {
            seq![refreshed(old.last(), first_def_with(fresh, old.last().db_name))]
        } else {
            Seq::empty()
        })
    }
}

/// The columns a merge appends: those of the fresh introspection the
/// manifest did not have, in introspection order.
pub open spec fn added_columns(old: Seq<ColumnV>, fresh: Seq<ColumnDefV>) -> Seq<ColumnV>
    decreases fresh.len(),
{
    if fresh.len() == 0 {
        Seq::empty()
    } else {
        added_columns(old, fresh.drop_last()) + (if has_col(old, fresh.last().name) {
            Seq::empty()
        } else {
            seq![new_col(fresh.last())]
        })
    }
}

/// What merging a column list against fresh introspection yields.
pub open spec fn merged_columns(old: Seq<ColumnV>, fresh: Seq<ColumnDefV>) -> Seq<ColumnV> {
    kept_columns(old, fresh) + added_columns(old, fresh)
}

/// What a whole-manifest merge yields when the manifest is not under
/// manual control: name, schema, kind and relations replaced wholesale,
/// columns merged by identity, the backend accumulated.
pub open spec fn merged_table(t: TableV, d: TableDefV, p: Backend) -> TableV {
    TableV {
        schema: d.ident.schema,
        name: d.ident.name,
        manual_update: t.manual_update,
        model: t.model,
        kind: kind_text(d.ty),
        columns: merged_columns(t.columns, d.columns),
        belongs_to: d.belongs_to,
        has_many: d.has_many,
        databases: if t.databases.contains(p) {
            t.databases
        } else {
            t.databases.push(p)
        },
    }
}

/// If the first match for a name sits at position `i`, it is what
/// `first_def_with` resolves to.
proof fn lemma_first_def_with(fresh: Seq<ColumnDefV>, name: Seq<char>, i: int)
    requires
        0 <= i < fresh.len(),
        fresh[i].name == name,
        forall|j: int| 0 <= j < i ==> fresh[j].name != name,
    ensures
        def_has_col(fresh, name),
        first_def_with(fresh, name) == fresh[i],
    decreases i,
{
    if i > 0 {
        lemma_first_def_with(fresh.drop_first(), name, i - 1);
    }
}

/// Find the first introspected column of the given name.
fn find_def(cols: &Vec<ColumnDef>, name: &String) -> (r: Option<usize>)
    ensures
        match r {
            Some(j) => j < cols@.len() && def_has_col(cols.deep_view(), name@)
                && cols@[j as int].deep_view() == first_def_with(cols.deep_view(), name@),
            None => !def_has_col(cols.deep_view(), name@),
        },
{
    let mut i: usize = 0;
    while i < cols.len()
        invariant
            i <= cols@.len(),
            forall|k: int| 0 <= k < i ==> (#[trigger] cols@[k].deep_view()).name != name@,
        decreases cols@.len() - i,
    {
        if cols[i].name.eq(name) {
            proof {
                lemma_first_def_with(cols.deep_view(), name@, i as int);
            }
            return Some(i);
        }
        i = i + 1;
    }
    proof {
        assert forall|k: int| 0 <= k < cols.deep_view().len() implies (#[trigger] cols.deep_view()[k]).name
            != name@ by {
            assert(cols.deep_view()[k] == cols@[k].deep_view());
        }
    }
    None
}

/// Whether the manifest's column list already has the given name.
fn col_list_has(cols: &Vec<Column>, name: &String) -> (r: bool)
    ensures
        r == has_col(cols.deep_view(), name@),
{
    let mut i: usize = 0;
    while i < cols.len()
        invariant
            i <= cols@.len(),
            forall|k: int| 0 <= k < i ==> (#[trigger] cols@[k].deep_view()).db_name != name@,
        decreases cols@.len() - i,
    {
        if cols[i].db_name.eq(name) {
            proof {
                assert(cols.deep_view()[i as int].db_name == name@);
            }
            return true;
        }
        i = i + 1;
    }
    proof {
        assert forall|k: int| 0 <= k < cols.deep_view().len() implies (#[trigger] cols.deep_view()[k]).db_name
            != name@ by {
            assert(cols.deep_view()[k] == cols@[k].deep_view());
        }
    }
    false
}

/// Whether the manifest already lists the given backend.
fn contains_backend(dbs: &Vec<Backend>, p: &Backend) -> (r: bool)
    ensures
        r == dbs@.contains(*p),
{
    let mut i: usize = 0;
    while i < dbs.len()
        invariant
            i <= dbs@.len(),
            forall|k: int| 0 <= k < i ==> dbs@[k] != *p,
        decreases dbs@.len() - i,
    {
        if dbs[i] == *p {
            return true;
        }
        i = i + 1;
    }
    false
}

/// An exact copy of a relation list; the original is untouched.
fn clone_relations(v: &Vec<Relation>) -> (r: Vec<Relation>)
    ensures
        r.deep_view() == v.deep_view(),
{
    let mut r: Vec<Relation> = Vec::new();
    let mut i: usize = 0;
    while i < v.len()
        invariant
            i <= v@.len(),
            r.deep_view() == v.deep_view().take(i as int),
        decreases v@.len() - i,
    {
        let rel = Relation {
            name: v[i].name.clone(),
            foreign_table: v[i].foreign_table.clone(),
            foreign_key: v[i].foreign_key.clone(),
        };
        proof {
            assert(rel.deep_view() == v@[i as int].deep_view());
            assert(v.deep_view()[i as int] == v@[i as int].deep_view());
        }
        let ghost rpre = r@;
        proof {
            assert(r.deep_view().len() == rpre.len());
            assert(v.deep_view().take(i as int).len() == i);
        }
        r.push(rel);
        proof {
            let rnew = r.deep_view();
            let target = v.deep_view().take(i + 1);
            assert(rpre.len() == i);
            assert(r@.len() == i + 1);
            assert(rnew.len() == target.len());
            assert forall|k: int| 0 <= k < rnew.len() implies rnew[k] == target[k] by {
                assert(rnew[k] == r@[k].deep_view());
                if k < i {
                    assert(r@[k] == rpre[k]);
                    assert(rpre[k].deep_view() == v.deep_view().take(i as int)[k]);
                }
            }
            assert(rnew =~= target);
        }
        i = i + 1;
    }
    proof {
        assert(v.deep_view().take(v@.len() as int) =~= v.deep_view());
    }
    r
}

/// An exact copy of an optional string; the original is untouched.
fn clone_opt_string(v: &Option<String>) -> (r: Option<String>)
    ensures
        r.deep_view() == v.deep_view(),
{
    match v {
        Some(s) => Some(s.clone()),
        None => None,
    }
}

impl Column {
    /// The manifest column a newly introspected column becomes.
    pub fn new(col: &ColumnDef) -> (r: Self)
        ensures
            r.deep_view() == new_col(col.deep_view()),
    {
        Column { db_name: col.name.clone(), ty: col.ty.clone(), null: col.null }
    }

    /// Refresh the column's attributes from introspection, keeping its
    /// identity.
    pub fn update_from(&mut self, col: &ColumnDef)
        ensures
            final(self).deep_view() == refreshed(old(self).deep_view(), col.deep_view()),
    {
        self.ty = col.ty.clone();
        self.null = col.null;
    }
}

impl Table {
    /// The manifest a first introspection run creates: not under manual
    /// control, no model-name override, every column fresh, supporting
    /// the one backend it was created against.
    pub fn new(table_def: &TableDef, provider: Backend) -> (r: Self)
        ensures
            r.deep_view() == new_table(table_def.deep_view(), provider),
    {
        let mut databases: Vec<Backend> = Vec::new();
        databases.push(provider);
        let mut t = Table {
            manual_update: false,
            name: table_def.ident.name.clone(),
            schema: clone_opt_string(&table_def.ident.schema),
            model: None,
            columns: Vec::new(),
            kind: type_str(table_def.ty).to_owned(),
            belongs_to: clone_relations(&table_def.belongs_to),
            has_many: clone_relations(&table_def.has_many),
            databases: databases,
        };
        proof {
            assert(t.columns.deep_view() =~= Seq::<ColumnV>::empty());
            assert(t.databases@ =~= seq![provider]);
        }
        t.update_cols_from(&table_def.columns);
        t
    }

    /// Merge fresh introspection into this manifest: a no-op when a
    /// user has taken ownership through `manual_update`, else name,
    /// schema, kind and relations are replaced wholesale, columns are
    /// merged by identity, and the backend is added if it was missing.
    pub fn update_from(&mut self, table_def: &TableDef, provider: Backend)
        ensures
            old(self).manual_update ==> final(self).deep_view() == old(self).deep_view(),
            !old(self).manual_update ==> final(self).deep_view() == merged_table(
                old(self).deep_view(),
                table_def.deep_view(),
                provider,
            ),
    {
        if self.manual_update {
            return ;
        }
        self.name = table_def.ident.name.clone();
        self.schema = clone_opt_string(&table_def.ident.schema);
        self.kind = type_str(table_def.ty).to_owned();
        self.belongs_to = clone_relations(&table_def.belongs_to);
        self.has_many = clone_relations(&table_def.has_many);
        self.update_cols_from(&table_def.columns);
        if !contains_backend(&self.databases, &provider) {
            self.databases.push(provider);
        }
        proof {
            assert(self.deep_view() =~= merged_table(
                old(self).deep_view(),
                table_def.deep_view(),
                provider,
            ));
        }
    }

    /// Merge the column list by identity: dropped columns removed,
    /// common columns refreshed in their old position, new columns
    /// appended in introspection order.
    pub fn update_cols_from(&mut self, cols: &Vec<ColumnDef>)
        ensures
            final(self).deep_view() == (TableV {
                columns: merged_columns(old(self).deep_view().columns, cols.deep_view()),
                ..old(self).deep_view()
            }),
    {
        let ghost oldcols = self.columns.deep_view();
        let ghost fresh = cols.deep_view();
        let mut result: Vec<Column> = Vec::new();
        proof {
            assert(result.deep_view() =~= kept_columns(oldcols.take(0), fresh));
        }
        let mut i: usize = 0;
        while i < self.columns.len()
            invariant
                i <= self.columns@.len(),
                *self == *old(self),
                oldcols == self.columns.deep_view(),
                fresh == cols.deep_view(),
                result.deep_view() == kept_columns(oldcols.take(i as int), fresh),
            decreases self.columns@.len() - i,
        {
            let ghost taken = oldcols.take(i as int);
            match find_def(cols, &self.columns[i].db_name) {
                Some(j) => {
                    result.push(
                        Column {
                            db_name: self.columns[i].db_name.clone(),
                            ty: cols[j].ty.clone(),
                            null: cols[j].null,
                        },
                    );
                    proof {
                        assert(oldcols[i as int] == self.columns@[i as int].deep_view());
                        assert(oldcols.take(i + 1).drop_last() =~= taken);
                        assert(oldcols.take(i + 1).last() == oldcols[i as int]);
                        assert(result.deep_view() =~= kept_columns(taken, fresh) + seq![
                            refreshed(
                                oldcols[i as int],
                                first_def_with(fresh, oldcols[i as int].db_name),
                            ),
                        ]);
                        assert(result.deep_view() =~= kept_columns(oldcols.take(i + 1), fresh));
                    }
                },
                None => {
                    proof {
                        assert(oldcols[i as int] == self.columns@[i as int].deep_view());
                        assert(oldcols.take(i + 1).drop_last() =~= taken);
                        assert(oldcols.take(i + 1).last() == oldcols[i as int]);
                        assert(kept_columns(taken, fresh) + Seq::<ColumnV>::empty()
                            =~= kept_columns(taken, fresh));
                        assert(result.deep_view() =~= kept_columns(oldcols.take(i + 1), fresh));
                    }
                },
            }
            i = i + 1;
        }
        proof {
            assert(oldcols.take(self.columns@.len() as int) =~= oldcols);
        }

        let mut j: usize = 0;
        while j < cols.len()
            invariant
                j <= cols@.len(),
                *self == *old(self),
                oldcols == self.columns.deep_view(),
                fresh == cols.deep_view(),
                result.deep_view() == kept_columns(oldcols, fresh) + added_columns(
                    oldcols,
                    fresh.take(j as int),
                ),
            decreases cols@.len() - j,
        {
            let ghost taken = fresh.take(j as int);
            let ghost res_pre = result.deep_view();
            proof {
                assert(result.deep_view().len() == result@.len());
                assert(fresh[j as int] == cols@[j as int].deep_view());
                assert(fresh.take(j + 1).drop_last() =~= taken);
                assert(fresh.take(j + 1).last() == fresh[j as int]);
            }
            let present = col_list_has(&self.columns, &cols[j].name);
            if !present {
                result.push(Column::new(&cols[j]));
                proof {
                    let nc = new_col(fresh[j as int]);
                    assert(result.deep_view() =~= res_pre.push(nc));
                    assert(added_columns(oldcols, fresh.take(j + 1)) == added_columns(
                        oldcols,
                        taken,
                    ) + seq![nc]);
                    assert(result.deep_view() =~= kept_columns(oldcols, fresh) + added_columns(
                        oldcols,
                        fresh.take(j + 1),
                    ));
                }
            } else {
                proof {
                    assert(added_columns(oldcols, taken) + Seq::<ColumnV>::empty()
                        =~= added_columns(oldcols, taken));
                    assert(result.deep_view() =~= kept_columns(oldcols, fresh) + added_columns(
                        oldcols,
                        fresh.take(j + 1),
                    ));
                }
            }
            j = j + 1;
        }
        proof {
            assert(fresh.take(cols@.len() as int) =~= fresh);
        }
        self.columns = result;
        proof {
            assert(self.deep_view() =~= (TableV {
                columns: merged_columns(old(self).deep_view().columns, cols.deep_view()),
                ..old(self).deep_view()
            }));
        }
    }

    /// How the database identifies this table.
    pub fn ident(&self) -> (r: TableIdent)
        ensures
            r.deep_view() == (TableIdentV {
                schema: self.deep_view().schema,
                name: self.deep_view().name,
            }),
    {
        TableIdent { name: self.name.clone(), schema: clone_opt_string(&self.schema) }
    }

    /// The name of the module the generated code for this table lives
    /// in: the model-name override, or the singularized table name,
    /// snake-cased.
    pub fn module_name(&self) -> (r: String)
        ensures
            r@ == snake_of(base_model_name(self.deep_view())),
    {
        let start: String = match &self.model {
            Some(s) => s.clone(),
            None => to_singular(self.name.as_str()),
        };
        to_snake_case(start.as_str())
    }

    /// The name of the structure generated for this table: the
    /// model-name override, or the singularized table name, class-cased.
    pub fn struct_name(&self) -> (r: String)
        ensures
            r@ == class_of(base_model_name(self.deep_view())),
    {
        let start: String = match &self.model {
            Some(s) => s.clone(),
            None => to_singular(self.name.as_str()),
        };
        to_class_case(start.as_str())
    }
}

/// The name generated code derives this table's names from: the
/// model-name override where a user set one, else the singularized
/// table name.
pub open spec fn base_model_name(t: TableV) -> Seq<char> {
    match t.model {
        Some(m) => m,
        None => singular_of(t.name),
    }
}

/// The manifest a first introspection run creates.
pub open spec fn new_table(d: TableDefV, p: Backend) -> TableV {
    TableV {
        schema: d.ident.schema,
        name: d.ident.name,
        manual_update: false,
        model: None,
        kind: kind_text(d.ty),
        columns: merged_columns(Seq::empty(), d.columns),
        belongs_to: d.belongs_to,
        has_many: d.has_many,
        databases: seq![p],
    }
}

/// The one failure a merge can signal: the previous manifest and the
/// fresh introspection describe different tables.
#[derive(Debug, Clone, Copy, PartialEq, Eq, Structural)]
pub enum MergeError {
    IdentityMismatch,
}

/// Whether two optional schema names are the same.
fn opt_str_eq(a: &Option<String>, b: &Option<String>) -> (r: bool)
    ensures
        r == (a.deep_view() == b.deep_view()),
{
    match (a, b) {
        (Some(x), Some(y)) => x.eq(y),
        (None, None) => true,
        _ => {
            proof {
                assert(a.deep_view() != b.deep_view());
            }
            false
        },
    }
}

/// Reconcile fresh introspection with the previous manifest for one
/// table identity.  With no previous manifest the fresh definition
/// becomes a new manifest; with one, it is merged in place — unless the
/// two identities disagree, which is signalled and never silently
/// merged.  The merge succeeds exactly when there is no previous
/// manifest or the identities agree.
pub fn merge_manifest(previous: Option<Table>, fresh: &TableDef, provider: Backend) -> (r: Result<
    Table,
    MergeError,
>)
    ensures
        previous is None ==> r is Ok && r.unwrap().deep_view() == new_table(fresh.deep_view(), provider),
        previous is Some ==> {
            let p = previous.unwrap().deep_view();
            let matches = p.name == fresh.deep_view().ident.name && p.schema == fresh.deep_view().ident.schema;
            &&& (r is Ok <==> matches)
            &&& matches ==> r.unwrap().deep_view() == (if p.manual_update {
                p
            } else {
                merged_table(p, fresh.deep_view(), provider)
            })
            &&& !matches ==> r == Result::<Table, MergeError>::Err(MergeError::IdentityMismatch)
        },
{
    match previous {
        None => Ok(Table::new(fresh, provider)),
        Some(mut p) => {
            if p.name.eq(&fresh.ident.name) && opt_str_eq(&p.schema, &fresh.ident.schema) {
                p.update_from(fresh, provider);
                Ok(p)
            } else {
                Err(MergeError::IdentityMismatch)
            }
        },
    }
}

/// Column identity is `db_name`: a well-formed introspection result
/// names each column once.
pub open spec fn unique_def_names(fresh: Seq<ColumnDefV>) -> bool {
    forall|i: int, j: int| 0 <= i < j < fresh.len() ==> fresh[i].name != fresh[j].name
}

/// A column list that a second merge against the same introspection
/// would keep unchanged, element by element.
pub open spec fn merge_stable(cols: Seq<ColumnV>, fresh: Seq<ColumnDefV>) -> bool {
    forall|i: int|
        0 <= i < cols.len() ==> def_has_col(fresh, (#[trigger] cols[i]).db_name) && refreshed(
            cols[i],
            first_def_with(fresh, cols[i].db_name),
        ) == cols[i]
}

/// A name occurs in a concatenation exactly when it occurs in a part.
proof fn lemma_has_col_append(a: Seq<ColumnV>, b: Seq<ColumnV>, n: Seq<char>)
    ensures
        has_col(a + b, n) <==> (has_col(a, n) || has_col(b, n)),
{
    if has_col(a, n) {
        let i = choose|i: int| 0 <= i < a.len() && a[i].db_name == n;
        assert((a + b)[i].db_name == n);
    }
    if has_col(b, n) {
        let i = choose|i: int| 0 <= i < b.len() && b[i].db_name == n;
        assert((a + b)[a.len() + i].db_name == n);
    }
    if has_col(a + b, n) {
        let i = choose|i: int| 0 <= i < (a + b).len() && (a + b)[i].db_name == n;
        if i < a.len() {
            assert(a[i].db_name == n);
        } else {
            assert(b[i - a.len()].db_name == n);
        }
    }
}

/// The first matching introspected column really has the asked-for name.
proof fn lemma_first_def_name(fresh: Seq<ColumnDefV>, n: Seq<char>)
    requires
        def_has_col(fresh, n),
    ensures
        first_def_with(fresh, n).name == n,
    decreases fresh.len(),
{
    if fresh.first().name == n {
    } else {
        let i = choose|i: int| 0 <= i < fresh.len() && fresh[i].name == n;
        assert(fresh.drop_first()[i - 1].name == n);
        lemma_first_def_name(fresh.drop_first(), n);
    }
}

/// With unique names, each introspected column is the first of its name.
proof fn lemma_unique_first(fresh: Seq<ColumnDefV>, j: int)
    requires
        unique_def_names(fresh),
        0 <= j < fresh.len(),
    ensures
        def_has_col(fresh, fresh[j].name),
        first_def_with(fresh, fresh[j].name) == fresh[j],
{
    lemma_first_def_with(fresh, fresh[j].name, j);
}

/// A name survives into the kept columns exactly when the old manifest
/// and the fresh introspection both have it.
proof fn lemma_kept_membership(old: Seq<ColumnV>, fresh: Seq<ColumnDefV>, n: Seq<char>)
    ensures
        has_col(kept_columns(old, fresh), n) <==> (has_col(old, n) && def_has_col(fresh, n)),
    decreases old.len(),
{
    if old.len() == 0 {
    } else {
        let dl = old.drop_last();
        lemma_kept_membership(dl, fresh, n);
        let tail: Seq<ColumnV> = if def_has_col(fresh, old.last().db_name) {
            seq![refreshed(old.last(), first_def_with(fresh, old.last().db_name))]
        } else {
            Seq::empty()
        };
        lemma_has_col_append(kept_columns(dl, fresh), tail, n);
        assert(old =~= dl + seq![old.last()]);
        lemma_has_col_append(dl, seq![old.last()], n);
        if has_col(tail, n) {
            assert(tail[0].db_name == old.last().db_name);
        }
        if has_col(seq![old.last()], n) {
            assert(seq![old.last()][0].db_name == n);
        }
        if old.last().db_name == n {
            assert(seq![old.last()][0].db_name == n);
            if def_has_col(fresh, n) {
                assert(tail[0].db_name == n);
            }
        }
    }
}

/// A name is appended exactly when the fresh introspection has it and
/// the old manifest does not.
proof fn lemma_added_membership(old: Seq<ColumnV>, fresh: Seq<ColumnDefV>, n: Seq<char>)
    ensures
        has_col(added_columns(old, fresh), n) <==> (def_has_col(fresh, n) && !has_col(old, n)),
    decreases fresh.len(),
{
    if fresh.len() == 0 {
    } else {
        let dl = fresh.drop_last();
        lemma_added_membership(old, dl, n);
        let tail: Seq<ColumnV> = if has_col(old, fresh.last().name) {
            Seq::empty()
        } else {
            seq![new_col(fresh.last())]
        };
        lemma_has_col_append(added_columns(old, dl), tail, n);
        if def_has_col(dl, n) {
            let i = choose|i: int| 0 <= i < dl.len() && dl[i].name == n;
            assert(fresh[i].name == n);
        }
        if has_col(tail, n) {
            assert(tail[0].db_name == fresh.last().name);
        }
        if def_has_col(fresh, n) && !def_has_col(dl, n) {
            let i = choose|i: int| 0 <= i < fresh.len() && fresh[i].name == n;
            if i < fresh.len() - 1 {
                assert(dl[i].name == n);
            }
            assert(fresh.last().name == n);
            if !has_col(old, n) {
                assert(tail[0].db_name == n);
            }
        }
    }
}

/// The kept columns are merge-stable: a second refresh from the same
/// introspection changes none of them.
proof fn lemma_kept_stable(old: Seq<ColumnV>, fresh: Seq<ColumnDefV>)
    ensures
        merge_stable(kept_columns(old, fresh), fresh),
    decreases old.len(),
{
    if old.len() == 0 {
    } else {
        let dl = old.drop_last();
        lemma_kept_stable(dl, fresh);
        let k = kept_columns(old, fresh);
        let kdl = kept_columns(dl, fresh);
        assert forall|i: int| 0 <= i < k.len() implies def_has_col(
            fresh,
            (#[trigger] k[i]).db_name,
        ) && refreshed(k[i], first_def_with(fresh, k[i].db_name)) == k[i] by {
            if i < kdl.len() {
                assert(k[i] == kdl[i]);
            } else {
                let c = old.last();
                assert(def_has_col(fresh, c.db_name));
                let f = first_def_with(fresh, c.db_name);
                lemma_first_def_name(fresh, c.db_name);
                assert(k[i] == refreshed(c, f));
                assert(refreshed(refreshed(c, f), f) == refreshed(c, f));
            }
        }
    }
}

/// Every appended column is some fresh introspected column, made new.
proof fn lemma_added_elem(old: Seq<ColumnV>, fresh: Seq<ColumnDefV>)
    ensures
        forall|i: int|
            0 <= i < added_columns(old, fresh).len() ==> exists|j: int|
                0 <= j < fresh.len() && (#[trigger] added_columns(old, fresh)[i]) == new_col(
                    fresh[j],
                ),
    decreases fresh.len(),
{
    if fresh.len() == 0 {
    } else {
        let dl = fresh.drop_last();
        lemma_added_elem(old, dl);
        let a = added_columns(old, fresh);
        let adl = added_columns(old, dl);
        assert forall|i: int| 0 <= i < a.len() implies exists|j: int|
            0 <= j < fresh.len() && (#[trigger] a[i]) == new_col(fresh[j]) by {
            if i < adl.len() {
                assert(a[i] == adl[i]);
                let j = choose|j: int| 0 <= j < dl.len() && adl[i] == new_col(dl[j]);
                assert(fresh[j] == dl[j]);
                assert(a[i] == new_col(fresh[j]));
            } else {
                assert(a[i] == new_col(fresh.last()));
                assert(a[i] == new_col(fresh[fresh.len() - 1]));
            }
        }
    }
}

/// Re-keeping a merge-stable list gives it back unchanged.
proof fn lemma_stable_kept_id(m: Seq<ColumnV>, fresh: Seq<ColumnDefV>)
    requires
        merge_stable(m, fresh),
    ensures
        kept_columns(m, fresh) == m,
    decreases m.len(),
{
    if m.len() == 0 {
        assert(kept_columns(m, fresh) =~= m);
    } else {
        let dl = m.drop_last();
        assert(merge_stable(dl, fresh)) by {
            assert forall|i: int| 0 <= i < dl.len() implies def_has_col(
                fresh,
                (#[trigger] dl[i]).db_name,
            ) && refreshed(dl[i], first_def_with(fresh, dl[i].db_name)) == dl[i] by {
                assert(dl[i] == m[i]);
            }
        }
        lemma_stable_kept_id(dl, fresh);
        assert(m[m.len() - 1] == m.last());
        assert(def_has_col(fresh, m.last().db_name));
        assert(refreshed(m.last(), first_def_with(fresh, m.last().db_name)) == m.last());
        assert(kept_columns(m, fresh) =~= m);
    }
}

/// When every fresh name is already present, nothing is appended.
proof fn lemma_covered_added_empty(m: Seq<ColumnV>, fresh: Seq<ColumnDefV>)
    requires
        forall|j: int| 0 <= j < fresh.len() ==> has_col(m, (#[trigger] fresh[j]).name),
    ensures
        added_columns(m, fresh) == Seq::<ColumnV>::empty(),
    decreases fresh.len(),
{
    if fresh.len() == 0 {
        assert(added_columns(m, fresh) =~= Seq::<ColumnV>::empty());
    } else {
        let dl = fresh.drop_last();
        assert(forall|j: int| 0 <= j < dl.len() ==> has_col(m, (#[trigger] dl[j]).name)) by {
            assert(forall|j: int| 0 <= j < dl.len() ==> dl[j] == fresh[j]);
        }
        lemma_covered_added_empty(m, dl);
        assert(fresh.last() == fresh[fresh.len() - 1]);
        assert(has_col(m, fresh.last().name));
        assert(added_columns(m, fresh) =~= Seq::<ColumnV>::empty());
    }
}

/// Merging a column list twice against the same introspection is the
/// same as merging it once: no spurious column churn.
pub proof fn lemma_merged_columns_idempotent(old: Seq<ColumnV>, fresh: Seq<ColumnDefV>)
    requires
        unique_def_names(fresh),
    ensures
        merged_columns(merged_columns(old, fresh), fresh) == merged_columns(old, fresh),
{
    let m = merged_columns(old, fresh);
    let k = kept_columns(old, fresh);
    let a = added_columns(old, fresh);
    lemma_kept_stable(old, fresh);
    lemma_added_elem(old, fresh);
    assert(merge_stable(m, fresh)) by {
        assert forall|i: int| 0 <= i < m.len() implies def_has_col(
            fresh,
            (#[trigger] m[i]).db_name,
        ) && refreshed(m[i], first_def_with(fresh, m[i].db_name)) == m[i] by {
            if i < k.len() {
                assert(m[i] == k[i]);
            } else {
                assert(m[i] == a[i - k.len()]);
                let j = choose|j: int|
                    0 <= j < fresh.len() && a[i - k.len()] == new_col(fresh[j]);
                lemma_unique_first(fresh, j);
                assert(m[i].db_name == fresh[j].name);
                assert(refreshed(m[i], fresh[j]) == m[i]);
            }
        }
    }
    lemma_stable_kept_id(m, fresh);
    assert forall|j: int| 0 <= j < fresh.len() implies has_col(
        m,
        (#[trigger] fresh[j]).name,
    ) by {
        let n = fresh[j].name;
        lemma_kept_membership(old, fresh, n);
        lemma_added_membership(old, fresh, n);
        lemma_has_col_append(k, a, n);
        assert(def_has_col(fresh, n));
    }
    lemma_covered_added_empty(m, fresh);
    assert(merged_columns(m, fresh) =~= m);
}

/// Merging a manifest twice against the same introspection and backend
/// is the same as merging it once.
pub proof fn lemma_merge_idempotent(t: TableV, d: TableDefV, p: Backend)
    requires
        unique_def_names(d.columns),
    ensures
        merged_table(merged_table(t, d, p), d, p) == merged_table(t, d, p),
{
    lemma_merged_columns_idempotent(t.columns, d.columns);
    let m1 = merged_table(t, d, p);
    assert(m1.databases.contains(p)) by {
        if t.databases.contains(p) {
        } else {
            assert(t.databases.push(p)[t.databases.len() as int] == p);
        }
    }
    assert(merged_table(m1, d, p) =~= m1);
}

} // verus!
