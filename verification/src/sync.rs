//! Keeping the schema and its SQL text in step.
//!
//! `generate_sql` turns a schema into CREATE TABLE statements plus one
//! ALTER TABLE constraint per relationship; `merge_sql_changes` folds a
//! freshly parsed schema into the current one, keeping the on-canvas
//! positions of entities that survived; `validate_schema` reports
//! dangling foreign keys and tables without a primary key.

use vstd::prelude::*;

use crate::models::{entity_index_of, Column, Entity, ForeignKeyReference, Relationship, Schema};

verus! {

/// The column definition line of `c`, without the list separator.
pub open spec fn column_sql(c: Column) -> Seq<char> {
    "    "@ + c.name@ + " "@ + c.data_type@
        + (if !c.nullable { " NOT NULL"@ } else { Seq::<char>::empty() })
        + (if c.is_primary_key { " PRIMARY KEY"@ } else { Seq::<char>::empty() })
}

/// All column definition lines, joined by a comma and a newline.
pub open spec fn columns_sql(cs: Seq<Column>) -> Seq<char>
    decreases cs.len(),
{
    if cs.len() == 0 {
        Seq::empty()
    } else if cs.len() == 1 {
        column_sql(cs[0])
    } else {
        columns_sql(cs.drop_last()) + ",\n"@ + column_sql(cs.last())
    }
}

/// The CREATE TABLE statement of an entity.
pub open spec fn create_table_sql(e: Entity) -> Seq<char> {
    "CREATE TABLE "@ + e.name@ + " (\n"@ + columns_sql(e.columns@) + "\n);"@
}

/// The ALTER TABLE constraint statement of a relationship.
pub open spec fn foreign_key_sql(r: Relationship) -> Seq<char> {
    "ALTER TABLE "@ + r.from_table@ + " ADD CONSTRAINT fk_"@ + r.from_table@ + "_"@
        + r.from_column@ + " FOREIGN KEY ("@ + r.from_column@ + ") REFERENCES "@ + r.to_table@
        + " ("@ + r.to_column@ + ");"@
}

/// `a` and `b` reference the same table and column.
pub open spec fn references_equal(a: Option<ForeignKeyReference>, b: Option<ForeignKeyReference>) -> bool {
    match (a, b) {
        (Some(x), Some(y)) => x.table@ == y.table@ && x.column@ == y.column@,
        (None, None) => true,
        _ => false,
    }
}

/// Column `b` differs from column `a` in some field.
pub open spec fn column_changed_spec(a: Column, b: Column) -> bool {
    ||| a.name@ != b.name@
    ||| a.data_type@ != b.data_type@
    ||| a.nullable != b.nullable
    ||| a.is_primary_key != b.is_primary_key
    ||| a.is_foreign_key != b.is_foreign_key
    ||| !references_equal(a.references, b.references)
}

/// Entity `b` differs from entity `a` in name or in some column.
pub open spec fn entity_changed_spec(a: Entity, b: Entity) -> bool {
    ||| a.name@ != b.name@
    ||| a.columns@.len() != b.columns@.len()
    ||| exists|i: int| 0 <= i < b.columns@.len()
        && column_changed_spec(a.columns@[i], #[trigger] b.columns@[i])
}

/// The two relationships connect the same columns the same way.
pub open spec fn relationships_equal_spec(a: Relationship, b: Relationship) -> bool {
    &&& a.from_table@ == b.from_table@
    &&& a.from_column@ == b.from_column@
    &&& a.to_table@ == b.to_table@
    &&& a.to_column@ == b.to_column@
    &&& a.relationship_type == b.relationship_type
}

/// Schema `current` holds an entity of `e`'s name with no changed field.
pub open spec fn entity_matched(current: Schema, e: Entity) -> bool {
    match entity_index_of(current.entities@, e.name@) {
        Some(k) => !entity_changed_spec(current.entities@[k], e),
        None => false,
    }
}

/// Schema `current` holds a relationship equal to `r`.
pub open spec fn relationship_matched(current: Schema, r: Relationship) -> bool {
    exists|k: int| 0 <= k < current.relationships@.len()
        && relationships_equal_spec(#[trigger] current.relationships@[k], r)
}

/// Schema `new` matches schema `current`: same entity count, every new
/// entity found unchanged under its name, and the same relationships.
pub open spec fn schemas_same(current: Schema, new: Schema) -> bool {
    &&& current.entities@.len() == new.entities@.len()
    &&& forall|i: int| 0 <= i < new.entities@.len()
        ==> entity_matched(current, #[trigger] new.entities@[i])
    &&& current.relationships@.len() == new.relationships@.len()
    &&& forall|i: int| 0 <= i < new.relationships@.len()
        ==> relationship_matched(current, #[trigger] new.relationships@[i])
}

/// Schema `new` differs from schema `current`: an entity was added,
/// removed or edited, or the relationship list changed.
pub open spec fn schemas_differ(current: Schema, new: Schema) -> bool {
    !schemas_same(current, new)
}

/// The referencing side of `r` names an existing table and column of `s`.
pub open spec fn rel_source_ok(s: Schema, r: Relationship) -> bool {
    match entity_index_of(s.entities@, r.from_table@) {
        Some(k) => has_column(s.entities@[k], r.from_column@),
        None => false,
    }
}

/// The referenced side of `r` names an existing table and column of `s`.
pub open spec fn rel_target_ok(s: Schema, r: Relationship) -> bool {
    match entity_index_of(s.entities@, r.to_table@) {
        Some(k) => has_column(s.entities@[k], r.to_column@),
        None => false,
    }
}

/// Every relationship endpoint resolves to an existing table and column,
/// and every table has a primary key.
pub open spec fn schema_valid(s: Schema) -> bool {
    &&& forall|i: int| 0 <= i < s.relationships@.len()
        ==> rel_source_ok(s, #[trigger] s.relationships@[i])
            && rel_target_ok(s, s.relationships@[i])
    &&& forall|i: int| 0 <= i < s.entities@.len() ==> has_primary_key(#[trigger] s.entities@[i])
}

/// The message reported for a relationship endpoint whose table does
/// not exist.
pub open spec fn missing_table_message(t: Seq<char>) -> Seq<char> {
    "Foreign key references non-existent table: "@ + t
}

/// The message reported when the referencing column is missing.
pub open spec fn missing_from_column_message(r: Relationship) -> Seq<char> {
    "Foreign key column '"@ + r.from_column@ + "' not found in table '"@ + r.from_table@ + "'"@
}

/// The message reported when the referenced column is missing.
pub open spec fn missing_to_column_message(r: Relationship) -> Seq<char> {
    "Referenced column '"@ + r.to_column@ + "' not found in table '"@ + r.to_table@ + "'"@
}

/// The message reported for a table without a primary key.
pub open spec fn no_primary_key_message(name: Seq<char>) -> Seq<char> {
    "Table '"@ + name + "' has no primary key"@
}

/// The findings of one relationship's referencing side: one message
/// when its table or column is missing, none otherwise.
pub open spec fn rel_source_findings(s: Schema, r: Relationship) -> Seq<Seq<char>> {
    match entity_index_of(s.entities@, r.from_table@) {
        Some(k) => if has_column(s.entities@[k], r.from_column@) {
            Seq::empty()
        } else {
            seq![missing_from_column_message(r)]
        },
        None => seq![missing_table_message(r.from_table@)],
    }
}

/// The findings of one relationship's referenced side.
pub open spec fn rel_target_findings(s: Schema, r: Relationship) -> Seq<Seq<char>> {
    match entity_index_of(s.entities@, r.to_table@) {
        Some(k) => if has_column(s.entities@[k], r.to_column@) {
            Seq::empty()
        } else {
            seq![missing_to_column_message(r)]
        },
        None => seq![missing_table_message(r.to_table@)],
    }
}

/// The findings of the first `e` relationships, in order, referencing
/// side before referenced side.
pub open spec fn relationship_findings(s: Schema, e: int) -> Seq<Seq<char>>
    decreases e,
{
    if e <= 0 {
        Seq::empty()
    } else {
        relationship_findings(s, e - 1) + rel_source_findings(s, s.relationships@[e - 1])
            + rel_target_findings(s, s.relationships@[e - 1])
    }
}

/// The findings of the first `i` entities: one message per table
/// without a primary key.
pub open spec fn entity_findings(s: Schema, i: int) -> Seq<Seq<char>>
    decreases i,
{
    if i <= 0 {
        Seq::empty()
    } else {
        entity_findings(s, i - 1) + (if has_primary_key(s.entities@[i - 1]) {
            Seq::<Seq<char>>::empty()
        } else {
            seq![no_primary_key_message(s.entities@[i - 1].name@)]
        })
    }
}

/// Every finding of the whole schema: one message per violated
/// condition, relationship findings first, then the tables without a
/// primary key.
pub open spec fn validation_findings(s: Schema) -> Seq<Seq<char>> {
    relationship_findings(s, s.relationships@.len() as int)
        + entity_findings(s, s.entities@.len() as int)
}

/// Some column of `e` is named `name`.
pub open spec fn has_column(e: Entity, name: Seq<char>) -> bool {
    exists|j: int| 0 <= j < e.columns@.len() && (#[trigger] e.columns@[j]).name@ == name
}

/// Some column of `e` is a primary key.
pub open spec fn has_primary_key(e: Entity) -> bool {
    exists|j: int| 0 <= j < e.columns@.len() && (#[trigger] e.columns@[j]).is_primary_key
}

/// Keeps a schema and its SQL text in step.
pub struct SchemaSync {
}

impl SchemaSync {
    /// A fresh synchronizer.
    pub fn new() -> (r: Self)
        ensures
            true,
    {
        Self {  }
    }

    /// Generate the DDL of the whole schema: one CREATE TABLE statement
    /// per entity, then one ALTER TABLE constraint per relationship,
    /// statements separated by blank lines.
    pub fn generate_sql(&self, schema: &Schema) -> (s: String)
        ensures
            s@ == generated_sql(*schema),
    {
        let mut out = String::new();
        let n = schema.entities.len();
        let mut i: usize = 0;
        while i < n
            invariant
                n == schema.entities@.len(),
                0 <= i <= n,
                out@ == tables_sql(schema.entities@.take(i as int)),
            decreases n - i,
        {
            if i > 0 {
                out.append("\n\n");
            }
            let table = self.generate_create_table(&schema.entities[i]);
            out.append(table.as_str());
            proof {
                assert(schema.entities@.take(i + 1).drop_last() =~= schema.entities@.take(i as int));
                assert(schema.entities@.take(i + 1).last() == schema.entities@[i as int]);
                assert(out@ =~= tables_sql(schema.entities@.take(i + 1)));
            }
            i += 1;
        }
        proof {
            assert(schema.entities@.take(n as int) =~= schema.entities@);
        }
        let m = schema.relationships.len();
        let mut e: usize = 0;
        while e < m
            invariant
                n == schema.entities@.len(),
                m == schema.relationships@.len(),
                0 <= e <= m,
                out@ == tables_sql(schema.entities@)
                    + constraints_sql(schema.relationships@.take(e as int), n as int),
            decreases m - e,
        {
            if n > 0 || e > 0 {
                out.append("\n\n");
            }
            let fk = self.generate_foreign_key_constraint(&schema.relationships[e]);
            out.append(fk.as_str());
            proof {
                assert(schema.relationships@.take(e + 1).drop_last()
                    =~= schema.relationships@.take(e as int));
                assert(schema.relationships@.take(e + 1).last() == schema.relationships@[e as int]);
                assert(out@ =~= tables_sql(schema.entities@)
                    + constraints_sql(schema.relationships@.take(e + 1), n as int));
            }
            e += 1;
        }
        proof {
            assert(schema.relationships@.take(m as int) =~= schema.relationships@);
        }
        out
    }

    /// The CREATE TABLE statement of one entity.
    #[verifier::rlimit(50)]
    pub fn generate_create_table(&self, entity: &Entity) -> (s: String)
        ensures
            s@ == create_table_sql(*entity),
    {
        let mut out = String::new();
        out.append("CREATE TABLE ");
        out.append(entity.name.as_str());
        out.append(" (\n");
        let n = entity.columns.len();
        let mut i: usize = 0;
        while i < n
            invariant
                n == entity.columns@.len(),
                0 <= i <= n,
                out@ == "CREATE TABLE "@ + entity.name@ + " (\n"@
                    + columns_sql(entity.columns@.take(i as int)),
            decreases n - i,
        {
            if i > 0 {
                out.append(",\n");
            }
            let col = &entity.columns[i];
            out.append("    ");
            out.append(col.name.as_str());
            out.append(" ");
            out.append(col.data_type.as_str());
            if !col.nullable {
                out.append(" NOT NULL");
            }
            if col.is_primary_key {
                out.append(" PRIMARY KEY");
            }
            proof {
                assert(entity.columns@.take(i + 1).drop_last() =~= entity.columns@.take(i as int));
                assert(entity.columns@.take(i + 1).last() == entity.columns@[i as int]);
                assert(out@ =~= "CREATE TABLE "@ + entity.name@ + " (\n"@
                    + columns_sql(entity.columns@.take(i + 1)));
            }
            i += 1;
        }
        proof {
            assert(entity.columns@.take(n as int) =~= entity.columns@);
        }
        out.append("\n);");
        out
    }

    /// The ALTER TABLE constraint statement of one relationship.
    pub fn generate_foreign_key_constraint(&self, relationship: &Relationship) -> (s: String)
        ensures
            s@ == foreign_key_sql(*relationship),
    {
        let mut out = String::new();
        out.append("ALTER TABLE ");
        out.append(relationship.from_table.as_str());
        out.append(" ADD CONSTRAINT fk_");
        out.append(relationship.from_table.as_str());
        out.append("_");
        out.append(relationship.from_column.as_str());
        out.append(" FOREIGN KEY (");
        out.append(relationship.from_column.as_str());
        out.append(") REFERENCES ");
        out.append(relationship.to_table.as_str());
        out.append(" (");
        out.append(relationship.to_column.as_str());
        out.append(");");
        out
    }

    /// Fold a freshly parsed schema into the current one.  When nothing
    /// differs the current schema stays and `false` comes back; when
    /// something does, the new schema replaces it -- except that an
    /// entity which kept its name also keeps its position and
    /// dimensions -- and `true` comes back.
    pub fn merge_sql_changes(&self, current_schema: &mut Schema, new_schema: Schema) -> (changed: bool)
        ensures
            changed == schemas_differ(*old(current_schema), new_schema),
            !changed ==> *final(current_schema) == *old(current_schema),
            changed ==> merged(*old(current_schema), new_schema, *final(current_schema)),
    {
        let has_changes = self.detect_changes(current_schema, &new_schema);
        if has_changes {
            self.apply_changes(current_schema, new_schema);
            true
        } else {
            false
        }
    }

    /// Whether the new schema differs from the current one.
    pub fn detect_changes(&self, current: &Schema, new: &Schema) -> (r: bool)
        ensures
            r == schemas_differ(*current, *new),
    {
        if current.entities.len() != new.entities.len() {
            return true;
        }
        let n = new.entities.len();
        let mut i: usize = 0;
        while i < n
            invariant
                n == new.entities@.len(),
                current.entities@.len() == n,
                0 <= i <= n,
                forall|k: int| 0 <= k < i
                    ==> entity_matched(*current, #[trigger] new.entities@[k]),
            decreases n - i,
        {
            match current.get_entity(&new.entities[i].name) {
                None => {
                    proof {
                        crate::models::lemma_entity_index_of_properties(
                            current.entities@,
                            new.entities@[i as int].name@,
                        );
                        assert(!entity_matched(*current, new.entities@[i as int]));
                        assert(!schemas_same(*current, *new));
                    }
                    return true;
                }
                Some(current_entity) => {
                    if self.entity_changed(current_entity, &new.entities[i]) {
                        proof {
                            assert(!entity_matched(*current, new.entities@[i as int]));
                            assert(!schemas_same(*current, *new));
                        }
                        return true;
                    }
                }
            }
            i += 1;
        }

        if current.relationships.len() != new.relationships.len() {
            return true;
        }
        let m = new.relationships.len();
        let mut e: usize = 0;
        while e < m
            invariant
                n == new.entities@.len(),
                current.entities@.len() == n,
                forall|k: int| 0 <= k < n
                    ==> entity_matched(*current, #[trigger] new.entities@[k]),
                m == new.relationships@.len(),
                current.relationships@.len() == m,
                0 <= e <= m,
                forall|k: int| 0 <= k < e
                    ==> relationship_matched(*current, #[trigger] new.relationships@[k]),
            decreases m - e,
        {
            if !self.some_relationship_equal(current, &new.relationships[e]) {
                proof {
                    assert(!relationship_matched(*current, new.relationships@[e as int]));
                    assert(!schemas_same(*current, *new));
                }
                return true;
            }
            e += 1;
        }
        proof {
            assert forall|i0: int| #![trigger new.entities@[i0]] 0 <= i0 < new.entities@.len()
                implies match entity_index_of(current.entities@, new.entities@[i0].name@) {
                    Some(k) => !entity_changed_spec(current.entities@[k], new.entities@[i0]),
                    None => false,
                } by {
                crate::models::lemma_entity_index_of_properties(
                    current.entities@,
                    new.entities@[i0].name@,
                );
            }
            assert(e == m);
            assert forall|i0: int| #![trigger new.relationships@[i0]]
                0 <= i0 < new.relationships@.len() implies exists|q: int|
                0 <= q < current.relationships@.len() && relationships_equal_spec(
                    #[trigger] current.relationships@[q],
                    new.relationships@[i0],
                ) by {
                assert(0 <= i0 < e);
                let r0 = new.relationships@[i0];
                assert(r0 == new.relationships@[i0]);
            }
            assert(schemas_same(*current, *new));
        }
        false
    }

    /// Whether `current` holds a relationship equal to `rel`.
    fn some_relationship_equal(&self, current: &Schema, rel: &Relationship) -> (r: bool)
        ensures
            r == relationship_matched(*current, *rel),
    {
        let m = current.relationships.len();
        let mut q: usize = 0;
        while q < m
            invariant
                m == current.relationships@.len(),
                0 <= q <= m,
                forall|k: int| 0 <= k < q
                    ==> !relationships_equal_spec(#[trigger] current.relationships@[k], *rel),
            decreases m - q,
        {
            if self.relationships_equal(&current.relationships[q], rel) {
                return true;
            }
            q += 1;
        }
        false
    }

    /// Whether entity `new` differs from entity `current`.
    fn entity_changed(&self, current: &Entity, new: &Entity) -> (r: bool)
        ensures
            r == entity_changed_spec(*current, *new),
    {
        if current.name != new.name || current.columns.len() != new.columns.len() {
            return true;
        }
        let n = new.columns.len();
        let mut i: usize = 0;
        while i < n
            invariant
                n == new.columns@.len(),
                current.columns@.len() == n,
                0 <= i <= n,
                forall|k: int| #![trigger new.columns@[k]] 0 <= k < i
                    ==> !column_changed_spec(current.columns@[k], new.columns@[k]),
            decreases n - i,
        {
            if self.column_changed(&current.columns[i], &new.columns[i]) {
                return true;
            }
            i += 1;
        }
        false
    }

    /// Whether column `new` differs from column `current` in any field.
    pub fn column_changed(&self, current: &Column, new: &Column) -> (r: bool)
        ensures
            r == column_changed_spec(*current, *new),
    {
        if current.name != new.name {
            return true;
        }
        if current.data_type != new.data_type {
            return true;
        }
        if current.nullable != new.nullable {
            return true;
        }
        if current.is_primary_key != new.is_primary_key {
            return true;
        }
        if current.is_foreign_key != new.is_foreign_key {
            return true;
        }
        match (&current.references, &new.references) {
            (Some(a), Some(b)) => a.table != b.table || a.column != b.column,
            (None, None) => false,
            _ => true,
        }
    }

    /// Whether the two relationships connect the same columns the same
    /// way.
    pub fn relationships_equal(&self, a: &Relationship, b: &Relationship) -> (r: bool)
        ensures
            r == relationships_equal_spec(*a, *b),
    {
        a.from_table == b.from_table && a.from_column == b.from_column
            && a.to_table == b.to_table && a.to_column == b.to_column
            && a.relationship_type == b.relationship_type
    }

    /// Install the new schema, preserving the position and dimensions of
    /// every entity whose name survived.
    fn apply_changes(&self, current_schema: &mut Schema, new_schema: Schema)
        ensures
            merged(*old(current_schema), new_schema, *final(current_schema)),
    {
        let ghost before = *current_schema;
        let ghost orig = new_schema.entities@;
        let mut remaining = new_schema.entities;
        let mut updated: Vec<Entity> = Vec::new();
        while remaining.len() > 0
            invariant
                *current_schema == before,
                updated@.len() + remaining@.len() == orig.len(),
                remaining@ =~= orig.skip(updated@.len() as int),
                forall|k: int| 0 <= k < updated@.len()
                    ==> merged_entity(before, orig[k], #[trigger] updated@[k]),
            decreases remaining@.len(),
        {
            let ghost done = updated@.len() as int;
            let mut entity = remaining.remove(0);
            proof {
                assert(orig.skip(done)[0] == orig[done]);
                assert(orig.skip(done).drop_first() =~= orig.skip(done + 1));
                crate::models::lemma_entity_index_of_properties(
                    current_schema.entities@,
                    entity.name@,
                );
            }
            let carried = match current_schema.get_entity(&entity.name) {
                Some(existing) => Some((existing.position, existing.dimensions)),
                None => None,
            };
            match carried {
                Some(pd) => {
                    entity.position = pd.0;
                    entity.dimensions = pd.1;
                }
                None => {}
            }
            updated.push(entity);
        }
        current_schema.entities = updated;
        current_schema.relationships = new_schema.relationships;
    }
}

/// All CREATE TABLE statements, separated by blank lines.
pub open spec fn tables_sql(es: Seq<Entity>) -> Seq<char>
    decreases es.len(),
{
    if es.len() == 0 {
        Seq::empty()
    } else if es.len() == 1 {
        create_table_sql(es[0])
    } else {
        tables_sql(es.drop_last()) + "\n\n"@ + create_table_sql(es.last())
    }
}

/// All ALTER TABLE statements, each preceded by a blank line when any
/// statement came before it.
pub open spec fn constraints_sql(rs: Seq<Relationship>, n_tables: int) -> Seq<char>
    decreases rs.len(),
{
    if rs.len() == 0 {
        Seq::empty()
    } else {
        constraints_sql(rs.drop_last(), n_tables)
            + (if n_tables > 0 || rs.len() > 1 { "\n\n"@ } else { Seq::<char>::empty() })
            + foreign_key_sql(rs.last())
    }
}

/// The whole generated DDL.
pub open spec fn generated_sql(s: Schema) -> Seq<char> {
    tables_sql(s.entities@) + constraints_sql(s.relationships@, s.entities@.len() as int)
}

/// Entity `out` is entity `src` of the new schema, with position and
/// dimensions taken from the old schema's entity of the same name, when
/// there is one.
pub open spec fn merged_entity(before: Schema, src: Entity, out: Entity) -> bool {
    &&& out.name@ == src.name@
    &&& out.columns@ == src.columns@
    &&& match entity_index_of(before.entities@, src.name@) {
        Some(k) => out.position == before.entities@[k].position
            && out.dimensions == before.entities@[k].dimensions,
        None => out.position == src.position && out.dimensions == src.dimensions,
    }
}

/// Schema `after` is schema `new` with the surviving entities' placement
/// carried over from schema `before`.
pub open spec fn merged(before: Schema, new: Schema, after: Schema) -> bool {
    &&& after.entities@.len() == new.entities@.len()
    &&& forall|i: int| 0 <= i < new.entities@.len()
        ==> merged_entity(before, new.entities@[i], #[trigger] after.entities@[i])
    &&& after.relationships@ == new.relationships@
}


/// Whether some column of `e` is named `name`.
fn column_exists(e: &Entity, name: &String) -> (r: bool)
    ensures
        r == has_column(*e, name@),
{
    let n = e.columns.len();
    let mut j: usize = 0;
    while j < n
        invariant
            n == e.columns@.len(),
            0 <= j <= n,
            forall|k: int| 0 <= k < j ==> (#[trigger] e.columns@[k]).name@ != name@,
        decreases n - j,
    {
        if e.columns[j].name == *name {
            return true;
        }
        j += 1;
    }
    false
}

/// Whether some column of `e` is a primary key.
fn entity_has_primary_key(e: &Entity) -> (r: bool)
    ensures
        r == has_primary_key(*e),
{
    let n = e.columns.len();
    let mut j: usize = 0;
    while j < n
        invariant
            n == e.columns@.len(),
            0 <= j <= n,
            forall|k: int| 0 <= k < j ==> !(#[trigger] e.columns@[k]).is_primary_key,
        decreases n - j,
    {
        if e.columns[j].is_primary_key {
            return true;
        }
        j += 1;
    }
    false
}

impl SchemaSync {
    /// Check the schema for dangling foreign keys and tables without a
    /// primary key; the result holds one message per finding, and it is
    /// empty exactly when the schema is valid.
    pub fn validate_schema(&self, schema: &Schema) -> (errors: Vec<String>)
        ensures
            (errors@.len() == 0) <==> schema_valid(*schema),
            errors@.len() == validation_findings(*schema).len(),
            forall|q: int| 0 <= q < errors@.len()
                ==> (#[trigger] errors@[q])@ == validation_findings(*schema)[q],
    {
        let mut errors: Vec<String> = Vec::new();
        let m = schema.relationships.len();
        let mut e: usize = 0;
        while e < m
            invariant
                m == schema.relationships@.len(),
                0 <= e <= m,
                (errors@.len() == 0) <==> (forall|k: int| 0 <= k < e
                    ==> rel_source_ok(*schema, #[trigger] schema.relationships@[k])
                        && rel_target_ok(*schema, schema.relationships@[k])),
                errors@.len() == relationship_findings(*schema, e as int).len(),
                forall|q: int| 0 <= q < errors@.len()
                    ==> (#[trigger] errors@[q])@ == relationship_findings(*schema, e as int)[q],
            decreases m - e,
        {
            let ghost errs0 = errors@;
            let rel = &schema.relationships[e];
            proof {
                crate::models::lemma_entity_index_of_properties(
                    schema.entities@,
                    rel.from_table@,
                );
                crate::models::lemma_entity_index_of_properties(
                    schema.entities@,
                    rel.to_table@,
                );
            }
            let ghost src = rel_source_findings(*schema, *rel);
            let ghost tgt = rel_target_findings(*schema, *rel);
            match schema.get_entity(&rel.from_table) {
                Some(from_entity) => {
                    if !column_exists(from_entity, &rel.from_column) {
                        let mut msg = String::new();
                        msg.append("Foreign key column '");
                        msg.append(rel.from_column.as_str());
                        msg.append("' not found in table '");
                        msg.append(rel.from_table.as_str());
                        msg.append("'");
                        proof {
                            assert(msg@ == missing_from_column_message(*rel));
                        }
                        errors.push(msg);
                    }
                }
                None => {
                    let mut msg = String::new();
                    msg.append("Foreign key references non-existent table: ");
                    msg.append(rel.from_table.as_str());
                    proof {
                        assert(msg@ == missing_table_message(rel.from_table@));
                    }
                    errors.push(msg);
                }
            }
            proof {
                assert(errors@.len() == errs0.len() + src.len());
                assert forall|q: int| 0 <= q < errors@.len()
                    implies (#[trigger] errors@[q])@ == (relationship_findings(*schema, e as int)
                        + src)[q] by {
                    if q < errs0.len() {
                        assert(errors@[q] == errs0[q]);
                    }
                }
            }
            let ghost errs1 = errors@;
            match schema.get_entity(&rel.to_table) {
                Some(to_entity) => {
                    if !column_exists(to_entity, &rel.to_column) {
                        let mut msg = String::new();
                        msg.append("Referenced column '");
                        msg.append(rel.to_column.as_str());
                        msg.append("' not found in table '");
                        msg.append(rel.to_table.as_str());
                        msg.append("'");
                        proof {
                            assert(msg@ == missing_to_column_message(*rel));
                        }
                        errors.push(msg);
                    }
                }
                None => {
                    let mut msg = String::new();
                    msg.append("Foreign key references non-existent table: ");
                    msg.append(rel.to_table.as_str());
                    proof {
                        assert(msg@ == missing_table_message(rel.to_table@));
                    }
                    errors.push(msg);
                }
            }
            proof {
                assert(errors@.len() == errs1.len() + tgt.len());
                assert((errors@.len() == errs0.len())
                    == (rel_source_ok(*schema, schema.relationships@[e as int])
                        && rel_target_ok(*schema, schema.relationships@[e as int])));
                assert(relationship_findings(*schema, e + 1)
                    == relationship_findings(*schema, e as int) + src + tgt);
                assert forall|q: int| 0 <= q < errors@.len()
                    implies (#[trigger] errors@[q])@ == relationship_findings(*schema, e + 1)[q] by {
                    if q < errs1.len() {
                        assert(errors@[q] == errs1[q]);
                        assert(errs1[q]@ == (relationship_findings(*schema, e as int) + src)[q]);
                    }
                }
            }
            e += 1;
        }

        let ghost rels_ok = errors@.len() == 0;
        let n = schema.entities.len();
        let mut i: usize = 0;
        while i < n
            invariant
                m == schema.relationships@.len(),
                n == schema.entities@.len(),
                0 <= i <= n,
                rels_ok <==> (forall|k: int| 0 <= k < m
                    ==> rel_source_ok(*schema, #[trigger] schema.relationships@[k])
                        && rel_target_ok(*schema, schema.relationships@[k])),
                (errors@.len() == 0) <==> (rels_ok && forall|k: int| 0 <= k < i
                    ==> has_primary_key(#[trigger] schema.entities@[k])),
                errors@.len() == relationship_findings(*schema, m as int).len()
                    + entity_findings(*schema, i as int).len(),
                forall|q: int| 0 <= q < errors@.len()
                    ==> (#[trigger] errors@[q])@ == (relationship_findings(*schema, m as int)
                        + entity_findings(*schema, i as int))[q],
            decreases n - i,
        {
            let ghost errs0 = errors@;
            if !entity_has_primary_key(&schema.entities[i]) {
                let mut msg = String::new();
                msg.append("Table '");
                msg.append(schema.entities[i].name.as_str());
                msg.append("' has no primary key");
                proof {
                    assert(msg@ == no_primary_key_message(schema.entities@[i as int].name@));
                }
                errors.push(msg);
            }
            proof {
                assert forall|q: int| 0 <= q < errors@.len()
                    implies (#[trigger] errors@[q])@ == (relationship_findings(*schema, m as int)
                        + entity_findings(*schema, i + 1))[q] by {
                    if q < errs0.len() {
                        assert(errors@[q] == errs0[q]);
                    }
                }
            }
            i += 1;
        }
        errors
    }
}

} // verus!
