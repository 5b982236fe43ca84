//! The schema data model: tables, columns, foreign-key relationships.
//!
//! A `Schema` owns its entities in insertion order; entity names are the
//! keys, and lookup helpers search by name.  Positions and dimensions are
//! derived state that the layout engine recomputes; they are stored on the
//! entity but never interpreted by the model itself.

use vstd::prelude::*;

verus! {

/// Top-left corner of an entity's box, in grid coordinates.
#[derive(Debug, Clone, Copy, PartialEq, Eq, Structural)]
pub struct Position {
    pub x: i64,
    pub y: i64,
}

impl Default for Position {
    fn default() -> (r: Self)
        ensures
            r.x == 0 && r.y == 0,
    {
        Position { x: 0, y: 0 }
    }
}

/// Width and height of an entity's box, in grid cells.
#[derive(Debug, Clone, Copy, PartialEq, Eq, Structural)]
pub struct Dimensions {
    pub width: u16,
    pub height: u16,
}

impl Default for Dimensions {
    fn default() -> (r: Self)
        ensures
            r.width == 0 && r.height == 0,
    {
        Dimensions { width: 0, height: 0 }
    }
}

/// The table and column that a foreign-key column points at.
#[derive(Debug, Clone, PartialEq)]
pub struct ForeignKeyReference {
    pub table: String,
    pub column: String,
}

/// One column of a table.  Column order is significant: it fixes the row
/// offset of the column inside the rendered box.
#[derive(Debug, Clone)]
pub struct Column {
    pub name: String,
    pub data_type: String,
    pub nullable: bool,
    pub is_primary_key: bool,
    pub is_foreign_key: bool,
    pub references: Option<ForeignKeyReference>,
}

/// Cardinality tag of a relationship edge.
#[derive(Debug, Clone, Copy, PartialEq, Eq, Structural)]
pub enum RelationshipType {
    OneToOne,
    OneToMany,
    ManyToMany,
}

/// A directed foreign-key edge: `from` is the referencing side,
/// `to` the referenced side.
#[derive(Debug, Clone)]
pub struct Relationship {
    pub from_table: String,
    pub from_column: String,
    pub to_table: String,
    pub to_column: String,
    pub relationship_type: RelationshipType,
}

/// One table together with its derived on-canvas placement.
#[derive(Debug, Clone)]
pub struct Entity {
    pub name: String,
    pub columns: Vec<Column>,
    pub position: Position,
    pub dimensions: Dimensions,
}

/// A whole schema: entities in insertion order plus the edge list.
#[derive(Debug, Clone)]
pub struct Schema {
    pub entities: Vec<Entity>,
    pub relationships: Vec<Relationship>,
}

/// Index of the first entity named `name`, or `None`.
pub open spec fn entity_index_of(es: Seq<Entity>, name: Seq<char>) -> Option<int>
    decreases es.len(),
{
    if es.len() == 0 {
        None
    } else if es[0].name@ == name {
        Some(0int)
    } else {
        match entity_index_of(es.drop_first(), name) {
            Some(i) => Some(i + 1),
            None => None,
        }
    }
}

/// Whether some entity in `es` is named `name`.
pub open spec fn has_entity(es: Seq<Entity>, name: Seq<char>) -> bool {
    entity_index_of(es, name) is Some
}

pub proof fn lemma_entity_index_of_properties(es: Seq<Entity>, name: Seq<char>)
    ensures
        match entity_index_of(es, name) {
            Some(i) => 0 <= i < es.len() && es[i].name@ == name,
            None => forall|i: int| #![auto] 0 <= i < es.len() ==> es[i].name@ != name,
        },
    decreases es.len(),
{
    if es.len() > 0 && es[0].name@ != name {
        lemma_entity_index_of_properties(es.drop_first(), name);
        assert forall|i: int| 1 <= i < es.len() implies es[i] == es.drop_first()[i - 1] by {}
    }
}

impl Schema {
    /// A schema with no entities and no relationships.
    pub fn new() -> (r: Self)
        ensures
            r.entities@.len() == 0,
            r.relationships@.len() == 0,
    {
        Schema { entities: Vec::new(), relationships: Vec::new() }
    }

    /// Add an entity, replacing any existing entity of the same name.
    pub fn insert_entity(&mut self, entity: Entity)
        ensures
            match entity_index_of(old(self).entities@, entity.name@) {
                Some(i) => final(self).entities@ =~= old(self).entities@.update(i, entity),
                None => final(self).entities@ =~= old(self).entities@.push(entity),
            },
            final(self).relationships@ == old(self).relationships@,
    {
        proof {
            lemma_entity_index_of_properties(self.entities@, entity.name@);
        }
        let n = self.entities.len();
        let mut i: usize = 0;
        while i < n
            invariant
                n == self.entities@.len(),
                0 <= i <= n,
                self == old(self),
                forall|k: int| 0 <= k < i ==> (#[trigger] self.entities@[k]).name@ != entity.name@,
            decreases n - i,
        {
            if self.entities[i].name == entity.name {
                proof {
                    lemma_index_of_prefix(self.entities@, entity.name@, i as int);
                }
                self.entities[i] = entity;
                return;
            }
            i += 1;
        }
        self.entities.push(entity);
    }

    /// Look up an entity by name.
    pub fn get_entity(&self, name: &String) -> (r: Option<&Entity>)
        ensures
            match entity_index_of(self.entities@, name@) {
                Some(i) => r matches Some(e) && e == self.entities@[i],
                None => r is None,
            },
    {
        proof {
            lemma_entity_index_of_properties(self.entities@, name@);
        }
        let n = self.entities.len();
        let mut i: usize = 0;
        while i < n
            invariant
                n == self.entities@.len(),
                0 <= i <= n,
                forall|k: int| 0 <= k < i ==> (#[trigger] self.entities@[k]).name@ != name@,
            decreases n - i,
        {
            if self.entities[i].name == *name {
                proof {
                    lemma_index_of_prefix(self.entities@, name@, i as int);
                }
                return Some(&self.entities[i]);
            }
            i += 1;
        }
        None
    }

    /// Whether an entity of this name exists.
    pub fn contains_entity(&self, name: &String) -> (r: bool)
        ensures
            r == has_entity(self.entities@, name@),
    {
        self.get_entity(name).is_some()
    }
}

/// If the first `i` entities are not named `name` and entity `i` is,
/// then `i` is exactly the index that `entity_index_of` finds.
proof fn lemma_index_of_prefix(es: Seq<Entity>, name: Seq<char>, i: int)
    requires
        0 <= i < es.len(),
        es[i].name@ == name,
        forall|k: int| 0 <= k < i ==> (#[trigger] es[k]).name@ != name,
    ensures
        entity_index_of(es, name) == Some(i),
    decreases i,
{
    if i == 0 {
    } else {
        assert(es[0].name@ != name);
        assert(es.drop_first()[i - 1] == es[i]);
        assert forall|k: int| 0 <= k < i - 1 implies (#[trigger] es.drop_first()[k]).name@ != name by {
            assert(es.drop_first()[k] == es[k + 1]);
        }
        lemma_index_of_prefix(es.drop_first(), name, i - 1);
    }
}

} // verus!
