use nerd::layout::LayoutEngine;
use nerd::models::{
    Column, Dimensions, Entity, Position, Relationship, RelationshipType, Schema,
};

fn column(name: &str, data_type: &str, primary: bool) -> Column {
    Column {
        name: name.to_string(),
        data_type: data_type.to_string(),
        nullable: !primary,
        is_primary_key: primary,
        is_foreign_key: false,
        references: None,
    }
}

#[test]
fn test_single_entity_layout() {
    let mut schema = Schema::new();
    let entity = Entity {
        name: "users".to_string(),
        columns: vec![column("id", "INT", true)],
        position: Position::default(),
        dimensions: Dimensions { width: 20, height: 5 },
    };
    schema.insert_entity(entity);

    let layout_engine = LayoutEngine::new(800, 600);
    layout_engine.layout_entities(&mut schema);

    let user_entity = schema.get_entity(&"users".to_string()).unwrap();
    assert_eq!(user_entity.position.x, 400);
    assert_eq!(user_entity.position.y, 300);
}

#[test]
fn test_multiple_entities_layout() {
    let mut schema = Schema::new();

    let users = Entity {
        name: "users".to_string(),
        columns: vec![],
        position: Position::default(),
        dimensions: Dimensions { width: 20, height: 5 },
    };

    let posts = Entity {
        name: "posts".to_string(),
        columns: vec![],
        position: Position::default(),
        dimensions: Dimensions { width: 20, height: 5 },
    };

    schema.insert_entity(users);
    schema.insert_entity(posts);

    schema.relationships.push(Relationship {
        from_table: "posts".to_string(),
        from_column: "user_id".to_string(),
        to_table: "users".to_string(),
        to_column: "id".to_string(),
        relationship_type: RelationshipType::OneToMany,
    });

    let layout_engine = LayoutEngine::new(800, 600);
    layout_engine.layout_entities(&mut schema);

    let users_pos = schema.get_entity(&"users".to_string()).unwrap().position;
    let posts_pos = schema.get_entity(&"posts".to_string()).unwrap().position;

    assert!(users_pos.x != posts_pos.x || users_pos.y != posts_pos.y);
    assert!(users_pos.x >= 50 && users_pos.x <= 750);
    assert!(users_pos.y >= 50 && users_pos.y <= 550);
    assert!(posts_pos.x >= 50 && posts_pos.x <= 750);
    assert!(posts_pos.y >= 50 && posts_pos.y <= 550);
}

#[test]
fn test_empty_schema_layout() {
    let mut schema = Schema::new();
    let layout_engine = LayoutEngine::new(800, 600);
    layout_engine.layout_entities(&mut schema);
    assert_eq!(schema.entities.len(), 0);
}

#[test]
fn test_force_layout_keeps_identity() {
    // Relaxation moves positions only: names and columns stay.
    let mut schema = Schema::new();
    for name in ["a", "b", "c", "d"] {
        schema.insert_entity(Entity {
            name: name.to_string(),
            columns: vec![column("id", "INT", true)],
            position: Position::default(),
            dimensions: Dimensions { width: 20, height: 5 },
        });
    }
    let layout_engine = LayoutEngine::new(400, 400);
    layout_engine.layout_entities(&mut schema);

    assert_eq!(schema.entities.len(), 4);
    for (i, name) in ["a", "b", "c", "d"].iter().enumerate() {
        assert_eq!(schema.entities[i].name, *name);
        assert_eq!(schema.entities[i].columns.len(), 1);
        assert!(schema.entities[i].position.x >= 50);
        assert!(schema.entities[i].position.x <= 350);
        assert!(schema.entities[i].position.y >= 50);
        assert!(schema.entities[i].position.y <= 350);
    }
}
