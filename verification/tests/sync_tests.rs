use nerd::models::{
    Column, Dimensions, Entity, Position, Relationship, RelationshipType, Schema,
};
use nerd::sync::SchemaSync;

fn column(name: &str, data_type: &str, nullable: bool, primary: bool) -> Column {
    Column {
        name: name.to_string(),
        data_type: data_type.to_string(),
        nullable,
        is_primary_key: primary,
        is_foreign_key: false,
        references: None,
    }
}

#[test]
fn test_generate_simple_table_sql() {
    let sync = SchemaSync::new();

    let entity = Entity {
        name: "users".to_string(),
        columns: vec![
            column("id", "INT", false, true),
            column("name", "VARCHAR(100)", true, false),
        ],
        position: Position::default(),
        dimensions: Dimensions { width: 20, height: 5 },
    };

    let sql = sync.generate_create_table(&entity);
    assert!(sql.contains("CREATE TABLE users"));
    assert!(sql.contains("id INT NOT NULL PRIMARY KEY"));
    assert!(sql.contains("name VARCHAR(100)"));
}

#[test]
fn test_detect_schema_changes() {
    let sync = SchemaSync::new();
    let mut schema1 = Schema::new();
    let mut schema2 = Schema::new();

    assert!(!sync.detect_changes(&mut schema1, &schema2));

    let entity = Entity {
        name: "test".to_string(),
        columns: vec![],
        position: Position::default(),
        dimensions: Dimensions { width: 20, height: 5 },
    };
    schema2.insert_entity(entity);

    assert!(sync.detect_changes(&mut schema1, &schema2));
}

#[test]
fn test_validate_schema() {
    let sync = SchemaSync::new();
    let mut schema = Schema::new();

    let entity = Entity {
        name: "invalid".to_string(),
        columns: vec![column("name", "VARCHAR(50)", false, false)],
        position: Position::default(),
        dimensions: Dimensions { width: 20, height: 5 },
    };
    schema.insert_entity(entity);

    let errors = sync.validate_schema(&schema);
    assert_eq!(errors.len(), 1);
    assert!(errors[0].contains("has no primary key"));
}

#[test]
fn test_validate_dangling_foreign_key() {
    let sync = SchemaSync::new();
    let mut schema = Schema::new();
    schema.insert_entity(Entity {
        name: "orders".to_string(),
        columns: vec![column("id", "INT", false, true)],
        position: Position::default(),
        dimensions: Dimensions { width: 20, height: 5 },
    });
    schema.relationships.push(Relationship {
        from_table: "orders".to_string(),
        from_column: "user_id".to_string(),
        to_table: "users".to_string(),
        to_column: "id".to_string(),
        relationship_type: RelationshipType::OneToMany,
    });

    let errors = sync.validate_schema(&schema);
    // The referencing column is missing and the referenced table does
    // not exist; both findings are reported, the schema is invalid.
    assert_eq!(errors.len(), 2);
    assert!(errors.iter().any(|e| e.contains("non-existent table")));
    assert!(errors.iter().any(|e| e.contains("not found in table")));
}

#[test]
fn test_validate_complete_schema_passes() {
    let sync = SchemaSync::new();
    let mut schema = Schema::new();
    schema.insert_entity(Entity {
        name: "users".to_string(),
        columns: vec![column("id", "INT", false, true)],
        position: Position::default(),
        dimensions: Dimensions { width: 20, height: 5 },
    });
    schema.insert_entity(Entity {
        name: "posts".to_string(),
        columns: vec![column("id", "INT", false, true), column("user_id", "INT", true, false)],
        position: Position::default(),
        dimensions: Dimensions { width: 20, height: 5 },
    });
    schema.relationships.push(Relationship {
        from_table: "posts".to_string(),
        from_column: "user_id".to_string(),
        to_table: "users".to_string(),
        to_column: "id".to_string(),
        relationship_type: RelationshipType::OneToMany,
    });

    assert_eq!(sync.validate_schema(&schema).len(), 0);
}

#[test]
fn test_generate_sql_exact_text() {
    let sync = SchemaSync::new();
    let mut schema = Schema::new();
    schema.insert_entity(Entity {
        name: "users".to_string(),
        columns: vec![column("id", "INT", false, true)],
        position: Position::default(),
        dimensions: Dimensions { width: 20, height: 5 },
    });
    schema.relationships.push(Relationship {
        from_table: "posts".to_string(),
        from_column: "user_id".to_string(),
        to_table: "users".to_string(),
        to_column: "id".to_string(),
        relationship_type: RelationshipType::OneToMany,
    });

    let sql = sync.generate_sql(&schema);
    let expected = "CREATE TABLE users (\n    id INT NOT NULL PRIMARY KEY\n);\n\n\
                    ALTER TABLE posts ADD CONSTRAINT fk_posts_user_id \
                    FOREIGN KEY (user_id) REFERENCES users (id);";
    assert_eq!(sql, expected);
}

#[test]
fn test_merge_preserves_positions() {
    let sync = SchemaSync::new();
    let mut current = Schema::new();
    current.insert_entity(Entity {
        name: "users".to_string(),
        columns: vec![column("id", "INT", false, true)],
        position: Position { x: 123, y: 456 },
        dimensions: Dimensions { width: 30, height: 7 },
    });

    let mut incoming = Schema::new();
    incoming.insert_entity(Entity {
        name: "users".to_string(),
        columns: vec![column("id", "INT", false, true), column("name", "TEXT", true, false)],
        position: Position::default(),
        dimensions: Dimensions { width: 20, height: 5 },
    });
    incoming.insert_entity(Entity {
        name: "posts".to_string(),
        columns: vec![column("id", "INT", false, true)],
        position: Position { x: 9, y: 9 },
        dimensions: Dimensions { width: 20, height: 5 },
    });

    let changed = sync.merge_sql_changes(&mut current, incoming);
    assert!(changed);
    assert_eq!(current.entities.len(), 2);
    // The surviving table kept its on-canvas placement and took the new
    // columns; the new table kept its own placement.
    let users = current.get_entity(&"users".to_string()).unwrap();
    assert_eq!(users.position, Position { x: 123, y: 456 });
    assert_eq!(users.dimensions, Dimensions { width: 30, height: 7 });
    assert_eq!(users.columns.len(), 2);
    let posts = current.get_entity(&"posts".to_string()).unwrap();
    assert_eq!(posts.position, Position { x: 9, y: 9 });
}

#[test]
fn test_merge_without_changes() {
    let sync = SchemaSync::new();
    let mut current = Schema::new();
    current.insert_entity(Entity {
        name: "users".to_string(),
        columns: vec![column("id", "INT", false, true)],
        position: Position { x: 1, y: 2 },
        dimensions: Dimensions { width: 20, height: 5 },
    });
    let mut incoming = Schema::new();
    incoming.insert_entity(Entity {
        name: "users".to_string(),
        columns: vec![column("id", "INT", false, true)],
        position: Position { x: 77, y: 88 },
        dimensions: Dimensions { width: 1, height: 1 },
    });

    // Same name and columns: no change is detected, and the current
    // schema, placement included, stays as it was.
    let changed = sync.merge_sql_changes(&mut current, incoming);
    assert!(!changed);
    let users = current.get_entity(&"users".to_string()).unwrap();
    assert_eq!(users.position, Position { x: 1, y: 2 });
}

#[test]
fn test_validate_missing_referenced_column() {
    let sync = SchemaSync::new();
    let mut schema = Schema::new();
    schema.insert_entity(Entity {
        name: "users".to_string(),
        columns: vec![column("id", "INT", false, true)],
        position: Position::default(),
        dimensions: Dimensions { width: 20, height: 5 },
    });
    schema.insert_entity(Entity {
        name: "posts".to_string(),
        columns: vec![column("id", "INT", false, true), column("user_id", "INT", true, false)],
        position: Position::default(),
        dimensions: Dimensions { width: 20, height: 5 },
    });
    schema.relationships.push(Relationship {
        from_table: "posts".to_string(),
        from_column: "user_id".to_string(),
        to_table: "users".to_string(),
        to_column: "uuid".to_string(),
        relationship_type: RelationshipType::OneToMany,
    });

    let errors = sync.validate_schema(&schema);
    assert_eq!(errors.len(), 1);
    assert!(errors[0].contains("Referenced column"));
    assert!(errors[0].contains("uuid"));
}

#[test]
fn test_insert_entity_replaces_same_name() {
    let mut schema = Schema::new();
    schema.insert_entity(Entity {
        name: "users".to_string(),
        columns: vec![],
        position: Position { x: 1, y: 1 },
        dimensions: Dimensions { width: 20, height: 5 },
    });
    schema.insert_entity(Entity {
        name: "users".to_string(),
        columns: vec![column("id", "INT", false, true)],
        position: Position { x: 2, y: 2 },
        dimensions: Dimensions { width: 20, height: 5 },
    });
    assert_eq!(schema.entities.len(), 1);
    assert_eq!(schema.entities[0].columns.len(), 1);
    assert_eq!(schema.entities[0].position, Position { x: 2, y: 2 });
}
