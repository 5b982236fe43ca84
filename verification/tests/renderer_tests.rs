use nerd::builder::{Rect, RectBuilder};
use nerd::models::{Column, Dimensions, Entity, Position, Schema};
use nerd::renderer::{centered_rect, DiagramRenderer};

fn column(name: &str, data_type: &str, primary: bool, foreign: bool) -> Column {
    Column {
        name: name.to_string(),
        data_type: data_type.to_string(),
        nullable: false,
        is_primary_key: primary,
        is_foreign_key: foreign,
        references: None,
    }
}

#[test]
fn test_calculate_entity_area() {
    let renderer = DiagramRenderer::new(800, 600);

    let entity = Entity {
        name: "test".to_string(),
        columns: vec![],
        position: Position { x: 400, y: 300 },
        dimensions: Dimensions { width: 20, height: 10 },
    };

    let canvas_area = Rect { x: 0, y: 0, width: 100, height: 50 };

    let entity_area = renderer.calculate_entity_area(&entity, canvas_area);

    assert_eq!(entity_area.x, 50);
    assert_eq!(entity_area.y, 25);
    assert_eq!(entity_area.width, 20);
    assert_eq!(entity_area.height, 10);
}

#[test]
fn test_centered_rect() {
    let area = Rect { x: 0, y: 0, width: 100, height: 50 };

    let centered = centered_rect(50, 60, area);

    assert_eq!(centered.width, 50);
    assert_eq!(centered.height, 30);
    assert_eq!(centered.x, 25);
    assert_eq!(centered.y, 10);
}

#[test]
fn test_calculate_column_y_position() {
    let renderer = DiagramRenderer::new(800, 600);

    let entity = Entity {
        name: "test_table".to_string(),
        columns: vec![
            column("id", "INT", true, false),
            column("user_id", "INT", false, true),
            column("name", "VARCHAR(100)", false, false),
        ],
        position: Position { x: 100, y: 100 },
        dimensions: Dimensions { width: 30, height: 10 },
    };

    let entity_area = Rect { x: 10, y: 10, width: 30, height: 10 };

    let id_y = renderer.calculate_column_y_position(&entity, &"id".to_string(), &entity_area);
    assert_eq!(id_y, 11);

    let user_id_y =
        renderer.calculate_column_y_position(&entity, &"user_id".to_string(), &entity_area);
    assert_eq!(user_id_y, 12);

    let name_y = renderer.calculate_column_y_position(&entity, &"name".to_string(), &entity_area);
    assert_eq!(name_y, 13);

    let unknown_y =
        renderer.calculate_column_y_position(&entity, &"unknown".to_string(), &entity_area);
    assert_eq!(unknown_y, 11);
}

#[test]
fn test_direct_line_edge_cases() {
    let _renderer = DiagramRenderer::new(800, 600);

    let from_horizontal = (10, 20);
    let to_horizontal = (50, 20);

    let from_vertical = (30, 10);
    let to_vertical = (30, 40);

    assert_ne!(from_horizontal, to_horizontal);
    assert_ne!(from_vertical, to_vertical);

    let dx = to_horizontal.0 as i32 - from_horizontal.0 as i32;
    let dy = to_horizontal.1 as i32 - from_horizontal.1 as i32;
    assert_eq!(dy, 0);
    assert_ne!(dx, 0);

    let dx_vert = to_vertical.0 as i32 - from_vertical.0 as i32;
    let dy_vert = to_vertical.1 as i32 - from_vertical.1 as i32;
    assert_eq!(dx_vert, 0);
    assert_ne!(dy_vert, 0);
}

#[test]
fn test_entity_penetration_avoidance() {
    let renderer = DiagramRenderer::new(800, 600);

    let entity_area = Rect { x: 15, y: 10, width: 20, height: 5 };

    assert!(renderer.point_is_inside_entity(20, 12, &entity_area));
    assert!(renderer.point_is_inside_entity(25, 14, &entity_area));

    assert!(!renderer.point_is_inside_entity(10, 12, &entity_area));
    assert!(!renderer.point_is_inside_entity(40, 12, &entity_area));
    assert!(!renderer.point_is_inside_entity(20, 8, &entity_area));
    assert!(!renderer.point_is_inside_entity(20, 20, &entity_area));

    assert!(renderer.point_is_inside_entity(15, 10, &entity_area));
    assert!(renderer.point_is_inside_entity(34, 14, &entity_area));

    assert!(!renderer.point_is_inside_entity(14, 10, &entity_area));
    assert!(!renderer.point_is_inside_entity(35, 14, &entity_area));
    assert!(!renderer.point_is_inside_entity(15, 9, &entity_area));
    assert!(!renderer.point_is_inside_entity(15, 15, &entity_area));
}

#[test]
fn test_line_character_for_direction() {
    let renderer = DiagramRenderer::new(800, 600);
    assert_eq!(renderer.get_line_character_for_direction(5, 1), '\u{2500}');
    assert_eq!(renderer.get_line_character_for_direction(1, -5), '\u{2502}');
    assert_eq!(renderer.get_line_character_for_direction(3, 3), '\u{2502}');
    assert_eq!(renderer.get_line_character_for_direction(3, -3), '\u{2502}');
}

#[test]
fn test_widget_render_shows_schema() {
    let renderer = DiagramRenderer::new(100, 100);
    let mut schema = Schema::new();
    schema.insert_entity(Entity {
        name: "users".to_string(),
        columns: vec![column("id", "INT", true, false), column("age", "INT", false, false)],
        position: Position { x: 10, y: 10 },
        dimensions: Dimensions { width: 18, height: 6 },
    });

    let mut canvas = vec![vec![' '; 60]; 30];
    let area = Rect { x: 0, y: 0, width: 60, height: 30 };
    renderer.render(&mut canvas, &schema, area, &None);

    let text: String = canvas
        .iter()
        .map(|row| row.iter().collect::<String>())
        .collect::<Vec<String>>()
        .join("\n");
    assert!(text.contains("users"));
    assert!(text.contains("* id INT"));
    assert!(text.contains("  age INT"));
    assert!(text.contains('\u{250c}'));
    assert!(text.contains('\u{2518}'));
}

#[test]
fn test_rect_builder_allocates_and_wraps() {
    let mut builder = RectBuilder::new(60);
    let first = builder.get_rect(5);
    assert_eq!(first, Rect { x: 8, y: 4, width: 20, height: 5 });
    let second = builder.get_rect(3);
    assert_eq!(second, Rect { x: 36, y: 4, width: 20, height: 3 });
    // The next slot would overrun the 60-cell screen: wrap below the
    // rectangle just handed out.
    let third = builder.get_rect(7);
    assert_eq!(third, Rect { x: 8, y: 11, width: 20, height: 7 });
}
