use nerd::engine::{into_entities, ColumnDef, Entity, ForeignKey, TableDef};
use nerd::render::{connection_points, draw_simple_fk, render, render_foreign_key};

fn table(name: &str, columns: &[&str]) -> TableDef {
    TableDef {
        table_name: name.to_string(),
        column_defs: columns
            .iter()
            .map(|c| ColumnDef { name: c.to_string(), data_type: "INT".to_string() })
            .collect(),
        foreign_keys: Vec::new(),
    }
}

fn table_with_fk(name: &str, columns: &[&str], fks: &[(&str, &str, &str)]) -> TableDef {
    let mut t = table(name, columns);
    t.foreign_keys = fks
        .iter()
        .map(|(from_col, to_table, to_col)| ForeignKey {
            referencing_column_name: from_col.to_string(),
            referenced_table_name: to_table.to_string(),
            referenced_column_name: to_col.to_string(),
        })
        .collect();
    t
}

fn blank_canvas(width: usize, height: usize) -> Vec<Vec<char>> {
    vec![vec![' '; width]; height]
}

fn count_char(canvas: &Vec<Vec<char>>, ch: char) -> usize {
    canvas.iter().map(|row| row.iter().filter(|c| **c == ch).count()).sum()
}

#[test]
fn test_render() {
    let schemas = vec![
        table_with_fk(
            "Tab1",
            &["col1", "col2", "col3", "col4"],
            &[("col1", "Tab10", "col1")],
        ),
        table("Tab2", &["col1", "col2"]),
        table("Tab3", &["col1", "col2", "col3", "col4", "col5", "col6"]),
        table("Tab4", &["col1", "col2"]),
        table("Tab5", &["col1", "col2"]),
        table("Tab6", &["col1", "col2"]),
        table("Tab7", &["col1", "col2"]),
        table("Tab8", &["col1", "col2"]),
        table("Tab9", &["col1", "col2"]),
        table("Tab10", &["col1", "col2"]),
        table("Tab11", &["col1", "col2"]),
        table("Tab12", &["col1", "col2"]),
        table("Tab13", &["col1", "col2"]),
        table("Tab14", &["col1", "col2"]),
        table("Tab15", &["col1", "col2"]),
        table("Tab16", &["col1", "col2"]),
    ];
    let entities = into_entities(schemas);

    let canvas = blank_canvas(100, 100);
    let (canvas, _actual) = render(canvas, &entities);
    let (_, actual) = render_foreign_key(canvas, &entities);
    assert!(!actual.trim().is_empty(), "Rendered output should not be empty");
    assert!(actual.contains("Tab1"), "Should contain Tab1");
    assert!(actual.contains("Tab16"), "Should contain Tab16");
}

#[test]
fn test_simple_table_rendering() {
    let schemas = vec![table("users", &["id", "email", "name"])];
    let entities = into_entities(schemas);

    let canvas = blank_canvas(100, 50);
    let (_, rendered_string) = render(canvas, &entities);

    assert!(rendered_string.contains("users"));
    assert!(rendered_string.contains("id"));
    assert!(rendered_string.contains("email"));
    assert!(rendered_string.contains('\u{250c}'));
    assert!(rendered_string.contains('\u{2518}'));
    assert!(rendered_string.contains('\u{251c}'));
}

#[test]
fn test_multiple_tables_rendering() {
    let schemas = vec![
        table("users", &["id", "email", "name", "created_at"]),
        table_with_fk(
            "posts",
            &["id", "title", "content", "user_id"],
            &[("user_id", "users", "id")],
        ),
    ];
    let entities = into_entities(schemas);

    let canvas = blank_canvas(100, 50);
    let (_, rendered_string) = render(canvas, &entities);

    assert!(rendered_string.contains("users"));
    assert!(rendered_string.contains("posts"));
    assert!(rendered_string.contains("user_id"));
}

#[test]
fn test_foreign_key_rendering() {
    let schemas = vec![
        table("users", &["id", "email", "name"]),
        table_with_fk("posts", &["id", "title", "user_id"], &[("user_id", "users", "id")]),
        table_with_fk(
            "comments",
            &["id", "content", "post_id", "user_id"],
            &[("post_id", "posts", "id"), ("user_id", "users", "id")],
        ),
    ];
    let entities = into_entities(schemas);

    let canvas = blank_canvas(100, 50);
    let (canvas, boxes_only) = render(canvas, &entities);
    let (_, rendered_with_fks) = render_foreign_key(canvas, &entities);

    assert!(rendered_with_fks.contains("users"));
    assert!(rendered_with_fks.contains("posts"));
    assert!(rendered_with_fks.contains("comments"));
    // The connector pass drew something the box pass had not.
    assert_ne!(boxes_only, rendered_with_fks);
    // An arrowhead marks each resolvable referenced column.
    let has_arrow = rendered_with_fks.contains('\u{25c4}')
        || rendered_with_fks.contains('\u{25ba}')
        || rendered_with_fks.contains('\u{25b2}')
        || rendered_with_fks.contains('\u{25bc}');
    assert!(has_arrow);
}

#[test]
fn test_self_referencing_table() {
    let schemas = vec![table_with_fk(
        "categories",
        &["id", "name", "parent_id"],
        &[("parent_id", "categories", "id")],
    )];
    let entities = into_entities(schemas);

    let canvas = blank_canvas(100, 50);
    let (canvas, boxes_only) = render(canvas, &entities);
    let (_, rendered_with_fks) = render_foreign_key(canvas, &entities);

    assert!(rendered_with_fks.contains("categories"));
    // The loop back onto the same table is not degenerate: the
    // connector pass drew at least the arrowhead above the box.
    assert_ne!(boxes_only, rendered_with_fks);
    assert!(rendered_with_fks.contains('\u{25b2}'));
}

#[test]
fn test_complex_schema_rendering() {
    let schemas = vec![
        table("users", &["id", "email", "name", "created_at"]),
        table_with_fk("categories", &["id", "name", "parent_id"], &[(
            "parent_id",
            "categories",
            "id",
        )]),
        table_with_fk(
            "products",
            &["id", "name", "category_id", "price", "stock", "created_by"],
            &[("category_id", "categories", "id"), ("created_by", "users", "id")],
        ),
        table_with_fk("orders", &["id", "user_id", "status", "total", "created_at"], &[(
            "user_id", "users", "id",
        )]),
        table_with_fk(
            "order_items",
            &["id", "order_id", "product_id", "quantity", "price"],
            &[("order_id", "orders", "id"), ("product_id", "products", "id")],
        ),
    ];
    let entities = into_entities(schemas);

    let canvas = blank_canvas(150, 80);
    let (canvas, _) = render(canvas, &entities);
    let (_, rendered_with_fks) = render_foreign_key(canvas, &entities);

    assert!(rendered_with_fks.contains("users"));
    assert!(rendered_with_fks.contains("categories"));
    assert!(rendered_with_fks.contains("products"));
    assert!(rendered_with_fks.contains("orders"));
    assert!(rendered_with_fks.contains("order_item"));
}

#[test]
fn test_table_with_many_columns() {
    let schemas = vec![table(
        "detailed_users",
        &[
            "id",
            "username",
            "email",
            "first_name",
            "last_name",
            "phone",
            "address",
            "city",
            "country",
            "postal_code",
            "date_of_birth",
            "created_at",
            "updated_at",
            "is_active",
            "last_login",
        ],
    )];
    let entities = into_entities(schemas);

    let canvas = blank_canvas(100, 50);
    let (_, rendered_string) = render(canvas, &entities);

    // Names are truncated to the box interior, never wrapped.
    assert!(rendered_string.contains("detailed_u"));
    assert!(rendered_string.contains("date_of_bi"));
    assert!(!rendered_string.contains("detailed_users"));
}

#[test]
fn test_render_is_idempotent() {
    // Re-running the box renderer over its own output changes nothing.
    let schemas = vec![
        table("users", &["id", "email", "name"]),
        table("posts", &["id", "title"]),
    ];
    let entities = into_entities(schemas);

    let canvas = blank_canvas(100, 50);
    let (once, first_text) = render(canvas, &entities);
    let (_, second_text) = render(once, &entities);
    assert_eq!(first_text, second_text);
}

#[test]
fn test_straight_connector_no_corner() {
    // A same-row connector is pure horizontal fill: no corner glyphs.
    let entities = vec![
        Entity { name: "a".to_string(), attributes: Vec::new(), x: 1, y: 1 },
        Entity { name: "b".to_string(), attributes: Vec::new(), x: 31, y: 1 },
    ];
    let mut canvas = blank_canvas(60, 20);
    draw_simple_fk(13, 5, 30, 5, &mut canvas, &entities);
    assert_eq!(count_char(&canvas, '\u{2500}'), (30 - 13 - 1) as usize);
    assert_eq!(count_char(&canvas, '\u{250c}'), 0);
    assert_eq!(count_char(&canvas, '\u{2510}'), 0);
    assert_eq!(count_char(&canvas, '\u{2514}'), 0);
    assert_eq!(count_char(&canvas, '\u{2518}'), 0);
    assert_eq!(count_char(&canvas, '\u{2502}'), 0);
}

#[test]
fn test_corner_glyph_direction() {
    // Travelling rightwards then downwards turns with the matching
    // corner, at the junction of the two segments.
    let entities: Vec<Entity> = Vec::new();
    let mut canvas = blank_canvas(40, 20);
    draw_simple_fk(2, 3, 20, 12, &mut canvas, &entities);
    assert_eq!(canvas[3][20], '\u{2510}');
    // And rightwards then upwards gets its own corner.
    let mut canvas = blank_canvas(40, 20);
    draw_simple_fk(2, 12, 20, 3, &mut canvas, &entities);
    assert_eq!(canvas[12][20], '\u{2518}');
}

#[test]
fn test_connector_avoids_interiors() {
    // A connector never writes inside any entity's content area, even
    // when the straight path would cross a blocking table.
    let schemas = vec![
        table_with_fk("left", &["id", "link"], &[("link", "right", "id")]),
        table("blocker", &["id", "x1", "x2", "x3"]),
        table("right", &["id"]),
    ];
    let entities = into_entities(schemas);
    let canvas = blank_canvas(100, 50);
    let (canvas, _) = render(canvas, &entities);
    let before = canvas.clone();
    let (after, _) = render_foreign_key(canvas, &entities);

    for e in &entities {
        for y in (e.y + 1)..(e.y + e.attributes.len() + 3) {
            for x in (e.x + 1)..(e.x + 11) {
                assert_eq!(after[y][x], before[y][x], "interior of {} changed", e.name);
            }
        }
    }
}

#[test]
fn test_two_table_connector_single_corner() {
    // The scenario of one referencing table beside its referenced
    // table: grid positions in the first row, and a connector with
    // exactly one corner glyph, since the two column rows differ.
    let schemas = vec![
        table("departments", &["id", "name"]),
        table_with_fk("employees", &["id", "dept_id"], &[("dept_id", "departments", "id")]),
    ];
    let entities = into_entities(schemas);
    assert_eq!((entities[0].x, entities[0].y), (1, 1));
    assert_eq!((entities[1].x, entities[1].y), (16, 1));

    let canvas = blank_canvas(100, 50);
    let (canvas, _) = render(canvas, &entities);
    let corners_before = count_char(&canvas, '\u{250c}')
        + count_char(&canvas, '\u{2510}')
        + count_char(&canvas, '\u{2514}')
        + count_char(&canvas, '\u{2518}');
    let (after, _) = render_foreign_key(canvas, &entities);
    let corners_after = count_char(&after, '\u{250c}')
        + count_char(&after, '\u{2510}')
        + count_char(&after, '\u{2514}')
        + count_char(&after, '\u{2518}');
    assert_eq!(corners_after - corners_before, 1);
}

#[test]
fn test_canvas_text_joins_rows() {
    let canvas = vec![vec!['a', 'b'], vec!['c', 'd']];
    let entities: Vec<Entity> = Vec::new();
    let (_, text) = render(canvas, &entities);
    assert_eq!(text, "ab\ncd");
}

#[test]
fn test_connection_points_sides() {
    let a = Entity {
        name: "a".to_string(),
        attributes: vec![
            nerd::engine::Attribute {
                name: "id".to_string(),
                data_type: "INT".to_string(),
                reffered_by: None,
                reffering_to: None,
            },
            nerd::engine::Attribute {
                name: "b_id".to_string(),
                data_type: "INT".to_string(),
                reffered_by: None,
                reffering_to: None,
            },
        ],
        x: 1,
        y: 1,
    };
    let mut b = a.clone();
    b.name = "b".to_string();
    b.x = 16;

    // Target to the right: leave a's right border, arrive left of b.
    let (from, to) = connection_points(&a, 1, &b, 0);
    assert_eq!(from, (13, 5));
    assert_eq!(to, (15, 4));

    // Target to the left: mirrored.
    let (from, to) = connection_points(&b, 0, &a, 0);
    assert_eq!(from, (15, 4));
    assert_eq!(to, (13, 4));

    // Same table: leave below, arrive above, never the same cell.
    let (from, to) = connection_points(&a, 1, &a, 0);
    assert_eq!(from, (7, 7));
    assert_eq!(to, (7, 0));
    assert_ne!(from, to);
}

#[test]
fn test_render_empty_entity_list() {
    let entities: Vec<Entity> = Vec::new();
    let canvas = blank_canvas(10, 3);
    let (grid, text) = render(canvas, &entities);
    assert_eq!(grid, blank_canvas(10, 3));
    assert_eq!(text, format!("{}\n{}\n{}", " ".repeat(10), " ".repeat(10), " ".repeat(10)));
}

#[test]
fn test_greedy_router_draws_towards_target() {
    // The greedy walker fills the blank run between the two points.
    let entities: Vec<Entity> = Vec::new();
    let mut canvas = blank_canvas(10, 3);
    nerd::render::draw_fk_with_depth(1, 1, 6, 1, &mut canvas, 0, &entities);
    for x in 2..=6 {
        assert_eq!(canvas[1][x], '\u{2500}');
    }
}
