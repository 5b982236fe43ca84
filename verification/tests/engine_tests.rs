use nerd::engine::{into_entities, ColumnDef, ForeignKey, TableDef};

fn table(name: &str, columns: &[&str]) -> TableDef {
    TableDef {
        table_name: name.to_string(),
        column_defs: columns
            .iter()
            .map(|c| ColumnDef { name: c.to_string(), data_type: "INT".to_string() })
            .collect(),
        foreign_keys: Vec::new(),
    }
}

fn table_with_fk(name: &str, columns: &[&str], fks: &[(&str, &str, &str)]) -> TableDef {
    let mut t = table(name, columns);
    t.foreign_keys = fks
        .iter()
        .map(|(from_col, to_table, to_col)| ForeignKey {
            referencing_column_name: from_col.to_string(),
            referenced_table_name: to_table.to_string(),
            referenced_column_name: to_col.to_string(),
        })
        .collect();
    t
}

#[test]
fn test_engine() {
    let schemas = vec![
        table("Tab1", &["col1", "col2"]),
        table("Tab2", &["col1", "col2"]),
        table("Tab3", &["col1", "col2"]),
        table("Tab4", &["col1", "col2"]),
        table("Tab5", &["col1", "col2"]),
        table("Tab6", &["col1", "col2"]),
        table("Tab7", &["col1", "col2"]),
        table("Tab8", &["col1", "col2"]),
        table("Tab9", &["col1", "col2"]),
        table("Tab10", &["col1", "col2"]),
    ];

    let entities = into_entities(schemas);

    let positions: Vec<(String, usize, usize)> = entities
        .iter()
        .map(|entity| (entity.name.clone(), entity.x, entity.y))
        .collect();

    assert_eq!(
        positions,
        vec![
            ("Tab1".to_owned(), 1, 1),
            ("Tab2".to_owned(), 16, 1),
            ("Tab3".to_owned(), 31, 1),
            ("Tab4".to_owned(), 46, 1),
            ("Tab5".to_owned(), 61, 1),
            ("Tab6".to_owned(), 76, 1),
            ("Tab7".to_owned(), 91, 1),
            ("Tab8".to_owned(), 1, 9),
            ("Tab9".to_owned(), 16, 9),
            ("Tab10".to_owned(), 31, 9)
        ]
    );
}

#[test]
fn test_grid_wrap_row_positions() {
    // Ten identical tables wrap after the seventh slot; the eighth
    // starts a new row below the first row's boxes.
    let schemas: Vec<TableDef> = (1..=10).map(|i| table(&format!("T{}", i), &["a", "b"])).collect();
    let entities = into_entities(schemas);
    let xs: Vec<usize> = entities.iter().take(7).map(|e| e.x).collect();
    assert_eq!(xs, vec![1, 16, 31, 46, 61, 76, 91]);
    assert_eq!(entities[7].x, 1);
    assert_eq!(entities[7].y, 9);
}

#[test]
fn test_grid_wrap_no_overlap() {
    // Mixed heights: boxes never overlap, row by row.
    let schemas = vec![
        table("A", &["c1", "c2", "c3", "c4", "c5", "c6"]),
        table("B", &["c1"]),
        table("C", &["c1", "c2"]),
        table("D", &["c1", "c2", "c3"]),
        table("E", &["c1"]),
        table("F", &["c1", "c2", "c3", "c4"]),
        table("G", &["c1", "c2"]),
        table("H", &["c1", "c2"]),
        table("I", &["c1"]),
    ];
    let entities = into_entities(schemas);
    for i in 0..entities.len() {
        for j in (i + 1)..entities.len() {
            let a = &entities[i];
            let b = &entities[j];
            let disjoint = a.x + 12 <= b.x
                || b.x + 12 <= a.x
                || a.y + a.attributes.len() + 4 <= b.y
                || b.y + b.attributes.len() + 4 <= a.y;
            assert!(disjoint, "boxes {} and {} overlap", a.name, b.name);
        }
    }
}

#[test]
fn test_attribute_links() {
    let schemas = vec![
        table("departments", &["id", "name"]),
        table_with_fk("employees", &["id", "dept_id"], &[("dept_id", "departments", "id")]),
    ];
    let entities = into_entities(schemas);

    let dept_id = &entities[1].attributes[1];
    assert_eq!(dept_id.name, "dept_id");
    assert_eq!(
        dept_id.reffering_to,
        Some(("departments".to_string(), "id".to_string()))
    );

    let id = &entities[0].attributes[0];
    assert_eq!(id.reffered_by, Some(("employees".to_string(), "dept_id".to_string())));
    assert_eq!(id.reffering_to, None);
}
