use nerd::finder::{Char, Diagram, Direction, Point};

#[test]
fn test_point() {
    let actual_source = "
 ┌──────────┐   ┌──────────┐   ┌──────────┐   ┌──────────┐   ┌──────────┐   ┌──────────┐
 │Tab1      │   │Tab2      │   │Tab3      │   │Tab4      │   │Tab5      │   │Tab6      │
 ├──────────┤   ├──────────┤   ├──────────┤   ├──────────┤   ├──────────┤   ├──────────┤
 │col1      ├   │col1      │   │col1      │   │col1      │   │col1      │   │col1      │
 │col2      │   │col2      │   │col2      │   │col2      │   │col2      │   │col2      │
 │col3      │   └──────────┘   │col3      │   └──────────┘   └──────────┘   └──────────┘
 │col4      │                  │col4      │
 └──────────┘                  │col5      │
                               │col6      │
                ┌──────────┐   └──────────┘   ┌──────────┐   ┌──────────┐   ┌──────────┐
                │Tab8      │                  │Tab10     │   │Tab11     │   │Tab12     │
 ┌──────────┐   ├──────────┤                  ├──────────┤   ├──────────┤   ├──────────┤
 │Tab7      │   │col1      │                  │col1      │   │col1      │   │col1      │
 ├──────────┤   │col2      │   ┌──────────┐   │col2      │   │col2      │   │col2      │
 │col1      │   └──────────┘   │Tab9      │   └──────────┘   └──────────┘   └──────────┘
 │col2      │                  ├──────────┤
 └──────────┘                  │col1      │
                               │col2      │
                ┌──────────┐   └──────────┘   ┌──────────┐
                │Tab14     │                  │Tab16     │
 ┌──────────┐   ├──────────┤                  ├──────────┤
 │Tab13     │   │col1      │                  │col1      │
 ├──────────┤   │col2      │   ┌──────────┐   │col2      │
 │col1      │   └──────────┘   │Tab15     │   └──────────┘
 │col2      │                  ├──────────┤
 └──────────┘                  │col1      │
                               │col2      │
                               └──────────┘
";

    let mut canvas = Diagram {
        canvas: actual_source
            .split("\n")
            .map(|line| line.chars().collect::<Vec<_>>())
            .collect::<Vec<_>>(),
        point: Point::new(12, 4),
        target: Point::new(46, 13),
    };
    assert_eq!(canvas.get_char(), '\u{251c}');

    for _ in 0..43 {
        canvas.analyze_direction(None);
    }
    println!(
        "{}",
        canvas.to_string().chars().take(2000).collect::<String>()
    );
}

#[test]
fn test_char_round_trip() {
    let glyphs = [
        Char::Horizontal,
        Char::Vertical,
        Char::UpRight,
        Char::DownRight,
        Char::RightUp,
        Char::RightDown,
        Char::FkFrom,
        Char::FkTo,
        Char::Blank,
    ];
    for g in glyphs {
        assert_eq!(Char::from_char(g.as_char()), g);
    }
    assert_eq!(Char::Horizontal.as_char(), '\u{2500}');
    assert_eq!(Char::FkTo.as_char(), '\u{2192}');
    assert_eq!(Char::try_from_char('x'), None);
}

#[test]
fn test_diagram_cursor_and_cells() {
    let grid = vec![vec![' '; 5]; 4];
    let mut d = Diagram::new(grid, Point::new(4, 3));
    assert_eq!(d.point, Point::new(0, 0));
    d.set_char('\u{2500}');
    assert_eq!(d.get_char(), '\u{2500}');
    d.next(&Direction::Right);
    d.next(&Direction::Down);
    assert_eq!(d.point, Point::new(1, 1));
    assert_eq!(d.get_char(), ' ');
    assert_eq!(d.to_string(), "\u{2500}    \n     \n     \n     ");
}

#[test]
fn test_point_step_and_back() {
    let p = Point::new(3, 3);
    assert_eq!(p.next(&Direction::Up), Point::new(3, 2));
    assert_eq!(p.next(&Direction::Down), Point::new(3, 4));
    assert_eq!(p.next(&Direction::Left), Point::new(2, 3));
    assert_eq!(p.next(&Direction::Right), Point::new(4, 3));
    assert_eq!(p.back(&Direction::Right), Point::new(2, 3));
    assert_eq!(p.back(&Direction::Up), Point::new(3, 4));
}

#[test]
fn test_walk_step_draws_and_advances() {
    // One plain drawing step: the cursor stands on a line glyph, the
    // next cell towards the target is blank, so the call fills it and
    // moves there.
    let mut grid = vec![vec![' '; 8]];
    grid[0][1] = '\u{2500}';
    let mut d = Diagram {
        canvas: grid,
        point: Point::new(1, 0),
        target: Point::new(6, 0),
    };
    let r = d.analyze_direction(None);
    assert_eq!(r, Direction::Stay);
    assert_eq!(d.point, Point::new(2, 0));
    assert_eq!(d.canvas[0][2], '\u{2500}');
}

#[test]
fn test_walk_at_target_is_a_no_op() {
    let grid = vec![vec![' '; 4]; 4];
    let before = grid.clone();
    let mut d = Diagram {
        canvas: grid,
        point: Point::new(2, 2),
        target: Point::new(2, 2),
    };
    let r = d.analyze_direction(None);
    assert_eq!(r, Direction::Stay);
    assert_eq!(d.point, Point::new(2, 2));
    assert_eq!(d.canvas, before);
}
