//! Deterministic grid-wrap placement of entities.
//!
//! Tables arrive as plain definitions (name, columns, foreign keys) from
//! the SQL parsing collaborator.  `into_entities` turns them into placed
//! entities: slots run left to right in input order, a fixed number per
//! row; an entity whose slot column already holds an entity is stacked
//! below it, leaving a vertical gap, so rows of mixed heights never
//! overlap.

use vstd::prelude::*;

verus! {

/// Width of a rendered entity box, border cells included.
pub const ENTITY_WIDTH: usize = 12;

/// Width and height of the layout area.
pub const LAYOUT_SIZE: usize = 100;

/// Blank border kept around the layout area.
pub const MARGIN: usize = 1;

/// Blank cells between two entity slots.
pub const GAP: usize = 3;

/// Number of slot columns: slots start at `MARGIN + k * (ENTITY_WIDTH + GAP)`
/// for every `k` whose slot start lies inside the layout area.
pub const SLOTS_PER_ROW: usize = 7;

/// Ceiling on the number of tables accepted in one layout pass.
pub const MAX_TABLES: usize = 10_000;

/// Ceiling on the number of columns accepted in one table.
pub const MAX_COLUMNS: usize = 100;

/// One column of a parsed table definition.
#[derive(Debug, Clone)]
pub struct ColumnDef {
    pub name: String,
    pub data_type: String,
}

/// One foreign key of a parsed table definition.
#[derive(Debug, Clone)]
pub struct ForeignKey {
    pub referencing_column_name: String,
    pub referenced_table_name: String,
    pub referenced_column_name: String,
}

/// A parsed table definition, as the SQL parsing collaborator hands it over.
#[derive(Debug, Clone)]
pub struct TableDef {
    pub table_name: String,
    pub column_defs: Vec<ColumnDef>,
    pub foreign_keys: Vec<ForeignKey>,
}

/// An entity placed on the grid: name, attribute rows, top-left corner.
#[derive(Debug, Clone)]
pub struct Entity {
    pub name: String,
    pub attributes: Vec<Attribute>,
    pub x: usize,
    pub y: usize,
}

/// One attribute row of an entity, with its foreign-key links in both
/// directions: `reffering_to` points at the referenced table and column,
/// `reffered_by` names a table and column that reference this one.
#[derive(Debug, Clone)]
pub struct Attribute {
    pub name: String,
    pub data_type: String,
    pub reffered_by: Option<(String, String)>,
    pub reffering_to: Option<(String, String)>,
}

/// View of an optional pair of strings as sequences of characters.
pub open spec fn pair_view(o: Option<(String, String)>) -> Option<(Seq<char>, Seq<char>)> {
    match o {
        Some(p) => Some((p.0@, p.1@)),
        None => None,
    }
}

/// Referenced table and column of the first foreign key whose referencing
/// column is `col`, or `None`.
pub open spec fn referring_target(fks: Seq<ForeignKey>, col: Seq<char>) -> Option<(Seq<char>, Seq<char>)>
    decreases fks.len(),
{
    if fks.len() == 0 {
        None
    } else if fks[0].referencing_column_name@ == col {
        Some((fks[0].referenced_table_name@, fks[0].referenced_column_name@))
    } else {
        referring_target(fks.drop_first(), col)
    }
}

/// First foreign key in `fks` that points at column `col` of table `table`,
/// or `None`.
pub open spec fn fk_into(fks: Seq<ForeignKey>, table: Seq<char>, col: Seq<char>) -> Option<ForeignKey>
    decreases fks.len(),
{
    if fks.len() == 0 {
        None
    } else if fks[0].referenced_table_name@ == table && fks[0].referenced_column_name@ == col {
        Some(fks[0])
    } else {
        fk_into(fks.drop_first(), table, col)
    }
}

/// Referencing table and column of the first foreign key, over all table
/// definitions in order, that points at column `col` of table `table`.
pub open spec fn referred_by_source(
    schemas: Seq<TableDef>,
    table: Seq<char>,
    col: Seq<char>,
) -> Option<(Seq<char>, Seq<char>)>
    decreases schemas.len(),
{
    if schemas.len() == 0 {
        None
    } else {
        match fk_into(schemas[0].foreign_keys@, table, col) {
            Some(fk) => Some((schemas[0].table_name@, fk.referencing_column_name@)),
            None => referred_by_source(schemas.drop_first(), table, col),
        }
    }
}

/// The attribute that `into_entities` builds for column `j` of table `i`.
pub open spec fn attribute_matches(
    schemas: Seq<TableDef>,
    i: int,
    j: int,
    a: Attribute,
) -> bool {
    &&& a.name@ == schemas[i].column_defs@[j].name@
    &&& a.data_type@ == schemas[i].column_defs@[j].data_type@
    &&& pair_view(a.reffering_to) == referring_target(
        schemas[i].foreign_keys@,
        schemas[i].column_defs@[j].name@,
    )
    &&& pair_view(a.reffered_by) == referred_by_source(
        schemas,
        schemas[i].table_name@,
        schemas[i].column_defs@[j].name@,
    )
}

/// Horizontal slot position of the `i`-th entity.
pub open spec fn slot_x(i: int) -> int {
    MARGIN + (i % (SLOTS_PER_ROW as int)) * ((ENTITY_WIDTH + GAP) as int)
}

/// Vertical position of the `i`-th entity: the first row of slots sits at
/// the margin; later entities in the same slot column stack below their
/// predecessor, a gap beneath its box.
pub open spec fn grid_y(es: Seq<Entity>, i: int) -> bool {
    if i < SLOTS_PER_ROW as int {
        es[i].y == MARGIN as int
    } else {
        es[i].y == es[i - SLOTS_PER_ROW as int].y
            + es[i - SLOTS_PER_ROW as int].attributes@.len() + 3 + GAP as int
    }
}

/// The whole placement discipline of `into_entities`.
pub open spec fn grid_placed(es: Seq<Entity>) -> bool {
    forall|i: int| 0 <= i < es.len() ==> (#[trigger] es[i]).x == slot_x(i) && grid_y(es, i)
}

/// Number of grid rows a box occupies: border, title, separator,
/// attribute rows, border.
pub open spec fn box_height(e: Entity) -> int {
    e.attributes@.len() as int + 4
}

/// The bounding rectangles of `a` and `b` share no cell.
pub open spec fn boxes_disjoint(a: Entity, b: Entity) -> bool {
    ||| a.x + ENTITY_WIDTH <= b.x
    ||| b.x + ENTITY_WIDTH <= a.x
    ||| a.y + box_height(a) <= b.y
    ||| b.y + box_height(b) <= a.y
}

/// Find the referenced table and column of the first foreign key whose
/// referencing column is `col`.
fn referring_of(fks: &Vec<ForeignKey>, col: &String) -> (r: Option<(String, String)>)
    ensures
        pair_view(r) == referring_target(fks@, col@),
{
    let n = fks.len();
    let mut i: usize = 0;
    proof {
        assert(fks@.skip(0) =~= fks@);
    }
    while i < n
        invariant
            n == fks@.len(),
            0 <= i <= n,
            referring_target(fks@, col@) == referring_target(fks@.skip(i as int), col@),
        decreases n - i,
    {
        if fks[i].referencing_column_name == *col {
            proof {
                assert(fks@.skip(i as int)[0] == fks@[i as int]);
            }
            return Some((
                fks[i].referenced_table_name.clone(),
                fks[i].referenced_column_name.clone(),
            ));
        }
        proof {
            assert(fks@.skip(i as int)[0] == fks@[i as int]);
            assert(fks@.skip(i as int).drop_first() =~= fks@.skip(i + 1));
        }
        i += 1;
    }
    proof {
        assert(fks@.skip(n as int).len() == 0);
    }
    None
}

/// Find the first foreign key among `fks` that points at column `col` of
/// table `table`.
fn fk_into_of(fks: &Vec<ForeignKey>, table: &String, col: &String) -> (r: Option<ForeignKey>)
    ensures
        match fk_into(fks@, table@, col@) {
            Some(fk) => r matches Some(x) && x.referencing_column_name@ == fk.referencing_column_name@
                && x.referenced_table_name@ == fk.referenced_table_name@
                && x.referenced_column_name@ == fk.referenced_column_name@,
            None => r is None,
        },
{
    let n = fks.len();
    let mut i: usize = 0;
    proof {
        assert(fks@.skip(0) =~= fks@);
    }
    while i < n
        invariant
            n == fks@.len(),
            0 <= i <= n,
            fk_into(fks@, table@, col@) == fk_into(fks@.skip(i as int), table@, col@),
        decreases n - i,
    {
        if fks[i].referenced_table_name == *table && fks[i].referenced_column_name == *col {
            proof {
                assert(fks@.skip(i as int)[0] == fks@[i as int]);
            }
            return Some(ForeignKey {
                referencing_column_name: fks[i].referencing_column_name.clone(),
                referenced_table_name: fks[i].referenced_table_name.clone(),
                referenced_column_name: fks[i].referenced_column_name.clone(),
            });
        }
        proof {
            assert(fks@.skip(i as int)[0] == fks@[i as int]);
            assert(fks@.skip(i as int).drop_first() =~= fks@.skip(i + 1));
        }
        i += 1;
    }
    proof {
        assert(fks@.skip(n as int).len() == 0);
    }
    None
}

/// Find, over all table definitions in order, the referencing table and
/// column of the first foreign key that points at column `col` of `table`.
fn referred_by_of(schemas: &Vec<TableDef>, table: &String, col: &String) -> (r: Option<(String, String)>)
    ensures
        pair_view(r) == referred_by_source(schemas@, table@, col@),
{
    let n = schemas.len();
    let mut i: usize = 0;
    proof {
        assert(schemas@.skip(0) =~= schemas@);
    }
    while i < n
        invariant
            n == schemas@.len(),
            0 <= i <= n,
            referred_by_source(schemas@, table@, col@)
                == referred_by_source(schemas@.skip(i as int), table@, col@),
        decreases n - i,
    {
        proof {
            assert(schemas@.skip(i as int)[0] == schemas@[i as int]);
            assert(schemas@.skip(i as int).drop_first() =~= schemas@.skip(i + 1));
        }
        match fk_into_of(&schemas[i].foreign_keys, table, col) {
            Some(fk) => {
                return Some((schemas[i].table_name.clone(), fk.referencing_column_name));
            }
            None => {}
        }
        i += 1;
    }
    proof {
        assert(schemas@.skip(n as int).len() == 0);
    }
    None
}

/// Build the attribute rows of table `i`.
fn build_attributes(schemas: &Vec<TableDef>, i: usize) -> (r: Vec<Attribute>)
    requires
        i < schemas@.len(),
    ensures
        r@.len() == schemas@[i as int].column_defs@.len(),
        forall|j: int| 0 <= j < r@.len()
            ==> attribute_matches(schemas@, i as int, j, #[trigger] r@[j]),
{
    let schema = &schemas[i];
    let m = schema.column_defs.len();
    let mut attrs: Vec<Attribute> = Vec::new();
    let mut j: usize = 0;
    while j < m
        invariant
            i < schemas@.len(),
            schema == schemas@[i as int],
            m == schema.column_defs@.len(),
            0 <= j <= m,
            attrs@.len() == j,
            forall|k: int| 0 <= k < j
                ==> attribute_matches(schemas@, i as int, k, #[trigger] attrs@[k]),
        decreases m - j,
    {
        let column_def = &schema.column_defs[j];
        let reffering_to = referring_of(&schema.foreign_keys, &column_def.name);
        let reffered_by = referred_by_of(schemas, &schema.table_name, &column_def.name);
        attrs.push(Attribute {
            name: column_def.name.clone(),
            data_type: column_def.data_type.clone(),
            reffered_by,
            reffering_to,
        });
        j += 1;
    }
    attrs
}

/// Place every table on the grid, left to right and top to bottom.
///
/// The `i`-th entity lands in slot column `i mod SLOTS_PER_ROW`; the first
/// entity of a slot column sits at the margin and each later one is
/// stacked a gap below the previous box in that column.  The result is
/// overlap-free: see `lemma_grid_no_overlap`.
/// Horizontal and vertical placement of the next entity, given the ones
/// already placed.
fn next_slot(acc: &Vec<Entity>) -> (p: (usize, usize))
    requires
        acc@.len() < MAX_TABLES,
        grid_placed(acc@),
        forall|i: int| 0 <= i < acc@.len()
            ==> (#[trigger] acc@[i]).y <= MARGIN + i * (MAX_COLUMNS + 3 + GAP),
        forall|i: int| 0 <= i < acc@.len()
            ==> (#[trigger] acc@[i]).attributes@.len() <= MAX_COLUMNS,
    ensures
        p.0 == slot_x(acc@.len() as int),
        acc@.len() < SLOTS_PER_ROW ==> p.1 == MARGIN as int,
        acc@.len() >= SLOTS_PER_ROW ==> p.1 == acc@[acc@.len() - SLOTS_PER_ROW].y
            + acc@[acc@.len() - SLOTS_PER_ROW].attributes@.len() + 3 + GAP as int,
        p.1 <= MARGIN + acc@.len() * (MAX_COLUMNS + 3 + GAP),
{
    let index = acc.len();
    let slot = index % SLOTS_PER_ROW;
    proof {
        vstd::arithmetic::div_mod::lemma_mod_bound(index as int, SLOTS_PER_ROW as int);
        assert(slot * ((ENTITY_WIDTH + GAP) as int) <= 90) by (nonlinear_arith)
            requires
                0 <= slot < 7,
                ENTITY_WIDTH + GAP == 15,
        ;
    }
    let x = MARGIN + slot * (ENTITY_WIDTH + GAP);
    let y = if index >= SLOTS_PER_ROW {
        let prev = index - SLOTS_PER_ROW;
        proof {
            let k = (MAX_COLUMNS + 3 + GAP) as int;
            assert(acc@[prev as int].y <= MARGIN + prev * k);
            assert(acc@[prev as int].attributes@.len() <= MAX_COLUMNS);
            assert(MARGIN + prev * k + k == MARGIN + (prev + 1) * k) by (nonlinear_arith);
            assert((prev + 1) * k <= index * k) by (nonlinear_arith)
                requires
                    0 <= prev + 1 <= index,
                    k >= 0,
            ;
            assert(index * k <= 10_000 * 106) by (nonlinear_arith)
                requires
                    0 <= index <= 10_000,
                    0 <= k <= 106,
            ;
        }
        acc[prev].y + acc[prev].attributes.len() + 3 + GAP
    } else {
        MARGIN
    };
    (x, y)
}

#[verifier::rlimit(50)]
pub fn into_entities(schemas: Vec<TableDef>) -> (r: Vec<Entity>)
    requires
        schemas@.len() <= MAX_TABLES,
        forall|i: int| 0 <= i < schemas@.len()
            ==> (#[trigger] schemas@[i]).column_defs@.len() <= MAX_COLUMNS,
    ensures
        r@.len() == schemas@.len(),
        forall|i: int| 0 <= i < r@.len()
            ==> (#[trigger] r@[i]).name@ == schemas@[i].table_name@,
        forall|i: int| 0 <= i < r@.len()
            ==> (#[trigger] r@[i]).attributes@.len() == schemas@[i].column_defs@.len(),
        forall|i: int, j: int| 0 <= i < r@.len() && 0 <= j < r@[i].attributes@.len()
            ==> attribute_matches(schemas@, i, j, #[trigger] r@[i].attributes@[j]),
        grid_placed(r@),
        forall|i: int, j: int| 0 <= i < j < r@.len()
            ==> boxes_disjoint(#[trigger] r@[i], #[trigger] r@[j]),
{
    let n = schemas.len();
    let mut acc: Vec<Entity> = Vec::new();
    let mut index: usize = 0;
    while index < n
        invariant
            n == schemas@.len(),
            n <= MAX_TABLES,
            forall|i: int| 0 <= i < schemas@.len()
                ==> (#[trigger] schemas@[i]).column_defs@.len() <= MAX_COLUMNS,
            0 <= index <= n,
            acc@.len() == index,
            forall|i: int| 0 <= i < acc@.len()
                ==> (#[trigger] acc@[i]).name@ == schemas@[i].table_name@,
            forall|i: int| 0 <= i < acc@.len()
                ==> (#[trigger] acc@[i]).attributes@.len() == schemas@[i].column_defs@.len(),
            forall|i: int, j: int| 0 <= i < acc@.len() && 0 <= j < acc@[i].attributes@.len()
                ==> attribute_matches(schemas@, i, j, #[trigger] acc@[i].attributes@[j]),
            grid_placed(acc@),
            forall|i: int| 0 <= i < acc@.len()
                ==> (#[trigger] acc@[i]).y <= MARGIN + i * (MAX_COLUMNS + 3 + GAP),
        decreases n - index,
    {
        let attributes = build_attributes(&schemas, index);
        let (x, y) = next_slot(&acc);

        let ghost prior = acc@;
        acc.push(Entity {
            name: schemas[index].table_name.clone(),
            attributes,
            x,
            y,
        });

        proof {
            let es = acc@;
            let i0 = index as int;
            assert forall|i: int| 0 <= i < es.len() implies (#[trigger] es[i]).x == slot_x(i)
                && grid_y(es, i) by {
                if i < i0 {
                    assert(es[i] == prior[i]);
                    assert(grid_y(prior, i));
                    if i >= SLOTS_PER_ROW as int {
                        assert(es[i - SLOTS_PER_ROW as int] == prior[i - SLOTS_PER_ROW as int]);
                    }
                } else {
                    if i0 >= SLOTS_PER_ROW as int {
                        assert(es[i0 - SLOTS_PER_ROW as int] == prior[i0 - SLOTS_PER_ROW as int]);
                    }
                }
            }
            assert forall|i: int, j: int|
                0 <= i < es.len() && 0 <= j < es[i].attributes@.len() implies attribute_matches(
                schemas@,
                i,
                j,
                #[trigger] es[i].attributes@[j],
            ) by {
                if i < i0 {
                    assert(es[i] == prior[i]);
                }
            }
        }
        index += 1;
    }
    proof {
        lemma_grid_no_overlap(acc@);
    }
    acc
}

/// Entities in the same slot column are stacked strictly downwards, each
/// one's box ending above the next one's top row.
proof fn lemma_grid_stacking(es: Seq<Entity>, i: int, j: int)
    requires
        grid_placed(es),
        0 <= i < j < es.len(),
        i % (SLOTS_PER_ROW as int) == j % (SLOTS_PER_ROW as int),
    ensures
        es[i].y + box_height(es[i]) <= es[j].y,
    decreases j - i,
{
    let p = SLOTS_PER_ROW as int;
    assert((j - p) % p == j % p) by {
        vstd::arithmetic::div_mod::lemma_mod_sub_multiples_vanish(j, p);
    }
    assert(j - p >= 0) by {
        if j < p {
            assert(i % p == i && j % p == j);
        }
    }
    assert(grid_y(es, j));
    if j - p == i {
        assert(es[j].y == es[i].y + es[i].attributes@.len() + 3 + GAP);
    } else {
        assert(i < j - p) by {
            if i > j - p {
                assert(i - (j - p) < p);
                assert((i - (j - p)) % p == 0) by {
                    vstd::arithmetic::div_mod::lemma_mod_sub_multiples_vanish(i, p);
                    vstd::arithmetic::div_mod::lemma_sub_mod_noop(i, j - p, p);
                    vstd::arithmetic::div_mod::lemma_small_mod((i - (j - p)) as nat, p as nat);
                }
            }
        }
        lemma_grid_stacking(es, i, j - p);
        assert(es[j].y == es[j - p].y + es[j - p].attributes@.len() + 3 + GAP);
    }
}

/// Grid-wrap placement never overlaps two entities: entities in different
/// slot columns are separated horizontally by at least a full slot, and
/// entities in the same slot column are stacked with a gap between boxes.
pub proof fn lemma_grid_no_overlap(es: Seq<Entity>)
    requires
        grid_placed(es),
    ensures
        forall|i: int, j: int| 0 <= i < j < es.len()
            ==> boxes_disjoint(#[trigger] es[i], #[trigger] es[j]),
{
    let p = SLOTS_PER_ROW as int;
    assert forall|i: int, j: int| 0 <= i < j < es.len() implies boxes_disjoint(
        #[trigger] es[i],
        #[trigger] es[j],
    ) by {
        assert(es[i].x == slot_x(i) && grid_y(es, i));
        assert(es[j].x == slot_x(j) && grid_y(es, j));
        assert(0 <= i % p < p) by {
            vstd::arithmetic::div_mod::lemma_mod_bound(i, p);
        }
        assert(0 <= j % p < p) by {
            vstd::arithmetic::div_mod::lemma_mod_bound(j, p);
        }
        if i % p == j % p {
            lemma_grid_stacking(es, i, j);
        } else if i % p < j % p {
            assert(es[i].x + ENTITY_WIDTH <= es[j].x);
        } else {
            assert(es[j].x + ENTITY_WIDTH <= es[i].x);
        }
    }
}

} // verus!
