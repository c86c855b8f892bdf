//! Cells, places on the board, and where abilities can be aimed.

use combat::content::{
    AbilityDef, AbilityRange, AoEShape, DiceExpr, EffectDef, ResourceCost, ResourceKind, TargetType,
};
use combat::effects_math::{aoe_cells, final_damage_i32};
use combat::hex::{
    all_cells, all_neighbors, all_steps, column_of, hex_circle, hex_from_offset, hex_line,
    hex_to_offset, Board, Hex,
};
use combat::ids::Entity;
use combat::influence::{cover_distance, danger_range, normalize_ranks};
use combat::positions::HexPositions;
use combat::targets::{
    aim_cells, candidates_circle, candidates_line, candidates_single, list_in_order, near_enough,
};

fn entity(id: u32) -> Entity {
    let outside = bevy::prelude::Entity::from_raw_u32(id).expect("valid entity id");
    Entity::try_from_bits(outside.to_bits()).expect("valid bits")
}

fn at(col: i32, row: i32) -> Hex {
    hex_from_offset(col, row)
}

fn board() -> Board {
    Board { row_cols: vec![8, 7, 8, 7, 8, 7, 8, 7] }
}

// ---------------------------------------------------------------------------
// Cells
// ---------------------------------------------------------------------------

#[test]
fn all_cells_matches_grid() {
    let board = board();
    let cells = all_cells(&board);
    let all_cell_count: u32 = board.row_cols.iter().sum();
    assert_eq!(cells.len(), all_cell_count as usize);
    for &h in &cells {
        assert!(board.in_bounds(h));
    }
}

#[test]
fn board_ends_where_its_rows_end() {
    let board = board();
    assert!(board.in_bounds(at(7, 0)));
    assert!(!board.in_bounds(at(7, 1)));
    assert!(!board.in_bounds(at(-1, 0)));
    assert!(!board.in_bounds(at(0, 8)));
    assert!(!board.in_bounds(at(0, -1)));
}

#[test]
fn offsets_are_found_again() {
    for row in -4..5 {
        for col in -4..5 {
            let h = at(col, row);
            assert_eq!(hex_to_offset(h), (col, row));
            assert_eq!(column_of(h), col as i64);
        }
    }
    assert_eq!(at(3, 3), Hex::new(2, 3));
}

#[test]
fn distances_are_those_of_hexx() {
    for (ax, ay, bx, by) in [(0, 0, 0, 0), (0, 0, 3, -1), (-2, 5, 4, 4), (1, 1, -3, -4)] {
        let outside = hexx::Hex::new(ax, ay).unsigned_distance_to(hexx::Hex::new(bx, by));
        assert_eq!(Hex::new(ax, ay).unsigned_distance_to(Hex::new(bx, by)), outside);
    }
    assert_eq!(Hex::new(0, 0).unsigned_distance_to(Hex::new(3, -1)), 3);
    assert_eq!(Hex::new(0, 0).unsigned_distance_to(Hex::new(2, 2)), 4);
}

#[test]
fn a_cell_has_six_neighbors() {
    let center = Hex::new(2, -1);
    let near = all_neighbors(center);
    assert_eq!(near.len(), 6);
    for h in &near {
        assert_eq!(center.unsigned_distance_to(*h), 1);
    }
    let outside: Vec<(i32, i32)> =
        hexx::Hex::new(2, -1).all_neighbors().iter().map(|h| (h.x, h.y)).collect();
    let inside: Vec<(i32, i32)> = near.iter().map(|h| (h.x, h.y)).collect();
    assert_eq!(inside, outside);
    assert_eq!(all_steps().len(), 6);
}

#[test]
fn a_circle_holds_what_is_near() {
    let center = Hex::new(1, 1);
    assert_eq!(hex_circle(center, 0), vec![center]);
    let cells = hex_circle(center, 2);
    assert_eq!(cells.len(), 19);
    for h in &cells {
        assert!(center.unsigned_distance_to(*h) <= 2);
    }
}

#[test]
fn a_circle_is_listed_column_by_column() {
    for (x, y, radius) in [(0, 0, 1), (3, -2, 2), (-5, 4, 3)] {
        let outside: Vec<(i32, i32)> =
            hexx::Hex::new(x, y).range(radius).map(|h| (h.x, h.y)).collect();
        let inside: Vec<(i32, i32)> =
            hex_circle(Hex::new(x, y), radius).iter().map(|h| (h.x, h.y)).collect();
        assert_eq!(inside, outside);
    }
    let small: Vec<(i32, i32)> =
        hex_circle(Hex::zero(), 1).iter().map(|h| (h.x, h.y)).collect();
    assert_eq!(small, vec![(-1, 0), (-1, 1), (0, -1), (0, 0), (0, 1), (1, -1), (1, 0)]);
}

#[test]
fn a_circle_is_the_same_from_everywhere() {
    let circle = AoEShape::Circle { radius: 2 };
    let aim = at(4, 4);
    let cells = aoe_cells(circle, at(0, 0), aim);
    assert_eq!(cells, hex_circle(aim, 2));
    assert_eq!(cells, aoe_cells(circle, at(7, 1), aim));
}

#[test]
fn a_line_leads_away_from_its_origin() {
    let from = Hex::new(0, 0);
    assert_eq!(
        hex_line(from, Hex::new(1, 0), 3),
        vec![Hex::new(1, 0), Hex::new(2, 0), Hex::new(3, 0)]
    );
    assert_eq!(
        hex_line(from, Hex::new(0, -5), 2),
        vec![Hex::new(0, -5), Hex::new(0, -6)]
    );
}

#[test]
fn a_line_takes_the_main_direction() {
    let outside = hexx::Hex::new(0, 0).main_direction_to(hexx::Hex::new(4, -1));
    let step = outside.into_hex();
    let line = hex_line(Hex::new(0, 0), Hex::new(4, -1), 2);
    assert_eq!(line.len(), 2);
    assert_eq!(line[1], Hex::new(line[0].x + step.x, line[0].y + step.y));
}

#[test]
fn directions_are_those_of_the_widest_axis() {
    let origin = Hex::new(1, -2);
    for x in -6..=6 {
        for y in -6..=6 {
            let target = Hex::new(x, y);
            let step = hexx::Hex::new(1, -2).main_direction_to(hexx::Hex::new(x, y)).into_hex();
            let line = hex_line(origin, target, 2);
            assert_eq!((line[1].x - x, line[1].y - y), (step.x, step.y));
        }
    }
    let off_axis = hex_line(Hex::zero(), Hex::new(4, -1), 2);
    assert_eq!(off_axis[1], Hex::new(5, -1));
    let nowhere = hex_line(Hex::zero(), Hex::zero(), 2);
    assert_eq!(nowhere[1], Hex::new(-1, 1));
}

// ---------------------------------------------------------------------------
// Places
// ---------------------------------------------------------------------------

#[test]
fn places_are_held_by_one_entity() {
    let mut p = HexPositions::new();
    p.insert(entity(1), at(0, 0));
    p.insert(entity(2), at(1, 0));
    assert_eq!(p.get(entity(1)), Some(at(0, 0)));
    assert_eq!(p.entity_at(at(1, 0)), Some(entity(2)));
    assert_eq!(p.entity_at(at(5, 5)), None);
    assert!(p.held_by_other(at(1, 0), entity(1)));
    assert!(!p.held_by_other(at(1, 0), entity(2)));
    p.insert(entity(1), at(3, 3));
    assert_eq!(p.get(entity(1)), Some(at(3, 3)));
    assert_eq!(p.entity_at(at(0, 0)), None);
    p.remove(entity(1));
    assert_eq!(p.get(entity(1)), None);
    p.remove(entity(1));
    assert_eq!(p.get(entity(2)), Some(at(1, 0)));
}

// ---------------------------------------------------------------------------
// Aims
// ---------------------------------------------------------------------------

fn fireball_def() -> AbilityDef {
    AbilityDef {
        id: "fireball".to_string(),
        name: "Fireball".to_string(),
        target_type: TargetType::SingleEnemy,
        range: AbilityRange { min: 0, max: 5 },
        effect: EffectDef::SpellDamage { dice: DiceExpr { count: 2, sides: 3, bonus: 0 } },
        costs: vec![ResourceCost { resource: ResourceKind::Mana, amount: 3 }],
        cost_ap: 1,
        aoe: AoEShape::Circle { radius: 1 },
        friendly_fire: true,
        statuses: vec![],
        key: None,
        is_move_toggle: false,
        passive: false,
        ai_tags_override: None,
    }
}

#[test]
fn circle_candidates_include_cell_between_enemies() {
    let enemies = vec![at(3, 3), at(5, 3)];
    let cands = candidates_circle(at(4, 1), 5, 1, &enemies);
    assert!(cands.contains(&at(4, 3)), "cell between enemies should be candidate");
}

#[test]
fn circle_candidates_filtered_by_range() {
    let enemies = vec![at(6, 5)];
    let cands = candidates_circle(at(0, 0), 3, 1, &enemies);
    assert!(cands.is_empty());
}

#[test]
fn line_candidates_melee_has_6_directions() {
    let cands = candidates_line(at(3, 3), 1, &board());
    assert_eq!(cands.len(), 6);
}

#[test]
fn line_candidates_range2_has_12() {
    let cands = candidates_line(at(3, 3), 2, &board());
    assert_eq!(cands.len(), 12);
}

#[test]
fn line_candidates_stay_on_the_board() {
    let cands = candidates_line(at(0, 0), 1, &board());
    assert_eq!(cands.len(), 2);
}

#[test]
fn generate_candidates_single_target_within_range() {
    let mut def = fireball_def();
    def.aoe = AoEShape::Single;
    def.range = AbilityRange { min: 0, max: 3 };
    let enemies = vec![at(3, 2), at(6, 6)];
    let cands = aim_cells(&def, at(3, 3), &enemies, &vec![], &board());
    assert_eq!(cands.len(), 1, "only near enemy should be candidate");
    assert_eq!(cands[0], at(3, 2));
}

#[test]
fn single_targets_are_those_of_the_right_side() {
    let from = at(3, 3);
    let enemies = vec![at(3, 2)];
    let allies = vec![at(4, 3), at(0, 0)];
    assert_eq!(
        candidates_single(from, 1, TargetType::SingleAlly, &enemies, &allies),
        vec![at(4, 3)]
    );
    assert_eq!(
        candidates_single(from, 1, TargetType::SingleEnemy, &enemies, &allies),
        vec![at(3, 2)]
    );
    assert!(candidates_single(from, 1, TargetType::Myself, &enemies, &allies).is_empty());
}

#[test]
fn ranges_count_cells() {
    assert!(near_enough(at(0, 0), at(3, 0), 3));
    assert!(!near_enough(at(0, 0), at(4, 0), 3));
}

#[test]
fn listing_orders_cells() {
    let a = Hex::new(1, 5);
    let b = Hex::new(0, 7);
    let c = Hex::new(1, -2);
    let listed = list_in_order(&vec![a, b, c]);
    assert_eq!(listed.len(), 3);
    assert_eq!(list_in_order(&vec![c, a, b]), listed, "the order does not depend on the list");
}

#[test]
fn areas_have_their_cells() {
    assert!(aoe_cells(AoEShape::Single, at(0, 0), at(3, 3)).is_empty());
    let far = Hex::new(i32::MIN, i32::MAX);
    assert!(aoe_cells(AoEShape::Single, far, far).is_empty());
    assert_eq!(aoe_cells(AoEShape::Circle { radius: 1 }, far, at(3, 3)).len(), 7);
    assert_eq!(aoe_cells(AoEShape::Circle { radius: 1 }, at(0, 0), at(3, 3)).len(), 7);
    assert_eq!(aoe_cells(AoEShape::Line { length: 2 }, at(3, 3), at(3, 2)).len(), 2);
}

#[test]
fn damage_is_reduced_but_never_to_nothing() {
    assert_eq!(final_damage_i32(10, 3, 0, false), 7);
    assert_eq!(final_damage_i32(10, 3, 2, false), 9);
    assert_eq!(final_damage_i32(10, 3, 0, true), 10);
    assert_eq!(final_damage_i32(2, 30, 0, false), 1);
}

// ---------------------------------------------------------------------------
// Influence
// ---------------------------------------------------------------------------

#[test]
fn cover_is_measured_from_the_nearest_source() {
    let sources = vec![at(0, 0), at(4, 0)];
    assert_eq!(cover_distance(&sources, at(5, 0), 3), Some(1));
    assert_eq!(cover_distance(&sources, at(4, 0), 0), Some(0));
    assert_eq!(cover_distance(&sources, at(7, 7), 3), None);
    assert_eq!(cover_distance(&vec![], at(0, 0), 9), None);
    assert_eq!(danger_range(0), 1);
    assert_eq!(danger_range(4), 4);
}

#[test]
fn ranks_are_shared_by_equals() {
    assert_eq!(normalize_ranks(&vec![5, -3, 5, 0, -3]), vec![2, 0, 2, 1, 0]);
    assert_eq!(normalize_ranks(&vec![]), Vec::<usize>::new());
    assert_eq!(normalize_ranks(&vec![7, 7]), vec![0, 0]);
}
