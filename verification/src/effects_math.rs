//! Arithmetic of effects: final damage and the cells that an area touches.

use crate::content::AoEShape;
use crate::hex::{hex_circle, hex_line, Hex, LENGTH_LIMIT, RADIUS_LIMIT};
use vstd::prelude::*;

verus! {

/// The armor that counts against an attack.
pub open spec fn counted_armor(armor: int, pierces_armor: bool) -> int {
    if pierces_armor {
        0
    } else {
        armor
    }
}

/// Damage that reaches a target: what is left after armor, plus what the
/// target's vulnerability adds, and never less than one.
pub open spec fn final_damage(
    raw: int,
    armor: int,
    vulnerability: int,
    pierces_armor: bool,
) -> int {
    crate::hex::max(raw - counted_armor(armor, pierces_armor) + vulnerability, 1)
}

/// Damage that reaches a target: what is left after armor, plus what the
/// target's vulnerability adds, and never less than one.
pub fn final_damage_i32(raw: i32, armor: i32, vulnerability: i32, pierces_armor: bool) -> (r: i32)
    requires
        i32::MIN <= raw - counted_armor(armor as int, pierces_armor) <= i32::MAX,
        i32::MIN <= raw - counted_armor(armor as int, pierces_armor) + vulnerability <= i32::MAX,
    ensures
        r == final_damage(raw as int, armor as int, vulnerability as int, pierces_armor),
{
    let counted: i32 = if pierces_armor {
        0
    } else {
        armor
    };
    let total: i32 = raw - counted + vulnerability;
    if total < 1 {
        1
    } else {
        total
    }
}

/// Whether an area can be listed: a circle that is small enough around a cell whose
/// distances can be told, a line that is short enough between two such cells.
pub open spec fn area_fits(aoe: AoEShape, actor_pos: Hex, target_pos: Hex) -> bool {
    match aoe {
        AoEShape::Single => true,
        AoEShape::Circle { radius } => target_pos.in_range() && radius <= RADIUS_LIMIT,
        AoEShape::Line { length } => actor_pos.in_range() && target_pos.in_range() && length
            <= LENGTH_LIMIT,
    }
}

/// Whether an area touches a cell. Without an area none is touched: callers
/// treat a single target by itself.
pub open spec fn touches(aoe: AoEShape, actor_pos: Hex, target_pos: Hex, cell: Hex) -> bool {
    match aoe {
        AoEShape::Single => false,
        AoEShape::Circle { radius } => crate::hex::distance(target_pos, cell) <= radius,
        AoEShape::Line { length } => crate::hex::line(
            actor_pos,
            target_pos,
            length as nat,
        ).contains(cell),
    }
}

/// The cells that an area touches. The actor's own cell matters for lines only.
pub fn aoe_cells(aoe: AoEShape, actor_pos: Hex, target_pos: Hex) -> (r: Vec<Hex>)
    requires
        area_fits(aoe, actor_pos, target_pos),
    ensures
        forall|h: Hex| #[trigger] r@.contains(h) <==> touches(aoe, actor_pos, target_pos, h),
        aoe is Single ==> r@.len() == 0,
        aoe matches AoEShape::Circle { radius } ==> r@ == crate::hex::circle(target_pos, radius),
        aoe matches AoEShape::Line { length } ==> r@ == crate::hex::line(
            actor_pos,
            target_pos,
            length as nat,
        ),
{
    match aoe {
        AoEShape::Single => Vec::new(),
        AoEShape::Circle { radius } => hex_circle(target_pos, radius),
        AoEShape::Line { length } => hex_line(actor_pos, target_pos, length),
    }
}

/// An attack that lands always costs at least one hit point; piercing makes
/// armor irrelevant; more raw damage or vulnerability never lessens it, and
/// more armor never increases it.
pub proof fn law_final_damage(
    raw: int,
    more: int,
    armor: int,
    thicker: int,
    vulnerability: int,
    softer: int,
    pierces: bool,
)
    requires
        raw <= more,
        armor <= thicker,
        vulnerability <= softer,
    ensures
        final_damage(raw, armor, vulnerability, pierces) >= 1,
        final_damage(raw, armor, vulnerability, true) == final_damage(
            raw,
            thicker,
            vulnerability,
            true,
        ),
        final_damage(raw, armor, vulnerability, pierces) <= final_damage(
            more,
            armor,
            vulnerability,
            pierces,
        ),
        final_damage(raw, armor, vulnerability, pierces) <= final_damage(
            raw,
            armor,
            softer,
            pierces,
        ),
        final_damage(raw, thicker, vulnerability, pierces) <= final_damage(
            raw,
            armor,
            vulnerability,
            pierces,
        ),
{
}

/// Damage on an unarmored target is what was rolled, one at least. Armor takes as much
/// off as it has, unless it is pierced: then it counts for nothing. What makes the
/// target suffer more adds to the roll.
pub proof fn law_damage_point_for_point(raw: int, armor: int, vulnerability: int, pierces: bool)
    ensures
        raw >= 1 ==> final_damage(raw, 0, 0, pierces) == raw,
        raw <= 1 ==> final_damage(raw, 0, 0, pierces) == 1,
        final_damage(raw, armor, vulnerability, false) == final_damage(
            raw - armor,
            0,
            vulnerability,
            false,
        ),
        final_damage(raw, armor, vulnerability, true) == final_damage(raw, 0, vulnerability, false),
        final_damage(raw, armor, vulnerability, pierces) == final_damage(
            raw + vulnerability,
            armor,
            0,
            pierces,
        ),
{
}

/// A circle touches exactly what lies within its radius of the cell that is aimed at,
/// that cell itself among it, wherever it is cast from. Nothing is touched without an
/// area.
pub proof fn law_circle_touches(radius: u32, from: Hex, elsewhere: Hex, aim: Hex, cell: Hex)
    ensures
        touches(AoEShape::Circle { radius }, from, aim, aim),
        touches(AoEShape::Circle { radius }, from, aim, cell) == touches(
            AoEShape::Circle { radius },
            elsewhere,
            aim,
            cell,
        ),
        touches(AoEShape::Circle { radius }, from, aim, cell) <==> crate::hex::distance(aim, cell)
            <= radius,
        !touches(AoEShape::Single, from, aim, cell),
{
}

/// A line begins at the cell that is aimed at and goes on as far as it is long.
pub proof fn law_line_touches(length: u32, from: Hex, aim: Hex, cell: Hex)
    requires
        aim.in_range(),
        length <= LENGTH_LIMIT,
    ensures
        touches(AoEShape::Line { length }, from, aim, aim) <==> length > 0,
        touches(AoEShape::Line { length }, from, aim, cell) ==> crate::hex::distance(aim, cell)
            < length,
        touches(AoEShape::Line { length }, from, aim, cell) <==> exists|k: int|
            0 <= k < length && cell == #[trigger] crate::hex::stepped(
                aim,
                crate::hex::heading(from, aim),
                k,
            ),
{
    let s = crate::hex::heading(from, aim);
    let l = crate::hex::line(from, aim, length as nat);
    assert(crate::hex::steps().contains(s)) by {
        crate::hex::law_heading(from, aim, 0, 0);
    }
    if length > 0 {
        assert(s.x * 0 == 0 && s.y * 0 == 0);
        assert(l[0] == aim);
    }
    if l.contains(cell) {
        let k = choose|k: int| 0 <= k < l.len() && l[k] == cell;
        crate::hex::law_step_takes_one(aim, s, k);
    }
    if exists|k: int| 0 <= k < length && cell == #[trigger] crate::hex::stepped(aim, s, k) {
        let k = choose|k: int|
            0 <= k < length && cell == #[trigger] crate::hex::stepped(aim, s, k);
        assert(l[k] == cell);
    }
}

} // verus!
