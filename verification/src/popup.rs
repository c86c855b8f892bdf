//! Messages that pop up for what enemies do and for phases that begin, and who
//! turns towards an attacker.

use crate::bootstrap::NameRow;
use crate::content::ContentView;
use crate::events::CombatEvent;
use crate::hex::{column, column_of, Hex};
use crate::ids::Entity;
use crate::positions::HexPositions;
use crate::state::Team;
use crate::text::{decimal, owned, push_decimal};
use vstd::prelude::*;
use vstd::string::StringExecFns;

verus! {

/// How far the log has been looked through for messages.
#[derive(Clone, Copy, PartialEq, Eq, Structural, Debug)]
pub struct PopupCursor(pub usize);

impl Default for PopupCursor {
    fn default() -> (r: PopupCursor)
        ensures
            r.0 == 0,
    {
        PopupCursor(0)
    }
}

/// How far the log has been looked through for turns towards attackers.
#[derive(Clone, Copy, PartialEq, Eq, Structural, Debug)]
pub struct FacingCursor(pub usize);

impl Default for FacingCursor {
    fn default() -> (r: FacingCursor)
        ensures
            r.0 == 0,
    {
        FacingCursor(0)
    }
}

/// The team of an entity.
#[derive(Clone, Copy, PartialEq, Eq, Structural, Debug)]
pub struct FactionRow {
    pub entity: Entity,
    pub team: Team,
}

/// A message that pops up.
#[derive(Debug)]
pub struct Popup {
    pub lines: Vec<String>,
}

/// Lines of a message as texts.
pub open spec fn texts(lines: Seq<String>) -> Seq<Seq<char>> {
    Seq::new(lines.len(), |i: int| lines[i]@)
}

/// Messages as texts.
pub open spec fn popup_texts(popups: Seq<Popup>) -> Seq<Seq<Seq<char>>> {
    Seq::new(popups.len(), |i: int| texts(popups[i].lines@))
}

/// The name of an entity; a question mark where it has none.
pub open spec fn name_of(names: Seq<NameRow>, entity: Entity) -> Seq<char>
    decreases names.len(),
{
    if names.len() == 0 {
        "?"@
    } else if names[0].entity == entity {
        names[0].name@
    } else {
        name_of(names.drop_first(), entity)
    }
}

pub(crate) fn find_name(names: &Vec<NameRow>, entity: Entity) -> (r: String)
    ensures
        r@ == name_of(names@, entity),
{
    let mut i: usize = 0;
    assert(names@.skip(0) =~= names@);
    while i < names.len()
        invariant
            i <= names.len(),
            name_of(names@, entity) == name_of(names@.skip(i as int), entity),
        decreases names.len() - i,
    {
        assert(names@.skip(i as int).drop_first() =~= names@.skip(i + 1));
        if names[i].entity == entity {
            return names[i].name.clone();
        }
        i = i + 1;
    }
    owned("?")
}

/// The team of an entity.
pub open spec fn team_of(factions: Seq<FactionRow>, entity: Entity) -> Option<Team>
    decreases factions.len(),
{
    if factions.len() == 0 {
        None
    } else if factions[0].entity == entity {
        Some(factions[0].team)
    } else {
        team_of(factions.drop_first(), entity)
    }
}

fn find_team(factions: &Vec<FactionRow>, entity: Entity) -> (r: Option<Team>)
    ensures
        r == team_of(factions@, entity),
{
    let mut i: usize = 0;
    assert(factions@.skip(0) =~= factions@);
    while i < factions.len()
        invariant
            i <= factions.len(),
            team_of(factions@, entity) == team_of(factions@.skip(i as int), entity),
        decreases factions.len() - i,
    {
        assert(factions@.skip(i as int).drop_first() =~= factions@.skip(i + 1));
        if factions[i].entity == entity {
            return Some(factions[i].team);
        }
        i = i + 1;
    }
    None
}

// ---------------------------------------------------------------------------
// Lines
// ---------------------------------------------------------------------------

/// The line that separates the head of a message from its body.
pub open spec fn rule() -> Seq<char> {
    "───────────────"@
}

/// The message for a phase that begins.
pub open spec fn phase_texts(
    prev_name: Seq<char>,
    next_name: Seq<char>,
    flavor: Option<String>,
) -> Seq<Seq<char>> {
    let head = seq![prev_name, rule(), "Новая фаза: "@ + next_name];
    match flavor {
        Some(f) if f@.len() > 0 => head.push(rule()).push(f@),
        _ => head,
    }
}

fn phase_lines(prev_name: &String, next_name: &String, flavor: &Option<String>) -> (r: Vec<String>)
    ensures
        texts(r@) == phase_texts(prev_name@, next_name@, *flavor),
{
    let mut lines: Vec<String> = Vec::new();
    lines.push(prev_name.clone());
    lines.push(owned("───────────────"));
    let mut title = owned("Новая фаза: ");
    title.append(next_name.as_str());
    lines.push(title);
    if let Some(f) = flavor {
        if f.as_str().unicode_len() > 0 {
            lines.push(owned("───────────────"));
            lines.push(f.clone());
        }
    }
    assert(texts(lines@) =~= phase_texts(prev_name@, next_name@, *flavor));
    lines
}

/// What an ability was aimed at: column and row for an area, else a name.
pub open spec fn aim_text(
    target: Entity,
    target_pos: Hex,
    is_aoe: bool,
    names: Seq<NameRow>,
) -> Seq<char> {
    if is_aoe {
        "("@ + decimal(column(target_pos)) + ","@ + decimal(target_pos.y as int) + ")"@
    } else {
        name_of(names, target)
    }
}

/// What an ability cost, where it cost anything.
pub open spec fn cost_text(cost_str: Seq<char>) -> Seq<char> {
    if cost_str.len() == 0 {
        Seq::empty()
    } else {
        " ["@ + cost_str + "]"@
    }
}

/// The head of a message for an ability: who used which on whom for what.
pub open spec fn cast_texts(
    actor: Entity,
    ability_name: Seq<char>,
    target: Entity,
    target_pos: Hex,
    is_aoe: bool,
    cost_str: Seq<char>,
    names: Seq<NameRow>,
) -> Seq<Seq<char>> {
    seq![
        name_of(names, actor),
        rule(),
        ability_name + " → "@ + aim_text(target, target_pos, is_aoe, names) + cost_text(cost_str),
    ]
}

fn cast_lines(
    actor: Entity,
    ability_name: &String,
    target: Entity,
    target_pos: Hex,
    is_aoe: bool,
    cost_str: &String,
    names: &Vec<NameRow>,
) -> (r: Vec<String>)
    ensures
        texts(r@) == cast_texts(
            actor,
            ability_name@,
            target,
            target_pos,
            is_aoe,
            cost_str@,
            names@,
        ),
{
    let mut lines: Vec<String> = Vec::new();
    lines.push(find_name(names, actor));
    lines.push(owned("───────────────"));
    let aim = if is_aoe {
        let mut s = owned("(");
        push_decimal(&mut s, column_of(target_pos));
        s.append(",");
        push_decimal(&mut s, target_pos.y as i64);
        s.append(")");
        s
    } else {
        find_name(names, target)
    };
    let cost = if cost_str.as_str().unicode_len() == 0 {
        String::new()
    } else {
        let mut s = owned(" [");
        s.append(cost_str.as_str());
        s.append("]");
        s
    };
    assert(cost@ =~= cost_text(cost_str@));
    let mut line = ability_name.clone();
    line.append(" → ");
    line.append(aim.as_str());
    line.append(cost.as_str());
    lines.push(line);
    assert(texts(lines@) =~= cast_texts(
        actor,
        ability_name@,
        target,
        target_pos,
        is_aoe,
        cost_str@,
        names@,
    ));
    lines
}

/// Whether an event is a result of the ability that was used before it.
pub open spec fn is_result(event: CombatEvent) -> bool {
    match event {
        CombatEvent::DamageResult { .. } => true,
        CombatEvent::HealResult { .. } => true,
        CombatEvent::StatusApplied { .. } => true,
        CombatEvent::UnitDied { .. } => true,
        CombatEvent::PoolChanged { .. } => true,
        _ => false,
    }
}

/// The part of a damage line that armor has.
pub open spec fn armor_text(armor_reduced: i32) -> Seq<char> {
    if armor_reduced > 0 {
        ", броня -"@ + decimal(armor_reduced as int)
    } else {
        Seq::empty()
    }
}

/// The name that a status is shown under; its id where the content has none.
pub open spec fn status_text(content: ContentView, status: Seq<char>) -> Seq<char> {
    match content.status(status) {
        Some(def) => def.name@,
        None => status,
    }
}

/// The line of a result. Changes of pools have none.
pub open spec fn result_text(
    event: CombatEvent,
    names: Seq<NameRow>,
    content: ContentView,
) -> Option<Seq<char>> {
    match event {
        CombatEvent::DamageResult { target, raw, armor_reduced, final_damage } => Some(
            "Урон: "@ + decimal(raw as int) + armor_text(armor_reduced) + " → -"@ + decimal(
                final_damage as int,
            ) + " HP ("@ + name_of(names, target) + ")"@,
        ),
        CombatEvent::HealResult { target, amount } => Some(
            "Лечение: +"@ + decimal(amount as int) + " HP ("@ + name_of(names, target) + ")"@,
        ),
        CombatEvent::StatusApplied { target, status } => Some(
            name_of(names, target) + " получает «"@ + status_text(content, status@) + "»"@,
        ),
        CombatEvent::UnitDied { entity } => Some(name_of(names, entity) + " погиб!"@),
        _ => None,
    }
}

/// The line of an event that is a result, where it has one.
fn result_line(event: &CombatEvent, names: &Vec<NameRow>, content: &ContentView) -> (r: Option<
    String,
>)
    ensures
        match r {
            Some(s) => result_text(*event, names@, *content) == Some(s@),
            None => result_text(*event, names@, *content) is None,
        },
{
    match event {
        CombatEvent::DamageResult { target, raw, armor_reduced, final_damage } => {
            let armor = if *armor_reduced > 0 {
                let mut s = owned(", броня -");
                push_decimal(&mut s, *armor_reduced as i64);
                s
            } else {
                String::new()
            };
            assert(armor@ =~= armor_text(*armor_reduced));
            let name = find_name(names, *target);
            let mut line = owned("Урон: ");
            push_decimal(&mut line, *raw as i64);
            line.append(armor.as_str());
            line.append(" → -");
            push_decimal(&mut line, *final_damage as i64);
            line.append(" HP (");
            line.append(name.as_str());
            line.append(")");
            Some(line)
        },
        CombatEvent::HealResult { target, amount } => {
            let name = find_name(names, *target);
            let mut line = owned("Лечение: +");
            push_decimal(&mut line, *amount as i64);
            line.append(" HP (");
            line.append(name.as_str());
            line.append(")");
            Some(line)
        },
        CombatEvent::StatusApplied { target, status } => {
            let shown = match content.status_def(status) {
                Some(def) => def.name.clone(),
                None => status.clone(),
            };
            let mut line = find_name(names, *target);
            line.append(" получает «");
            line.append(shown.as_str());
            line.append("»");
            Some(line)
        },
        CombatEvent::UnitDied { entity } => {
            let mut line = find_name(names, *entity);
            line.append(" погиб!");
            Some(line)
        },
        _ => None,
    }
}

fn follows_cast(event: &CombatEvent) -> (r: bool)
    ensures
        r == is_result(*event),
{
    match event {
        CombatEvent::DamageResult { .. } => true,
        CombatEvent::HealResult { .. } => true,
        CombatEvent::StatusApplied { .. } => true,
        CombatEvent::UnitDied { .. } => true,
        CombatEvent::PoolChanged { .. } => true,
        _ => false,
    }
}

/// Lines of the results that events begin with, up to the first event that is
/// none.
pub open spec fn result_texts(
    events: Seq<CombatEvent>,
    names: Seq<NameRow>,
    content: ContentView,
) -> Seq<Seq<char>>
    decreases events.len(),
{
    if events.len() == 0 || !is_result(events[0]) {
        Seq::empty()
    } else {
        let rest = result_texts(events.drop_first(), names, content);
        match result_text(events[0], names, content) {
            Some(s) => seq![s] + rest,
            None => rest,
        }
    }
}

// ---------------------------------------------------------------------------
// Messages
// ---------------------------------------------------------------------------

/// The messages that events give rise to: one for each phase that begins, and one
/// for each ability that an enemy uses, with the results that follow it.
pub open spec fn messages(
    events: Seq<CombatEvent>,
    names: Seq<NameRow>,
    factions: Seq<FactionRow>,
    content: ContentView,
) -> Seq<Seq<Seq<char>>>
    decreases events.len(),
{
    if events.len() == 0 {
        Seq::empty()
    } else {
        let rest = messages(events.drop_first(), names, factions, content);
        match events[0] {
            CombatEvent::PhaseEntered { actor, prev_name, next_name, flavor } => seq![
                phase_texts(prev_name@, next_name@, flavor),
            ] + rest,
            CombatEvent::AbilityUsed {
                actor,
                ability_name,
                target,
                target_pos,
                is_aoe,
                cost_str,
            } => if team_of(factions, actor) == Some(Team::Enemy) {
                seq![
                    cast_texts(
                        actor,
                        ability_name@,
                        target,
                        target_pos,
                        is_aoe,
                        cost_str@,
                        names,
                    ) + result_texts(events.drop_first(), names, content),
                ] + rest
            } else {
                rest
            },
            _ => rest,
        }
    }
}

/// Appends the lines of the results from place `start` on, up to the first event
/// that is none. The result is the place of that event.
fn push_results(
    lines: &mut Vec<String>,
    log: &Vec<CombatEvent>,
    start: usize,
    names: &Vec<NameRow>,
    factions: &Vec<FactionRow>,
    content: &ContentView,
) -> (end: usize)
    requires
        start <= log@.len(),
    ensures
        start <= end <= log@.len(),
        texts(final(lines)@) == texts(old(lines)@) + result_texts(
            log@.skip(start as int),
            names@,
            *content,
        ),
        messages(log@.skip(start as int), names@, factions@, *content) == messages(
            log@.skip(end as int),
            names@,
            factions@,
            *content,
        ),
{
    let ghost head = texts(lines@);
    let ghost all = result_texts(log@.skip(start as int), names@, *content);
    let mut j: usize = start;
    assert(texts(lines@) + all =~= head + all);
    while j < log.len() && follows_cast(&log[j])
        invariant
            start <= j <= log@.len(),
            head + all == texts(lines@) + result_texts(log@.skip(j as int), names@, *content),
            messages(log@.skip(start as int), names@, factions@, *content) == messages(
                log@.skip(j as int),
                names@,
                factions@,
                *content,
            ),
        decreases log.len() - j,
    {
        assert(log@.skip(j as int).drop_first() =~= log@.skip(j + 1));
        let ghost before = texts(lines@);
        let ghost rest = result_texts(log@.skip(j + 1), names@, *content);
        match result_line(&log[j], names, content) {
            Some(s) => {
                lines.push(s);
                assert(texts(lines@) =~= before.push(s@));
                assert(before.push(s@) + rest =~= before + (seq![s@] + rest));
            },
            None => {},
        }
        j = j + 1;
    }
    assert(texts(lines@) + Seq::<Seq<char>>::empty() =~= texts(lines@));
    j
}

/// Queues the messages for everything in the log from the cursor on, and moves
/// the cursor to the end of the log.
pub fn queue_enemy_popup(
    log: &Vec<CombatEvent>,
    cursor: &mut PopupCursor,
    names: &Vec<NameRow>,
    factions: &Vec<FactionRow>,
    content: &ContentView,
    queue: &mut Vec<Popup>,
)
    requires
        old(cursor).0 <= log@.len(),
    ensures
        final(cursor).0 == log@.len(),
        popup_texts(final(queue)@) == popup_texts(old(queue)@) + messages(
            log@.skip(old(cursor).0 as int),
            names@,
            factions@,
            *content,
        ),
{
    let ghost head = popup_texts(queue@);
    let ghost all = messages(log@.skip(cursor.0 as int), names@, factions@, *content);
    let mut i: usize = cursor.0;
    while i < log.len()
        invariant
            i <= log@.len(),
            head + all == popup_texts(queue@) + messages(
                log@.skip(i as int),
                names@,
                factions@,
                *content,
            ),
        decreases log.len() - i,
    {
        assert(log@.skip(i as int).drop_first() =~= log@.skip(i + 1));
        assert(log@.skip(i as int)[0] == log@[i as int]);
        let ghost before = popup_texts(queue@);
        let ghost rest = messages(log@.skip(i + 1), names@, factions@, *content);
        let mut next: usize = i + 1;
        match &log[i] {
            CombatEvent::PhaseEntered { actor, prev_name, next_name, flavor } => {
                let lines = phase_lines(prev_name, next_name, flavor);
                let ghost t = texts(lines@);
                queue.push(Popup { lines });
                assert(popup_texts(queue@) =~= before.push(t));
                assert(before.push(t) + rest =~= before + (seq![t] + rest));
            },
            CombatEvent::AbilityUsed {
                actor,
                ability_name,
                target,
                target_pos,
                is_aoe,
                cost_str,
            } => {
                let is_enemy = match find_team(factions, *actor) {
                    Some(team) => team == Team::Enemy,
                    None => false,
                };
                if is_enemy {
                    let mut lines = cast_lines(
                        *actor,
                        ability_name,
                        *target,
                        *target_pos,
                        *is_aoe,
                        cost_str,
                        names,
                    );
                    next = push_results(&mut lines, log, i + 1, names, factions, content);
                    let ghost t = texts(lines@);
                    queue.push(Popup { lines });
                    assert(popup_texts(queue@) =~= before.push(t));
                    assert(before.push(t) + rest =~= before + (seq![t] + rest));
                }
            },
            _ => {},
        }
        i = next;
    }
    assert(popup_texts(queue@) + Seq::<Seq<Seq<char>>>::empty() =~= popup_texts(queue@));
    cursor.0 = log.len();
}

// ---------------------------------------------------------------------------
// Facing
// ---------------------------------------------------------------------------

/// A unit on a cell that is to look at another cell.
#[derive(Clone, Copy, PartialEq, Eq, Structural, Debug)]
pub struct Look {
    pub at: Hex,
    pub toward: Hex,
}

/// A unit that is to turn.
#[derive(Clone, Copy, PartialEq, Eq, Structural, Debug)]
pub struct FaceOrder {
    pub unit: Entity,
    pub look: Look,
}

/// Where a victim looks after an ability was used on it: at the attacker, unless
/// they are of one team.
pub open spec fn face_of(
    actor_team: Team,
    target_team: Team,
    victim_hex: Hex,
    attacker_hex: Hex,
) -> Option<Look> {
    if actor_team == target_team {
        None
    } else {
        Some(Look { at: victim_hex, toward: attacker_hex })
    }
}

/// Where a victim looks after an ability was used on it.
pub fn victim_face(
    actor_team: Team,
    target_team: Team,
    victim_hex: Hex,
    attacker_hex: Hex,
) -> (r: Option<Look>)
    ensures
        r == face_of(actor_team, target_team, victim_hex, attacker_hex),
{
    if actor_team == target_team {
        return None;
    }
    Some(Look { at: victim_hex, toward: attacker_hex })
}

/// The turn that an event causes: after a hostile use of an ability the target
/// looks at the attacker, where both stand on the board.
pub open spec fn turn_of(
    event: CombatEvent,
    factions: Seq<FactionRow>,
    cells: Map<Entity, Hex>,
) -> Option<FaceOrder> {
    match event {
        CombatEvent::AbilityUsed { actor, target, .. } => if actor != target && team_of(
            factions,
            actor,
        ) is Some && team_of(factions, target) is Some && team_of(factions, actor) != team_of(
            factions,
            target,
        ) && cells.contains_key(target) && cells.contains_key(actor) {
            Some(
                FaceOrder { unit: target, look: Look { at: cells[target], toward: cells[actor] } },
            )
        } else {
            None
        },
        _ => None,
    }
}

/// The turns that events cause, in order.
pub open spec fn turns(
    events: Seq<CombatEvent>,
    factions: Seq<FactionRow>,
    cells: Map<Entity, Hex>,
) -> Seq<FaceOrder>
    decreases events.len(),
{
    if events.len() == 0 {
        Seq::empty()
    } else {
        let rest = turns(events.drop_last(), factions, cells);
        match turn_of(events.last(), factions, cells) {
            Some(t) => rest.push(t),
            None => rest,
        }
    }
}

/// Queues the turns for everything in the log from the cursor on, and moves the
/// cursor to the end of the log.
pub fn enqueue_victim_facing(
    log: &Vec<CombatEvent>,
    cursor: &mut FacingCursor,
    factions: &Vec<FactionRow>,
    positions: &HexPositions,
    queue: &mut Vec<FaceOrder>,
)
    requires
        old(cursor).0 <= log@.len(),
    ensures
        final(cursor).0 == log@.len(),
        final(queue)@ == old(queue)@ + turns(
            log@.skip(old(cursor).0 as int),
            factions@,
            positions@,
        ),
{
    let ghost head = queue@;
    let ghost events = log@.skip(cursor.0 as int);
    let start: usize = cursor.0;
    let mut i: usize = start;
    assert(events.take(0) =~= Seq::empty());
    assert(queue@ =~= head + Seq::<FaceOrder>::empty());
    while i < log.len()
        invariant
            start <= i <= log@.len(),
            events == log@.skip(start as int),
            queue@ == head + turns(events.take(i - start), factions@, positions@),
        decreases log.len() - i,
    {
        assert(events.take(i + 1 - start).drop_last() =~= events.take(i - start));
        assert(events.take(i + 1 - start).last() == log@[i as int]);
        let ghost so_far = turns(events.take(i - start), factions@, positions@);
        if let CombatEvent::AbilityUsed { actor, target, .. } = &log[i] {
            if *actor != *target {
                if let (Some(a), Some(t)) = (find_team(factions, *actor), find_team(
                    factions,
                    *target,
                )) {
                    if let (Some(victim_hex), Some(attacker_hex)) = (positions.get(
                        *target,
                    ), positions.get(*actor)) {
                        if let Some(look) = victim_face(a, t, victim_hex, attacker_hex) {
                            let order = FaceOrder { unit: *target, look };
                            queue.push(order);
                            assert((head + so_far).push(order) =~= head + so_far.push(order));
                        }
                    }
                }
            }
        }
        i = i + 1;
    }
    assert(events.take(i - start) =~= events);
    cursor.0 = log.len();
}

// ---------------------------------------------------------------------------
// Laws
// ---------------------------------------------------------------------------

/// Nobody turns for an ability of its own team or its own.
pub proof fn law_friends_do_not_turn(
    event: CombatEvent,
    factions: Seq<FactionRow>,
    cells: Map<Entity, Hex>,
)
    ensures
        turn_of(event, factions, cells) matches Some(order) ==> {
            &&& event matches CombatEvent::AbilityUsed { actor, target, .. }
            &&& order.unit == target
            &&& actor != target
            &&& team_of(factions, actor) != team_of(factions, target)
            &&& order.look == (Look { at: cells[target], toward: cells[actor] })
        },
{
}

/// A log that is shown in two parts gives the same turns as one that is shown at
/// once: the cursor loses nothing and repeats nothing.
pub proof fn law_turns_in_parts(
    first: Seq<CombatEvent>,
    second: Seq<CombatEvent>,
    factions: Seq<FactionRow>,
    cells: Map<Entity, Hex>,
)
    ensures
        turns(first + second, factions, cells) == turns(first, factions, cells) + turns(
            second,
            factions,
            cells,
        ),
    decreases second.len(),
{
    if second.len() == 0 {
        assert(first + second =~= first);
        assert(turns(first, factions, cells) + Seq::<FaceOrder>::empty() =~= turns(
            first,
            factions,
            cells,
        ));
    } else {
        let rest = second.drop_last();
        law_turns_in_parts(first, rest, factions, cells);
        assert((first + second).drop_last() =~= first + rest);
        assert(turns(first + second, factions, cells) =~= turns(first, factions, cells) + turns(
            second,
            factions,
            cells,
        ));
    }
}

/// Results by themselves pop up no message: they are shown with the ability that
/// they follow, or not at all.
pub proof fn law_results_pop_up_nothing(
    events: Seq<CombatEvent>,
    names: Seq<NameRow>,
    factions: Seq<FactionRow>,
    content: ContentView,
)
    requires
        forall|i: int| 0 <= i < events.len() ==> is_result(#[trigger] events[i]),
    ensures
        messages(events, names, factions, content) == Seq::<Seq<Seq<char>>>::empty(),
    decreases events.len(),
{
    if events.len() > 0 {
        let rest = events.drop_first();
        assert forall|i: int| 0 <= i < rest.len() implies is_result(#[trigger] rest[i]) by {
            assert(rest[i] == events[i + 1]);
        }
        law_results_pop_up_nothing(rest, names, factions, content);
        assert(is_result(events[0]));
    }
}

/// A name is the first that is listed, and a question mark where none is.
pub proof fn law_name_as_listed(names: Seq<NameRow>, entity: Entity, k: int)
    ensures
        0 <= k < names.len() && names[k].entity == entity && (forall|j: int|
            0 <= j < k ==> (#[trigger] names[j]).entity != entity) ==> name_of(names, entity)
            == names[k].name@,
        (forall|j: int| 0 <= j < names.len() ==> (#[trigger] names[j]).entity != entity) ==> name_of(
            names,
            entity,
        ) =~= seq!['?'],
    decreases names.len(),
{
    reveal_strlit("?");
    if names.len() > 0 {
        let rest = names.drop_first();
        law_name_as_listed(rest, entity, k - 1);
        assert forall|j: int| 0 <= j < rest.len() implies #[trigger] rest[j] == names[j + 1] by {}
        if forall|j: int| 0 <= j < names.len() ==> (#[trigger] names[j]).entity != entity {
            assert(names[0].entity != entity);
        }
        if 0 < k < names.len() && names[k].entity == entity && (forall|j: int|
            0 <= j < k ==> (#[trigger] names[j]).entity != entity) {
            assert(names[0].entity != entity);
            assert(rest[k - 1] == names[k]);
        }
    }
}

/// A team is the first that is listed; who is not listed has none.
pub proof fn law_team_as_listed(factions: Seq<FactionRow>, entity: Entity, k: int)
    ensures
        0 <= k < factions.len() && factions[k].entity == entity && (forall|j: int|
            0 <= j < k ==> (#[trigger] factions[j]).entity != entity) ==> team_of(factions, entity)
            == Some(factions[k].team),
        (forall|j: int| 0 <= j < factions.len() ==> (#[trigger] factions[j]).entity != entity)
            ==> team_of(factions, entity) is None,
    decreases factions.len(),
{
    if factions.len() > 0 {
        let rest = factions.drop_first();
        law_team_as_listed(rest, entity, k - 1);
        assert forall|j: int| 0 <= j < rest.len() implies #[trigger] rest[j]
            == factions[j + 1] by {}
        if forall|j: int| 0 <= j < factions.len() ==> (#[trigger] factions[j]).entity != entity {
            assert(factions[0].entity != entity);
        }
        if 0 < k < factions.len() && factions[k].entity == entity && (forall|j: int|
            0 <= j < k ==> (#[trigger] factions[j]).entity != entity) {
            assert(factions[0].entity != entity);
            assert(rest[k - 1] == factions[k]);
        }
    }
}

/// A new phase pops up under the old name with the new one at the end of its third line, and
/// with the flavor below a second rule where there is any.
pub proof fn law_phase_popup(prev: Seq<char>, next: Seq<char>, flavor: Option<String>)
    ensures
        ({
            let m = phase_texts(prev, next, flavor);
            let plain = flavor is None || flavor->0@.len() == 0;
            &&& plain ==> m.len() == 3
            &&& !plain ==> m.len() == 5 && m[3] == m[1] && m[4] == flavor->0@
            &&& m[0] == prev
            &&& m[2].len() >= next.len()
            &&& m[2].skip(m[2].len() - next.len()) =~= next
        }),
{
}

/// A cast pops up under the name of its caster; its third line begins with the ability and
/// ends with the cost in brackets, where there is one. A cast without an area names its
/// target.
pub proof fn law_cast_popup(
    actor: Entity,
    ability: Seq<char>,
    target: Entity,
    target_pos: Hex,
    is_aoe: bool,
    cost: Seq<char>,
    names: Seq<NameRow>,
)
    ensures
        ({
            let m = cast_texts(actor, ability, target, target_pos, is_aoe, cost, names);
            let name = name_of(names, target);
            &&& m.len() == 3
            &&& m[0] == name_of(names, actor)
            &&& m[2].len() >= ability.len()
            &&& m[2].take(ability.len() as int) =~= ability
            &&& cost.len() == 0 && !is_aoe ==> m[2].len() >= name.len() && m[2].skip(
                m[2].len() - name.len(),
            ) =~= name
            &&& cost.len() > 0 ==> m[2].len() >= cost.len() + 1 && m[2].last() == ']' && m[2].skip(
                m[2].len() - cost.len() - 1,
            ).drop_last() =~= cost
        }),
{
    reveal_strlit("]");
    let m = cast_texts(actor, ability, target, target_pos, is_aoe, cost, names);
    if cost.len() > 0 {
        assert(m[2].last() == ']');
    } else {
        assert(cost_text(cost) =~= Seq::empty());
    }
}

/// Which lines tell of a result. A run of them ends with the first event that is none.
pub proof fn law_results(
    events: Seq<CombatEvent>,
    ev: CombatEvent,
    names: Seq<NameRow>,
    content: ContentView,
)
    ensures
        ({
            let all = seq![ev] + events;
            let told = result_texts(all, names, content);
            let rest = result_texts(events, names, content);
            let is_one = ev is DamageResult || ev is HealResult || ev is StatusApplied
                || ev is UnitDied;
            &&& result_texts(Seq::empty(), names, content).len() == 0
            &&& is_one ==> told.len() == rest.len() + 1 && told.drop_first() =~= rest
            &&& ev is PoolChanged ==> told == rest
            &&& !is_one && !(ev is PoolChanged) ==> told.len() == 0
        }),
{
    let all = seq![ev] + events;
    assert(all.drop_first() =~= events);
    assert(all[0] == ev);
}

/// The damage that armor takes off is shown only where it takes any.
pub proof fn law_armor_text(armor: i32)
    ensures
        armor <= 0 ==> armor_text(armor).len() == 0,
        armor > 0 ==> armor_text(armor).len() > decimal(armor as int).len() && armor_text(
            armor,
        ).skip(armor_text(armor).len() - decimal(armor as int).len()) =~= decimal(armor as int),
{
    reveal_strlit(", броня -");
}

/// A status is called by its name, one that is not known by its id.
pub proof fn law_status_text(content: ContentView, status: Seq<char>)
    ensures
        content.status(status) matches Some(d) ==> status_text(content, status) == d.name@,
        content.status(status) is None ==> status_text(content, status) == status,
{
}

/// Whether a text holds another one.
pub open spec fn holds_text(whole: Seq<char>, part: Seq<char>) -> bool {
    exists|i: int|
        0 <= i && i + part.len() <= whole.len() && #[trigger] whole.subrange(i, i + part.len())
            == part
}

proof fn middle_is_held(a: Seq<char>, part: Seq<char>, b: Seq<char>)
    ensures
        holds_text(a + part + b, part),
{
    let whole = a + part + b;
    let i = a.len() as int;
    assert(whole.subrange(i, i + part.len()) =~= part);
}

/// What a result says: damage with the roll, the loss and the target, healing with the gain
/// and the target, a status with the target and the status, and a death with the fallen.
pub proof fn law_result_text(
    target: Entity,
    raw: i32,
    armor_reduced: i32,
    final_damage: i32,
    amount: i32,
    status: String,
    names: Seq<NameRow>,
    content: ContentView,
)
    ensures
        ({
            let hurt = result_text(
                CombatEvent::DamageResult { target, raw, armor_reduced, final_damage },
                names,
                content,
            );
            let healed = result_text(CombatEvent::HealResult { target, amount }, names, content);
            let borne = result_text(CombatEvent::StatusApplied { target, status }, names, content);
            let died = result_text(CombatEvent::UnitDied { entity: target }, names, content);
            let name = name_of(names, target);
            &&& hurt is Some && healed is Some && borne is Some && died is Some
            &&& holds_text(hurt->0, name)
            &&& holds_text(hurt->0, decimal(raw as int))
            &&& holds_text(hurt->0, armor_text(armor_reduced))
            &&& holds_text(hurt->0, decimal(final_damage as int))
            &&& holds_text(healed->0, name)
            &&& holds_text(healed->0, decimal(amount as int))
            &&& borne->0.take(name.len() as int) =~= name
            &&& holds_text(borne->0, status_text(content, status@))
            &&& died->0.take(name.len() as int) =~= name
        }),
{
    let name = name_of(names, target);
    let (r, l, g) = (decimal(raw as int), decimal(final_damage as int), decimal(amount as int));
    let m = armor_text(armor_reduced);
    let (a, b, c, d) = ("Урон: "@, " → -"@, " HP ("@, ")"@);
    let hurt = a + r + m + b + l + c + name + d;
    assert(hurt =~= a + r + (m + b + l + c + name + d));
    middle_is_held(a, r, m + b + l + c + name + d);
    assert(hurt =~= (a + r) + m + (b + l + c + name + d));
    middle_is_held(a + r, m, b + l + c + name + d);
    assert(hurt =~= (a + r + m + b) + l + (c + name + d));
    middle_is_held(a + r + m + b, l, c + name + d);
    assert(hurt =~= (a + r + m + b + l + c) + name + d);
    middle_is_held(a + r + m + b + l + c, name, d);
    let h = "Лечение: +"@;
    let healed = h + g + c + name + d;
    assert(healed =~= h + g + (c + name + d));
    middle_is_held(h, g, c + name + d);
    assert(healed =~= (h + g + c) + name + d);
    middle_is_held(h + g + c, name, d);
    let (p, q, s) = (" получает «"@, "»"@, status_text(content, status@));
    assert(name + p + s + q =~= (name + p) + s + q);
    middle_is_held(name + p, s, q);
}

/// Only phases and casts of enemies pop up, each once and in order; a cast of an enemy with
/// the results that follow it at once.
pub proof fn law_what_pops_up(
    events: Seq<CombatEvent>,
    ev: CombatEvent,
    names: Seq<NameRow>,
    factions: Seq<FactionRow>,
    content: ContentView,
)
    ensures
        ({
            let all = seq![ev] + events;
            let shown = messages(all, names, factions, content);
            let rest = messages(events, names, factions, content);
            &&& messages(Seq::empty(), names, factions, content).len() == 0
            &&& ev matches CombatEvent::PhaseEntered { actor, prev_name, next_name, flavor } ==> {
                &&& shown.len() == rest.len() + 1
                &&& shown.drop_first() =~= rest
                &&& shown[0] == phase_texts(prev_name@, next_name@, flavor)
            }
            &&& ev matches CombatEvent::AbilityUsed {
                actor,
                ability_name,
                target,
                target_pos,
                is_aoe,
                cost_str,
            } ==> {
                &&& team_of(factions, actor) == Some(Team::Enemy) ==> {
                    &&& shown.len() == rest.len() + 1
                    &&& shown.drop_first() =~= rest
                    &&& shown[0] == cast_texts(
                        actor,
                        ability_name@,
                        target,
                        target_pos,
                        is_aoe,
                        cost_str@,
                        names,
                    ) + result_texts(events, names, content)
                }
                &&& team_of(factions, actor) != Some(Team::Enemy) ==> shown == rest
            }
            &&& !(ev is PhaseEntered) && !(ev is AbilityUsed) ==> shown == rest
        }),
{
    let all = seq![ev] + events;
    assert(all.drop_first() =~= events);
    assert(all[0] == ev);
}

/// Who is hit by the other side looks at who hit it; nobody turns to its own side.
pub proof fn law_victims_look_at_attackers(a: Team, b: Team, victim: Hex, attacker: Hex)
    ensures
        a == b ==> face_of(a, b, victim, attacker) is None,
        a != b ==> face_of(a, b, victim, attacker) is Some && face_of(
            a,
            b,
            victim,
            attacker,
        )->0.at == victim && face_of(a, b, victim, attacker)->0.toward == attacker,
{
}

/// Every victim of an ability that the other side uses turns, if both have a team and a
/// place.
pub proof fn law_victims_turn(
    event: CombatEvent,
    factions: Seq<FactionRow>,
    cells: Map<Entity, Hex>,
)
    requires
        event is AbilityUsed,
    ensures
        ({
            let (a, t) = (event->AbilityUsed_actor, event->AbilityUsed_target);
            turn_of(event, factions, cells) is Some <==> a != t && cells.contains_key(a)
                && cells.contains_key(t) && team_of(factions, a) is Some && team_of(factions, t)
                is Some && team_of(factions, a) != team_of(factions, t)
        }),
{
}

} // verus!
