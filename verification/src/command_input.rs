//! What the player's keys mean on a player's turn.

use crate::bootstrap::ActionPoints;
use crate::content::{AbilityDef, ContentView, TargetType};
use crate::hex::Hex;
use crate::ids::Entity;
use crate::positions::HexPositions;
use crate::process::ActionInput;
use crate::state::Team;
use vstd::prelude::*;

verus! {

/// A key that commands are given with.
#[derive(Clone, Copy, PartialEq, Eq, Structural, Debug)]
pub enum Key {
    Letter(char),
    Digit(u8),
    Escape,
    Tab,
    Enter,
}

/// The key that a one-letter name in the content stands for. `E` always ends the
/// turn, so no ability can have it.
pub open spec fn key_named(name: Seq<char>) -> Option<Key> {
    if name.len() == 1 && 'A' <= name[0] <= 'Z' && name[0] != 'E' {
        Some(Key::Letter(name[0]))
    } else {
        None
    }
}

/// The key that a one-letter name in the content stands for.
pub fn key_str_to_keycode(key: &str) -> (r: Option<Key>)
    ensures
        r == key_named(key@),
{
    if key.unicode_len() != 1 {
        return None;
    }
    let c = key.get_char(0);
    if 'A' <= c && c <= 'Z' && c != 'E' {
        Some(Key::Letter(c))
    } else {
        None
    }
}

/// What the player has selected so far.
#[derive(Debug)]
pub struct SelectionState {
    pub selected_actor: Option<Entity>,
    pub selected_ability: Option<String>,
    pub selected_target: Option<Entity>,
    pub move_mode: bool,
}

impl SelectionState {
    /// Nothing selected.
    pub open spec fn nothing() -> SelectionState {
        SelectionState {
            selected_actor: None,
            selected_ability: None,
            selected_target: None,
            move_mode: false,
        }
    }

    /// Forgets everything.
    pub fn clear(&mut self)
        ensures
            *final(self) == SelectionState::nothing(),
    {
        self.selected_actor = None;
        self.selected_ability = None;
        self.selected_target = None;
        self.move_mode = false;
    }
}

impl Default for SelectionState {
    fn default() -> (r: SelectionState)
        ensures
            r == SelectionState::nothing(),
    {
        SelectionState {
            selected_actor: None,
            selected_ability: None,
            selected_target: None,
            move_mode: false,
        }
    }
}

/// A combatant that is not marked as fallen.
#[derive(Debug)]
pub struct PlayerRow {
    pub entity: Entity,
    pub team: Team,
    pub is_alive: bool,
    pub ap: ActionPoints,
    pub has_bonus_move: bool,
    pub abilities: Vec<String>,
}

impl ActionPoints {
    /// Whether a step can still be taken.
    pub open spec fn may_step(self) -> bool {
        self.movement_points > 0
    }

    /// Whether a step can still be taken.
    pub fn can_move(self) -> (r: bool)
        ensures
            r == self.may_step(),
    {
        self.movement_points > 0
    }

    /// Whether `cost` action points are left.
    pub open spec fn may_act_for(self, cost: i32) -> bool {
        self.action_points >= cost
    }

    /// Whether `cost` action points are left.
    pub fn can_act_for(self, cost: i32) -> (r: bool)
        ensures
            r == self.may_act_for(cost),
    {
        self.action_points >= cost
    }
}

// ---------------------------------------------------------------------------
// Lookup
// ---------------------------------------------------------------------------

/// The first row of an entity.
pub open spec fn row_of(rows: Seq<PlayerRow>, entity: Entity) -> Option<PlayerRow>
    decreases rows.len(),
{
    if rows.len() == 0 {
        None
    } else if rows[0].entity == entity {
        Some(rows[0])
    } else {
        row_of(rows.drop_first(), entity)
    }
}

fn find_row(rows: &Vec<PlayerRow>, entity: Entity) -> (r: Option<&PlayerRow>)
    ensures
        match r {
            Some(row) => row_of(rows@, entity) == Some(*row),
            None => row_of(rows@, entity) is None,
        },
{
    let mut i: usize = 0;
    assert(rows@.skip(0) =~= rows@);
    while i < rows.len()
        invariant
            i <= rows.len(),
            row_of(rows@, entity) == row_of(rows@.skip(i as int), entity),
        decreases rows.len() - i,
    {
        assert(rows@.skip(i as int).drop_first() =~= rows@.skip(i + 1));
        if rows[i].entity == entity {
            return Some(&rows[i]);
        }
        i = i + 1;
    }
    None
}

fn was_pressed(pressed: &Vec<Key>, key: Key) -> (r: bool)
    ensures
        r == pressed@.contains(key),
{
    let mut i: usize = 0;
    while i < pressed.len()
        invariant
            i <= pressed.len(),
            forall|j: int| 0 <= j < i ==> (#[trigger] pressed@[j]) != key,
        decreases pressed.len() - i,
    {
        if pressed[i] == key {
            assert(pressed@[i as int] == key);
            return true;
        }
        i = i + 1;
    }
    false
}

/// The cell of an entity; the origin where it stands nowhere.
pub open spec fn cell_of(cells: Map<Entity, Hex>, entity: Entity) -> Hex {
    if cells.contains_key(entity) {
        cells[entity]
    } else {
        Hex::origin()
    }
}

fn find_cell(positions: &HexPositions, entity: Entity) -> (r: Hex)
    ensures
        r == cell_of(positions@, entity),
{
    match positions.get(entity) {
        Some(hex) => hex,
        None => Hex::zero(),
    }
}

// ---------------------------------------------------------------------------
// Selecting
// ---------------------------------------------------------------------------

/// Whether the ability of a name is for its user alone.
pub open spec fn is_for_self(content: ContentView, id: Seq<char>) -> bool {
    content.ability(id) matches Some(def) && def.target_type == TargetType::Myself
}

fn aims_at_self(content: &ContentView, id: &String) -> (r: bool)
    ensures
        r == is_for_self(*content, id@),
{
    match content.ability_def(id) {
        Some(def) => def.target_type == TargetType::Myself,
        None => false,
    }
}

/// A selection once the turn has nothing but movement left: it is in move mode.
pub open spec fn auto_move(sel: SelectionState, row: PlayerRow) -> SelectionState {
    let only_moves = row.ap.action_points <= 0 && row.ap.may_step();
    if (row.has_bonus_move || only_moves) && !sel.move_mode {
        SelectionState {
            selected_ability: None,
            selected_target: None,
            move_mode: true,
            ..sel
        }
    } else {
        sel
    }
}

/// A selection once it is the actor's: the first ability is selected, and the
/// actor as its target where the ability is for its user alone.
pub open spec fn for_actor(
    sel: SelectionState,
    row: PlayerRow,
    actor: Entity,
    content: ContentView,
) -> SelectionState {
    if sel.selected_actor == Some(actor) {
        sel
    } else {
        let first = if row.abilities@.len() > 0 {
            Some(row.abilities@[0])
        } else {
            None
        };
        SelectionState {
            selected_actor: Some(actor),
            selected_ability: first,
            selected_target: if first is Some && is_for_self(content, first->0@) {
                Some(actor)
            } else {
                sel.selected_target
            },
            move_mode: false,
        }
    }
}

fn select_actor(sel: &mut SelectionState, row: &PlayerRow, actor: Entity, content: &ContentView)
    ensures
        *final(sel) == for_actor(*old(sel), *row, actor, *content),
{
    let same = match sel.selected_actor {
        Some(e) => e == actor,
        None => false,
    };
    if same {
        return ;
    }
    sel.selected_actor = Some(actor);
    sel.move_mode = false;
    if row.abilities.len() > 0 {
        sel.selected_ability = Some(row.abilities[0].clone());
        if aims_at_self(content, &row.abilities[0]) {
            sel.selected_target = Some(actor);
        }
    } else {
        sel.selected_ability = None;
    }
}

/// The first ability with a key of its own whose key was pressed.
pub open spec fn keyed_press(
    keyed: Seq<String>,
    content: ContentView,
    pressed: Seq<Key>,
) -> Option<(String, AbilityDef)>
    decreases keyed.len(),
{
    if keyed.len() == 0 {
        None
    } else {
        match content.ability(keyed[0]@) {
            Some(def) if def.key is Some && key_named(def.key->0@) is Some && pressed.contains(
                key_named(def.key->0@)->0,
            ) => Some((keyed[0], def)),
            _ => keyed_press(keyed.drop_first(), content, pressed),
        }
    }
}

fn find_keyed_press<'a>(
    keyed: &Vec<String>,
    content: &'a ContentView,
    pressed: &Vec<Key>,
) -> (r: Option<(String, &'a AbilityDef)>)
    ensures
        match r {
            Some((id, def)) => keyed_press(keyed@, *content, pressed@) == Some((id, *def)),
            None => keyed_press(keyed@, *content, pressed@) is None,
        },
{
    let mut i: usize = 0;
    assert(keyed@.skip(0) =~= keyed@);
    while i < keyed.len()
        invariant
            i <= keyed.len(),
            keyed_press(keyed@, *content, pressed@) == keyed_press(
                keyed@.skip(i as int),
                *content,
                pressed@,
            ),
        decreases keyed.len() - i,
    {
        assert(keyed@.skip(i as int).drop_first() =~= keyed@.skip(i + 1));
        if let Some(def) = content.ability_def(&keyed[i]) {
            if let Some(name) = &def.key {
                if let Some(key) = key_str_to_keycode(name.as_str()) {
                    if was_pressed(pressed, key) {
                        return Some((keyed[i].clone(), def));
                    }
                }
            }
        }
        i = i + 1;
    }
    None
}

/// What the key of an ability of its own does: it switches move mode, or casts
/// the ability on the actor where the ability is for its user alone.
pub open spec fn keyed_command(
    sel: SelectionState,
    row: PlayerRow,
    actor: Entity,
    id: String,
    def: AbilityDef,
    cells: Map<Entity, Hex>,
) -> (SelectionState, Option<ActionInput>) {
    if def.is_move_toggle {
        if !row.ap.may_step() {
            (sel, None)
        } else if sel.move_mode {
            (SelectionState { move_mode: false, ..sel }, None)
        } else {
            (
                SelectionState {
                    selected_ability: None,
                    selected_target: None,
                    move_mode: true,
                    ..sel
                },
                None,
            )
        }
    } else if def.target_type == TargetType::Myself && row.ap.may_act_for(def.cost_ap) {
        (
            SelectionState::nothing(),
            Some(
                ActionInput::Cast {
                    actor,
                    ability: id,
                    target: actor,
                    target_pos: cell_of(cells, actor),
                },
            ),
        )
    } else {
        (sel, None)
    }
}

fn press_keyed(
    sel: &mut SelectionState,
    row: &PlayerRow,
    actor: Entity,
    id: String,
    def: &AbilityDef,
    positions: &HexPositions,
) -> (r: Option<ActionInput>)
    ensures
        (*final(sel), r) == keyed_command(*old(sel), *row, actor, id, *def, positions@),
{
    if def.is_move_toggle {
        if row.ap.can_move() {
            sel.move_mode = !sel.move_mode;
            if sel.move_mode {
                sel.selected_ability = None;
                sel.selected_target = None;
            }
        }
        None
    } else if def.target_type == TargetType::Myself && row.ap.can_act_for(def.cost_ap) {
        let target_pos = find_cell(positions, actor);
        sel.clear();
        Some(ActionInput::Cast { actor, ability: id, target: actor, target_pos })
    } else {
        None
    }
}

/// How many abilities have a numbered key.
pub const SLOTS: usize = 5;

/// A selection after the first `n` numbered keys: each that was pressed selects
/// the ability of its number.
pub open spec fn after_slots(
    sel: SelectionState,
    row: PlayerRow,
    actor: Entity,
    content: ContentView,
    pressed: Seq<Key>,
    n: nat,
) -> SelectionState
    decreases n,
{
    if n == 0 {
        sel
    } else {
        let s = after_slots(sel, row, actor, content, pressed, (n - 1) as nat);
        if pressed.contains(Key::Digit(n as u8)) && n <= row.abilities@.len() {
            let id = row.abilities@[n - 1];
            SelectionState {
                selected_ability: Some(id),
                selected_target: if is_for_self(content, id@) {
                    Some(actor)
                } else {
                    s.selected_target
                },
                move_mode: false,
                ..s
            }
        } else {
            s
        }
    }
}

fn press_slots(
    sel: &mut SelectionState,
    row: &PlayerRow,
    actor: Entity,
    content: &ContentView,
    pressed: &Vec<Key>,
)
    ensures
        *final(sel) == after_slots(
            *old(sel),
            *row,
            actor,
            *content,
            pressed@,
            SLOTS as nat,
        ),
{
    let ghost before = *sel;
    let mut i: usize = 0;
    while i < SLOTS
        invariant
            i <= SLOTS,
            *sel == after_slots(before, *row, actor, *content, pressed@, i as nat),
        decreases SLOTS - i,
    {
        let key = Key::Digit((i + 1) as u8);
        if was_pressed(pressed, key) && i < row.abilities.len() {
            if aims_at_self(content, &row.abilities[i]) {
                sel.selected_target = Some(actor);
            }
            sel.selected_ability = Some(row.abilities[i].clone());
            sel.move_mode = false;
        }
        i = i + 1;
    }
}

// ---------------------------------------------------------------------------
// Targets
// ---------------------------------------------------------------------------

/// Whether a combatant is among those that Tab goes through: the living of the
/// player's own team for abilities on allies, living enemies for all others.
pub open spec fn is_candidate(row: PlayerRow, actor: Entity, allies: bool) -> bool {
    row.is_alive && if allies {
        row.team == Team::Player
    } else {
        row.entity != actor && row.team == Team::Enemy
    }
}

/// Those that Tab goes through, in order.
pub open spec fn candidates(rows: Seq<PlayerRow>, actor: Entity, allies: bool) -> Seq<Entity>
    decreases rows.len(),
{
    if rows.len() == 0 {
        Seq::empty()
    } else if is_candidate(rows.last(), actor, allies) {
        candidates(rows.drop_last(), actor, allies).push(rows.last().entity)
    } else {
        candidates(rows.drop_last(), actor, allies)
    }
}

fn collect_candidates(rows: &Vec<PlayerRow>, actor: Entity, allies: bool) -> (r: Vec<Entity>)
    ensures
        r@ == candidates(rows@, actor, allies),
{
    let mut r: Vec<Entity> = Vec::new();
    let mut i: usize = 0;
    assert(rows@.take(0) =~= Seq::empty());
    while i < rows.len()
        invariant
            i <= rows.len(),
            r@ == candidates(rows@.take(i as int), actor, allies),
        decreases rows.len() - i,
    {
        assert(rows@.take(i + 1).drop_last() =~= rows@.take(i as int));
        let fits = if allies {
            rows[i].team == Team::Player
        } else {
            rows[i].entity != actor && rows[i].team == Team::Enemy
        };
        if rows[i].is_alive && fits {
            r.push(rows[i].entity);
        }
        i = i + 1;
    }
    assert(rows@.take(i as int) =~= rows@);
    r
}

/// Whether `i` is the first place of an entity in a list.
pub open spec fn is_first_place(list: Seq<Entity>, entity: Entity, i: int) -> bool {
    &&& 0 <= i < list.len()
    &&& list[i] == entity
    &&& forall|j: int| 0 <= j < i ==> (#[trigger] list[j]) != entity
}

/// The first place of an entity in a list.
pub open spec fn place_in(list: Seq<Entity>, entity: Entity) -> Option<int> {
    if exists|i: int| is_first_place(list, entity, i) {
        Some(choose|i: int| is_first_place(list, entity, i))
    } else {
        None
    }
}

/// The place in a list after that of the present target, round and round; the
/// first where the present target is not in it.
pub open spec fn next_place(list: Seq<Entity>, current: Option<Entity>) -> int {
    match current {
        Some(e) => match place_in(list, e) {
            Some(i) => if i + 1 == list.len() {
                0
            } else {
                i + 1
            },
            None => 0,
        },
        None => 0,
    }
}

proof fn first_place_is_unique(list: Seq<Entity>, entity: Entity, i: int)
    requires
        is_first_place(list, entity, i),
    ensures
        place_in(list, entity) == Some(i),
{
    let k = choose|k: int| is_first_place(list, entity, k);
    assert(is_first_place(list, entity, k));
    if k < i {
        assert(list[k] != entity);
    }
    if i < k {
        assert(list[i] != entity);
    }
}

fn find_next_place(list: &Vec<Entity>, current: Option<Entity>) -> (r: usize)
    requires
        list@.len() > 0,
    ensures
        r == next_place(list@, current),
        r < list@.len(),
{
    if let Some(e) = current {
        let mut i: usize = 0;
        while i < list.len()
            invariant
                i <= list.len(),
                current == Some(e),
                forall|j: int| 0 <= j < i ==> (#[trigger] list@[j]) != e,
            decreases list.len() - i,
        {
            if list[i] == e {
                proof {
                    first_place_is_unique(list@, e, i as int);
                }
                return if i + 1 == list.len() {
                    0
                } else {
                    i + 1
                };
            }
            i = i + 1;
        }
        proof {
            assert forall|k: int| !is_first_place(list@, e, k) by {
                if 0 <= k < list@.len() {
                    assert(list@[k] != e);
                }
            }
        }
    }
    0
}

/// Whom the selected ability is aimed at, where one is selected.
pub open spec fn selected_aim(sel: SelectionState, content: ContentView) -> Option<TargetType> {
    match sel.selected_ability {
        Some(id) => match content.ability(id@) {
            Some(def) => Some(def.target_type),
            None => None,
        },
        None => None,
    }
}

/// A selection after Tab: the next target is selected, unless the selected
/// ability needs none.
pub open spec fn after_tab(
    sel: SelectionState,
    rows: Seq<PlayerRow>,
    actor: Entity,
    content: ContentView,
) -> SelectionState {
    let aim = selected_aim(sel, content);
    let list = candidates(rows, actor, aim == Some(TargetType::SingleAlly));
    if aim == Some(TargetType::Myself) || aim == Some(TargetType::Ground) || list.len() == 0 {
        sel
    } else {
        SelectionState {
            selected_target: Some(list[next_place(list, sel.selected_target)]),
            ..sel
        }
    }
}

fn press_tab(
    sel: &mut SelectionState,
    rows: &Vec<PlayerRow>,
    actor: Entity,
    content: &ContentView,
)
    ensures
        *final(sel) == after_tab(*old(sel), rows@, actor, *content),
{
    let aim: Option<TargetType> = match &sel.selected_ability {
        Some(id) => match content.ability_def(id) {
            Some(def) => Some(def.target_type),
            None => None,
        },
        None => None,
    };
    let mut allies = false;
    if let Some(t) = aim {
        if t == TargetType::Myself || t == TargetType::Ground {
            return ;
        }
        allies = t == TargetType::SingleAlly;
    }
    let list = collect_candidates(rows, actor, allies);
    if list.len() > 0 {
        let place = find_next_place(&list, sel.selected_target);
        sel.selected_target = Some(list[place]);
    }
}

// ---------------------------------------------------------------------------
// Commands
// ---------------------------------------------------------------------------

/// What the keys do once an actor is selected and no key of an ability of its
/// own was pressed: numbers, Escape, `E`, Tab and Enter, in this order.
pub open spec fn common_command(
    sel: SelectionState,
    rows: Seq<PlayerRow>,
    row: PlayerRow,
    actor: Entity,
    content: ContentView,
    pressed: Seq<Key>,
    cells: Map<Entity, Hex>,
) -> (SelectionState, Option<ActionInput>) {
    let slotted = after_slots(sel, row, actor, content, pressed, SLOTS as nat);
    let escaped = if pressed.contains(Key::Escape) {
        SelectionState { move_mode: false, ..slotted }
    } else {
        slotted
    };
    if pressed.contains(Key::Letter('E')) {
        (SelectionState::nothing(), Some(ActionInput::EndTurn { actor }))
    } else {
        let tabbed = if pressed.contains(Key::Tab) && !escaped.move_mode {
            after_tab(escaped, rows, actor, content)
        } else {
            escaped
        };
        match (tabbed.selected_ability, tabbed.selected_target) {
            (Some(ability), Some(target)) if pressed.contains(Key::Enter) => (
                SelectionState::nothing(),
                Some(
                    ActionInput::Cast {
                        actor,
                        ability,
                        target,
                        target_pos: cell_of(cells, target),
                    },
                ),
            ),
            _ => (tabbed, None),
        }
    }
}

fn press_common(
    sel: &mut SelectionState,
    rows: &Vec<PlayerRow>,
    row: &PlayerRow,
    actor: Entity,
    content: &ContentView,
    pressed: &Vec<Key>,
    positions: &HexPositions,
) -> (r: Option<ActionInput>)
    ensures
        (*final(sel), r) == common_command(
            *old(sel),
            rows@,
            *row,
            actor,
            *content,
            pressed@,
            positions@,
        ),
{
    press_slots(sel, row, actor, content, pressed);
    if was_pressed(pressed, Key::Escape) && sel.move_mode {
        sel.move_mode = false;
    }
    if was_pressed(pressed, Key::Letter('E')) {
        sel.clear();
        return Some(ActionInput::EndTurn { actor });
    }
    if was_pressed(pressed, Key::Tab) && !sel.move_mode {
        press_tab(sel, rows, actor, content);
    }
    if was_pressed(pressed, Key::Enter) {
        if let (Some(ability), Some(target)) = (sel.selected_ability.clone(), sel.selected_target) {
            let target_pos = find_cell(positions, target);
            sel.clear();
            return Some(ActionInput::Cast { actor, ability, target, target_pos });
        }
    }
    None
}

/// Whether the player commands an actor: it is on the board, of the player's
/// team, and no status has handed it to the AI.
pub open spec fn commands(rows: Seq<PlayerRow>, actor: Option<Entity>, ai_controlled: bool) -> bool {
    &&& actor is Some
    &&& row_of(rows, actor->0) is Some
    &&& row_of(rows, actor->0)->0.team == Team::Player
    &&& !ai_controlled
}

/// What the keys that were pressed do to the selection, and the command that they
/// give. A turn with neither actions nor steps left ends by itself.
pub open spec fn commanded(
    sel: SelectionState,
    rows: Seq<PlayerRow>,
    active: Option<Entity>,
    ai_controlled: bool,
    content: ContentView,
    keyed: Seq<String>,
    pressed: Seq<Key>,
    cells: Map<Entity, Hex>,
) -> (SelectionState, Option<ActionInput>) {
    if !commands(rows, active, ai_controlled) {
        (sel, None)
    } else {
        let actor = active->0;
        let row = row_of(rows, actor)->0;
        let moving = auto_move(sel, row);
        if row.ap.action_points <= 0 && !row.ap.may_step() {
            (SelectionState::nothing(), Some(ActionInput::EndTurn { actor }))
        } else {
            let chosen = for_actor(moving, row, actor, content);
            match keyed_press(keyed, content, pressed) {
                Some((id, def)) => keyed_command(chosen, row, actor, id, def, cells),
                None => common_command(chosen, rows, row, actor, content, pressed, cells),
            }
        }
    }
}

/// Turns the keys that were pressed into a command, where they give one.
pub fn player_command_system(
    sel: &mut SelectionState,
    rows: &Vec<PlayerRow>,
    active: Option<Entity>,
    ai_controlled: bool,
    content: &ContentView,
    keyed: &Vec<String>,
    pressed: &Vec<Key>,
    positions: &HexPositions,
) -> (r: Option<ActionInput>)
    ensures
        (*final(sel), r) == commanded(
            *old(sel),
            rows@,
            active,
            ai_controlled,
            *content,
            keyed@,
            pressed@,
            positions@,
        ),
{
    let actor = match active {
        Some(e) => e,
        None => return None,
    };
    let row = match find_row(rows, actor) {
        Some(row) => row,
        None => return None,
    };
    if row.team != Team::Player || ai_controlled {
        return None;
    }
    let only_moves = row.ap.action_points <= 0 && row.ap.can_move();
    if (row.has_bonus_move || only_moves) && !sel.move_mode {
        sel.move_mode = true;
        sel.selected_ability = None;
        sel.selected_target = None;
    }
    if row.ap.action_points <= 0 && !row.ap.can_move() {
        sel.clear();
        return Some(ActionInput::EndTurn { actor });
    }
    select_actor(sel, row, actor, content);
    if let Some((id, def)) = find_keyed_press(keyed, content, pressed) {
        return press_keyed(sel, row, actor, id, def, positions);
    }
    press_common(sel, rows, row, actor, content, pressed, positions)
}

// ---------------------------------------------------------------------------
// Laws
// ---------------------------------------------------------------------------

/// Every command is the active actor's own, and leaves nothing selected.
pub proof fn law_commands_are_the_actors(
    sel: SelectionState,
    rows: Seq<PlayerRow>,
    active: Option<Entity>,
    ai_controlled: bool,
    content: ContentView,
    keyed: Seq<String>,
    pressed: Seq<Key>,
    cells: Map<Entity, Hex>,
)
    ensures
        ({
            let (after, command) = commanded(
                sel,
                rows,
                active,
                ai_controlled,
                content,
                keyed,
                pressed,
                cells,
            );
            match command {
                Some(ActionInput::Cast { actor, .. }) => Some(actor) == active && after
                    == SelectionState::nothing(),
                Some(ActionInput::EndTurn { actor }) => Some(actor) == active && after
                    == SelectionState::nothing(),
                Some(ActionInput::Move { .. }) => false,
                None => true,
            }
        }),
{
}

/// Where the player commands nobody, no key does anything.
pub proof fn law_no_command_of_others(
    sel: SelectionState,
    rows: Seq<PlayerRow>,
    active: Option<Entity>,
    ai_controlled: bool,
    content: ContentView,
    keyed: Seq<String>,
    pressed: Seq<Key>,
    cells: Map<Entity, Hex>,
)
    requires
        !commands(rows, active, ai_controlled),
    ensures
        commanded(sel, rows, active, ai_controlled, content, keyed, pressed, cells) == (
            sel,
            None::<ActionInput>,
        ),
{
}

/// Tab goes through all candidates: from each to the next in the list, and from
/// the last to the first.
pub proof fn law_tab_cycles(list: Seq<Entity>, i: int)
    requires
        0 <= i < list.len(),
        list.no_duplicates(),
    ensures
        next_place(list, Some(list[i])) == (if i + 1 == list.len() {
            0
        } else {
            i + 1
        }),
{
    first_place_is_unique(list, list[i], i);
}

/// Every capital letter but the one that ends a turn names its key; nothing else does.
pub proof fn law_key_names(name: Seq<char>)
    ensures
        key_named(name) matches Some(k) ==> name.len() == 1 && k == Key::Letter(name[0]),
        key_named(name) is Some <==> name.len() == 1 && 'A' <= name[0] <= 'Z' && name[0] != 'E',
        key_named(name) != Some(Key::Letter('E')),
{
}

/// The first row of an entity is the one that counts; without one it has none.
pub proof fn law_row_as_listed(rows: Seq<PlayerRow>, entity: Entity, k: int)
    ensures
        0 <= k < rows.len() && rows[k].entity == entity && (forall|j: int|
            0 <= j < k ==> (#[trigger] rows[j]).entity != entity) ==> row_of(rows, entity) == Some(
            rows[k],
        ),
        (forall|j: int| 0 <= j < rows.len() ==> (#[trigger] rows[j]).entity != entity) ==> row_of(
            rows,
            entity,
        ) is None,
    decreases rows.len(),
{
    if rows.len() > 0 {
        let rest = rows.drop_first();
        law_row_as_listed(rest, entity, k - 1);
        assert forall|j: int| 0 <= j < rest.len() implies #[trigger] rest[j] == rows[j + 1] by {}
        if forall|j: int| 0 <= j < rows.len() ==> (#[trigger] rows[j]).entity != entity {
            assert(rows[0].entity != entity);
        }
        if 0 < k < rows.len() && rows[k].entity == entity && (forall|j: int|
            0 <= j < k ==> (#[trigger] rows[j]).entity != entity) {
            assert(rows[0].entity != entity);
            assert(rest[k - 1] == rows[k]);
        }
    }
}

/// Who has movement beyond its turn's, or movement and no action left, starts to move, with
/// nothing aimed at. Who moves already, or has an action and no such movement, is left alone.
pub proof fn law_moving_by_itself(sel: SelectionState, row: PlayerRow)
    ensures
        ({
            let r = auto_move(sel, row);
            let starts = !sel.move_mode && (row.has_bonus_move || (row.ap.action_points <= 0
                && row.ap.movement_points > 0));
            &&& !starts ==> r == sel
            &&& starts ==> r.move_mode && r.selected_ability is None && r.selected_target is None
                && r.selected_actor == sel.selected_actor
        }),
{
}

/// A new actor starts with its first ability and not moving, and aims at itself where that
/// ability is for itself; an actor that is selected already changes nothing.
pub proof fn law_selecting_an_actor(
    sel: SelectionState,
    row: PlayerRow,
    actor: Entity,
    content: ContentView,
)
    ensures
        ({
            let r = for_actor(sel, row, actor, content);
            &&& sel.selected_actor == Some(actor) ==> r == sel
            &&& sel.selected_actor != Some(actor) ==> {
                &&& r.selected_actor == Some(actor)
                &&& !r.move_mode
                &&& row.abilities@.len() == 0 ==> r.selected_ability is None && r.selected_target
                    == sel.selected_target
                &&& row.abilities@.len() > 0 ==> r.selected_ability == Some(row.abilities@[0])
                &&& row.abilities@.len() > 0 && is_for_self(content, row.abilities@[0]@)
                    ==> r.selected_target == Some(actor)
                &&& row.abilities@.len() > 0 && !is_for_self(content, row.abilities@[0]@)
                    ==> r.selected_target == sel.selected_target
            }
        }),
{
}

/// An ability is for the caster itself if and only if it is known and its target is.
pub proof fn law_for_oneself(content: ContentView, id: Seq<char>)
    ensures
        content.ability(id) is None ==> !is_for_self(content, id),
        content.ability(id) matches Some(d) ==> (is_for_self(content, id)
            <==> d.target_type is Myself),
{
}

/// Whether the key of an ability is pressed.
pub open spec fn key_is_pressed(content: ContentView, id: Seq<char>, pressed: Seq<Key>) -> bool {
    content.ability(id) is Some && content.ability(id)->0.key is Some && key_named(
        content.ability(id)->0.key->0@,
    ) is Some && pressed.contains(key_named(content.ability(id)->0.key->0@)->0)
}

/// The first ability whose key is pressed counts.
pub proof fn law_first_key_counts(
    keyed: Seq<String>,
    content: ContentView,
    pressed: Seq<Key>,
    k: int,
)
    ensures
        0 <= k < keyed.len() && key_is_pressed(content, keyed[k]@, pressed) && (forall|j: int|
            0 <= j < k ==> !key_is_pressed(content, (#[trigger] keyed[j])@, pressed))
            ==> keyed_press(keyed, content, pressed) == Some(
            (keyed[k], content.ability(keyed[k]@)->0),
        ),
        (forall|j: int|
            0 <= j < keyed.len() ==> !key_is_pressed(content, (#[trigger] keyed[j])@, pressed))
            ==> keyed_press(keyed, content, pressed) is None,
    decreases keyed.len(),
{
    if keyed.len() > 0 {
        let rest = keyed.drop_first();
        law_first_key_counts(rest, content, pressed, k - 1);
        assert forall|j: int| 0 <= j < rest.len() implies #[trigger] rest[j] == keyed[j + 1] by {}
        if forall|j: int|
            0 <= j < keyed.len() ==> !key_is_pressed(content, (#[trigger] keyed[j])@, pressed) {
            assert(!key_is_pressed(content, keyed[0]@, pressed));
        }
        if 0 < k < keyed.len() && key_is_pressed(content, keyed[k]@, pressed) && (forall|j: int|
            0 <= j < k ==> !key_is_pressed(content, (#[trigger] keyed[j])@, pressed)) {
            assert(!key_is_pressed(content, keyed[0]@, pressed));
            assert(rest[k - 1] == keyed[k]);
        }
    }
}

/// The key of the move toggle begins or ends moving, for who has movement left. The key of an
/// ability for the caster casts it at once, for who has the action points; other keys do
/// nothing.
pub proof fn law_what_a_key_does(
    sel: SelectionState,
    row: PlayerRow,
    actor: Entity,
    id: String,
    def: AbilityDef,
    cells: Map<Entity, Hex>,
)
    ensures
        ({
            let (r, input) = keyed_command(sel, row, actor, id, def, cells);
            let steps = row.ap.movement_points > 0;
            let casts = !def.is_move_toggle && def.target_type is Myself && row.ap.action_points
                >= def.cost_ap;
            &&& def.is_move_toggle ==> input is None
            &&& def.is_move_toggle && !steps ==> r == sel
            &&& def.is_move_toggle && steps ==> r.move_mode == !sel.move_mode && r.selected_actor
                == sel.selected_actor
            &&& def.is_move_toggle && steps && !sel.move_mode ==> r.selected_ability is None
                && r.selected_target is None
            &&& def.is_move_toggle && steps && sel.move_mode ==> r.selected_ability
                == sel.selected_ability && r.selected_target == sel.selected_target
            &&& casts ==> r.selected_actor is None && r.selected_ability is None
                && r.selected_target is None && !r.move_mode
            &&& casts ==> input == Some(
                ActionInput::Cast {
                    actor,
                    ability: id,
                    target: actor,
                    target_pos: cell_of(cells, actor),
                },
            )
            &&& !casts && !def.is_move_toggle ==> r == sel && input is None
        }),
{
}

/// An entity is where it stands, one without a place in the middle of the coordinates.
pub proof fn law_cell_of(cells: Map<Entity, Hex>, entity: Entity)
    ensures
        cells.contains_key(entity) ==> cell_of(cells, entity) == cells[entity],
        !cells.contains_key(entity) ==> cell_of(cells, entity) == (Hex { x: 0, y: 0 }),
{
}

/// The number of a slot selects its ability and ends moving; a number without an ability, or
/// one that is not pressed, does nothing. There are five slots.
pub proof fn law_slots(
    sel: SelectionState,
    row: PlayerRow,
    actor: Entity,
    content: ContentView,
    pressed: Seq<Key>,
    n: nat,
)
    requires
        1 <= n <= 5,
    ensures
        SLOTS == 5,
        after_slots(sel, row, actor, content, pressed, 0) == sel,
        ({
            let before = after_slots(sel, row, actor, content, pressed, (n - 1) as nat);
            let after = after_slots(sel, row, actor, content, pressed, n);
            let hit = pressed.contains(Key::Digit(n as u8)) && n <= row.abilities@.len();
            &&& !hit ==> after == before
            &&& hit ==> {
                &&& after.selected_actor == before.selected_actor
                &&& after.selected_ability == Some(row.abilities@[n - 1])
                &&& !after.move_mode
                &&& is_for_self(content, row.abilities@[n - 1]@) ==> after.selected_target == Some(
                    actor,
                )
                &&& !is_for_self(content, row.abilities@[n - 1]@) ==> after.selected_target
                    == before.selected_target
            }
        }),
{
}

/// The living of the player's team can be aimed at with what is for an ally, the actor among
/// them, and living enemies with anything else.
pub proof fn law_who_can_be_aimed_at(
    rows: Seq<PlayerRow>,
    more: PlayerRow,
    actor: Entity,
    allies: bool,
)
    ensures
        candidates(Seq::empty(), actor, allies).len() == 0,
        ({
            let before = candidates(rows, actor, allies);
            let after = candidates(rows.push(more), actor, allies);
            let fits = more.is_alive && (if allies {
                more.team is Player
            } else {
                more.team is Enemy && more.entity != actor
            });
            &&& fits ==> after == before.push(more.entity)
            &&& !fits ==> after == before
        }),
{
    assert(rows.push(more).drop_last() =~= rows);
}

/// The next place is the one after the present, the first after the last and the first where
/// there is no present place.
pub proof fn law_next_place(list: Seq<Entity>, i: int)
    requires
        0 <= i < list.len(),
        forall|j: int| 0 <= j < i ==> (#[trigger] list[j]) != list[i],
    ensures
        i + 1 < list.len() ==> next_place(list, Some(list[i])) == i + 1,
        i + 1 == list.len() ==> next_place(list, Some(list[i])) == 0,
        next_place(list, None) == 0,
{
    assert(is_first_place(list, list[i], i));
    let k = choose|k: int| is_first_place(list, list[i], k);
    assert(is_first_place(list, list[i], k));
    if k < i {
        assert(list[k] != list[i]);
    }
    if i < k {
        assert(list[i] != list[i]);
    }
}

/// The tabulator goes on to the next whom the selected ability can be aimed at, and does
/// nothing where it is for the caster or the ground or where there is nobody.
pub proof fn law_tab(
    sel: SelectionState,
    rows: Seq<PlayerRow>,
    actor: Entity,
    content: ContentView,
)
    ensures
        ({
            let r = after_tab(sel, rows, actor, content);
            let def = if sel.selected_ability is Some {
                content.ability(sel.selected_ability->0@)
            } else {
                None
            };
            let list = candidates(rows, actor, def is Some && def->0.target_type is SingleAlly);
            let fixed = def is Some && (def->0.target_type is Myself || def->0.target_type
                is Ground);
            &&& fixed || list.len() == 0 ==> r == sel
            &&& !fixed && list.len() > 0 ==> {
                &&& r.selected_target == Some(list[next_place(list, sel.selected_target)])
                &&& r.selected_actor == sel.selected_actor
                &&& r.selected_ability == sel.selected_ability
                &&& r.move_mode == sel.move_mode
            }
        }),
{
}

/// Ending the turn goes before everything but choosing a slot. Otherwise confirming casts
/// what is selected on whom it is aimed at, and without either nothing is done; escape ends
/// moving.
pub proof fn law_common_keys(
    sel: SelectionState,
    rows: Seq<PlayerRow>,
    row: PlayerRow,
    actor: Entity,
    content: ContentView,
    pressed: Seq<Key>,
    cells: Map<Entity, Hex>,
)
    ensures
        ({
            let (r, input) = common_command(sel, rows, row, actor, content, pressed, cells);
            let s = after_slots(sel, row, actor, content, pressed, 5);
            let moving = s.move_mode && !pressed.contains(Key::Escape);
            let aimed = if pressed.contains(Key::Tab) && !moving {
                after_tab(SelectionState { move_mode: moving, ..s }, rows, actor, content)
            } else {
                SelectionState { move_mode: moving, ..s }
            };
            let ends = pressed.contains(Key::Letter('E'));
            let casts = !ends && pressed.contains(Key::Enter) && aimed.selected_ability is Some
                && aimed.selected_target is Some;
            &&& ends ==> input == Some(ActionInput::EndTurn { actor })
            &&& casts ==> input == Some(
                ActionInput::Cast {
                    actor,
                    ability: aimed.selected_ability->0,
                    target: aimed.selected_target->0,
                    target_pos: cell_of(cells, aimed.selected_target->0),
                },
            )
            &&& ends || casts ==> r.selected_actor is None && r.selected_ability is None
                && r.selected_target is None && !r.move_mode
            &&& !ends && !casts ==> input is None && r == aimed
        }),
{
}

/// Only the player's own active combatant, if nothing else controls it, can be commanded. One
/// with neither actions nor movement ends its turn by itself. What is asked for is always
/// asked for by the active combatant.
pub proof fn law_who_is_commanded(
    sel: SelectionState,
    rows: Seq<PlayerRow>,
    active: Option<Entity>,
    ai_controlled: bool,
    content: ContentView,
    keyed: Seq<String>,
    pressed: Seq<Key>,
    cells: Map<Entity, Hex>,
)
    ensures
        ({
            let (r, input) = commanded(
                sel,
                rows,
                active,
                ai_controlled,
                content,
                keyed,
                pressed,
                cells,
            );
            let row = row_of(rows, active->0);
            let mine = active is Some && row is Some && row->0.team is Player && !ai_controlled;
            let spent = mine && row->0.ap.action_points <= 0 && row->0.ap.movement_points <= 0;
            &&& !mine ==> r == sel && input is None
            &&& spent ==> input == Some(ActionInput::EndTurn { actor: active->0 })
                && r.selected_actor is None
            &&& mine && !spent && keyed_press(keyed, content, pressed) is None ==> (r, input)
                == common_command(
                for_actor(auto_move(sel, row->0), row->0, active->0, content),
                rows,
                row->0,
                active->0,
                content,
                pressed,
                cells,
            )
            &&& mine && !spent ==> (keyed_press(keyed, content, pressed) matches Some((id, def)) ==> (
            r,
            input,
        ) == keyed_command(
                for_actor(auto_move(sel, row->0), row->0, active->0, content),
                row->0,
                active->0,
                id,
                def,
                cells,
            ))
        }),
{
}

} // verus!
