//! What a rule check may ask about combatants and their targets.

use crate::bootstrap::EcsStatus;
use crate::content::{AbilityDef, ContentView, StatusDef};
use crate::hex::{Board, Hex};
use crate::ids::Entity;
use crate::positions::HexPositions;
use crate::state::Team;
use crate::text::same_text;
use vstd::prelude::*;

verus! {

/// A combatant as one who acts.
#[derive(Debug)]
pub struct ActorRow {
    pub entity: Entity,
    pub team: Team,
    pub hp: i32,
    pub action_points: i32,
    pub mana: Option<i32>,
    pub rage: Option<i32>,
    pub energy: Option<i32>,
    pub statuses: Vec<EcsStatus>,
    pub abilities: Vec<String>,
}

/// A combatant as one who is acted on.
#[derive(Debug)]
pub struct TargetRow {
    pub entity: Entity,
    pub team: Team,
    pub hp: i32,
    pub statuses: Vec<EcsStatus>,
    pub tags: Vec<String>,
}

/// What an actor can pay with. Hit points, actions and steps are no prices here.
#[derive(Clone, Copy, PartialEq, Eq, Structural, Debug)]
pub struct PricePools {
    pub mana: Option<i32>,
    pub rage: Option<i32>,
    pub energy: Option<i32>,
}

/// What a rule check sees of an actor.
#[derive(Clone, Copy, PartialEq, Eq, Structural, Debug)]
pub struct ActorView {
    pub pos: Hex,
    pub team: Team,
    pub hp: i32,
    pub ap: i32,
    pub pools: PricePools,
    pub causes_disadvantage: bool,
    pub blocks_mana_abilities: bool,
    pub is_alive: bool,
}

/// Everything that a rule check can ask about.
#[derive(Debug)]
pub struct BevyActions {
    pub content: ContentView,
    pub positions: HexPositions,
    pub actors: Vec<ActorRow>,
    pub targets: Vec<TargetRow>,
    /// Cells that obstacles stand on.
    pub blocked_hexes: Vec<Hex>,
    pub board: Board,
}

/// The first row of an actor.
pub open spec fn actor_of(rows: Seq<ActorRow>, entity: Entity) -> Option<ActorRow>
    decreases rows.len(),
{
    if rows.len() == 0 {
        None
    } else if rows[0].entity == entity {
        Some(rows[0])
    } else {
        actor_of(rows.drop_first(), entity)
    }
}

/// The first row of a target.
pub open spec fn target_of(rows: Seq<TargetRow>, entity: Entity) -> Option<TargetRow>
    decreases rows.len(),
{
    if rows.len() == 0 {
        None
    } else if rows[0].entity == entity {
        Some(rows[0])
    } else {
        target_of(rows.drop_first(), entity)
    }
}

/// Whether one of some statuses puts its bearer at a disadvantage.
pub open spec fn any_disadvantage(statuses: Seq<EcsStatus>, content: ContentView) -> bool {
    exists|i: int|
        0 <= i < statuses.len() && (content.status((#[trigger] statuses[i]).id@) matches Some(d)
            && d.causes_disadvantage)
}

/// Whether one of some statuses keeps its bearer from abilities that cost mana.
pub open spec fn any_mana_block(statuses: Seq<EcsStatus>, content: ContentView) -> bool {
    exists|i: int|
        0 <= i < statuses.len() && (content.status((#[trigger] statuses[i]).id@) matches Some(d)
            && d.blocks_mana_abilities)
}

/// Whether one of some statuses draws all attacks to its bearer.
pub open spec fn any_taunt(statuses: Seq<EcsStatus>, content: ContentView) -> bool {
    exists|i: int|
        0 <= i < statuses.len() && (content.status((#[trigger] statuses[i]).id@) matches Some(d)
            && d.forces_targeting)
}

/// Whether attacks of a team must go to a combatant: it lives, is of the other
/// team, and draws attacks.
pub open spec fn taunts(row: TargetRow, team: Team, content: ContentView) -> bool {
    row.hp > 0 && row.team != team && any_taunt(row.statuses@, content)
}

/// Those to whom attacks of a team must go, in order.
pub open spec fn taunters(rows: Seq<TargetRow>, team: Team, content: ContentView) -> Seq<Entity>
    decreases rows.len(),
{
    if rows.len() == 0 {
        Seq::empty()
    } else {
        let rest = taunters(rows.drop_last(), team, content);
        if taunts(rows.last(), team, content) {
            rest.push(rows.last().entity)
        } else {
            rest
        }
    }
}

/// Whether a list holds a text.
pub open spec fn lists_text(list: Seq<String>, text: Seq<char>) -> bool {
    exists|i: int| 0 <= i < list.len() && (#[trigger] list[i])@ == text
}

/// Whether every text of a list is in another.
pub open spec fn all_listed(part: Seq<String>, whole: Seq<String>) -> bool {
    forall|i: int| 0 <= i < part.len() ==> lists_text(whole, (#[trigger] part[i])@)
}

/// Whether no text of a list is in another.
pub open spec fn none_listed(part: Seq<String>, whole: Seq<String>) -> bool {
    forall|i: int| 0 <= i < part.len() ==> !lists_text(whole, (#[trigger] part[i])@)
}

pub(crate) fn has_text(list: &Vec<String>, text: &String) -> (r: bool)
    ensures
        r == lists_text(list@, text@),
{
    let mut i: usize = 0;
    while i < list.len()
        invariant
            i <= list.len(),
            forall|j: int| 0 <= j < i ==> (#[trigger] list@[j])@ != text@,
        decreases list.len() - i,
    {
        if same_text(&list[i], text) {
            return true;
        }
        i = i + 1;
    }
    false
}

/// Whether one of some statuses is at a disadvantage, blocks mana, or taunts.
pub(crate) fn scan_statuses(statuses: &Vec<EcsStatus>, content: &ContentView) -> (r: (bool, bool, bool))
    ensures
        r.0 == any_disadvantage(statuses@, *content),
        r.1 == any_mana_block(statuses@, *content),
        r.2 == any_taunt(statuses@, *content),
{
    let mut disadvantage = false;
    let mut mana_block = false;
    let mut taunt = false;
    let mut i: usize = 0;
    while i < statuses.len()
        invariant
            i <= statuses.len(),
            disadvantage == (exists|j: int|
                0 <= j < i && (content.status((#[trigger] statuses@[j]).id@) matches Some(d)
                    && d.causes_disadvantage)),
            mana_block == (exists|j: int|
                0 <= j < i && (content.status((#[trigger] statuses@[j]).id@) matches Some(d)
                    && d.blocks_mana_abilities)),
            taunt == (exists|j: int|
                0 <= j < i && (content.status((#[trigger] statuses@[j]).id@) matches Some(d)
                    && d.forces_targeting)),
        decreases statuses.len() - i,
    {
        let ghost s = statuses@[i as int];
        if let Some(d) = content.status_def(&statuses[i].id) {
            disadvantage = disadvantage || d.causes_disadvantage;
            mana_block = mana_block || d.blocks_mana_abilities;
            taunt = taunt || d.forces_targeting;
        }
        i = i + 1;
    }
    (disadvantage, mana_block, taunt)
}

impl BevyActions {
    /// What a rule check sees of an actor; nothing where it stands nowhere.
    pub open spec fn view_of(&self, actor: Entity) -> Option<ActorView> {
        match actor_of(self.actors@, actor) {
            Some(row) if self.positions@.contains_key(actor) => Some(
                ActorView {
                    pos: self.positions@[actor],
                    team: row.team,
                    hp: row.hp,
                    ap: row.action_points,
                    pools: PricePools { mana: row.mana, rage: row.rage, energy: row.energy },
                    causes_disadvantage: any_disadvantage(row.statuses@, self.content),
                    blocks_mana_abilities: any_mana_block(row.statuses@, self.content),
                    is_alive: row.hp > 0,
                },
            ),
            _ => None,
        }
    }

    fn find_actor(&self, entity: Entity) -> (r: Option<&ActorRow>)
        ensures
            match r {
                Some(row) => actor_of(self.actors@, entity) == Some(*row),
                None => actor_of(self.actors@, entity) is None,
            },
    {
        let mut i: usize = 0;
        assert(self.actors@.skip(0) =~= self.actors@);
        while i < self.actors.len()
            invariant
                i <= self.actors.len(),
                actor_of(self.actors@, entity) == actor_of(self.actors@.skip(i as int), entity),
            decreases self.actors.len() - i,
        {
            assert(self.actors@.skip(i as int).drop_first() =~= self.actors@.skip(i + 1));
            if self.actors[i].entity == entity {
                return Some(&self.actors[i]);
            }
            i = i + 1;
        }
        None
    }

    fn find_target(&self, entity: Entity) -> (r: Option<&TargetRow>)
        ensures
            match r {
                Some(row) => target_of(self.targets@, entity) == Some(*row),
                None => target_of(self.targets@, entity) is None,
            },
    {
        let mut i: usize = 0;
        assert(self.targets@.skip(0) =~= self.targets@);
        while i < self.targets.len()
            invariant
                i <= self.targets.len(),
                target_of(self.targets@, entity) == target_of(
                    self.targets@.skip(i as int),
                    entity,
                ),
            decreases self.targets.len() - i,
        {
            assert(self.targets@.skip(i as int).drop_first() =~= self.targets@.skip(i + 1));
            if self.targets[i].entity == entity {
                return Some(&self.targets[i]);
            }
            i = i + 1;
        }
        None
    }

    /// The ability of an id.
    pub fn ability_def(&self, id: &String) -> (r: Option<&AbilityDef>)
        ensures
            match r {
                Some(d) => self.content.ability(id@) == Some(*d),
                None => self.content.ability(id@) is None,
            },
    {
        self.content.ability_def(id)
    }

    /// The status of an id.
    pub fn status_def(&self, id: &String) -> (r: Option<&StatusDef>)
        ensures
            match r {
                Some(d) => self.content.status(id@) == Some(*d),
                None => self.content.status(id@) is None,
            },
    {
        self.content.status_def(id)
    }

    /// What a rule check sees of an actor.
    pub fn actor_view(&self, actor: Entity) -> (r: Option<ActorView>)
        ensures
            r == self.view_of(actor),
    {
        let pos = match self.positions.get(actor) {
            Some(pos) => pos,
            None => return None,
        };
        let row = match self.find_actor(actor) {
            Some(row) => row,
            None => return None,
        };
        let (causes_disadvantage, blocks_mana_abilities, _) = scan_statuses(
            &row.statuses,
            &self.content,
        );
        Some(
            ActorView {
                pos,
                team: row.team,
                hp: row.hp,
                ap: row.action_points,
                pools: PricePools { mana: row.mana, rage: row.rage, energy: row.energy },
                causes_disadvantage,
                blocks_mana_abilities,
                is_alive: row.hp > 0,
            },
        )
    }

    /// Whether an actor has an ability.
    pub fn actor_knows_ability(&self, actor: Entity, ability: &String) -> (r: bool)
        ensures
            r == (actor_of(self.actors@, actor) matches Some(row) && lists_text(
                row.abilities@,
                ability@,
            )),
    {
        match self.find_actor(actor) {
            Some(row) => has_text(&row.abilities, ability),
            None => false,
        }
    }

    /// Whether a target lives, where it is known.
    pub fn is_target_alive(&self, target: Entity) -> (r: Option<bool>)
        ensures
            r == (match target_of(self.targets@, target) {
                Some(row) => Some(row.hp > 0),
                None => None,
            }),
    {
        match self.find_target(target) {
            Some(row) => Some(row.hp > 0),
            None => None,
        }
    }

    /// The team of a target, where it is known.
    pub fn target_team(&self, target: Entity) -> (r: Option<Team>)
        ensures
            r == (match target_of(self.targets@, target) {
                Some(row) => Some(row.team),
                None => None,
            }),
    {
        match self.find_target(target) {
            Some(row) => Some(row.team),
            None => None,
        }
    }

    /// Those to whom attacks of a team must go.
    pub fn taunters_for(&self, actor_team: Team) -> (r: Vec<Entity>)
        ensures
            r@ == taunters(self.targets@, actor_team, self.content),
    {
        let mut r: Vec<Entity> = Vec::new();
        let mut i: usize = 0;
        assert(self.targets@.take(0) =~= Seq::empty());
        while i < self.targets.len()
            invariant
                i <= self.targets.len(),
                r@ == taunters(self.targets@.take(i as int), actor_team, self.content),
            decreases self.targets.len() - i,
        {
            assert(self.targets@.take(i + 1).drop_last() =~= self.targets@.take(i as int));
            let row = &self.targets[i];
            let (_, _, taunt) = scan_statuses(&row.statuses, &self.content);
            if row.hp > 0 && row.team != actor_team && taunt {
                r.push(row.entity);
            }
            i = i + 1;
        }
        assert(self.targets@.take(i as int) =~= self.targets@);
        r
    }

    /// Whether a cell is on the board.
    pub fn is_in_bounds(&self, pos: Hex) -> (r: bool)
        requires
            self.board.wf(),
        ensures
            r == self.board.contains(pos),
    {
        self.board.in_bounds(pos)
    }

    /// Cells that obstacles stand on.
    pub fn blocked_hexes(&self) -> (r: &Vec<Hex>)
        ensures
            r@ == self.blocked_hexes@,
    {
        &self.blocked_hexes
    }

    /// Whether a known target has all tags of one list and none of another.
    pub fn has_tags(&self, target: Entity, requires_: &Vec<String>, excludes: &Vec<String>) -> (r:
        bool)
        ensures
            r == (target_of(self.targets@, target) matches Some(row) && all_listed(
                requires_@,
                row.tags@,
            ) && none_listed(excludes@, row.tags@)),
    {
        let row = match self.find_target(target) {
            Some(row) => row,
            None => return false,
        };
        let mut i: usize = 0;
        while i < requires_.len()
            invariant
                i <= requires_.len(),
                target_of(self.targets@, target) == Some(*row),
                forall|j: int| 0 <= j < i ==> lists_text(row.tags@, (#[trigger] requires_@[j])@),
            decreases requires_.len() - i,
        {
            if !has_text(&row.tags, &requires_[i]) {
                assert(!lists_text(row.tags@, requires_@[i as int]@));
                return false;
            }
            i = i + 1;
        }
        let mut k: usize = 0;
        while k < excludes.len()
            invariant
                k <= excludes.len(),
                target_of(self.targets@, target) == Some(*row),
                forall|j: int| 0 <= j < k ==> !lists_text(row.tags@, (#[trigger] excludes@[j])@),
            decreases excludes.len() - k,
        {
            if has_text(&row.tags, &excludes[k]) {
                assert(lists_text(row.tags@, excludes@[k as int]@));
                return false;
            }
            k = k + 1;
        }
        true
    }
}

// ---------------------------------------------------------------------------
// Laws
// ---------------------------------------------------------------------------

/// Whoever draws attacks of a team is somebody of the other team alive, and
/// everybody of whom that holds is drawn.
pub proof fn law_taunters(rows: Seq<TargetRow>, team: Team, content: ContentView, entity: Entity)
    ensures
        taunters(rows, team, content).contains(entity) <==> exists|i: int|
            0 <= i < rows.len() && taunts(#[trigger] rows[i], team, content) && rows[i].entity
                == entity,
    decreases rows.len(),
{
    let r = taunters(rows, team, content);
    if rows.len() > 0 {
        let rest = rows.drop_last();
        let s = taunters(rest, team, content);
        law_taunters(rest, team, content, entity);
        if r.contains(entity) {
            let k = choose|k: int| 0 <= k < r.len() && r[k] == entity;
            if k < s.len() {
                assert(s[k] == entity);
                assert(s.contains(entity));
                let i = choose|i: int|
                    0 <= i < rest.len() && taunts(#[trigger] rest[i], team, content)
                        && rest[i].entity == entity;
                assert(rows[i] == rest[i]);
            } else {
                assert(taunts(rows[rows.len() - 1], team, content));
            }
        }
        if exists|i: int|
            0 <= i < rows.len() && taunts(#[trigger] rows[i], team, content) && rows[i].entity
                == entity {
            let i = choose|i: int|
                0 <= i < rows.len() && taunts(#[trigger] rows[i], team, content)
                    && rows[i].entity == entity;
            if i < rest.len() {
                assert(rest[i] == rows[i]);
                assert(s.contains(entity));
                let k = choose|k: int| 0 <= k < s.len() && s[k] == entity;
                assert(r[k] == entity);
            } else {
                assert(r[r.len() - 1] == entity);
            }
        }
    }
}

/// The first row of an actor is the one that counts.
pub proof fn law_actor_as_listed(rows: Seq<ActorRow>, k: int)
    requires
        0 <= k < rows.len(),
        forall|j: int| 0 <= j < k ==> (#[trigger] rows[j]).entity != rows[k].entity,
    ensures
        actor_of(rows, rows[k].entity) == Some(rows[k]),
    decreases rows.len(),
{
    if k > 0 {
        assert(rows[0].entity != rows[k].entity);
        let rest = rows.drop_first();
        assert forall|j: int| 0 <= j < k - 1 implies (#[trigger] rest[j]).entity
            != rest[k - 1].entity by {
            assert(rows[j + 1].entity != rows[k].entity);
        }
        law_actor_as_listed(rest, k - 1);
    }
}

/// The first row of a target is the one that counts.
pub proof fn law_target_as_listed(rows: Seq<TargetRow>, k: int)
    requires
        0 <= k < rows.len(),
        forall|j: int| 0 <= j < k ==> (#[trigger] rows[j]).entity != rows[k].entity,
    ensures
        target_of(rows, rows[k].entity) == Some(rows[k]),
    decreases rows.len(),
{
    if k > 0 {
        assert(rows[0].entity != rows[k].entity);
        let rest = rows.drop_first();
        assert forall|j: int| 0 <= j < k - 1 implies (#[trigger] rest[j]).entity
            != rest[k - 1].entity by {
            assert(rows[j + 1].entity != rows[k].entity);
        }
        law_target_as_listed(rest, k - 1);
    }
}

/// Whoever has no row is not known.
pub proof fn law_unlisted_are_unknown(actors: Seq<ActorRow>, targets: Seq<TargetRow>, e: Entity)
    ensures
        (forall|j: int| 0 <= j < actors.len() ==> (#[trigger] actors[j]).entity != e) ==> actor_of(
            actors,
            e,
        ) is None,
        (forall|j: int| 0 <= j < targets.len() ==> (#[trigger] targets[j]).entity != e)
            ==> target_of(targets, e) is None,
        actor_of(actors, e) matches Some(row) ==> row.entity == e,
        target_of(targets, e) matches Some(row) ==> row.entity == e,
    decreases actors.len() + targets.len(),
{
    if actors.len() > 0 {
        let rest = actors.drop_first();
        law_unlisted_are_unknown(rest, targets, e);
        if forall|j: int| 0 <= j < actors.len() ==> (#[trigger] actors[j]).entity != e {
            assert(actors[0].entity != e);
            assert forall|j: int| 0 <= j < rest.len() implies (#[trigger] rest[j]).entity != e by {
                assert(actors[j + 1].entity != e);
            }
        }
    } else if targets.len() > 0 {
        let rest = targets.drop_first();
        law_unlisted_are_unknown(actors, rest, e);
        if forall|j: int| 0 <= j < targets.len() ==> (#[trigger] targets[j]).entity != e {
            assert(targets[0].entity != e);
            assert forall|j: int| 0 <= j < rest.len() implies (#[trigger] rest[j]).entity != e by {
                assert(targets[j + 1].entity != e);
            }
        }
    }
}

/// What one more status does to its bearer is what its definition says, and one that is not
/// known does nothing.
pub proof fn law_one_more_status(statuses: Seq<EcsStatus>, more: EcsStatus, content: ContentView)
    ensures
        !any_disadvantage(Seq::empty(), content),
        !any_mana_block(Seq::empty(), content),
        !any_taunt(Seq::empty(), content),
        ({
            let all = statuses.push(more);
            let d = content.status(more.id@);
            &&& any_disadvantage(all, content) <==> any_disadvantage(statuses, content) || (
            d is Some && d->0.causes_disadvantage)
            &&& any_mana_block(all, content) <==> any_mana_block(statuses, content) || (d is Some
                && d->0.blocks_mana_abilities)
            &&& any_taunt(all, content) <==> any_taunt(statuses, content) || (d is Some
                && d->0.forces_targeting)
        }),
{
    let all = statuses.push(more);
    assert(all[statuses.len() as int] == more);
    if any_disadvantage(statuses, content) {
        let i = choose|i: int|
            0 <= i < statuses.len() && (content.status((#[trigger] statuses[i]).id@) matches Some(
                d,
            ) && d.causes_disadvantage);
        assert(all[i] == statuses[i]);
    }
    if any_mana_block(statuses, content) {
        let i = choose|i: int|
            0 <= i < statuses.len() && (content.status((#[trigger] statuses[i]).id@) matches Some(
                d,
            ) && d.blocks_mana_abilities);
        assert(all[i] == statuses[i]);
    }
    if any_taunt(statuses, content) {
        let i = choose|i: int|
            0 <= i < statuses.len() && (content.status((#[trigger] statuses[i]).id@) matches Some(
                d,
            ) && d.forces_targeting);
        assert(all[i] == statuses[i]);
    }
}

/// Attacks of a team are drawn by the living of the other team who bear a taunt; never by
/// its own, never by the fallen.
pub proof fn law_who_draws_attacks(row: TargetRow, team: Team, content: ContentView)
    ensures
        row.hp <= 0 ==> !taunts(row, team, content),
        row.team == team ==> !taunts(row, team, content),
        row.hp >= 1 && row.team != team ==> (taunts(row, team, content) <==> any_taunt(
            row.statuses@,
            content,
        )),
{
}

/// An actor is seen where it stands, with what its row says of it; one without a place or
/// without a row is not seen.
pub proof fn law_what_is_seen_of_an_actor(b: BevyActions, actor: Entity)
    ensures
        b.view_of(actor) is Some <==> actor_of(b.actors@, actor) is Some
            && b.positions@.contains_key(actor),
        b.view_of(actor) matches Some(v) ==> {
            let row = actor_of(b.actors@, actor)->0;
            &&& v.pos == b.positions@[actor]
            &&& v.team == row.team
            &&& v.hp == row.hp
            &&& v.ap == row.action_points
            &&& v.pools.mana == row.mana && v.pools.rage == row.rage && v.pools.energy
                == row.energy
            &&& v.is_alive <==> row.hp >= 1
            &&& v.causes_disadvantage <==> any_disadvantage(row.statuses@, b.content)
            &&& v.blocks_mana_abilities <==> any_mana_block(row.statuses@, b.content)
        },
{
}

/// Every tag that is asked for must be listed, and none that is excluded.
pub proof fn law_one_more_tag(part: Seq<String>, more: String, whole: Seq<String>)
    ensures
        all_listed(Seq::empty(), whole),
        none_listed(Seq::empty(), whole),
        all_listed(part.push(more), whole) <==> all_listed(part, whole) && lists_text(whole, more@),
        none_listed(part.push(more), whole) <==> none_listed(part, whole) && !lists_text(
            whole,
            more@,
        ),
{
    let all = part.push(more);
    assert(all[part.len() as int] == more);
    if all_listed(all, whole) {
        assert forall|i: int| 0 <= i < part.len() implies lists_text(
            whole,
            (#[trigger] part[i])@,
        ) by {
            assert(all[i] == part[i]);
        }
    }
    if none_listed(all, whole) {
        assert forall|i: int| 0 <= i < part.len() implies !lists_text(
            whole,
            (#[trigger] part[i])@,
        ) by {
            assert(all[i] == part[i]);
        }
    }
    assert forall|i: int| 0 <= i < part.len() implies #[trigger] all[i] == part[i] by {}
}

} // verus!
