//! From requested actions to engine actions, and from what the engine reports
//! back to the log, the queues and the newly summoned.

use crate::content::{find, lookup, ContentView};
use crate::events::{CombatEvent, Event};
use crate::hex::Hex;
use crate::ids::{Entity, IdTable, UnitId, UnitIdMap};
use crate::positions::HexPositions;
use crate::queues::PendingAnim;
use crate::templates::{copy_strings, make_display_name, RaceDef, UnitTemplateDef};
use crate::state::{CombatState, EnvId, EnvObject, Team, Unit};
use crate::translate::{
    announces, emit_ability_used, law_path_spans_the_move, law_track_follows_events,
    law_translation_only_appends, opt_seq, track_after_all, translate_events, MoveCtx, Track,
    TranslateCtx, Translation,
};
use vstd::prelude::*;

verus! {

/// What a player or the AI asks for.
#[derive(Debug)]
pub enum ActionInput {
    Move { actor: Entity, path: Vec<Hex> },
    Cast { actor: Entity, ability: String, target: Entity, target_pos: Hex },
    EndTurn { actor: Entity },
}

/// What the engine is asked to do.
#[derive(Debug)]
pub enum Action {
    Move { actor: UnitId, path: Vec<Hex> },
    Cast { actor: UnitId, ability: String, target: UnitId, target_pos: Hex },
    EndTurn { actor: UnitId },
}

/// Whether `action` is `input` with units in place of entities.
pub open spec fn stands_for(action: Action, input: ActionInput, ids: IdTable) -> bool {
    match (action, input) {
        (Action::Move { actor: u, path: p }, ActionInput::Move { actor: e, path: q }) => {
            &&& ids.id(e) == Some(u)
            &&& p@ == q@
        },
        (
            Action::Cast { actor: u, ability: a, target: v, target_pos: p },
            ActionInput::Cast { actor: e, ability: b, target: f, target_pos: q },
        ) => {
            &&& ids.id(e) == Some(u)
            &&& ids.id(f) == Some(v)
            &&& a == b
            &&& p == q
        },
        (Action::EndTurn { actor: u }, ActionInput::EndTurn { actor: e }) => ids.id(e) == Some(u),
        _ => false,
    }
}

/// Whether every entity that an input names has a unit.
pub open spec fn all_known(input: ActionInput, ids: IdTable) -> bool {
    match input {
        ActionInput::Move { actor, path } => ids.id(actor) is Some,
        ActionInput::Cast { actor, ability, target, target_pos } => ids.id(actor) is Some
            && ids.id(target) is Some,
        ActionInput::EndTurn { actor } => ids.id(actor) is Some,
    }
}

/// The engine action that an input stands for; none where it names an entity
/// without a unit.
pub fn to_action(input: &ActionInput, ids: &UnitIdMap) -> (r: Option<Action>)
    ensures
        r is Some <==> all_known(*input, ids@),
        r matches Some(a) ==> stands_for(a, *input, ids@),
{
    match input {
        ActionInput::Move { actor, path } => {
            let u = ids.get_id(*actor)?;
            Some(Action::Move { actor: u, path: copy_path(path) })
        },
        ActionInput::Cast { actor, ability, target, target_pos } => {
            let u = ids.get_id(*actor)?;
            let v = ids.get_id(*target)?;
            Some(
                Action::Cast {
                    actor: u,
                    ability: ability.clone(),
                    target: v,
                    target_pos: *target_pos,
                },
            )
        },
        ActionInput::EndTurn { actor } => {
            let u = ids.get_id(*actor)?;
            Some(Action::EndTurn { actor: u })
        },
    }
}

/// A path with the same cells.
pub fn copy_path(path: &Vec<Hex>) -> (r: Vec<Hex>)
    ensures
        r@ == path@,
{
    let mut r: Vec<Hex> = Vec::new();
    let mut i: usize = 0;
    while i < path.len()
        invariant
            i <= path.len(),
            r@ == path@.take(i as int),
        decreases path.len() - i,
    {
        r.push(path[i]);
        assert(r@ =~= path@.take(i + 1));
        i = i + 1;
    }
    assert(r@ =~= path@);
    r
}

// ---------------------------------------------------------------------------
// After a step of the engine
// ---------------------------------------------------------------------------

/// The phase transitions among some events, in order.
pub open spec fn phases_of(evs: Seq<Event>) -> Seq<(UnitId, usize)>
    decreases evs.len(),
{
    if evs.len() == 0 {
        Seq::empty()
    } else {
        phases_of(evs.drop_last()) + (match evs.last() {
            Event::PhaseEntered { unit, phase_idx } => seq![(unit, phase_idx)],
            _ => Seq::empty(),
        })
    }
}

/// Queues the phase transitions among some events.
pub fn queue_phases(events: &Vec<Event>, phases: &mut Vec<(UnitId, usize)>)
    ensures
        final(phases)@ == old(phases)@ + phases_of(events@),
{
    let ghost before = phases@;
    let mut i: usize = 0;
    assert(events@.take(0) =~= Seq::empty());
    assert(phases@ =~= before + phases_of(events@.take(0)));
    while i < events.len()
        invariant
            i <= events.len(),
            phases@ == before + phases_of(events@.take(i as int)),
        decreases events.len() - i,
    {
        assert(events@.take(i + 1).drop_last() =~= events@.take(i as int));
        if let Event::PhaseEntered { unit, phase_idx } = &events[i] {
            phases.push((*unit, *phase_idx));
        }
        assert(phases@ =~= before + phases_of(events@.take(i + 1)));
        i = i + 1;
    }
    assert(events@.take(i as int) =~= events@);
}

/// The cell of the first object with the given id; the origin where there is
/// none.
pub open spec fn env_hex(env: Seq<EnvObject>, id: EnvId) -> Hex
    decreases env.len(),
{
    if env.len() == 0 {
        Hex::origin()
    } else if env[0].id == id {
        env[0].hex
    } else {
        env_hex(env.drop_first(), id)
    }
}

fn find_env_hex(env: &Vec<EnvObject>, id: EnvId) -> (r: Hex)
    ensures
        r == env_hex(env@, id),
{
    let mut i: usize = 0;
    assert(env@.skip(0) =~= env@);
    while i < env.len()
        invariant
            i <= env.len(),
            env_hex(env@, id) == env_hex(env@.skip(i as int), id),
        decreases env.len() - i,
    {
        assert(env@.skip(i as int).drop_first() =~= env@.skip(i + 1));
        if env[i].id == id {
            return env[i].hex;
        }
        i = i + 1;
    }
    Hex::zero()
}

/// The log lines of the objects that some events reveal.
pub open spec fn revealed(evs: Seq<Event>, env: Seq<EnvObject>) -> Seq<CombatEvent>
    decreases evs.len(),
{
    if evs.len() == 0 {
        Seq::empty()
    } else {
        revealed(evs.drop_last(), env) + (match evs.last() {
            Event::EnvRevealed { env_id } => seq![
                CombatEvent::EnvRevealed { hex: env_hex(env, env_id) },
            ],
            _ => Seq::empty(),
        })
    }
}

fn log_revealed(events: &Vec<Event>, env: &Vec<EnvObject>, log: &mut Vec<CombatEvent>)
    ensures
        final(log)@ == old(log)@ + revealed(events@, env@),
{
    let ghost before = log@;
    let mut i: usize = 0;
    assert(events@.take(0) =~= Seq::empty());
    assert(log@ =~= before + revealed(events@.take(0), env@));
    while i < events.len()
        invariant
            i <= events.len(),
            log@ == before + revealed(events@.take(i as int), env@),
        decreases events.len() - i,
    {
        assert(events@.take(i + 1).drop_last() =~= events@.take(i as int));
        if let Event::EnvRevealed { env_id } = &events[i] {
            log.push(CombatEvent::EnvRevealed { hex: find_env_hex(env, *env_id) });
        }
        assert(log@ =~= before + revealed(events@.take(i + 1), env@));
        i = i + 1;
    }
    assert(events@.take(i as int) =~= events@);
}

/// A token on the board and the unit that it shows.
#[derive(Clone, Copy, PartialEq, Eq, Structural, Debug)]
pub struct Token {
    pub token: Entity,
    pub unit: Entity,
}

/// The first token that shows a unit.
pub open spec fn token_of(tokens: Seq<Token>, unit: Entity) -> Option<Entity>
    decreases tokens.len(),
{
    if tokens.len() == 0 {
        None
    } else if tokens[0].unit == unit {
        Some(tokens[0].token)
    } else {
        token_of(tokens.drop_first(), unit)
    }
}

/// The first token that shows a unit.
pub fn find_token(tokens: &Vec<Token>, unit: Entity) -> (r: Option<Entity>)
    ensures
        r == token_of(tokens@, unit),
{
    let mut i: usize = 0;
    assert(tokens@.skip(0) =~= tokens@);
    while i < tokens.len()
        invariant
            i <= tokens.len(),
            token_of(tokens@, unit) == token_of(tokens@.skip(i as int), unit),
        decreases tokens.len() - i,
    {
        assert(tokens@.skip(i as int).drop_first() =~= tokens@.skip(i + 1));
        if tokens[i].unit == unit {
            return Some(tokens[i].token);
        }
        i = i + 1;
    }
    None
}

/// A move that has not begun.
pub open spec fn fresh_track(actor: Entity) -> Track {
    Track { actor, first_from: None, last_to: None, waypoints: Seq::empty(), pending: None }
}

/// The translation of the events of a move.
pub open spec fn move_translation(
    t: Translation,
    actor: Entity,
    evs: Seq<Event>,
    ids: IdTable,
    units: Seq<Unit>,
) -> Translation {
    Translation { cast: false, track: Some(fresh_track(actor)), ..t }.after_all(evs, ids, units)
}

/// The log line that sums up a move.
pub open spec fn moved_line(track: Track) -> Option<CombatEvent> {
    match (track.first_from, track.last_to) {
        (Some(from), Some(to)) => Some(CombatEvent::UnitMoved { actor: track.actor, from, to }),
        _ => None,
    }
}

/// Whether `after` is `before` with the animation of a move, where there is
/// something to show and a token to show it with.
pub open spec fn animated(
    before: Seq<PendingAnim>,
    after: Seq<PendingAnim>,
    track: Track,
    tokens: Seq<Token>,
) -> bool {
    match token_of(tokens, track.actor) {
        Some(token) if track.waypoints.len() > 0 => {
            &&& after.len() == before.len() + 1
            &&& after.drop_last() == before
            &&& after.last().token == token
            &&& after.last().waypoints@ == track.waypoints
        },
        _ => after == before,
    }
}

/// Whether `after` is `before` with what a move led to.
pub open spec fn move_recorded(
    before: TranslateCtx,
    after: TranslateCtx,
    actor: Entity,
    evs: Seq<Event>,
    tokens: Seq<Token>,
    ids: IdTable,
    state: CombatState,
) -> bool {
    let t = move_translation(before@, actor, evs, ids, state.units@);
    &&& after@ == Translation {
        log: t.log + opt_seq(moved_line(t.track->0)) + revealed(evs, state.environment@),
        track: None,
        ..t
    }
    &&& animated(before.queues.animations@, after.queues.animations@, t.track->0, tokens)
    &&& after.queues.phases@ == before.queues.phases@ + phases_of(evs)
    &&& after.queues.phase_overrides == before.queues.phase_overrides
}

/// Records what a move led to. The result says whether the rest of the turn's
/// queued actions must be dropped: they were planned for a move that was not
/// interrupted.
pub fn finish_move(
    actor: Entity,
    events: &Vec<Event>,
    interrupted: bool,
    tokens: &Vec<Token>,
    ids: &UnitIdMap,
    state: &CombatState,
    ctx: &mut TranslateCtx,
) -> (drop_rest: bool)
    ensures
        drop_rest == interrupted,
        move_recorded(*old(ctx), *final(ctx), actor, events@, tokens@, ids@, *state),
{
    let ghost before = ctx@;
    let ghost anims = ctx.queues.animations@;
    ctx.cast = false;
    ctx.move_ = Some(
        MoveCtx {
            actor,
            first_from: None,
            last_to: None,
            waypoints: Vec::new(),
            pending_aoo_target: None,
        },
    );
    assert(ctx@ =~= Translation { cast: false, track: Some(fresh_track(actor)), ..before });
    translate_events(events, ctx, ids, state);
    let ghost t = ctx@;
    proof {
        crate::translate::law_translation_only_appends(
            Translation { cast: false, track: Some(fresh_track(actor)), ..before },
            events@,
            ids@,
            state.units@,
        );
    }
    if let Some(mv) = ctx.move_.take() {
        if let Some(from) = mv.first_from {
            if let Some(to) = mv.last_to {
                ctx.log.push(CombatEvent::UnitMoved { actor: mv.actor, from, to });
            }
        }
        assert(ctx.log@ =~= t.log + opt_seq(moved_line(t.track->0)));
        if mv.waypoints.len() > 0 {
            if let Some(token) = find_token(tokens, mv.actor) {
                ctx.queues.animations.push(PendingAnim { token, waypoints: mv.waypoints });
                assert(ctx.queues.animations@.drop_last() =~= anims);
            }
        }
    }
    queue_phases(events, &mut ctx.queues.phases);
    log_revealed(events, &state.environment, &mut ctx.log);
    assert(ctx@ =~= Translation {
        log: t.log + opt_seq(moved_line(t.track->0)) + revealed(events@, state.environment@),
        track: None,
        ..t
    });
    interrupted
}

/// Whether `after` is `before` with what a cast led to, the announcement first.
pub open spec fn cast_recorded(
    before: TranslateCtx,
    after: TranslateCtx,
    actor: Entity,
    ability: Seq<char>,
    target: Entity,
    target_pos: Hex,
    evs: Seq<Event>,
    content: ContentView,
    ids: IdTable,
    state: CombatState,
) -> bool {
    let line = after@.log[before@.log.len() as int];
    let t = Translation { log: before@.log.push(line), cast: true, track: None, ..before@ };
    &&& after@.log.len() > before@.log.len()
    &&& announces(line, actor, ability, target, target_pos, content)
    &&& after@ == Translation { cast: false, ..t.after_all(evs, ids, state.units@) }
    &&& after.queues.phases@ == before.queues.phases@ + phases_of(evs)
    &&& after.queues.animations == before.queues.animations
    &&& after.queues.phase_overrides == before.queues.phase_overrides
}

/// Records what a cast led to. Units that it summoned are dealt with one by one,
/// see [`plan_spawn`].
pub fn finish_cast(
    actor: Entity,
    ability: &String,
    target: Entity,
    target_pos: Hex,
    events: &Vec<Event>,
    content: &ContentView,
    ids: &UnitIdMap,
    state: &CombatState,
    ctx: &mut TranslateCtx,
)
    ensures
        cast_recorded(
            *old(ctx),
            *final(ctx),
            actor,
            ability@,
            target,
            target_pos,
            events@,
            *content,
            ids@,
            *state,
        ),
{
    let ghost before = ctx@;
    emit_ability_used(actor, ability, target, target_pos, content, &mut ctx.log);
    let ghost line = ctx.log@.last();
    assert(ctx.log@ =~= before.log.push(line));
    ctx.cast = true;
    ctx.move_ = None;
    let ghost t = Translation { log: before.log.push(line), cast: true, track: None, ..before };
    assert(ctx@ =~= t);
    translate_events(events, ctx, ids, state);
    proof {
        crate::translate::law_translation_only_appends(t, events@, ids@, state.units@);
        assert(ctx@.log[before.log.len() as int] == line);
    }
    ctx.cast = false;
    queue_phases(events, &mut ctx.queues.phases);
    assert(ctx@ =~= Translation { cast: false, ..t.after_all(events@, ids@, state.units@) });
}

/// Whether `after` is `before` with what the end of a turn, or the start of a
/// round, led to.
pub open spec fn tick_recorded(
    before: TranslateCtx,
    after: TranslateCtx,
    evs: Seq<Event>,
    ids: IdTable,
    state: CombatState,
) -> bool {
    let t = Translation { cast: false, track: None, ..before@ };
    &&& after@ == t.after_all(evs, ids, state.units@)
    &&& after.queues.phases@ == before.queues.phases@ + phases_of(evs)
    &&& after.queues.animations == before.queues.animations
    &&& after.queues.phase_overrides == before.queues.phase_overrides
}

/// Records what the end of a turn, or the start of a round, led to.
pub fn finish_tick(
    events: &Vec<Event>,
    ids: &UnitIdMap,
    state: &CombatState,
    ctx: &mut TranslateCtx,
)
    ensures
        tick_recorded(*old(ctx), *final(ctx), events@, ids@, *state),
{
    let ghost before = ctx@;
    ctx.cast = false;
    ctx.move_ = None;
    let ghost t = Translation { cast: false, track: None, ..before };
    assert(ctx@ =~= t);
    translate_events(events, ctx, ids, state);
    queue_phases(events, &mut ctx.queues.phases);
    assert(ctx@ =~= t.after_all(events@, ids@, state.units@));
}

/// What the engine answers to an action.
#[derive(Debug)]
pub enum StepReply {
    /// The action was not legal; the state is as before.
    Refused,
    Done { events: Vec<Event>, interrupted: bool },
}

/// Whether an engine's answer to an action is recorded.
pub open spec fn is_processed(
    before: TranslateCtx,
    after: TranslateCtx,
    drop_rest: bool,
    input: ActionInput,
    reply: StepReply,
    tokens: Seq<Token>,
    content: ContentView,
    ids: IdTable,
    state: CombatState,
) -> bool {
    match reply {
        StepReply::Refused => !drop_rest && after == before,
        StepReply::Done { events, interrupted } => match input {
            ActionInput::Move { actor, path } => drop_rest == interrupted && move_recorded(
                before,
                after,
                actor,
                events@,
                tokens,
                ids,
                state,
            ),
            ActionInput::Cast { actor, ability, target, target_pos } => !drop_rest
                && cast_recorded(
                before,
                after,
                actor,
                ability@,
                target,
                target_pos,
                events@,
                content,
                ids,
                state,
            ),
            ActionInput::EndTurn { actor } => !drop_rest && tick_recorded(
                before,
                after,
                events@,
                ids,
                state,
            ),
        },
    }
}

/// Records what the engine answered to an action: nothing where it refused. The
/// result says whether the rest of the turn's queued actions must be dropped,
/// which is so after a move that was interrupted.
pub fn process_action_system(
    input: &ActionInput,
    reply: &StepReply,
    tokens: &Vec<Token>,
    content: &ContentView,
    ids: &UnitIdMap,
    state: &CombatState,
    ctx: &mut TranslateCtx,
) -> (drop_rest: bool)
    ensures
        is_processed(
            *old(ctx),
            *final(ctx),
            drop_rest,
            *input,
            *reply,
            tokens@,
            *content,
            ids@,
            *state,
        ),
{
    match reply {
        StepReply::Refused => false,
        StepReply::Done { events, interrupted } => match input {
            ActionInput::Move { actor, path: _ } => finish_move(
                *actor,
                events,
                *interrupted,
                tokens,
                ids,
                state,
                ctx,
            ),
            ActionInput::Cast { actor, ability, target, target_pos } => {
                finish_cast(
                    *actor,
                    ability,
                    *target,
                    *target_pos,
                    events,
                    content,
                    ids,
                    state,
                    ctx,
                );
                false
            },
            ActionInput::EndTurn { actor: _ } => {
                finish_tick(events, ids, state, ctx);
                false
            },
        },
    }
}

// ---------------------------------------------------------------------------
// Summoned units
// ---------------------------------------------------------------------------

/// What the display world needs to know to show a summoned unit.
#[derive(Debug)]
pub struct SpawnPlan {
    pub uid: UnitId,
    pub summoner: Entity,
    pub pos: Hex,
    pub team: Team,
    pub display_name: String,
    pub speed: i32,
    pub ability_ids: Vec<String>,
    /// Sizes of the pools; `None` for a pool that the unit does not have.
    pub rage_max: Option<i32>,
    pub mana_max: Option<i32>,
    pub energy_max: Option<i32>,
    pub path: Option<String>,
}

/// A pool of that size, where it has any.
pub open spec fn pool_size(max: i32) -> Option<i32> {
    if max > 0 {
        Some(max)
    } else {
        None
    }
}

/// Whether `plan` describes the unit that an event spawned.
pub open spec fn plans(
    plan: SpawnPlan,
    ev: Event,
    tpl: UnitTemplateDef,
    races: Seq<RaceDef>,
    ids: IdTable,
) -> bool {
    match ev {
        Event::UnitSpawned { uid, summoner, pos, template_id, team } => {
            &&& plan.uid == uid
            &&& Some(plan.summoner) == ids.entity(summoner)
            &&& plan.pos == pos
            &&& plan.team == team
            &&& plan.display_name@ == crate::templates::display_name(tpl, races)
            &&& plan.speed == tpl.speed
            &&& plan.ability_ids@ == tpl.ability_ids@
            &&& plan.rage_max == pool_size(tpl.rage_max)
            &&& plan.mana_max == pool_size(tpl.mana_max)
            &&& plan.energy_max == pool_size(tpl.energy_max)
            &&& plan.path == tpl.path
        },
        _ => false,
    }
}

fn pool_of_size(max: i32) -> (r: Option<i32>)
    ensures
        r == pool_size(max),
{
    if max > 0 {
        Some(max)
    } else {
        None
    }
}

/// What to show for an event: something exactly when it spawned a unit whose
/// summoner has an entity and whose template is known.
pub fn plan_spawn(
    ev: &Event,
    ids: &UnitIdMap,
    templates: &Vec<UnitTemplateDef>,
    races: &Vec<RaceDef>,
) -> (r: Option<SpawnPlan>)
    ensures
        match *ev {
            Event::UnitSpawned { uid, summoner, pos, template_id, team } => match (
                ids@.entity(summoner),
                lookup(templates@, template_id@),
            ) {
                (Some(_), Some(tpl)) => r is Some && plans(r->0, *ev, tpl, races@, ids@),
                _ => r is None,
            },
            _ => r is None,
        },
{
    match ev {
        Event::UnitSpawned { uid, summoner, pos, template_id, team } => {
            let by = ids.get_entity(*summoner)?;
            let tpl = find(templates, template_id)?;
            Some(
                SpawnPlan {
                    uid: *uid,
                    summoner: by,
                    pos: *pos,
                    team: *team,
                    display_name: make_display_name(tpl, races),
                    speed: tpl.speed,
                    ability_ids: copy_strings(&tpl.ability_ids),
                    rage_max: pool_of_size(tpl.rage_max),
                    mana_max: pool_of_size(tpl.mana_max),
                    energy_max: pool_of_size(tpl.energy_max),
                    path: tpl.path.clone(),
                },
            )
        },
        _ => None,
    }
}

/// The log line of the first initiative roll of a unit among some events.
pub open spec fn initiative_line(
    evs: Seq<Event>,
    uid: UnitId,
    entity: Entity,
) -> Option<CombatEvent>
    decreases evs.len(),
{
    if evs.len() == 0 {
        None
    } else {
        match evs[0] {
            Event::InitiativeRolled { unit, roll, dex_mod, total } if unit == uid => Some(
                CombatEvent::InitiativeRolled { actor: entity, dex_mod, roll, total },
            ),
            _ => initiative_line(evs.drop_first(), uid, entity),
        }
    }
}

fn log_initiative(events: &Vec<Event>, uid: UnitId, entity: Entity, log: &mut Vec<CombatEvent>)
    ensures
        final(log)@ == old(log)@ + opt_seq(initiative_line(events@, uid, entity)),
{
    let ghost before = log@;
    let mut i: usize = 0;
    assert(events@.skip(0) =~= events@);
    while i < events.len()
        invariant
            i <= events.len(),
            before == old(log)@,
            log@ == before,
            initiative_line(events@, uid, entity) == initiative_line(
                events@.skip(i as int),
                uid,
                entity,
            ),
        decreases events.len() - i,
    {
        assert(events@.skip(i as int).drop_first() =~= events@.skip(i + 1));
        if let Event::InitiativeRolled { unit, roll, dex_mod, total } = &events[i] {
            if *unit == uid {
                log.push(
                    CombatEvent::InitiativeRolled {
                        actor: entity,
                        dex_mod: *dex_mod,
                        roll: *roll,
                        total: *total,
                    },
                );
                assert(log@ =~= before + opt_seq(initiative_line(events@, uid, entity)));
                return;
            }
        }
        i = i + 1;
    }
    assert(log@ =~= before + opt_seq(initiative_line(events@, uid, entity)));
}

/// Makes a summoned unit known once it has an entity: it gets its place and its
/// id, and the log tells of the summoning and of the unit's initiative, which
/// was rolled before anyone could be named.
pub fn complete_spawn(
    plan: &SpawnPlan,
    entity: Entity,
    events: &Vec<Event>,
    ids: &mut UnitIdMap,
    positions: &mut HexPositions,
    log: &mut Vec<CombatEvent>,
)
    ensures
        final(ids)@ == old(ids)@.pair(entity, plan.uid),
        final(positions)@ == old(positions)@.insert(entity, plan.pos),
        final(log)@ == old(log)@.push(
            CombatEvent::Summoned { summoner: plan.summoner, summon_name: plan.display_name },
        ) + opt_seq(initiative_line(events@, plan.uid, entity)),
{
    positions.insert(entity, plan.pos);
    ids.insert(entity, plan.uid);
    log.push(
        CombatEvent::Summoned {
            summoner: plan.summoner,
            summon_name: plan.display_name.clone(),
        },
    );
    log_initiative(events, plan.uid, entity, log);
}

// ---------------------------------------------------------------------------
// Laws
// ---------------------------------------------------------------------------

/// A unit is summoned into the board at its cell and can be found by its id, and
/// nobody else is moved or renamed.
pub proof fn law_spawn_touches_only_the_summoned(
    ids: IdTable,
    cells: Map<Entity, Hex>,
    entity: Entity,
    uid: UnitId,
    pos: Hex,
    other: Entity,
    other_uid: UnitId,
)
    requires
        other != entity,
        other_uid != uid,
    ensures
        ids.pair(entity, uid).entity(uid) == Some(entity),
        ids.pair(entity, uid).id(other) == ids.id(other),
        ids.pair(entity, uid).entity(other_uid) == ids.entity(other_uid),
        cells.insert(entity, pos).contains_key(other) == cells.contains_key(other),
        cells.contains_key(other) ==> cells.insert(entity, pos)[other] == cells[other],
{
}

/// The phase transitions of two event lists in a row are those of the first,
/// then those of the second.
pub proof fn law_phases_compose(a: Seq<Event>, b: Seq<Event>)
    ensures
        phases_of(a + b) == phases_of(a) + phases_of(b),
    decreases b.len(),
{
    if b.len() == 0 {
        assert(a + b =~= a);
        assert(phases_of(a) + phases_of(b) =~= phases_of(a));
    } else {
        assert((a + b).drop_last() =~= a + b.drop_last());
        law_phases_compose(a, b.drop_last());
        assert(phases_of(a + b) =~= phases_of(a) + phases_of(b));
    }
}

/// A move that never left its cell is neither logged nor shown.
pub proof fn law_no_step_no_line(track: Track, tokens: Seq<Token>, anims: Seq<PendingAnim>)
    requires
        track.first_from is None,
        track.waypoints.len() == 0,
    ensures
        moved_line(track) is None,
        animated(anims, anims, track, tokens),
{
}

/// An action stands for an input of the same kind, with the ids of the same entities, the
/// same way or the same ability and aim. Only an input whose entities all have ids has an
/// action.
pub proof fn law_action_keeps_its_input(action: Action, input: ActionInput, ids: IdTable)
    requires
        stands_for(action, input, ids),
    ensures
        all_known(input, ids),
        input matches ActionInput::Move { actor, path } ==> action is Move && Some(
            action->Move_actor,
        ) == ids.id(actor) && action->path@ == path@,
        input matches ActionInput::Cast { actor, ability, target, target_pos } ==> action is Cast
            && Some(action->Cast_actor) == ids.id(actor) && Some(action->target) == ids.id(target)
            && action->ability == ability && action->target_pos == target_pos,
        input matches ActionInput::EndTurn { actor } ==> action is EndTurn && Some(
            action->EndTurn_actor,
        ) == ids.id(actor),
{
}

/// Each phase that a unit enters is queued once, in order, with the unit and the number of
/// the phase.
pub proof fn law_phases_by_one_event(evs: Seq<Event>, ev: Event)
    ensures
        phases_of(Seq::empty()).len() == 0,
        ev matches Event::PhaseEntered { unit, phase_idx } ==> phases_of(evs.push(ev))
            == phases_of(evs).push((unit, phase_idx)),
        !(ev is PhaseEntered) ==> phases_of(evs.push(ev)) == phases_of(evs),
{
    assert(evs.push(ev).drop_last() =~= evs);
    assert(phases_of(evs) + Seq::<(UnitId, usize)>::empty() =~= phases_of(evs));
    if let Event::PhaseEntered { unit, phase_idx } = ev {
        assert(phases_of(evs) + seq![(unit, phase_idx)] =~= phases_of(evs).push((unit, phase_idx)));
    }
}

/// An object is on the cell that is first listed for it, one that is not listed on the cell
/// in the middle of the coordinates.
pub proof fn law_where_an_object_is(env: Seq<EnvObject>, id: EnvId, k: int)
    ensures
        0 <= k < env.len() && env[k].id == id && (forall|j: int|
            0 <= j < k ==> (#[trigger] env[j]).id != id) ==> env_hex(env, id) == env[k].hex,
        (forall|j: int| 0 <= j < env.len() ==> (#[trigger] env[j]).id != id) ==> env_hex(env, id)
            == (Hex { x: 0, y: 0 }),
    decreases env.len(),
{
    if env.len() > 0 {
        let rest = env.drop_first();
        law_where_an_object_is(rest, id, k - 1);
        assert forall|j: int| 0 <= j < rest.len() implies #[trigger] rest[j] == env[j + 1] by {}
        if forall|j: int| 0 <= j < env.len() ==> (#[trigger] env[j]).id != id {
            assert(env[0].id != id);
        }
        if 0 < k < env.len() && env[k].id == id && (forall|j: int|
            0 <= j < k ==> (#[trigger] env[j]).id != id) {
            assert(env[0].id != id);
            assert(rest[k - 1] == env[k]);
        }
    }
}

/// Each object that is revealed is told of once, in order, by its cell.
pub proof fn law_revealed_by_one_event(evs: Seq<Event>, ev: Event, env: Seq<EnvObject>)
    ensures
        revealed(Seq::empty(), env).len() == 0,
        ev matches Event::EnvRevealed { env_id } ==> revealed(evs.push(ev), env) == revealed(
            evs,
            env,
        ).push(CombatEvent::EnvRevealed { hex: env_hex(env, env_id) }),
        !(ev is EnvRevealed) ==> revealed(evs.push(ev), env) == revealed(evs, env),
{
    assert(evs.push(ev).drop_last() =~= evs);
    assert(revealed(evs, env) + Seq::<CombatEvent>::empty() =~= revealed(evs, env));
    if let Event::EnvRevealed { env_id } = ev {
        let line = CombatEvent::EnvRevealed { hex: env_hex(env, env_id) };
        assert(revealed(evs, env) + seq![line] =~= revealed(evs, env).push(line));
    }
}

/// A unit's token is the first that is listed for it; without one it has none.
pub proof fn law_token_as_listed(tokens: Seq<Token>, unit: Entity, k: int)
    ensures
        0 <= k < tokens.len() && tokens[k].unit == unit && (forall|j: int|
            0 <= j < k ==> (#[trigger] tokens[j]).unit != unit) ==> token_of(tokens, unit) == Some(
            tokens[k].token,
        ),
        (forall|j: int| 0 <= j < tokens.len() ==> (#[trigger] tokens[j]).unit != unit) ==> token_of(
            tokens,
            unit,
        ) is None,
    decreases tokens.len(),
{
    if tokens.len() > 0 {
        let rest = tokens.drop_first();
        law_token_as_listed(rest, unit, k - 1);
        assert forall|j: int| 0 <= j < rest.len() implies #[trigger] rest[j] == tokens[j + 1] by {}
        if forall|j: int| 0 <= j < tokens.len() ==> (#[trigger] tokens[j]).unit != unit {
            assert(tokens[0].unit != unit);
        }
        if 0 < k < tokens.len() && tokens[k].unit == unit && (forall|j: int|
            0 <= j < k ==> (#[trigger] tokens[j]).unit != unit) {
            assert(tokens[0].unit != unit);
            assert(rest[k - 1] == tokens[k]);
        }
    }
}

/// A move that leads somewhere is told of once, from its first cell to its last, after all
/// that happened on the way and before what it revealed; its token is moved along every cell
/// that was passed. The move leaves no track behind.
pub proof fn law_move_is_recorded(
    before: TranslateCtx,
    after: TranslateCtx,
    actor: Entity,
    evs: Seq<Event>,
    tokens: Seq<Token>,
    ids: IdTable,
    state: CombatState,
)
    requires
        move_recorded(before, after, actor, evs, tokens, ids, state),
    ensures
        ({
            let path = track_after_all(fresh_track(actor), evs).waypoints;
            let ends = revealed(evs, state.environment@);
            let told_move = CombatEvent::UnitMoved { actor, from: path[0], to: path.last() };
            &&& after.move_ is None
            &&& !after.cast
            &&& before@.log.is_prefix_of(after@.log)
            &&& after@.log.skip(after@.log.len() - ends.len()) =~= ends
            &&& path.len() > 0 ==> after@.log.len() >= before@.log.len() + 1 + ends.len()
                && after@.log[after@.log.len() - ends.len() - 1] == told_move
            &&& path.len() > 0 && token_of(tokens, actor) is Some ==> {
                &&& after.queues.animations@.len() == before.queues.animations@.len() + 1
                &&& after.queues.animations@.drop_last() == before.queues.animations@
                &&& Some(after.queues.animations@.last().token) == token_of(tokens, actor)
                &&& after.queues.animations@.last().waypoints@ == path
            }
            &&& path.len() == 0 || token_of(tokens, actor) is None ==> after.queues.animations@
                == before.queues.animations@
            &&& after.queues.phases@ == before.queues.phases@ + phases_of(evs)
        }),
{
    let start = Translation { cast: false, track: Some(fresh_track(actor)), ..before@ };
    let t = move_translation(before@, actor, evs, ids, state.units@);
    law_track_follows_events(start, evs, ids, state.units@);
    law_path_spans_the_move(fresh_track(actor), evs);
    law_translation_only_appends(start, evs, ids, state.units@);
    tracks_keep_their_actor(fresh_track(actor), evs);
    let ends = revealed(evs, state.environment@);
    let all = t.log + opt_seq(moved_line(t.track->0)) + ends;
    assert(after@.log == all);
    assert(after@.track is None);
    assert(all.skip(all.len() - ends.len()) =~= ends);
    assert(before@.log.is_prefix_of(all)) by {
        assert(all.take(before@.log.len() as int) =~= t.log.take(before@.log.len() as int));
    }
}

proof fn tracks_keep_their_actor(track: Track, evs: Seq<Event>)
    ensures
        track_after_all(track, evs).actor == track.actor,
    decreases evs.len(),
{
    if evs.len() > 0 {
        tracks_keep_their_actor(track, evs.drop_last());
    }
}

/// A cast is announced before anything that it does is told of, and nothing moves.
pub proof fn law_cast_is_recorded(
    before: TranslateCtx,
    after: TranslateCtx,
    actor: Entity,
    ability: Seq<char>,
    target: Entity,
    target_pos: Hex,
    evs: Seq<Event>,
    content: ContentView,
    ids: IdTable,
    state: CombatState,
)
    requires
        cast_recorded(
            before,
            after,
            actor,
            ability,
            target,
            target_pos,
            evs,
            content,
            ids,
            state,
        ),
    ensures
        before@.log.is_prefix_of(after@.log),
        after@.log.len() > before@.log.len(),
        announces(
            after@.log[before@.log.len() as int],
            actor,
            ability,
            target,
            target_pos,
            content,
        ),
        !after.cast,
        after.move_ is None,
        after.queues.animations == before.queues.animations,
        after.queues.phases@ == before.queues.phases@ + phases_of(evs),
{
    let line = after@.log[before@.log.len() as int];
    let t = Translation { log: before@.log.push(line), cast: true, track: None, ..before@ };
    law_translation_only_appends(t, evs, ids, state.units@);
    let r = t.after_all(evs, ids, state.units@);
    assert(r.track is None);
    assert(t.log.is_prefix_of(after@.log));
    assert(before@.log.is_prefix_of(after@.log)) by {
        let n = before@.log.len() as int;
        assert(after@.log.take(n) =~= after@.log.take(n + 1).take(n));
        assert(t.log.take(n) =~= before@.log);
        assert(after@.log.take(n + 1) =~= t.log);
    }
}

/// A pool is there if and only if it has room, and then as large as that.
pub proof fn law_pool_size(max: i32)
    ensures
        max <= 0 ==> pool_size(max) is None,
        max >= 1 ==> pool_size(max) == Some(max),
{
}

/// A summoned unit is shown where it was spawned, on the side that it was spawned for and
/// with what its template gives it.
pub proof fn law_spawn_plan(
    plan: SpawnPlan,
    uid: UnitId,
    summoner: UnitId,
    pos: Hex,
    template_id: String,
    team: Team,
    tpl: UnitTemplateDef,
    races: Seq<RaceDef>,
    ids: IdTable,
)
    requires
        plans(plan, Event::UnitSpawned { uid, summoner, pos, template_id, team }, tpl, races, ids),
    ensures
        plan.uid == uid,
        plan.pos == pos,
        plan.team == team,
        ids.entity(summoner) == Some(plan.summoner),
        plan.speed == tpl.speed,
        plan.ability_ids@ == tpl.ability_ids@,
        plan.path == tpl.path,
        plan.display_name@ == crate::templates::display_name(tpl, races),
        tpl.rage_max >= 1 ==> plan.rage_max == Some(tpl.rage_max),
        tpl.rage_max <= 0 ==> plan.rage_max is None,
        tpl.mana_max >= 1 ==> plan.mana_max == Some(tpl.mana_max),
        tpl.mana_max <= 0 ==> plan.mana_max is None,
        tpl.energy_max >= 1 ==> plan.energy_max == Some(tpl.energy_max),
        tpl.energy_max <= 0 ==> plan.energy_max is None,
{
}

/// The initiative of a unit is told of by its first roll, and not at all without one.
pub proof fn law_initiative_is_told(evs: Seq<Event>, uid: UnitId, entity: Entity, k: int)
    ensures
        (forall|j: int| 0 <= j < evs.len() ==> !is_roll_of(#[trigger] evs[j], uid))
            ==> initiative_line(evs, uid, entity) is None,
        0 <= k < evs.len() && is_roll_of(evs[k], uid) && (forall|j: int|
            0 <= j < k ==> !is_roll_of(#[trigger] evs[j], uid)) ==> initiative_line(
            evs,
            uid,
            entity,
        ) == Some(
            CombatEvent::InitiativeRolled {
                actor: entity,
                dex_mod: evs[k]->dex_mod,
                roll: evs[k]->roll,
                total: evs[k]->total,
            },
        ),
    decreases evs.len(),
{
    if evs.len() > 0 {
        let rest = evs.drop_first();
        law_initiative_is_told(rest, uid, entity, k - 1);
        assert forall|j: int| 0 <= j < rest.len() implies #[trigger] rest[j] == evs[j + 1] by {}
        if forall|j: int| 0 <= j < evs.len() ==> !is_roll_of(#[trigger] evs[j], uid) {
            assert(!is_roll_of(evs[0], uid));
        }
        if 0 < k < evs.len() && is_roll_of(evs[k], uid) && (forall|j: int|
            0 <= j < k ==> !is_roll_of(#[trigger] evs[j], uid)) {
            assert(!is_roll_of(evs[0], uid));
            assert(rest[k - 1] == evs[k]);
        }
    }
}

/// Whether an event is the roll of a unit's initiative.
pub open spec fn is_roll_of(ev: Event, uid: UnitId) -> bool {
    ev matches Event::InitiativeRolled { unit, .. } && unit == uid
}

/// A refused action leaves everything as it was. Only a move that was interrupted makes the
/// rest of a turn's actions drop; and whatever was done, what was told before stays told and
/// every phase that was entered is queued.
pub proof fn law_answers(
    before: TranslateCtx,
    after: TranslateCtx,
    drop_rest: bool,
    input: ActionInput,
    reply: StepReply,
    tokens: Seq<Token>,
    content: ContentView,
    ids: IdTable,
    state: CombatState,
)
    requires
        is_processed(before, after, drop_rest, input, reply, tokens, content, ids, state),
    ensures
        reply is Refused ==> after == before,
        drop_rest <==> input is Move && (reply matches StepReply::Done { interrupted, .. }
            && interrupted),
        before@.log.is_prefix_of(after@.log),
        reply matches StepReply::Done { events, .. } ==> after.queues.phases@
            == before.queues.phases@ + phases_of(events@),
        !(input is Move) ==> after.queues.animations == before.queues.animations,
        reply is Done && input is Cast ==> after@.log.len() > before@.log.len()
            && after@.log[before@.log.len() as int] is AbilityUsed,
{
    if let StepReply::Done { events, interrupted } = reply {
        match input {
            ActionInput::Move { actor, path } => {
                law_move_is_recorded(before, after, actor, events@, tokens, ids, state);
            },
            ActionInput::Cast { actor, ability, target, target_pos } => {
                law_cast_is_recorded(
                    before,
                    after,
                    actor,
                    ability@,
                    target,
                    target_pos,
                    events@,
                    content,
                    ids,
                    state,
                );
            },
            ActionInput::EndTurn { actor } => {
                let t = Translation { cast: false, track: None, ..before@ };
                law_translation_only_appends(t, events@, ids, state.units@);
            },
        }
    }
}

} // verus!
