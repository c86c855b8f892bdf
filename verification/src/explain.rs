//! The AI's decisions in words, for whoever watches it think.

use crate::ai_tags::AiTags;
use crate::bootstrap::NameRow;
use crate::candidates::{
    candidate_models, find_most_wanted, most_wanted, ActionCandidate, ActiveUnit, CandidateKind,
    CandidateModel, EnemySpot,
};
use crate::decisions::{AiDecision, DecisionModel, MoveOrigin};
use crate::deliberation::{PickMechanics, TacticalIntent};
use crate::hex::{column, column_of, Hex};
use crate::ids::{entity_bits_valid, Entity};
use crate::popup::{find_name, name_of, texts};
use crate::ranking::{law_there_is_a_ranking, precedes, rank_by, ranking, SortKey};
use crate::text::{decimal, owned, push_count, push_decimal};
use vstd::prelude::*;
use vstd::string::StringExecFns;

verus! {

// ---------------------------------------------------------------------------
// Names
// ---------------------------------------------------------------------------

/// The short text of an entity's bits: index and generation, but for the
/// placeholder.
pub open spec fn entity_text(bits: u64) -> Seq<char> {
    if bits == 1 {
        "PLACEHOLDER"@
    } else {
        decimal(0xffff_ffff - bits as int % 0x1_0000_0000) + "v"@ + decimal(
            bits as int / 0x1_0000_0000,
        )
    }
}

/// Calls the `Debug` of `bevy::prelude::Entity`, on the entity that
/// `Entity::from_bits` gives. The claim: the text is the index, a `v` and the
/// generation, where the index is what the low half of the bits lacks to its
/// largest value and the generation is the high half; but `PLACEHOLDER` for the
/// last index in its first generation.
#[verifier::external_body]
fn bevy_entity_text(bits: u64) -> (r: String)
    requires
        entity_bits_valid(bits),
    ensures
        r@ == entity_text(bits),
{
    format!("{:?}", bevy::prelude::Entity::from_bits(bits))
}

/// Whether an entity has a name.
pub open spec fn is_named(names: Seq<NameRow>, entity: Entity) -> bool {
    exists|i: int| 0 <= i < names.len() && (#[trigger] names[i]).entity == entity
}

/// What an entity is called: by its name, else by its bits, where they name an
/// entity at all.
pub open spec fn label_of(names: Seq<NameRow>, entity: Entity) -> Seq<char> {
    if is_named(names, entity) || !entity_bits_valid(entity.bits) {
        name_of(names, entity)
    } else {
        entity_text(entity.bits)
    }
}

fn has_name(names: &Vec<NameRow>, entity: Entity) -> (r: bool)
    ensures
        r == is_named(names@, entity),
{
    let mut i: usize = 0;
    while i < names.len()
        invariant
            i <= names.len(),
            forall|j: int| 0 <= j < i ==> (#[trigger] names@[j]).entity != entity,
        decreases names.len() - i,
    {
        if names[i].entity == entity {
            return true;
        }
        i = i + 1;
    }
    false
}

/// What an entity is called.
pub fn entity_label(names: &Vec<NameRow>, entity: Entity) -> (r: String)
    ensures
        r@ == label_of(names@, entity),
{
    if has_name(names, entity) {
        return find_name(names, entity);
    }
    match Entity::try_from_bits(entity.bits) {
        Some(e) => bevy_entity_text(e.bits),
        None => find_name(names, entity),
    }
}

/// A cell by column and row.
pub open spec fn offset_text(h: Hex) -> Seq<char> {
    "("@ + decimal(column(h)) + ","@ + decimal(h.y as int) + ")"@
}

/// A cell by column and row.
pub fn fmt_offset(h: Hex) -> (r: String)
    ensures
        r@ == offset_text(h),
{
    let mut s = owned("(");
    push_decimal(&mut s, column_of(h));
    s.append(",");
    push_decimal(&mut s, h.y as i64);
    s.append(")");
    s
}

/// Where a cell lies on the board.
#[derive(Clone, Copy, PartialEq, Eq, Structural, Debug)]
pub struct Spot {
    pub col: i64,
    pub row: i64,
}

/// Where a cell lies on the board.
pub open spec fn spot_of(h: Hex) -> Spot {
    Spot { col: column(h) as i64, row: h.y as i64 }
}

/// Where a cell lies on the board.
pub fn spot(h: Hex) -> (r: Spot)
    ensures
        r == spot_of(h),
{
    Spot { col: column_of(h), row: h.y as i64 }
}

// ---------------------------------------------------------------------------
// Intents
// ---------------------------------------------------------------------------

/// An intent in words.
pub open spec fn intent_text(intent: TacticalIntent, names: Seq<NameRow>) -> Seq<char> {
    match intent {
        TacticalIntent::FocusTarget { target } => "FocusTarget → "@ + name_of(names, target),
        TacticalIntent::ApplyCC { target } => "ApplyCC → "@ + name_of(names, target),
        TacticalIntent::ProtectAlly { ally } => "ProtectAlly → "@ + name_of(names, ally),
        TacticalIntent::Reposition => "Reposition"@,
        TacticalIntent::ProtectSelf => "ProtectSelf"@,
        TacticalIntent::SetupAOE => "SetupAOE"@,
        TacticalIntent::LastStand => "LastStand"@,
    }
}

fn with_name(head: &str, entity: Entity, names: &Vec<NameRow>) -> (r: String)
    ensures
        r@ == head@ + name_of(names@, entity),
{
    let mut s = owned(head);
    let name = find_name(names, entity);
    s.append(name.as_str());
    s
}

/// An intent in words.
pub fn format_intent(intent: TacticalIntent, names: &Vec<NameRow>) -> (r: String)
    ensures
        r@ == intent_text(intent, names@),
{
    match intent {
        TacticalIntent::FocusTarget { target } => with_name("FocusTarget → ", target, names),
        TacticalIntent::ApplyCC { target } => with_name("ApplyCC → ", target, names),
        TacticalIntent::ProtectAlly { ally } => with_name("ProtectAlly → ", ally, names),
        TacticalIntent::Reposition => owned("Reposition"),
        TacticalIntent::ProtectSelf => owned("ProtectSelf"),
        TacticalIntent::SetupAOE => owned("SetupAOE"),
        TacticalIntent::LastStand => owned("LastStand"),
    }
}

/// Hit points of a unit.
#[derive(Clone, Copy, PartialEq, Eq, Structural, Debug)]
pub struct Health {
    pub hp: i32,
    pub max_hp: i32,
}

/// The rule by which an intent was chosen, with what it went by.
#[derive(Clone, Copy, PartialEq, Eq, Structural, Debug)]
pub enum IntentRule {
    /// The unit is hurt and in danger.
    HurtInDanger(Health),
    /// The unit can heal, and the ally is hurt.
    HurtAlly(Health),
    /// The unit can heal; of the ally nothing is known.
    UnknownAlly,
    /// One blow of the unit is enough for the target.
    Killable { hp: i32 },
    /// The target is the most wanted.
    MostWanted,
    /// Of the target nothing is known.
    UnknownTarget,
    /// The unit can control, and the target can still act.
    Unstunned,
    /// The unit has an ability that hits an area, and enemies stand together.
    Clustered,
    /// The unit stands badly.
    BadPosition,
    /// Nothing helps the unit survive.
    NoWayOut(Health),
}

/// The rule by which an intent was chosen.
pub open spec fn rule_of(
    intent: TacticalIntent,
    own: Health,
    other: Option<Health>,
    killable: bool,
) -> IntentRule {
    match intent {
        TacticalIntent::ProtectSelf => IntentRule::HurtInDanger(own),
        TacticalIntent::ProtectAlly { .. } => match other {
            Some(h) => IntentRule::HurtAlly(h),
            None => IntentRule::UnknownAlly,
        },
        TacticalIntent::FocusTarget { .. } => match other {
            Some(h) => if killable {
                IntentRule::Killable { hp: h.hp }
            } else {
                IntentRule::MostWanted
            },
            None => IntentRule::UnknownTarget,
        },
        TacticalIntent::ApplyCC { .. } => IntentRule::Unstunned,
        TacticalIntent::SetupAOE => IntentRule::Clustered,
        TacticalIntent::Reposition => IntentRule::BadPosition,
        TacticalIntent::LastStand => IntentRule::NoWayOut(own),
    }
}

/// The rule by which an intent was chosen. `other` is the unit that the intent is
/// on, where it is known; `killable` says whether the threat of the one that acts
/// is at least what the other has left.
pub fn explain_intent(
    intent: TacticalIntent,
    own: Health,
    other: Option<Health>,
    killable: bool,
) -> (r: IntentRule)
    ensures
        r == rule_of(intent, own, other, killable),
{
    match intent {
        TacticalIntent::ProtectSelf => IntentRule::HurtInDanger(own),
        TacticalIntent::ProtectAlly { .. } => match other {
            Some(h) => IntentRule::HurtAlly(h),
            None => IntentRule::UnknownAlly,
        },
        TacticalIntent::FocusTarget { .. } => match other {
            Some(h) => if killable {
                IntentRule::Killable { hp: h.hp }
            } else {
                IntentRule::MostWanted
            },
            None => IntentRule::UnknownTarget,
        },
        TacticalIntent::ApplyCC { .. } => IntentRule::Unstunned,
        TacticalIntent::SetupAOE => IntentRule::Clustered,
        TacticalIntent::Reposition => IntentRule::BadPosition,
        TacticalIntent::LastStand => IntentRule::NoWayOut(own),
    }
}

// ---------------------------------------------------------------------------
// Decisions
// ---------------------------------------------------------------------------

/// A decision in words, with the cell that it leads to.
#[derive(Debug)]
pub struct DecisionDebug {
    pub description: String,
    /// Where the unit goes to.
    pub dest_tile: Option<Spot>,
}

/// A decision in words, as a sequence.
pub struct DecisionWords {
    pub description: Seq<char>,
    pub dest_tile: Option<Spot>,
}

impl View for DecisionDebug {
    type V = DecisionWords;

    open spec fn view(&self) -> DecisionWords {
        DecisionWords { description: self.description@, dest_tile: self.dest_tile }
    }
}

/// The last cell of a path; where there is none, the cell that it starts from.
pub open spec fn path_end(path: Seq<Hex>, start: Hex) -> Hex {
    if path.len() == 0 {
        start
    } else {
        path.last()
    }
}

fn end_of(path: &Vec<Hex>, start: Hex) -> (r: Hex)
    ensures
        r == path_end(path@, start),
{
    if path.len() == 0 {
        start
    } else {
        path[path.len() - 1]
    }
}

/// Where a plain move comes from, in words.
pub open spec fn origin_text(origin: MoveOrigin) -> Seq<char> {
    match origin {
        MoveOrigin::BestPlan => "MoveOnlyRetreat"@,
        MoveOrigin::Fallback => "MoveCloser"@,
    }
}

fn origin_label(origin: MoveOrigin) -> (r: &'static str)
    ensures
        r@ == origin_text(origin),
{
    match origin {
        MoveOrigin::BestPlan => "MoveOnlyRetreat",
        MoveOrigin::Fallback => "MoveCloser",
    }
}

/// From where to where, and in how many steps.
pub open spec fn walk_text(start: Hex, path: Seq<Hex>) -> Seq<char> {
    offset_text(start) + "→"@ + offset_text(path_end(path, start)) + " ("@ + decimal(
        path.len() as int,
    ) + " steps)"@
}

fn push_walk(out: &mut String, start: Hex, path: &Vec<Hex>)
    ensures
        final(out)@ == old(out)@ + walk_text(start, path@),
{
    let ghost head = out@;
    let from = fmt_offset(start);
    let to = fmt_offset(end_of(path, start));
    let mut s = from;
    s.append("→");
    s.append(to.as_str());
    s.append(" (");
    push_count(&mut s, path.len());
    s.append(" steps)");
    assert(s@ == walk_text(start, path@));
    out.append(s.as_str());
}

/// A decision in words.
pub open spec fn decision_text(d: DecisionModel, actor_pos: Hex, names: Seq<NameRow>) -> Seq<char> {
    match d {
        DecisionModel::CastInPlace { ability, target, .. } => "CastInPlace: "@ + ability + " → "@
            + label_of(names, target) + " (stay at "@ + offset_text(actor_pos) + ")"@,
        DecisionModel::MoveAndCast { path, ability, target, .. } => {
            let from = offset_text(actor_pos);
            let to = offset_text(path_end(path, actor_pos));
            "MoveAndCast: "@ + from + " → "@ + to + " → "@ + ability + " → "@ + label_of(
                names,
                target,
            ) + " ("@ + from + "→"@ + to + ", "@ + decimal(path.len() as int) + " steps)"@
        },
        DecisionModel::Move { path, origin } => origin_text(origin) + ": "@ + walk_text(
            actor_pos,
            path,
        ),
        DecisionModel::EndTurn => "EndTurn (no action/movement)"@,
    }
}

/// Where a decision leads to.
pub open spec fn decision_spot(d: DecisionModel, actor_pos: Hex) -> Option<Spot> {
    match d {
        DecisionModel::MoveAndCast { path, .. } => Some(spot_of(path_end(path, actor_pos))),
        DecisionModel::Move { path, .. } => Some(spot_of(path_end(path, actor_pos))),
        _ => None,
    }
}

/// A decision in words, with where it leads to.
pub open spec fn decision_words(
    d: DecisionModel,
    actor_pos: Hex,
    names: Seq<NameRow>,
) -> DecisionWords {
    DecisionWords {
        description: decision_text(d, actor_pos, names),
        dest_tile: decision_spot(d, actor_pos),
    }
}

/// A decision in words.
pub fn describe_decision(d: &AiDecision, actor_pos: Hex, names: &Vec<NameRow>) -> (r:
    DecisionDebug)
    ensures
        r@ == decision_words(d@, actor_pos, names@),
{
    match d {
        AiDecision::CastInPlace { ability, target, .. } => {
            let target = entity_label(names, *target);
            let at = fmt_offset(actor_pos);
            let mut s = owned("CastInPlace: ");
            s.append(ability.as_str());
            s.append(" → ");
            s.append(target.as_str());
            s.append(" (stay at ");
            s.append(at.as_str());
            s.append(")");
            DecisionDebug { description: s, dest_tile: None }
        },
        AiDecision::MoveAndCast { path, ability, target, .. } => {
            let dest = end_of(path, actor_pos);
            let target = entity_label(names, *target);
            let from = fmt_offset(actor_pos);
            let to = fmt_offset(dest);
            let mut s = owned("MoveAndCast: ");
            s.append(from.as_str());
            s.append(" → ");
            s.append(to.as_str());
            s.append(" → ");
            s.append(ability.as_str());
            s.append(" → ");
            s.append(target.as_str());
            s.append(" (");
            s.append(from.as_str());
            s.append("→");
            s.append(to.as_str());
            s.append(", ");
            push_count(&mut s, path.len());
            s.append(" steps)");
            DecisionDebug { description: s, dest_tile: Some(spot(dest)) }
        },
        AiDecision::Move { path, origin } => {
            let mut s = owned(origin_label(*origin));
            s.append(": ");
            push_walk(&mut s, actor_pos, path);
            DecisionDebug { description: s, dest_tile: Some(spot(end_of(path, actor_pos))) }
        },
        AiDecision::EndTurn => DecisionDebug {
            description: owned("EndTurn (no action/movement)"),
            dest_tile: None,
        },
    }
}

/// A decision without a candidate in words, with the reason.
pub open spec fn fallback_text(d: DecisionModel, reason: Seq<char>, actor_pos: Hex) -> Seq<char> {
    match d {
        DecisionModel::Move { path, origin } => origin_text(origin) + " (fallback: "@ + reason
            + "): "@ + walk_text(actor_pos, path),
        DecisionModel::EndTurn => "EndTurn (fallback: "@ + reason + ")"@,
        _ => "fallback: "@ + reason,
    }
}

/// A decision without a candidate in words, with where it leads to.
pub open spec fn fallback_words(
    d: DecisionModel,
    reason: Seq<char>,
    actor_pos: Hex,
) -> DecisionWords {
    DecisionWords {
        description: fallback_text(d, reason, actor_pos),
        dest_tile: match d {
            DecisionModel::Move { path, .. } => Some(spot_of(path_end(path, actor_pos))),
            _ => None,
        },
    }
}

/// A decision without a candidate in words, with the reason.
pub fn describe_fallback(d: &AiDecision, reason: &str, actor_pos: Hex) -> (r: DecisionDebug)
    ensures
        r@ == fallback_words(d@, reason@, actor_pos),
{
    match d {
        AiDecision::Move { path, origin } => {
            let mut s = owned(origin_label(*origin));
            s.append(" (fallback: ");
            s.append(reason);
            s.append("): ");
            push_walk(&mut s, actor_pos, path);
            DecisionDebug { description: s, dest_tile: Some(spot(end_of(path, actor_pos))) }
        },
        AiDecision::EndTurn => {
            let mut s = owned("EndTurn (fallback: ");
            s.append(reason);
            s.append(")");
            DecisionDebug { description: s, dest_tile: None }
        },
        _ => {
            let mut s = owned("fallback: ");
            s.append(reason);
            DecisionDebug { description: s, dest_tile: None }
        },
    }
}

// ---------------------------------------------------------------------------
// Candidates
// ---------------------------------------------------------------------------

/// A candidate in a few words.
pub open spec fn candidate_text(c: CandidateModel, names: Seq<NameRow>) -> Seq<char> {
    match c.kind {
        CandidateKind::Cast { ability, target, .. } => match target {
            Some(t) => ability@ + " → "@ + label_of(names, t),
            None => ability@,
        },
        CandidateKind::MoveOnly => "retreat to "@ + offset_text(c.tile),
    }
}

/// A candidate in a few words.
pub fn candidate_label(c: &ActionCandidate, names: &Vec<NameRow>) -> (r: String)
    ensures
        r@ == candidate_text(c@, names@),
{
    match &c.kind {
        CandidateKind::Cast { ability, target, .. } => {
            let mut s = ability.clone();
            if let Some(t) = *target {
                let label = entity_label(names, t);
                s.append(" → ");
                s.append(label.as_str());
            }
            s
        },
        CandidateKind::MoveOnly => {
            let at = fmt_offset(c.tile);
            let mut s = owned("retreat to ");
            s.append(at.as_str());
            s
        },
    }
}

/// How many candidates are shown.
pub const SHOWN: usize = 5;

/// Places of the candidates that are in play, in order.
pub open spec fn in_play(live: Seq<bool>) -> Seq<usize>
    decreases live.len(),
{
    if live.len() == 0 {
        Seq::empty()
    } else if live.last() {
        in_play(live.drop_last()).push((live.len() - 1) as usize)
    } else {
        in_play(live.drop_last())
    }
}

/// Places of the candidates that are shown: the best few of those in play.
pub open spec fn shown(keys: Seq<SortKey>, live: Seq<bool>) -> Seq<usize> {
    let places = in_play(live);
    let order = ranking(Seq::new(places.len(), |i: int| keys[places[i] as int]));
    let all = Seq::new(order.len(), |i: int| places[order[i] as int]);
    if all.len() > SHOWN {
        all.take(SHOWN as int)
    } else {
        all
    }
}

/// Places of the candidates that are shown, best first. Those that are ruled out
/// are passed over.
pub fn top_candidates(keys: &Vec<SortKey>, live: &Vec<bool>) -> (r: Vec<usize>)
    requires
        live@.len() == keys@.len(),
    ensures
        r@ == shown(keys@, live@),
        r@.len() <= SHOWN,
        forall|i: int| 0 <= i < r@.len() ==> (#[trigger] r@[i]) < keys@.len(),
{
    let mut places: Vec<usize> = Vec::new();
    let mut chosen: Vec<SortKey> = Vec::new();
    let mut i: usize = 0;
    assert(live@.take(0) =~= Seq::empty());
    while i < live.len()
        invariant
            i <= live.len(),
            live@.len() == keys@.len(),
            places@ == in_play(live@.take(i as int)),
            chosen@.len() == places@.len(),
            forall|j: int| 0 <= j < places@.len() ==> (#[trigger] places@[j]) < keys@.len(),
            forall|j: int|
                0 <= j < places@.len() ==> (#[trigger] chosen@[j]) == keys@[places@[j] as int],
        decreases live.len() - i,
    {
        assert(live@.take(i + 1).drop_last() =~= live@.take(i as int));
        if live[i] {
            places.push(i);
            chosen.push(keys[i]);
        }
        i = i + 1;
    }
    assert(live@.take(i as int) =~= live@);
    let ghost all_keys = Seq::new(places@.len(), |j: int| keys@[places@[j] as int]);
    assert(chosen@ =~= all_keys);
    let order = rank_by(&chosen);
    let ghost all = Seq::new(order@.len(), |j: int| places@[order@[j] as int]);
    let mut r: Vec<usize> = Vec::new();
    let mut k: usize = 0;
    while k < order.len() && k < SHOWN
        invariant
            k <= order@.len(),
            k <= SHOWN,
            all == Seq::new(order@.len(), |j: int| places@[order@[j] as int]),
            forall|j: int| 0 <= j < order@.len() ==> (#[trigger] order@[j]) < places@.len(),
            r@ == all.take(k as int),
            forall|j: int| 0 <= j < places@.len() ==> (#[trigger] places@[j]) < keys@.len(),
            forall|j: int| 0 <= j < r@.len() ==> (#[trigger] r@[j]) < keys@.len(),
        decreases order.len() - k,
    {
        assert(order@[k as int] < places@.len());
        assert(places@[order@[k as int] as int] < keys@.len());
        r.push(places[order[k]]);
        assert(r@ =~= all.take(k + 1));
        k = k + 1;
    }
    assert(all.len() <= SHOWN ==> all.take(k as int) =~= all);
    r
}

proof fn in_play_is_live(live: Seq<bool>)
    requires
        live.len() <= usize::MAX,
    ensures
        in_play(live).len() <= live.len(),
        forall|i: int|
            0 <= i < in_play(live).len() ==> (#[trigger] in_play(live)[i]) < live.len()
                && live[in_play(live)[i] as int],
        forall|p: usize| p < live.len() && live[p as int] ==> #[trigger] in_play(live).contains(p),
    decreases live.len(),
{
    if live.len() > 0 {
        let less = live.drop_last();
        in_play_is_live(less);
        let rest = in_play(less);
        let all = in_play(live);
        let last = (live.len() - 1) as usize;
        assert forall|i: int| 0 <= i < all.len() implies (#[trigger] all[i]) < live.len()
            && live[all[i] as int] by {
            if i < rest.len() {
                assert(all[i] == rest[i]);
                assert(rest[i] < less.len());
            }
        }
        assert forall|p: usize| p < live.len() && live[p as int] implies #[trigger] all.contains(
            p,
        ) by {
            if p == last {
                assert(all[rest.len() as int] == p);
            } else {
                assert(less[p as int]);
                assert(rest.contains(p));
                let k = choose|k: int| 0 <= k < rest.len() && rest[k] == p;
                assert(all[k] == p);
            }
        }
    }
}

/// Only candidates in play are shown, few of them, and none that is worse than one
/// in play that is not shown.
pub proof fn law_the_best_in_play_are_shown(
    keys: Seq<SortKey>,
    live: Seq<bool>,
    i: int,
    other: usize,
)
    requires
        live.len() == keys.len(),
        keys.len() <= usize::MAX,
        0 <= i < shown(keys, live).len(),
        other < live.len(),
    ensures
        shown(keys, live).len() <= SHOWN,
        live[shown(keys, live)[i] as int],
        live[other as int] && !shown(keys, live).contains(other)
            ==> keys[shown(keys, live)[i] as int].value >= keys[other as int].value,
{
    in_play_is_live(live);
    let places = in_play(live);
    let chosen = Seq::new(places.len(), |j: int| keys[places[j] as int]);
    law_there_is_a_ranking(chosen);
    let order = ranking(chosen);
    let all = Seq::new(order.len(), |j: int| places[order[j] as int]);
    let few = shown(keys, live);
    assert(few[i] == all[i]);
    assert(order[i] < places.len());
    if live[other as int] && !few.contains(other) {
        assert(places.contains(other));
        let at = choose|at: int| 0 <= at < places.len() && places[at] == other;
        assert(order.contains(at as usize));
        let k = choose|k: int| 0 <= k < order.len() && order[k] == at as usize;
        assert(all[k] == other);
        if k < few.len() {
            assert(few[k] == other);
        }
        assert(precedes(chosen, order[i] as int, order[k] as int));
    }
}

// ---------------------------------------------------------------------------
// The log
// ---------------------------------------------------------------------------

/// How many candidates are logged.
pub const LOGGED: usize = 10;

/// A line of the log: a candidate by its place, its rank, and whether it was chosen.
#[derive(Clone, Copy, PartialEq, Eq, Structural, Debug)]
pub struct RankedLine {
    pub place: usize,
    pub rank: usize,
    pub is_chosen: bool,
}

/// The lines of the log: the best few candidates, ranked from one.
pub open spec fn log_lines(keys: Seq<SortKey>, chosen: usize) -> Seq<RankedLine> {
    let order = ranking(keys);
    Seq::new(
        if order.len() < LOGGED {
            order.len()
        } else {
            LOGGED as nat
        },
        |i: int|
            RankedLine { place: order[i], rank: (i + 1) as usize, is_chosen: order[i] == chosen },
    )
}

/// The lines of the log: the best few candidates, ranked from one.
pub fn logged_candidates(keys: &Vec<SortKey>, chosen: usize) -> (r: Vec<RankedLine>)
    ensures
        r@ == log_lines(keys@, chosen),
        forall|i: int| 0 <= i < r@.len() ==> (#[trigger] r@[i]).place < keys@.len(),
{
    let order = rank_by(keys);
    let ghost lines = log_lines(keys@, chosen);
    let mut r: Vec<RankedLine> = Vec::new();
    let mut i: usize = 0;
    while i < order.len() && i < LOGGED
        invariant
            i <= order@.len(),
            i <= LOGGED,
            order@ == ranking(keys@),
            lines == log_lines(keys@, chosen),
            forall|k: int| 0 <= k < order@.len() ==> (#[trigger] order@[k]) < keys@.len(),
            r@ == lines.take(i as int),
            forall|k: int| 0 <= k < r@.len() ==> (#[trigger] r@[k]).place < keys@.len(),
        decreases order.len() - i,
    {
        assert(order@[i as int] < keys@.len());
        r.push(RankedLine { place: order[i], rank: i + 1, is_chosen: order[i] == chosen });
        assert(r@ =~= lines.take(i + 1));
        i = i + 1;
    }
    assert(lines.take(i as int) =~= lines);
    r
}

/// What the log calls an entity.
pub open spec fn logged_name(names: Seq<NameRow>, entity: Entity) -> Seq<char> {
    if is_named(names, entity) {
        name_of(names, entity)
    } else {
        "<unknown>"@
    }
}

/// What the log calls an entity.
pub fn name_in_log(names: &Vec<NameRow>, entity: Entity) -> (r: String)
    ensures
        r@ == logged_name(names@, entity),
{
    if has_name(names, entity) {
        find_name(names, entity)
    } else {
        owned("<unknown>")
    }
}

// ---------------------------------------------------------------------------
// The whole decision
// ---------------------------------------------------------------------------

/// The unit that acts.
#[derive(Clone, Copy, PartialEq, Eq, Structural, Debug)]
pub struct ActorDebug {
    pub pos: Spot,
    pub hp: i32,
    pub max_hp: i32,
    pub tags: AiTags,
    pub action: bool,
    pub movement: bool,
}

/// One of the candidates that are shown.
#[derive(Debug)]
pub struct CandidateDebug {
    /// Its place among all candidates.
    pub place: usize,
    pub ability: String,
    pub target_name: String,
    pub tile: Spot,
    pub is_move_only: bool,
}

/// One of the candidates that are shown, with its texts as sequences.
pub struct CandidateWords {
    pub place: usize,
    pub ability: Seq<char>,
    pub target_name: Seq<char>,
    pub tile: Spot,
    pub is_move_only: bool,
}

impl View for CandidateDebug {
    type V = CandidateWords;

    open spec fn view(&self) -> CandidateWords {
        CandidateWords {
            place: self.place,
            ability: self.ability@,
            target_name: self.target_name@,
            tile: self.tile,
            is_move_only: self.is_move_only,
        }
    }
}

/// How the choice came about, with the candidates that were chosen from in words.
#[derive(Debug)]
pub struct PickDebug {
    pub top_k: usize,
    pub mercy_applied: bool,
    pub pool: Vec<String>,
    pub chosen_pos: usize,
}

/// How the choice came about, with its texts as sequences.
#[verifier::ext_equal]
pub struct PickWords {
    pub top_k: usize,
    pub mercy_applied: bool,
    pub pool: Seq<Seq<char>>,
    pub chosen_pos: usize,
}

impl View for PickDebug {
    type V = PickWords;

    open spec fn view(&self) -> PickWords {
        PickWords {
            top_k: self.top_k,
            mercy_applied: self.mercy_applied,
            pool: texts(self.pool@),
            chosen_pos: self.chosen_pos,
        }
    }
}

/// A decision with all that led to it.
#[derive(Debug)]
pub struct AiDebugSnapshot {
    pub actor_name: String,
    pub actor: ActorDebug,
    /// What the unit is after.
    pub intent: String,
    /// The most wanted enemy.
    pub priority_target: Option<String>,
    pub top_candidates: Vec<CandidateDebug>,
    pub pick: Option<PickDebug>,
    pub decision: DecisionDebug,
    pub candidate_count: usize,
}

/// A decision with all that led to it, its texts as sequences.
#[verifier::ext_equal]
pub struct DebugWords {
    pub actor_name: Seq<char>,
    pub actor: ActorDebug,
    pub intent: Seq<char>,
    pub priority_target: Option<Seq<char>>,
    pub top_candidates: Seq<CandidateWords>,
    pub pick: Option<PickWords>,
    pub decision: DecisionWords,
    pub candidate_count: nat,
}

impl View for AiDebugSnapshot {
    type V = DebugWords;

    open spec fn view(&self) -> DebugWords {
        DebugWords {
            actor_name: self.actor_name@,
            actor: self.actor,
            intent: self.intent@,
            priority_target: match self.priority_target {
                Some(s) => Some(s@),
                None => None,
            },
            top_candidates: Seq::new(
                self.top_candidates@.len(),
                |i: int| self.top_candidates@[i]@,
            ),
            pick: match self.pick {
                Some(p) => Some(p@),
                None => None,
            },
            decision: self.decision@,
            candidate_count: self.candidate_count as nat,
        }
    }
}

/// The unit that acts.
pub open spec fn actor_debug(active: ActiveUnit, max_hp: i32) -> ActorDebug {
    ActorDebug {
        pos: spot_of(active.pos),
        hp: active.hp,
        max_hp,
        tags: active.tags,
        action: active.can_act,
        movement: active.can_move,
    }
}

fn tell_actor(active: &ActiveUnit, max_hp: i32) -> (r: ActorDebug)
    ensures
        r == actor_debug(*active, max_hp),
{
    ActorDebug {
        pos: spot(active.pos),
        hp: active.hp,
        max_hp,
        tags: active.tags,
        action: active.can_act,
        movement: active.can_move,
    }
}

/// What the most wanted enemy is called.
pub open spec fn wanted_text(enemies: Seq<EnemySpot>, names: Seq<NameRow>) -> Option<Seq<char>> {
    if enemies.len() == 0 {
        None
    } else {
        Some(label_of(names, enemies[most_wanted(enemies)].entity))
    }
}

fn tell_wanted(enemies: &Vec<EnemySpot>, names: &Vec<NameRow>) -> (r: Option<String>)
    ensures
        match r {
            Some(s) => wanted_text(enemies@, names@) == Some(s@),
            None => wanted_text(enemies@, names@) is None,
        },
{
    if enemies.len() == 0 {
        return None;
    }
    let i = find_most_wanted(enemies);
    Some(entity_label(names, enemies[i].entity))
}

/// A candidate that is shown.
pub open spec fn candidate_words(
    c: CandidateModel,
    place: usize,
    names: Seq<NameRow>,
) -> CandidateWords {
    CandidateWords {
        place,
        ability: match c.kind {
            CandidateKind::Cast { ability, .. } => ability@,
            CandidateKind::MoveOnly => ""@,
        },
        target_name: match c.target() {
            Some(t) => label_of(names, t),
            None => ""@,
        },
        tile: spot_of(c.tile),
        is_move_only: c.kind is MoveOnly,
    }
}

fn tell_candidate(c: &ActionCandidate, place: usize, names: &Vec<NameRow>) -> (r: CandidateDebug)
    ensures
        r@ == candidate_words(c@, place, names@),
{
    let (ability, is_move_only) = match &c.kind {
        CandidateKind::Cast { ability, .. } => (ability.clone(), false),
        CandidateKind::MoveOnly => (owned(""), true),
    };
    let target_name = match c.target() {
        Some(t) => entity_label(names, t),
        None => owned(""),
    };
    CandidateDebug { place, ability, target_name, tile: spot(c.tile), is_move_only }
}

/// How a choice came about, in words.
pub open spec fn pick_words(
    pick: PickMechanics,
    list: Seq<CandidateModel>,
    names: Seq<NameRow>,
) -> PickWords {
    PickWords {
        top_k: pick.top_k,
        mercy_applied: pick.mercy_applied,
        pool: Seq::new(
            pick.pool@.len(),
            |i: int| candidate_text(list[pick.pool@[i] as int], names),
        ),
        chosen_pos: pick.chosen_pos,
    }
}

fn tell_pick(pick: &PickMechanics, list: &Vec<ActionCandidate>, names: &Vec<NameRow>) -> (r:
    PickDebug)
    requires
        forall|i: int| 0 <= i < pick.pool@.len() ==> (#[trigger] pick.pool@[i]) < list@.len(),
    ensures
        r@ == pick_words(*pick, candidate_models(list@), names@),
{
    let ghost told = pick_words(*pick, candidate_models(list@), names@).pool;
    let mut pool: Vec<String> = Vec::new();
    let mut i: usize = 0;
    while i < pick.pool.len()
        invariant
            i <= pick.pool@.len(),
            forall|k: int| 0 <= k < pick.pool@.len() ==> (#[trigger] pick.pool@[k]) < list@.len(),
            told == pick_words(*pick, candidate_models(list@), names@).pool,
            texts(pool@) == told.take(i as int),
        decreases pick.pool.len() - i,
    {
        assert(pick.pool@[i as int] < list@.len());
        let ghost before = pool@;
        pool.push(candidate_label(&list[pick.pool[i]], names));
        assert(texts(pool@) =~= texts(before).push(pool@.last()@));
        assert(texts(pool@) =~= told.take(i + 1));
        i = i + 1;
    }
    assert(told.take(i as int) =~= told);
    PickDebug {
        top_k: pick.top_k,
        mercy_applied: pick.mercy_applied,
        pool,
        chosen_pos: pick.chosen_pos,
    }
}

/// A decision with all that led to it.
pub open spec fn debug_words(
    active: ActiveUnit,
    max_hp: i32,
    intent: TacticalIntent,
    list: Seq<CandidateModel>,
    keys: Seq<SortKey>,
    live: Seq<bool>,
    decision: DecisionModel,
    enemies: Seq<EnemySpot>,
    names: Seq<NameRow>,
    pick: Option<PickMechanics>,
) -> DebugWords {
    let places = shown(keys, live);
    DebugWords {
        actor_name: label_of(names, active.entity),
        actor: actor_debug(active, max_hp),
        intent: intent_text(intent, names),
        priority_target: wanted_text(enemies, names),
        top_candidates: Seq::new(
            places.len(),
            |i: int| candidate_words(list[places[i] as int], places[i], names),
        ),
        pick: match pick {
            Some(p) => Some(pick_words(p, list, names)),
            None => None,
        },
        decision: decision_words(decision, active.pos, names),
        candidate_count: list.len(),
    }
}

/// Tells a decision with all that led to it: who decided and what it was after,
/// the enemy it wanted most, the best of the candidates in play, how the choice
/// came about, and what came of it.
pub fn build_debug_snapshot(
    active: &ActiveUnit,
    max_hp: i32,
    intent: TacticalIntent,
    candidates: &Vec<ActionCandidate>,
    keys: &Vec<SortKey>,
    live: &Vec<bool>,
    decision: &AiDecision,
    enemies: &Vec<EnemySpot>,
    names: &Vec<NameRow>,
    pick: &Option<PickMechanics>,
) -> (r: AiDebugSnapshot)
    requires
        keys@.len() == candidates@.len(),
        live@.len() == candidates@.len(),
        pick matches Some(p) ==> forall|i: int|
            0 <= i < p.pool@.len() ==> (#[trigger] p.pool@[i]) < candidates@.len(),
    ensures
        r@ == debug_words(
            *active,
            max_hp,
            intent,
            candidate_models(candidates@),
            keys@,
            live@,
            decision@,
            enemies@,
            names@,
            *pick,
        ),
{
    let ghost list = candidate_models(candidates@);
    let places = top_candidates(keys, live);
    let ghost told = Seq::new(
        places@.len(),
        |i: int| candidate_words(list[places@[i] as int], places@[i], names@),
    );
    let mut top: Vec<CandidateDebug> = Vec::new();
    let mut i: usize = 0;
    while i < places.len()
        invariant
            i <= places@.len(),
            list == candidate_models(candidates@),
            forall|k: int| 0 <= k < places@.len() ==> (#[trigger] places@[k]) < candidates@.len(),
            told == Seq::new(
                places@.len(),
                |k: int| candidate_words(list[places@[k] as int], places@[k], names@),
            ),
            top@.len() == i,
            forall|k: int| 0 <= k < i ==> (#[trigger] top@[k])@ == told[k],
        decreases places.len() - i,
    {
        assert(places@[i as int] < candidates@.len());
        top.push(tell_candidate(&candidates[places[i]], places[i], names));
        i = i + 1;
    }
    assert(Seq::new(top@.len(), |k: int| top@[k]@) =~= told);
    let pick = match pick {
        Some(p) => Some(tell_pick(p, candidates, names)),
        None => None,
    };
    AiDebugSnapshot {
        actor_name: entity_label(names, active.entity),
        actor: tell_actor(active, max_hp),
        intent: format_intent(intent, names),
        priority_target: tell_wanted(enemies, names),
        top_candidates: top,
        pick,
        decision: describe_decision(decision, active.pos, names),
        candidate_count: candidates.len(),
    }
}

/// A decision without a candidate, with all that led to it.
pub open spec fn fallback_debug_words(
    active: ActiveUnit,
    max_hp: i32,
    intent: TacticalIntent,
    decision: DecisionModel,
    reason: Seq<char>,
    enemies: Seq<EnemySpot>,
    names: Seq<NameRow>,
) -> DebugWords {
    DebugWords {
        actor_name: label_of(names, active.entity),
        actor: actor_debug(active, max_hp),
        intent: intent_text(intent, names),
        priority_target: wanted_text(enemies, names),
        top_candidates: Seq::empty(),
        pick: None,
        decision: fallback_words(decision, reason, active.pos),
        candidate_count: 0,
    }
}

/// Tells a decision that was taken without a candidate.
pub fn build_fallback_debug(
    active: &ActiveUnit,
    max_hp: i32,
    intent: TacticalIntent,
    decision: &AiDecision,
    reason: &str,
    enemies: &Vec<EnemySpot>,
    names: &Vec<NameRow>,
) -> (r: AiDebugSnapshot)
    ensures
        r@ == fallback_debug_words(
            *active,
            max_hp,
            intent,
            decision@,
            reason@,
            enemies@,
            names@,
        ),
{
    AiDebugSnapshot {
        actor_name: entity_label(names, active.entity),
        actor: tell_actor(active, max_hp),
        intent: format_intent(intent, names),
        priority_target: tell_wanted(enemies, names),
        top_candidates: Vec::new(),
        pick: None,
        decision: describe_fallback(decision, reason, active.pos),
        candidate_count: 0,
    }
}

/// Who has a name is called by it; who has none by the digits of its bits, if it has any that
/// count.
pub proof fn law_labels(names: Seq<NameRow>, entity: Entity, k: int)
    ensures
        0 <= k < names.len() && names[k].entity == entity ==> label_of(names, entity) == name_of(
            names,
            entity,
        ) && logged_name(names, entity) == name_of(names, entity),
        (forall|j: int| 0 <= j < names.len() ==> (#[trigger] names[j]).entity != entity)
            && entity_bits_valid(entity.bits) ==> label_of(names, entity) == entity_text(
            entity.bits,
        ),
        (forall|j: int| 0 <= j < names.len() ==> (#[trigger] names[j]).entity != entity)
            ==> logged_name(names, entity) == "<unknown>"@,
{
}

/// A spot is the place of a cell in its row, and the row.
pub proof fn law_spot(h: Hex)
    ensures
        spot_of(h).row == h.y,
        spot_of(h).col == column(h),
{
}

/// Which rule stands behind an intent. Hit points are the unit's own where it is about itself,
/// and the other's where it is about another.
pub proof fn law_rules(
    e: Entity,
    own: Health,
    other: Health,
    killable: bool,
)
    ensures
        rule_of(TacticalIntent::ProtectSelf, own, Some(other), killable)
            == IntentRule::HurtInDanger(own),
        rule_of(TacticalIntent::LastStand, own, Some(other), killable) == IntentRule::NoWayOut(own),
        rule_of(TacticalIntent::ProtectAlly { ally: e }, own, Some(other), killable)
            == IntentRule::HurtAlly(other),
        rule_of(TacticalIntent::ProtectAlly { ally: e }, own, None, killable) is UnknownAlly,
        rule_of(TacticalIntent::FocusTarget { target: e }, own, Some(other), true) == (
        IntentRule::Killable { hp: other.hp }),
        rule_of(TacticalIntent::FocusTarget { target: e }, own, Some(other), false) is MostWanted,
        rule_of(TacticalIntent::FocusTarget { target: e }, own, None, killable) is UnknownTarget,
        rule_of(TacticalIntent::ApplyCC { target: e }, own, Some(other), killable) is Unstunned,
        rule_of(TacticalIntent::SetupAOE, own, Some(other), killable) is Clustered,
        rule_of(TacticalIntent::Reposition, own, Some(other), killable) is BadPosition,
{
}

/// A way ends on its last cell, one without a step where it started.
pub proof fn law_path_end(path: Seq<Hex>, start: Hex, more: Hex)
    ensures
        path_end(Seq::empty(), start) == start,
        path_end(path.push(more), start) == more,
{
}

/// Where a decision leads is told for those that move, and for no others.
pub proof fn law_where_a_decision_leads(d: DecisionModel, at: Hex)
    ensures
        d is CastInPlace || d is EndTurn ==> decision_spot(d, at) is None,
        d matches DecisionModel::Move { path, .. } ==> decision_spot(d, at) == Some(
            spot_of(path_end(path, at)),
        ),
        d matches DecisionModel::MoveAndCast { path, .. } ==> decision_spot(d, at) == Some(
            spot_of(path_end(path, at)),
        ),
{
}

/// Those in play keep their places, in order.
pub proof fn law_in_play(live: Seq<bool>)
    requires
        live.len() < usize::MAX,
    ensures
        in_play(Seq::empty()).len() == 0,
        in_play(live.push(true)) == in_play(live).push(live.len() as usize),
        in_play(live.push(false)) == in_play(live),
{
    assert(live.push(true).drop_last() =~= live);
    assert(live.push(false).drop_last() =~= live);
}

/// Up to five candidates in play are shown, and all where there are no more.
pub proof fn law_how_many_are_shown(keys: Seq<SortKey>, live: Seq<bool>)
    requires
        live.len() <= usize::MAX,
    ensures
        in_play(live).len() >= 5 ==> shown(keys, live).len() == 5,
        in_play(live).len() <= 5 ==> shown(keys, live).len() == in_play(live).len(),
{
    few_are_in_play(live);
    let places = in_play(live);
    law_there_is_a_ranking(Seq::new(places.len(), |i: int| keys[places[i] as int]));
}

proof fn few_are_in_play(live: Seq<bool>)
    ensures
        in_play(live).len() <= live.len(),
    decreases live.len(),
{
    if live.len() > 0 {
        few_are_in_play(live.drop_last());
    }
}

/// The ten best candidates are logged, or all where there are fewer, by their rank from one
/// on; the chosen one is marked and no other is.
pub proof fn law_logged_lines(keys: Seq<SortKey>, chosen: usize, i: int)
    requires
        keys.len() <= usize::MAX,
    ensures
        keys.len() >= 10 ==> log_lines(keys, chosen).len() == 10,
        keys.len() <= 10 ==> log_lines(keys, chosen).len() == keys.len(),
        0 <= i < log_lines(keys, chosen).len() ==> {
            let l = log_lines(keys, chosen)[i];
            &&& l.rank == i + 1
            &&& l.place == ranking(keys)[i]
            &&& l.is_chosen <==> l.place == chosen
        },
{
    law_there_is_a_ranking(keys);
}

/// What is shown of a candidate: its place, its cell, and its ability and target where it casts
/// at somebody.
pub proof fn law_candidate_words(c: CandidateModel, place: usize, names: Seq<NameRow>)
    ensures
        ({
            let w = candidate_words(c, place, names);
            &&& w.place == place
            &&& w.tile.row == c.tile.y && w.tile.col == column(c.tile)
            &&& w.is_move_only <==> c.kind is MoveOnly
            &&& c.kind matches CandidateKind::Cast { ability, target, .. } ==> w.ability == ability@
                && (target matches Some(t) ==> w.target_name == label_of(names, t))
            &&& c.kind is MoveOnly ==> w.ability.len() == 0 && w.target_name.len() == 0
            &&& c.target() is None ==> w.target_name.len() == 0
        }),
{
    reveal_strlit("");
}

/// What is shown of a decision among candidates: the acting unit as it is, the enemy that is
/// wanted most, the best candidates by their places, those that were chosen from, and how many
/// there were.
pub proof fn law_debug_words(
    active: ActiveUnit,
    max_hp: i32,
    intent: TacticalIntent,
    list: Seq<CandidateModel>,
    keys: Seq<SortKey>,
    live: Seq<bool>,
    decision: DecisionModel,
    enemies: Seq<EnemySpot>,
    names: Seq<NameRow>,
    pick: Option<PickMechanics>,
    i: int,
)
    ensures
        ({
            let w = debug_words(
                active,
                max_hp,
                intent,
                list,
                keys,
                live,
                decision,
                enemies,
                names,
                pick,
            );
            &&& w.actor_name == label_of(names, active.entity)
            &&& w.actor.hp == active.hp && w.actor.max_hp == max_hp && w.actor.tags == active.tags
            &&& w.actor.action == active.can_act && w.actor.movement == active.can_move
            &&& w.actor.pos.row == active.pos.y && w.actor.pos.col == column(active.pos)
            &&& enemies.len() == 0 ==> w.priority_target is None
            &&& enemies.len() > 0 ==> w.priority_target == Some(
                label_of(names, enemies[most_wanted(enemies)].entity),
            )
            &&& w.candidate_count == list.len()
            &&& w.top_candidates.len() == shown(keys, live).len()
            &&& 0 <= i < w.top_candidates.len() ==> w.top_candidates[i].place == shown(
                keys,
                live,
            )[i]
            &&& pick is None ==> w.pick is None
            &&& pick matches Some(p) ==> w.pick is Some && w.pick->0.top_k == p.top_k
                && w.pick->0.mercy_applied == p.mercy_applied && w.pick->0.chosen_pos
                == p.chosen_pos && w.pick->0.pool.len() == p.pool@.len()
            &&& w.intent == intent_text(intent, names)
            &&& w.decision == decision_words(decision, active.pos, names)
        }),
{
}

} // verus!
