//! How a unit of the AI comes from its intent and the scores of its candidates to
//! one of them. Scores are numbers of which only the order counts.

use crate::ai_tags::AiTags;
use crate::candidates::{
    candidate_models, ActionCandidate, CandidateKind, CandidateModel, CellScore, Reach,
};
use crate::content::{ContentView, TargetType};
use crate::decisions::{
    candidate_fits, claims_after, decision_from_candidate, decision_of, fallback_fits, fallback_move,
    fallback_of, record_reservation, AiDecision, DecisionModel, Expected, Hittable,
};
use crate::effects_math::{aoe_cells, area_fits, touches};
use crate::hex::{all_neighbors, distance, neighbors, Board, Hex};
use crate::ids::Entity;
use crate::ranking::{law_there_is_a_ranking, precedes, rank_by, ranking, SortKey};
use crate::reservations::Reservations;
use crate::targets::lists_cell;
use vstd::prelude::*;

verus! {

// ---------------------------------------------------------------------------
// Intents
// ---------------------------------------------------------------------------

/// What a unit is after.
#[derive(Clone, Copy, PartialEq, Eq, Structural, Debug)]
pub enum TacticalIntent {
    FocusTarget { target: Entity },
    ApplyCC { target: Entity },
    ProtectAlly { ally: Entity },
    Reposition,
    ProtectSelf,
    SetupAOE,
    LastStand,
}

/// What kind of thing a unit is after.
#[derive(Clone, Copy, PartialEq, Eq, Structural, Debug)]
pub enum IntentKind {
    FocusTarget,
    ApplyCC,
    ProtectAlly,
    Reposition,
    ProtectSelf,
    SetupAOE,
    LastStand,
}

/// Why a unit is after it.
#[derive(Clone, Copy, PartialEq, Eq, Structural, Debug)]
pub enum IntentReason {
    /// No rule asked for anything else.
    NoRuleDefault,
    /// It is hurt and in danger.
    Urgency,
    /// It could not do what it was after, and is hurt and in danger.
    MidpanicFallback,
    /// It could not do what it was after.
    ViabilityFallback { from: IntentKind },
}

impl TacticalIntent {
    /// What kind of intent it is.
    pub open spec fn spec_kind(self) -> IntentKind {
        match self {
            TacticalIntent::FocusTarget { .. } => IntentKind::FocusTarget,
            TacticalIntent::ApplyCC { .. } => IntentKind::ApplyCC,
            TacticalIntent::ProtectAlly { .. } => IntentKind::ProtectAlly,
            TacticalIntent::Reposition => IntentKind::Reposition,
            TacticalIntent::ProtectSelf => IntentKind::ProtectSelf,
            TacticalIntent::SetupAOE => IntentKind::SetupAOE,
            TacticalIntent::LastStand => IntentKind::LastStand,
        }
    }

    /// What kind of intent it is.
    #[verifier::when_used_as_spec(spec_kind)]
    pub fn kind(self) -> (r: IntentKind)
        ensures
            r == self.spec_kind(),
    {
        match self {
            TacticalIntent::FocusTarget { .. } => IntentKind::FocusTarget,
            TacticalIntent::ApplyCC { .. } => IntentKind::ApplyCC,
            TacticalIntent::ProtectAlly { .. } => IntentKind::ProtectAlly,
            TacticalIntent::Reposition => IntentKind::Reposition,
            TacticalIntent::ProtectSelf => IntentKind::ProtectSelf,
            TacticalIntent::SetupAOE => IntentKind::SetupAOE,
            TacticalIntent::LastStand => IntentKind::LastStand,
        }
    }
}

/// How well the intent is served, and how the unit is doing. Only comparisons
/// between the two numbers of a pair count.
#[derive(Clone, Copy, PartialEq, Eq, Structural, Debug)]
pub struct Outlook {
    /// How well the best plan serves the intent.
    pub max_align: i64,
    /// How well a plan must serve it; `None` where any will do.
    pub threshold: Option<i64>,
    pub hp: i64,
    /// Below this the unit is badly hurt.
    pub midpanic_hp: i64,
    pub danger: i64,
    /// Above this the unit is in danger.
    pub panic_danger: i64,
}

/// A ranking of plans.
#[derive(Debug)]
pub struct PlanRanking {
    pub intent: TacticalIntent,
    pub intent_reason: IntentReason,
    /// Which plans are in play; the others are ruled out.
    pub live: Vec<bool>,
}

/// The enemy that a new target must not be: the one that the intent is on already.
pub open spec fn excluded(intent: TacticalIntent) -> Option<Entity> {
    match intent {
        TacticalIntent::FocusTarget { target } => Some(target),
        _ => None,
    }
}

/// Whether no plan serves the intent well enough.
pub open spec fn not_viable(s: Outlook) -> bool {
    s.threshold matches Some(t) && s.max_align < t
}

/// Intent and reason once it is known how well plans serve the intent. Where none
/// serves it, a unit that is badly hurt and in danger protects itself; any other
/// goes for another target, where there is one.
pub open spec fn viable_ranking(
    r: PlanRanking,
    s: Outlook,
    default_target: Option<Entity>,
) -> PlanRanking {
    if !not_viable(s) {
        r
    } else if s.hp < s.midpanic_hp && s.danger > s.panic_danger {
        if r.intent == TacticalIntent::ProtectSelf {
            r
        } else {
            PlanRanking {
                intent: TacticalIntent::ProtectSelf,
                intent_reason: IntentReason::MidpanicFallback,
                ..r
            }
        }
    } else {
        match default_target {
            Some(t) if r.intent != (TacticalIntent::FocusTarget { target: t }) => PlanRanking {
                intent: TacticalIntent::FocusTarget { target: t },
                intent_reason: IntentReason::ViabilityFallback { from: r.intent.kind() },
                ..r
            },
            _ => r,
        }
    }
}

impl PlanRanking {
    /// The enemy that a new target must not be.
    pub fn exclude(&self) -> (r: Option<Entity>)
        ensures
            r == excluded(self.intent),
    {
        match self.intent {
            TacticalIntent::FocusTarget { target } => Some(target),
            _ => None,
        }
    }

    /// Gives up an intent that no plan serves. The result says whether plans are to
    /// be scored anew.
    pub fn apply_viability(&mut self, s: Outlook, default_target: Option<Entity>) -> (rescore:
        bool)
        ensures
            *final(self) == viable_ranking(*old(self), s, default_target),
            rescore == (final(self).intent != old(self).intent),
    {
        let threshold = match s.threshold {
            Some(t) => t,
            None => return false,
        };
        if s.max_align >= threshold {
            return false;
        }
        let (intent, reason) = if s.hp < s.midpanic_hp && s.danger > s.panic_danger {
            (TacticalIntent::ProtectSelf, IntentReason::MidpanicFallback)
        } else {
            match default_target {
                Some(t) => (
                    TacticalIntent::FocusTarget { target: t },
                    IntentReason::ViabilityFallback { from: self.intent.kind() },
                ),
                None => return false,
            }
        };
        if self.intent == intent {
            return false;
        }
        self.intent = intent;
        self.intent_reason = reason;
        true
    }
}

// ---------------------------------------------------------------------------
// Self-protection
// ---------------------------------------------------------------------------

/// Which plans are ruled out while a unit protects itself: those judged as usual
/// that do not help it survive.
pub open spec fn ruled_out(defensive: Seq<bool>, usual: Seq<bool>) -> Seq<bool> {
    Seq::new(defensive.len(), |i: int| usual[i] && !defensive[i])
}

impl PlanRanking {
    /// Rules out the plans that do not help a unit survive which protects itself,
    /// but for those that are not judged as usual. Intent and reason stay.
    pub fn apply_protect_self(&mut self, defensive: &Vec<bool>, usual: &Vec<bool>)
        requires
            defensive@.len() == old(self).live@.len(),
            usual@.len() == old(self).live@.len(),
        ensures
            final(self).intent == old(self).intent,
            final(self).intent_reason == old(self).intent_reason,
            final(self).live@ == Seq::new(
                old(self).live@.len(),
                |i: int| old(self).live@[i] && !ruled_out(defensive@, usual@)[i],
            ),
    {
        let mut i: usize = 0;
        while i < defensive.len()
            invariant
                i <= defensive@.len(),
                defensive@.len() == old(self).live@.len(),
                usual@.len() == old(self).live@.len(),
                self.live@.len() == old(self).live@.len(),
                self.intent == old(self).intent,
                self.intent_reason == old(self).intent_reason,
                forall|j: int|
                    0 <= j < i ==> (#[trigger] self.live@[j]) == (old(self).live@[j]
                        && !ruled_out(defensive@, usual@)[j]),
                forall|j: int|
                    i <= j < self.live@.len() ==> (#[trigger] self.live@[j]) == old(
                        self,
                    ).live@[j],
            decreases defensive.len() - i,
        {
            if usual[i] && !defensive[i] {
                self.live.set(i, false);
            }
            i = i + 1;
        }
    }
}

/// Whether a candidate protects its unit: it is for an ally or the unit itself, or
/// acts from a cell that is safer by a margin.
pub open spec fn protects(c: CandidateModel, content: ContentView, safer: bool) -> bool {
    match c.kind {
        CandidateKind::MoveOnly => safer,
        CandidateKind::Cast { ability, .. } => safer || (content.ability(ability@) matches Some(
            def,
        ) && (def.target_type == TargetType::SingleAlly || def.target_type
            == TargetType::Myself)),
    }
}

/// Whether a candidate protects its unit. `safer` says whether the cell it acts
/// from is less dangerous than the present one, by the margin that counts.
pub fn is_defensive(c: &ActionCandidate, content: &ContentView, safer: bool) -> (r: bool)
    ensures
        r == protects(c@, *content, safer),
{
    if let Some(ability) = c.ability() {
        if let Some(def) = content.ability_def(ability) {
            if def.target_type == TargetType::SingleAlly || def.target_type == TargetType::Myself {
                return true;
            }
        }
    }
    safer
}

/// What a unit that means to protect itself does.
#[derive(Debug)]
pub enum Protection {
    /// It means something else: no candidate is ruled out.
    NotMeant,
    /// It chooses among the candidates that protect it: which ones are ruled out.
    RuledOut(Vec<bool>),
    /// None protects it: candidates are to be scored anew for a last stand.
    LastStand,
}

/// Whether `r` is what a unit does about its own protection.
pub open spec fn is_protection(
    r: Protection,
    intent: TacticalIntent,
    defensive: Seq<bool>,
) -> bool {
    match r {
        Protection::NotMeant => intent != TacticalIntent::ProtectSelf,
        Protection::RuledOut(out) => intent == TacticalIntent::ProtectSelf && defensive.contains(
            true,
        ) && out@ == Seq::new(defensive.len(), |i: int| !defensive[i]),
        Protection::LastStand => intent == TacticalIntent::ProtectSelf && !defensive.contains(true),
    }
}

/// What a unit does about its own protection.
pub fn protect(intent: TacticalIntent, defensive: &Vec<bool>) -> (r: Protection)
    ensures
        is_protection(r, intent, defensive@),
{
    if intent != TacticalIntent::ProtectSelf {
        return Protection::NotMeant;
    }
    let mut out: Vec<bool> = Vec::new();
    let mut any = false;
    let mut i: usize = 0;
    while i < defensive.len()
        invariant
            i <= defensive.len(),
            any == (exists|j: int| 0 <= j < i && (#[trigger] defensive@[j])),
            out@.len() == i,
            forall|j: int| 0 <= j < i ==> (#[trigger] out@[j]) == !defensive@[j],
        decreases defensive.len() - i,
    {
        if defensive[i] {
            any = true;
        }
        out.push(!defensive[i]);
        i = i + 1;
    }
    if any {
        assert(defensive@.contains(true)) by {
            let j = choose|j: int| 0 <= j < i && (#[trigger] defensive@[j]);
            assert(defensive@[j] == true);
        }
        assert(out@ =~= Seq::new(defensive@.len(), |i: int| !defensive@[i]));
        Protection::RuledOut(out)
    } else {
        Protection::LastStand
    }
}

// ---------------------------------------------------------------------------
// A second look
// ---------------------------------------------------------------------------

/// How many of the best candidates get a second look.
pub const LOOKED_AT: usize = 3;

/// Places of the candidates that get a second look: the best of several.
pub open spec fn second_look(keys: Seq<SortKey>) -> Seq<usize> {
    if keys.len() <= 1 {
        Seq::empty()
    } else if keys.len() <= LOOKED_AT {
        ranking(keys)
    } else {
        ranking(keys).take(LOOKED_AT as int)
    }
}

/// Places of the candidates that get a second look.
pub fn looked_at(keys: &Vec<SortKey>) -> (r: Vec<usize>)
    ensures
        r@ == second_look(keys@),
        forall|i: int| 0 <= i < r@.len() ==> (#[trigger] r@[i]) < keys@.len(),
{
    if keys.len() <= 1 {
        return Vec::new();
    }
    let mut order = rank_by(keys);
    if order.len() > LOOKED_AT {
        let ghost all = order@;
        order.truncate(LOOKED_AT);
        assert forall|i: int| 0 <= i < order@.len() implies (#[trigger] order@[i])
            < keys@.len() by {
            assert(all[i] == order@[i]);
        }
    }
    order
}

/// Another living unit of the same team.
#[derive(Clone, Copy, PartialEq, Eq, Structural, Debug)]
pub struct AllySpot {
    pub entity: Entity,
    pub pos: Hex,
    pub can_heal: bool,
}

/// What a second look finds about a candidate.
#[derive(Clone, Copy, PartialEq, Eq, Structural, Debug)]
pub struct Findings {
    /// How many healers it leaves without anybody near.
    pub healers_left: usize,
    /// Whether it leads somewhere with no enemy in sight, for who needs that.
    pub is_blind: bool,
    /// Whether it leads somewhere with no way out.
    pub is_trapped: bool,
    /// Whether the unit is in its own area.
    pub hits_self: bool,
    /// Whether it does something useful from a better cell.
    pub is_synergy: bool,
}

/// Whether an ally is near another.
pub open spec fn guards(a: AllySpot, healer: AllySpot) -> bool {
    a.entity != healer.entity && distance(a.pos, healer.pos) <= 2
}

/// Whether going from one cell to another leaves a healer with nobody near.
pub open spec fn leaves_healer(
    allies: Seq<AllySpot>,
    healer: AllySpot,
    from: Hex,
    to: Hex,
) -> bool {
    &&& healer.can_heal
    &&& distance(from, healer.pos) <= 1
    &&& distance(to, healer.pos) > 2
    &&& !exists|i: int| 0 <= i < allies.len() && guards(#[trigger] allies[i], healer)
}

/// How many of the first `n` allies are healers that are left with nobody near.
pub open spec fn healers_left(allies: Seq<AllySpot>, from: Hex, to: Hex, n: nat) -> nat
    decreases n,
{
    if n == 0 {
        0
    } else {
        let rest = healers_left(allies, from, to, (n - 1) as nat);
        if leaves_healer(allies, allies[n - 1], from, to) {
            rest + 1
        } else {
            rest
        }
    }
}

/// Whether all allies stand on cells whose distances can be told.
pub open spec fn allies_in_range(allies: Seq<AllySpot>) -> bool {
    forall|i: int| 0 <= i < allies.len() ==> (#[trigger] allies[i]).pos.in_range()
}

fn is_guarded(allies: &Vec<AllySpot>, healer: AllySpot) -> (r: bool)
    requires
        allies_in_range(allies@),
        healer.pos.in_range(),
    ensures
        r == (exists|i: int| 0 <= i < allies@.len() && guards(#[trigger] allies@[i], healer)),
{
    let mut i: usize = 0;
    while i < allies.len()
        invariant
            i <= allies.len(),
            allies_in_range(allies@),
            healer.pos.in_range(),
            forall|j: int| 0 <= j < i ==> !guards(#[trigger] allies@[j], healer),
        decreases allies.len() - i,
    {
        assert(allies@[i as int].pos.in_range());
        if allies[i].entity != healer.entity && allies[i].pos.unsigned_distance_to(healer.pos)
            <= 2 {
            assert(guards(allies@[i as int], healer));
            return true;
        }
        i = i + 1;
    }
    false
}

fn count_healers_left(allies: &Vec<AllySpot>, from: Hex, to: Hex) -> (r: usize)
    requires
        allies_in_range(allies@),
        from.in_range(),
        to.in_range(),
    ensures
        r == healers_left(allies@, from, to, allies@.len()),
{
    let mut r: usize = 0;
    let mut n: usize = 0;
    while n < allies.len()
        invariant
            n <= allies.len(),
            r <= n,
            allies_in_range(allies@),
            from.in_range(),
            to.in_range(),
            r == healers_left(allies@, from, to, n as nat),
        decreases allies.len() - n,
    {
        let healer = allies[n];
        assert(allies@[n as int].pos.in_range());
        if healer.can_heal && from.unsigned_distance_to(healer.pos) <= 1
            && to.unsigned_distance_to(healer.pos) > 2 && !is_guarded(allies, healer) {
            r = r + 1;
        }
        n = n + 1;
    }
    r
}

/// Whether a cell next to another is open: on the board, and no ally on it.
pub open spec fn is_open(cell: Hex, board: Board, allies: Seq<AllySpot>) -> bool {
    board.contains(cell) && !exists|i: int|
        0 <= i < allies.len() && (#[trigger] allies[i]).pos == cell
}

/// How many of the first `n` neighbours of a cell are open.
pub open spec fn open_around(h: Hex, board: Board, allies: Seq<AllySpot>, n: nat) -> nat
    decreases n,
{
    if n == 0 {
        0
    } else {
        let rest = open_around(h, board, allies, (n - 1) as nat);
        if is_open(neighbors(h)[n - 1], board, allies) {
            rest + 1
        } else {
            rest
        }
    }
}

fn has_ally(cell: Hex, allies: &Vec<AllySpot>) -> (r: bool)
    ensures
        r == (exists|i: int| 0 <= i < allies@.len() && (#[trigger] allies@[i]).pos == cell),
{
    let mut i: usize = 0;
    while i < allies.len()
        invariant
            i <= allies.len(),
            forall|j: int| 0 <= j < i ==> (#[trigger] allies@[j]).pos != cell,
        decreases allies.len() - i,
    {
        if allies[i].pos == cell {
            return true;
        }
        i = i + 1;
    }
    false
}

fn count_open(h: Hex, board: &Board, allies: &Vec<AllySpot>) -> (r: usize)
    requires
        h.in_range(),
        board.wf(),
    ensures
        r == open_around(h, *board, allies@, 6),
{
    let around = all_neighbors(h);
    let mut r: usize = 0;
    let mut n: usize = 0;
    while n < around.len()
        invariant
            n <= around@.len(),
            r <= n,
            around@ == neighbors(h),
            board.wf(),
            r == open_around(h, *board, allies@, n as nat),
        decreases around.len() - n,
    {
        if board.in_bounds(around[n]) && !has_ally(around[n], allies) {
            r = r + 1;
        }
        n = n + 1;
    }
    r
}

/// Whether a candidate's own area touches the cell that it acts from, where the
/// ability spares nobody.
pub open spec fn hits_itself(c: CandidateModel, content: ContentView) -> bool {
    match c.kind {
        CandidateKind::Cast { ability, target_pos, .. } => content.ability(ability@) matches Some(
            def,
        ) && def.friendly_fire && touches(def.aoe, c.tile, target_pos, c.tile),
        CandidateKind::MoveOnly => false,
    }
}

/// Whether a candidate casts something that does anything. `has_effect` says
/// whether the ability deals or heals anything by itself.
pub open spec fn is_useful(c: CandidateModel, content: ContentView, has_effect: bool) -> bool {
    match c.kind {
        CandidateKind::Cast { ability, .. } => content.ability(ability@) matches Some(def) && (
        has_effect || def.statuses@.len() > 0),
        CandidateKind::MoveOnly => false,
    }
}

/// What is known of the unit and its surroundings at a second look.
#[derive(Debug)]
pub struct Surroundings {
    pub pos: Hex,
    pub tags: AiTags,
    /// Whether the unit is no healer of note itself.
    pub weak_support: bool,
    pub board: Board,
    /// Other living units of its team.
    pub allies: Vec<AllySpot>,
    pub any_enemy: bool,
    /// Cells from which some enemy is in sight.
    pub seeing: Vec<Hex>,
}

/// What a second look finds about a candidate.
pub open spec fn findings_of(
    c: CandidateModel,
    s: Surroundings,
    content: ContentView,
    has_effect: bool,
    safer: bool,
    better: bool,
) -> Findings {
    Findings {
        healers_left: if s.weak_support {
            healers_left(s.allies@, s.pos, c.tile, s.allies@.len()) as usize
        } else {
            0
        },
        is_blind: s.tags.ranged && s.any_enemy && !s.seeing@.contains(c.tile),
        is_trapped: open_around(c.tile, s.board, s.allies@, 6) < 2,
        hits_self: hits_itself(c, content),
        is_synergy: c.tile != s.pos && (safer || better) && is_useful(c, content, has_effect),
    }
}

/// Takes a second look at a candidate. `safer` and `better` say whether the cell it
/// acts from is less dangerous, and better on the whole, than the present one.
pub fn sanity_findings(
    c: &ActionCandidate,
    s: &Surroundings,
    content: &ContentView,
    has_effect: bool,
    safer: bool,
    better: bool,
) -> (r: Findings)
    requires
        c@.tile.in_range(),
        s.board.wf(),
        s.weak_support ==> s.pos.in_range() && allies_in_range(s.allies@),
        c@.kind matches CandidateKind::Cast { ability, target_pos, .. } ==> (content.ability(
            ability@,
        ) matches Some(def) ==> (def.friendly_fire ==> area_fits(
            def.aoe,
            c@.tile,
            target_pos,
        ))),
    ensures
        r == findings_of(c@, *s, *content, has_effect, safer, better),
{
    let healers: usize = if s.weak_support {
        count_healers_left(&s.allies, s.pos, c.tile)
    } else {
        0
    };
    let is_blind = s.tags.ranged && s.any_enemy && !lists_cell(&s.seeing, c.tile);
    let is_trapped = count_open(c.tile, &s.board, &s.allies) < 2;
    let mut hits_self = false;
    let mut useful = false;
    if let CandidateKind::Cast { ability, target_pos, .. } = &c.kind {
        if let Some(def) = content.ability_def(ability) {
            if def.friendly_fire {
                let area = aoe_cells(def.aoe, c.tile, *target_pos);
                hits_self = lists_cell(&area, c.tile);
            }
            useful = has_effect || def.statuses.len() > 0;
        }
    }
    Findings {
        healers_left: healers,
        is_blind,
        is_trapped,
        hits_self,
        is_synergy: c.tile != s.pos && (safer || better) && useful,
    }
}

// ---------------------------------------------------------------------------
// The final choice
// ---------------------------------------------------------------------------

/// How many of the first entries of an order are flagged, up to the first that is
/// not.
pub open spec fn leading(order: Seq<usize>, flags: Seq<bool>) -> nat
    decreases order.len(),
{
    if order.len() == 0 || !flags[order[0] as int] {
        0
    } else {
        1 + leading(order.drop_first(), flags)
    }
}

/// The keys of some places.
pub open spec fn keys_at(keys: Seq<SortKey>, order: Seq<usize>) -> Seq<SortKey> {
    Seq::new(order.len(), |i: int| keys[order[i] as int])
}

/// Entries of an order, put in another order.
pub open spec fn reordered(order: Seq<usize>, by: Seq<usize>) -> Seq<usize> {
    Seq::new(by.len(), |i: int| order[by[i] as int])
}

/// The order of candidates, best first. Where mercy counts, the candidates that are
/// about as good as the best, if there are several, are put in order anew by their
/// merciful scores.
pub open spec fn merciful_order(
    keys: Seq<SortKey>,
    mercy: bool,
    about_best: Seq<bool>,
    merciful: Seq<SortKey>,
) -> Seq<usize> {
    let order = ranking(keys);
    let n = leading(order, about_best);
    if mercy && n > 1 {
        let head = order.take(n as int);
        reordered(head, ranking(keys_at(merciful, head))) + order.skip(n as int)
    } else {
        order
    }
}

proof fn leading_is_within(order: Seq<usize>, flags: Seq<bool>)
    ensures
        leading(order, flags) <= order.len(),
    decreases order.len(),
{
    if order.len() > 0 && flags[order[0] as int] {
        leading_is_within(order.drop_first(), flags);
    }
}

fn count_leading(order: &Vec<usize>, flags: &Vec<bool>) -> (r: usize)
    requires
        forall|i: int| 0 <= i < order@.len() ==> (#[trigger] order@[i]) < flags@.len(),
    ensures
        r == leading(order@, flags@),
        r <= order@.len(),
{
    let mut i: usize = 0;
    assert(order@.skip(0) =~= order@);
    while i < order.len() && flags[order[i]]
        invariant
            i <= order@.len(),
            forall|k: int| 0 <= k < order@.len() ==> (#[trigger] order@[k]) < flags@.len(),
            leading(order@, flags@) == i + leading(order@.skip(i as int), flags@),
        decreases order.len() - i,
    {
        assert(order@.skip(i as int).drop_first() =~= order@.skip(i + 1));
        i = i + 1;
        if i < order.len() {
            assert(order@[i as int] < flags@.len());
        }
    }
    i
}

/// Puts candidates in order, with mercy where it counts.
pub fn order_with_mercy(
    keys: &Vec<SortKey>,
    mercy: bool,
    about_best: &Vec<bool>,
    merciful: &Vec<SortKey>,
) -> (r: Vec<usize>)
    requires
        about_best@.len() == keys@.len(),
        merciful@.len() == keys@.len(),
    ensures
        r@ == merciful_order(keys@, mercy, about_best@, merciful@),
        r@.len() == keys@.len(),
        forall|i: int| 0 <= i < r@.len() ==> (#[trigger] r@[i]) < keys@.len(),
{
    let order = rank_by(keys);
    let n = count_leading(&order, about_best);
    if !mercy || n <= 1 {
        return order;
    }
    let ghost head = order@.take(n as int);
    let mut head_keys: Vec<SortKey> = Vec::new();
    let mut i: usize = 0;
    while i < n
        invariant
            i <= n <= order@.len(),
            head == order@.take(n as int),
            merciful@.len() == keys@.len(),
            forall|k: int| 0 <= k < order@.len() ==> (#[trigger] order@[k]) < keys@.len(),
            head_keys@ == keys_at(merciful@, head).take(i as int),
        decreases n - i,
    {
        assert(order@[i as int] < keys@.len());
        head_keys.push(merciful[order[i]]);
        assert(head_keys@ =~= keys_at(merciful@, head).take(i + 1));
        i = i + 1;
    }
    assert(head_keys@ =~= keys_at(merciful@, head));
    let by = rank_by(&head_keys);
    let ghost target = reordered(head, by@) + order@.skip(n as int);
    let mut r: Vec<usize> = Vec::new();
    let mut k: usize = 0;
    while k < order.len()
        invariant
            k <= order@.len(),
            n <= order@.len(),
            head == order@.take(n as int),
            by@.len() == n,
            forall|a: int| 0 <= a < by@.len() ==> (#[trigger] by@[a]) < n,
            forall|a: int| 0 <= a < order@.len() ==> (#[trigger] order@[a]) < keys@.len(),
            target == reordered(head, by@) + order@.skip(n as int),
            r@ == target.take(k as int),
            forall|a: int| 0 <= a < r@.len() ==> (#[trigger] r@[a]) < keys@.len(),
        decreases order.len() - k,
    {
        let place: usize = if k < n {
            assert(by@[k as int] < n);
            order[by[k]]
        } else {
            order[k]
        };
        assert(place == target[k as int]);
        r.push(place);
        assert(r@ =~= target.take(k + 1));
        k = k + 1;
    }
    assert(target.take(k as int) =~= target);
    r
}

/// The first `k` of an order, those that are flagged.
pub open spec fn flagged_of(order: Seq<usize>, flags: Seq<bool>, k: nat) -> Seq<usize>
    decreases k,
{
    if k == 0 {
        Seq::empty()
    } else {
        let rest = flagged_of(order, flags, (k - 1) as nat);
        if flags[order[k - 1] as int] {
            rest.push(order[k - 1])
        } else {
            rest
        }
    }
}

/// How many of an order can be chosen from: at least one, and no more than there
/// are.
pub open spec fn top_count(top_k: usize, len: nat) -> nat {
    if top_k < 1 {
        if len < 1 {
            len
        } else {
            1
        }
    } else if len < top_k {
        len
    } else {
        top_k as nat
    }
}

/// The candidates to choose from: of the best few those that are about as good as
/// the best; the best one alone where none is flagged.
pub open spec fn pool_of(order: Seq<usize>, near_best: Seq<bool>, top_k: usize) -> Seq<usize> {
    let flagged = flagged_of(order, near_best, top_count(top_k, order.len()));
    if flagged.len() == 0 && order.len() > 0 {
        seq![order[0]]
    } else {
        flagged
    }
}

/// The candidates to choose from.
pub fn choice_pool(order: &Vec<usize>, near_best: &Vec<bool>, top_k: usize) -> (r: Vec<usize>)
    requires
        forall|i: int| 0 <= i < order@.len() ==> (#[trigger] order@[i]) < near_best@.len(),
    ensures
        r@ == pool_of(order@, near_best@, top_k),
        order@.len() > 0 ==> r@.len() > 0,
        r@.len() <= order@.len(),
        forall|i: int| 0 <= i < r@.len() ==> (#[trigger] r@[i]) < near_best@.len(),
{
    let at_least_one: usize = if top_k < 1 {
        1
    } else {
        top_k
    };
    let count: usize = if order.len() < at_least_one {
        order.len()
    } else {
        at_least_one
    };
    let mut r: Vec<usize> = Vec::new();
    let mut k: usize = 0;
    while k < count
        invariant
            k <= count <= order@.len(),
            forall|i: int| 0 <= i < order@.len() ==> (#[trigger] order@[i]) < near_best@.len(),
            r@ == flagged_of(order@, near_best@, k as nat),
            r@.len() <= k,
            forall|i: int| 0 <= i < r@.len() ==> (#[trigger] r@[i]) < near_best@.len(),
        decreases count - k,
    {
        assert(order@[k as int] < near_best@.len());
        if near_best[order[k]] {
            r.push(order[k]);
        }
        k = k + 1;
    }
    if r.len() == 0 && order.len() > 0 {
        assert(order@[0] < near_best@.len());
        r.push(order[0]);
        assert(r@ =~= seq![order@[0]]);
    }
    r
}

/// How a choice came about.
#[derive(Debug)]
pub struct PickMechanics {
    /// How many of the best could be chosen from.
    pub top_k: usize,
    /// Whether mercy had a say.
    pub mercy_applied: bool,
    /// Places of the candidates that were chosen from.
    pub pool: Vec<usize>,
    /// Place in the pool of the one that was chosen.
    pub chosen_pos: usize,
}

/// The place in a pool that a die with as many sides as the pool has candidates
/// picks. A pool of one needs no roll.
pub open spec fn rolled_place(len: nat, roll: u32) -> int {
    if len <= 1 || roll == 0 {
        0
    } else {
        roll - 1
    }
}

/// Whether mercy has a say: it counts, and several candidates are about as good as
/// the best.
pub open spec fn mercy_counts(keys: Seq<SortKey>, mercy: bool, about_best: Seq<bool>) -> bool {
    mercy && leading(ranking(keys), about_best) > 1
}

/// Whether a candidate is picked from the best few by a roll.
pub open spec fn is_pick(
    chosen: usize,
    how: PickMechanics,
    keys: Seq<SortKey>,
    mercy: bool,
    about_best: Seq<bool>,
    merciful: Seq<SortKey>,
    near_best: Seq<bool>,
    top_k: usize,
    roll: u32,
) -> bool {
    &&& how.pool@ == pool_of(merciful_order(keys, mercy, about_best, merciful), near_best, top_k)
    &&& how.chosen_pos == rolled_place(how.pool@.len(), roll)
    &&& keys.len() == 0 ==> chosen == 0 && how.pool@.len() == 0 && how.top_k == top_k
        && !how.mercy_applied
    &&& keys.len() > 0 ==> {
        &&& how.chosen_pos < how.pool@.len()
        &&& chosen == how.pool@[how.chosen_pos as int]
        &&& how.top_k == top_count(top_k, keys.len())
        &&& how.mercy_applied == mercy_counts(keys, mercy, about_best)
    }
}

/// Picks a candidate from the best few, by a roll of a die with as many sides as
/// there are candidates to choose from. Where there are no candidates at all, the
/// first place is named and nothing is chosen from.
pub fn pick_best_candidate(
    keys: &Vec<SortKey>,
    mercy: bool,
    about_best: &Vec<bool>,
    merciful: &Vec<SortKey>,
    near_best: &Vec<bool>,
    top_k: usize,
    roll: u32,
) -> (r: (usize, PickMechanics))
    requires
        about_best@.len() == keys@.len(),
        merciful@.len() == keys@.len(),
        near_best@.len() == keys@.len(),
        roll <= pool_of(
            merciful_order(keys@, mercy, about_best@, merciful@),
            near_best@,
            top_k,
        ).len(),
    ensures
        is_pick(
            r.0,
            r.1,
            keys@,
            mercy,
            about_best@,
            merciful@,
            near_best@,
            top_k,
            roll,
        ),
{
    let order = order_with_mercy(keys, mercy, about_best, merciful);
    let pool = choice_pool(&order, near_best, top_k);
    if keys.len() == 0 {
        return (0, PickMechanics { top_k, mercy_applied: false, pool, chosen_pos: 0 });
    }
    let plain = rank_by(keys);
    let mercy_applied = mercy && count_leading(&plain, about_best) > 1;
    let wanted: usize = if top_k < 1 {
        1
    } else {
        top_k
    };
    let top_k: usize = if keys.len() < wanted {
        keys.len()
    } else {
        wanted
    };
    let chosen_pos: usize = if pool.len() <= 1 || roll == 0 {
        0
    } else {
        (roll - 1) as usize
    };
    (pool[chosen_pos], PickMechanics { top_k, mercy_applied, pool, chosen_pos })
}

// ---------------------------------------------------------------------------
// A whole turn
// ---------------------------------------------------------------------------

/// How the choice of an action begins.
#[derive(Debug)]
pub enum Opening {
    /// It is over already.
    Decided(AiDecision),
    /// These candidates are to be scored.
    Score(Vec<ActionCandidate>),
}

/// The candidates that are allowed, in order.
pub open spec fn allowed_of(list: Seq<CandidateModel>, allowed: Seq<bool>) -> Seq<CandidateModel>
    decreases list.len(),
{
    if list.len() == 0 {
        Seq::empty()
    } else {
        let rest = allowed_of(list.drop_last(), allowed);
        if allowed[list.len() - 1] {
            rest.push(list.last())
        } else {
            rest
        }
    }
}

/// What the unit that is to act would do without a candidate.
#[derive(Debug)]
pub struct Retreat {
    pub can_move: bool,
    pub low_hp: bool,
    pub enemies: Vec<Hex>,
    pub reach: Reach,
    pub danger: Vec<CellScore>,
}

impl Retreat {
    /// Whether what the unit does can be told.
    pub open spec fn fits(&self) -> bool {
        fallback_fits(self.can_move, self.low_hp, self.enemies@, self.reach)
    }

    /// What the unit does.
    pub open spec fn decision(&self) -> DecisionModel {
        fallback_of(self.can_move, self.low_hp, self.enemies@, self.reach, self.danger@)
    }
}

/// Begins the choice of an action. A unit that is not known ends its turn; one
/// without an allowed candidate falls back; any other has its candidates scored.
pub fn open_choice(
    known: bool,
    generated: &Vec<ActionCandidate>,
    allowed: &Vec<bool>,
    retreat: &Retreat,
) -> (r: Opening)
    requires
        allowed@.len() == generated@.len(),
        known ==> retreat.fits(),
    ensures
        ({
            let list = allowed_of(candidate_models(generated@), allowed@);
            match r {
                Opening::Decided(d) => if !known {
                    d@ == DecisionModel::EndTurn
                } else {
                    list.len() == 0 && d@ == retreat.decision()
                },
                Opening::Score(cs) => known && list.len() > 0 && candidate_models(cs@) == list,
            }
        }),
{
    if !known {
        return Opening::Decided(AiDecision::EndTurn);
    }
    let ghost m = candidate_models(generated@);
    let mut list: Vec<ActionCandidate> = Vec::new();
    let mut i: usize = 0;
    assert(m.take(0) =~= Seq::empty());
    assert(candidate_models(list@) =~= Seq::empty());
    while i < generated.len()
        invariant
            i <= generated.len(),
            m == candidate_models(generated@),
            allowed@.len() == generated@.len(),
            candidate_models(list@) == allowed_of(m.take(i as int), allowed@),
        decreases generated.len() - i,
    {
        assert(m.take(i + 1).drop_last() =~= m.take(i as int));
        if allowed[i] {
            let ghost before = candidate_models(list@);
            let c = generated[i].copied();
            let ghost model = c@;
            list.push(c);
            assert(candidate_models(list@) =~= before.push(model));
        }
        i = i + 1;
    }
    assert(m.take(i as int) =~= m);
    if list.len() == 0 {
        assert(candidate_models(list@).len() == 0);
        return Opening::Decided(
            fallback_move(
                retreat.can_move,
                retreat.low_hp,
                &retreat.enemies,
                &retreat.reach,
                &retreat.danger,
            ),
        );
    }
    assert(candidate_models(list@).len() > 0);
    Opening::Score(list)
}

/// Ends the choice of an action with one of the candidates: claims what it will do
/// and turns it into a decision.
pub fn close_choice(
    candidates: &Vec<ActionCandidate>,
    best: usize,
    actor: Entity,
    actor_pos: Hex,
    content: &ContentView,
    enemies: &Vec<Hittable>,
    expected: &Vec<Expected>,
    reservations: &mut Reservations,
) -> (r: AiDecision)
    requires
        best < candidates@.len(),
        candidate_fits(candidates@[best as int]@, *content),
    ensures
        r@ == decision_of(candidates@[best as int]@, actor, actor_pos),
        final(reservations)@ == claims_after(
            old(reservations)@,
            candidates@[best as int]@,
            actor_pos,
            *content,
            enemies@,
            expected@,
        ),
{
    record_reservation(&candidates[best], actor_pos, content, enemies, expected, reservations);
    decision_from_candidate(&candidates[best], actor, actor_pos)
}

// ---------------------------------------------------------------------------
// Laws
// ---------------------------------------------------------------------------

/// Without mercy the best candidate is chosen where only one may be chosen from:
/// it comes before any other.
pub proof fn law_top_one_is_best(
    keys: Seq<SortKey>,
    about_best: Seq<bool>,
    merciful: Seq<SortKey>,
    near_best: Seq<bool>,
    other: usize,
)
    requires
        other < keys.len() <= usize::MAX,
    ensures
        pool_of(merciful_order(keys, false, about_best, merciful), near_best, 1) =~= seq![
            ranking(keys)[0],
        ],
        other != ranking(keys)[0] ==> precedes(keys, ranking(keys)[0] as int, other as int),
{
    let order = ranking(keys);
    law_there_is_a_ranking(keys);
    reveal_with_fuel(flagged_of, 2);
    assert(order.contains(other));
    let k = choose|k: int| 0 <= k < order.len() && order[k] == other;
    if k > 0 {
        assert(precedes(keys, order[0] as int, order[k] as int));
    }
}

proof fn leading_are_flagged(order: Seq<usize>, flags: Seq<bool>, k: int)
    requires
        0 <= k < leading(order, flags),
    ensures
        k < order.len(),
        flags[order[k] as int],
    decreases order.len(),
{
    if k > 0 {
        leading_are_flagged(order.drop_first(), flags, k - 1);
        assert(order.drop_first()[k - 1] == order[k]);
    }
}

/// Mercy settles ties and does no more: it changes places only among the candidates
/// that are about as good as the best, so that one of them still comes first, and
/// where the best is clearly best it stays the best.
pub proof fn law_mercy_settles_ties(
    keys: Seq<SortKey>,
    mercy: bool,
    about_best: Seq<bool>,
    merciful: Seq<SortKey>,
    k: int,
)
    requires
        0 <= k < keys.len() <= usize::MAX,
    ensures
        merciful_order(keys, mercy, about_best, merciful).len() == keys.len(),
        k >= leading(ranking(keys), about_best) ==> merciful_order(
            keys,
            mercy,
            about_best,
            merciful,
        )[k] == ranking(keys)[k],
        k < leading(ranking(keys), about_best)
            ==> about_best[merciful_order(keys, mercy, about_best, merciful)[k] as int],
        leading(ranking(keys), about_best) <= 1 ==> merciful_order(
            keys,
            mercy,
            about_best,
            merciful,
        ) == ranking(keys),
{
    let order = ranking(keys);
    let n = leading(order, about_best);
    law_there_is_a_ranking(keys);
    leading_is_within(order, about_best);
    let head = order.take(n as int);
    let head_keys = keys_at(merciful, head);
    law_there_is_a_ranking(head_keys);
    if k < n {
        leading_are_flagged(order, about_best, k);
        let by = ranking(head_keys);
        assert(by[k] < n);
        leading_are_flagged(order, about_best, by[k] as int);
    }
}

/// Whoever is chosen from is among the best few.
pub proof fn law_pool_is_of_the_best(order: Seq<usize>, near_best: Seq<bool>, top_k: usize, i: int)
    requires
        0 <= i < pool_of(order, near_best, top_k).len(),
    ensures
        exists|k: int|
            0 <= k < top_count(top_k, order.len()) && (#[trigger] order[k]) == pool_of(
                order,
                near_best,
                top_k,
            )[i],
{
    let n = top_count(top_k, order.len());
    let flagged = flagged_of(order, near_best, n);
    if flagged.len() == 0 {
        assert(order[0] == pool_of(order, near_best, top_k)[i]);
    } else {
        flagged_is_part(order, near_best, n, i);
    }
}

proof fn flagged_is_part(order: Seq<usize>, flags: Seq<bool>, k: nat, i: int)
    requires
        0 <= i < flagged_of(order, flags, k).len(),
    ensures
        exists|j: int| 0 <= j < k && (#[trigger] order[j]) == flagged_of(order, flags, k)[i],
    decreases k,
{
    let rest = flagged_of(order, flags, (k - 1) as nat);
    if i < rest.len() {
        flagged_is_part(order, flags, (k - 1) as nat, i);
        let j = choose|j: int| 0 <= j < k - 1 && (#[trigger] order[j]) == rest[i];
        assert(order[j] == flagged_of(order, flags, k)[i]);
    } else {
        assert(order[k - 1] == flagged_of(order, flags, k)[i]);
    }
}

/// An intent changes only where no plan serves it, and its reason changes with it
/// and only with it.
pub proof fn law_intent_and_reason_agree(
    r: PlanRanking,
    s: Outlook,
    default_target: Option<Entity>,
)
    ensures
        ({
            let after = viable_ranking(r, s, default_target);
            &&& after.intent == r.intent ==> after == r
            &&& after.intent != r.intent ==> not_viable(s)
            &&& after.intent != r.intent ==> (after.intent_reason == IntentReason::MidpanicFallback
                || after.intent_reason == (IntentReason::ViabilityFallback {
                from: r.intent.kind(),
            }))
        }),
{
}

/// Who protects itself and can, chooses only what protects it.
pub proof fn law_protection_is_kept(defensive: Seq<bool>, usual: Seq<bool>, i: int)
    requires
        usual.len() == defensive.len(),
        0 <= i < defensive.len(),
    ensures
        !ruled_out(defensive, usual)[i] ==> defensive[i] || !usual[i],
        defensive[i] ==> !ruled_out(defensive, usual)[i],
{
}

/// A unit gives up its intent exactly where no plan serves it well enough, and then
/// protects itself if it is badly hurt and in danger, or else goes for the enemy that it
/// would go for by default, if there is one.
pub proof fn law_when_an_intent_is_given_up(
    r: PlanRanking,
    s: Outlook,
    default_target: Option<Entity>,
)
    ensures
        ({
            let after = viable_ranking(r, s, default_target);
            let panics = s.hp < s.midpanic_hp && s.danger > s.panic_danger;
            &&& s.threshold is None ==> after == r
            &&& s.threshold is Some && s.max_align >= s.threshold->0 ==> after == r
            &&& s.threshold is Some && s.max_align < s.threshold->0 && panics ==> after.intent
                == TacticalIntent::ProtectSelf
            &&& s.threshold is Some && s.max_align < s.threshold->0 && !panics
                && default_target is Some ==> after.intent == (TacticalIntent::FocusTarget {
                target: default_target->0,
            })
            &&& s.threshold is Some && s.max_align < s.threshold->0 && !panics
                && default_target is None ==> after == r
            &&& after.live == r.live
            &&& after.intent != r.intent ==> (after.intent_reason == IntentReason::MidpanicFallback
                <==> panics)
        }),
{
}

/// Only a unit that goes for an enemy has one that its new target must not be.
pub proof fn law_excluded_target(intent: TacticalIntent, e: Entity)
    ensures
        excluded(intent) == Some(e) <==> intent == (TacticalIntent::FocusTarget { target: e }),
{
}

/// The kinds of two intents agree exactly where the intents differ by their unit at
/// most.
pub proof fn law_kinds_of_intents(a: Entity, b: Entity)
    ensures
        (TacticalIntent::FocusTarget { target: a }).kind() == (TacticalIntent::FocusTarget {
            target: b,
        }).kind(),
        (TacticalIntent::FocusTarget { target: a }).kind() is FocusTarget,
        (TacticalIntent::ApplyCC { target: a }).kind() is ApplyCC,
        (TacticalIntent::ProtectAlly { ally: a }).kind() is ProtectAlly,
        TacticalIntent::Reposition.kind() is Reposition,
        TacticalIntent::ProtectSelf.kind() is ProtectSelf,
        TacticalIntent::SetupAOE.kind() is SetupAOE,
        TacticalIntent::LastStand.kind() is LastStand,
{
}

/// While a unit protects itself, a plan stays in play if it helps it survive or is not
/// judged as usual, and no other does.
pub proof fn law_what_stays_in_play(defensive: Seq<bool>, usual: Seq<bool>, i: int)
    requires
        usual.len() == defensive.len(),
        0 <= i < defensive.len(),
    ensures
        ruled_out(defensive, usual).len() == defensive.len(),
        ruled_out(defensive, usual)[i] <==> usual[i] && !defensive[i],
{
}

/// A safer cell always protects. Elsewhere only the cast of a known ability protects,
/// and only one on an ally or on the unit itself.
pub proof fn law_what_protects(c: CandidateModel, content: ContentView)
    ensures
        protects(c, content, true),
        c.kind is MoveOnly ==> !protects(c, content, false),
        c.kind is Cast && content.ability(c.kind->ability@) is None ==> !protects(
            c,
            content,
            false,
        ),
        c.kind is Cast && content.ability(c.kind->ability@) is Some ==> {
            let kind = content.ability(c.kind->ability@)->0.target_type;
            &&& kind == TargetType::SingleAlly ==> protects(c, content, false)
            &&& kind == TargetType::Myself ==> protects(c, content, false)
            &&& kind == TargetType::SingleEnemy ==> !protects(c, content, false)
            &&& kind == TargetType::Ground ==> !protects(c, content, false)
        },
{
}

/// The three best candidates are looked at again, or all where there are fewer; a single
/// one is not. Nothing that is left out comes before what is looked at.
pub proof fn law_second_look(keys: Seq<SortKey>, a: int, b: int)
    requires
        keys.len() <= usize::MAX,
    ensures
        keys.len() <= 1 ==> second_look(keys).len() == 0,
        2 <= keys.len() <= 3 ==> second_look(keys).len() == keys.len(),
        keys.len() >= 3 ==> second_look(keys).len() == 3,
        0 <= a < second_look(keys).len() ==> second_look(keys)[a] == ranking(keys)[a],
        0 <= a < second_look(keys).len() <= b < keys.len() ==> precedes(
            keys,
            second_look(keys)[a] as int,
            ranking(keys)[b] as int,
        ),
{
    law_there_is_a_ranking(keys);
}

/// An ally other than the healer guards it from up to two cells away.
pub proof fn law_who_guards(a: AllySpot, healer: AllySpot)
    ensures
        guards(a, healer) <==> a.entity != healer.entity && distance(a.pos, healer.pos) < 3,
{
}

/// A unit leaves a healer that it stood next to for a cell more than two away, unless
/// somebody guards the healer. Staying where it is leaves nobody.
pub proof fn law_leaving_a_healer(allies: Seq<AllySpot>, healer: AllySpot, from: Hex, to: Hex, k: int)
    ensures
        leaves_healer(allies, healer, from, to) ==> healer.can_heal,
        leaves_healer(allies, healer, from, to) ==> distance(from, healer.pos) < 2 && distance(
            to,
            healer.pos,
        ) >= 3,
        !leaves_healer(allies, healer, from, from),
        0 <= k < allies.len() && guards(allies[k], healer) ==> !leaves_healer(
            allies,
            healer,
            from,
            to,
        ),
        healer.can_heal && distance(from, healer.pos) < 2 && distance(to, healer.pos) >= 3 && (
        forall|j: int| 0 <= j < allies.len() ==> !guards(#[trigger] allies[j], healer))
            ==> leaves_healer(allies, healer, from, to),
{
}

/// Each ally that is left counts once.
pub proof fn law_healers_left_add_up(allies: Seq<AllySpot>, from: Hex, to: Hex, n: nat)
    requires
        n < allies.len(),
    ensures
        healers_left(allies, from, to, 0) == 0,
        leaves_healer(allies, allies[n as int], from, to) ==> healers_left(allies, from, to, n + 1)
            == healers_left(allies, from, to, n) + 1,
        !leaves_healer(allies, allies[n as int], from, to) ==> healers_left(
            allies,
            from,
            to,
            n + 1,
        ) == healers_left(allies, from, to, n),
{
}

/// A cell is open if it is on the board and no ally stands on it.
pub proof fn law_open_cells(cell: Hex, board: Board, allies: Seq<AllySpot>, k: int)
    ensures
        is_open(cell, board, allies) ==> board.contains(cell),
        0 <= k < allies.len() && allies[k].pos == cell ==> !is_open(cell, board, allies),
        board.contains(cell) && (forall|j: int|
            0 <= j < allies.len() ==> (#[trigger] allies[j]).pos != cell) ==> is_open(
            cell,
            board,
            allies,
        ),
{
}

/// Each of the six cells around counts once if it is open.
pub proof fn law_ways_out_add_up(h: Hex, board: Board, allies: Seq<AllySpot>, n: nat)
    requires
        n < 6,
    ensures
        open_around(h, board, allies, 0) == 0,
        is_open(neighbors(h)[n as int], board, allies) ==> open_around(h, board, allies, n + 1)
            == open_around(h, board, allies, n) + 1,
        !is_open(neighbors(h)[n as int], board, allies) ==> open_around(h, board, allies, n + 1)
            == open_around(h, board, allies, n),
{
}

/// What is found of a candidate. A healer of note leaves nobody behind; only a ranged unit
/// that faces enemies can be blind, on a cell from which it sees none; fewer than two ways
/// out are a trap; only an ability that spares nobody hits its own caster; and moving
/// somewhere safer or better pays off with something useful to do there.
pub proof fn law_findings(
    c: CandidateModel,
    s: Surroundings,
    content: ContentView,
    has_effect: bool,
    safer: bool,
    better: bool,
)
    ensures
        ({
            let f = findings_of(c, s, content, has_effect, safer, better);
            &&& !s.weak_support ==> f.healers_left == 0
            &&& s.weak_support && s.allies@.len() <= usize::MAX ==> f.healers_left == healers_left(
                s.allies@,
                s.pos,
                c.tile,
                s.allies@.len(),
            )
            &&& f.is_blind <==> s.tags.ranged && s.any_enemy && !s.seeing@.contains(c.tile)
            &&& f.is_trapped <==> open_around(c.tile, s.board, s.allies@, 6) <= 1
            &&& c.kind is MoveOnly ==> !f.hits_self && !f.is_synergy
            &&& c.tile == s.pos ==> !f.is_synergy
            &&& !safer && !better ==> !f.is_synergy
            &&& c.kind is Cast && content.ability(c.kind->ability@) is None ==> !f.hits_self
                && !f.is_synergy
            &&& c.kind is Cast && content.ability(c.kind->ability@) is Some ==> {
                let def = content.ability(c.kind->ability@)->0;
                &&& f.hits_self <==> def.friendly_fire && touches(
                    def.aoe,
                    c.tile,
                    c.kind->target_pos,
                    c.tile,
                )
                &&& c.tile != s.pos && (safer || better) ==> (f.is_synergy <==> has_effect
                    || def.statuses@.len() > 0)
            }
        }),
{
    few_are_left(s.allies@, s.pos, c.tile, s.allies@.len());
}

proof fn few_are_left(allies: Seq<AllySpot>, from: Hex, to: Hex, n: nat)
    ensures
        healers_left(allies, from, to, n) <= n,
    decreases n,
{
    if n > 0 {
        few_are_left(allies, from, to, (n - 1) as nat);
    }
}

/// Everything before the first place that is not flagged leads.
pub proof fn law_leading(order: Seq<usize>, flags: Seq<bool>, k: int)
    ensures
        leading(order, flags) <= order.len(),
        0 <= k < leading(order, flags) ==> flags[order[k] as int],
        leading(order, flags) < order.len() ==> !flags[order[leading(order, flags) as int] as int],
    decreases order.len(),
{
    if order.len() > 0 && flags[order[0] as int] {
        let rest = order.drop_first();
        law_leading(rest, flags, k - 1);
        if 0 < k < leading(order, flags) {
            assert(rest[k - 1] == order[k]);
        }
        if leading(rest, flags) < rest.len() {
            assert(rest[leading(rest, flags) as int] == order[leading(order, flags) as int]);
        }
    }
}

/// Among those about as good as the best, mercy puts the more merciful first.
pub proof fn law_mercy_puts_the_merciful_first(
    keys: Seq<SortKey>,
    about_best: Seq<bool>,
    merciful: Seq<SortKey>,
    a: int,
    b: int,
)
    requires
        keys.len() <= usize::MAX,
        0 <= a < b < leading(ranking(keys), about_best),
    ensures
        ({
            let order = merciful_order(keys, true, about_best, merciful);
            let (first, second) = (merciful[order[a] as int], merciful[order[b] as int]);
            first.value > second.value || (first.value == second.value && first.cost
                <= second.cost)
        }),
{
    let order = ranking(keys);
    let n = leading(order, about_best);
    law_there_is_a_ranking(keys);
    law_leading(order, about_best, 0);
    let head = order.take(n as int);
    let hk = keys_at(merciful, head);
    law_there_is_a_ranking(hk);
    let by = ranking(hk);
    assert(precedes(hk, by[a] as int, by[b] as int));
    assert(merciful_order(keys, true, about_best, merciful)[a] == head[by[a] as int]);
    assert(merciful_order(keys, true, about_best, merciful)[b] == head[by[b] as int]);
}

/// Up to as many of the best as asked for are chosen from, one at least where there is
/// any; and of them all that are near the best, in order, or else the best alone.
pub proof fn law_who_is_chosen_from(order: Seq<usize>, near_best: Seq<bool>, top_k: usize, k: int)
    ensures
        top_count(top_k, order.len()) <= order.len(),
        order.len() > 0 ==> top_count(top_k, order.len()) >= 1,
        1 <= top_k <= order.len() ==> top_count(top_k, order.len()) == top_k,
        top_k > order.len() ==> top_count(top_k, order.len()) == order.len(),
        order.len() > 0 ==> pool_of(order, near_best, top_k).len() > 0,
        0 <= k < top_count(top_k, order.len()) && near_best[order[k] as int] ==> pool_of(
            order,
            near_best,
            top_k,
        ).contains(order[k]),
        forall|j: int|
            0 <= j < pool_of(order, near_best, top_k).len() && !near_best[(#[trigger] pool_of(
                order,
                near_best,
                top_k,
            )[j]) as int] ==> pool_of(order, near_best, top_k) == seq![order[0]],
{
    let n = top_count(top_k, order.len());
    flagged_are_kept(order, near_best, n, k);
}

proof fn flagged_are_kept(order: Seq<usize>, flags: Seq<bool>, n: nat, k: int)
    requires
        n <= order.len(),
    ensures
        0 <= k < n && flags[order[k] as int] ==> flagged_of(order, flags, n).contains(order[k]),
        forall|j: int|
            0 <= j < flagged_of(order, flags, n).len() ==> flags[(#[trigger] flagged_of(
                order,
                flags,
                n,
            )[j]) as int],
    decreases n,
{
    if n > 0 {
        let m = (n - 1) as nat;
        flagged_are_kept(order, flags, m, k);
        let before = flagged_of(order, flags, m);
        let after = flagged_of(order, flags, n);
        if 0 <= k < m && flags[order[k] as int] {
            let i = choose|i: int| 0 <= i < before.len() && before[i] == order[k];
            assert(after[i] == order[k]);
        }
        if k == m && flags[order[k] as int] {
            assert(after[before.len() as int] == order[k]);
        }
    }
}

/// Flagged places are taken in order.
pub proof fn law_flagged_in_order(order: Seq<usize>, flags: Seq<bool>, k: nat)
    requires
        k < order.len(),
    ensures
        flagged_of(order, flags, 0).len() == 0,
        flags[order[k as int] as int] ==> flagged_of(order, flags, k + 1) == flagged_of(
            order,
            flags,
            k,
        ).push(order[k as int]),
        !flags[order[k as int] as int] ==> flagged_of(order, flags, k + 1) == flagged_of(
            order,
            flags,
            k,
        ),
{
}

/// A roll of a die with as many sides as there are candidates names each of them on one
/// side, the first on a one. With nothing to choose between, the first is taken.
pub proof fn law_roll_names_a_place(len: nat, roll: u32, other: u32)
    ensures
        len >= 2 && 1 <= roll <= len ==> 0 <= rolled_place(len, roll) < len,
        len >= 2 && 1 <= roll < other ==> rolled_place(len, other) - rolled_place(len, roll)
            == other - roll,
        rolled_place(len, 1) == 0,
        rolled_place(len, 0) == 0,
        len <= 1 ==> rolled_place(len, roll) == 0,
{
}

/// Candidates stay in play in order, exactly those that are allowed.
pub proof fn law_allowed_stay(
    list: Seq<CandidateModel>,
    allowed: Seq<bool>,
    more: CandidateModel,
)
    requires
        allowed.len() == list.len(),
    ensures
        allowed_of(Seq::empty(), allowed).len() == 0,
        allowed_of(list.push(more), allowed.push(true)) == allowed_of(
            list,
            allowed,
        ).push(more),
        allowed_of(list.push(more), allowed.push(false)) == allowed_of(
            list,
            allowed,
        ),
{
    assert(list.push(more).drop_last() =~= list);
    later_flags_do_not_count(list, allowed, true);
    later_flags_do_not_count(list, allowed, false);
}

proof fn later_flags_do_not_count(list: Seq<CandidateModel>, allowed: Seq<bool>, more: bool)
    requires
        list.len() <= allowed.len(),
    ensures
        allowed_of(list, allowed.push(more)) == allowed_of(list, allowed),
    decreases list.len(),
{
    if list.len() > 0 {
        later_flags_do_not_count(list.drop_last(), allowed, more);
    }
}

/// Only a unit that means to protect itself rules candidates out, and then exactly those that
/// do not protect it; where none does, it makes a last stand.
pub proof fn law_self_protection(
    r: Protection,
    intent: TacticalIntent,
    defensive: Seq<bool>,
    i: int,
)
    requires
        is_protection(r, intent, defensive),
    ensures
        intent == TacticalIntent::ProtectSelf <==> !(r is NotMeant),
        0 <= i < defensive.len() && defensive[i] ==> !(r is LastStand),
        r is RuledOut && 0 <= i < defensive.len() ==> r->0@.len() == defensive.len() && r->0@[i]
            != defensive[i],
        r is LastStand && 0 <= i < defensive.len() ==> !defensive[i],
        r is RuledOut ==> exists|k: int| 0 <= k < defensive.len() && #[trigger] defensive[k],
{
    if 0 <= i < defensive.len() && defensive[i] {
        assert(defensive.contains(true));
    }
    if r is RuledOut {
        let k = choose|k: int| 0 <= k < defensive.len() && defensive[k] == true;
        assert(defensive[k]);
    }
}

/// What is picked is one of those that could be picked, the one that the roll names. Without
/// candidates nothing could be.
pub proof fn law_pick(
    chosen: usize,
    how: PickMechanics,
    keys: Seq<SortKey>,
    mercy: bool,
    about_best: Seq<bool>,
    merciful: Seq<SortKey>,
    near_best: Seq<bool>,
    top_k: usize,
    roll: u32,
)
    requires
        is_pick(chosen, how, keys, mercy, about_best, merciful, near_best, top_k, roll),
    ensures
        keys.len() == 0 ==> how.pool@.len() == 0,
        keys.len() > 0 ==> how.pool@.contains(chosen),
        keys.len() > 0 && how.pool@.len() >= 2 && roll >= 1 ==> how.pool@[roll - 1] == chosen,
        keys.len() > 0 && (how.pool@.len() == 1 || roll == 0) ==> how.pool@[0] == chosen,
        how.mercy_applied ==> mercy,
        keys.len() > 0 && 1 <= top_k <= keys.len() ==> how.top_k == top_k,
        keys.len() > 0 && top_k > keys.len() ==> how.top_k == keys.len(),
{
}

} // verus!
