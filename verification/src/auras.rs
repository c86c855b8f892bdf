//! Auras that stand around their bearers and put statuses on others.

use crate::bootstrap::EcsStatus;
use crate::effects::copy_status;
use crate::hex::{distance, Hex};
use crate::ids::Entity;
use crate::positions::HexPositions;
use crate::state::{Team, TeamRelation};
use crate::text::same_text;
use vstd::prelude::*;

verus! {

/// The bearer of an aura.
#[derive(Debug)]
pub struct AuraSource {
    pub entity: Entity,
    pub team: Team,
    pub is_dead: bool,
    pub radius: u32,
    pub status: String,
    pub affects: TeamRelation,
}

/// Somebody whom auras can reach.
#[derive(Debug)]
pub struct AuraTarget {
    pub entity: Entity,
    pub team: Option<Team>,
    pub is_dead: bool,
    pub statuses: Vec<EcsStatus>,
}

/// Somebody whom auras can reach, as a sequence of statuses.
#[verifier::ext_equal]
pub struct TargetModel {
    pub entity: Entity,
    pub team: Option<Team>,
    pub is_dead: bool,
    pub statuses: Seq<EcsStatus>,
}

impl View for AuraTarget {
    type V = TargetModel;

    open spec fn view(&self) -> TargetModel {
        TargetModel {
            entity: self.entity,
            team: self.team,
            is_dead: self.is_dead,
            statuses: self.statuses@,
        }
    }
}

/// A status that a target is to have, and who it comes from.
#[derive(Debug)]
pub struct Due {
    pub status: String,
    pub source: Entity,
}

/// Whether an aura is meant for a target, distance aside.
pub open spec fn is_meant_for(source: AuraSource, entity: Entity, team: Option<Team>) -> bool {
    match source.affects {
        TeamRelation::Enemies => team is Some && team != Some(source.team),
        TeamRelation::Allies => team == Some(source.team) && entity != source.entity,
        TeamRelation::All => entity != source.entity,
    }
}

/// Whether an aura reaches a target: its bearer lives and stands on the board
/// within the aura's radius of the target, and the aura is meant for the target.
pub open spec fn reaches(
    source: AuraSource,
    entity: Entity,
    team: Option<Team>,
    cells: Map<Entity, Hex>,
) -> bool {
    &&& !source.is_dead
    &&& cells.contains_key(source.entity)
    &&& cells.contains_key(entity)
    &&& distance(cells[source.entity], cells[entity]) <= source.radius
    &&& is_meant_for(source, entity, team)
}

/// What is due without what is of a name.
pub open spec fn due_without(dues: Seq<Due>, status: Seq<char>) -> Seq<Due>
    decreases dues.len(),
{
    if dues.len() == 0 {
        Seq::empty()
    } else if dues.last().status@ == status {
        due_without(dues.drop_last(), status)
    } else {
        due_without(dues.drop_last(), status).push(dues.last())
    }
}

/// The statuses that a target is due from the auras that reach it. Of several
/// bearers of one status the last counts.
pub open spec fn due(
    sources: Seq<AuraSource>,
    entity: Entity,
    team: Option<Team>,
    cells: Map<Entity, Hex>,
) -> Seq<Due>
    decreases sources.len(),
{
    if sources.len() == 0 {
        Seq::empty()
    } else {
        let rest = due(sources.drop_last(), entity, team, cells);
        let s = sources.last();
        if reaches(s, entity, team, cells) {
            due_without(rest, s.status@).push(Due { status: s.status, source: s.entity })
        } else {
            rest
        }
    }
}

/// Whether an entity bears an aura, dead or alive.
pub open spec fn bears_aura(sources: Seq<AuraSource>, entity: Entity) -> bool {
    exists|i: int| 0 <= i < sources.len() && (#[trigger] sources[i]).entity == entity
}

/// Whether a status comes from a bearer of an aura.
pub open spec fn is_from_aura(s: EcsStatus, sources: Seq<AuraSource>) -> bool {
    s.applier matches Some(e) && bears_aura(sources, e)
}

/// Whether a status is among what is due, from the same bearer.
pub open spec fn is_due(dues: Seq<Due>, s: EcsStatus) -> bool {
    exists|i: int|
        0 <= i < dues.len() && (#[trigger] dues[i]).status@ == s.id@ && s.applier == Some(
            dues[i].source,
        )
}

/// The statuses that stay: those from no aura, and those that are still due.
pub open spec fn staying(
    statuses: Seq<EcsStatus>,
    sources: Seq<AuraSource>,
    dues: Seq<Due>,
) -> Seq<EcsStatus>
    decreases statuses.len(),
{
    if statuses.len() == 0 {
        Seq::empty()
    } else {
        let rest = staying(statuses.drop_last(), sources, dues);
        let s = statuses.last();
        if !is_from_aura(s, sources) || is_due(dues, s) {
            rest.push(s)
        } else {
            rest
        }
    }
}

/// Whether there is a status of a name.
pub open spec fn has_name(statuses: Seq<EcsStatus>, id: Seq<char>) -> bool {
    exists|i: int| 0 <= i < statuses.len() && (#[trigger] statuses[i]).id@ == id
}

/// The status that an aura puts on its targets.
pub open spec fn aura_status(d: Due) -> EcsStatus {
    EcsStatus {
        id: d.status,
        rounds_remaining: 1,
        dot_per_tick: 0,
        applier: Some(d.source),
    }
}

/// Statuses with what is due and whose name is not taken yet.
pub open spec fn with_due(statuses: Seq<EcsStatus>, dues: Seq<Due>) -> Seq<EcsStatus>
    decreases dues.len(),
{
    if dues.len() == 0 {
        statuses
    } else {
        let rest = with_due(statuses, dues.drop_last());
        if has_name(rest, dues.last().status@) {
            rest
        } else {
            rest.push(aura_status(dues.last()))
        }
    }
}

/// Statuses of a target after the auras have been applied to it.
pub open spec fn refreshed(
    statuses: Seq<EcsStatus>,
    sources: Seq<AuraSource>,
    dues: Seq<Due>,
) -> Seq<EcsStatus> {
    with_due(staying(statuses, sources, dues), dues)
}

/// A target after the auras have been applied. The dead are left alone.
pub open spec fn after_auras(
    t: TargetModel,
    sources: Seq<AuraSource>,
    cells: Map<Entity, Hex>,
) -> TargetModel {
    if t.is_dead {
        t
    } else {
        TargetModel {
            statuses: refreshed(t.statuses, sources, due(sources, t.entity, t.team, cells)),
            ..t
        }
    }
}

/// Whether it can be told if an aura reaches a target. A distance is needed where the
/// bearer lives, the aura is meant for the target, and both stand on the board.
pub open spec fn reach_fits(
    source: AuraSource,
    entity: Entity,
    team: Option<Team>,
    cells: Map<Entity, Hex>,
) -> bool {
    !source.is_dead && is_meant_for(source, entity, team) && cells.contains_key(source.entity)
        && cells.contains_key(entity) ==> cells[source.entity].in_range()
        && cells[entity].in_range()
}

/// Whether it can be told which auras reach a target.
pub open spec fn dues_fit(
    sources: Seq<AuraSource>,
    entity: Entity,
    team: Option<Team>,
    cells: Map<Entity, Hex>,
) -> bool {
    forall|i: int|
        0 <= i < sources.len() ==> reach_fits(#[trigger] sources[i], entity, team, cells)
}

fn drop_due(dues: &Vec<Due>, status: &String) -> (kept: Vec<Due>)
    ensures
        kept@ == due_without(dues@, status@),
{
    let mut kept: Vec<Due> = Vec::new();
    let mut i: usize = 0;
    assert(dues@.take(0) =~= Seq::empty());
    while i < dues.len()
        invariant
            i <= dues.len(),
            kept@ == due_without(dues@.take(i as int), status@),
        decreases dues.len() - i,
    {
        assert(dues@.take(i + 1).drop_last() =~= dues@.take(i as int));
        if !same_text(&dues[i].status, status) {
            kept.push(Due { status: dues[i].status.clone(), source: dues[i].source });
        }
        i = i + 1;
    }
    assert(dues@.take(i as int) =~= dues@);
    kept
}

/// The statuses that a target is due from the auras that reach it.
pub fn collect_due(
    sources: &Vec<AuraSource>,
    entity: Entity,
    team: Option<Team>,
    positions: &HexPositions,
) -> (dues: Vec<Due>)
    requires
        dues_fit(sources@, entity, team, positions@),
    ensures
        dues@ == due(sources@, entity, team, positions@),
{
    let target_pos = positions.get(entity);
    let mut dues: Vec<Due> = Vec::new();
    let mut i: usize = 0;
    assert(sources@.take(0) =~= Seq::empty());
    while i < sources.len()
        invariant
            i <= sources.len(),
            dues_fit(sources@, entity, team, positions@),
            target_pos == (if positions@.contains_key(entity) {
                Some(positions@[entity])
            } else {
                None
            }),
            dues@ == due(sources@.take(i as int), entity, team, positions@),
        decreases sources.len() - i,
    {
        assert(sources@.take(i + 1).drop_last() =~= sources@.take(i as int));
        let s = &sources[i];
        let meant = match s.affects {
            TeamRelation::Enemies => match team {
                Some(t) => t != s.team,
                None => false,
            },
            TeamRelation::Allies => match team {
                Some(t) => t == s.team && entity != s.entity,
                None => false,
            },
            TeamRelation::All => entity != s.entity,
        };
        assert(reach_fits(sources@[i as int], entity, team, positions@));
        let reached = if !s.is_dead && meant {
            match (target_pos, positions.get(s.entity)) {
                (Some(at), Some(from)) => from.unsigned_distance_to(at) <= s.radius,
                _ => false,
            }
        } else {
            false
        };
        if reached {
            dues = drop_due(&dues, &s.status);
            dues.push(Due { status: s.status.clone(), source: s.entity });
        }
        i = i + 1;
    }
    assert(sources@.take(i as int) =~= sources@);
    dues
}

fn bearer_of(sources: &Vec<AuraSource>, entity: Entity) -> (r: bool)
    ensures
        r == bears_aura(sources@, entity),
{
    let mut i: usize = 0;
    while i < sources.len()
        invariant
            i <= sources.len(),
            forall|j: int| 0 <= j < i ==> (#[trigger] sources@[j]).entity != entity,
        decreases sources.len() - i,
    {
        if sources[i].entity == entity {
            return true;
        }
        i = i + 1;
    }
    false
}

fn due_lists(dues: &Vec<Due>, s: &EcsStatus) -> (r: bool)
    ensures
        r == is_due(dues@, *s),
{
    let mut i: usize = 0;
    while i < dues.len()
        invariant
            i <= dues.len(),
            forall|j: int|
                0 <= j < i ==> !((#[trigger] dues@[j]).status@ == s.id@ && s.applier == Some(
                    dues@[j].source,
                )),
        decreases dues.len() - i,
    {
        let same_source = match s.applier {
            Some(e) => e == dues[i].source,
            None => false,
        };
        if same_source && same_text(&dues[i].status, &s.id) {
            return true;
        }
        i = i + 1;
    }
    false
}

fn names(statuses: &Vec<EcsStatus>, id: &String) -> (r: bool)
    ensures
        r == has_name(statuses@, id@),
{
    let mut i: usize = 0;
    while i < statuses.len()
        invariant
            i <= statuses.len(),
            forall|j: int| 0 <= j < i ==> (#[trigger] statuses@[j]).id@ != id@,
        decreases statuses.len() - i,
    {
        if same_text(&statuses[i].id, id) {
            return true;
        }
        i = i + 1;
    }
    false
}

/// Statuses of a target after the auras have been applied to it.
pub fn refresh(
    statuses: &Vec<EcsStatus>,
    sources: &Vec<AuraSource>,
    dues: &Vec<Due>,
) -> (r: Vec<EcsStatus>)
    ensures
        r@ == refreshed(statuses@, sources@, dues@),
{
    let mut kept: Vec<EcsStatus> = Vec::new();
    let mut i: usize = 0;
    assert(statuses@.take(0) =~= Seq::empty());
    while i < statuses.len()
        invariant
            i <= statuses.len(),
            kept@ == staying(statuses@.take(i as int), sources@, dues@),
        decreases statuses.len() - i,
    {
        assert(statuses@.take(i + 1).drop_last() =~= statuses@.take(i as int));
        let from_aura = match statuses[i].applier {
            Some(e) => bearer_of(sources, e),
            None => false,
        };
        if !from_aura || due_lists(dues, &statuses[i]) {
            kept.push(copy_status(&statuses[i]));
        }
        i = i + 1;
    }
    assert(statuses@.take(i as int) =~= statuses@);
    let ghost stayed = kept@;
    let mut j: usize = 0;
    assert(dues@.take(0) =~= Seq::empty());
    while j < dues.len()
        invariant
            j <= dues.len(),
            kept@ == with_due(stayed, dues@.take(j as int)),
        decreases dues.len() - j,
    {
        assert(dues@.take(j + 1).drop_last() =~= dues@.take(j as int));
        if !names(&kept, &dues[j].status) {
            kept.push(
                EcsStatus {
                    id: dues[j].status.clone(),
                    rounds_remaining: 1,
                    dot_per_tick: 0,
                    applier: Some(dues[j].source),
                },
            );
        }
        j = j + 1;
    }
    assert(dues@.take(j as int) =~= dues@);
    kept
}

/// Whether each target is as all auras leave it.
pub open spec fn all_after_auras(
    before: Seq<AuraTarget>,
    after: Seq<AuraTarget>,
    sources: Seq<AuraSource>,
    cells: Map<Entity, Hex>,
) -> bool {
    &&& after.len() == before.len()
    &&& forall|i: int|
        0 <= i < before.len() ==> (#[trigger] after[i])@ == after_auras(before[i]@, sources, cells)
}

/// Applies all auras to all living targets.
pub fn apply_auras_system(
    sources: &Vec<AuraSource>,
    positions: &HexPositions,
    targets: &mut Vec<AuraTarget>,
)
    requires
        forall|i: int|
            0 <= i < old(targets)@.len() && !(#[trigger] old(targets)@[i]).is_dead ==> dues_fit(
                sources@,
                old(targets)@[i].entity,
                old(targets)@[i].team,
                positions@,
            ),
    ensures
        all_after_auras(old(targets)@, final(targets)@, sources@, positions@),
{
    let ghost before = targets@;
    let mut i: usize = 0;
    while i < targets.len()
        invariant
            i <= targets.len(),
            targets@.len() == before.len(),
            forall|j: int|
                0 <= j < before.len() && !(#[trigger] before[j]).is_dead ==> dues_fit(
                    sources@,
                    before[j].entity,
                    before[j].team,
                    positions@,
                ),
            forall|j: int|
                0 <= j < i ==> (#[trigger] targets@[j])@ == after_auras(
                    before[j]@,
                    sources@,
                    positions@,
                ),
            forall|j: int| i <= j < before.len() ==> (#[trigger] targets@[j]) == before[j],
        decreases targets.len() - i,
    {
        assert(targets@[i as int] == before[i as int]);
        if !targets[i].is_dead {
            let dues = collect_due(sources, targets[i].entity, targets[i].team, positions);
            let statuses = refresh(&targets[i].statuses, sources, &dues);
            targets[i].statuses = statuses;
        }
        i = i + 1;
    }
}

// ---------------------------------------------------------------------------
// Laws
// ---------------------------------------------------------------------------

/// The statuses that come from no aura, in order.
pub open spec fn not_from_aura(
    statuses: Seq<EcsStatus>,
    sources: Seq<AuraSource>,
) -> Seq<EcsStatus>
    decreases statuses.len(),
{
    if statuses.len() == 0 {
        Seq::empty()
    } else if is_from_aura(statuses.last(), sources) {
        not_from_aura(statuses.drop_last(), sources)
    } else {
        not_from_aura(statuses.drop_last(), sources).push(statuses.last())
    }
}

/// Whether whatever is due is due from a bearer of an aura.
pub open spec fn dues_are_borne(dues: Seq<Due>, sources: Seq<AuraSource>) -> bool {
    forall|i: int| 0 <= i < dues.len() ==> bears_aura(sources, (#[trigger] dues[i]).source)
}

proof fn due_without_is_part(dues: Seq<Due>, status: Seq<char>)
    ensures
        forall|i: int|
            0 <= i < due_without(dues, status).len() ==> dues.contains(
                #[trigger] due_without(dues, status)[i],
            ) && due_without(dues, status)[i].status@ != status,
        forall|i: int|
            0 <= i < dues.len() && (#[trigger] dues[i]).status@ != status ==> due_without(
                dues,
                status,
            ).contains(dues[i]),
    decreases dues.len(),
{
    if dues.len() > 0 {
        let rest = dues.drop_last();
        due_without_is_part(rest, status);
        let w = due_without(dues, status);
        let v = due_without(rest, status);
        assert forall|i: int| 0 <= i < w.len() implies dues.contains(#[trigger] w[i])
            && w[i].status@ != status by {
            if i < v.len() {
                assert(w[i] == v[i]);
                let j = choose|j: int| 0 <= j < rest.len() && rest[j] == v[i];
                assert(dues[j] == w[i]);
            } else {
                assert(dues[dues.len() - 1] == w[i]);
            }
        }
        assert forall|i: int| 0 <= i < dues.len() && (#[trigger] dues[i]).status@
            != status implies w.contains(dues[i]) by {
            if i < rest.len() {
                assert(rest[i] == dues[i]);
                let j = choose|j: int| 0 <= j < v.len() && v[j] == rest[i];
                assert(w[j] == dues[i]);
            } else {
                assert(w[w.len() - 1] == dues[i]);
            }
        }
    }
}

/// Whatever is due is due from a living bearer in reach.
pub proof fn law_due_has_a_source(
    sources: Seq<AuraSource>,
    entity: Entity,
    team: Option<Team>,
    cells: Map<Entity, Hex>,
    i: int,
)
    requires
        0 <= i < due(sources, entity, team, cells).len(),
    ensures
        exists|k: int|
            0 <= k < sources.len() && reaches(#[trigger] sources[k], entity, team, cells)
                && sources[k].entity == due(sources, entity, team, cells)[i].source
                && sources[k].status@ == due(sources, entity, team, cells)[i].status@,
    decreases sources.len(),
{
    let d = due(sources, entity, team, cells);
    let rest = sources.drop_last();
    let e = due(rest, entity, team, cells);
    let s = sources.last();
    if reaches(s, entity, team, cells) && i == d.len() - 1 {
        assert(reaches(sources[sources.len() - 1], entity, team, cells));
    } else {
        let j = if reaches(s, entity, team, cells) {
            due_without_is_part(e, s.status@);
            let w = due_without(e, s.status@);
            assert(d[i] == w[i]);
            assert(e.contains(w[i]));
            choose|j: int| 0 <= j < e.len() && e[j] == w[i]
        } else {
            i
        };
        law_due_has_a_source(rest, entity, team, cells, j);
        let k = choose|k: int|
            0 <= k < rest.len() && reaches(#[trigger] rest[k], entity, team, cells)
                && rest[k].entity == e[j].source && rest[k].status@ == e[j].status@;
        assert(sources[k] == rest[k]);
    }
}

/// Where an aura reaches a target, its status is due, from this bearer or a later
/// one.
pub proof fn law_reach_is_due(
    sources: Seq<AuraSource>,
    entity: Entity,
    team: Option<Team>,
    cells: Map<Entity, Hex>,
    k: int,
)
    requires
        0 <= k < sources.len(),
        reaches(sources[k], entity, team, cells),
    ensures
        exists|i: int|
            0 <= i < due(sources, entity, team, cells).len() && (#[trigger] due(
                sources,
                entity,
                team,
                cells,
            )[i]).status@ == sources[k].status@,
    decreases sources.len(),
{
    let d = due(sources, entity, team, cells);
    let rest = sources.drop_last();
    let e = due(rest, entity, team, cells);
    let s = sources.last();
    if k == sources.len() - 1 {
        assert(d[d.len() - 1].status@ == s.status@);
    } else {
        assert(rest[k] == sources[k]);
        law_reach_is_due(rest, entity, team, cells, k);
        let i = choose|i: int|
            0 <= i < e.len() && (#[trigger] e[i]).status@ == sources[k].status@;
        if reaches(s, entity, team, cells) {
            if s.status@ == sources[k].status@ {
                assert(d[d.len() - 1].status@ == s.status@);
            } else {
                due_without_is_part(e, s.status@);
                let w = due_without(e, s.status@);
                assert(w.contains(e[i]));
                let j = choose|j: int| 0 <= j < w.len() && w[j] == e[i];
                assert(d[j] == w[j]);
            }
        } else {
            assert(d[i].status@ == sources[k].status@);
        }
    }
}

proof fn dues_come_from_bearers(
    sources: Seq<AuraSource>,
    entity: Entity,
    team: Option<Team>,
    cells: Map<Entity, Hex>,
)
    ensures
        dues_are_borne(due(sources, entity, team, cells), sources),
{
    let d = due(sources, entity, team, cells);
    assert forall|i: int| 0 <= i < d.len() implies bears_aura(
        sources,
        (#[trigger] d[i]).source,
    ) by {
        law_due_has_a_source(sources, entity, team, cells, i);
    }
}

proof fn staying_is_part(statuses: Seq<EcsStatus>, sources: Seq<AuraSource>, dues: Seq<Due>)
    ensures
        forall|i: int|
            0 <= i < staying(statuses, sources, dues).len() ==> {
                let s = #[trigger] staying(statuses, sources, dues)[i];
                !is_from_aura(s, sources) || is_due(dues, s)
            },
        not_from_aura(staying(statuses, sources, dues), sources) == not_from_aura(
            statuses,
            sources,
        ),
    decreases statuses.len(),
{
    if statuses.len() > 0 {
        let rest = statuses.drop_last();
        staying_is_part(rest, sources, dues);
        let v = staying(rest, sources, dues);
        let w = staying(statuses, sources, dues);
        let s = statuses.last();
        if !is_from_aura(s, sources) || is_due(dues, s) {
            assert(w.drop_last() =~= v);
            assert forall|i: int| 0 <= i < w.len() implies {
                let t = #[trigger] w[i];
                !is_from_aura(t, sources) || is_due(dues, t)
            } by {
                if i < v.len() {
                    assert(w[i] == v[i]);
                }
            }
        }
    }
}

proof fn with_due_properties(
    stayed: Seq<EcsStatus>,
    sources: Seq<AuraSource>,
    dues: Seq<Due>,
    all: Seq<Due>,
)
    requires
        dues_are_borne(dues, sources),
        dues.len() <= all.len(),
        all.take(dues.len() as int) == dues,
        forall|i: int|
            0 <= i < stayed.len() ==> !is_from_aura(#[trigger] stayed[i], sources) || is_due(
                all,
                stayed[i],
            ),
    ensures
        ({
            let w = with_due(stayed, dues);
            &&& forall|i: int|
                0 <= i < w.len() ==> !is_from_aura(#[trigger] w[i], sources) || is_due(all, w[i])
            &&& forall|i: int|
                0 <= i < dues.len() ==> has_name(w, (#[trigger] dues[i]).status@)
            &&& not_from_aura(w, sources) == not_from_aura(stayed, sources)
        }),
    decreases dues.len(),
{
    let w = with_due(stayed, dues);
    if dues.len() > 0 {
        let rest = dues.drop_last();
        let d = dues.last();
        assert(dues_are_borne(rest, sources)) by {
            assert forall|i: int| 0 <= i < rest.len() implies bears_aura(
                sources,
                (#[trigger] rest[i]).source,
            ) by {
                assert(rest[i] == dues[i]);
            }
        }
        assert(all.take(rest.len() as int) =~= rest);
        with_due_properties(stayed, sources, rest, all);
        let v = with_due(stayed, rest);
        if !has_name(v, d.status@) {
            assert(w.drop_last() =~= v);
            assert(dues[dues.len() - 1] == d);
            assert(bears_aura(sources, d.source));
            assert(is_from_aura(w.last(), sources));
            assert(all[dues.len() - 1] == d);
            assert(is_due(all, aura_status(d)));
            assert forall|i: int| 0 <= i < w.len() implies !is_from_aura(
                #[trigger] w[i],
                sources,
            ) || is_due(all, w[i]) by {
                if i < v.len() {
                    assert(w[i] == v[i]);
                }
            }
        }
        assert forall|i: int| 0 <= i < dues.len() implies has_name(
            w,
            (#[trigger] dues[i]).status@,
        ) by {
            if i < rest.len() {
                assert(rest[i] == dues[i]);
                assert(has_name(v, rest[i].status@));
                let k = choose|k: int|
                    0 <= k < v.len() && (#[trigger] v[k]).id@ == rest[i].status@;
                assert(w[k] == v[k]);
            } else if !has_name(v, d.status@) {
                assert(w[w.len() - 1].id@ == d.status@);
            }
        }
    }
}

/// What a run of the auras leaves a living target with:
/// - every status from a bearer of an aura is due from that bearer, and so what
///   is left over from auras that no longer reach is gone;
/// - every status that is due is there under its name;
/// - the statuses that come from no aura are as they were, in the same order.
pub proof fn law_auras(t: TargetModel, sources: Seq<AuraSource>, cells: Map<Entity, Hex>)
    requires
        !t.is_dead,
    ensures
        ({
            let after = after_auras(t, sources, cells).statuses;
            let dues = due(sources, t.entity, t.team, cells);
            &&& forall|i: int|
                0 <= i < after.len() && is_from_aura(#[trigger] after[i], sources) ==> is_due(
                    dues,
                    after[i],
                )
            &&& forall|i: int|
                0 <= i < dues.len() ==> has_name(after, (#[trigger] dues[i]).status@)
            &&& not_from_aura(after, sources) == not_from_aura(t.statuses, sources)
        }),
{
    let dues = due(sources, t.entity, t.team, cells);
    dues_come_from_bearers(sources, t.entity, t.team, cells);
    staying_is_part(t.statuses, sources, dues);
    assert(dues.take(dues.len() as int) =~= dues);
    with_due_properties(staying(t.statuses, sources, dues), sources, dues, dues);
}

/// A living target in reach of an aura whose status nobody but an aura has put on
/// it ends up with that status from a living bearer in reach.
pub proof fn law_aura_covers(
    t: TargetModel,
    sources: Seq<AuraSource>,
    cells: Map<Entity, Hex>,
    k: int,
)
    requires
        !t.is_dead,
        0 <= k < sources.len(),
        reaches(sources[k], t.entity, t.team, cells),
        !has_name(not_from_aura(t.statuses, sources), sources[k].status@),
    ensures
        exists|i: int|
            0 <= i < after_auras(t, sources, cells).statuses.len() && {
                let s = #[trigger] after_auras(t, sources, cells).statuses[i];
                s.id@ == sources[k].status@ && is_from_aura(s, sources) && is_due(
                    due(sources, t.entity, t.team, cells),
                    s,
                )
            },
{
    let after = after_auras(t, sources, cells).statuses;
    let dues = due(sources, t.entity, t.team, cells);
    law_auras(t, sources, cells);
    law_reach_is_due(sources, t.entity, t.team, cells, k);
    let j = choose|j: int| 0 <= j < dues.len() && (#[trigger] dues[j]).status@
        == sources[k].status@;
    assert(has_name(after, dues[j].status@));
    let i = choose|i: int| 0 <= i < after.len() && (#[trigger] after[i]).id@
        == sources[k].status@;
    if !is_from_aura(after[i], sources) {
        not_from_aura_keeps(after, sources, i);
    }
    assert(is_from_aura(after[i], sources));
}

proof fn not_from_aura_keeps(statuses: Seq<EcsStatus>, sources: Seq<AuraSource>, i: int)
    requires
        0 <= i < statuses.len(),
        !is_from_aura(statuses[i], sources),
    ensures
        has_name(not_from_aura(statuses, sources), statuses[i].id@),
    decreases statuses.len(),
{
    let rest = statuses.drop_last();
    let w = not_from_aura(statuses, sources);
    if i == statuses.len() - 1 {
        assert(w[w.len() - 1].id@ == statuses[i].id@);
    } else {
        assert(rest[i] == statuses[i]);
        not_from_aura_keeps(rest, sources, i);
        let v = not_from_aura(rest, sources);
        let k = choose|k: int| 0 <= k < v.len() && (#[trigger] v[k]).id@ == statuses[i].id@;
        assert(w[k] == v[k]);
    }
}

proof fn nothing_goes(statuses: Seq<EcsStatus>, sources: Seq<AuraSource>, dues: Seq<Due>)
    requires
        forall|i: int|
            0 <= i < statuses.len() ==> !is_from_aura(#[trigger] statuses[i], sources) || is_due(
                dues,
                statuses[i],
            ),
    ensures
        staying(statuses, sources, dues) == statuses,
    decreases statuses.len(),
{
    if statuses.len() > 0 {
        let rest = statuses.drop_last();
        assert forall|i: int| 0 <= i < rest.len() implies !is_from_aura(
            #[trigger] rest[i],
            sources,
        ) || is_due(dues, rest[i]) by {
            assert(rest[i] == statuses[i]);
        }
        nothing_goes(rest, sources, dues);
        let s = statuses[statuses.len() - 1];
        assert(!is_from_aura(s, sources) || is_due(dues, s));
        assert(staying(statuses, sources, dues) =~= statuses);
    }
}

proof fn nothing_comes(statuses: Seq<EcsStatus>, dues: Seq<Due>)
    requires
        forall|i: int| 0 <= i < dues.len() ==> has_name(statuses, (#[trigger] dues[i]).status@),
    ensures
        with_due(statuses, dues) == statuses,
    decreases dues.len(),
{
    if dues.len() > 0 {
        let rest = dues.drop_last();
        assert forall|i: int| 0 <= i < rest.len() implies has_name(
            statuses,
            (#[trigger] rest[i]).status@,
        ) by {
            assert(rest[i] == dues[i]);
        }
        nothing_comes(statuses, rest);
        assert(has_name(statuses, dues[dues.len() - 1].status@));
    }
}

/// Once the auras have been applied, applying them again with nobody moved
/// changes nothing.
pub proof fn law_auras_settle(t: TargetModel, sources: Seq<AuraSource>, cells: Map<Entity, Hex>)
    ensures
        after_auras(after_auras(t, sources, cells), sources, cells) == after_auras(
            t,
            sources,
            cells,
        ),
{
    if !t.is_dead {
        law_auras(t, sources, cells);
        let after = after_auras(t, sources, cells);
        let dues = due(sources, t.entity, t.team, cells);
        nothing_goes(after.statuses, sources, dues);
        nothing_comes(after.statuses, dues);
    }
}

/// Without a bearer of an aura nothing changes.
pub proof fn law_no_bearer_no_change(t: TargetModel, cells: Map<Entity, Hex>)
    ensures
        after_auras(t, Seq::empty(), cells) == t,
{
    let none = Seq::<AuraSource>::empty();
    let dues = due(none, t.entity, t.team, cells);
    nothing_goes(t.statuses, none, dues);
}

/// Whether a living bearer on the board has an aura that is meant for a target and
/// reaches as far as it stands: enemies are those of another team, allies those of
/// the bearer's own but for the bearer, and all are all but the bearer.
pub open spec fn is_covered_by(
    source: AuraSource,
    entity: Entity,
    team: Option<Team>,
    cells: Map<Entity, Hex>,
) -> bool {
    &&& !source.is_dead
    &&& cells.contains_key(source.entity)
    &&& cells.contains_key(entity)
    &&& distance(cells[source.entity], cells[entity]) <= source.radius
    &&& source.affects is Enemies ==> (team matches Some(t) && t != source.team)
    &&& source.affects is Allies ==> (team matches Some(t) && t == source.team) && entity
        != source.entity
    &&& source.affects is All ==> entity != source.entity
}

/// A target is due the status of every aura that covers it, and no status but from a
/// bearer whose aura covers it.
pub proof fn law_due_iff_covered(
    sources: Seq<AuraSource>,
    entity: Entity,
    team: Option<Team>,
    cells: Map<Entity, Hex>,
)
    ensures
        forall|k: int|
            0 <= k < sources.len() && is_covered_by(#[trigger] sources[k], entity, team, cells)
                ==> has_due(due(sources, entity, team, cells), sources[k].status@),
        forall|i: int|
            0 <= i < due(sources, entity, team, cells).len() ==> is_due_from(
                #[trigger] due(sources, entity, team, cells)[i],
                sources,
                entity,
                team,
                cells,
            ),
{
    let d = due(sources, entity, team, cells);
    assert forall|k: int| 0 <= k < sources.len() && is_covered_by(
        #[trigger] sources[k],
        entity,
        team,
        cells,
    ) implies has_due(d, sources[k].status@) by {
        law_reach_is_due(sources, entity, team, cells, k);
    }
    assert forall|i: int| 0 <= i < d.len() implies is_due_from(
        #[trigger] d[i],
        sources,
        entity,
        team,
        cells,
    ) by {
        law_due_has_a_source(sources, entity, team, cells, i);
        let k = choose|k: int|
            0 <= k < sources.len() && reaches(#[trigger] sources[k], entity, team, cells)
                && sources[k].entity == d[i].source && sources[k].status@ == d[i].status@;
        assert(is_covered_by(sources[k], entity, team, cells));
    }
}

/// Whether what is due is the status of an aura that covers a target, from its bearer.
pub open spec fn is_due_from(
    d: Due,
    sources: Seq<AuraSource>,
    entity: Entity,
    team: Option<Team>,
    cells: Map<Entity, Hex>,
) -> bool {
    exists|k: int|
        0 <= k < sources.len() && is_covered_by(#[trigger] sources[k], entity, team, cells)
            && sources[k].entity == d.source && sources[k].status@ == d.status@
}

/// Whether a status of a name is due.
pub open spec fn has_due(dues: Seq<Due>, status: Seq<char>) -> bool {
    exists|i: int| 0 <= i < dues.len() && (#[trigger] dues[i]).status@ == status
}

/// An aura against enemies is due on the other team within its radius, and on nobody
/// of the bearer's own team.
pub proof fn law_hostile_auras_spare_friends(
    sources: Seq<AuraSource>,
    foe: Entity,
    friend: Entity,
    foes: Team,
    friends: Team,
    cells: Map<Entity, Hex>,
    k: int,
)
    requires
        0 <= k < sources.len(),
        foes != friends,
        sources[k].team == friends,
        sources[k].affects is Enemies,
        !sources[k].is_dead,
        cells.contains_key(sources[k].entity),
        cells.contains_key(foe),
        distance(cells[sources[k].entity], cells[foe]) <= sources[k].radius,
        forall|j: int|
            0 <= j < sources.len() && (#[trigger] sources[j]).entity == sources[k].entity
                ==> sources[j].affects is Enemies && sources[j].team == friends,
    ensures
        has_due(due(sources, foe, Some(foes), cells), sources[k].status@),
        forall|i: int|
            0 <= i < due(sources, friend, Some(friends), cells).len() ==> (#[trigger] due(
                sources,
                friend,
                Some(friends),
                cells,
            )[i]).source != sources[k].entity,
{
    law_due_iff_covered(sources, foe, Some(foes), cells);
    law_due_iff_covered(sources, friend, Some(friends), cells);
    assert(is_covered_by(sources[k], foe, Some(foes), cells));
}

/// An aura for allies is due on the others of the bearer's team within its radius,
/// and never on the bearer nor on the other team.
pub proof fn law_friendly_auras_spare_foes(
    sources: Seq<AuraSource>,
    ally: Entity,
    foe: Entity,
    friends: Team,
    foes: Team,
    cells: Map<Entity, Hex>,
    k: int,
)
    requires
        0 <= k < sources.len(),
        foes != friends,
        ally != sources[k].entity,
        sources[k].team == friends,
        sources[k].affects is Allies,
        !sources[k].is_dead,
        cells.contains_key(sources[k].entity),
        cells.contains_key(ally),
        distance(cells[sources[k].entity], cells[ally]) <= sources[k].radius,
        forall|j: int|
            0 <= j < sources.len() && (#[trigger] sources[j]).entity == sources[k].entity
                ==> sources[j].affects is Allies && sources[j].team == friends,
    ensures
        has_due(due(sources, ally, Some(friends), cells), sources[k].status@),
        forall|i: int|
            0 <= i < due(sources, foe, Some(foes), cells).len() ==> (#[trigger] due(
                sources,
                foe,
                Some(foes),
                cells,
            )[i]).source != sources[k].entity,
        forall|i: int|
            0 <= i < due(sources, sources[k].entity, Some(friends), cells).len() ==> (
            #[trigger] due(sources, sources[k].entity, Some(friends), cells)[i]).source
                != sources[k].entity,
{
    law_due_iff_covered(sources, ally, Some(friends), cells);
    law_due_iff_covered(sources, foe, Some(foes), cells);
    law_due_iff_covered(sources, sources[k].entity, Some(friends), cells);
    assert(is_covered_by(sources[k], ally, Some(friends), cells));
}

/// Out of reach of a bearer, or once the bearer is dead, its statuses are gone: what a
/// living target has from a bearer of an aura is the status of an aura of that very
/// bearer that covers it now.
pub proof fn law_auras_fade(
    t: TargetModel,
    sources: Seq<AuraSource>,
    cells: Map<Entity, Hex>,
    i: int,
    b: int,
)
    requires
        !t.is_dead,
        0 <= i < after_auras(t, sources, cells).statuses.len(),
        0 <= b < sources.len(),
        after_auras(t, sources, cells).statuses[i].applier == Some(sources[b].entity),
    ensures
        exists|k: int|
            0 <= k < sources.len() && is_covered_by(#[trigger] sources[k], t.entity, t.team, cells)
                && sources[k].entity == sources[b].entity && sources[k].status@ == after_auras(
                t,
                sources,
                cells,
            ).statuses[i].id@,
{
    let after = after_auras(t, sources, cells).statuses;
    let dues = due(sources, t.entity, t.team, cells);
    law_auras(t, sources, cells);
    assert(bears_aura(sources, sources[b].entity));
    assert(is_from_aura(after[i], sources));
    let d = choose|d: int|
        0 <= d < dues.len() && (#[trigger] dues[d]).status@ == after[i].id@ && after[i].applier
            == Some(dues[d].source);
    law_due_iff_covered(sources, t.entity, t.team, cells);
    assert(is_due_from(dues[d], sources, t.entity, t.team, cells));
}

/// What did not come from a bearer of an aura stays on its target, and the dead are
/// left as they are.
pub proof fn law_auras_touch_nothing_else(
    t: TargetModel,
    sources: Seq<AuraSource>,
    cells: Map<Entity, Hex>,
    i: int,
)
    requires
        0 <= i < t.statuses.len(),
        forall|k: int|
            0 <= k < sources.len() ==> t.statuses[i].applier != Some(
                (#[trigger] sources[k]).entity,
            ),
    ensures
        after_auras(t, sources, cells).statuses.contains(t.statuses[i]),
        after_auras(t, sources, cells).entity == t.entity,
        after_auras(t, sources, cells).team == t.team,
        after_auras(t, sources, cells).is_dead == t.is_dead,
        t.is_dead ==> after_auras(t, sources, cells) == t,
{
    if !t.is_dead {
        let after = after_auras(t, sources, cells).statuses;
        law_auras(t, sources, cells);
        assert(!is_from_aura(t.statuses[i], sources));
        kept_outside_auras(t.statuses, sources, i);
        let part = not_from_aura(after, sources);
        let k = choose|k: int| 0 <= k < part.len() && part[k] == t.statuses[i];
        outside_auras_is_part(after, sources, k);
    }
}

proof fn kept_outside_auras(statuses: Seq<EcsStatus>, sources: Seq<AuraSource>, i: int)
    requires
        0 <= i < statuses.len(),
        !is_from_aura(statuses[i], sources),
    ensures
        not_from_aura(statuses, sources).contains(statuses[i]),
    decreases statuses.len(),
{
    let all = not_from_aura(statuses, sources);
    let rest = statuses.drop_last();
    if i == statuses.len() - 1 {
        assert(all[all.len() - 1] == statuses[i]);
    } else {
        kept_outside_auras(rest, sources, i);
        let before = not_from_aura(rest, sources);
        let k = choose|k: int| 0 <= k < before.len() && before[k] == rest[i];
        assert(all[k] == statuses[i]);
    }
}

proof fn outside_auras_is_part(statuses: Seq<EcsStatus>, sources: Seq<AuraSource>, k: int)
    requires
        0 <= k < not_from_aura(statuses, sources).len(),
    ensures
        statuses.contains(not_from_aura(statuses, sources)[k]),
    decreases statuses.len(),
{
    let all = not_from_aura(statuses, sources);
    let rest = statuses.drop_last();
    let before = not_from_aura(rest, sources);
    if k < before.len() {
        outside_auras_is_part(rest, sources, k);
        assert(all[k] == before[k]);
        let i = choose|i: int| 0 <= i < rest.len() && rest[i] == before[k];
        assert(statuses[i] == all[k]);
    } else {
        assert(statuses[statuses.len() - 1] == all[k]);
    }
}

/// What an aura newly puts on a target lasts a round and does no damage over time.
pub proof fn law_aura_status(d: Due)
    ensures
        aura_status(d).id == d.status,
        aura_status(d).applier == Some(d.source),
        aura_status(d).rounds_remaining == 1,
        aura_status(d).dot_per_tick == 0,
{
}

/// Every target is touched by the auras as if it were alone: the fallen not at all, and of the
/// living only their statuses.
pub proof fn law_each_target_by_itself(
    before: Seq<AuraTarget>,
    after: Seq<AuraTarget>,
    sources: Seq<AuraSource>,
    cells: Map<Entity, Hex>,
    i: int,
)
    requires
        all_after_auras(before, after, sources, cells),
        0 <= i < before.len(),
    ensures
        after.len() == before.len(),
        before[i].is_dead ==> after[i]@ == before[i]@,
        after[i].entity == before[i].entity,
        after[i].team == before[i].team,
        after[i].is_dead == before[i].is_dead,
        !before[i].is_dead ==> after[i]@.statuses == after_auras(
            before[i]@,
            sources,
            cells,
        ).statuses,
{
    assert(after[i]@ == after_auras(before[i]@, sources, cells));
}

} // verus!
