//! The start of a combat, and the steps that one goes through.

use crate::events::CombatEvent;
use vstd::prelude::*;

verus! {

/// Steps of one pass over a combat, in this order.
#[derive(Clone, Copy, PartialEq, Eq, Structural, Hash, Debug)]
pub enum CombatStep {
    /// Turns begin; the fallen and the stunned are passed over.
    TurnStart,
    /// Players and the AI give commands.
    Command,
    /// Commands are carried out and shown.
    Execute,
    /// Messages pop up and the turn moves on.
    Finalize,
}

impl CombatStep {
    /// Place of a step in a pass.
    pub open spec fn rank(self) -> int {
        match self {
            CombatStep::TurnStart => 0,
            CombatStep::Command => 1,
            CombatStep::Execute => 2,
            CombatStep::Finalize => 3,
        }
    }

    /// The step that follows; `None` after the last.
    pub fn following(self) -> (r: Option<CombatStep>)
        ensures
            match r {
                Some(s) => s.rank() == self.rank() + 1,
                None => self.rank() == 3,
            },
    {
        match self {
            CombatStep::TurnStart => Some(CombatStep::Command),
            CombatStep::Command => Some(CombatStep::Execute),
            CombatStep::Execute => Some(CombatStep::Finalize),
            CombatStep::Finalize => None,
        }
    }
}

/// Round and encounter of the running combat.
#[derive(Clone, Copy, PartialEq, Eq, Structural, Debug)]
pub struct CombatContext {
    pub round: u32,
    pub encounter: Option<u64>,
}

/// Whether combat is started for the last of some requests, and nothing is done without
/// one.
pub open spec fn is_started(
    started: bool,
    requests: Seq<u64>,
    before: CombatContext,
    after: CombatContext,
    log_before: Seq<CombatEvent>,
    log_after: Seq<CombatEvent>,
) -> bool {
    &&& started == (requests.len() > 0)
    &&& started ==> {
        &&& after == (CombatContext { round: 0, encounter: Some(requests.last()) })
        &&& log_after == seq![CombatEvent::CombatStarted]
    }
    &&& !started ==> after == before && log_after == log_before
}

/// Starts combat for each request, in order: the last one counts. The result says
/// whether there was one; then nobody is active any more and combat is entered.
pub fn start_combat_system(
    requests: &Vec<u64>,
    ctx: &mut CombatContext,
    log: &mut Vec<CombatEvent>,
) -> (started: bool)
    ensures
        is_started(
            started,
            requests@,
            *old(ctx),
            *final(ctx),
            old(log)@,
            final(log)@,
        ),
{
    let mut i: usize = 0;
    while i < requests.len()
        invariant
            i <= requests@.len(),
            i == 0 ==> *ctx == *old(ctx) && log@ == old(log)@,
            i > 0 ==> {
                &&& *ctx == (CombatContext { round: 0, encounter: Some(requests@[i - 1]) })
                &&& log@ == seq![CombatEvent::CombatStarted]
            },
        decreases requests.len() - i,
    {
        ctx.round = 0;
        ctx.encounter = Some(requests[i]);
        log.clear();
        log.push(CombatEvent::CombatStarted);
        assert(log@ =~= seq![CombatEvent::CombatStarted]);
        i = i + 1;
    }
    requests.len() > 0
}

/// Combat starts if and only if somebody asks for it. It then starts anew for the last who
/// asked: before the first round, with nothing told but that it began.
pub proof fn law_combat_starts(
    started: bool,
    requests: Seq<u64>,
    before: CombatContext,
    after: CombatContext,
    log_before: Seq<CombatEvent>,
    log_after: Seq<CombatEvent>,
)
    requires
        is_started(started, requests, before, after, log_before, log_after),
    ensures
        started <==> requests.len() > 0,
        requests.len() == 0 ==> after == before && log_after == log_before,
        requests.len() > 0 ==> after.round == 0 && after.encounter == Some(
            requests[requests.len() - 1],
        ) && log_after.len() == 1 && log_after[0] is CombatStarted,
{
}

/// Steps follow each other from the start of turns over commands and their execution to the
/// end of a pass.
pub proof fn law_steps_in_order(a: CombatStep, b: CombatStep)
    ensures
        a.rank() == b.rank() ==> a == b,
        CombatStep::TurnStart.rank() < CombatStep::Command.rank() < CombatStep::Execute.rank()
            < CombatStep::Finalize.rank(),
        a.rank() <= CombatStep::Finalize.rank(),
        CombatStep::TurnStart.rank() <= a.rank(),
{
}

} // verus!
