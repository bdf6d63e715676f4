//! AURA vitality monitor: heartbeat ages decide which agents are laggards
//! and which are ghosts; a ghost's budget is frozen and its dissolution is
//! announced to every team. Instants are seconds since the Unix epoch.
use vstd::prelude::*;
use crate::ledger::{IntelligenceLedger, BudgetStatus, TransactionType};
use crate::text::owned;
use crate::vox::{VoxMessage, VoxPayload, CRITICAL_PRIORITY, fresh_message_id, fresh_uuid};

verus! {

/// Heartbeat age past which an agent is a laggard, in seconds.
pub const LAGGARD_THRESHOLD_SECS: i64 = 60;
/// Heartbeat age past which an agent is a ghost, in seconds.
pub const GHOST_THRESHOLD_SECS: i64 = 300;
/// Interval between two scans, in seconds.
pub const CHECK_INTERVAL_SECS: u64 = 30;

/// Vitality status of an agent.
#[derive(Clone, Copy, Debug, PartialEq, Eq, Structural)]
pub enum PulseStatus {
    Working,
    Idle,
    Laggard,
    Ghosted,
}

/// The last heartbeat of one agent.
#[derive(Clone, Debug)]
pub struct AuraPulse {
    pub agent_id: String,
    pub last_pulse: i64,
    pub status: PulseStatus,
}

/// What a scan does with one pulse.
#[derive(Clone, Copy, Debug, PartialEq, Eq, Structural)]
pub enum PulseVerdict {
    Keep,
    MarkLaggard,
    Dissolve,
}

/// The verdict on a pulse of age `age` (seconds) and status `status`.
pub open spec fn verdict_spec(age: int, status: PulseStatus) -> PulseVerdict {
    verdict_with(age, status, LAGGARD_THRESHOLD_SECS, GHOST_THRESHOLD_SECS)
}

/// The verdict on a pulse of age `age` (seconds) and status `status`, with
/// laggard threshold `lag` and ghost threshold `ghost`.
pub open spec fn verdict_with(age: int, status: PulseStatus, lag: i64, ghost: i64) -> PulseVerdict {
    if age > ghost {
        if status != PulseStatus::Ghosted { PulseVerdict::Dissolve } else { PulseVerdict::Keep }
    } else if age > lag {
        if status != PulseStatus::Laggard { PulseVerdict::MarkLaggard } else { PulseVerdict::Keep }
    } else {
        PulseVerdict::Keep
    }
}

/// The verdict on a pulse last seen at `last_pulse`, at `now`, with the
/// standard thresholds.
pub fn classify_pulse(last_pulse: i64, now: i64, status: PulseStatus) -> (r: PulseVerdict)
    ensures
        r == verdict_spec(now as int - last_pulse as int, status),
{
    classify_with(last_pulse, now, status, LAGGARD_THRESHOLD_SECS, GHOST_THRESHOLD_SECS)
}

/// The verdict on a pulse last seen at `last_pulse`, at `now`, with
/// laggard threshold `lag` and ghost threshold `ghost`.
pub fn classify_with(last_pulse: i64, now: i64, status: PulseStatus, lag: i64, ghost: i64) -> (r: PulseVerdict)
    ensures
        r == verdict_with(now as int - last_pulse as int, status, lag, ghost),
{
    let age: i128 = now as i128 - last_pulse as i128;
    if age > ghost as i128 {
        if status != PulseStatus::Ghosted { PulseVerdict::Dissolve } else { PulseVerdict::Keep }
    } else if age > lag as i128 {
        if status != PulseStatus::Laggard { PulseVerdict::MarkLaggard } else { PulseVerdict::Keep }
    } else {
        PulseVerdict::Keep
    }
}

/// Status of a pulse after its verdict.
pub open spec fn status_after(v: PulseVerdict, s: PulseStatus) -> PulseStatus {
    match v {
        PulseVerdict::Keep => s,
        PulseVerdict::MarkLaggard => PulseStatus::Laggard,
        PulseVerdict::Dissolve => PulseStatus::Ghosted,
    }
}

/// Whether `m` announces the dissolution of `agent`: a system alert with
/// action "dissolve_ghost" for every team, at critical priority.
pub open spec fn is_dissolution_alert(m: VoxMessage, agent: Seq<char>, now: i64) -> bool {
    &&& m.target_team@ == "all"@
    &&& m.priority == CRITICAL_PRIORITY
    &&& m.created_at == now
    &&& match m.payload {
        VoxPayload::SystemAlert { action, agent_id, reason } => {
            &&& action@ == "dissolve_ghost"@
            &&& agent_id == Some(agent_id.unwrap())
            &&& agent_id.unwrap()@ == agent
            &&& reason@ == "ghost_threshold_exceeded"@
        },
        _ => false,
    }
}

/// The vitality monitor.
pub struct AuraSentinel {
    pub laggard_threshold_secs: i64,
    pub ghost_threshold_secs: i64,
    pub check_interval_secs: u64,
}

impl AuraSentinel {
    /// A monitor with the standard thresholds.
    pub fn new() -> (r: Self)
        ensures
            r.laggard_threshold_secs == LAGGARD_THRESHOLD_SECS,
            r.ghost_threshold_secs == GHOST_THRESHOLD_SECS,
            r.check_interval_secs == CHECK_INTERVAL_SECS,
    {
        AuraSentinel {
            laggard_threshold_secs: LAGGARD_THRESHOLD_SECS,
            ghost_threshold_secs: GHOST_THRESHOLD_SECS,
            check_interval_secs: CHECK_INTERVAL_SECS,
        }
    }

    /// Dissolves the agent of `pulse`: marks it a ghost, freezes its budget
    /// (an agent without a budget has none to freeze) and returns the alert
    /// to broadcast.
    pub fn dissolve_ghost(&self, pulse: &mut AuraPulse, ledger: &mut IntelligenceLedger, now: i64) -> (r: VoxMessage)
        requires
            old(ledger).wf(),
        ensures
            final(ledger).wf(),
            final(pulse).status == PulseStatus::Ghosted,
            final(pulse).agent_id == old(pulse).agent_id,
            final(pulse).last_pulse == old(pulse).last_pulse,
            is_dissolution_alert(r, old(pulse).agent_id@, now),
            match old(ledger).budget_of(old(pulse).agent_id@) {
                Some(b) => final(ledger).budget_of(old(pulse).agent_id@) matches Some(nb) && nb.status == BudgetStatus::Frozen
                    && final(ledger).entries_view().drop_last() == old(ledger).entries_view()
                    && final(ledger).entries_view().len() == old(ledger).entries_view().len() + 1
                    && final(ledger).entries_view().last().transaction_type == TransactionType::SystemAudit
                    && final(ledger).entries_view().last().entity_id@ == old(pulse).agent_id@,
                None => *final(ledger) == *old(ledger),
            },
            forall|e: Seq<char>| e != old(pulse).agent_id@ ==> #[trigger] final(ledger).budget_of(e) == old(ledger).budget_of(e),
            old(ledger).all_within_cap() ==> final(ledger).all_within_cap(),
    {
        pulse.status = PulseStatus::Ghosted;
        let when: u64 = if now < 0 { 0 } else { now as u64 };
        let _ = ledger.freeze_budget(pulse.agent_id.as_str(), "AURA Dissolution: Agent became Ghost", when);
        VoxMessage {
            id: fresh_message_id(),
            sender: owned("system:aura"),
            target_team: owned("all"),
            priority: CRITICAL_PRIORITY,
            correlation_id: fresh_uuid(),
            payload: VoxPayload::SystemAlert {
                action: owned("dissolve_ghost"),
                agent_id: Some(pulse.agent_id.clone()),
                reason: owned("ghost_threshold_exceeded"),
            },
            created_at: now,
        }
    }

    /// One scan over `pulses` at `now`: laggards are marked, ghosts are
    /// dissolved. Returns the alerts to broadcast, one per dissolved agent,
    /// in the order of `pulses`.
    pub fn monitor_pulse_health(&self, pulses: &mut Vec<AuraPulse>, ledger: &mut IntelligenceLedger, now: i64) -> (r: Vec<
        VoxMessage,
    >)
        requires
            old(ledger).wf(),
        ensures
            final(ledger).wf(),
            final(pulses)@.len() == old(pulses)@.len(),
            forall|i: int| 0 <= i < old(pulses)@.len() ==> {
                let p = #[trigger] old(pulses)@[i];
                let v = verdict_with(now as int - p.last_pulse as int, p.status, self.laggard_threshold_secs, self.ghost_threshold_secs);
                &&& final(pulses)@[i].status == status_after(v, p.status)
                &&& final(pulses)@[i].agent_id == p.agent_id
                &&& final(pulses)@[i].last_pulse == p.last_pulse
            },
            forall|e: Seq<char>| dissolved_agents(old(pulses)@, now, self.laggard_threshold_secs, self.ghost_threshold_secs).contains(e) && old(ledger).budget_of(e) is Some ==> (
            #[trigger] final(ledger).budget_of(e) matches Some(b) && b.status == BudgetStatus::Frozen),
            forall|e: Seq<char>| !dissolved_agents(old(pulses)@, now, self.laggard_threshold_secs, self.ghost_threshold_secs).contains(e) ==> #[trigger] final(ledger).budget_of(e)
                == old(ledger).budget_of(e),
            final(ledger).entries_view().len() == old(ledger).entries_view().len() + audited_agents(old(pulses)@, now, self.laggard_threshold_secs, self.ghost_threshold_secs, *old(ledger)).len(),
            final(ledger).entries_view().subrange(0, old(ledger).entries_view().len() as int) == old(ledger).entries_view(),
            forall|i: int| 0 <= i < audited_agents(old(pulses)@, now, self.laggard_threshold_secs, self.ghost_threshold_secs, *old(ledger)).len() ==> {
                let x = #[trigger] final(ledger).entries_view()[old(ledger).entries_view().len() + i];
                x.transaction_type == TransactionType::SystemAudit && x.entity_id@ == audited_agents(old(pulses)@, now, self.laggard_threshold_secs, self.ghost_threshold_secs, *old(ledger))[i]
            },
            r@.len() == dissolved_agents(old(pulses)@, now, self.laggard_threshold_secs, self.ghost_threshold_secs).len(),
            forall|k: int| 0 <= k < r@.len() ==> is_dissolution_alert(#[trigger] r@[k], dissolved_agents(old(pulses)@, now, self.laggard_threshold_secs, self.ghost_threshold_secs)[k], now),
            old(ledger).all_within_cap() ==> final(ledger).all_within_cap(),
    {
        let mut alerts: Vec<VoxMessage> = Vec::new();
        let mut i: usize = 0;
        while i < pulses.len()
            invariant
                ledger.wf(),
                pulses@.len() == old(pulses)@.len(),
                i <= pulses@.len(),
                forall|k: int| i <= k < pulses@.len() ==> pulses@[k] == old(pulses)@[k],
                forall|k: int| 0 <= k < i ==> {
                    let p = #[trigger] old(pulses)@[k];
                    let v = verdict_with(now as int - p.last_pulse as int, p.status, self.laggard_threshold_secs, self.ghost_threshold_secs);
                    &&& pulses@[k].status == status_after(v, p.status)
                    &&& pulses@[k].agent_id == p.agent_id
                    &&& pulses@[k].last_pulse == p.last_pulse
                },
                alerts@.len() == dissolved_agents(old(pulses)@.subrange(0, i as int), now, self.laggard_threshold_secs, self.ghost_threshold_secs).len(),
                forall|k: int| 0 <= k < alerts@.len() ==> is_dissolution_alert(
                    #[trigger] alerts@[k],
                    dissolved_agents(old(pulses)@.subrange(0, i as int), now, self.laggard_threshold_secs, self.ghost_threshold_secs)[k],
                    now,
                ),
                old(ledger).all_within_cap() ==> ledger.all_within_cap(),
                forall|e: Seq<char>| dissolved_agents(old(pulses)@.subrange(0, i as int), now, self.laggard_threshold_secs, self.ghost_threshold_secs).contains(e) && old(ledger).budget_of(e)
                    is Some ==> (#[trigger] ledger.budget_of(e) matches Some(b) && b.status == BudgetStatus::Frozen),
                forall|e: Seq<char>| !dissolved_agents(old(pulses)@.subrange(0, i as int), now, self.laggard_threshold_secs, self.ghost_threshold_secs).contains(e) ==> #[trigger] ledger.budget_of(e)
                    == old(ledger).budget_of(e),
                forall|e: Seq<char>| (#[trigger] ledger.budget_of(e) is Some) == (old(ledger).budget_of(e) is Some),
                ledger.entries_view().len() == old(ledger).entries_view().len() + audited_agents(old(pulses)@.subrange(0, i as int), now, self.laggard_threshold_secs, self.ghost_threshold_secs, *old(ledger)).len(),
                ledger.entries_view().subrange(0, old(ledger).entries_view().len() as int) == old(ledger).entries_view(),
                forall|j: int| 0 <= j < audited_agents(old(pulses)@.subrange(0, i as int), now, self.laggard_threshold_secs, self.ghost_threshold_secs, *old(ledger)).len() ==> {
                    let x = #[trigger] ledger.entries_view()[old(ledger).entries_view().len() + j];
                    x.transaction_type == TransactionType::SystemAudit && x.entity_id@ == audited_agents(
                        old(pulses)@.subrange(0, i as int),
                        now,
                        self.laggard_threshold_secs, self.ghost_threshold_secs,
                        *old(ledger),
                    )[j]
                },
            decreases pulses@.len() - i,
        {
            proof {
                assert(old(pulses)@.subrange(0, i as int + 1).drop_last() =~= old(pulses)@.subrange(0, i as int));
            }
            let verdict = classify_with(pulses[i].last_pulse, now, pulses[i].status, self.laggard_threshold_secs, self.ghost_threshold_secs);
            match verdict {
                PulseVerdict::Keep => {},
                PulseVerdict::MarkLaggard => {
                    let p = AuraPulse { agent_id: pulses[i].agent_id.clone(), last_pulse: pulses[i].last_pulse, status: PulseStatus::Laggard };
                    pulses.set(i, p);
                },
                PulseVerdict::Dissolve => {
                    let mut p = AuraPulse { agent_id: pulses[i].agent_id.clone(), last_pulse: pulses[i].last_pulse, status: pulses[i].status };
                    let ghost l0 = *ledger;
                    let alert = self.dissolve_ghost(&mut p, ledger, now);
                    proof {
                        let a = old(pulses)@[i as int].agent_id@;
                        let ol = old(ledger).entries_view().len();
                        let au0 = audited_agents(old(pulses)@.subrange(0, i as int), now, self.laggard_threshold_secs, self.ghost_threshold_secs, *old(ledger));
                        let au1 = audited_agents(old(pulses)@.subrange(0, i as int + 1), now, self.laggard_threshold_secs, self.ghost_threshold_secs, *old(ledger));
                        assert(l0.budget_of(a) is Some == old(ledger).budget_of(a) is Some);
                        if old(ledger).budget_of(a) is Some {
                            assert(au1 == au0.push(a));
                            let fe = ledger.entries_view();
                            assert(fe.drop_last() == l0.entries_view());
                            assert forall|j: int| 0 <= j < au1.len() implies {
                                let x = #[trigger] ledger.entries_view()[ol + j];
                                x.transaction_type == TransactionType::SystemAudit && x.entity_id@ == au1[j]
                            } by {
                                if j < au0.len() {
                                    assert(fe[ol + j] == l0.entries_view()[ol + j]);
                                } else {
                                    assert(fe[ol + j] == fe.last());
                                }
                            }
                            assert(fe.subrange(0, ol as int) =~= l0.entries_view().subrange(0, ol as int));
                        } else {
                            assert(au1 == au0);
                        }
                        assert forall|e: Seq<char>| (#[trigger] ledger.budget_of(e) is Some) == (old(ledger).budget_of(e) is Some) by {
                            assert(l0.budget_of(e) is Some == old(ledger).budget_of(e) is Some);
                        }
                    }
                    proof {
                        let a = old(pulses)@[i as int].agent_id@;
                        let d0 = dissolved_agents(old(pulses)@.subrange(0, i as int), now, self.laggard_threshold_secs, self.ghost_threshold_secs);
                        let d1 = dissolved_agents(old(pulses)@.subrange(0, i as int + 1), now, self.laggard_threshold_secs, self.ghost_threshold_secs);
                        assert(d1 == d0.push(a));
                        assert forall|e: Seq<char>| d1.contains(e) && old(ledger).budget_of(e) is Some implies (
                        #[trigger] ledger.budget_of(e) matches Some(b) && b.status == BudgetStatus::Frozen) by {
                            if e != a {
                                assert(d0.contains(e)) by {
                                    let x = choose|x: int| 0 <= x < d1.len() && d1[x] == e;
                                    assert(x < d0.len());
                                    assert(d0[x] == e);
                                }
                            } else if !d0.contains(e) {
                                assert(l0.budget_of(e) == old(ledger).budget_of(e));
                            }
                        }
                        assert forall|e: Seq<char>| !d1.contains(e) implies #[trigger] ledger.budget_of(e) == old(ledger).budget_of(e) by {
                            assert(d1[d1.len() - 1] == a);
                            if d0.contains(e) {
                                let x = choose|x: int| 0 <= x < d0.len() && d0[x] == e;
                                assert(d1[x] == e);
                            }
                        }
                    }
                    pulses.set(i, p);
                    alerts.push(alert);
                },
            }
            i = i + 1;
        }
        proof {
            assert(old(pulses)@.subrange(0, i as int) =~= old(pulses)@);
        }
        alerts
    }
}

/// The agents of the pulses in `s` dissolved by a scan at `now` that have
/// a budget in `l`, in order: one audit entry is written for each.
pub open spec fn audited_agents(s: Seq<AuraPulse>, now: i64, lag: i64, ghost: i64, l: IntelligenceLedger) -> Seq<Seq<char>>
    decreases s.len(),
{
    if s.len() == 0 {
        seq![]
    } else if verdict_with(now as int - s.last().last_pulse as int, s.last().status, lag, ghost) == PulseVerdict::Dissolve
        && l.budget_of(s.last().agent_id@) is Some {
        audited_agents(s.drop_last(), now, lag, ghost, l).push(s.last().agent_id@)
    } else {
        audited_agents(s.drop_last(), now, lag, ghost, l)
    }
}

/// The agents of the pulses in `s` dissolved by a scan at `now`, in order.
pub open spec fn dissolved_agents(s: Seq<AuraPulse>, now: i64, lag: i64, ghost: i64) -> Seq<Seq<char>>
    decreases s.len(),
{
    if s.len() == 0 {
        seq![]
    } else if verdict_with(now as int - s.last().last_pulse as int, s.last().status, lag, ghost) == PulseVerdict::Dissolve {
        dissolved_agents(s.drop_last(), now, lag, ghost).push(s.last().agent_id@)
    } else {
        dissolved_agents(s.drop_last(), now, lag, ghost)
    }
}

} // verus!
