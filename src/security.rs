use vstd::prelude::*;

verus! {

/// How much the agent may do on its own.
#[derive(Clone, Copy, Debug, PartialEq, Eq, Structural)]
pub enum AutonomyLevel {
    /// No action may be taken.
    ReadOnly,
    /// Sensitive actions need a human's approval.
    Supervised,
    /// Actions run without approval.
    Full,
}

/// Length of the rate-limit window, in seconds.
pub const ACTION_WINDOW_SECS: u64 = 3600;

/// Budget used by `SecurityPolicy::default`.
pub const DEFAULT_MAX_ACTIONS_PER_HOUR: u32 = 20;

/// Autonomy level and a rolling hourly action budget.
///
/// `max_actions_per_hour` is `None` for "no limit"; `Some(0)` allows nothing.
/// `actions_in_window` counts what was recorded since `window_start`
/// (seconds).
pub struct SecurityPolicy {
    pub autonomy: AutonomyLevel,
    pub max_actions_per_hour: Option<u32>,
    pub actions_in_window: u32,
    pub window_start: u64,
}

/// Whether a call at `now` begins a new window.
pub open spec fn window_expired(window_start: u64, now: u64) -> bool {
    now >= window_start && now - window_start >= ACTION_WINDOW_SECS
}

/// What one `record_action` call at `now` does: the policy after it and the
/// answer.
pub open spec fn record_step(p: SecurityPolicy, now: u64) -> (SecurityPolicy, bool) {
    let expired = window_expired(p.window_start, now);
    let base: u32 = if expired {
        0
    } else {
        p.actions_in_window
    };
    let start: u64 = if expired {
        now
    } else {
        p.window_start
    };
    let allowed = match p.max_actions_per_hour {
        Some(m) => base < m,
        None => true,
    };
    let next: u32 = if allowed && base < u32::MAX {
        (base + 1) as u32
    } else {
        base
    };
    (SecurityPolicy { actions_in_window: next, window_start: start, ..p }, allowed)
}

/// The answers of successive `record_action` calls at the given times.
pub open spec fn record_all(p: SecurityPolicy, times: Seq<u64>) -> Seq<bool>
    decreases times.len(),
{
    if times.len() == 0 {
        Seq::empty()
    } else {
        let (q, r) = record_step(p, times[0]);
        seq![r] + record_all(q, times.drop_first())
    }
}

impl SecurityPolicy {
    pub open spec fn wf(&self) -> bool {
        self.max_actions_per_hour matches Some(m) ==> self.actions_in_window <= m
    }

    /// A policy whose first window opens at `now`, with nothing recorded yet.
    pub fn new(autonomy: AutonomyLevel, max_actions_per_hour: Option<u32>, now: u64) -> (r: Self)
        ensures
            r.autonomy == autonomy,
            r.max_actions_per_hour == max_actions_per_hour,
            r.actions_in_window == 0,
            r.window_start == now,
            r.wf(),
    {
        SecurityPolicy { autonomy, max_actions_per_hour, actions_in_window: 0, window_start: now }
    }

    /// Actions recorded in the current window.
    pub fn actions_in_window(&self) -> (r: u32)
        ensures
            r == self.actions_in_window,
    {
        self.actions_in_window
    }

    /// True unless the autonomy level is read-only.
    pub fn can_act(&self) -> (r: bool)
        ensures
            r == (self.autonomy != AutonomyLevel::ReadOnly),
    {
        self.autonomy != AutonomyLevel::ReadOnly
    }

    /// Takes one unit of the hourly budget at time `now` (seconds). Returns
    /// false, and records nothing, once the window's budget is spent. A call
    /// an hour or more after the window opened opens a new one.
    pub fn record_action(&mut self, now: u64) -> (r: bool)
        ensures
            (*final(self), r) == record_step(*old(self), now),
            old(self).wf() ==> final(self).wf(),
    {
        if now >= self.window_start && now - self.window_start >= ACTION_WINDOW_SECS {
            self.window_start = now;
            self.actions_in_window = 0;
        }
        let allowed = match self.max_actions_per_hour {
            Some(m) => self.actions_in_window < m,
            None => true,
        };
        if allowed && self.actions_in_window < u32::MAX {
            self.actions_in_window = self.actions_in_window + 1;
        }
        allowed
    }
}

impl Default for SecurityPolicy {
    fn default() -> (r: Self)
        ensures
            r.autonomy == AutonomyLevel::Supervised,
            r.max_actions_per_hour == Some(DEFAULT_MAX_ACTIONS_PER_HOUR),
            r.actions_in_window == 0,
            r.window_start == 0,
    {
        SecurityPolicy {
            autonomy: AutonomyLevel::Supervised,
            max_actions_per_hour: Some(DEFAULT_MAX_ACTIONS_PER_HOUR),
            actions_in_window: 0,
            window_start: 0,
        }
    }
}

/// Within one window, with `c` actions already recorded against a budget of
/// `m`, the `i`-th further call succeeds exactly when `c + i < m`.
pub proof fn lemma_record_all_in_window(p: SecurityPolicy, times: Seq<u64>, m: u32)
    requires
        p.max_actions_per_hour == Some(m),
        forall|i: int|
            0 <= i < times.len() ==> !window_expired(p.window_start, #[trigger] times[i]),
    ensures
        record_all(p, times).len() == times.len(),
        forall|i: int|
            0 <= i < times.len() ==> #[trigger] record_all(p, times)[i] == (p.actions_in_window
                + i < m),
    decreases times.len(),
{
    if times.len() > 0 {
        let (q, r) = record_step(p, times[0]);
        let rest = times.drop_first();
        assert forall|i: int| 0 <= i < rest.len() implies !window_expired(
            q.window_start,
            #[trigger] rest[i],
        ) by {
            assert(rest[i] == times[i + 1]);
        }
        lemma_record_all_in_window(q, rest, m);
        assert forall|i: int| 0 <= i < times.len() implies #[trigger] record_all(p, times)[i] == (
        p.actions_in_window + i < m) by {
            if i > 0 {
                assert(record_all(p, times)[i] == record_all(q, rest)[i - 1]);
            }
        }
    }
}

/// Rate limit: in one window that starts with nothing recorded, successive
/// `record_action` calls against a budget of `m` succeed exactly `min(n, m)`
/// times out of `n`: the first `m` calls succeed and every later one fails.
pub proof fn lemma_budget_is_exact(p: SecurityPolicy, times: Seq<u64>, m: u32)
    requires
        p.max_actions_per_hour == Some(m),
        p.actions_in_window == 0,
        forall|i: int|
            0 <= i < times.len() ==> !window_expired(p.window_start, #[trigger] times[i]),
    ensures
        record_all(p, times).len() == times.len(),
        forall|i: int| 0 <= i < times.len() ==> #[trigger] record_all(p, times)[i] == (i < m),
        record_all(p, times).filter(|b: bool| b).len() == if times.len() < m {
            times.len()
        } else {
            m as nat
        },
{
    lemma_record_all_in_window(p, times, m);
    let rs = record_all(p, times);
    let n = times.len();
    let k: int = if n < m {
        n as int
    } else {
        m as int
    };
    assert(rs =~= Seq::new(k as nat, |i: int| true) + Seq::new((n - k) as nat, |i: int| false));
    lemma_filter_trues_falses(k as nat, (n - k) as nat);
}

proof fn lemma_filter_trues_falses(a: nat, b: nat)
    ensures
        (Seq::new(a, |i: int| true) + Seq::new(b, |i: int| false)).filter(|x: bool| x).len() == a,
    decreases a + b,
{
    let s = Seq::new(a, |i: int| true) + Seq::new(b, |i: int| false);
    if b > 0 {
        lemma_filter_trues_falses(a, (b - 1) as nat);
        let t = Seq::new(a, |i: int| true) + Seq::new((b - 1) as nat, |i: int| false);
        assert(s =~= t.push(false));
        t.lemma_filter_push(false, |x: bool| x);
    } else if a > 0 {
        lemma_filter_trues_falses((a - 1) as nat, 0);
        let t = Seq::new((a - 1) as nat, |i: int| true) + Seq::new(0, |i: int| false);
        assert(s =~= t.push(true));
        t.lemma_filter_push(true, |x: bool| x);
    } else {
        assert(s =~= Seq::<bool>::empty());
        assert(s.filter(|x: bool| x) =~= Seq::<bool>::empty()) by {
            s.lemma_filter_len(|x: bool| x);
        }
    }
}

} // verus!
