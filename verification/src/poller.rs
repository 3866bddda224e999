use vstd::prelude::*;
use crate::action::Action;
use crate::store::MidiConfig;

verus! {

/// Logical, polarity-normalized level of a digital input line. The wiring is
/// active-low: electrical low means the button is pressed, and the caller
/// that reads the hardware translates low to `Asserted` before handing the
/// level to this module.
#[derive(Clone, Copy, PartialEq, Eq, Structural, Debug)]
pub enum LineLevel {
    Asserted,
    Deasserted,
}

/// What one poll of a line produced: a level, or a read error. A read error
/// never dispatches and never halts polling; the caller reports it and the
/// action sits this cycle out.
#[derive(Clone, Copy, PartialEq, Eq, Structural, Debug)]
pub enum LineReading {
    Level(LineLevel),
    ReadError,
}

/// Debounce phase of one action's line.
#[derive(Clone, Copy, PartialEq, Eq, Structural, Debug)]
pub enum DebouncePhase {
    /// Armed: an asserted level dispatches.
    Idle,
    /// Post-dispatch cooldown: line readings are ignored until the deadline.
    DeadTime,
}

/// Per-action debounce bookkeeping: the current phase and, while in
/// `DeadTime`, the time (in milliseconds) at which the cooldown ends. Owned
/// by the poller alone; never shared.
#[derive(Clone, Copy, PartialEq, Eq, Structural, Debug)]
pub struct LineState {
    pub phase: DebouncePhase,
    pub deadline: u64,
}

/// The debounce state machine, one step per poll cycle for one action.
///
/// * `Idle` + asserted level: dispatch, enter `DeadTime` until
///   `now + dead_time`.
/// * `Idle` + deasserted level or read error: stay `Idle`, no dispatch.
/// * `DeadTime` + `now >= deadline`: re-arm to `Idle`, ignoring the reading;
///   the next `Idle` cycle re-evaluates the raw level, so no edge is needed.
/// * `DeadTime` + `now < deadline`: ignore the reading entirely.
///
/// The step's inputs are only the state, the time and the line reading: what
/// the message sink later does with a dispatch cannot influence any
/// transition.
pub open spec fn spec_step(st: LineState, now: u64, reading: LineReading, dead_time: u64) -> (
    LineState,
    bool,
) {
    match st.phase {
        DebouncePhase::Idle => match reading {
            LineReading::Level(LineLevel::Asserted) => (
                LineState { phase: DebouncePhase::DeadTime, deadline: (now + dead_time) as u64 },
                true,
            ),
            _ => (st, false),
        },
        DebouncePhase::DeadTime => if now >= st.deadline {
            (LineState { phase: DebouncePhase::Idle, deadline: st.deadline }, false)
        } else {
            (st, false)
        },
    }
}

/// Executes one debounce step; returns the new state and whether to dispatch.
pub fn step(st: LineState, now: u64, reading: LineReading, dead_time: u64) -> (res: (
    LineState,
    bool,
))
    requires
        now + dead_time <= u64::MAX,
    ensures
        res == spec_step(st, now, reading, dead_time),
{
    match st.phase {
        DebouncePhase::Idle => match reading {
            LineReading::Level(LineLevel::Asserted) => (
                LineState { phase: DebouncePhase::DeadTime, deadline: now + dead_time },
                true,
            ),
            _ => (st, false),
        },
        DebouncePhase::DeadTime => if now >= st.deadline {
            (LineState { phase: DebouncePhase::Idle, deadline: st.deadline }, false)
        } else {
            (st, false)
        },
    }
}

/// The levels (or read errors) one poll cycle observed, one per action.
#[derive(Clone, Copy, PartialEq, Eq, Structural, Debug)]
pub struct CycleReadings {
    pub next: LineReading,
    pub previous: LineReading,
    pub custom: LineReading,
}

impl CycleReadings {
    pub open spec fn reading_of(self, a: Action) -> LineReading {
        match a {
            Action::Next => self.next,
            Action::Previous => self.previous,
            Action::Custom => self.custom,
        }
    }

    /// Convenience constructor for a cycle in which every line read the same.
    pub fn uniform(r: LineReading) -> (c: CycleReadings)
        ensures
            forall|a: Action| #[trigger] c.reading_of(a) == r,
    {
        CycleReadings { next: r, previous: r, custom: r }
    }
}

/// One outbound message the poller decided to send: the action that fired and
/// the payload the store mapped to it at dispatch time.
#[derive(Debug)]
pub struct Dispatch {
    pub action: Action,
    pub payload: String,
}

/// The input poller: per-action debounce state plus the fixed dead time (in
/// milliseconds). The poll interval between cycles is kept by the caller that
/// schedules `poll_cycle`; dead time for one action never delays sampling of
/// the others, because a cycle steps every action and sleeping happens
/// outside this type.
#[derive(Clone, Copy, PartialEq, Eq, Structural, Debug)]
pub struct Poller {
    pub dead_time: u64,
    pub next_line: LineState,
    pub previous_line: LineState,
    pub custom_line: LineState,
}

/// Whether action `a` fires in the cycle `(now, readings)` of poller `p`.
pub open spec fn spec_fires(p: Poller, now: u64, readings: CycleReadings, a: Action) -> bool {
    spec_step(p.state_of(a), now, readings.reading_of(a), p.dead_time).1
}

/// Which actions fire in one cycle, in the fixed action order: `Next`, then
/// `Previous`, then `Custom`.
pub open spec fn spec_fired_actions(p: Poller, now: u64, readings: CycleReadings) -> Seq<Action> {
    let s0 = Seq::<Action>::empty();
    let s1 = if spec_fires(p, now, readings, Action::Next) {
        s0.push(Action::Next)
    } else {
        s0
    };
    let s2 = if spec_fires(p, now, readings, Action::Previous) {
        s1.push(Action::Previous)
    } else {
        s1
    };
    if spec_fires(p, now, readings, Action::Custom) {
        s2.push(Action::Custom)
    } else {
        s2
    }
}

impl Poller {
    pub open spec fn state_of(self, a: Action) -> LineState {
        match a {
            Action::Next => self.next_line,
            Action::Previous => self.previous_line,
            Action::Custom => self.custom_line,
        }
    }

    /// A poller with every line armed and the given dead time.
    pub fn new(dead_time: u64) -> (p: Poller)
        ensures
            p.dead_time == dead_time,
            forall|a: Action| #[trigger] p.state_of(a) == (LineState {
                phase: DebouncePhase::Idle,
                deadline: 0,
            }),
    {
        let idle = LineState { phase: DebouncePhase::Idle, deadline: 0 };
        Poller { dead_time, next_line: idle, previous_line: idle, custom_line: idle }
    }

    /// One poll cycle: steps every action's debounce state in the fixed
    /// action order and returns the dispatches the cycle decided, each
    /// carrying the payload `config` maps to its action.
    ///
    /// `config` is a snapshot the caller copied out under the store's guard;
    /// no guard is held while this runs or while the dispatches are sent.
    pub fn poll_cycle(&mut self, now: u64, readings: CycleReadings, config: &MidiConfig) -> (out:
        Vec<Dispatch>)
        requires
            now + old(self).dead_time <= u64::MAX,
        ensures
            final(self).dead_time == old(self).dead_time,
            forall|a: Action|
                #[trigger] final(self).state_of(a) == spec_step(
                    old(self).state_of(a),
                    now,
                    readings.reading_of(a),
                    old(self).dead_time,
                ).0,
            out@.len() == spec_fired_actions(*old(self), now, readings).len(),
            forall|i: int|
                0 <= i < out@.len() ==> #[trigger] out@[i].action == spec_fired_actions(
                    *old(self),
                    now,
                    readings,
                )[i],
            forall|i: int|
                0 <= i < out@.len() ==> #[trigger] out@[i].payload@ == config.payload_of(
                    out@[i].action,
                ),
    {
        let mut out: Vec<Dispatch> = Vec::new();

        let (st, fire) = step(self.next_line, now, readings.next, self.dead_time);
        self.next_line = st;
        if fire {
            out.push(Dispatch { action: Action::Next, payload: config.get(Action::Next).clone() });
        }

        let (st, fire) = step(self.previous_line, now, readings.previous, self.dead_time);
        self.previous_line = st;
        if fire {
            out.push(
                Dispatch {
                    action: Action::Previous,
                    payload: config.get(Action::Previous).clone(),
                },
            );
        }

        let (st, fire) = step(self.custom_line, now, readings.custom, self.dead_time);
        self.custom_line = st;
        if fire {
            out.push(
                Dispatch { action: Action::Custom, payload: config.get(Action::Custom).clone() },
            );
        }

        proof {
            assert(out@.map_values(|d: Dispatch| d.action) =~= spec_fired_actions(
                *old(self),
                now,
                readings,
            ));
        }
        out
    }
}

/// One cycle of a single line's history: the time (in milliseconds) at which
/// the poller sampled and what the line read.
#[derive(Clone, Copy, PartialEq, Eq, Structural, Debug)]
pub struct Cycle {
    pub time: u64,
    pub reading: LineReading,
}

/// The dispatch decision of each cycle when the debounce machine starts in
/// `st` and is stepped through `cycles` in order.
pub open spec fn run_fires(st: LineState, cycles: Seq<Cycle>, dead_time: u64) -> Seq<bool>
    decreases cycles.len(),
{
    if cycles.len() == 0 {
        Seq::<bool>::empty()
    } else {
        let step0 = spec_step(st, cycles[0].time, cycles[0].reading, dead_time);
        seq![step0.1] + run_fires(step0.0, cycles.drop_first(), dead_time)
    }
}

/// How many entries of `s` are true.
pub open spec fn count_true(s: Seq<bool>) -> int
    decreases s.len(),
{
    if s.len() == 0 {
        0
    } else {
        (if s[0] {
            1int
        } else {
            0int
        }) + count_true(s.drop_first())
    }
}

/// Total number of dispatches in the run.
pub open spec fn run_count(st: LineState, cycles: Seq<Cycle>, dead_time: u64) -> int {
    count_true(run_fires(st, cycles, dead_time))
}

pub proof fn lemma_run_fires_len(st: LineState, cycles: Seq<Cycle>, dead_time: u64)
    ensures
        run_fires(st, cycles, dead_time).len() == cycles.len(),
    decreases cycles.len(),
{
    if cycles.len() > 0 {
        let step0 = spec_step(st, cycles[0].time, cycles[0].reading, dead_time);
        lemma_run_fires_len(step0.0, cycles.drop_first(), dead_time);
    }
}

/// Whatever state the machine starts in, a run in which no cycle reads an
/// asserted level dispatches nothing: only `Idle` + asserted fires.
pub proof fn lemma_no_assert_no_dispatch(st: LineState, cycles: Seq<Cycle>, dead_time: u64)
    requires
        forall|i: int|
            0 <= i < cycles.len() ==> cycles[i].reading != LineReading::Level(LineLevel::Asserted),
    ensures
        run_count(st, cycles, dead_time) == 0,
    decreases cycles.len(),
{
    if cycles.len() > 0 {
        let step0 = spec_step(st, cycles[0].time, cycles[0].reading, dead_time);
        let rest = run_fires(step0.0, cycles.drop_first(), dead_time);
        let fs = run_fires(st, cycles, dead_time);
        assert(fs == seq![step0.1] + rest);
        assert(fs[0] == step0.1);
        assert(fs.drop_first() =~= rest);
        assert(forall|i: int|
            0 <= i < cycles.drop_first().len() ==> #[trigger] cycles.drop_first()[i].reading
                != LineReading::Level(LineLevel::Asserted));
        lemma_no_assert_no_dispatch(step0.0, cycles.drop_first(), dead_time);
        assert(count_true(fs) == count_true(rest));
    }
}

/// A momentary press sampled in one cycle dispatches exactly once: if the
/// machine starts armed, the first cycle reads asserted and no later cycle
/// does (the button was released within the poll interval), the whole run
/// dispatches exactly once, however long it goes on.
pub proof fn lemma_single_pulse_dispatches_once(st: LineState, cycles: Seq<Cycle>, dead_time: u64)
    requires
        st.phase == DebouncePhase::Idle,
        cycles.len() >= 1,
        cycles[0].reading == LineReading::Level(LineLevel::Asserted),
        forall|i: int|
            1 <= i < cycles.len() ==> cycles[i].reading != LineReading::Level(LineLevel::Asserted),
    ensures
        run_count(st, cycles, dead_time) == 1,
{
    let step0 = spec_step(st, cycles[0].time, cycles[0].reading, dead_time);
    let rest = run_fires(step0.0, cycles.drop_first(), dead_time);
    let fs = run_fires(st, cycles, dead_time);
    assert(step0.1);
    assert(fs == seq![step0.1] + rest);
    assert(fs[0] == step0.1);
    assert(fs.drop_first() =~= rest);
    assert(forall|i: int|
        0 <= i < cycles.drop_first().len() ==> #[trigger] cycles.drop_first()[i].reading
            != LineReading::Level(LineLevel::Asserted));
    lemma_no_assert_no_dispatch(step0.0, cycles.drop_first(), dead_time);
    assert(count_true(fs) == 1 + count_true(rest));
}

/// With cycle times strictly increasing, a later cycle's time is larger.
pub proof fn lemma_times_increase(cycles: Seq<Cycle>, i: int, j: int)
    requires
        forall|k: int| 0 <= k < cycles.len() - 1 ==> #[trigger] cycles[k].time < cycles[k + 1].time,
        0 <= i < j < cycles.len(),
    ensures
        cycles[i].time < cycles[j].time,
    decreases j - i,
{
    if i + 1 < j {
        lemma_times_increase(cycles, i + 1, j);
    }
}

/// While the machine cools down toward `st.deadline`, nothing can dispatch
/// at or before that deadline: the run must first reach a cycle whose time
/// passes the deadline, that cycle only re-arms, and only a strictly later
/// cycle can fire.
pub proof fn lemma_dead_time_blocks(st: LineState, cycles: Seq<Cycle>, dead_time: u64, j: int)
    requires
        st.phase == DebouncePhase::DeadTime,
        forall|k: int| 0 <= k < cycles.len() - 1 ==> #[trigger] cycles[k].time < cycles[k + 1].time,
        0 <= j < cycles.len(),
        run_fires(st, cycles, dead_time)[j],
    ensures
        cycles[j].time > st.deadline,
    decreases cycles.len(),
{
    let step0 = spec_step(st, cycles[0].time, cycles[0].reading, dead_time);
    lemma_run_fires_len(step0.0, cycles.drop_first(), dead_time);
    assert(!step0.1);
    assert(j >= 1);
    assert(run_fires(st, cycles, dead_time)[j] == run_fires(
        step0.0,
        cycles.drop_first(),
        dead_time,
    )[j - 1]);
    assert(forall|k: int|
        0 <= k < cycles.drop_first().len() - 1 ==> #[trigger] cycles.drop_first()[k].time
            < cycles.drop_first()[k + 1].time);
    if cycles[0].time >= st.deadline {
        lemma_times_increase(cycles, 0, j);
    } else {
        assert(step0.0 == st);
        lemma_dead_time_blocks(st, cycles.drop_first(), dead_time, j - 1);
        assert(cycles.drop_first()[j - 1] == cycles[j]);
    }
}

/// Dispatches are spaced by at least the dead time: with cycle times
/// strictly increasing, a dispatch at cycle `i` forces every later dispatch
/// `j` to a time strictly beyond `cycles[i].time + dead_time`. The poller
/// therefore dispatches at most once per dead-time window — never once per
/// poll cycle — however long the line stays asserted.
pub proof fn lemma_dispatches_spaced_by_dead_time(
    st: LineState,
    cycles: Seq<Cycle>,
    dead_time: u64,
    i: int,
    j: int,
)
    requires
        forall|k: int| 0 <= k < cycles.len() - 1 ==> #[trigger] cycles[k].time < cycles[k + 1].time,
        0 <= i < j < cycles.len(),
        cycles[i].time + dead_time <= u64::MAX,
        run_fires(st, cycles, dead_time)[i],
        run_fires(st, cycles, dead_time)[j],
    ensures
        cycles[j].time > cycles[i].time + dead_time,
    decreases i,
{
    let step0 = spec_step(st, cycles[0].time, cycles[0].reading, dead_time);
    lemma_run_fires_len(step0.0, cycles.drop_first(), dead_time);
    assert(forall|k: int|
        0 <= k < cycles.drop_first().len() - 1 ==> #[trigger] cycles.drop_first()[k].time
            < cycles.drop_first()[k + 1].time);
    if i == 0 {
        assert(step0.1);
        assert(step0.0.phase == DebouncePhase::DeadTime);
        assert(step0.0.deadline == cycles[0].time + dead_time);
        lemma_dead_time_blocks(step0.0, cycles.drop_first(), dead_time, j - 1);
        assert(cycles.drop_first()[j - 1] == cycles[j]);
    } else {
        lemma_dispatches_spaced_by_dead_time(step0.0, cycles.drop_first(), dead_time, i - 1, j - 1);
        assert(cycles.drop_first()[i - 1] == cycles[i]);
        assert(cycles.drop_first()[j - 1] == cycles[j]);
    }
}

/// The machine's state after it has been stepped through all of `cycles`.
pub open spec fn state_after(st: LineState, cycles: Seq<Cycle>, dead_time: u64) -> LineState
    decreases cycles.len(),
{
    if cycles.len() == 0 {
        st
    } else {
        let step0 = spec_step(st, cycles[0].time, cycles[0].reading, dead_time);
        state_after(step0.0, cycles.drop_first(), dead_time)
    }
}

/// Running through a concatenation is running through the parts in turn.
pub proof fn lemma_state_after_concat(st: LineState, s1: Seq<Cycle>, s2: Seq<Cycle>, dead_time: u64)
    ensures
        state_after(st, s1 + s2, dead_time) == state_after(
            state_after(st, s1, dead_time),
            s2,
            dead_time,
        ),
    decreases s1.len(),
{
    if s1.len() == 0 {
        assert(s1 + s2 =~= s2);
    } else {
        let st1 = spec_step(st, s1[0].time, s1[0].reading, dead_time).0;
        assert((s1 + s2)[0] == s1[0]);
        assert((s1 + s2).drop_first() =~= s1.drop_first() + s2);
        lemma_state_after_concat(st1, s1.drop_first(), s2, dead_time);
    }
}

/// Stepping through one more cycle steps the state once more.
pub proof fn lemma_state_after_snoc(st: LineState, s: Seq<Cycle>, c: Cycle, dead_time: u64)
    ensures
        state_after(st, s.push(c), dead_time) == spec_step(
            state_after(st, s, dead_time),
            c.time,
            c.reading,
            dead_time,
        ).0,
    decreases s.len(),
{
    if s.len() == 0 {
        assert(s.push(c)[0] == c);
        assert(s.push(c).drop_first() =~= Seq::<Cycle>::empty());
        assert(state_after(
            spec_step(st, c.time, c.reading, dead_time).0,
            s.push(c).drop_first(),
            dead_time,
        ) == spec_step(st, c.time, c.reading, dead_time).0);
    } else {
        let st1 = spec_step(st, s[0].time, s[0].reading, dead_time).0;
        assert(s.push(c)[0] == s[0]);
        assert(s.push(c).drop_first() =~= s.drop_first().push(c));
        lemma_state_after_snoc(st1, s.drop_first(), c, dead_time);
    }
}

/// The dispatch decision of cycle `n` is the step out of the state the
/// preceding cycles left behind.
pub proof fn lemma_run_fires_at(st: LineState, cycles: Seq<Cycle>, dead_time: u64, n: int)
    requires
        0 <= n < cycles.len(),
    ensures
        run_fires(st, cycles, dead_time)[n] == spec_step(
            state_after(st, cycles.subrange(0, n), dead_time),
            cycles[n].time,
            cycles[n].reading,
            dead_time,
        ).1,
    decreases n,
{
    let step0 = spec_step(st, cycles[0].time, cycles[0].reading, dead_time);
    let rest = cycles.drop_first();
    lemma_run_fires_len(step0.0, rest, dead_time);
    if n == 0 {
        assert(cycles.subrange(0, 0) =~= Seq::<Cycle>::empty());
    } else {
        assert(run_fires(st, cycles, dead_time)[n] == run_fires(step0.0, rest, dead_time)[n - 1]);
        lemma_run_fires_at(step0.0, rest, dead_time, n - 1);
        assert(rest.subrange(0, n - 1) =~= cycles.subrange(1, n));
        assert(state_after(st, cycles.subrange(0, n), dead_time) == state_after(
            step0.0,
            cycles.subrange(1, n),
            dead_time,
        )) by {
            let pre = cycles.subrange(0, n);
            assert(pre[0] == cycles[0]);
            assert(pre.drop_first() =~= cycles.subrange(1, n));
        };
        assert(rest[n - 1] == cycles[n]);
    }
}

/// Cycles whose times all fall short of the cooldown deadline leave a
/// cooling-down machine exactly where it was, whatever the lines read.
pub proof fn lemma_dead_time_holds(st: LineState, cycles: Seq<Cycle>, dead_time: u64)
    requires
        st.phase == DebouncePhase::DeadTime,
        forall|m: int| 0 <= m < cycles.len() ==> #[trigger] cycles[m].time < st.deadline,
    ensures
        state_after(st, cycles, dead_time) == st,
    decreases cycles.len(),
{
    if cycles.len() > 0 {
        assert(spec_step(st, cycles[0].time, cycles[0].reading, dead_time).0 == st);
        assert(forall|m: int|
            0 <= m < cycles.drop_first().len() ==> #[trigger] cycles.drop_first()[m].time
                < st.deadline);
        lemma_dead_time_holds(st, cycles.drop_first(), dead_time);
    }
}

/// The other half of "exactly once per window": a dispatch at cycle `i`
/// opens a window ending at `cycles[i].time + dead_time`; if the cycles up
/// to `k` stay inside the window, cycle `k` is at or past its end, and the
/// line reads asserted at cycle `k + 1`, then cycle `k + 1` dispatches.
/// Together with `lemma_at_most_one_dispatch_per_window`, a continuously
/// asserted line yields one dispatch per window.
pub proof fn lemma_held_line_fires_when_window_closes(
    st: LineState,
    cycles: Seq<Cycle>,
    dead_time: u64,
    i: int,
    k: int,
)
    requires
        0 <= i < k,
        k + 1 < cycles.len(),
        cycles[i].time + dead_time <= u64::MAX,
        run_fires(st, cycles, dead_time)[i],
        forall|m: int| i < m < k ==> #[trigger] cycles[m].time < cycles[i].time + dead_time,
        cycles[k].time >= cycles[i].time + dead_time,
        cycles[k + 1].reading == LineReading::Level(LineLevel::Asserted),
    ensures
        run_fires(st, cycles, dead_time)[k + 1],
{
    lemma_run_fires_at(st, cycles, dead_time, i);
    let si = state_after(st, cycles.subrange(0, i), dead_time);
    let stepi = spec_step(si, cycles[i].time, cycles[i].reading, dead_time);
    assert(si.phase == DebouncePhase::Idle);
    let d: u64 = (cycles[i].time + dead_time) as u64;
    assert(stepi.0 == (LineState { phase: DebouncePhase::DeadTime, deadline: d }));

    assert(cycles.subrange(0, i + 1) =~= cycles.subrange(0, i).push(cycles[i]));
    lemma_state_after_snoc(st, cycles.subrange(0, i), cycles[i], dead_time);
    assert(state_after(st, cycles.subrange(0, i + 1), dead_time) == stepi.0);

    let mid = cycles.subrange(i + 1, k);
    assert(forall|m: int| 0 <= m < mid.len() ==> #[trigger] mid[m].time < d);
    assert(cycles.subrange(0, k) =~= cycles.subrange(0, i + 1) + mid);
    lemma_state_after_concat(st, cycles.subrange(0, i + 1), mid, dead_time);
    lemma_dead_time_holds(stepi.0, mid, dead_time);
    assert(state_after(st, cycles.subrange(0, k), dead_time) == stepi.0);

    let stepk = spec_step(stepi.0, cycles[k].time, cycles[k].reading, dead_time);
    assert(stepk.0.phase == DebouncePhase::Idle);
    assert(cycles.subrange(0, k + 1) =~= cycles.subrange(0, k).push(cycles[k]));
    lemma_state_after_snoc(st, cycles.subrange(0, k), cycles[k], dead_time);
    assert(state_after(st, cycles.subrange(0, k + 1), dead_time) == stepk.0);

    lemma_run_fires_at(st, cycles, dead_time, k + 1);
}

/// At most one dispatch per dead-time window: two dispatches within a
/// stretch of cycles spanning no more than the dead time must be the same
/// cycle. However long the line stays asserted, the poller cannot fire once
/// per poll cycle.
pub proof fn lemma_at_most_one_dispatch_per_window(
    st: LineState,
    cycles: Seq<Cycle>,
    dead_time: u64,
    i: int,
    j: int,
)
    requires
        forall|k: int| 0 <= k < cycles.len() - 1 ==> #[trigger] cycles[k].time < cycles[k + 1].time,
        0 <= i <= j < cycles.len(),
        cycles[i].time + dead_time <= u64::MAX,
        cycles[j].time <= cycles[i].time + dead_time,
        run_fires(st, cycles, dead_time)[i],
        run_fires(st, cycles, dead_time)[j],
    ensures
        i == j,
{
    if i < j {
        lemma_dispatches_spaced_by_dead_time(st, cycles, dead_time, i, j);
    }
}

/// A dispatch decision depends only on the line state, the clock and the
/// line reading — the sink's success or failure is not an input to the
/// machine. So however an earlier send fared, once a cycle at or past the
/// cooldown deadline has re-armed the line, the next cycle that reads an
/// asserted level dispatches again.
pub proof fn lemma_redispatch_after_dead_time(
    st: LineState,
    c1: Cycle,
    c2: Cycle,
    dead_time: u64,
)
    requires
        st.phase == DebouncePhase::DeadTime,
        c1.time >= st.deadline,
        c2.reading == LineReading::Level(LineLevel::Asserted),
    ensures
        spec_step(
            spec_step(st, c1.time, c1.reading, dead_time).0,
            c2.time,
            c2.reading,
            dead_time,
        ).1,
{
}

} // verus!
