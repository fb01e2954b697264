use vstd::prelude::*;

verus! {

/// Ticks per duration unit of a segment (one beat lasts one second).
pub const TICKS_PER_BEAT: u64 = 60;

/// How the camera moves during a segment.
#[derive(PartialEq, Eq, Structural, Clone, Copy, Debug)]
pub enum CameraMode {
    /// Free flight along the velocity.
    Linear,
    /// Orbit around a fixed landmark.
    Pivot,
    /// Orbit around a freshly sampled point over land.
    PivotWithMovingCenter,
}

/// What a segment does when it begins.
#[derive(PartialEq, Eq, Structural, Clone, Copy, Debug)]
pub enum SequenceAction {
    /// Draw a new camera configuration for `mode` from the base seed plus
    /// `seed_offset`.
    CameraPan { mode: CameraMode, seed_offset: u32 },
    /// Scale the per-tick integration multiplier by `percent / 100`.
    CameraSpeed { percent: u32 },
    /// Set the amplitude by which spheres drift from their places.
    SphereScale { amplitude: u32 },
}

/// One authored segment: it lasts `duration` beats after it begins.
#[derive(PartialEq, Eq, Structural, Clone, Copy, Debug)]
pub struct SequenceEntry {
    pub duration: u32,
    pub action: SequenceAction,
}

/// What the caller must carry out on the tick at which a segment begins.
#[derive(PartialEq, Eq, Structural, Clone, Copy, Debug)]
pub enum Cue {
    /// Reseed a generator with `seed` and draw a camera configuration for `mode`.
    Pan { mode: CameraMode, seed: u32 },
    Speed { percent: u32 },
    SphereScale { amplitude: u32 },
}

/// The control state of the sequencer: the entry that begins next (or
/// began last) and the ticks left before the next one begins.
pub struct SeqState {
    pub position: nat,
    pub delay: nat,
}

/// Ticks that the delay counter is set to when `e` begins.
pub open spec fn delay_of(e: SequenceEntry) -> nat {
    (e.duration as nat * TICKS_PER_BEAT as nat) as nat
}

/// The seed of a pan cue: base seed plus offset, modulo 2^32.
pub open spec fn pan_seed(base_seed: u32, offset: u32) -> u32 {
    ((base_seed as int + offset as int) % 0x1_0000_0000) as u32
}

/// The cue that entry `e` gives when it begins.
pub open spec fn cue_of(e: SequenceEntry, base_seed: u32) -> Cue {
    match e.action {
        SequenceAction::CameraPan { mode, seed_offset } => Cue::Pan {
            mode,
            seed: pan_seed(base_seed, seed_offset),
        },
        SequenceAction::CameraSpeed { percent } => Cue::Speed { percent },
        SequenceAction::SphereScale { amplitude } => Cue::SphereScale { amplitude },
    }
}

/// One tick: with no delay left, the entry at the cursor begins, the cursor
/// moves on (back to the first entry after the last) and the delay becomes
/// that entry's length; otherwise the delay drops by one.
pub open spec fn step(entries: Seq<SequenceEntry>, s: SeqState) -> SeqState {
    if s.delay == 0 {
        SeqState {
            position: if s.position + 1 < entries.len() {
                s.position + 1
            } else {
                0
            },
            delay: delay_of(entries[s.position as int]),
        }
    } else {
        SeqState { position: s.position, delay: (s.delay - 1) as nat }
    }
}

/// The cue of one tick, if an entry begins on it.
pub open spec fn step_cue(entries: Seq<SequenceEntry>, base_seed: u32, s: SeqState) -> Option<Cue> {
    if s.delay == 0 {
        Some(cue_of(entries[s.position as int], base_seed))
    } else {
        None
    }
}

/// The state after `n` ticks.
pub open spec fn run(entries: Seq<SequenceEntry>, s: SeqState, n: nat) -> SeqState
    decreases n,
{
    if n == 0 {
        s
    } else {
        run(entries, step(entries, s), (n - 1) as nat)
    }
}

/// The cues of `n` ticks, in order.
pub open spec fn run_cues(entries: Seq<SequenceEntry>, base_seed: u32, s: SeqState, n: nat) -> Seq<
    Cue,
>
    decreases n,
{
    if n == 0 {
        seq![]
    } else {
        let head = match step_cue(entries, base_seed, s) {
            Some(c) => seq![c],
            None => seq![],
        };
        head + run_cues(entries, base_seed, step(entries, s), (n - 1) as nat)
    }
}

/// Ticks taken by the first `k` entries from the moment the first begins:
/// each lasts its delay plus the tick on which it begins.
pub open spec fn cycle_ticks(entries: Seq<SequenceEntry>, k: nat) -> nat
    decreases k,
{
    if k == 0 {
        0
    } else {
        cycle_ticks(entries, (k - 1) as nat) + delay_of(entries[k - 1]) + 1
    }
}

proof fn lemma_cycle_ticks_grows(entries: Seq<SequenceEntry>, j: nat, k: nat)
    requires
        j <= k,
    ensures
        cycle_ticks(entries, j) <= cycle_ticks(entries, k),
    decreases k - j,
{
    if j < k {
        lemma_cycle_ticks_grows(entries, j, (k - 1) as nat);
    }
}

/// The state in which the first entry begins on the next tick.
pub open spec fn fresh_state() -> SeqState {
    SeqState { position: 0, delay: 0 }
}

proof fn lemma_run_add(entries: Seq<SequenceEntry>, base_seed: u32, s: SeqState, a: nat, b: nat)
    ensures
        run(entries, s, a + b) == run(entries, run(entries, s, a), b),
        run_cues(entries, base_seed, s, a + b) == run_cues(entries, base_seed, s, a) + run_cues(
            entries,
            base_seed,
            run(entries, s, a),
            b,
        ),
    decreases a,
{
    if a == 0 {
        assert(run_cues(entries, base_seed, s, 0) + run_cues(entries, base_seed, s, b) == run_cues(
            entries,
            base_seed,
            s,
            b,
        ));
    } else {
        let t = step(entries, s);
        lemma_run_add(entries, base_seed, t, (a - 1) as nat, b);
        assert((a + b - 1) as nat == (a - 1) as nat + b);
        let head = match step_cue(entries, base_seed, s) {
            Some(c) => seq![c],
            None => seq![],
        };
        assert(head + (run_cues(entries, base_seed, t, (a - 1) as nat) + run_cues(
            entries,
            base_seed,
            run(entries, t, (a - 1) as nat),
            b,
        )) == (head + run_cues(entries, base_seed, t, (a - 1) as nat)) + run_cues(
            entries,
            base_seed,
            run(entries, t, (a - 1) as nat),
            b,
        ));
    }
}

proof fn lemma_countdown(entries: Seq<SequenceEntry>, position: nat, delay: nat)
    ensures
        run(entries, SeqState { position, delay }, delay) == (SeqState { position, delay: 0 }),
    decreases delay,
{
    if delay > 0 {
        lemma_countdown(entries, position, (delay - 1) as nat);
    }
}

proof fn lemma_cycle_prefix(entries: Seq<SequenceEntry>, k: nat)
    requires
        0 < k <= entries.len(),
    ensures
        run(entries, fresh_state(), cycle_ticks(entries, k)) == (SeqState {
            position: if k < entries.len() {
                k
            } else {
                0
            },
            delay: 0,
        }),
    decreases k,
{
    let p = (k - 1) as nat;
    let d = delay_of(entries[p as int]);
    let at_p = SeqState { position: p, delay: 0 };
    if p > 0 {
        lemma_cycle_prefix(entries, p);
    }
    assert(run(entries, fresh_state(), cycle_ticks(entries, p)) == at_p);
    lemma_run_add(entries, 0, fresh_state(), cycle_ticks(entries, p), d + 1);
    let next = step(entries, at_p);
    assert(run(entries, at_p, d + 1) == run(entries, next, d));
    lemma_countdown(entries, next.position, d);
}

/// The camera sequencer's control: an authored, non-empty list of entries
/// walked in a loop on a schedule of ticks.
pub struct Sequencer {
    entries: Vec<SequenceEntry>,
    base_seed: u32,
    play_position: usize,
    delay_counter: u64,
}

impl Sequencer {
    /// The entries, the base seed and the control state.
    pub closed spec fn entries(&self) -> Seq<SequenceEntry> {
        self.entries@
    }

    pub closed spec fn base_seed(&self) -> u32 {
        self.base_seed
    }

    pub closed spec fn state(&self) -> SeqState {
        SeqState { position: self.play_position as nat, delay: self.delay_counter as nat }
    }

    /// The cursor names an entry of a non-empty list.
    pub closed spec fn wf(&self) -> bool {
        &&& self.entries@.len() > 0
        &&& self.play_position < self.entries@.len()
    }

    /// A sequencer at the first entry with no delay, so that the first entry
    /// begins on the first tick; `None` for an empty list.
    pub fn new(entries: Vec<SequenceEntry>, base_seed: u32) -> (r: Option<Sequencer>)
        ensures
            entries@.len() == 0 <==> r is None,
            r matches Some(q) ==> {
                &&& q.wf()
                &&& q.entries() == entries@
                &&& q.base_seed() == base_seed
                &&& q.state() == (SeqState { position: 0, delay: 0 })
            },
    {
        if entries.len() == 0 {
            None
        } else {
            Some(Sequencer { entries, base_seed, play_position: 0, delay_counter: 0 })
        }
    }

    /// Index of the entry that begins next, or began last.
    pub fn play_position(&self) -> (r: usize)
        ensures
            r == self.state().position,
    {
        self.play_position
    }

    /// Ticks left before the next entry begins.
    pub fn delay_counter(&self) -> (r: u64)
        ensures
            r == self.state().delay,
    {
        self.delay_counter
    }

    /// Ticks in one full pass over the entries from the fresh state: each
    /// entry's delay plus the tick on which it begins. `None` when that
    /// number does not fit in a `u64`.
    pub fn cycle_length(&self) -> (r: Option<u64>)
        ensures
            r matches Some(c) ==> c == cycle_ticks(self.entries(), self.entries().len()),
            r is None ==> cycle_ticks(self.entries(), self.entries().len()) > u64::MAX,
    {
        let mut total: u64 = 0;
        let mut i: usize = 0;
        while i < self.entries.len()
            invariant
                i <= self.entries@.len(),
                total == cycle_ticks(self.entries@, i as nat),
            decreases self.entries@.len() - i,
        {
            let len = self.entries[i].duration as u64 * TICKS_PER_BEAT + 1;
            if total > u64::MAX - len {
                proof {
                    lemma_cycle_ticks_grows(self.entries@, (i + 1) as nat, self.entries@.len());
                }
                return None;
            }
            total = total + len;
            i = i + 1;
        }
        Some(total)
    }

    /// Advances by one tick; returns the cue of the entry that begins on it.
    pub fn tick(&mut self) -> (r: Option<Cue>)
        requires
            old(self).wf(),
        ensures
            final(self).wf(),
            final(self).entries() == old(self).entries(),
            final(self).base_seed() == old(self).base_seed(),
            final(self).state() == step(old(self).entries(), old(self).state()),
            r == step_cue(old(self).entries(), old(self).base_seed(), old(self).state()),
    {
        if self.delay_counter == 0 {
            let e = self.entries[self.play_position];
            let cue = match e.action {
                SequenceAction::CameraPan { mode, seed_offset } => Cue::Pan {
                    mode,
                    seed: self.base_seed.wrapping_add(seed_offset),
                },
                SequenceAction::CameraSpeed { percent } => Cue::Speed { percent },
                SequenceAction::SphereScale { amplitude } => Cue::SphereScale { amplitude },
            };
            self.play_position = if self.play_position < self.entries.len() - 1 {
                self.play_position + 1
            } else {
                0
            };
            self.delay_counter = e.duration as u64 * TICKS_PER_BEAT;
            Some(cue)
        } else {
            self.delay_counter = self.delay_counter - 1;
            None
        }
    }

    /// Advances by `ticks` ticks; returns the cues of the entries that begin
    /// on them, in order.
    pub fn advance(&mut self, ticks: u64) -> (r: Vec<Cue>)
        requires
            old(self).wf(),
        ensures
            final(self).wf(),
            final(self).entries() == old(self).entries(),
            final(self).base_seed() == old(self).base_seed(),
            final(self).state() == run(old(self).entries(), old(self).state(), ticks as nat),
            r@ == run_cues(old(self).entries(), old(self).base_seed(), old(self).state(), ticks as nat),
    {
        let ghost entries = self.entries();
        let ghost base = self.base_seed();
        let ghost start = self.state();
        let mut cues: Vec<Cue> = Vec::new();
        let mut done: u64 = 0;
        while done < ticks
            invariant
                done <= ticks,
                self.wf(),
                self.entries() == entries,
                self.base_seed() == base,
                run(entries, start, ticks as nat) == run(entries, self.state(), (ticks - done) as nat),
                run_cues(entries, base, start, ticks as nat) == cues@ + run_cues(
                    entries,
                    base,
                    self.state(),
                    (ticks - done) as nat,
                ),
            decreases ticks - done,
        {
            let ghost before = self.state();
            let ghost before_cues = cues@;
            let c = self.tick();
            match c {
                Some(cue) => {
                    cues.push(cue);
                },
                None => {},
            }
            proof {
                let rest = (ticks - done - 1) as nat;
                let tail = run_cues(entries, base, self.state(), rest);
                assert(run_cues(entries, base, before, rest + 1) == match step_cue(
                    entries,
                    base,
                    before,
                ) {
                    Some(x) => seq![x],
                    None => seq![],
                } + tail);
                match c {
                    Some(x) => {
                        assert(before_cues + (seq![x] + tail) == cues@ + tail);
                    },
                    None => {
                        assert(before_cues + (seq![] + tail) == cues@ + tail);
                    },
                }
            }
            done = done + 1;
        }
        assert(cues@ + run_cues(entries, base, self.state(), 0) == cues@);
        cues
    }
}

/// Running the sequencer from the fresh state for the summed length of all
/// its segments brings it back to the fresh state, so every later run
/// repeats the first: the cues of a full cycle followed by `n` more ticks are
/// those of the cycle followed by those of the first `n` ticks.
pub proof fn lemma_cycle_repeats(entries: Seq<SequenceEntry>, base_seed: u32, n: nat)
    requires
        entries.len() > 0,
    ensures
        run(entries, fresh_state(), cycle_ticks(entries, entries.len())) == fresh_state(),
        run_cues(entries, base_seed, fresh_state(), cycle_ticks(entries, entries.len()) + n)
            == run_cues(entries, base_seed, fresh_state(), cycle_ticks(entries, entries.len()))
            + run_cues(entries, base_seed, fresh_state(), n),
        run(entries, fresh_state(), cycle_ticks(entries, entries.len()) + n) == run(
            entries,
            fresh_state(),
            n,
        ),
{
    let c = cycle_ticks(entries, entries.len());
    lemma_cycle_prefix(entries, entries.len());
    lemma_run_add(entries, base_seed, fresh_state(), c, n);
}

} // verus!
