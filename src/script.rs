use vstd::prelude::*;

verus! {

/// An effect on the scene's script registers and sphere targets; the caller
/// carries it out.
#[derive(PartialEq, Eq, Structural, Clone, Copy, Debug)]
pub enum Op {
    /// Register `slot` takes the value of constant number `constant`.
    SetLocal { slot: u32, constant: u32 },
    /// Register `slot` takes `value`.
    SetLocalImmediate { slot: u32, value: i32 },
    /// Register `to` takes register `from` plus a fresh random adjustment.
    CopyWithRandomAdjust { from: u32, to: u32 },
    /// Spheres `first .. first + count` take the vector that starts at
    /// register `slot` as their target.
    SetVectorRange { first: u32, count: u32, slot: u32 },
}

/// One instruction of a script.
#[derive(PartialEq, Eq, Structural, Clone, Copy, Debug)]
pub enum Instruction {
    /// Nothing more runs for this many ticks.
    Delay { ticks: u32 },
    Run { op: Op },
}

/// Where a script stands: the next instruction and the ticks left before
/// it runs.
pub struct ScriptState {
    pub pc: nat,
    pub delay: nat,
}

/// Running from `pc` up to and including the next delay instruction, or to
/// the end: the effects met on the way, where it stops, and the delay that
/// the delay instruction sets (zero at the end).
pub open spec fn burst(program: Seq<Instruction>, pc: nat) -> (Seq<Op>, nat, nat)
    decreases program.len() - pc,
{
    if pc >= program.len() {
        (seq![], pc, 0)
    } else {
        match program[pc as int] {
            Instruction::Delay { ticks } => (seq![], pc + 1, ticks as nat),
            Instruction::Run { op } => {
                let (ops, end, delay) = burst(program, pc + 1);
                (seq![op] + ops, end, delay)
            },
        }
    }
}

/// One tick: a pending delay counts down; otherwise the instructions run up
/// to the next delay instruction. A finished script does nothing.
pub open spec fn script_step(program: Seq<Instruction>, s: ScriptState) -> (Seq<Op>, ScriptState) {
    if s.delay > 0 {
        (seq![], ScriptState { pc: s.pc, delay: (s.delay - 1) as nat })
    } else {
        let (ops, end, delay) = burst(program, s.pc);
        (ops, ScriptState { pc: end, delay })
    }
}

/// A script runner over a fixed program.
pub struct ScriptRunner {
    program: Vec<Instruction>,
    pc: usize,
    delay: u64,
}

impl ScriptRunner {
    pub closed spec fn program(&self) -> Seq<Instruction> {
        self.program@
    }

    pub closed spec fn state(&self) -> ScriptState {
        ScriptState { pc: self.pc as nat, delay: self.delay as nat }
    }

    /// The next instruction lies in the program or just past its end.
    pub closed spec fn wf(&self) -> bool {
        self.pc <= self.program@.len()
    }

    /// A runner at the first instruction, which runs on the first tick.
    pub fn new(program: Vec<Instruction>) -> (r: ScriptRunner)
        ensures
            r.wf(),
            r.program() == program@,
            r.state() == (ScriptState { pc: 0, delay: 0 }),
    {
        ScriptRunner { program, pc: 0, delay: 0 }
    }

    /// Whether every instruction has run and no delay is pending.
    pub fn finished(&self) -> (r: bool)
        requires
            self.wf(),
        ensures
            r == (self.state().pc == self.program().len() && self.state().delay == 0),
    {
        self.pc == self.program.len() && self.delay == 0
    }

    /// Advances by one tick; returns the effects to carry out, in order.
    pub fn tick(&mut self) -> (r: Vec<Op>)
        requires
            old(self).wf(),
        ensures
            final(self).wf(),
            final(self).program() == old(self).program(),
            (r@, final(self).state()) == script_step(old(self).program(), old(self).state()),
    {
        let mut ops: Vec<Op> = Vec::new();
        if self.delay > 0 {
            self.delay = self.delay - 1;
            return ops;
        }
        let ghost start = self.pc as nat;
        while self.pc < self.program.len()
            invariant
                self.program@ == old(self).program@,
                old(self).delay == 0,
                start == old(self).pc,
                self.pc <= self.program@.len(),
                self.delay == 0,
                start <= self.pc,
                burst(self.program@, start) == ({
                    let (rest, end, delay) = burst(self.program@, self.pc as nat);
                    (ops@ + rest, end, delay)
                }),
            decreases self.program@.len() - self.pc,
        {
            let ghost before = ops@;
            match self.program[self.pc] {
                Instruction::Delay { ticks } => {
                    self.pc = self.pc + 1;
                    self.delay = ticks as u64;
                    assert(before + seq![] == before);
                    return ops;
                },
                Instruction::Run { op } => {
                    ops.push(op);
                    let ghost (rest, end, delay) = burst(self.program@, (self.pc + 1) as nat);
                    assert(before + (seq![op] + rest) == ops@ + rest);
                    self.pc = self.pc + 1;
                },
            }
        }
        assert(ops@ + seq![] == ops@);
        ops
    }
}

} // verus!
