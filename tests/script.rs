use namekusei::script::{Instruction, Op, ScriptRunner};

fn program() -> Vec<Instruction> {
    vec![
        Instruction::Run { op: Op::SetLocal { slot: 0, constant: 2 } },
        Instruction::Run { op: Op::SetLocalImmediate { slot: 1, value: -5 } },
        Instruction::Delay { ticks: 2 },
        Instruction::Run { op: Op::CopyWithRandomAdjust { from: 0, to: 3 } },
        Instruction::Delay { ticks: 0 },
        Instruction::Run { op: Op::SetVectorRange { first: 4, count: 10, slot: 0 } },
    ]
}

#[test]
fn runs_up_to_each_delay_then_waits() {
    let mut r = ScriptRunner::new(program());
    assert!(!r.finished());
    assert_eq!(
        r.tick(),
        vec![Op::SetLocal { slot: 0, constant: 2 }, Op::SetLocalImmediate { slot: 1, value: -5 }]
    );
    assert!(r.tick().is_empty());
    assert!(r.tick().is_empty());
    assert_eq!(r.tick(), vec![Op::CopyWithRandomAdjust { from: 0, to: 3 }]);
    assert_eq!(r.tick(), vec![Op::SetVectorRange { first: 4, count: 10, slot: 0 }]);
    assert!(r.finished());
    assert!(r.tick().is_empty());
    assert!(r.finished());
}

#[test]
fn empty_script_is_finished_at_once() {
    let mut r = ScriptRunner::new(Vec::new());
    assert!(r.finished());
    assert!(r.tick().is_empty());
}

#[test]
fn leading_delay_holds_everything_back() {
    let mut r = ScriptRunner::new(vec![
        Instruction::Delay { ticks: 1 },
        Instruction::Run { op: Op::SetLocalImmediate { slot: 7, value: 1 } },
    ]);
    assert!(r.tick().is_empty());
    assert!(r.tick().is_empty());
    assert_eq!(r.tick(), vec![Op::SetLocalImmediate { slot: 7, value: 1 }]);
    assert!(r.finished());
}
