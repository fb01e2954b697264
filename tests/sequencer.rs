use namekusei::sequencer::{CameraMode, Cue, SequenceAction, SequenceEntry, Sequencer};

fn script() -> Vec<SequenceEntry> {
    vec![
        SequenceEntry {
            duration: 1,
            action: SequenceAction::CameraPan { mode: CameraMode::Linear, seed_offset: 5 },
        },
        SequenceEntry { duration: 0, action: SequenceAction::CameraSpeed { percent: 200 } },
        SequenceEntry { duration: 2, action: SequenceAction::SphereScale { amplitude: 3 } },
    ]
}

#[test]
fn empty_script_is_refused() {
    assert!(Sequencer::new(Vec::new(), 1).is_none());
}

#[test]
fn first_entry_begins_on_first_tick() {
    let mut q = Sequencer::new(script(), u32::MAX - 1).unwrap();
    assert_eq!(q.play_position(), 0);
    assert_eq!(q.delay_counter(), 0);
    // base seed plus offset wraps modulo 2^32
    assert_eq!(q.tick(), Some(Cue::Pan { mode: CameraMode::Linear, seed: 3 }));
    assert_eq!(q.play_position(), 1);
    assert_eq!(q.delay_counter(), 60);
}

#[test]
fn segments_follow_their_durations_and_loop() {
    let mut q = Sequencer::new(script(), 100).unwrap();
    let mut begun = Vec::new();
    for t in 1..=400u32 {
        if let Some(c) = q.tick() {
            begun.push((t, c));
        }
    }
    assert_eq!(
        begun,
        vec![
            (1, Cue::Pan { mode: CameraMode::Linear, seed: 105 }),
            (62, Cue::Speed { percent: 200 }),
            (63, Cue::SphereScale { amplitude: 3 }),
            (184, Cue::Pan { mode: CameraMode::Linear, seed: 105 }),
            (245, Cue::Speed { percent: 200 }),
            (246, Cue::SphereScale { amplitude: 3 }),
            (367, Cue::Pan { mode: CameraMode::Linear, seed: 105 }),
        ]
    );
}

#[test]
fn advance_collects_cues_of_each_tick() {
    let mut a = Sequencer::new(script(), 9).unwrap();
    let mut b = Sequencer::new(script(), 9).unwrap();
    let cues = a.advance(70);
    let mut one_by_one = Vec::new();
    for _ in 0..70 {
        if let Some(c) = b.tick() {
            one_by_one.push(c);
        }
    }
    assert_eq!(cues, one_by_one);
    assert_eq!(a.play_position(), b.play_position());
    assert_eq!(a.delay_counter(), b.delay_counter());
    assert!(a.advance(0).is_empty());
}

#[test]
fn full_cycle_returns_to_fresh_state_and_repeats() {
    let mut q = Sequencer::new(script(), 77).unwrap();
    // 61 + 1 + 121 ticks
    let cycle = q.cycle_length().unwrap();
    assert_eq!(cycle, 183);
    let first = q.advance(cycle);
    assert_eq!(q.play_position(), 0);
    assert_eq!(q.delay_counter(), 0);
    let second = q.advance(cycle);
    assert_eq!(first, second);
    assert_eq!(first.len(), 3);
}

#[test]
fn pivot_modes_carry_through() {
    let entries = vec![
        SequenceEntry {
            duration: 3,
            action: SequenceAction::CameraPan { mode: CameraMode::Pivot, seed_offset: 0 },
        },
        SequenceEntry {
            duration: 3,
            action: SequenceAction::CameraPan {
                mode: CameraMode::PivotWithMovingCenter,
                seed_offset: 1,
            },
        },
    ];
    let mut q = Sequencer::new(entries, 40).unwrap();
    let cues = q.advance(182);
    assert_eq!(
        cues,
        vec![
            Cue::Pan { mode: CameraMode::Pivot, seed: 40 },
            Cue::Pan { mode: CameraMode::PivotWithMovingCenter, seed: 41 },
        ]
    );
    assert_eq!(q.delay_counter(), 180);
}

#[test]
fn cycle_length_counts_each_beginning_tick() {
    let one = vec![SequenceEntry { duration: 0, action: SequenceAction::CameraSpeed { percent: 1 } }];
    assert_eq!(Sequencer::new(one, 0).unwrap().cycle_length(), Some(1));
    let long = vec![SequenceEntry { duration: u32::MAX, action: SequenceAction::SphereScale { amplitude: 0 } }];
    assert_eq!(Sequencer::new(long, 0).unwrap().cycle_length(), Some(u32::MAX as u64 * 60 + 1));
}
