use vstd::arithmetic::div_mod::lemma_fundamental_div_mod_converse;
use vstd::arithmetic::mul::lemma_mul_inequality;
use vstd::prelude::*;

use crate::random::{lcg_iter, mantissa_of, Rng};

verus! {

/// Output sample rate in samples per second.
pub const SAMPLE_RATE: usize = 44100;

/// Number of voices (base pitches) of the instrument bank.
pub const VOICE_COUNT: usize = 7;

/// Number of one-second blocks in which notes may start.
pub const BLOCK_COUNT: usize = 110;

/// Seed of the generator that decides which notes start.
pub const SCHEDULE_SEED: u32 = 1161249;

/// A note starts when the uniform draw `m / 2^23` exceeds `0.9f32`, whose
/// exact value is `7549747 / 2^23`; that is, when the mantissa `m` exceeds
/// this number.
pub const TRIGGER_MANTISSA: u32 = 7549747;

/// One started note: the voice whose waveform is mixed in, and the sample
/// offset at which mixing begins.
#[derive(PartialEq, Eq, Structural, Clone, Copy, Debug)]
pub struct NoteEvent {
    pub offset: usize,
    pub voice: usize,
}

/// Whether draw number `k` (counting from zero) of a generator seeded with
/// `seed` starts a note.
pub open spec fn draw_triggers(seed: u32, k: nat, threshold: u32) -> bool {
    mantissa_of(lcg_iter(seed, k + 1)) > threshold
}

/// The note that draw `k` stands for: block `k / voices`, voice `k % voices`.
pub open spec fn event_of_draw(k: nat, voices: nat, block_len: nat) -> NoteEvent {
    NoteEvent { offset: ((k / voices) * block_len) as usize, voice: (k % voices) as usize }
}

/// The notes that the first `n` draws start, in draw order. Draws go block
/// by block and, within a block, voice by voice.
pub open spec fn schedule_spec(seed: u32, n: nat, voices: nat, block_len: nat, threshold: u32) -> Seq<
    NoteEvent,
>
    decreases n,
{
    if n == 0 {
        seq![]
    } else {
        let prev = schedule_spec(seed, (n - 1) as nat, voices, block_len, threshold);
        if draw_triggers(seed, (n - 1) as nat, threshold) {
            prev.push(event_of_draw((n - 1) as nat, voices, block_len))
        } else {
            prev
        }
    }
}

/// Every note that the first `n` draws start names an existing voice, and
/// a block of `block_len` samples from its offset fits in `blocks` blocks.
pub proof fn lemma_schedule_bounds(
    seed: u32,
    n: nat,
    voices: nat,
    block_len: nat,
    threshold: u32,
    blocks: nat,
)
    requires
        voices > 0,
        n <= blocks * voices,
        blocks * block_len <= usize::MAX,
    ensures
        forall|i: int|
            0 <= i < schedule_spec(seed, n, voices, block_len, threshold).len() ==> {
                let e = #[trigger] schedule_spec(seed, n, voices, block_len, threshold)[i];
                &&& e.voice < voices
                &&& e.offset + block_len <= blocks * block_len
            },
    decreases n,
{
    if n > 0 {
        let k = (n - 1) as nat;
        lemma_schedule_bounds(seed, k, voices, block_len, threshold, blocks);
        let prev = schedule_spec(seed, k, voices, block_len, threshold);
        let cur = schedule_spec(seed, n, voices, block_len, threshold);
        let b = k / voices;
        assert(b + 1 <= blocks) by (nonlinear_arith)
            requires
                b == k / voices,
                voices > 0,
                k < blocks * voices,
        ;
        assert((b + 1) * block_len <= blocks * block_len) by (nonlinear_arith)
            requires
                b + 1 <= blocks,
        ;
        assert(b * block_len + block_len == (b + 1) * block_len) by (nonlinear_arith);
        assert forall|i: int| 0 <= i < cur.len() implies {
            let e = #[trigger] cur[i];
            &&& e.voice < voices
            &&& e.offset + block_len <= blocks * block_len
        } by {
            if i < prev.len() {
                assert(cur[i] == prev[i]);
            }
        }
    }
}

proof fn lemma_next_block(block: nat, blocks: nat, block_len: nat, voices: nat)
    requires
        block < blocks,
    ensures
        (block + 1) * block_len == block * block_len + block_len,
        (block + 1) * block_len <= blocks * block_len,
        (block + 1) * voices == block * voices + voices,
{
    lemma_mul_inequality(block as int + 1, blocks as int, block_len as int);
    assert((block + 1) * block_len == block * block_len + block_len) by (nonlinear_arith);
    assert((block + 1) * voices == block * voices + voices) by (nonlinear_arith);
}

/// Runs a generator seeded with `seed` for `blocks * voices` draws and
/// lists the notes they start: draw `k` starts voice `k % voices` at sample
/// `(k / voices) * block_len` when its mantissa exceeds `threshold`.
pub fn note_schedule(seed: u32, blocks: usize, voices: usize, block_len: usize, threshold: u32) -> (r:
    Vec<NoteEvent>)
    requires
        voices > 0,
        blocks * voices <= usize::MAX,
        blocks * block_len <= usize::MAX,
    ensures
        r@ == schedule_spec(seed, (blocks * voices) as nat, voices as nat, block_len as nat, threshold),
        forall|i: int|
            0 <= i < r@.len() ==> (#[trigger] r@[i]).voice < voices && r@[i].offset + block_len
                <= blocks * block_len,
{
    let ghost n: nat = (blocks * voices) as nat;
    let mut rng = Rng::with_seed(seed);
    let mut out: Vec<NoteEvent> = Vec::new();
    let mut block: usize = 0;
    let mut offset: usize = 0;
    while block < blocks
        invariant
            block <= blocks,
            voices > 0,
            blocks * voices <= usize::MAX,
            blocks * block_len <= usize::MAX,
            offset == block * block_len,
            rng.seed == lcg_iter(seed, (block * voices) as nat),
            out@ == schedule_spec(seed, (block * voices) as nat, voices as nat, block_len as nat, threshold),
        decreases blocks - block,
    {
        let mut voice: usize = 0;
        while voice < voices
            invariant
                block < blocks,
                voice <= voices,
                voices > 0,
                blocks * voices <= usize::MAX,
                offset == block * block_len,
                rng.seed == lcg_iter(seed, (block * voices + voice) as nat),
                out@ == schedule_spec(
                    seed,
                    (block * voices + voice) as nat,
                    voices as nat,
                    block_len as nat,
                    threshold,
                ),
            decreases voices - voice,
        {
            let ghost k: nat = (block * voices + voice) as nat;
            let m = rng.next_mantissa();
            proof {
                lemma_fundamental_div_mod_converse(k as int, voices as int, block as int, voice as int);
            }
            if m > threshold {
                out.push(NoteEvent { offset, voice });
            }
            assert(out@ == schedule_spec(seed, k + 1, voices as nat, block_len as nat, threshold));
            voice = voice + 1;
        }
        proof {
            lemma_next_block(block as nat, blocks as nat, block_len as nat, voices as nat);
        }
        offset = offset + block_len;
        block = block + 1;
    }
    proof {
        lemma_schedule_bounds(seed, n, voices as nat, block_len as nat, threshold, blocks as nat);
    }
    out
}

/// Seconds of pre-rendered waveform that each started note mixes in.
pub const VOICE_SECONDS: usize = 9;

/// Blocks in which notes may start in a buffer of `len` samples: at most
/// `BLOCK_COUNT`, and none so late that its note would run past the buffer.
pub open spec fn blocks_for(len: nat) -> nat {
    let seconds = len / SAMPLE_RATE as nat;
    if seconds <= VOICE_SECONDS {
        0
    } else if seconds - VOICE_SECONDS < BLOCK_COUNT {
        (seconds - VOICE_SECONDS) as nat
    } else {
        BLOCK_COUNT as nat
    }
}

proof fn lemma_note_fits(offset: nat, blocks: nat, len: nat)
    requires
        blocks == blocks_for(len),
        offset + SAMPLE_RATE <= blocks * SAMPLE_RATE,
    ensures
        offset + VOICE_SECONDS * SAMPLE_RATE <= len,
{
    let q = len / SAMPLE_RATE as nat;
    assert(q * SAMPLE_RATE <= len) by (nonlinear_arith)
        requires
            q == len / 44100,
    ;
    assert(blocks + VOICE_SECONDS <= q);
    assert(offset + VOICE_SECONDS * SAMPLE_RATE <= q * SAMPLE_RATE) by (nonlinear_arith)
        requires
            offset + 44100 <= blocks * 44100,
            blocks + 9 <= q,
    ;
}

/// The notes of a soundtrack of `len` samples: `blocks_for(len)` blocks of
/// one second, seven voices, drawn from `SCHEDULE_SEED` against
/// `TRIGGER_MANTISSA`. Every note ends inside the buffer.
pub fn soundtrack_schedule(len: usize) -> (r: Vec<NoteEvent>)
    ensures
        r@ == schedule_spec(
            SCHEDULE_SEED,
            (blocks_for(len as nat) * VOICE_COUNT) as nat,
            VOICE_COUNT as nat,
            SAMPLE_RATE as nat,
            TRIGGER_MANTISSA,
        ),
        forall|i: int|
            0 <= i < r@.len() ==> (#[trigger] r@[i]).voice < VOICE_COUNT && r@[i].offset
                + VOICE_SECONDS * SAMPLE_RATE <= len,
{
    let seconds = len / SAMPLE_RATE;
    let blocks = if seconds <= VOICE_SECONDS {
        0
    } else if seconds - VOICE_SECONDS < BLOCK_COUNT {
        seconds - VOICE_SECONDS
    } else {
        BLOCK_COUNT
    };
    let r = note_schedule(SCHEDULE_SEED, blocks, VOICE_COUNT, SAMPLE_RATE, TRIGGER_MANTISSA);
    assert forall|i: int| 0 <= i < r@.len() implies (#[trigger] r@[i]).voice < VOICE_COUNT
        && r@[i].offset + VOICE_SECONDS * SAMPLE_RATE <= len by {
        lemma_note_fits(r@[i].offset as nat, blocks as nat, len as nat);
    }
    r
}

} // verus!
