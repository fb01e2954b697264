use vstd::prelude::*;

use crate::random::{lcg_step, mantissa_of, Rng, MANTISSA_RANGE};

verus! {

/// Cells along each side of the heightfield.
pub const GRID_SIZE: usize = 512;

/// A uniform draw `m / 2^23` scaled by `GRID_SIZE` and truncated is
/// `m >> CELL_SHIFT`, exactly, since 512 = 2^9 and 23 - 9 = 14.
pub const CELL_SHIFT: u32 = 14;

/// The grid column or row that a draw with mantissa `m` falls in.
pub open spec fn cell_of(m: u32) -> nat {
    m as nat / 0x4000
}

/// Index in the row-major heightfield of the cell under the point drawn as
/// (`x`, `z`).
pub open spec fn cell_index(x: u32, z: u32) -> nat {
    cell_of(z) * GRID_SIZE as nat + cell_of(x)
}

/// The column or row of a draw: `floor(m / 2^23 * 512)`.
pub fn cell_of_draw(m: u32) -> (r: usize)
    requires
        m < MANTISSA_RANGE,
    ensures
        r == cell_of(m),
        r < GRID_SIZE,
{
    assert(m >> 14u32 == m / 0x4000) by (bit_vector);
    (m >> CELL_SHIFT) as usize
}

/// A point accepted by the sampler: the mantissas of its two uniform draws
/// (the point is their values over 2^23) and the cell it falls in.
#[derive(PartialEq, Eq, Structural, Clone, Copy, Debug)]
pub struct Placement {
    pub x_mantissa: u32,
    pub z_mantissa: u32,
    pub cell: usize,
}

/// One try from state `seed`: the two draws, the point they make and the
/// state after them.
pub open spec fn attempt(seed: u32) -> (Placement, u32) {
    let s1 = lcg_step(seed);
    let s2 = lcg_step(s1);
    let x = mantissa_of(s1);
    let z = mantissa_of(s2);
    (Placement { x_mantissa: x, z_mantissa: z, cell: cell_index(x, z) as usize }, s2)
}

/// Rejection sampling with at most `tries` tries: the first point whose cell
/// is land, with the generator state after it; `None` (and the state after
/// all tries) when no try lands.
pub open spec fn sample_spec(land: Seq<bool>, seed: u32, tries: nat) -> (Option<Placement>, u32)
    decreases tries,
{
    if tries == 0 {
        (None, seed)
    } else {
        let (p, next) = attempt(seed);
        if land[p.cell as int] {
            (Some(p), next)
        } else {
            sample_spec(land, next, (tries - 1) as nat)
        }
    }
}

/// Places `count` points one after the other from state `seed`; `None` as
/// soon as one of them finds no land within `tries` tries.
pub open spec fn place_spec(land: Seq<bool>, seed: u32, count: nat, tries: nat) -> (Option<
    Seq<Placement>,
>, u32)
    decreases count,
{
    if count == 0 {
        (Some(seq![]), seed)
    } else {
        let (prev, s) = place_spec(land, seed, (count - 1) as nat, tries);
        match prev {
            None => (None, s),
            Some(ps) => {
                let (p, s2) = sample_spec(land, s, tries);
                match p {
                    None => (None, s2),
                    Some(q) => (Some(ps.push(q)), s2),
                }
            },
        }
    }
}

proof fn lemma_place_failure_sticks(land: Seq<bool>, seed: u32, k: nat, count: nat, tries: nat)
    requires
        k <= count,
        place_spec(land, seed, k, tries).0 is None,
    ensures
        place_spec(land, seed, count, tries) == place_spec(land, seed, k, tries),
    decreases count - k,
{
    if k < count {
        lemma_place_failure_sticks(land, seed, k, (count - 1) as nat, tries);
    }
}

/// Draws points (x, then z) until one falls in a cell marked as land, at
/// most `max_tries` times.
pub fn sample_land_cell(rng: &mut Rng, land: &Vec<bool>, max_tries: u32) -> (r: Option<Placement>)
    requires
        land@.len() == GRID_SIZE * GRID_SIZE,
    ensures
        (r, final(rng).seed) == sample_spec(land@, old(rng).seed, max_tries as nat),
{
    let mut left: u32 = max_tries;
    while left > 0
        invariant
            land@.len() == GRID_SIZE * GRID_SIZE,
            sample_spec(land@, old(rng).seed, max_tries as nat) == sample_spec(
                land@,
                rng.seed,
                left as nat,
            ),
        decreases left,
    {
        let x = rng.next_mantissa();
        let z = rng.next_mantissa();
        let cx = cell_of_draw(x);
        let cz = cell_of_draw(z);
        let cell = cz * GRID_SIZE + cx;
        if land[cell] {
            return Some(Placement { x_mantissa: x, z_mantissa: z, cell });
        }
        left = left - 1;
    }
    None
}

/// Places `count` points one after the other, each by `sample_land_cell`;
/// `None` when one of them finds no land.
pub fn place_on_land(rng: &mut Rng, land: &Vec<bool>, count: usize, max_tries: u32) -> (r: Option<
    Vec<Placement>,
>)
    requires
        land@.len() == GRID_SIZE * GRID_SIZE,
    ensures
        (match r {
            Some(v) => Some(v@),
            None => None,
        }, final(rng).seed) == place_spec(land@, old(rng).seed, count as nat, max_tries as nat),
{
    let mut out: Vec<Placement> = Vec::new();
    let mut i: usize = 0;
    while i < count
        invariant
            i <= count,
            land@.len() == GRID_SIZE * GRID_SIZE,
            place_spec(land@, old(rng).seed, i as nat, max_tries as nat) == (Some(out@), rng.seed),
        decreases count - i,
    {
        let ghost prefix = out@;
        let sampled = sample_land_cell(rng, land, max_tries);
        assert(place_spec(land@, old(rng).seed, (i + 1) as nat, max_tries as nat) == match sampled {
            Some(p) => (Some(prefix.push(p)), rng.seed),
            None => (None, rng.seed),
        });
        match sampled {
            Some(p) => {
                out.push(p);
            },
            None => {
                proof {
                    lemma_place_failure_sticks(
                        land@,
                        old(rng).seed,
                        (i + 1) as nat,
                        count as nat,
                        max_tries as nat,
                    );
                }
                return None;
            },
        }
        i = i + 1;
    }
    Some(out)
}

/// Every point that the sampler accepts lies in a cell marked as land, and
/// that cell is the one under its two draws.
pub proof fn lemma_sample_on_land(land: Seq<bool>, seed: u32, tries: nat)
    requires
        land.len() == GRID_SIZE * GRID_SIZE,
    ensures
        sample_spec(land, seed, tries).0 matches Some(p) ==> {
            &&& land[p.cell as int]
            &&& p.cell == cell_index(p.x_mantissa, p.z_mantissa)
            &&& p.x_mantissa < MANTISSA_RANGE
            &&& p.z_mantissa < MANTISSA_RANGE
        },
    decreases tries,
{
    if tries > 0 {
        let (p, next) = attempt(seed);
        if !land[p.cell as int] {
            lemma_sample_on_land(land, next, (tries - 1) as nat);
        }
    }
}

/// Every point of a placement lies in a cell marked as land, under its draws.
pub proof fn lemma_placements_on_land(land: Seq<bool>, seed: u32, count: nat, tries: nat)
    requires
        land.len() == GRID_SIZE * GRID_SIZE,
    ensures
        place_spec(land, seed, count, tries).0 matches Some(ps) ==> {
            &&& ps.len() == count
            &&& forall|i: int|
                0 <= i < ps.len() ==> {
                    &&& land[(#[trigger] ps[i]).cell as int]
                    &&& ps[i].cell == cell_index(ps[i].x_mantissa, ps[i].z_mantissa)
                }
        },
    decreases count,
{
    if count > 0 {
        lemma_placements_on_land(land, seed, (count - 1) as nat, tries);
        let (prev, s) = place_spec(land, seed, (count - 1) as nat, tries);
        lemma_sample_on_land(land, s, tries);
        if let Some(ps) = prev {
            if let Some(q) = sample_spec(land, s, tries).0 {
                let all = ps.push(q);
                assert forall|i: int| 0 <= i < all.len() implies {
                    &&& land[(#[trigger] all[i]).cell as int]
                    &&& all[i].cell == cell_index(all[i].x_mantissa, all[i].z_mantissa)
                } by {
                    if i < ps.len() {
                        assert(all[i] == ps[i]);
                    }
                }
            }
        }
    }
}

} // verus!
