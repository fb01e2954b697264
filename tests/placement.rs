use namekusei::placement::{cell_of_draw, place_on_land, sample_land_cell, Placement, GRID_SIZE};
use namekusei::random::Rng;

fn checker() -> Vec<bool> {
    (0..GRID_SIZE * GRID_SIZE).map(|c| c % 2 == 0).collect()
}

#[test]
fn cell_of_draw_truncates_scaled_draw() {
    assert_eq!(cell_of_draw(0), 0);
    assert_eq!(cell_of_draw(16383), 0);
    assert_eq!(cell_of_draw(16384), 1);
    assert_eq!(cell_of_draw(0x7f_ffff), 511);
    let m = 5_000_000u32;
    let u = m as f32 / 8388608.0;
    assert_eq!(cell_of_draw(m), (u * 512.0) as usize);
}

#[test]
fn sampler_rejects_water_and_accepts_land() {
    let land = checker();
    let mut rng = Rng::with_seed(7);
    let p = sample_land_cell(&mut rng, &land, 10).unwrap();
    assert_eq!(p, Placement { x_mantissa: 7311000, z_mantissa: 21243, cell: 958 });
    assert!(land[p.cell]);
    assert_eq!(rng.seed, 461394683);
}

#[test]
fn sampler_gives_up_after_its_tries() {
    let land = vec![false; GRID_SIZE * GRID_SIZE];
    let mut rng = Rng::with_seed(7);
    assert_eq!(sample_land_cell(&mut rng, &land, 3), None);
    assert_eq!(rng.seed, 2574545229);
    let mut none = Rng::with_seed(7);
    assert_eq!(sample_land_cell(&mut none, &land, 0), None);
    assert_eq!(none.seed, 7);
}

#[test]
fn all_placements_on_land() {
    let land = checker();
    let mut rng = Rng::with_seed(9231249);
    let ps = place_on_land(&mut rng, &land, 80, 1000).unwrap();
    assert_eq!(ps.len(), 80);
    for p in &ps {
        assert!(land[p.cell]);
        let cx = cell_of_draw(p.x_mantissa);
        let cz = cell_of_draw(p.z_mantissa);
        assert_eq!(p.cell, cz * GRID_SIZE + cx);
    }
}

#[test]
fn placement_fails_without_land() {
    let land = vec![false; GRID_SIZE * GRID_SIZE];
    let mut rng = Rng::with_seed(1);
    assert_eq!(place_on_land(&mut rng, &land, 2, 5), None);
    let mut zero = Rng::with_seed(1);
    assert_eq!(place_on_land(&mut zero, &land, 0, 5), Some(Vec::new()));
}
