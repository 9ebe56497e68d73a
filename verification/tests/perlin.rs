use rendering::perlin::PerlinNoise;

#[test]
fn gen_perm_yields_a_permutation() {
    let mut rng = fastrand::Rng::with_seed(42);
    let mut v = PerlinNoise::gen_perm(256, &mut rng);
    assert_eq!(v.len(), 256);
    v.sort();
    let expected: Vec<i32> = (0..256).collect();
    assert_eq!(v, expected);
}

#[test]
fn gen_perm_actually_shuffles() {
    let mut rng = fastrand::Rng::with_seed(42);
    let v = PerlinNoise::gen_perm(256, &mut rng);
    let identity: Vec<i32> = (0..256).collect();
    assert_ne!(v, identity);
}

#[test]
fn gen_perm_empty_for_non_positive_count() {
    let mut rng = fastrand::Rng::with_seed(42);
    assert!(PerlinNoise::gen_perm(0, &mut rng).is_empty());
    assert!(PerlinNoise::gen_perm(-5, &mut rng).is_empty());
}

#[test]
fn tables_are_deterministic_per_seed() {
    let mut rng1 = fastrand::Rng::with_seed(7);
    let mut rng2 = fastrand::Rng::with_seed(7);
    let p1 = PerlinNoise::generate(&mut rng1);
    let p2 = PerlinNoise::generate(&mut rng2);
    assert_eq!(p1, p2);
    let mut rng3 = fastrand::Rng::with_seed(8);
    let p3 = PerlinNoise::generate(&mut rng3);
    assert_ne!(p1, p3);
}

#[test]
fn corner_index_stays_inside_gradient_table() {
    let p = PerlinNoise::default();
    let coords = [-1000000, -257, -256, -255, -1, 0, 1, 254, 255, 256, 900000, i32::MAX, i32::MIN];
    for &i in coords.iter() {
        for &j in coords.iter() {
            for di in 0..2u8 {
                for dj in 0..2u8 {
                    let r = p.corner_index(i, j, 77, di, dj, 1);
                    assert!(r < 256);
                }
            }
        }
    }
}

#[test]
fn corner_index_matches_the_lattice_hash_formula() {
    let mut rng = fastrand::Rng::with_seed(11);
    let p = PerlinNoise::generate(&mut rng);
    let px = p.perm_x().clone();
    let py = p.perm_y().clone();
    let pz = p.perm_z().clone();
    let coords: [i32; 6] = [-300, -1, 0, 1, 255, 70000];
    for &i in coords.iter() {
        for &j in coords.iter() {
            for &k in coords.iter() {
                for d in 0..8u8 {
                    let (di, dj, dk) = (d & 1, (d >> 1) & 1, (d >> 2) & 1);
                    let xi = ((i as i64 + di as i64) & 255) as usize;
                    let yj = ((j as i64 + dj as i64) & 255) as usize;
                    let zk = ((k as i64 + dk as i64) & 255) as usize;
                    let expected = (px[xi] ^ py[yj] ^ pz[zk]) as usize;
                    assert_eq!(p.corner_index(i, j, k, di, dj, dk), expected);
                }
            }
        }
    }
}

#[test]
fn corner_index_is_a_pure_function_of_its_inputs() {
    let mut rng = fastrand::Rng::with_seed(9);
    let p = PerlinNoise::generate(&mut rng);
    let a = p.corner_index(3, -4, 5, 1, 0, 1);
    let b = p.corner_index(3, -4, 5, 1, 0, 1);
    assert_eq!(a, b);
    // folding by the low eight bits: shifting a coordinate by 256 changes nothing
    let c = p.corner_index(3 + 256, -4, 5, 1, 0, 1);
    assert_eq!(a, c);
    let d = p.corner_index(3 - 512, -4 + 256, 5, 1, 0, 1);
    assert_eq!(a, d);
}
