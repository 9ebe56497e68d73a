use rendering::bvh::advance_cursor;
use rendering::bvh::BvhItem;
use rendering::bvh::BvhTree;
use rendering::bvh::LinearBvh;
use rendering::bvh::Surround;

#[derive(Clone, Copy, Debug, PartialEq)]
struct Aabb {
    min: [f64; 3],
    max: [f64; 3],
}

impl Surround for Aabb {
    fn surrounding_box(&self, other: &Self) -> Self {
        let mut min = [0.0f64; 3];
        let mut max = [0.0f64; 3];
        for a in 0..3 {
            min[a] = self.min[a].min(other.min[a]);
            max[a] = self.max[a].max(other.max[a]);
        }
        Aabb { min, max }
    }
}

#[derive(Clone, Copy, Debug)]
struct Sphere {
    center: [f64; 3],
    radius: f64,
}

fn sphere_box(s: &Sphere) -> Aabb {
    let r = s.radius.abs();
    Aabb {
        min: [s.center[0] - r, s.center[1] - r, s.center[2] - r],
        max: [s.center[0] + r, s.center[1] + r, s.center[2] + r],
    }
}

/// Maps a float to an integer key so that `total_cmp` order becomes integer
/// order.
fn axis_key(f: f64) -> u64 {
    let b = f.to_bits();
    if b & 0x8000_0000_0000_0000 != 0 {
        !b
    } else {
        b | 0x8000_0000_0000_0000
    }
}

fn item_of(ix: usize, s: &Sphere) -> BvhItem<usize, Aabb> {
    let bb = sphere_box(s);
    BvhItem {
        obj: ix,
        bbox: bb,
        keys: [axis_key(bb.min[0]), axis_key(bb.min[1]), axis_key(bb.min[2])],
    }
}

fn slab_hit(bb: &Aabb, origin: &[f64; 3], inv_dir: &[f64; 3], t_min: f64, t_max: f64) -> bool {
    let mut t_min = t_min;
    let mut t_max = t_max;
    for a in 0..3 {
        let mut t0 = (bb.min[a] - origin[a]) * inv_dir[a];
        let mut t1 = (bb.max[a] - origin[a]) * inv_dir[a];
        if inv_dir[a] < 0.0 {
            (t0, t1) = (t1, t0);
        }
        t_min = if t0 > t_min { t0 } else { t_min };
        t_max = if t1 < t_max { t1 } else { t_max };
        if t_max <= t_min {
            return false;
        }
    }
    true
}

fn sphere_intersect(
    s: &Sphere,
    origin: &[f64; 3],
    dir: &[f64; 3],
    t_min: f64,
    t_max: &mut f64,
    hit: &mut Option<usize>,
    ix: usize,
) {
    let diff = [
        origin[0] - s.center[0],
        origin[1] - s.center[1],
        origin[2] - s.center[2],
    ];
    let a = dir[0] * dir[0] + dir[1] * dir[1] + dir[2] * dir[2];
    let b_half = dir[0] * diff[0] + dir[1] * diff[1] + dir[2] * diff[2];
    let c = diff[0] * diff[0] + diff[1] * diff[1] + diff[2] * diff[2] - s.radius * s.radius;
    let discriminant = b_half * b_half - a * c;
    if discriminant < 0.0 {
        return;
    }
    let sqrtd = discriminant.sqrt();
    let mut root = (-b_half - sqrtd) / a;
    if root < t_min || root > *t_max {
        root = (-b_half + sqrtd) / a;
        if root < t_min || root > *t_max {
            return;
        }
    }
    *t_max = root;
    *hit = Some(ix);
}

/// Walks the flat layout with the skip-count cursor, using the real slab
/// test and sphere intersection.
fn traverse_linear(
    lb: &LinearBvh<usize, Aabb>,
    spheres: &[Sphere],
    origin: &[f64; 3],
    dir: &[f64; 3],
) -> (Option<usize>, f64) {
    let inv_dir = [1.0 / dir[0], 1.0 / dir[1], 1.0 / dir[2]];
    let t_min = 0.001f64;
    let mut t_max = f64::INFINITY;
    let mut hit: Option<usize> = None;
    let mut ix = 0usize;
    while ix < lb.len() {
        match lb.get(ix) {
            Ok(pair) => {
                let h = slab_hit(&pair.0, origin, &inv_dir, t_min, t_max);
                ix = advance_cursor(ix, h, pair.1);
            }
            Err(s) => {
                sphere_intersect(&spheres[*s], origin, dir, t_min, &mut t_max, &mut hit, *s);
                ix = advance_cursor(ix, true, 0);
            }
        }
    }
    (hit, t_max)
}

fn brute_force(spheres: &[Sphere], origin: &[f64; 3], dir: &[f64; 3]) -> (Option<usize>, f64) {
    let t_min = 0.001f64;
    let mut t_max = f64::INFINITY;
    let mut hit: Option<usize> = None;
    for (ix, s) in spheres.iter().enumerate() {
        sphere_intersect(s, origin, dir, t_min, &mut t_max, &mut hit, ix);
    }
    (hit, t_max)
}

#[test]
fn flatten_pins_preorder_and_skip_counts() {
    let t: BvhTree<u8, u8> = BvhTree::Node {
        left: Box::new(BvhTree::Node {
            left: Box::new(BvhTree::Leaf { obj: 1 }),
            right: Box::new(BvhTree::Leaf { obj: 2 }),
            bbox: 20,
        }),
        right: Box::new(BvhTree::Leaf { obj: 3 }),
        bbox: 10,
    };
    assert_eq!(t.size(), 3);
    let lb = LinearBvh::new(t);
    assert_eq!(lb.len(), 5);
    assert_eq!(*lb.get(0), Ok((10u8, 4usize)));
    assert_eq!(*lb.get(1), Ok((20u8, 2usize)));
    assert_eq!(*lb.get(2), Err(1u8));
    assert_eq!(*lb.get(3), Err(2u8));
    assert_eq!(*lb.get(4), Err(3u8));
}

#[test]
fn advance_cursor_steps_and_skips() {
    assert_eq!(advance_cursor(0, true, 4), 1);
    assert_eq!(advance_cursor(0, false, 4), 5);
    assert_eq!(advance_cursor(7, false, 0), 8);
}

#[test]
fn from_items_rejects_empty_scene() {
    let mut rng = fastrand::Rng::with_seed(1);
    let items: Vec<BvhItem<usize, Aabb>> = Vec::new();
    assert!(LinearBvh::from_items(items, &mut rng).is_none());
}

#[test]
fn from_items_keeps_every_primitive() {
    let mut rng = fastrand::Rng::with_seed(3);
    let spheres: Vec<Sphere> = (0..33)
        .map(|i| Sphere {
            center: [(i % 7) as f64, (i % 5) as f64, -(i as f64)],
            radius: 0.4,
        })
        .collect();
    let items: Vec<BvhItem<usize, Aabb>> =
        spheres.iter().enumerate().map(|(i, s)| item_of(i, s)).collect();
    let lb = LinearBvh::from_items(items, &mut rng).unwrap();
    assert_eq!(lb.len(), 2 * spheres.len() - 1);
    let mut seen: Vec<usize> = Vec::new();
    for ix in 0..lb.len() {
        if let Err(s) = lb.get(ix) {
            seen.push(*s);
        }
    }
    seen.sort();
    let expected: Vec<usize> = (0..spheres.len()).collect();
    assert_eq!(seen, expected);
}

#[test]
fn linear_bvh_matches_brute_force_scan() {
    let mut rng = fastrand::Rng::with_seed(10);
    let mut spheres: Vec<Sphere> = Vec::new();
    for a in -5..5 {
        for b in -5..5 {
            let cx = a as f64 + 0.9 * rng.f64();
            let cz = b as f64 + 0.9 * rng.f64();
            spheres.push(Sphere {
                center: [cx, 0.2, cz],
                radius: 0.2,
            });
        }
    }
    let items: Vec<BvhItem<usize, Aabb>> =
        spheres.iter().enumerate().map(|(i, s)| item_of(i, s)).collect();
    let lb = LinearBvh::from_items(items, &mut rng).unwrap();

    let origin = [13.0f64, 2.0, 3.0];
    for iy in 0..20 {
        for ixs in 0..20 {
            let dir = [
                -1.0 + 0.07 * (ixs as f64),
                -0.3 + 0.02 * (iy as f64),
                -0.5 + 0.05 * (iy as f64),
            ];
            let (h1, t1) = traverse_linear(&lb, &spheres, &origin, &dir);
            let (h2, t2) = brute_force(&spheres, &origin, &dir);
            assert_eq!(h1, h2);
            assert_eq!(t1, t2);
        }
    }
}

#[test]
fn axis_aligned_ray_with_infinite_inverse_traverses() {
    let mut rng = fastrand::Rng::with_seed(4);
    let spheres: Vec<Sphere> = (0..16)
        .map(|i| Sphere {
            center: [(i % 4) as f64 * 2.0, 0.0, -2.0 * (i / 4) as f64 - 2.0],
            radius: 0.5,
        })
        .collect();
    let items: Vec<BvhItem<usize, Aabb>> =
        spheres.iter().enumerate().map(|(i, s)| item_of(i, s)).collect();
    let lb = LinearBvh::from_items(items, &mut rng).unwrap();

    // direction exactly along -z: inv_dir holds infinities on x and y
    let origin = [0.0f64, 0.0, 5.0];
    let dir = [0.0f64, 0.0, -1.0];
    let (h1, t1) = traverse_linear(&lb, &spheres, &origin, &dir);
    let (h2, t2) = brute_force(&spheres, &origin, &dir);
    assert_eq!(h1, h2);
    assert_eq!(t1, t2);
    assert_eq!(h1, Some(0));
    assert!((t1 - 6.5).abs() < 1e-12);
}
