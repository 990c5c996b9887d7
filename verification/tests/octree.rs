use raytracer::bbox::{BBox, Cell, Probe};
use raytracer::geometry::PartialBoundingBox;
use raytracer::gridray::GridRay;
use raytracer::depth::tree_depth;
use raytracer::octree::{Octree, OctreeNode};

/// A thing with bounds, or without.
#[derive(Clone, Copy, Debug, PartialEq)]
struct Item {
    id: usize,
    bounds: Option<BBox>,
}

impl PartialBoundingBox for Item {
    fn bounds(&self) -> Option<BBox> {
        self.bounds
    }

    fn partial_bounding_box(&self) -> Option<BBox> {
        self.bounds
    }
}

fn cube(x: i32, y: i32, z: i32, side: i32) -> BBox {
    BBox::new(Cell::new(x, y, z), Cell::new(x + side, y + side, z + side))
}

/// Boxes scattered by a fixed rule.
fn scattered(n: usize) -> Vec<Item> {
    let mut state: u64 = 12345;
    let mut items = Vec::new();
    for id in 0..n {
        let mut draw = || {
            state = state.wrapping_mul(6364136223846793005).wrapping_add(1442695040888963407);
            ((state >> 33) % 2000) as i32 - 1000
        };
        let (x, y, z) = (draw(), draw(), draw());
        let side = (draw().abs() % 60) + 1;
        items.push(Item { id, bounds: Some(cube(x, y, z, side)) });
    }
    items
}

fn candidates<P: Probe>(tree: &Octree<Item>, probe: &P) -> Vec<usize> {
    let mut it = tree.intersect_iter(probe);
    let mut found = Vec::new();
    while let Some(item) = it.next() {
        found.push(item.id);
    }
    found
}

#[test]
fn depth_is_the_rounded_logarithm() {
    assert_eq!(tree_depth(0), 0);
    assert_eq!(tree_depth(1), 0);
    assert_eq!(tree_depth(2), 0);
    assert_eq!(tree_depth(3), 1);
    assert_eq!(tree_depth(13), 1);
    assert_eq!(tree_depth(14), 2);
    assert_eq!(tree_depth(76), 2);
    assert_eq!(tree_depth(77), 3);
    assert_eq!(tree_depth(512), 4);
    assert_eq!(tree_depth(100_000), 7);
}

#[test]
fn depth_agrees_with_the_formula_in_floating_point() {
    for n in 1..20_000usize {
        let expected = (1.2 * (n as f64).log(8.0)).round() as i32;
        assert_eq!(tree_depth(n), expected, "n = {}", n);
    }
}

#[test]
fn an_empty_index_hands_out_nothing() {
    let tree: Octree<Item> = Octree::from_iter(Vec::new());
    let everything = cube(-1000, -1000, -1000, 2000);
    assert_eq!(candidates(&tree, &everything), Vec::<usize>::new());
    assert_eq!(tree.len(), 0);
}

#[test]
fn unbounded_items_are_always_handed_out() {
    let items = vec![
        Item { id: 0, bounds: None },
        Item { id: 1, bounds: Some(cube(0, 0, 0, 10)) },
        Item { id: 2, bounds: None },
    ];
    let tree = Octree::from_iter(items);
    let far_away = Cell::new(5000, 5000, 5000);
    assert_eq!(candidates(&tree, &far_away), vec![0, 2]);
    let inside = Cell::new(5, 5, 5);
    assert_eq!(candidates(&tree, &inside), vec![1, 0, 2]);
    assert_eq!(tree.len(), 3);
}

#[test]
fn a_probe_that_misses_the_root_gets_only_unbounded_items() {
    let mut items = scattered(200);
    items.push(Item { id: 200, bounds: None });
    let tree = Octree::from_iter(items);
    let outside = cube(5000, 5000, 5000, 10);
    assert_eq!(candidates(&tree, &outside), vec![200]);
}

#[test]
fn index_candidates_are_exactly_the_items_that_the_probe_meets() {
    let items = scattered(500);
    let tree = Octree::from_iter(items.clone());
    let probes = [
        cube(-1000, -1000, -1000, 2100),
        cube(0, 0, 0, 100),
        cube(-300, 200, -50, 400),
        cube(999, 999, 999, 1),
        cube(-20, -20, -20, 5),
    ];
    for probe in probes.iter() {
        let mut found = candidates(&tree, probe);
        found.sort();
        found.dedup();
        let expected: Vec<usize> = items
            .iter()
            .filter(|item| item.bounds.unwrap().overlaps(probe))
            .map(|item| item.id)
            .collect();
        assert_eq!(found, expected);
    }
}

#[test]
fn point_probes_find_every_box_around_them() {
    let items = scattered(300);
    let tree = Octree::from_iter(items.clone());
    for item in items.iter().take(50) {
        let b = item.bounds.unwrap();
        let corner = b.min;
        let found = candidates(&tree, &corner);
        assert!(found.contains(&item.id));
        for id in found {
            assert!(corner.meets(&items[id].bounds.unwrap()));
        }
    }
}

#[test]
fn a_node_without_budget_keeps_every_entry() {
    let mut node = OctreeNode::new(cube(0, 0, 0, 100), 0);
    assert!(node.is_leaf());
    node.insert(0, cube(1, 1, 1, 2));
    node.insert(1, cube(50, 50, 50, 2));
    node.insert(2, cube(90, 90, 90, 2));
    assert!(node.is_leaf());
}

#[test]
fn a_leaf_with_budget_splits_on_its_second_entry() {
    let mut node = OctreeNode::new(cube(0, 0, 0, 100), 2);
    node.insert(0, cube(1, 1, 1, 2));
    assert!(node.is_leaf());
    node.insert(1, cube(90, 90, 90, 2));
    assert!(!node.is_leaf());
}

#[test]
fn octants_share_the_planes_through_the_center() {
    let b = cube(0, 0, 0, 10);
    assert_eq!(b.child(0), BBox::new(Cell::new(0, 0, 0), Cell::new(5, 5, 5)));
    assert_eq!(b.child(7), BBox::new(Cell::new(5, 5, 5), Cell::new(10, 10, 10)));
    assert_eq!(b.child(4), BBox::new(Cell::new(5, 0, 0), Cell::new(10, 5, 5)));
    assert_eq!(b.child(1), BBox::new(Cell::new(0, 0, 5), Cell::new(5, 5, 10)));
    let odd = BBox::new(Cell::new(-3, 0, 0), Cell::new(4, 1, 0));
    assert_eq!(odd.child(0), BBox::new(Cell::new(-3, 0, 0), Cell::new(0, 0, 0)));
    assert_eq!(odd.child(7), BBox::new(Cell::new(0, 0, 0), Cell::new(4, 1, 0)));
}

#[test]
fn box_measures() {
    let b = BBox::new(Cell::new(0, 0, 0), Cell::new(2, 3, 4));
    assert_eq!(b.volume(), 24);
    assert_eq!(b.surface_area(), 52);
    let flat = BBox::new(Cell::new(0, 0, 0), Cell::new(2, 3, 0));
    assert_eq!(flat.volume(), 0);
    assert_eq!(flat.surface_area(), 12);
    let none = BBox::new(Cell::new(1, 0, 0), Cell::new(0, 3, 4));
    assert_eq!(none.volume(), 0);
    let wide = BBox::new(
        Cell::new(i32::MIN, i32::MIN, i32::MIN),
        Cell::new(i32::MAX, i32::MAX, i32::MAX),
    );
    assert_eq!(wide.volume(), 4294967295u128 * 4294967295u128 * 4294967295u128);
    assert_eq!(BBox::zero(), BBox::new(Cell::new(0, 0, 0), Cell::new(0, 0, 0)));
}

#[test]
fn box_relations() {
    let a = cube(0, 0, 0, 10);
    let b = cube(10, 10, 10, 5);
    let c = cube(11, 0, 0, 5);
    assert!(a.overlaps(&b));
    assert!(!a.overlaps(&c));
    assert!(a.contains(&cube(2, 2, 2, 3)));
    assert!(!a.contains(&b));
    assert_eq!(a.union(&c), BBox::new(Cell::new(0, 0, 0), Cell::new(16, 10, 10)));
    assert!(a.intersects(&Cell::new(10, 0, 10)));
    assert!(!a.intersects(&Cell::new(11, 0, 10)));
}

fn ray(ox: i32, oy: i32, oz: i32, dx: i32, dy: i32, dz: i32) -> GridRay {
    GridRay::new(Cell::new(ox, oy, oz), Cell::new(dx, dy, dz))
}

#[test]
fn a_lattice_ray_meets_exactly_the_boxes_it_passes_through() {
    let b = cube(10, 10, 10, 10);
    // Along an axis, towards and away.
    assert!(ray(0, 15, 15, 1, 0, 0).meets(&b));
    assert!(!ray(0, 15, 15, -1, 0, 0).meets(&b));
    assert!(!ray(0, 21, 15, 1, 0, 0).meets(&b));
    // Along a face and through a corner: the box is closed.
    assert!(ray(0, 20, 15, 1, 0, 0).meets(&b));
    assert!(ray(0, 0, 0, 1, 1, 1).meets(&b));
    assert!(ray(30, 0, 10, -1, 1, 0).meets(&b));
    assert!(ray(31, 0, 10, -1, 1, 0).meets(&b));
    assert!(!ray(41, 0, 10, -1, 1, 0).meets(&b));
    // Between two cells: the ray from (0, 0) by (2, 3) passes (20/3, 10) and
    // misses the box that starts at x = 7, and just meets the one at x = 6.
    assert!(!ray(0, 0, 0, 2, 3, 0).meets(&BBox::new(Cell::new(7, 10, 0), Cell::new(9, 10, 0))));
    assert!(ray(0, 0, 0, 2, 3, 0).meets(&BBox::new(Cell::new(6, 10, 0), Cell::new(6, 10, 0))) == false);
    assert!(ray(0, 0, 0, 2, 3, 0).meets(&BBox::new(Cell::new(6, 9, 0), Cell::new(6, 9, 0))));
    // From inside, in any direction, and standing still.
    assert!(ray(15, 15, 15, -7, 3, 1).meets(&b));
    assert!(ray(15, 15, 15, 0, 0, 0).meets(&b));
    assert!(!ray(9, 15, 15, 0, 0, 0).meets(&b));
    // A box without a cell is met by nothing.
    assert!(!ray(0, 0, 0, 1, 1, 1).meets(&BBox::new(Cell::new(5, 5, 5), Cell::new(4, 9, 9))));
    // The ends of the range.
    let far = BBox::new(Cell::new(i32::MAX, i32::MAX, i32::MAX), Cell::new(i32::MAX, i32::MAX, i32::MAX));
    assert!(ray(i32::MIN, i32::MIN, i32::MIN, 1, 1, 1).meets(&far));
    assert!(!ray(i32::MIN, i32::MIN, i32::MIN, i32::MAX, i32::MAX, i32::MAX - 1).meets(&far));
}

#[test]
fn lattice_rays_find_every_box_on_their_way() {
    let items = scattered(400);
    let tree = Octree::from_iter(items.clone());
    let aim = items[7].bounds.unwrap().max;
    let rays = [
        ray(-1500, 300, 40, aim.x + 1500, aim.y - 300, aim.z - 40),
        ray(-1000, -1000, -1000, 1, 1, 1),
        ray(0, 0, 0, 3, -2, 1),
        ray(500, -900, 37, -5, 9, 0),
        ray(-999, 0, 0, 1, 0, 0),
        ray(0, 0, 0, 0, 0, -1),
        ray(2000, 2000, 2000, 1, 1, 1),
    ];
    let mut met = 0;
    for r in rays.iter() {
        let mut found = candidates(&tree, r);
        found.sort();
        found.dedup();
        let expected: Vec<usize> = items
            .iter()
            .filter(|item| r.meets(&item.bounds.unwrap()))
            .map(|item| item.id)
            .collect();
        assert_eq!(found, expected);
        met += expected.len();
    }
    assert!(met >= 1);
}
