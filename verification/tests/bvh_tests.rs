use raytracer::aabb::Aabb;
use raytracer::bvh::{halves, sorted, BvhNode};
use raytracer::hit::{Hittable, HittableList};
use raytracer::material::{Lambertian, Material};
use raytracer::ray::Ray;
use raytracer::scalar::Scalar;
use raytracer::sphere::Sphere;
use raytracer::vec3::Vec3;
use std::sync::Arc;

fn v(x: i64, y: i64, z: i64) -> Vec3 {
    Vec3::from_raw(x, y, z)
}

fn s(raw: i64) -> Scalar {
    Scalar::new(raw)
}

fn white() -> Arc<Material> {
    Arc::new(Material::Lambertian(Lambertian::new(v(730_000, 730_000, 730_000))))
}

fn near() -> Scalar {
    s(1_000)
}

fn ball(x: i64, y: i64, z: i64, r: i64) -> Arc<Hittable> {
    Arc::new(Hittable::Sphere(Sphere::new(v(x, y, z), s(r), white())))
}

fn center(h: &Hittable) -> Vec3 {
    match h {
        Hittable::Sphere(sp) => sp.center,
        _ => panic!("not a sphere"),
    }
}

fn step(seed: &mut i64) -> i64 {
    *seed = (*seed * 1_103_515_245 + 12_345) % 2_147_483_648;
    *seed
}

fn scene(seed: &mut i64, count: usize) -> Vec<Arc<Hittable>> {
    let mut out = Vec::new();
    for _ in 0..count {
        let x = step(seed) % 20_000_001 - 10_000_000;
        let y = step(seed) % 20_000_001 - 10_000_000;
        let z = step(seed) % 20_000_001 - 10_000_000;
        let r = step(seed) % 1_500_000 + 200_000;
        out.push(ball(x, y, z - 20_000_000, r));
    }
    out
}

fn leaves(h: &Hittable, out: &mut Vec<Vec3>) {
    match h {
        Hittable::Bvh(node) => {
            leaves(&node.left, out);
            leaves(&node.right, out);
        }
        other => out.push(center(other)),
    }
}

fn check_boxes(node: &BvhNode) {
    let b0 = node.left.bounding_box(Scalar::zero(), Scalar::one()).unwrap();
    let b1 = node.right.bounding_box(Scalar::zero(), Scalar::one()).unwrap();
    assert_eq!(node.mybox, Aabb::surrounding_box(b0, b1));
    if let Hittable::Bvh(l) = &*node.left {
        check_boxes(l);
    }
    if let Hittable::Bvh(r) = &*node.right {
        check_boxes(r);
    }
}

#[test]
fn sorting_is_by_the_least_corner_and_keeps_ties_in_order() {
    let things = vec![
        ball(3_000_000, 0, 0, 1_000_000),
        ball(-1_000_000, 5_000_000, 0, 500_000),
        ball(1_500_000, -5_000_000, 7, 500_000),
        ball(0, 2_000_000, -9_000_000, 1_000_000),
        ball(-1_000_000, 9_000_000, 9_000_000, 500_000),
    ];
    let xs: Vec<i64> = sorted(&things, 0, Scalar::zero(), Scalar::one()).iter().map(|h| center(h).x.raw).collect();
    assert_eq!(xs, vec![-1_000_000, -1_000_000, 0, 1_500_000, 3_000_000]);
    let ys: Vec<i64> = sorted(&things, 0, Scalar::zero(), Scalar::one()).iter().map(|h| center(h).y.raw).collect();
    assert_eq!(ys, vec![5_000_000, 9_000_000, 2_000_000, -5_000_000, 0]);
    let ys: Vec<i64> = sorted(&things, 1, Scalar::zero(), Scalar::one()).iter().map(|h| center(h).y.raw).collect();
    assert_eq!(ys, vec![-5_000_000, 0, 2_000_000, 5_000_000, 9_000_000]);
    let zs: Vec<i64> = sorted(&things, 2, Scalar::zero(), Scalar::one()).iter().map(|h| center(h).z.raw).collect();
    assert_eq!(zs, vec![-9_000_000, 0, 0, 7, 9_000_000]);
    assert_eq!(sorted(&Vec::new(), 2, Scalar::zero(), Scalar::one()).len(), 0);
}

#[test]
fn halves_cut_at_the_given_place() {
    let things = vec![ball(1, 0, 0, 5), ball(2, 0, 0, 5), ball(3, 0, 0, 5)];
    let (front, back) = halves(&things, 1);
    assert_eq!(front.len(), 1);
    assert_eq!(back.len(), 2);
    assert_eq!(center(&front[0]).x.raw, 1);
    assert_eq!(center(&back[0]).x.raw, 2);
    assert_eq!(center(&back[1]).x.raw, 3);
    let (front, back) = halves(&things, 0);
    assert_eq!((front.len(), back.len()), (0, 3));
    let (front, back) = halves(&things, 3);
    assert_eq!((front.len(), back.len()), (3, 0));
}

#[test]
fn a_hierarchy_over_one_thing_has_it_as_both_children() {
    let node = BvhNode::new(vec![ball(1_000_000, 2_000_000, 3_000_000, 500_000)], 1, Scalar::zero(), Scalar::one());
    assert_eq!(center(&node.left), v(1_000_000, 2_000_000, 3_000_000));
    assert_eq!(center(&node.right), v(1_000_000, 2_000_000, 3_000_000));
    assert!(Arc::ptr_eq(&node.left, &node.right));
    assert_eq!(node.mybox.mn, v(500_000, 1_500_000, 2_500_000));
    assert_eq!(node.mybox.mx, v(1_500_000, 2_500_000, 3_500_000));
}

#[test]
fn a_hierarchy_over_two_things_has_one_as_each_child() {
    let node = BvhNode::new(
        vec![ball(5_000_000, 0, 0, 500_000), ball(-5_000_000, 0, 0, 1_000_000)],
        2,
        Scalar::zero(),
        Scalar::one(),
    );
    assert_eq!(center(&node.left), v(5_000_000, 0, 0));
    assert_eq!(center(&node.right), v(-5_000_000, 0, 0));
    assert_eq!(node.mybox.mn, v(-6_000_000, -1_000_000, -1_000_000));
    assert_eq!(node.mybox.mx, v(5_500_000, 1_000_000, 1_000_000));
}

#[test]
fn a_hierarchy_looks_at_the_first_span_things_only() {
    let things = vec![ball(5_000_000, 0, 0, 500_000), ball(-5_000_000, 0, 0, 1_000_000), ball(0, 9_000_000, 0, 1)];
    let node = BvhNode::new(things.clone(), 1, Scalar::zero(), Scalar::one());
    assert_eq!(center(&node.left), v(5_000_000, 0, 0));
    assert_eq!(center(&node.right), v(5_000_000, 0, 0));
    let node = BvhNode::new(things, 2, Scalar::zero(), Scalar::one());
    assert_eq!(center(&node.left), v(5_000_000, 0, 0));
    assert_eq!(center(&node.right), v(-5_000_000, 0, 0));
}

#[test]
fn a_hierarchy_over_three_things_splits_one_from_two_along_some_axis() {
    for _ in 0..20 {
        let things = vec![ball(3_000_000, 0, -7_000_000, 500_000), ball(0, 9_000_000, 0, 500_000), ball(-4_000_000, 2_000_000, 5_000_000, 500_000)];
        let node = BvhNode::new(things, 3, Scalar::zero(), Scalar::one());
        let mut found = Vec::new();
        leaves(&Hittable::Bvh(node), &mut found);
        let by_x = vec![v(-4_000_000, 2_000_000, 5_000_000), v(-4_000_000, 2_000_000, 5_000_000), v(0, 9_000_000, 0), v(3_000_000, 0, -7_000_000)];
        let by_y = vec![v(3_000_000, 0, -7_000_000), v(3_000_000, 0, -7_000_000), v(-4_000_000, 2_000_000, 5_000_000), v(0, 9_000_000, 0)];
        let by_z = vec![v(3_000_000, 0, -7_000_000), v(3_000_000, 0, -7_000_000), v(0, 9_000_000, 0), v(-4_000_000, 2_000_000, 5_000_000)];
        assert!(found == by_x || found == by_y || found == by_z);
    }
}

#[test]
fn every_axis_is_drawn_sooner_or_later() {
    let mut seen = [false; 3];
    for _ in 0..200 {
        let things = vec![ball(3_000_000, 0, -7_000_000, 500_000), ball(0, 9_000_000, 0, 500_000), ball(-4_000_000, 2_000_000, 5_000_000, 500_000)];
        let node = BvhNode::new(things, 3, Scalar::zero(), Scalar::one());
        let first = center(match &*node.left {
            Hittable::Bvh(l) => &l.left,
            _ => panic!("the lower half is a hierarchy"),
        });
        if first.x.raw == -4_000_000 {
            seen[0] = true;
        } else if first.z.raw == -7_000_000 && center(match &*node.right {
            Hittable::Bvh(r) => &r.left,
            _ => panic!("the upper half is a hierarchy"),
        })
        .y
        .raw
            == 2_000_000
        {
            seen[1] = true;
        } else {
            seen[2] = true;
        }
    }
    assert_eq!(seen, [true, true, true]);
}

#[test]
fn a_hierarchy_holds_every_thing_and_each_box_is_the_union_of_two() {
    let mut seed: i64 = 7;
    for count in [1usize, 2, 3, 4, 5, 8, 13, 40] {
        let things = scene(&mut seed, count);
        let mut expected: Vec<(i64, i64, i64)> =
            things.iter().map(|h| (center(h).x.raw, center(h).y.raw, center(h).z.raw)).collect();
        let node = BvhNode::new(things, count, Scalar::zero(), Scalar::one());
        check_boxes(&node);
        let mut found = Vec::new();
        leaves(&Hittable::Bvh(node), &mut found);
        let mut found: Vec<(i64, i64, i64)> = found.iter().map(|c| (c.x.raw, c.y.raw, c.z.raw)).collect();
        found.sort();
        found.dedup();
        expected.sort();
        assert_eq!(found, expected);
    }
}

#[test]
fn the_box_of_a_node_is_the_same_at_every_call() {
    let mut seed: i64 = 11;
    let node = BvhNode::new(scene(&mut seed, 25), 25, Scalar::zero(), Scalar::one());
    let first = node.bounding_box(Scalar::zero(), Scalar::one()).unwrap();
    for k in 0..50 {
        let again = node.bounding_box(s(k * 1_000), s(-k * 77)).unwrap();
        assert_eq!(again, first);
        assert_eq!(again.mn.x.raw, first.mn.x.raw);
        assert_eq!(again.mx.z.raw, first.mx.z.raw);
    }
    assert_eq!(first, node.mybox);
    let as_thing = Hittable::Bvh(node);
    assert_eq!(as_thing.bounding_box(s(3), s(4)).unwrap(), first);
}

#[test]
fn the_box_of_a_hierarchy_is_the_box_of_the_list_it_was_built_over() {
    let mut seed: i64 = 314;
    for count in [1usize, 2, 3, 7, 32, 61] {
        let things = scene(&mut seed, count);
        let mut list = HittableList::new();
        for h in things.iter() {
            list.add(h.clone());
        }
        let expected = list.bounding_box(Scalar::zero(), Scalar::one()).unwrap();
        for _ in 0..4 {
            let node = BvhNode::new(things.clone(), count, Scalar::zero(), Scalar::one());
            assert_eq!(node.mybox, expected);
            assert_eq!(node.bounding_box(Scalar::zero(), Scalar::one()), Some(expected));
        }
    }
}

#[test]
fn a_ray_that_misses_the_box_of_the_root_hits_nothing() {
    let mut seed: i64 = 5;
    let node = BvhNode::new(scene(&mut seed, 10), 10, Scalar::zero(), Scalar::one());
    let away = Ray::new(v(0, 0, 0), v(0, 0, 1_000_000), Scalar::zero());
    assert!(!node.mybox.hit(away, near(), Scalar::inf()));
    assert!(node.hit(&away, near(), Scalar::inf()).is_none());
}

#[test]
fn the_hierarchy_reports_the_nearest_hit_of_the_linear_scan() {
    let mut seed: i64 = 2_024;
    let things = scene(&mut seed, 40);
    let mut list = HittableList::new();
    for h in things.iter() {
        list.add(h.clone());
    }
    let boxes: Vec<Aabb> =
        things.iter().map(|h| h.bounding_box(Scalar::zero(), Scalar::one()).unwrap()).collect();
    let trees: Vec<BvhNode> =
        (0..5).map(|_| BvhNode::new(things.clone(), 40, Scalar::zero(), Scalar::one())).collect();
    let mut compared = 0;
    let mut hits = 0;
    for _ in 0..1_500 {
        let ox = step(&mut seed) % 4_000_001 - 2_000_000;
        let oy = step(&mut seed) % 4_000_001 - 2_000_000;
        let oz = step(&mut seed) % 4_000_001 - 2_000_000;
        let dx = step(&mut seed) % 2_000_001 - 1_000_000;
        let dy = step(&mut seed) % 2_000_001 - 1_000_000;
        let dz = step(&mut seed) % 2_000_001 - 1_000_000;
        let ray = Ray::new(v(ox, oy, oz + 5_000_000), v(dx, dy, -dz.abs() - 1_500_000).unit(), Scalar::zero());
        let alone: Vec<Option<i64>> =
            things.iter().map(|h| h.hit(&ray, near(), Scalar::inf()).map(|rec| rec.t.raw)).collect();
        let mut bounds: Vec<Scalar> = alone.iter().flatten().map(|t| s(*t)).collect();
        bounds.push(Scalar::inf());
        let mut valid = true;
        for (k, h) in things.iter().enumerate() {
            for b in bounds.iter() {
                if h.hit(&ray, near(), *b).is_some() && !boxes[k].hit(ray, near(), *b) {
                    valid = false;
                }
            }
        }
        if !valid {
            continue;
        }
        compared += 1;
        let by_scan = list.hit(&ray, near(), Scalar::inf());
        let nearest = alone.iter().flatten().min().copied();
        assert_eq!(by_scan.as_ref().map(|rec| rec.t.raw), nearest);
        for tree in trees.iter() {
            let by_tree = tree.hit(&ray, near(), Scalar::inf());
            assert_eq!(by_tree.is_some(), by_scan.is_some());
            if let (Some(a), Some(b)) = (&by_tree, &by_scan) {
                assert_eq!(a.t, b.t);
                assert_eq!(a.p, b.p);
                assert_eq!(a.nor, b.nor);
                assert_eq!(a.nor_dir, b.nor_dir);
                assert_eq!((a.u, a.v), (b.u, b.v));
            }
        }
        if by_scan.is_some() {
            hits += 1;
        }
    }
    assert!(compared > 1_400);
    assert!(hits > 200);
}
