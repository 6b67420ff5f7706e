use rand::{RngExt, SeedableRng};
use sketches::geom::Vec2;
use sketches::quadtree::{blq, brq, intersects, tlq, trq, QNode};

fn pt(x: i64, y: i64) -> Vec2 {
    Vec2 { x, y }
}

fn dist_sq(a: Vec2, b: Vec2) -> i128 {
    let dx = a.x as i128 - b.x as i128;
    let dy = a.y as i128 - b.y as i128;
    dx * dx + dy * dy
}

fn brute_force(pts: &[Vec2], center: Vec2, radius: i64) -> Vec<Vec2> {
    if radius < 0 {
        return Vec::new();
    }
    pts.iter()
        .copied()
        .filter(|p| dist_sq(*p, center) <= radius as i128 * radius as i128)
        .collect()
}

fn sorted(mut v: Vec<Vec2>) -> Vec<Vec2> {
    v.sort_by(|a, b| (a.x, a.y).cmp(&(b.x, b.y)));
    v
}

fn build(pts: &[Vec2], bl: Vec2, tr: Vec2) -> QNode<Vec2> {
    let mut t = QNode::Points(Vec::new());
    for p in pts {
        t.insert(*p, bl, tr);
    }
    t
}

#[test]
fn test_split() {
    let pts = vec![];
    let mut qt = QNode::Points(pts);
    for _ in 0..1000 {
        qt.insert(
            pt(rand::random_range(0..=3000), rand::random_range(0..=3000)),
            pt(0, 0),
            pt(3000, 3000),
        );
    }
    let c = qt.points_in_circle(pt(0, 0), pt(3000, 3000), pt(2000, 500), 200);
    println!("{:?}", c);
    // splitting must not lose or duplicate anything: a circle covering the
    // whole box returns every insertion
    let all = qt.points_in_circle(pt(0, 0), pt(3000, 3000), pt(1500, 1500), 3000);
    assert_eq!(all.len(), 1000);
    assert!(matches!(qt, QNode::Quad(_)));
}

#[test]
fn quadrant_boxes() {
    let bl = pt(0, 0);
    let tr = pt(10, 10);
    assert_eq!(blq(bl, tr), (pt(0, 0), pt(5, 5)));
    assert_eq!(brq(bl, tr), (pt(5, 0), pt(10, 5)));
    assert_eq!(tlq(bl, tr), (pt(0, 5), pt(5, 10)));
    assert_eq!(trq(bl, tr), (pt(5, 5), pt(10, 10)));
    // a box around the origin bisects through rounded-down midpoints
    let bl = pt(-5, -5);
    let tr = pt(4, 4);
    assert_eq!(blq(bl, tr), (pt(-5, -5), pt(-1, -1)));
    assert_eq!(trq(bl, tr), (pt(-1, -1), pt(4, 4)));
}

#[test]
fn intersects_inclusive() {
    let bl = pt(0, 0);
    let tr = pt(10, 10);
    // exactly on the inflated edge counts as overlapping
    assert!(intersects(bl, tr, pt(-3, 5), 3));
    assert!(intersects(bl, tr, pt(13, 5), 3));
    assert!(!intersects(bl, tr, pt(-4, 5), 3));
    assert!(!intersects(bl, tr, pt(5, 14), 3));
}

#[test]
fn count_preservation() {
    let mut rng = rand::rngs::StdRng::seed_from_u64(7);
    let bl = pt(-1000, -1000);
    let tr = pt(1000, 1000);
    let mut t = QNode::Points(Vec::new());
    for i in 0..500 {
        t.insert(
            pt(rng.random_range(-1000..=1000), rng.random_range(-1000..=1000)),
            bl,
            tr,
        );
        let all = t.points_in_circle(bl, tr, pt(0, 0), 3000);
        assert_eq!(all.len(), i + 1);
    }
}

#[test]
fn split_correctness() {
    // 65 points all in one spot force the first leaf past its capacity
    let bl = pt(0, 0);
    let tr = pt(100, 100);
    let mut rng = rand::rngs::StdRng::seed_from_u64(9);
    let pts: Vec<Vec2> = (0..65)
        .map(|_| pt(rng.random_range(0..=100), rng.random_range(0..=100)))
        .collect();
    let t = build(&pts, bl, tr);
    match t {
        QNode::Quad(q) => {
            let leaf = |n: &QNode<Vec2>| -> Vec<Vec2> {
                match n {
                    QNode::Points(ps) => ps.clone(),
                    QNode::Quad(_) => panic!("child of a fresh split must be a leaf"),
                }
            };
            let b0 = leaf(&q.bl);
            let b1 = leaf(&q.br);
            let b2 = leaf(&q.tl);
            let b3 = leaf(&q.tr);
            assert_eq!(b0.len() + b1.len() + b2.len() + b3.len(), 65);
            // each child holds only points passing its half-plane tests
            // against the original box's midpoint (50, 50)
            assert!(b0.iter().all(|p| p.x <= 50 && p.y <= 50));
            assert!(b1.iter().all(|p| p.x > 50 && p.y <= 50));
            assert!(b2.iter().all(|p| p.x <= 50 && p.y > 50));
            assert!(b3.iter().all(|p| p.x > 50 && p.y > 50));
        }
        QNode::Points(_) => panic!("65 insertions must split a capacity-64 leaf"),
    }
}

#[test]
fn query_exactness_random() {
    let mut rng = rand::rngs::StdRng::seed_from_u64(11);
    let bl = pt(-500, -500);
    let tr = pt(500, 500);
    let pts: Vec<Vec2> = (0..300)
        .map(|_| pt(rng.random_range(-500..=500), rng.random_range(-500..=500)))
        .collect();
    let t = build(&pts, bl, tr);
    for _ in 0..20 {
        let c = pt(rng.random_range(-500..=500), rng.random_range(-500..=500));
        let r = rng.random_range(0..=400);
        let got = sorted(t.points_in_circle(bl, tr, c, r));
        let want = sorted(brute_force(&pts, c, r));
        assert_eq!(got, want);
    }
}

#[test]
fn idempotent_rebuild() {
    let mut rng = rand::rngs::StdRng::seed_from_u64(13);
    let bl = pt(-300, -300);
    let tr = pt(300, 300);
    let pts: Vec<Vec2> = (0..150)
        .map(|_| pt(rng.random_range(-300..=300), rng.random_range(-300..=300)))
        .collect();
    let mut reversed = pts.clone();
    reversed.reverse();
    let t1 = build(&pts, bl, tr);
    let t2 = build(&reversed, bl, tr);
    for _ in 0..10 {
        let c = pt(rng.random_range(-300..=300), rng.random_range(-300..=300));
        let r = rng.random_range(0..=250);
        let r1 = sorted(t1.points_in_circle(bl, tr, c, r));
        let r2 = sorted(t2.points_in_circle(bl, tr, c, r));
        assert_eq!(r1, r2);
    }
}

#[test]
fn empty_tree_returns_nothing() {
    let bl = pt(0, 0);
    let tr = pt(10, 10);
    let t: QNode<Vec2> = QNode::Points(Vec::new());
    assert!(t.points_in_circle(bl, tr, pt(5, 5), 100).is_empty());
}

#[test]
fn negative_radius_returns_nothing() {
    let bl = pt(0, 0);
    let tr = pt(10, 10);
    let t = build(&[pt(5, 5), pt(1, 1)], bl, tr);
    let got = t.points_in_circle(bl, tr, pt(5, 5), -1);
    assert!(got.is_empty());
}

#[test]
fn zero_radius_returns_exact_center() {
    let bl = pt(0, 0);
    let tr = pt(10, 10);
    let t = build(&[pt(5, 5), pt(5, 6), pt(5, 5)], bl, tr);
    let got = t.points_in_circle(bl, tr, pt(5, 5), 0);
    assert_eq!(got.len(), 2);
    assert!(got.iter().all(|p| *p == pt(5, 5)));
}

#[test]
fn concrete_scenario() {
    // world box (-100,-100)..(100,100), 200 uniform random points: the
    // circle of radius 20 around the origin matches a linear scan, the
    // count stays 200, and the tree has split at least once
    let mut rng = rand::rngs::StdRng::seed_from_u64(42);
    let bl = pt(-100, -100);
    let tr = pt(100, 100);
    let pts: Vec<Vec2> = (0..200)
        .map(|_| pt(rng.random_range(-100..=100), rng.random_range(-100..=100)))
        .collect();
    let t = build(&pts, bl, tr);
    let got = sorted(t.points_in_circle(bl, tr, pt(0, 0), 20));
    let want = sorted(brute_force(&pts, pt(0, 0), 20));
    assert_eq!(got, want);
    let all = t.points_in_circle(bl, tr, pt(0, 0), 300);
    assert_eq!(all.len(), 200);
    assert!(matches!(t, QNode::Quad(_)));
}
