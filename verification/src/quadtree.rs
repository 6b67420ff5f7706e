//! A region quadtree over 2-D integer points: capacity-triggered
//! subdivision and exact circular range queries.
//!
//! A node never stores its own bounding box; every operation receives the
//! box (bottom-left and top-right corners) and recomputes the children's
//! boxes by bisection, so a node's implicit box is determined by the path
//! from the root and the original box.

use vstd::prelude::*;

use crate::geom::{box_ok, in_box, in_circle, pt_ok, Vec2, COORD_LIMIT};
use crate::num::{lemma_mid_between, lemma_sq_le_abs, mid64, mid_spec};
use crate::seqs::{
    exactly_one, lemma_concat4_multiset_insert, lemma_filter_all_false, lemma_filter_take_step,
    lemma_partition4_multiset,
};

verus! {

/// Most elements a leaf may hold straight after an insertion; one more
/// forces a split.
pub const CAPACITY: usize = 64;

/// The midpoint of a box, each coordinate rounded down.
pub open spec fn mid_pt(bl: Vec2, tr: Vec2) -> Vec2 {
    Vec2 {
        x: mid_spec(bl.x as int, tr.x as int) as i64,
        y: mid_spec(bl.y as int, tr.y as int) as i64,
    }
}

/// The midpoint's coordinates sit inside the box, so they fit `i64` and
/// the cast in `mid_pt` is exact.
pub proof fn lemma_mid_pt_in_box(bl: Vec2, tr: Vec2)
    requires
        bl.x <= tr.x,
        bl.y <= tr.y,
    ensures
        bl.x <= mid_pt(bl, tr).x <= tr.x,
        bl.y <= mid_pt(bl, tr).y <= tr.y,
        mid_pt(bl, tr).x as int == mid_spec(bl.x as int, tr.x as int),
        mid_pt(bl, tr).y as int == mid_spec(bl.y as int, tr.y as int),
{
    lemma_mid_between(bl.x as int, tr.x as int);
    lemma_mid_between(bl.y as int, tr.y as int);
}

/// The bottom-left quadrant of a box.
pub open spec fn blq_spec(bl: Vec2, tr: Vec2) -> (Vec2, Vec2) {
    (bl, mid_pt(bl, tr))
}

/// The bottom-right quadrant of a box.
pub open spec fn brq_spec(bl: Vec2, tr: Vec2) -> (Vec2, Vec2) {
    (Vec2 { x: mid_pt(bl, tr).x, y: bl.y }, Vec2 { x: tr.x, y: mid_pt(bl, tr).y })
}

/// The top-left quadrant of a box.
pub open spec fn tlq_spec(bl: Vec2, tr: Vec2) -> (Vec2, Vec2) {
    (Vec2 { x: bl.x, y: mid_pt(bl, tr).y }, Vec2 { x: mid_pt(bl, tr).x, y: tr.y })
}

/// The top-right quadrant of a box.
pub open spec fn trq_spec(bl: Vec2, tr: Vec2) -> (Vec2, Vec2) {
    (mid_pt(bl, tr), tr)
}

/// Bottom-left quadrant of the box `(bl, tr)`.
pub fn blq(bl: Vec2, tr: Vec2) -> (r: (Vec2, Vec2))
    requires
        bl.x <= tr.x,
        bl.y <= tr.y,
    ensures
        r == blq_spec(bl, tr),
{
    let m = Vec2 { x: mid64(bl.x, tr.x), y: mid64(bl.y, tr.y) };
    (bl, m)
}

/// Bottom-right quadrant of the box `(bl, tr)`.
pub fn brq(bl: Vec2, tr: Vec2) -> (r: (Vec2, Vec2))
    requires
        bl.x <= tr.x,
        bl.y <= tr.y,
    ensures
        r == brq_spec(bl, tr),
{
    let mx = mid64(bl.x, tr.x);
    let my = mid64(bl.y, tr.y);
    (Vec2 { x: mx, y: bl.y }, Vec2 { x: tr.x, y: my })
}

/// Top-left quadrant of the box `(bl, tr)`.
pub fn tlq(bl: Vec2, tr: Vec2) -> (r: (Vec2, Vec2))
    requires
        bl.x <= tr.x,
        bl.y <= tr.y,
    ensures
        r == tlq_spec(bl, tr),
{
    let mx = mid64(bl.x, tr.x);
    let my = mid64(bl.y, tr.y);
    (Vec2 { x: bl.x, y: my }, Vec2 { x: mx, y: tr.y })
}

/// Top-right quadrant of the box `(bl, tr)`.
pub fn trq(bl: Vec2, tr: Vec2) -> (r: (Vec2, Vec2))
    requires
        bl.x <= tr.x,
        bl.y <= tr.y,
    ensures
        r == trq_spec(bl, tr),
{
    let m = Vec2 { x: mid64(bl.x, tr.x), y: mid64(bl.y, tr.y) };
    (m, tr)
}

/// The capability to expose a position, independent of an element's other
/// fields.
pub trait Position: Sized {
    /// The element's position as the specifications see it.
    spec fn pos_spec(&self) -> Vec2;

    /// The element's position.
    fn pos(&self) -> (p: Vec2)
        ensures
            p == self.pos_spec(),
    ;
}

impl Position for Vec2 {
    open spec fn pos_spec(&self) -> Vec2 {
        *self
    }

    fn pos(&self) -> (p: Vec2) {
        *self
    }
}

/// Selects elements routed to the bottom-left quadrant: ties on either
/// axis go to the lower and left child.
pub open spec fn sel_bl<T: Position>(m: Vec2) -> spec_fn(T) -> bool {
    |t: T| t.pos_spec().x <= m.x && t.pos_spec().y <= m.y
}

/// Selects elements routed to the bottom-right quadrant.
pub open spec fn sel_br<T: Position>(m: Vec2) -> spec_fn(T) -> bool {
    |t: T| t.pos_spec().x > m.x && t.pos_spec().y <= m.y
}

/// Selects elements routed to the top-left quadrant.
pub open spec fn sel_tl<T: Position>(m: Vec2) -> spec_fn(T) -> bool {
    |t: T| t.pos_spec().x <= m.x && t.pos_spec().y > m.y
}

/// Selects elements routed to the top-right quadrant.
pub open spec fn sel_tr<T: Position>(m: Vec2) -> spec_fn(T) -> bool {
    |t: T| t.pos_spec().x > m.x && t.pos_spec().y > m.y
}

/// Selects elements whose position lies in the closed disc around `c`.
pub open spec fn sel_circle<T: Position>(c: Vec2, r: int) -> spec_fn(T) -> bool {
    |t: T| in_circle(t.pos_spec(), c, r)
}

/// The four children of an internal node, one per quadrant, each owned
/// exclusively by the parent.
pub struct Quadrants<T> {
    pub bl: Box<QNode<T>>,
    pub br: Box<QNode<T>>,
    pub tl: Box<QNode<T>>,
    pub tr: Box<QNode<T>>,
}

/// A quadtree node: either a leaf holding elements or an internal node
/// holding four quadrant children.
pub enum QNode<T> {
    Points(Vec<T>),
    Quad(Quadrants<T>),
}

impl<T> Quadrants<T> {
    pub fn new(bl: QNode<T>, br: QNode<T>, tl: QNode<T>, tr: QNode<T>) -> (q: Quadrants<T>)
        ensures
            *q.bl == bl,
            *q.br == br,
            *q.tl == tl,
            *q.tr == tr,
    {
        let bl = Box::new(bl);
        let br = Box::new(br);
        let tl = Box::new(tl);
        let tr = Box::new(tr);
        Quadrants { bl, br, tl, tr }
    }
}

impl<T> QNode<T> {
    /// Every element stored below this node, leaves concatenated in
    /// child order.
    pub open spec fn elems(self) -> Seq<T>
        decreases self,
    {
        match self {
            QNode::Points(ps) => ps@,
            QNode::Quad(q) => (*q.bl).elems() + (*q.br).elems() + (*q.tl).elems()
                + (*q.tr).elems(),
        }
    }
}

impl<T: Position> QNode<T> {
    /// Every stored element lies in the box the node is addressed by,
    /// recursively down the bisected quadrants.
    pub open spec fn wf(self, bl: Vec2, tr: Vec2) -> bool
        decreases self,
    {
        match self {
            QNode::Points(ps) => forall|i: int|
                0 <= i < ps@.len() ==> in_box((#[trigger] ps@[i]).pos_spec(), bl, tr),
            QNode::Quad(q) => {
                &&& (*q.bl).wf(blq_spec(bl, tr).0, blq_spec(bl, tr).1)
                &&& (*q.br).wf(brq_spec(bl, tr).0, brq_spec(bl, tr).1)
                &&& (*q.tl).wf(tlq_spec(bl, tr).0, tlq_spec(bl, tr).1)
                &&& (*q.tr).wf(trq_spec(bl, tr).0, trq_spec(bl, tr).1)
            },
        }
    }

    /// What a circular range query returns: the stored elements whose
    /// squared distance to the center is at most the squared radius.
    pub open spec fn query_spec(self, center: Vec2, radius: int) -> Seq<T> {
        self.elems().filter(sel_circle(center, radius))
    }
}

/// A well-formed subtree keeps all its elements inside its box.
pub proof fn lemma_wf_elems_in_box<T: Position>(t: QNode<T>, bl: Vec2, tr: Vec2)
    requires
        t.wf(bl, tr),
        bl.x <= tr.x,
        bl.y <= tr.y,
    ensures
        forall|i: int| 0 <= i < t.elems().len() ==> in_box((#[trigger] t.elems()[i]).pos_spec(), bl, tr),
    decreases t,
{
    match t {
        QNode::Points(ps) => {},
        QNode::Quad(q) => {
            lemma_mid_pt_in_box(bl, tr);
            lemma_wf_elems_in_box(*q.bl, blq_spec(bl, tr).0, blq_spec(bl, tr).1);
            lemma_wf_elems_in_box(*q.br, brq_spec(bl, tr).0, brq_spec(bl, tr).1);
            lemma_wf_elems_in_box(*q.tl, tlq_spec(bl, tr).0, tlq_spec(bl, tr).1);
            lemma_wf_elems_in_box(*q.tr, trq_spec(bl, tr).0, trq_spec(bl, tr).1);
            assert(forall|i: int|
                0 <= i < t.elems().len() ==> in_box((#[trigger] t.elems()[i]).pos_spec(), bl, tr))
                by {
                let e = t.elems();
                let e1 = (*q.bl).elems();
                let e2 = (*q.br).elems();
                let e3 = (*q.tl).elems();
                let e4 = (*q.tr).elems();
                assert(forall|i: int| 0 <= i < e1.len() ==> e[i] == e1[i]);
                assert(forall|i: int|
                    e1.len() <= i < e1.len() + e2.len() ==> e[i] == e2[i - e1.len()]);
                assert(forall|i: int|
                    e1.len() + e2.len() <= i < e1.len() + e2.len() + e3.len() ==> e[i] == e3[i
                        - e1.len() - e2.len()]);
                assert(forall|i: int|
                    e1.len() + e2.len() + e3.len() <= i < e.len() ==> e[i] == e4[i - e1.len()
                        - e2.len() - e3.len()]);
            }
        },
    }
}

impl<T: Position + Copy> QNode<T> {
    /// Sorts elements into the four quadrant bins around the midpoint
    /// `m`; ties on either axis go to the lower and left bin.
    fn partition(ps: &Vec<T>, m: Vec2) -> (r: (Vec<T>, Vec<T>, Vec<T>, Vec<T>))
        ensures
            r.0@ == ps@.filter(sel_bl::<T>(m)),
            r.1@ == ps@.filter(sel_br::<T>(m)),
            r.2@ == ps@.filter(sel_tl::<T>(m)),
            r.3@ == ps@.filter(sel_tr::<T>(m)),
    {
        let mut b0: Vec<T> = Vec::new();
        let mut b1: Vec<T> = Vec::new();
        let mut b2: Vec<T> = Vec::new();
        let mut b3: Vec<T> = Vec::new();
        let n = ps.len();
        let mut i: usize = 0;
        while i < n
            invariant
                i <= n,
                n == ps@.len(),
                b0@ == ps@.take(i as int).filter(sel_bl::<T>(m)),
                b1@ == ps@.take(i as int).filter(sel_br::<T>(m)),
                b2@ == ps@.take(i as int).filter(sel_tl::<T>(m)),
                b3@ == ps@.take(i as int).filter(sel_tr::<T>(m)),
            decreases n - i,
        {
            let p = ps[i];
            let pp = p.pos();
            if pp.x <= m.x {
                if pp.y <= m.y {
                    b0.push(p);
                } else {
                    b2.push(p);
                }
            } else {
                if pp.y <= m.y {
                    b1.push(p);
                } else {
                    b3.push(p);
                }
            }
            proof {
                lemma_filter_take_step(ps@, sel_bl::<T>(m), i as int);
                lemma_filter_take_step(ps@, sel_br::<T>(m), i as int);
                lemma_filter_take_step(ps@, sel_tl::<T>(m), i as int);
                lemma_filter_take_step(ps@, sel_tr::<T>(m), i as int);
            }
            i = i + 1;
        }
        proof {
            assert(ps@.take(n as int) =~= ps@);
        }
        (b0, b1, b2, b3)
    }

    /// Converts a leaf into an internal node whose four fresh leaves hold
    /// the midpoint partition of the old contents. Splitting never drops
    /// or duplicates an element, and each child receives exactly the
    /// elements passing its quadrant's half-plane tests.
    pub fn split(&mut self, bl: Vec2, tr: Vec2)
        requires
            *old(self) is Points,
            bl.x <= tr.x,
            bl.y <= tr.y,
        ensures
            *final(self) is Quad,
            ({
                let m = mid_pt(bl, tr);
                let q = (*final(self))->Quad_0;
                let ps = (*old(self))->Points_0@;
                &&& *q.bl is Points
                &&& *q.br is Points
                &&& *q.tl is Points
                &&& *q.tr is Points
                &&& (*q.bl)->Points_0@ == ps.filter(sel_bl::<T>(m))
                &&& (*q.br)->Points_0@ == ps.filter(sel_br::<T>(m))
                &&& (*q.tl)->Points_0@ == ps.filter(sel_tl::<T>(m))
                &&& (*q.tr)->Points_0@ == ps.filter(sel_tr::<T>(m))
            }),
            (*final(self)).elems().to_multiset() == (*old(self)).elems().to_multiset(),
            (*final(self)).elems().len() == (*old(self)).elems().len(),
            (*old(self)).wf(bl, tr) ==> (*final(self)).wf(bl, tr),
    {
        proof {
            lemma_mid_pt_in_box(bl, tr);
        }
        let m = Vec2 { x: mid64(bl.x, tr.x), y: mid64(bl.y, tr.y) };
        let parts = match self {
            QNode::Points(ps) => Self::partition(&*ps, m),
            QNode::Quad(_) => {
                proof {
                    assert(false);
                }
                (Vec::new(), Vec::new(), Vec::new(), Vec::new())
            },
        };
        let ghost ps = (*old(self))->Points_0@;
        *self = QNode::Quad(
            Quadrants::new(
                QNode::Points(parts.0),
                QNode::Points(parts.1),
                QNode::Points(parts.2),
                QNode::Points(parts.3),
            ),
        );
        proof {
            broadcast use vstd::seq_lib::group_to_multiset_ensures;

            assert(m == mid_pt(bl, tr));
            let p1 = sel_bl::<T>(m);
            let p2 = sel_br::<T>(m);
            let p3 = sel_tl::<T>(m);
            let p4 = sel_tr::<T>(m);
            assert(forall|i: int|
                0 <= i < ps.len() ==> exactly_one(p1(#[trigger] ps[i]), p2(ps[i]), p3(ps[i]), p4(ps[i])));
            lemma_partition4_multiset(ps, p1, p2, p3, p4);
            let q = (*self)->Quad_0;
            let f1 = ps.filter(p1);
            let f2 = ps.filter(p2);
            let f3 = ps.filter(p3);
            let f4 = ps.filter(p4);
            assert((*q.bl).elems() == f1);
            assert((*q.br).elems() == f2);
            assert((*q.tl).elems() == f3);
            assert((*q.tr).elems() == f4);
            assert((*self).elems() == f1 + f2 + f3 + f4);
            assert((f1 + f2 + f3 + f4).to_multiset().len() == (f1 + f2 + f3 + f4).len());
            assert(ps.to_multiset().len() == ps.len());
            if (*old(self)).wf(bl, tr) {
                crate::seqs::lemma_filter_elems_from(ps, p1);
                crate::seqs::lemma_filter_elems_from(ps, p2);
                crate::seqs::lemma_filter_elems_from(ps, p3);
                crate::seqs::lemma_filter_elems_from(ps, p4);
                let cbl = blq_spec(bl, tr);
                let cbr = brq_spec(bl, tr);
                let ctl = tlq_spec(bl, tr);
                let ctr = trq_spec(bl, tr);
                assert(forall|i: int|
                    0 <= i < ps.len() ==> in_box((#[trigger] ps[i]).pos_spec(), bl, tr));
                assert forall|j: int| 0 <= j < f1.len() implies in_box(
                    (#[trigger] f1[j]).pos_spec(),
                    cbl.0,
                    cbl.1,
                ) by {
                    assert(ps.contains(f1[j]) && p1(f1[j]));
                    let k = choose|k: int| 0 <= k < ps.len() && ps[k] == f1[j];
                    assert(in_box(ps[k].pos_spec(), bl, tr));
                }
                assert forall|j: int| 0 <= j < f2.len() implies in_box(
                    (#[trigger] f2[j]).pos_spec(),
                    cbr.0,
                    cbr.1,
                ) by {
                    assert(ps.contains(f2[j]) && p2(f2[j]));
                    let k = choose|k: int| 0 <= k < ps.len() && ps[k] == f2[j];
                    assert(in_box(ps[k].pos_spec(), bl, tr));
                }
                assert forall|j: int| 0 <= j < f3.len() implies in_box(
                    (#[trigger] f3[j]).pos_spec(),
                    ctl.0,
                    ctl.1,
                ) by {
                    assert(ps.contains(f3[j]) && p3(f3[j]));
                    let k = choose|k: int| 0 <= k < ps.len() && ps[k] == f3[j];
                    assert(in_box(ps[k].pos_spec(), bl, tr));
                }
                assert forall|j: int| 0 <= j < f4.len() implies in_box(
                    (#[trigger] f4[j]).pos_spec(),
                    ctr.0,
                    ctr.1,
                ) by {
                    assert(ps.contains(f4[j]) && p4(f4[j]));
                    let k = choose|k: int| 0 <= k < ps.len() && ps[k] == f4[j];
                    assert(in_box(ps[k].pos_spec(), bl, tr));
                }
                assert((*q.bl).wf(cbl.0, cbl.1));
                assert((*q.br).wf(cbr.0, cbr.1));
                assert((*q.tl).wf(ctl.0, ctl.1));
                assert((*q.tr).wf(ctr.0, ctr.1));
                assert((*self).wf(bl, tr));
            }
        }
    }

    /// Adds an element to the node covering the given box. The element's
    /// position must lie within the box. A leaf pushed past `CAPACITY`
    /// splits in place, so a node that is still a leaf afterwards holds at
    /// most `CAPACITY` elements; the stored contents always grow by
    /// exactly the inserted element.
    pub fn insert(&mut self, p: T, bl: Vec2, tr: Vec2)
        requires
            box_ok(bl, tr),
            in_box(p.pos_spec(), bl, tr),
            (*old(self)).wf(bl, tr),
        ensures
            (*final(self)).wf(bl, tr),
            (*final(self)).elems().to_multiset() == (*old(self)).elems().to_multiset().insert(p),
            (*final(self)).elems().len() == (*old(self)).elems().len() + 1,
            *final(self) is Points ==> (*final(self)).elems().len() <= CAPACITY,
        decreases *old(self),
    {
        proof {
            lemma_mid_pt_in_box(bl, tr);
        }
        let midx = mid64(bl.x, tr.x);
        match self {
            QNode::Points(pts) => {
                pts.push(p);
                proof {
                    broadcast use vstd::seq_lib::group_to_multiset_ensures;
                }
                if pts.len() > CAPACITY {
                    self.split(bl, tr);
                }
            },
            QNode::Quad(q) => {
                let pp = p.pos();
                let midy = mid64(bl.y, tr.y);
                let ghost e1 = (*q.bl).elems();
                let ghost e2 = (*q.br).elems();
                let ghost e3 = (*q.tl).elems();
                let ghost e4 = (*q.tr).elems();
                if pp.x <= midx {
                    if pp.y <= midy {
                        q.bl.insert(p, bl, Vec2 { x: midx, y: midy });
                    } else {
                        q.tl.insert(p, Vec2 { x: bl.x, y: midy }, Vec2 { x: midx, y: tr.y });
                    }
                } else {
                    if pp.y <= midy {
                        q.br.insert(p, Vec2 { x: midx, y: bl.y }, Vec2 { x: tr.x, y: midy });
                    } else {
                        q.tr.insert(p, Vec2 { x: midx, y: midy }, tr);
                    }
                }
                proof {
                    lemma_concat4_multiset_insert(
                        e1,
                        e2,
                        e3,
                        e4,
                        (*q.bl).elems(),
                        (*q.br).elems(),
                        (*q.tl).elems(),
                        (*q.tr).elems(),
                        p,
                    );
                }
            },
        }
    }
}

impl<T: Position + Copy> QNode<T> {
    /// Returns every stored element whose Euclidean distance to `center`
    /// is at most `radius` — no false negatives, no false positives.
    /// Subtrees whose box cannot reach the circle are pruned; surviving
    /// leaves are scanned exhaustively with the exact squared-distance
    /// test; internal nodes recurse into all four children. A negative
    /// radius returns nothing.
    pub fn points_in_circle(&self, bl: Vec2, tr: Vec2, center: Vec2, radius: i64) -> (pts: Vec<T>)
        requires
            box_ok(bl, tr),
            pt_ok(center),
            -COORD_LIMIT <= radius <= COORD_LIMIT,
            self.wf(bl, tr),
        ensures
            pts@ == self.query_spec(center, radius as int),
        decreases self,
    {
        let ghost pred = sel_circle::<T>(center, radius as int);
        let mut pts: Vec<T> = Vec::new();
        if !intersects(bl, tr, center, radius) {
            proof {
                lemma_wf_elems_in_box(*self, bl, tr);
                assert forall|i: int| 0 <= i < self.elems().len() implies !pred(
                    #[trigger] self.elems()[i],
                ) by {
                    lemma_miss_excludes(
                        self.elems()[i].pos_spec(),
                        bl,
                        tr,
                        center,
                        radius as int,
                    );
                }
                lemma_filter_all_false(self.elems(), pred);
            }
            return pts;
        }
        match self {
            QNode::Points(ps) => {
                let n = ps.len();
                let mut i: usize = 0;
                while i < n
                    invariant
                        i <= n,
                        n == ps@.len(),
                        pred == sel_circle::<T>(center, radius as int),
                        pts@ == ps@.take(i as int).filter(pred),
                        box_ok(bl, tr),
                        pt_ok(center),
                        -COORD_LIMIT <= radius <= COORD_LIMIT,
                        forall|k: int|
                            0 <= k < ps@.len() ==> in_box((#[trigger] ps@[k]).pos_spec(), bl, tr),
                    decreases n - i,
                {
                    let p = ps[i];
                    let pp = p.pos();
                    if crate::geom::within_circle(pp, center, radius) {
                        pts.push(p);
                    }
                    proof {
                        lemma_filter_take_step(ps@, pred, i as int);
                    }
                    i = i + 1;
                }
                proof {
                    assert(ps@.take(n as int) =~= ps@);
                }
            },
            QNode::Quad(q) => {
                proof {
                    lemma_mid_pt_in_box(bl, tr);
                }
                let (a1, b1) = blq(bl, tr);
                let mut r1 = q.bl.points_in_circle(a1, b1, center, radius);
                pts.append(&mut r1);
                let (a2, b2) = brq(bl, tr);
                let mut r2 = q.br.points_in_circle(a2, b2, center, radius);
                pts.append(&mut r2);
                let (a3, b3) = tlq(bl, tr);
                let mut r3 = q.tl.points_in_circle(a3, b3, center, radius);
                pts.append(&mut r3);
                let (a4, b4) = trq(bl, tr);
                let mut r4 = q.tr.points_in_circle(a4, b4, center, radius);
                pts.append(&mut r4);
                proof {
                    let e1 = (*q.bl).elems();
                    let e2 = (*q.br).elems();
                    let e3 = (*q.tl).elems();
                    let e4 = (*q.tr).elems();
                    Seq::filter_distributes_over_add(e1, e2, pred);
                    Seq::filter_distributes_over_add(e1 + e2, e3, pred);
                    Seq::filter_distributes_over_add(e1 + e2 + e3, e4, pred);
                    assert(pts@ =~= e1.filter(pred) + e2.filter(pred) + e3.filter(pred)
                        + e4.filter(pred));
                }
            },
        }
        pts
    }
}

/// Rebuilding an index from the same point set yields an index that
/// answers every circular range query with the same elements: the tree
/// structure may differ between the two builds, the query semantics may
/// not.
pub proof fn lemma_same_contents_same_queries<T: Position>(
    t1: QNode<T>,
    t2: QNode<T>,
    center: Vec2,
    radius: int,
)
    requires
        t1.elems().to_multiset() == t2.elems().to_multiset(),
    ensures
        t1.query_spec(center, radius).to_multiset() == t2.query_spec(center, radius).to_multiset(),
{
    crate::seqs::lemma_filter_permutation(t1.elems(), t2.elems(), sel_circle::<T>(center, radius));
}

/// Whether a box, inflated by the radius on every side, can reach the
/// circle's center; the pruning test of the range query, inclusive on all
/// four sides.
pub open spec fn intersects_spec(bl: Vec2, tr: Vec2, c: Vec2, r: int) -> bool {
    &&& c.x >= bl.x - r
    &&& c.x <= tr.x + r
    &&& c.y >= bl.y - r
    &&& c.y <= tr.y + r
}

/// The box/circle overlap test used to prune subtrees.
pub fn intersects(bl: Vec2, tr: Vec2, center: Vec2, radius: i64) -> (b: bool)
    requires
        pt_ok(bl),
        pt_ok(tr),
        pt_ok(center),
        -COORD_LIMIT <= radius <= COORD_LIMIT,
    ensures
        b == intersects_spec(bl, tr, center, radius as int),
{
    let cx = center.x as i128;
    let cy = center.y as i128;
    let r = radius as i128;
    cx >= bl.x as i128 - r && cx <= tr.x as i128 + r && cy >= bl.y as i128 - r && cy <= tr.y as i128
        + r
}

/// A point inside a box that the query circle cannot reach lies outside
/// the circle: pruning drops nothing.
pub proof fn lemma_miss_excludes(p: Vec2, bl: Vec2, tr: Vec2, c: Vec2, r: int)
    requires
        in_box(p, bl, tr),
        !intersects_spec(bl, tr, c, r),
    ensures
        !in_circle(p, c, r),
{
    if in_circle(p, c, r) {
        let dx = p.x - c.x;
        let dy = p.y - c.y;
        assert(dx * dx >= 0) by (nonlinear_arith);
        assert(dy * dy >= 0) by (nonlinear_arith);
        lemma_sq_le_abs(dx, r);
        lemma_sq_le_abs(dy, r);
        assert(false);
    }
}

} // verus!
