//! A static three-level octree over the track's bounding volume.
//!
//! Every entry (a track segment's box, or a vehicle's box) is stored in
//! exactly one node: the deepest node on whose descent the box never
//! straddles a split plane. A point query walks the single root-to-leaf
//! path containing the point; boxes stored anywhere else cannot contain
//! it, so the collected candidates are exactly the brute-force answer.
use vstd::prelude::*;
use crate::linalg::{Vector, in_bounds};
use crate::math::{abs_i, tdiv, tdiv_i64, lemma_tdiv_bound, VEC_MAX};
use crate::spline::{Spline, spline_wf, gods_s, get_up_right_s, QUERY_MAX, BOUNDS_RADIUS};

verus! {

broadcast use vstd::seq_lib::group_filter_ensures;

/// Number of levels below the root.
pub const MAX_DEPTH: usize = 3;

/// Total number of nodes: 1 + 8 + 64 + 512.
pub const NODE_COUNT: usize = 585;

/// One stored bounding box and the index it stands for.
pub struct OctreeListEntry {
    pub index: usize,
    pub min: Vector,
    pub max: Vector,
}

struct OctreeNode {
    segments: Vec<OctreeListEntry>,
    vehicles: Vec<OctreeListEntry>,
}

/// The octree: a fixed arena of nodes, indexed by descent path.
pub struct Octree {
    min: Vector,
    max: Vector,
    nodes: Vec<OctreeNode>,
    vehicle_log: Ghost<Seq<OctreeListEntry>>,
    segment_log: Ghost<Seq<OctreeListEntry>>,
}

/// First arena index of each level.
pub open spec fn level_base(l: int) -> int {
    if l <= 0 {
        0
    } else if l == 1 {
        1
    } else if l == 2 {
        9
    } else {
        73
    }
}

/// Powers of eight.
pub open spec fn pow8(n: nat) -> int
    decreases n,
{
    if n == 0 {
        1
    } else {
        8 * pow8((n - 1) as nat)
    }
}

/// A descent path: at most `MAX_DEPTH` octant digits.
pub open spec fn valid_path(d: Seq<int>) -> bool {
    d.len() <= MAX_DEPTH && forall|i: int| 0 <= i < d.len() ==> 0 <= #[trigger] d[i] < 8
}

/// The octant digits read as a base-eight number.
pub open spec fn path_p(d: Seq<int>) -> int
    decreases d.len(),
{
    if d.len() == 0 {
        0
    } else {
        path_p(d.drop_last()) * 8 + d.last()
    }
}

/// The arena index of the node reached by a descent path.
pub open spec fn node_index(d: Seq<int>) -> int {
    level_base(d.len() as int) + path_p(d)
}

/// The center of a one-axis interval, as the code computes it.
pub open spec fn center_c(mn: int, mx: int) -> int {
    tdiv(mn + mx, 2)
}

/// Which side of a split plane a point coordinate falls on.
pub open spec fn pt_above(q: int, c: int) -> bool {
    q >= c
}

/// Which side of a split plane a one-axis box interval falls on, if any:
/// strictly below, strictly above, or straddling (`None`).
pub open spec fn box_axis(lo: int, hi: int, c: int) -> Option<bool> {
    if lo < c && hi < c {
        Some(false)
    } else if lo > c && hi > c {
        Some(true)
    } else {
        None
    }
}

/// The octant digit encoding three axis sides.
pub open spec fn oct_num(bx: bool, by: bool, bz: bool) -> int {
    (if bx {
        1int
    } else {
        0int
    }) + (if by {
        2int
    } else {
        0int
    }) + (if bz {
        4int
    } else {
        0int
    })
}

/// The octant fully containing a box, or `None` if the box straddles a
/// split plane of the region.
pub open spec fn box_octant(mn: Vector, mx: Vector, lo: Vector, hi: Vector) -> Option<
    (bool, bool, bool),
> {
    let ox = box_axis(lo.x as int, hi.x as int, center_c(mn.x as int, mx.x as int));
    let oy = box_axis(lo.y as int, hi.y as int, center_c(mn.y as int, mx.y as int));
    let oz = box_axis(lo.z as int, hi.z as int, center_c(mn.z as int, mx.z as int));
    if ox is Some && oy is Some && oz is Some {
        Some((ox->Some_0, oy->Some_0, oz->Some_0))
    } else {
        None
    }
}

/// The octant containing a point (points always have a definite side).
pub open spec fn point_octant(mn: Vector, mx: Vector, q: Vector) -> (bool, bool, bool) {
    (
        pt_above(q.x as int, center_c(mn.x as int, mx.x as int)),
        pt_above(q.y as int, center_c(mn.y as int, mx.y as int)),
        pt_above(q.z as int, center_c(mn.z as int, mx.z as int)),
    )
}

/// The child region for an octant: each axis keeps the chosen half.
pub open spec fn shrink(mn: Vector, mx: Vector, bx: bool, by: bool, bz: bool) -> (Vector, Vector) {
    let cx = center_c(mn.x as int, mx.x as int) as i64;
    let cy = center_c(mn.y as int, mx.y as int) as i64;
    let cz = center_c(mn.z as int, mx.z as int) as i64;
    (
        Vector {
            x: if bx {
                cx
            } else {
                mn.x
            },
            y: if by {
                cy
            } else {
                mn.y
            },
            z: if bz {
                cz
            } else {
                mn.z
            },
        },
        Vector {
            x: if bx {
                mx.x
            } else {
                cx
            },
            y: if by {
                mx.y
            } else {
                cy
            },
            z: if bz {
                mx.z
            } else {
                cz
            },
        },
    )
}

/// The descent path of a box from a region: one digit per level until
/// the box straddles a split plane or the depth limit is reached.
pub open spec fn box_path(mn: Vector, mx: Vector, lo: Vector, hi: Vector, fuel: nat) -> Seq<int>
    decreases fuel,
{
    if fuel == 0 {
        Seq::empty()
    } else {
        match box_octant(mn, mx, lo, hi) {
            Some((bx, by, bz)) => {
                let (m2, x2) = shrink(mn, mx, bx, by, bz);
                seq![oct_num(bx, by, bz)] + box_path(m2, x2, lo, hi, (fuel - 1) as nat)
            },
            None => Seq::empty(),
        }
    }
}

/// The descent path of a point from a region: always `fuel` digits.
pub open spec fn point_path(mn: Vector, mx: Vector, q: Vector, fuel: nat) -> Seq<int>
    decreases fuel,
{
    if fuel == 0 {
        Seq::empty()
    } else {
        let (bx, by, bz) = point_octant(mn, mx, q);
        let (m2, x2) = shrink(mn, mx, bx, by, bz);
        seq![oct_num(bx, by, bz)] + point_path(m2, x2, q, (fuel - 1) as nat)
    }
}

/// A box contains a point when every coordinate lies inside it.
pub open spec fn box_contains(lo: Vector, hi: Vector, q: Vector) -> bool {
    &&& lo.x <= q.x <= hi.x
    &&& lo.y <= q.y <= hi.y
    &&& lo.z <= q.z <= hi.z
}

/// The predicate selecting the entries stored at the node with path `d`.
pub open spec fn stored_at(mn: Vector, mx: Vector, d: Seq<int>) -> spec_fn(OctreeListEntry) -> bool {
    |e: OctreeListEntry| box_path(mn, mx, e.min, e.max, MAX_DEPTH as nat) == d
}

/// Half-extent of the conservative box inserted for a vehicle: twice the
/// vehicle radius, to tolerate movement within the tick.
pub const VEHICLE_BOX_HALF: i64 = 39322;

/// A box's descent path has digits below eight and is never longer than
/// the fuel.
pub proof fn lemma_box_path_valid(mn: Vector, mx: Vector, lo: Vector, hi: Vector, fuel: nat)
    requires
        fuel <= MAX_DEPTH,
    ensures
        valid_path(box_path(mn, mx, lo, hi, fuel)),
        box_path(mn, mx, lo, hi, fuel).len() <= fuel,
    decreases fuel,
{
    if fuel == 0 {
    } else {
        match box_octant(mn, mx, lo, hi) {
            Some((bx, by, bz)) => {
                let (m2, x2) = shrink(mn, mx, bx, by, bz);
                lemma_box_path_valid(m2, x2, lo, hi, (fuel - 1) as nat);
                let rest = box_path(m2, x2, lo, hi, (fuel - 1) as nat);
                let whole = seq![oct_num(bx, by, bz)] + rest;
                assert forall|i: int| 0 <= i < whole.len() implies 0 <= #[trigger] whole[i]
                    < 8 by {
                    if i > 0 {
                        assert(whole[i] == rest[i - 1]);
                    }
                }
            },
            None => {},
        }
    }
}

/// A point's descent path has exactly `fuel` digits, all below eight.
pub proof fn lemma_point_path_valid(mn: Vector, mx: Vector, q: Vector, fuel: nat)
    requires
        fuel <= MAX_DEPTH,
    ensures
        valid_path(point_path(mn, mx, q, fuel)),
        point_path(mn, mx, q, fuel).len() == fuel,
    decreases fuel,
{
    if fuel == 0 {
    } else {
        let (bx, by, bz) = point_octant(mn, mx, q);
        let (m2, x2) = shrink(mn, mx, bx, by, bz);
        lemma_point_path_valid(m2, x2, q, (fuel - 1) as nat);
    }
}

/// Everything a query collected is the index of some logged box that
/// contains the query point.
pub open spec fn sound_result(log: Seq<OctreeListEntry>, q: Vector, r: Seq<usize>) -> bool {
    forall|j: int|
        #![trigger r[j]]
        0 <= j < r.len() ==> exists|k: int|
            0 <= k < log.len() && (#[trigger] log[k]).index == r[j] && box_contains(
                log[k].min,
                log[k].max,
                q,
            )
}

/// Every logged box containing the query point whose descent stops
/// before level `lvl` has its index in the result.
pub open spec fn complete_below(
    rmn: Vector,
    rmx: Vector,
    log: Seq<OctreeListEntry>,
    q: Vector,
    r: Seq<usize>,
    lvl: int,
) -> bool {
    forall|k: int|
        0 <= k < log.len() && box_contains((#[trigger] log[k]).min, log[k].max, q) && box_path(
            rmn,
            rmx,
            log[k].min,
            log[k].max,
            MAX_DEPTH as nat,
        ).len() < lvl ==> r.contains(log[k].index)
}

/// The key geometric fact: a box's descent path is a prefix of the
/// descent path of every point the box contains. So a point query that
/// walks its own path visits the box's node.
pub proof fn lemma_box_path_prefix(
    mn: Vector,
    mx: Vector,
    lo: Vector,
    hi: Vector,
    q: Vector,
    fuel: nat,
)
    requires
        box_contains(lo, hi, q),
    ensures
        box_path(mn, mx, lo, hi, fuel).is_prefix_of(point_path(mn, mx, q, fuel)),
    decreases fuel,
{
    if fuel == 0 {
        assert(box_path(mn, mx, lo, hi, fuel) =~= Seq::<int>::empty());
    } else {
        match box_octant(mn, mx, lo, hi) {
            Some((bx, by, bz)) => {
                let (pbx, pby, pbz) = point_octant(mn, mx, q);
                assert(pbx == bx && pby == by && pbz == bz);
                let (m2, x2) = shrink(mn, mx, bx, by, bz);
                lemma_box_path_prefix(m2, x2, lo, hi, q, (fuel - 1) as nat);
                let bp = box_path(m2, x2, lo, hi, (fuel - 1) as nat);
                let pp = point_path(m2, x2, q, (fuel - 1) as nat);
                let d0 = seq![oct_num(bx, by, bz)];
                assert((d0 + bp).is_prefix_of(d0 + pp)) by {
                    assert((d0 + pp).subrange(0, (d0 + bp).len() as int) =~= d0 + bp);
                }
            },
            None => {
                assert(box_path(mn, mx, lo, hi, fuel) =~= Seq::<int>::empty());
            },
        }
    }
}

/// Octant digits of a path are below eight and the base-eight reading is
/// below the level's node count.
pub proof fn lemma_path_p_bound(d: Seq<int>)
    requires
        forall|i: int| 0 <= i < d.len() ==> 0 <= #[trigger] d[i] < 8,
    ensures
        0 <= path_p(d) < pow8(d.len()),
    decreases d.len(),
{
    if d.len() == 0 {
    } else {
        let p = d.drop_last();
        assert(forall|i: int| 0 <= i < p.len() ==> 0 <= #[trigger] p[i] < 8);
        lemma_path_p_bound(p);
        assert(0 <= path_p(d) < pow8(d.len())) by (nonlinear_arith)
            requires
                path_p(d) == path_p(p) * 8 + d.last(),
                0 <= path_p(p) < pow8(p.len()),
                0 <= d.last() < 8,
                pow8(d.len()) == 8 * pow8(p.len()),
        ;
    }
}

/// Arena indices are within the arena.
pub proof fn lemma_node_index_range(d: Seq<int>)
    requires
        valid_path(d),
    ensures
        0 <= node_index(d) < NODE_COUNT,
{
    lemma_path_p_bound(d);
    assert(pow8(0) == 1);
    assert(pow8(1) == 8);
    assert(pow8(2) == 64);
    assert(pow8(3) == 512);
}

/// Distinct paths lead to distinct arena indices.
pub proof fn lemma_node_index_injective(a: Seq<int>, b: Seq<int>)
    requires
        valid_path(a),
        valid_path(b),
        a != b,
    ensures
        node_index(a) != node_index(b),
    decreases a.len(),
{
    lemma_path_p_bound(a);
    lemma_path_p_bound(b);
    assert(pow8(0) == 1);
    assert(pow8(1) == 8);
    assert(pow8(2) == 64);
    assert(pow8(3) == 512);
    if a.len() != b.len() {
        // levels occupy disjoint index ranges
    } else if a.len() == 0 {
        assert(a =~= b);
    } else {
        let pa = a.drop_last();
        let pb = b.drop_last();
        if path_p(a) == path_p(b) {
            assert(path_p(pa) == path_p(pb) && a.last() == b.last()) by (nonlinear_arith)
                requires
                    path_p(pa) * 8 + a.last() == path_p(pb) * 8 + b.last(),
                    0 <= a.last() < 8,
                    0 <= b.last() < 8,
            ;
            if a.last() == b.last() && pa =~= pb {
                assert forall|i: int| 0 <= i < a.len() implies a[i] == b[i] by {
                    if i < a.len() - 1 {
                        assert(a[i] == pa[i] && b[i] == pb[i]);
                    }
                }
                assert(a =~= b);
                assert(false);
            } else {
                assert(pa != pb);
                lemma_node_index_injective(pa, pb);
                assert(false);
            }
        }
    }
}

/// Combines per-axis sides into an octant slot, or `None` if any axis
/// straddles. The slot is the octant digit.
pub fn pool_index(which: [Option<bool>; 3]) -> (r: Option<usize>)
    ensures
        match (which[0], which[1], which[2]) {
            (Some(bx), Some(by), Some(bz)) => r == Some(oct_num(bx, by, bz) as usize),
            _ => r is None,
        },
{
    let b0 = match which[0] {
        Some(b) => b,
        None => {
            return None;
        },
    };
    let b1 = match which[1] {
        Some(b) => b,
        None => {
            return None;
        },
    };
    let b2 = match which[2] {
        Some(b) => b,
        None => {
            return None;
        },
    };
    Some(
        (if b0 {
            1usize
        } else {
            0usize
        }) + (if b1 {
            2usize
        } else {
            0usize
        }) + (if b2 {
            4usize
        } else {
            0usize
        }),
    )
}

/// Combines three definite sides into an octant digit.
pub fn existing_pool_index(which: [bool; 3]) -> (r: usize)
    ensures
        r == oct_num(which[0], which[1], which[2]) as usize,
{
    (if which[0] {
        1usize
    } else {
        0usize
    }) + (if which[1] {
        2usize
    } else {
        0usize
    }) + (if which[2] {
        4usize
    } else {
        0usize
    })
}

/// The center of a region interval, bounded like its ends.
fn center_of(mn: i64, mx: i64) -> (c: i64)
    requires
        abs_i(mn as int) <= VEC_MAX as int,
        abs_i(mx as int) <= VEC_MAX as int,
    ensures
        c as int == center_c(mn as int, mx as int),
        abs_i(c as int) <= VEC_MAX as int,
{
    proof {
        lemma_tdiv_bound((mn + mx) as int, 2 * (VEC_MAX as int), 2);
    }
    tdiv_i64(mn + mx, 2)
}

impl Octree {
    /// The sequence of vehicle boxes inserted since the last reset.
    pub closed spec fn vehicle_log(self) -> Seq<OctreeListEntry> {
        self.vehicle_log@
    }

    /// The sequence of segment boxes inserted at construction.
    pub closed spec fn segment_log(self) -> Seq<OctreeListEntry> {
        self.segment_log@
    }

    /// The root region.
    pub closed spec fn root_min(self) -> Vector {
        self.min
    }

    pub closed spec fn root_max(self) -> Vector {
        self.max
    }

    /// The entries stored at the node with descent path `d`.
    pub closed spec fn node_vehicles(self, d: Seq<int>) -> Seq<OctreeListEntry> {
        self.nodes@[node_index(d)].vehicles@
    }

    pub closed spec fn node_segments(self, d: Seq<int>) -> Seq<OctreeListEntry> {
        self.nodes@[node_index(d)].segments@
    }

    /// Structural invariant: each node holds exactly the logged entries
    /// whose box descends to it — every entry is in exactly one node.
    pub closed spec fn wf(self) -> bool {
        &&& self.nodes@.len() == NODE_COUNT
        &&& in_bounds(self.min, VEC_MAX as int)
        &&& in_bounds(self.max, VEC_MAX as int)
        &&& forall|d: Seq<int>|
            valid_path(d) ==> #[trigger] self.nodes@[node_index(d)].vehicles@ == self.vehicle_log@.filter(
                stored_at(self.min, self.max, d),
            )
        &&& forall|d: Seq<int>|
            valid_path(d) ==> #[trigger] self.nodes@[node_index(d)].segments@ == self.segment_log@.filter(
                stored_at(self.min, self.max, d),
            )
    }

    /// An empty tree over the given region.
    fn empty_tree(min: Vector, max: Vector) -> (r: Octree)
        requires
            in_bounds(min, VEC_MAX as int),
            in_bounds(max, VEC_MAX as int),
        ensures
            r.wf(),
            r.vehicle_log() == Seq::<OctreeListEntry>::empty(),
            r.segment_log() == Seq::<OctreeListEntry>::empty(),
            r.root_min() == min,
            r.root_max() == max,
    {
        let mut nodes: Vec<OctreeNode> = Vec::new();
        let mut i: usize = 0;
        while i < NODE_COUNT
            invariant
                nodes@.len() == i,
                i <= NODE_COUNT,
                forall|j: int|
                    0 <= j < i ==> (#[trigger] nodes@[j]).vehicles@ == Seq::<
                        OctreeListEntry,
                    >::empty() && nodes@[j].segments@ == Seq::<OctreeListEntry>::empty(),
            decreases NODE_COUNT - i,
        {
            nodes.push(OctreeNode { segments: Vec::new(), vehicles: Vec::new() });
            i += 1;
        }
        let r = Octree {
            min,
            max,
            nodes,
            vehicle_log: Ghost(Seq::empty()),
            segment_log: Ghost(Seq::empty()),
        };
        proof {
            assert forall|d: Seq<int>| valid_path(d) implies #[trigger] r.nodes@[node_index(
                d,
            )].vehicles@ == r.vehicle_log@.filter(stored_at(r.min, r.max, d)) by {
                lemma_node_index_range(d);
                assert(Seq::<OctreeListEntry>::empty().filter(stored_at(r.min, r.max, d))
                    =~= Seq::<OctreeListEntry>::empty());
            }
            assert forall|d: Seq<int>| valid_path(d) implies #[trigger] r.nodes@[node_index(
                d,
            )].segments@ == r.segment_log@.filter(stored_at(r.min, r.max, d)) by {
                lemma_node_index_range(d);
                assert(Seq::<OctreeListEntry>::empty().filter(stored_at(r.min, r.max, d))
                    =~= Seq::<OctreeListEntry>::empty());
            }
        }
        r
    }

    /// Stores a box at the deepest node whose descent never straddles:
    /// exactly one node receives the entry.
    #[verifier::rlimit(60)]
    fn add_box(&mut self, lo: Vector, hi: Vector, index: usize, vehicle: bool)
        requires
            old(self).wf(),
        ensures
            final(self).wf(),
            final(self).root_min() == old(self).root_min(),
            final(self).root_max() == old(self).root_max(),
            vehicle ==> final(self).vehicle_log() == old(self).vehicle_log().push(
                OctreeListEntry { index, min: lo, max: hi },
            ) && final(self).segment_log() == old(self).segment_log(),
            !vehicle ==> final(self).segment_log() == old(self).segment_log().push(
                OctreeListEntry { index, min: lo, max: hi },
            ) && final(self).vehicle_log() == old(self).vehicle_log(),
    {
        let ghost rmn = self.min;
        let ghost rmx = self.max;
        let mut mn = self.min;
        let mut mx = self.max;
        let ghost mut d: Seq<int> = Seq::empty();
        let mut p: usize = 0;
        let mut l: usize = 0;
        loop
            invariant
                self.wf(),
                self == old(self),
                rmn == self.min,
                rmx == self.max,
                l == d.len(),
                l <= MAX_DEPTH,
                valid_path(d),
                p == path_p(d),
                0 <= p < 512,
                in_bounds(mn, VEC_MAX as int),
                in_bounds(mx, VEC_MAX as int),
                box_path(rmn, rmx, lo, hi, MAX_DEPTH as nat) == d + box_path(
                    mn,
                    mx,
                    lo,
                    hi,
                    (MAX_DEPTH - l) as nat,
                ),
            ensures
                self == old(self),
                l == d.len(),
                l <= MAX_DEPTH,
                valid_path(d),
                p == path_p(d),
                0 <= p < 512,
                box_path(rmn, rmx, lo, hi, MAX_DEPTH as nat) == d,
            decreases MAX_DEPTH - l,
        {
            if l >= MAX_DEPTH {
                proof {
                    assert(box_path(mn, mx, lo, hi, 0) =~= Seq::<int>::empty());
                    assert(d + Seq::<int>::empty() =~= d);
                }
                break ;
            }
            let cx = center_of(mn.x, mx.x);
            let cy = center_of(mn.y, mx.y);
            let cz = center_of(mn.z, mx.z);
            let sx: Option<bool> = if lo.x < cx && hi.x < cx {
                Some(false)
            } else if lo.x > cx && hi.x > cx {
                Some(true)
            } else {
                None
            };
            let sy: Option<bool> = if lo.y < cy && hi.y < cy {
                Some(false)
            } else if lo.y > cy && hi.y > cy {
                Some(true)
            } else {
                None
            };
            let sz: Option<bool> = if lo.z < cz && hi.z < cz {
                Some(false)
            } else if lo.z > cz && hi.z > cz {
                Some(true)
            } else {
                None
            };
            let oct = match pool_index([sx, sy, sz]) {
                Some(o) => o,
                None => {
                    proof {
                        assert(box_octant(mn, mx, lo, hi) is None);
                        assert(box_path(mn, mx, lo, hi, (MAX_DEPTH - l) as nat) =~= Seq::<
                            int,
                        >::empty());
                        assert(d + Seq::<int>::empty() =~= d);
                    }
                    break ;
                },
            };
            let ghost (bx, by, bz) = box_octant(mn, mx, lo, hi)->Some_0;
            let (nmn, nmx) = (
                Vector {
                    x: if oct % 2 == 1 {
                        cx
                    } else {
                        mn.x
                    },
                    y: if (oct / 2) % 2 == 1 {
                        cy
                    } else {
                        mn.y
                    },
                    z: if (oct / 4) % 2 == 1 {
                        cz
                    } else {
                        mn.z
                    },
                },
                Vector {
                    x: if oct % 2 == 1 {
                        mx.x
                    } else {
                        cx
                    },
                    y: if (oct / 2) % 2 == 1 {
                        mx.y
                    } else {
                        cy
                    },
                    z: if (oct / 4) % 2 == 1 {
                        mx.z
                    } else {
                        cz
                    },
                },
            );
            proof {
                assert(oct == oct_num(bx, by, bz));
                assert((nmn, nmx) == shrink(mn, mx, bx, by, bz));
                let rest = box_path(nmn, nmx, lo, hi, (MAX_DEPTH - l - 1) as nat);
                assert(box_path(mn, mx, lo, hi, (MAX_DEPTH - l) as nat) == seq![
                    oct_num(bx, by, bz),
                ] + rest);
                assert(d.push(oct as int) =~= d + seq![oct_num(bx, by, bz)]);
                assert((d + seq![oct_num(bx, by, bz)]) + rest =~= d + (seq![oct_num(bx, by, bz)]
                    + rest));
                assert(d.push(oct as int).drop_last() =~= d);
                lemma_path_p_bound(d.push(oct as int));
                assert(pow8(0) == 1);
                assert(pow8(1) == 8);
                assert(pow8(2) == 64);
                assert(pow8(3) == 512);
            }
            mn = nmn;
            mx = nmx;
            p = p * 8 + oct;
            l += 1;
            proof {
                d = d.push(oct as int);
            }
        }
        // the descent stopped: the box's full path is exactly `d`
        proof {
            lemma_node_index_range(d);
        }
        let idx: usize = if l == 0 {
            0
        } else if l == 1 {
            1 + p
        } else if l == 2 {
            9 + p
        } else {
            73 + p
        };
        proof {
            assert(idx == node_index(d));
        }
        let entry = OctreeListEntry { index, min: lo, max: hi };
        let ghost entry_g = OctreeListEntry { index, min: lo, max: hi };
        if vehicle {
            self.nodes[idx].vehicles.push(entry);
            proof {
                self.vehicle_log@ = self.vehicle_log@.push(entry_g);
            }
        } else {
            self.nodes[idx].segments.push(entry);
            proof {
                self.segment_log@ = self.segment_log@.push(entry_g);
            }
        }
        proof {
            lemma_box_path_valid(rmn, rmx, lo, hi, MAX_DEPTH as nat);
            assert forall|dd: Seq<int>| valid_path(dd) implies #[trigger] self.nodes@[node_index(
                dd,
            )].vehicles@ == self.vehicle_log@.filter(stored_at(rmn, rmx, dd)) by {
                lemma_node_index_range(dd);
                let pred = stored_at(rmn, rmx, dd);
                assert(old(self).nodes@[node_index(dd)].vehicles@ == old(
                    self,
                ).vehicle_log@.filter(pred));
                if vehicle {
                    old(self).vehicle_log@.lemma_filter_push(entry_g, pred);
                    if dd == d {
                        assert(pred(entry_g));
                        assert(self.nodes@[node_index(dd)].vehicles@ == old(self).nodes@[node_index(
                            dd,
                        )].vehicles@.push(entry_g));
                    } else {
                        lemma_node_index_injective(dd, d);
                        assert(!pred(entry_g));
                        assert(self.nodes@[node_index(dd)].vehicles@ == old(self).nodes@[node_index(
                            dd,
                        )].vehicles@);
                    }
                } else {
                    if dd == d {
                        assert(self.nodes@[node_index(dd)].vehicles@ == old(self).nodes@[node_index(
                            dd,
                        )].vehicles@);
                    } else {
                        lemma_node_index_injective(dd, d);
                    }
                }
            }
            assert forall|dd: Seq<int>| valid_path(dd) implies #[trigger] self.nodes@[node_index(
                dd,
            )].segments@ == self.segment_log@.filter(stored_at(rmn, rmx, dd)) by {
                lemma_node_index_range(dd);
                let pred = stored_at(rmn, rmx, dd);
                assert(old(self).nodes@[node_index(dd)].segments@ == old(
                    self,
                ).segment_log@.filter(pred));
                if !vehicle {
                    old(self).segment_log@.lemma_filter_push(entry_g, pred);
                    if dd == d {
                        assert(pred(entry_g));
                        assert(self.nodes@[node_index(dd)].segments@ == old(self).nodes@[node_index(
                            dd,
                        )].segments@.push(entry_g));
                    } else {
                        lemma_node_index_injective(dd, d);
                        assert(!pred(entry_g));
                        assert(self.nodes@[node_index(dd)].segments@ == old(self).nodes@[node_index(
                            dd,
                        )].segments@);
                    }
                } else {
                    if dd == d {
                        assert(self.nodes@[node_index(dd)].segments@ == old(self).nodes@[node_index(
                            dd,
                        )].segments@);
                    } else {
                        lemma_node_index_injective(dd, d);
                    }
                }
            }
        }
    }

    /// Clears every per-tick vehicle list; segment entries stay.
    /// Call once at the start of each tick before any `add_vehicle`.
    pub fn reset_vehicles(&mut self)
        requires
            old(self).wf(),
        ensures
            final(self).wf(),
            final(self).vehicle_log() == Seq::<OctreeListEntry>::empty(),
            final(self).segment_log() == old(self).segment_log(),
            final(self).root_min() == old(self).root_min(),
            final(self).root_max() == old(self).root_max(),
    {
        let ghost rmn = self.min;
        let ghost rmx = self.max;
        let mut i: usize = 0;
        while i < NODE_COUNT
            invariant
                self.nodes@.len() == NODE_COUNT,
                self.min == rmn,
                rmn == old(self).min,
                self.max == rmx,
                rmx == old(self).max,
                self.vehicle_log == old(self).vehicle_log,
                self.segment_log == old(self).segment_log,
                i <= NODE_COUNT,
                forall|j: int|
                    0 <= j < i ==> (#[trigger] self.nodes@[j]).vehicles@ == Seq::<
                        OctreeListEntry,
                    >::empty(),
                forall|j: int|
                    0 <= j < NODE_COUNT ==> (#[trigger] self.nodes@[j]).segments@ == old(
                        self,
                    ).nodes@[j].segments@,
            decreases NODE_COUNT - i,
        {
            self.nodes[i].vehicles.clear();
            i += 1;
        }
        proof {
            self.vehicle_log@ = Seq::empty();
            assert forall|d: Seq<int>| valid_path(d) implies #[trigger] self.nodes@[node_index(
                d,
            )].vehicles@ == self.vehicle_log@.filter(stored_at(rmn, rmx, d)) by {
                lemma_node_index_range(d);
                assert(Seq::<OctreeListEntry>::empty().filter(stored_at(rmn, rmx, d)) =~= Seq::<
                    OctreeListEntry,
                >::empty());
            }
            assert forall|d: Seq<int>| valid_path(d) implies #[trigger] self.nodes@[node_index(
                d,
            )].segments@ == self.segment_log@.filter(stored_at(rmn, rmx, d)) by {
                lemma_node_index_range(d);
                assert(old(self).nodes@[node_index(d)].segments@ == self.segment_log@.filter(
                    stored_at(rmn, rmx, d),
                ));
            }
        }
    }

    /// Inserts a vehicle's conservative bounding box for this tick.
    pub fn add_vehicle(&mut self, pos: Vector, index: usize)
        requires
            old(self).wf(),
            in_bounds(pos, VEC_MAX as int),
        ensures
            final(self).wf(),
            final(self).vehicle_log() == old(self).vehicle_log().push(
                OctreeListEntry {
                    index,
                    min: Vector {
                        x: (pos.x - VEHICLE_BOX_HALF) as i64,
                        y: (pos.y - VEHICLE_BOX_HALF) as i64,
                        z: (pos.z - VEHICLE_BOX_HALF) as i64,
                    },
                    max: Vector {
                        x: (pos.x + VEHICLE_BOX_HALF) as i64,
                        y: (pos.y + VEHICLE_BOX_HALF) as i64,
                        z: (pos.z + VEHICLE_BOX_HALF) as i64,
                    },
                },
            ),
            final(self).segment_log() == old(self).segment_log(),
            final(self).root_min() == old(self).root_min(),
            final(self).root_max() == old(self).root_max(),
    {
        let lo = Vector {
            x: pos.x - VEHICLE_BOX_HALF,
            y: pos.y - VEHICLE_BOX_HALF,
            z: pos.z - VEHICLE_BOX_HALF,
        };
        let hi = Vector {
            x: pos.x + VEHICLE_BOX_HALF,
            y: pos.y + VEHICLE_BOX_HALF,
            z: pos.z + VEHICLE_BOX_HALF,
        };
        self.add_box(lo, hi, index, true);
    }
    /// Collects the indices of exactly those inserted vehicle boxes that
    /// contain the point: the same set a brute-force scan of every
    /// inserted box would find.
    pub fn find_vehicle_collisions(&self, point: &Vector) -> (r: Vec<usize>)
        requires
            self.wf(),
        ensures
            sound_result(self.vehicle_log(), *point, r@),
            forall|k: int|
                0 <= k < self.vehicle_log().len() && box_contains(
                    (#[trigger] self.vehicle_log()[k]).min,
                    self.vehicle_log()[k].max,
                    *point,
                ) ==> r@.contains(self.vehicle_log()[k].index),
    {
        let ghost rmn = self.min;
        let ghost rmx = self.max;
        let ghost log = self.vehicle_log@;
        let mut mn = self.min;
        let mut mx = self.max;
        let ghost mut d: Seq<int> = Seq::empty();
        let mut p: usize = 0;
        let mut l: usize = 0;
        let mut result: Vec<usize> = Vec::new();
        loop
            invariant
                self.wf(),
                rmn == self.min,
                rmx == self.max,
                log == self.vehicle_log@,
                l == d.len(),
                l <= MAX_DEPTH,
                valid_path(d),
                p == path_p(d),
                0 <= p < 512,
                in_bounds(mn, VEC_MAX as int),
                in_bounds(mx, VEC_MAX as int),
                point_path(rmn, rmx, *point, MAX_DEPTH as nat) == d + point_path(
                    mn,
                    mx,
                    *point,
                    (MAX_DEPTH - l) as nat,
                ),
                sound_result(log, *point, result@),
                complete_below(rmn, rmx, log, *point, result@, l as int),
            ensures
                sound_result(log, *point, result@),
                complete_below(rmn, rmx, log, *point, result@, MAX_DEPTH as int + 1),
            decreases MAX_DEPTH + 1 - l,
        {
            // collect from the node at the current path
            let idx: usize = if l == 0 {
                0
            } else if l == 1 {
                1 + p
            } else if l == 2 {
                9 + p
            } else {
                73 + p
            };
            proof {
                lemma_node_index_range(d);
                assert(idx == node_index(d));
            }
            let ghost node_list = self.nodes@[node_index(d)].vehicles@;
            let entries = &self.nodes[idx].vehicles;
            let n = entries.len();
            let mut i: usize = 0;
            while i < n
                invariant
                    n == entries@.len(),
                    entries@ == node_list,
                    node_list == log.filter(stored_at(rmn, rmx, d)),
                    i <= n,
                    sound_result(log, *point, result@),
                    complete_below(rmn, rmx, log, *point, result@, l as int),
                    forall|m: int|
                        0 <= m < i && box_contains(
                            (#[trigger] node_list[m]).min,
                            node_list[m].max,
                            *point,
                        ) ==> result@.contains(node_list[m].index),
                decreases n - i,
            {
                let e = &entries[i];
                let ghost prev = result@;
                if e.min.x <= point.x && e.max.x >= point.x && e.min.y <= point.y && e.max.y
                    >= point.y && e.min.z <= point.z && e.max.z >= point.z {
                    result.push(e.index);
                    proof {
                        let pred = stored_at(rmn, rmx, d);
                        let fl = log.filter(pred);
                        assert(fl[i as int] == node_list[i as int]);
                        assert(fl.contains(node_list[i as int]));
                        log.lemma_filter_contains_rev(pred, node_list[i as int]);
                        let k0 = choose|k: int|
                            0 <= k < log.len() && log[k] == node_list[i as int];
                        assert(box_contains(log[k0].min, log[k0].max, *point));
                        assert forall|x: usize| prev.contains(x) implies result@.contains(x) by {
                            let j = choose|j: int| 0 <= j < prev.len() && prev[j] == x;
                            assert(result@[j] == x);
                        }
                        assert(result@[result@.len() - 1] == node_list[i as int].index);
                        assert(result@.contains(node_list[i as int].index));
                        assert(sound_result(log, *point, result@)) by {
                            assert forall|j: int| #![trigger result@[j]] 0 <= j < result@.len()
                                implies exists|k: int|
                                0 <= k < log.len() && (#[trigger] log[k]).index == result@[j]
                                    && box_contains(log[k].min, log[k].max, *point) by {
                                if j < prev.len() {
                                    assert(result@[j] == prev[j]);
                                    assert(exists|k: int|
                                        0 <= k < log.len() && (#[trigger] log[k]).index == prev[j]
                                            && box_contains(log[k].min, log[k].max, *point));
                                } else {
                                    assert(result@[j] == node_list[i as int].index);
                                    assert(0 <= k0 < log.len() && log[k0].index == result@[j]
                                        && box_contains(log[k0].min, log[k0].max, *point));
                                }
                            }
                        }
                        assert(complete_below(rmn, rmx, log, *point, result@, l as int));
                    }
                }
                i += 1;
            }
            // every stored box here that contains the point is now collected
            proof {
                assert(complete_below(rmn, rmx, log, *point, result@, l as int + 1)) by {
                    assert forall|k: int|
                        0 <= k < log.len() && box_contains(
                            (#[trigger] log[k]).min,
                            log[k].max,
                            *point,
                        ) && box_path(rmn, rmx, log[k].min, log[k].max, MAX_DEPTH as nat).len() < l
                            + 1 implies result@.contains(log[k].index) by {
                        let bp = box_path(rmn, rmx, log[k].min, log[k].max, MAX_DEPTH as nat);
                        if bp.len() == l {
                            lemma_box_path_prefix(
                                rmn,
                                rmx,
                                log[k].min,
                                log[k].max,
                                *point,
                                MAX_DEPTH as nat,
                            );
                            lemma_point_path_valid(rmn, rmx, *point, MAX_DEPTH as nat);
                            let pp = point_path(rmn, rmx, *point, MAX_DEPTH as nat);
                            assert(bp =~= pp.subrange(0, l as int));
                            assert(pp.subrange(0, l as int) =~= d) by {
                                lemma_point_path_valid(mn, mx, *point, (MAX_DEPTH - l) as nat);
                            }
                            log.lemma_filter_contains(stored_at(rmn, rmx, d), k);
                            let fl = log.filter(stored_at(rmn, rmx, d));
                            assert(fl.contains(log[k]));
                            let m = choose|m: int| 0 <= m < fl.len() && fl[m] == log[k];
                            assert(result@.contains(node_list[m].index));
                        }
                    }
                }
            }
            if l >= MAX_DEPTH {
                break ;
            }
            // descend toward the point's octant
            let cx = center_of(mn.x, mx.x);
            let cy = center_of(mn.y, mx.y);
            let cz = center_of(mn.z, mx.z);
            let bx = point.x >= cx;
            let by = point.y >= cy;
            let bz = point.z >= cz;
            let oct = existing_pool_index([bx, by, bz]);
            let (nmn, nmx) = (
                Vector {
                    x: if bx {
                        cx
                    } else {
                        mn.x
                    },
                    y: if by {
                        cy
                    } else {
                        mn.y
                    },
                    z: if bz {
                        cz
                    } else {
                        mn.z
                    },
                },
                Vector {
                    x: if bx {
                        mx.x
                    } else {
                        cx
                    },
                    y: if by {
                        mx.y
                    } else {
                        cy
                    },
                    z: if bz {
                        mx.z
                    } else {
                        cz
                    },
                },
            );
            proof {
                assert((bx, by, bz) == point_octant(mn, mx, *point));
                assert((nmn, nmx) == shrink(mn, mx, bx, by, bz));
                let rest = point_path(nmn, nmx, *point, (MAX_DEPTH - l - 1) as nat);
                assert(point_path(mn, mx, *point, (MAX_DEPTH - l) as nat) == seq![
                    oct_num(bx, by, bz),
                ] + rest);
                assert(d.push(oct as int) =~= d + seq![oct_num(bx, by, bz)]);
                assert((d + seq![oct_num(bx, by, bz)]) + rest =~= d + (seq![oct_num(bx, by, bz)]
                    + rest));
                assert(d.push(oct as int).drop_last() =~= d);
                lemma_path_p_bound(d.push(oct as int));
                assert(pow8(0) == 1);
                assert(pow8(1) == 8);
                assert(pow8(2) == 64);
                assert(pow8(3) == 512);
            }
            mn = nmn;
            mx = nmx;
            p = p * 8 + oct;
            l += 1;
            proof {
                d = d.push(oct as int);
            }
        }
        proof {
            assert forall|k: int|
                0 <= k < log.len() && box_contains(
                    (#[trigger] log[k]).min,
                    log[k].max,
                    *point,
                ) implies result@.contains(log[k].index) by {
                lemma_box_path_valid(rmn, rmx, log[k].min, log[k].max, MAX_DEPTH as nat);
            }
        }
        result
    }
}

/// Each logged vehicle box is stored in exactly one node of a
/// well-formed octree: the node its descent path reaches.
pub proof fn lemma_vehicle_in_exactly_one_node(o: Octree, k: int)
    requires
        o.wf(),
        0 <= k < o.vehicle_log().len(),
    ensures
        ({
            let e = o.vehicle_log()[k];
            let d = box_path(o.root_min(), o.root_max(), e.min, e.max, MAX_DEPTH as nat);
            &&& valid_path(d)
            &&& o.node_vehicles(d).contains(e)
            &&& forall|d2: Seq<int>|
                valid_path(d2) && d2 != d ==> !(#[trigger] o.node_vehicles(d2)).contains(e)
        }),
{
    let e = o.vehicle_log()[k];
    let d = box_path(o.root_min(), o.root_max(), e.min, e.max, MAX_DEPTH as nat);
    lemma_box_path_valid(o.root_min(), o.root_max(), e.min, e.max, MAX_DEPTH as nat);
    o.vehicle_log().lemma_filter_contains(stored_at(o.root_min(), o.root_max(), d), k);
    assert forall|d2: Seq<int>| valid_path(d2) && d2 != d implies !(#[trigger] o.node_vehicles(
        d2,
    )).contains(e) by {
        if o.node_vehicles(d2).contains(e) {
            let fl = o.vehicle_log().filter(stored_at(o.root_min(), o.root_max(), d2));
            let m = choose|m: int| 0 <= m < fl.len() && fl[m] == e;
            o.vehicle_log().lemma_filter_pred(stored_at(o.root_min(), o.root_max(), d2), m);
        }
    }
}

/// Each logged segment box is stored in exactly one node of a
/// well-formed octree: the node its descent path reaches.
pub proof fn lemma_segment_in_exactly_one_node(o: Octree, k: int)
    requires
        o.wf(),
        0 <= k < o.segment_log().len(),
    ensures
        ({
            let e = o.segment_log()[k];
            let d = box_path(o.root_min(), o.root_max(), e.min, e.max, MAX_DEPTH as nat);
            &&& valid_path(d)
            &&& o.node_segments(d).contains(e)
            &&& forall|d2: Seq<int>|
                valid_path(d2) && d2 != d ==> !(#[trigger] o.node_segments(d2)).contains(e)
        }),
{
    let e = o.segment_log()[k];
    let d = box_path(o.root_min(), o.root_max(), e.min, e.max, MAX_DEPTH as nat);
    lemma_box_path_valid(o.root_min(), o.root_max(), e.min, e.max, MAX_DEPTH as nat);
    o.segment_log().lemma_filter_contains(stored_at(o.root_min(), o.root_max(), d), k);
    assert forall|d2: Seq<int>| valid_path(d2) && d2 != d implies !(#[trigger] o.node_segments(
        d2,
    )).contains(e) by {
        if o.node_segments(d2).contains(e) {
            let fl = o.segment_log().filter(stored_at(o.root_min(), o.root_max(), d2));
            let m = choose|m: int| 0 <= m < fl.len() && fl[m] == e;
            o.segment_log().lemma_filter_pred(stored_at(o.root_min(), o.root_max(), d2), m);
        }
    }
}



/// Every segment box of this octree names a baked segment of the spline.
pub open spec fn segments_match(o: Octree, s: Spline) -> bool {
    forall|k: int|
        0 <= k < o.segment_log().len() ==> (#[trigger] o.segment_log()[k]).index < s.baked@.len()
}

/// Every segment box lies inside the root region.
pub open spec fn segments_in_root(o: Octree) -> bool {
    forall|k: int|
        0 <= k < o.segment_log().len() ==> box_contains(
            o.root_min(),
            o.root_max(),
            (#[trigger] o.segment_log()[k]).min,
        ) && box_contains(o.root_min(), o.root_max(), o.segment_log()[k].max)
}

/// A point outside the root region on any axis is contained in no
/// segment box, so the closest-offset query finds nothing for it.
pub proof fn lemma_outside_root(o: Octree, q: Vector)
    requires
        segments_in_root(o),
        !box_contains(o.root_min(), o.root_max(), q),
    ensures
        forall|k: int|
            0 <= k < o.segment_log().len() ==> !box_contains(
                (#[trigger] o.segment_log()[k]).min,
                o.segment_log()[k].max,
                q,
            ),
{
}

impl Octree {
    /// Collects the indices of exactly those segment boxes that contain
    /// the point: the same set a brute-force scan of every segment box
    /// would find.
    fn collect_segments(&self, point: &Vector) -> (r: Vec<usize>)
        requires
            self.wf(),
        ensures
            sound_result(self.segment_log(), *point, r@),
            forall|k: int|
                0 <= k < self.segment_log().len() && box_contains(
                    (#[trigger] self.segment_log()[k]).min,
                    self.segment_log()[k].max,
                    *point,
                ) ==> r@.contains(self.segment_log()[k].index),
    {
        let ghost rmn = self.min;
        let ghost rmx = self.max;
        let ghost log = self.segment_log@;
        let mut mn = self.min;
        let mut mx = self.max;
        let ghost mut d: Seq<int> = Seq::empty();
        let mut p: usize = 0;
        let mut l: usize = 0;
        let mut result: Vec<usize> = Vec::new();
        loop
            invariant
                self.wf(),
                rmn == self.min,
                rmx == self.max,
                log == self.segment_log@,
                l == d.len(),
                l <= MAX_DEPTH,
                valid_path(d),
                p == path_p(d),
                0 <= p < 512,
                in_bounds(mn, VEC_MAX as int),
                in_bounds(mx, VEC_MAX as int),
                point_path(rmn, rmx, *point, MAX_DEPTH as nat) == d + point_path(
                    mn,
                    mx,
                    *point,
                    (MAX_DEPTH - l) as nat,
                ),
                sound_result(log, *point, result@),
                complete_below(rmn, rmx, log, *point, result@, l as int),
            ensures
                sound_result(log, *point, result@),
                complete_below(rmn, rmx, log, *point, result@, MAX_DEPTH as int + 1),
            decreases MAX_DEPTH + 1 - l,
        {
            // collect from the node at the current path
            let idx: usize = if l == 0 {
                0
            } else if l == 1 {
                1 + p
            } else if l == 2 {
                9 + p
            } else {
                73 + p
            };
            proof {
                lemma_node_index_range(d);
                assert(idx == node_index(d));
            }
            let ghost node_list = self.nodes@[node_index(d)].segments@;
            let entries = &self.nodes[idx].segments;
            let n = entries.len();
            let mut i: usize = 0;
            while i < n
                invariant
                    n == entries@.len(),
                    entries@ == node_list,
                    node_list == log.filter(stored_at(rmn, rmx, d)),
                    i <= n,
                    sound_result(log, *point, result@),
                    complete_below(rmn, rmx, log, *point, result@, l as int),
                    forall|m: int|
                        0 <= m < i && box_contains(
                            (#[trigger] node_list[m]).min,
                            node_list[m].max,
                            *point,
                        ) ==> result@.contains(node_list[m].index),
                decreases n - i,
            {
                let e = &entries[i];
                let ghost prev = result@;
                if e.min.x <= point.x && e.max.x >= point.x && e.min.y <= point.y && e.max.y
                    >= point.y && e.min.z <= point.z && e.max.z >= point.z {
                    result.push(e.index);
                    proof {
                        let pred = stored_at(rmn, rmx, d);
                        let fl = log.filter(pred);
                        assert(fl[i as int] == node_list[i as int]);
                        assert(fl.contains(node_list[i as int]));
                        log.lemma_filter_contains_rev(pred, node_list[i as int]);
                        let k0 = choose|k: int|
                            0 <= k < log.len() && log[k] == node_list[i as int];
                        assert(box_contains(log[k0].min, log[k0].max, *point));
                        assert forall|x: usize| prev.contains(x) implies result@.contains(x) by {
                            let j = choose|j: int| 0 <= j < prev.len() && prev[j] == x;
                            assert(result@[j] == x);
                        }
                        assert(result@[result@.len() - 1] == node_list[i as int].index);
                        assert(result@.contains(node_list[i as int].index));
                        assert(sound_result(log, *point, result@)) by {
                            assert forall|j: int| #![trigger result@[j]] 0 <= j < result@.len()
                                implies exists|k: int|
                                0 <= k < log.len() && (#[trigger] log[k]).index == result@[j]
                                    && box_contains(log[k].min, log[k].max, *point) by {
                                if j < prev.len() {
                                    assert(result@[j] == prev[j]);
                                    assert(exists|k: int|
                                        0 <= k < log.len() && (#[trigger] log[k]).index == prev[j]
                                            && box_contains(log[k].min, log[k].max, *point));
                                } else {
                                    assert(result@[j] == node_list[i as int].index);
                                    assert(0 <= k0 < log.len() && log[k0].index == result@[j]
                                        && box_contains(log[k0].min, log[k0].max, *point));
                                }
                            }
                        }
                        assert(complete_below(rmn, rmx, log, *point, result@, l as int));
                    }
                }
                i += 1;
            }
            // every stored box here that contains the point is now collected
            proof {
                assert(complete_below(rmn, rmx, log, *point, result@, l as int + 1)) by {
                    assert forall|k: int|
                        0 <= k < log.len() && box_contains(
                            (#[trigger] log[k]).min,
                            log[k].max,
                            *point,
                        ) && box_path(rmn, rmx, log[k].min, log[k].max, MAX_DEPTH as nat).len() < l
                            + 1 implies result@.contains(log[k].index) by {
                        let bp = box_path(rmn, rmx, log[k].min, log[k].max, MAX_DEPTH as nat);
                        if bp.len() == l {
                            lemma_box_path_prefix(
                                rmn,
                                rmx,
                                log[k].min,
                                log[k].max,
                                *point,
                                MAX_DEPTH as nat,
                            );
                            lemma_point_path_valid(rmn, rmx, *point, MAX_DEPTH as nat);
                            let pp = point_path(rmn, rmx, *point, MAX_DEPTH as nat);
                            assert(bp =~= pp.subrange(0, l as int));
                            assert(pp.subrange(0, l as int) =~= d) by {
                                lemma_point_path_valid(mn, mx, *point, (MAX_DEPTH - l) as nat);
                            }
                            log.lemma_filter_contains(stored_at(rmn, rmx, d), k);
                            let fl = log.filter(stored_at(rmn, rmx, d));
                            assert(fl.contains(log[k]));
                            let m = choose|m: int| 0 <= m < fl.len() && fl[m] == log[k];
                            assert(result@.contains(node_list[m].index));
                        }
                    }
                }
            }
            if l >= MAX_DEPTH {
                break ;
            }
            // descend toward the point's octant
            let cx = center_of(mn.x, mx.x);
            let cy = center_of(mn.y, mx.y);
            let cz = center_of(mn.z, mx.z);
            let bx = point.x >= cx;
            let by = point.y >= cy;
            let bz = point.z >= cz;
            let oct = existing_pool_index([bx, by, bz]);
            let (nmn, nmx) = (
                Vector {
                    x: if bx {
                        cx
                    } else {
                        mn.x
                    },
                    y: if by {
                        cy
                    } else {
                        mn.y
                    },
                    z: if bz {
                        cz
                    } else {
                        mn.z
                    },
                },
                Vector {
                    x: if bx {
                        mx.x
                    } else {
                        cx
                    },
                    y: if by {
                        mx.y
                    } else {
                        cy
                    },
                    z: if bz {
                        mx.z
                    } else {
                        cz
                    },
                },
            );
            proof {
                assert((bx, by, bz) == point_octant(mn, mx, *point));
                assert((nmn, nmx) == shrink(mn, mx, bx, by, bz));
                let rest = point_path(nmn, nmx, *point, (MAX_DEPTH - l - 1) as nat);
                assert(point_path(mn, mx, *point, (MAX_DEPTH - l) as nat) == seq![
                    oct_num(bx, by, bz),
                ] + rest);
                assert(d.push(oct as int) =~= d + seq![oct_num(bx, by, bz)]);
                assert((d + seq![oct_num(bx, by, bz)]) + rest =~= d + (seq![oct_num(bx, by, bz)]
                    + rest));
                assert(d.push(oct as int).drop_last() =~= d);
                lemma_path_p_bound(d.push(oct as int));
                assert(pow8(0) == 1);
                assert(pow8(1) == 8);
                assert(pow8(2) == 64);
                assert(pow8(3) == 512);
            }
            mn = nmn;
            mx = nmx;
            p = p * 8 + oct;
            l += 1;
            proof {
                d = d.push(oct as int);
            }
        }
        proof {
            assert forall|k: int|
                0 <= k < log.len() && box_contains(
                    (#[trigger] log[k]).min,
                    log[k].max,
                    *point,
                ) implies result@.contains(log[k].index) by {
                lemma_box_path_valid(rmn, rmx, log[k].min, log[k].max, MAX_DEPTH as nat);
            }
        }
        result
    }

    /// Finds the arc-length offset of the closest track segment to the
    /// point: the candidates are exactly the segment boxes containing
    /// the point (the brute-force set), and among them one with minimal
    /// squared distance wins. `None` exactly when no box contains the
    /// point.
    pub fn find_closest_offset(&self, spline: &Spline, point: Vector) -> (r: Option<i64>)
        requires
            self.wf(),
            spline_wf(*spline),
            segments_match(*self, *spline),
            in_bounds(point, QUERY_MAX as int),
        ensures
            match r {
                None => forall|k: int|
                    0 <= k < self.segment_log().len() ==> !box_contains(
                        (#[trigger] self.segment_log()[k]).min,
                        self.segment_log()[k].max,
                        point,
                    ),
                Some(off) => {
                    &&& exists|k: int|
                        0 <= k < self.segment_log().len() && box_contains(
                            (#[trigger] self.segment_log()[k]).min,
                            self.segment_log()[k].max,
                            point,
                        ) && off as int == gods_s(*spline, point, self.segment_log()[k].index as int).0
                            && (forall|j: int|
                            0 <= j < self.segment_log().len() && box_contains(
                                (#[trigger] self.segment_log()[j]).min,
                                self.segment_log()[j].max,
                                point,
                            ) ==> gods_s(*spline, point, self.segment_log()[j].index as int).1
                                >= gods_s(*spline, point, self.segment_log()[k].index as int).1)
                    &&& 0 <= off <= 2 * (crate::spline::LEN_MAX as int)
                },
            },
    {
        let ghost log = self.segment_log();
        let candidates = self.collect_segments(&point);
        let n = candidates.len();
        let mut best: Option<i64> = None;
        let mut best_dist: i64 = 0;
        let mut i: usize = 0;
        while i < n
            invariant
                self.wf(),
                spline_wf(*spline),
                segments_match(*self, *spline),
                in_bounds(point, QUERY_MAX as int),
                log == self.segment_log(),
                n == candidates@.len(),
                sound_result(log, point, candidates@),
                forall|k: int|
                    0 <= k < log.len() && box_contains(
                        (#[trigger] log[k]).min,
                        log[k].max,
                        point,
                    ) ==> candidates@.contains(log[k].index),
                i <= n,
                i == 0 ==> best is None,
                i > 0 ==> best is Some,
                best is Some ==> exists|k: int|
                    0 <= k < log.len() && box_contains(
                        (#[trigger] log[k]).min,
                        log[k].max,
                        point,
                    ) && best->Some_0 as int == gods_s(*spline, point, log[k].index as int).0
                        && best_dist as int == gods_s(*spline, point, log[k].index as int).1 && (
                    forall|m: int|
                        0 <= m < i ==> gods_s(*spline, point, candidates@[m] as int).1
                            >= best_dist as int),
                best is Some ==> 0 <= best->Some_0 <= 2 * (crate::spline::LEN_MAX as int),
            decreases n - i,
        {
            let cand = candidates[i];
            proof {
                let jw = choose|k: int|
                    0 <= k < log.len() && (#[trigger] log[k]).index == candidates@[i as int]
                        && box_contains(log[k].min, log[k].max, point);
                assert(log[jw].index < spline.baked@.len());
            }
            let (off, dist) = spline.get_offset_and_dist_sq(point, cand);
            match best {
                None => {
                    best = Some(off);
                    best_dist = dist;
                },
                Some(_) => {
                    if dist < best_dist {
                        best = Some(off);
                        best_dist = dist;
                    }
                },
            }
            i += 1;
        }
        proof {
            if best is Some {
                assert forall|j: int|
                    0 <= j < log.len() && box_contains(
                        (#[trigger] log[j]).min,
                        log[j].max,
                        point,
                    ) implies gods_s(*spline, point, log[j].index as int).1 >= best_dist as int by {
                    assert(candidates@.contains(log[j].index));
                    let m = choose|m: int|
                        0 <= m < candidates@.len() && candidates@[m] == log[j].index;
                    assert(gods_s(*spline, point, candidates@[m] as int).1 >= best_dist as int);
                }
            } else {
                assert forall|k: int|
                    0 <= k < log.len() implies !box_contains(
                    (#[trigger] log[k]).min,
                    log[k].max,
                    point,
                ) by {
                    if box_contains(log[k].min, log[k].max, point) {
                        assert(candidates@.contains(log[k].index));
                    }
                }
            }
        }
        best
    }
}


/// Componentwise minimum and maximum folding, as the bounds pass uses.
fn check_bounds(v: Vector, min: &mut Vector, max: &mut Vector)
    ensures
        final(min).x == if v.x < old(min).x {
            v.x
        } else {
            old(min).x
        },
        final(min).y == if v.y < old(min).y {
            v.y
        } else {
            old(min).y
        },
        final(min).z == if v.z < old(min).z {
            v.z
        } else {
            old(min).z
        },
        final(max).x == if v.x > old(max).x {
            v.x
        } else {
            old(max).x
        },
        final(max).y == if v.y > old(max).y {
            v.y
        } else {
            old(max).y
        },
        final(max).z == if v.z > old(max).z {
            v.z
        } else {
            old(max).z
        },
{
    if v.x < min.x {
        min.x = v.x;
    }
    if v.y < min.y {
        min.y = v.y;
    }
    if v.z < min.z {
        min.z = v.z;
    }
    if v.x > max.x {
        max.x = v.x;
    }
    if v.y > max.y {
        max.y = v.y;
    }
    if v.z > max.z {
        max.z = v.z;
    }
}

/// Componentwise interval bound.
pub open spec fn vec_le(a: Vector, b: Vector) -> bool {
    a.x <= b.x && a.y <= b.y && a.z <= b.z
}

/// The swept bounding box of one baked segment: both endpoints, swept
/// from the collision depth below the track to the top of the gravity
/// field and across the extended track width.
#[verifier::rlimit(100)]
#[verifier::spinoff_prover]
fn get_bounds(spline: &Spline, i: usize) -> (r: (Vector, Vector))
    requires
        spline_wf(*spline),
        i < spline.baked@.len(),
    ensures
        in_bounds(r.0, 0x4000_0000 as int),
        in_bounds(r.1, 0x4000_0000 as int),
        vec_le(r.0, r.1),
{
    let m = spline.baked.len();
    let next = if i + 1 == m {
        0
    } else {
        i + 1
    };
    let mut mn = Vector { x: 0x4000_0000, y: 0x4000_0000, z: 0x4000_0000 };
    let mut mx = Vector { x: -0x4000_0000, y: -0x4000_0000, z: -0x4000_0000 };
    let mut which: usize = 0;
    while which < 2
        invariant
            spline_wf(*spline),
            i < spline.baked@.len(),
            next < spline.baked@.len(),
            which <= 2,
            in_bounds(mn, 0x4000_0000 as int),
            in_bounds(mx, 0x4000_0000 as int),
            which > 0 ==> vec_le(mn, mx),
        decreases 2 - which,
    {
        let b = if which == 0 {
            i
        } else {
            next
        };
        let pt = spline.baked[b].point;
        let off = spline.baked[b].offset;
        proof {
            crate::spline::lemma_offset_below_length(
                spline.baked@,
                spline.length as int,
                b as int,
            );
        }
        let (up, right) = spline.get_up_right(off);
        let right = right.scale(BOUNDS_RADIUS);
        let above = up.scale(crate::vehicle::MAX_GRAVITY_HEIGHT);
        let below = up.scale(-crate::vehicle::COLLISION_DEPTH);
        proof {
            crate::linalg::lemma_scale_bound(
                (get_up_right_s(*spline, off as int)).1,
                BOUNDS_RADIUS as int,
                crate::spline::UPR_MAX as int,
                BOUNDS_RADIUS as int,
            );
            crate::linalg::lemma_scale_bound(
                (get_up_right_s(*spline, off as int)).0,
                crate::vehicle::MAX_GRAVITY_HEIGHT as int,
                crate::spline::UPR_MAX as int,
                crate::vehicle::MAX_GRAVITY_HEIGHT as int,
            );
            crate::linalg::lemma_scale_bound(
                (get_up_right_s(*spline, off as int)).0,
                -crate::vehicle::COLLISION_DEPTH as int,
                crate::spline::UPR_MAX as int,
                crate::vehicle::COLLISION_DEPTH as int,
            );
        }
        check_bounds(above.sub(right).add(pt), &mut mn, &mut mx);
        check_bounds(above.add(right).add(pt), &mut mn, &mut mx);
        check_bounds(below.sub(right).add(pt), &mut mn, &mut mx);
        check_bounds(below.add(right).add(pt), &mut mn, &mut mx);
        which += 1;
    }
    (mn, mx)
}

impl Octree {
    /// Builds the track's spatial index: a bounding box covering every
    /// segment's swept volume, and every baked segment (numbered in
    /// polyline order) stored at the one node its box descends to.
    pub fn new(spline: &Spline) -> (r: Octree)
        requires
            spline_wf(*spline),
        ensures
            r.wf(),
            r.vehicle_log() == Seq::<OctreeListEntry>::empty(),
            r.segment_log().len() == spline.baked@.len(),
            forall|k: int|
                0 <= k < r.segment_log().len() ==> (#[trigger] r.segment_log()[k]).index == k,
            segments_match(r, *spline),
            segments_in_root(r),
    {
        let m = spline.baked.len();
        let mut boxes: Vec<(Vector, Vector)> = Vec::new();
        let mut mn = Vector { x: 0x4000_0000, y: 0x4000_0000, z: 0x4000_0000 };
        let mut mx = Vector { x: -0x4000_0000, y: -0x4000_0000, z: -0x4000_0000 };
        let mut i: usize = 0;
        while i < m
            invariant
                spline_wf(*spline),
                m == spline.baked@.len(),
                i <= m,
                boxes@.len() == i,
                in_bounds(mn, 0x4000_0000 as int),
                in_bounds(mx, 0x4000_0000 as int),
                forall|k: int|
                    0 <= k < i ==> vec_le(mn, (#[trigger] boxes@[k]).0) && vec_le(boxes@[k].1, mx)
                        && vec_le(boxes@[k].0, boxes@[k].1),
            decreases m - i,
        {
            let (lo, hi) = get_bounds(spline, i);
            check_bounds(lo, &mut mn, &mut mx);
            check_bounds(hi, &mut mn, &mut mx);
            boxes.push((lo, hi));
            i += 1;
        }
        let mut tree = Octree::empty_tree(mn, mx);
        let ghost rmn = mn;
        let ghost rmx = mx;
        let mut k: usize = 0;
        while k < m
            invariant
                m == boxes@.len(),
                k <= m,
                tree.wf(),
                tree.root_min() == rmn,
                tree.root_max() == rmx,
                tree.vehicle_log() == Seq::<OctreeListEntry>::empty(),
                tree.segment_log().len() == k,
                forall|j: int|
                    0 <= j < k ==> (#[trigger] tree.segment_log()[j]).index == j
                        && tree.segment_log()[j].min == boxes@[j].0 && tree.segment_log()[j].max
                        == boxes@[j].1,
                forall|j: int|
                    0 <= j < m ==> vec_le(rmn, (#[trigger] boxes@[j]).0) && vec_le(boxes@[j].1, rmx)
                        && vec_le(boxes@[j].0, boxes@[j].1),
            decreases m - k,
        {
            let (lo, hi) = boxes[k];
            tree.add_box(lo, hi, k, false);
            k += 1;
        }
        proof {
            assert(segments_in_root(tree));
        }
        tree
    }
}

} // verus!
