//! Line-mesh assets: vertices and vertex-index line pairs.
use vstd::prelude::*;
use crate::assets::{Asset, fixed_from};
use crate::linalg::Vector;

verus! {

/// A renderable line mesh: vertices and index pairs into them.
pub struct Mesh {
    pub vertices: Vec<Vector>,
    pub lines: Vec<(u8, u8)>,
}

/// Every line's two endpoints name existing vertices.
pub open spec fn mesh_wf(m: Mesh) -> bool {
    forall|i: int|
        0 <= i < m.lines@.len() ==> ((#[trigger] m.lines@[i]).0 as int) < m.vertices@.len() && (
        m.lines@[i].1 as int) < m.vertices@.len()
}

/// Whether the bytes from `pos` hold a complete mesh record: a vertex
/// count, that many six-byte vectors, a line count, and that many index
/// pairs, every index below the vertex count.
pub open spec fn mesh_format_ok(data: Seq<u8>, pos: int) -> bool {
    &&& 0 <= pos < data.len()
    &&& ({
        let nv = data[pos] as int;
        &&& pos + 1 + 6 * nv < data.len()
        &&& ({
            let nl = data[pos + 1 + 6 * nv] as int;
            &&& pos + 2 + 6 * nv + 2 * nl <= data.len()
            &&& forall|k: int|
                0 <= k < nl ==> ((#[trigger] data[pos + 2 + 6 * nv + 2 * k]) as int) < nv && (
                data[pos + 2 + 6 * nv + 2 * k + 1] as int) < nv
        })
    })
}

impl Mesh {
    /// Loads a mesh: one byte of vertex count, that many fixed-point
    /// vectors, one byte of line count, then index pairs. Succeeds
    /// exactly when the bytes at the cursor form a complete record with
    /// every index below the vertex count; the result then holds exactly
    /// the counted vertices and lines and satisfies `mesh_wf`.
    pub fn load(asset: &mut Asset) -> (r: Option<Mesh>)
        ensures
            final(asset).data() == old(asset).data(),
            r is Some <==> mesh_format_ok(old(asset).data(), old(asset).pos()),
            r is Some ==> mesh_wf(r->Some_0) && r->Some_0.vertices@.len() == old(asset).data()[old(
                asset,
            ).pos()] as int && r->Some_0.lines@.len() == old(asset).data()[old(asset).pos() + 1 + 6
                * (old(asset).data()[old(asset).pos()] as int)] as int && final(asset).pos() == old(
                asset,
            ).pos() + 2 + 6 * (old(asset).data()[old(asset).pos()] as int) + 2 * (
            r->Some_0.lines@.len() as int),
    {
        proof {
            asset.lemma_pos_nonneg();
        }
        let ghost p0 = asset.pos();
        let num_vertices = match asset.read_byte() {
            Some(b) => b,
            None => {
                proof {
                    assert(!mesh_format_ok(old(asset).data(), p0));
                }
                return None;
            },
        };
        let ghost nv = num_vertices as int;
        let mut vertices: Vec<Vector> = Vec::new();
        let mut i: usize = 0;
        while i < num_vertices as usize
            invariant
                i <= num_vertices as usize,
                vertices@.len() == i,
                asset.data() == old(asset).data(),
                nv == num_vertices as int,
                0 <= p0,
                p0 == old(asset).pos(),
                p0 < old(asset).data().len(),
                old(asset).data()[p0] as int == nv,
                asset.pos() == p0 + 1 + 6 * i,
                asset.pos() <= old(asset).data().len(),
            decreases num_vertices as usize - i,
        {
            let v = match asset.read_vector() {
                Some(v) => v,
                None => {
                    proof {
                        assert(!mesh_format_ok(old(asset).data(), p0));
                    }
                    return None;
                },
            };
            vertices.push(v);
            i += 1;
        }
        let num_lines = match asset.read_byte() {
            Some(b) => b,
            None => {
                proof {
                    assert(!mesh_format_ok(old(asset).data(), p0));
                }
                return None;
            },
        };
        let ghost nl = num_lines as int;
        let mut lines: Vec<(u8, u8)> = Vec::new();
        let mut j: usize = 0;
        while j < num_lines as usize
            invariant
                j <= num_lines as usize,
                lines@.len() == j,
                vertices@.len() == num_vertices as int,
                asset.data() == old(asset).data(),
                nv == num_vertices as int,
                nl == num_lines as int,
                0 <= p0,
                p0 == old(asset).pos(),
                p0 + 1 + 6 * nv < old(asset).data().len(),
                old(asset).data()[p0] as int == nv,
                old(asset).data()[p0 + 1 + 6 * nv] as int == nl,
                asset.pos() == p0 + 2 + 6 * nv + 2 * j,
                asset.pos() <= old(asset).data().len(),
                forall|k: int|
                    0 <= k < j ==> ((#[trigger] old(asset).data()[p0 + 2 + 6 * nv + 2 * k]) as int)
                        < nv && (old(asset).data()[p0 + 2 + 6 * nv + 2 * k + 1] as int) < nv,
                forall|k: int|
                    0 <= k < j ==> ((#[trigger] lines@[k]).0 as int) < vertices@.len() && (
                    lines@[k].1 as int) < vertices@.len(),
            decreases num_lines as usize - j,
        {
            let x = match asset.read_byte() {
                Some(b) => b,
                None => {
                    proof {
                        assert(!mesh_format_ok(old(asset).data(), p0));
                    }
                    return None;
                },
            };
            if x >= num_vertices {
                proof {
                    assert(!mesh_format_ok(old(asset).data(), p0));
                }
                return None;
            }
            let y = match asset.read_byte() {
                Some(b) => b,
                None => {
                    proof {
                        assert(!mesh_format_ok(old(asset).data(), p0));
                    }
                    return None;
                },
            };
            if y >= num_vertices {
                proof {
                    assert(!mesh_format_ok(old(asset).data(), p0));
                }
                return None;
            }
            lines.push((x, y));
            j += 1;
        }
        proof {
            assert(mesh_format_ok(old(asset).data(), p0));
        }
        Some(Mesh { vertices, lines })
    }
}

} // verus!
