//! Byte-level readers for the game's binary asset formats.
//!
//! An asset is a named blob of bytes; a cursor walks it one byte at a
//! time. Multi-byte values are little-endian 8.8 fixed point, widened to
//! the crate's 16.16 scale as they are read.
use vstd::prelude::*;
use crate::linalg::Vector;

verus! {

/// A named blob in the asset registry.
pub struct AssetEntry {
    pub name: Vec<u8>,
    pub data: Vec<u8>,
}

/// A read cursor over one asset's bytes.
pub struct Asset {
    contents: Vec<u8>,
    index: usize,
}

/// The signed 16-bit value encoded by two little-endian bytes, widened
/// by eight bits: an 8.8 fixed-point file value at the crate's 16.16
/// scale.
pub open spec fn fixed_from(lo: u8, hi: u8) -> int {
    let raw = lo + 256 * hi;
    if raw < 32768 {
        raw * 256
    } else {
        (raw - 65536) * 256
    }
}

/// Exact byte-sequence equality.
fn bytes_eq(a: &[u8], b: &[u8]) -> (r: bool)
    ensures
        r <==> a@ == b@,
{
    if a.len() != b.len() {
        proof {
            assert(a@.len() != b@.len());
        }
        return false;
    }
    let n = a.len();
    let mut i: usize = 0;
    while i < n
        invariant
            n == a@.len() == b@.len(),
            i <= n,
            forall|j: int| 0 <= j < i ==> a@[j] == b@[j],
        decreases n - i,
    {
        if a[i] != b[i] {
            return false;
        }
        i += 1;
    }
    proof {
        assert(a@ =~= b@);
    }
    true
}

impl Asset {
    /// The bytes being read.
    pub closed spec fn data(self) -> Seq<u8> {
        self.contents@
    }

    /// The cursor position.
    pub closed spec fn pos(self) -> int {
        self.index as int
    }

    /// The cursor never sits before the start.
    pub proof fn lemma_pos_nonneg(self)
        ensures
            self.pos() >= 0,
    {
    }

    /// Looks a name up in the registry and opens a cursor on its bytes.
    /// Returns `None` exactly when no entry carries the name; otherwise
    /// the cursor reads the first entry with the name, from its start.
    pub fn load(entries: &Vec<AssetEntry>, name: &[u8]) -> (r: Option<Asset>)
        ensures
            match r {
                Some(a) => {
                    &&& exists|i: int|
                        0 <= i < entries@.len() && (#[trigger] entries@[i]).name@ == name@
                            && a.data() == entries@[i].data@ && (forall|j: int|
                            0 <= j < i ==> (#[trigger] entries@[j]).name@ != name@)
                    &&& a.pos() == 0
                },
                None => forall|i: int|
                    0 <= i < entries@.len() ==> entries@[i].name@ != name@,
            },
    {
        let n = entries.len();
        let mut i: usize = 0;
        while i < n
            invariant
                n == entries@.len(),
                i <= n,
                forall|j: int| 0 <= j < i ==> entries@[j].name@ != name@,
            decreases n - i,
        {
            if bytes_eq(entries[i].name.as_slice(), name) {
                let contents: Vec<u8> = entries[i].data.clone();
                return Some(Asset { contents, index: 0 });
            }
            i += 1;
        }
        None
    }

    /// Opens a cursor directly on a blob of bytes.
    pub fn from_bytes(contents: Vec<u8>) -> (r: Asset)
        ensures
            r.data() == contents@,
            r.pos() == 0,
    {
        Asset { contents, index: 0 }
    }

    /// Reads one byte and advances, or returns `None` at the end
    /// (leaving the cursor unchanged).
    pub fn read_byte(&mut self) -> (r: Option<u8>)
        ensures
            final(self).data() == old(self).data(),
            old(self).pos() < old(self).data().len() ==> {
                &&& r == Some(old(self).data()[old(self).pos()])
                &&& final(self).pos() == old(self).pos() + 1
            },
            old(self).pos() >= old(self).data().len() ==> r is None && final(self).pos() == old(self).pos(),
    {
        if self.index >= self.contents.len() {
            return None;
        }
        let b = self.contents[self.index];
        self.index += 1;
        Some(b)
    }

    /// Reads a little-endian 8.8 fixed-point value, widened to 16.16.
    /// `None` when fewer than two bytes remain; the cursor then stops
    /// where the reading failed, as byte-at-a-time reading leaves it.
    pub fn read_fixed(&mut self) -> (r: Option<i64>)
        ensures
            final(self).data() == old(self).data(),
            old(self).pos() + 2 <= old(self).data().len() ==> {
                &&& r == Some(
                    fixed_from(
                        old(self).data()[old(self).pos()],
                        old(self).data()[old(self).pos() + 1],
                    ) as i64,
                )
                &&& final(self).pos() == old(self).pos() + 2
            },
            old(self).pos() + 2 > old(self).data().len() ==> r is None && final(self).pos() == (
            if old(self).pos() < old(self).data().len() {
                old(self).pos() + 1
            } else {
                old(self).pos()
            }),
    {
        let lo = match self.read_byte() {
            Some(b) => b,
            None => {
                return None;
            },
        };
        let hi = match self.read_byte() {
            Some(b) => b,
            None => {
                return None;
            },
        };
        let raw: u32 = (lo as u32) + 256 * (hi as u32);
        if raw < 32768 {
            Some((raw as i64) * 256)
        } else {
            Some(((raw as i64) - 65536) * 256)
        }
    }

    /// Reads three fixed-point values as a vector. `None` when fewer
    /// than six bytes remain.
    pub fn read_vector(&mut self) -> (r: Option<Vector>)
        ensures
            final(self).data() == old(self).data(),
            old(self).pos() + 6 <= old(self).data().len() ==> {
                &&& r == Some(
                    Vector {
                        x: fixed_from(
                            old(self).data()[old(self).pos()],
                            old(self).data()[old(self).pos() + 1],
                        ) as i64,
                        y: fixed_from(
                            old(self).data()[old(self).pos() + 2],
                            old(self).data()[old(self).pos() + 3],
                        ) as i64,
                        z: fixed_from(
                            old(self).data()[old(self).pos() + 4],
                            old(self).data()[old(self).pos() + 5],
                        ) as i64,
                    },
                )
                &&& final(self).pos() == old(self).pos() + 6
            },
            old(self).pos() + 6 > old(self).data().len() ==> r is None,
    {
        let x = match self.read_fixed() {
            Some(v) => v,
            None => {
                return None;
            },
        };
        let y = match self.read_fixed() {
            Some(v) => v,
            None => {
                return None;
            },
        };
        let z = match self.read_fixed() {
            Some(v) => v,
            None => {
                return None;
            },
        };
        Some(Vector { x, y, z })
    }
}

/// Every value `read_fixed` can produce is small against the vector
/// component bounds.
pub proof fn lemma_fixed_from_bounds(lo: u8, hi: u8)
    ensures
        crate::math::abs_i(fixed_from(lo, hi)) <= 0x80_0000,
{
}

} // verus!
