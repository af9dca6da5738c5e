//! The garage: a registry of vehicle models keyed by small integer ids.
use vstd::prelude::*;
use crate::vehicle::{Model, model_wf};

verus! {

/// Vehicle archetypes, addressed by id; vehicles hold the id, never the
/// model itself. Names are byte strings looked up linearly.
pub struct Garage {
    pub by_name: Vec<(Vec<u8>, u16)>,
    pub by_id: Vec<Model>,
}

impl Garage {
    /// An empty registry.
    pub fn new() -> (r: Garage)
        ensures
            r.by_id@.len() == 0,
            r.by_name@.len() == 0,
    {
        Garage { by_name: Vec::new(), by_id: Vec::new() }
    }

    /// The id registered under a name, if any: the first match wins.
    pub fn get_id(&self, name: &[u8]) -> (r: Option<u16>)
        ensures
            match r {
                Some(id) => exists|i: int|
                    0 <= i < self.by_name@.len() && (#[trigger] self.by_name@[i]).0@ == name@
                        && self.by_name@[i].1 == id && (forall|j: int|
                        0 <= j < i ==> (#[trigger] self.by_name@[j]).0@ != name@),
                None => forall|i: int|
                    0 <= i < self.by_name@.len() ==> (#[trigger] self.by_name@[i]).0@ != name@,
            },
    {
        let n = self.by_name.len();
        let mut i: usize = 0;
        while i < n
            invariant
                n == self.by_name@.len(),
                i <= n,
                forall|j: int| 0 <= j < i ==> (#[trigger] self.by_name@[j]).0@ != name@,
            decreases n - i,
        {
            if crate::garage::bytes_eq(self.by_name[i].0.as_slice(), name) {
                return Some(self.by_name[i].1);
            }
            i += 1;
        }
        None
    }

    /// Registers a model: an existing name's model is replaced in place;
    /// a new name is allocated the next id. Fails exactly when the name
    /// is new and the id space is full.
    pub fn load(&mut self, name: Vec<u8>, value: Model) -> (r: Result<(), ()>)
        requires
            model_wf(value),
            forall|i: int|
                0 <= i < old(self).by_id@.len() ==> model_wf(#[trigger] old(self).by_id@[i]),
            forall|i: int|
                0 <= i < old(self).by_name@.len() ==> ((#[trigger] old(self).by_name@[i]).1 as int)
                    < old(self).by_id@.len(),
        ensures
            forall|i: int|
                0 <= i < final(self).by_id@.len() ==> model_wf(#[trigger] final(self).by_id@[i]),
            forall|i: int|
                0 <= i < final(self).by_name@.len() ==> ((#[trigger] final(self).by_name@[i]).1
                    as int) < final(self).by_id@.len(),
            r is Err <==> (old(self).by_id@.len() >= 65535 && (forall|i: int|
                0 <= i < old(self).by_name@.len() ==> (#[trigger] old(self).by_name@[i]).0@
                    != name@)),
            r is Err ==> *final(self) == *old(self),
            // replacing: the first entry bearing the name keeps its id and
            // its model slot is overwritten; nothing else changes
            (r is Ok && (exists|i: int|
                0 <= i < old(self).by_name@.len() && (#[trigger] old(self).by_name@[i]).0@
                    == name@)) ==> (exists|i: int|
                {
                    &&& 0 <= i < old(self).by_name@.len()
                    &&& (#[trigger] old(self).by_name@[i]).0@ == name@
                    &&& (forall|j: int| 0 <= j < i ==> (#[trigger] old(self).by_name@[j]).0@ != name@)
                    &&& final(self).by_id@ == old(self).by_id@.update(
                        old(self).by_name@[i].1 as int,
                        value,
                    )
                    &&& final(self).by_name@ == old(self).by_name@
                }),
            // fresh: the model is appended under the next id
            (r is Ok && (forall|i: int|
                0 <= i < old(self).by_name@.len() ==> (#[trigger] old(self).by_name@[i]).0@
                    != name@)) ==> ({
                &&& final(self).by_id@ == old(self).by_id@.push(value)
                &&& final(self).by_name@.len() == old(self).by_name@.len() + 1
                &&& final(self).by_name@.drop_last() == old(self).by_name@
                &&& final(self).by_name@.last().0@ == name@
                &&& final(self).by_name@.last().1 as int == old(self).by_id@.len()
            }),
    {
        let existing = self.get_id(name.as_slice());
        match existing {
            Some(id) => {
                proof {
                    let iw = choose|i: int|
                        0 <= i < self.by_name@.len() && (#[trigger] self.by_name@[i]).0@ == name@
                            && self.by_name@[i].1 == id && (forall|j: int|
                            0 <= j < i ==> (#[trigger] self.by_name@[j]).0@ != name@);
                    assert((self.by_name@[iw].1 as int) < self.by_id@.len());
                }
                self.by_id[id as usize] = value;
                Ok(())
            },
            None => {
                if self.by_id.len() >= 65535 {
                    return Err(());
                }
                let new_id = self.by_id.len() as u16;
                self.by_id.push(value);
                self.by_name.push((name, new_id));
                proof {
                    assert(self.by_name@.drop_last() =~= old(self).by_name@);
                }
                Ok(())
            },
        }
    }

    /// The model with an id, if registered.
    pub fn get_model(&self, id: u16) -> (r: Option<&Model>)
        ensures
            (id as int) < self.by_id@.len() ==> r == Some(&self.by_id@[id as int]),
            (id as int) >= self.by_id@.len() ==> r is None,
    {
        if (id as usize) < self.by_id.len() {
            Some(&self.by_id[id as usize])
        } else {
            None
        }
    }
}

/// Exact byte-sequence equality.
pub fn bytes_eq(a: &[u8], b: &[u8]) -> (r: bool)
    ensures
        r <==> a@ == b@,
{
    if a.len() != b.len() {
        proof {
            assert(a@.len() != b@.len());
        }
        return false;
    }
    let n = a.len();
    let mut i: usize = 0;
    while i < n
        invariant
            n == a@.len() == b@.len(),
            i <= n,
            forall|j: int| 0 <= j < i ==> a@[j] == b@[j],
        decreases n - i,
    {
        if a[i] != b[i] {
            return false;
        }
        i += 1;
    }
    proof {
        assert(a@ =~= b@);
    }
    true
}

} // verus!
