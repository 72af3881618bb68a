//! The memory bridge between the host and the core, modeled safely: a
//! handle-keyed arena of byte regions. The host allocates a region, writes
//! input bytes into it, lets the core read them, and releases the region
//! when done. Handles are indices that are never reused within one arena,
//! so a released handle stays dead.

use vstd::prelude::*;

verus! {

/// The arena of host-visible byte regions, keyed by handle.
pub struct Arena {
    pub regions: Vec<Option<Vec<u8>>>,
}

impl Arena {
    /// Whether handle `h` names a live region.
    pub open spec fn live(self, h: int) -> bool {
        0 <= h < self.regions@.len() && self.regions@[h] is Some
    }

    /// The bytes of the region named by `h`.
    pub open spec fn region(self, h: int) -> Seq<u8> {
        self.regions@[h]->Some_0@
    }

    /// An arena with no regions.
    pub fn new() -> (a: Arena)
        ensures
            a.regions@.len() == 0,
    {
        Arena { regions: Vec::new() }
    }

    /// Reserves a region of `size` bytes and returns its handle. The new
    /// region is zero-filled; no other region is touched. A zero-sized
    /// region is legal.
    pub fn allocate(&mut self, size: usize) -> (h: usize)
        ensures
            h == old(self).regions@.len(),
            final(self).regions@.len() == old(self).regions@.len() + 1,
            final(self).live(h as int),
            final(self).region(h as int) == Seq::new(size as nat, |k: int| 0u8),
            forall|g: int| 0 <= g < h ==> final(self).regions@[g] == old(self).regions@[g],
    {
        let mut bytes: Vec<u8> = Vec::new();
        let mut k: usize = 0;
        while k < size
            invariant
                k <= size,
                bytes@.len() == k,
                forall|q: int| 0 <= q < k ==> bytes@[q] == 0u8,
            decreases size - k,
        {
            bytes.push(0u8);
            k += 1;
        }
        proof {
            assert(bytes@ =~= Seq::new(size as nat, |q: int| 0u8));
        }
        let h = self.regions.len();
        self.regions.push(Some(bytes));
        h
    }

    /// Releases the region named by `h`; a dead or unknown handle is
    /// accepted and changes nothing. The byte count the host passes on
    /// release is taken for interface compatibility and ignored: region
    /// sizes are tracked internally, so a mismatched count cannot corrupt
    /// the arena.
    #[allow(unused_variables)]
    pub fn release(&mut self, h: usize, size: usize)
        ensures
            !final(self).live(h as int),
            final(self).regions@.len() == old(self).regions@.len(),
            forall|g: int|
                0 <= g < old(self).regions@.len() && g != h ==> final(self).regions@[g] == old(
                    self,
                ).regions@[g],
    {
        if h < self.regions.len() {
            self.regions.set(h, None);
        }
    }

    /// Writes `data` over the front of the live region named by `h`,
    /// leaving the rest of the region as it was. Returns false, changing
    /// nothing, when the handle is dead or the data does not fit.
    pub fn store(&mut self, h: usize, data: &[u8]) -> (ok: bool)
        ensures
            ok <==> (old(self).live(h as int) && data@.len() <= old(self).region(h as int).len()),
            final(self).regions@.len() == old(self).regions@.len(),
            forall|g: int|
                0 <= g < old(self).regions@.len() && g != h ==> final(self).regions@[g] == old(
                    self,
                ).regions@[g],
            !ok ==> final(self).regions@ == old(self).regions@,
            ok ==> final(self).live(h as int),
            ok ==> final(self).region(h as int).len() == old(self).region(h as int).len(),
            ok ==> (forall|k: int|
                0 <= k < data@.len() ==> final(self).region(h as int)[k] == data@[k]),
            ok ==> (forall|k: int|
                data@.len() <= k < old(self).region(h as int).len() ==> final(self).region(
                    h as int,
                )[k] == old(self).region(h as int)[k]),
    {
        if h >= self.regions.len() {
            return false;
        }
        let mut slot: Option<Vec<u8>> = None;
        core::mem::swap(&mut slot, &mut self.regions[h]);
        match slot {
            None => {
                proof {
                    assert(self.regions@ =~= old(self).regions@);
                }
                false
            },
            Some(mut region) => {
                if data.len() > region.len() {
                    self.regions.set(h, Some(region));
                    proof {
                        assert(self.regions@ =~= old(self).regions@);
                    }
                    return false;
                }
                let ghost orig = region@;
                let mut k: usize = 0;
                while k < data.len()
                    invariant
                        k <= data@.len(),
                        data@.len() <= orig.len(),
                        region@.len() == orig.len(),
                        forall|q: int| 0 <= q < k ==> region@[q] == data@[q],
                        forall|q: int| k <= q < orig.len() ==> region@[q] == orig[q],
                    decreases data@.len() - k,
                {
                    let b = data[k];
                    region.set(k, b);
                    k += 1;
                }
                self.regions.set(h, Some(region));
                true
            },
        }
    }

    /// Reads a copy of the live region named by `h`; a dead or unknown
    /// handle yields nothing.
    pub fn load(&self, h: usize) -> (r: Option<Vec<u8>>)
        ensures
            r is Some <==> self.live(h as int),
            (r matches Some(bytes) ==> bytes@ == self.region(h as int)),
    {
        if h >= self.regions.len() {
            return None;
        }
        match &self.regions[h] {
            None => None,
            Some(region) => {
                let mut out: Vec<u8> = Vec::new();
                let mut k: usize = 0;
                while k < region.len()
                    invariant
                        k <= region@.len(),
                        out@.len() == k,
                        forall|q: int| 0 <= q < k ==> out@[q] == region@[q],
                    decreases region@.len() - k,
                {
                    let b = region[k];
                    out.push(b);
                    k += 1;
                }
                proof {
                    assert(out@ =~= region@);
                }
                Some(out)
            },
        }
    }
}

} // verus!
