//! The pool of maps offered in the vote.

use vstd::prelude::*;

verus! {

/// Largest pool: one ballot symbol per letter of the alphabet.
pub const MAX_MAPS: usize = 26;

/// Why a change to the map pool was refused. A refused change alters nothing.
#[derive(Clone, Copy, Debug, PartialEq, Eq, Structural)]
pub enum MapPoolError {
    /// Changing the pool needs the admin capability.
    NotAdmin,
    /// The pool already holds the largest number of maps.
    PoolFull,
    /// The map is already in the pool.
    AlreadyPresent,
    /// The map is not in the pool.
    NotPresent,
}

/// Ordered set of map names, at most [`MAX_MAPS`] of them.
pub struct MapPool {
    maps: Vec<String>,
}

/// The names held by a vector of strings.
pub open spec fn names_of(v: Seq<String>) -> Seq<Seq<char>> {
    v.map_values(|m: String| m@)
}

/// Index of the first string of `v` that reads `name`, if any.
fn find_name(v: &Vec<String>, name: &String) -> (r: Option<usize>)
    ensures
        match r {
            Some(i) => i < v@.len() && v@[i as int]@ == name@ && forall|j: int|
                0 <= j < i ==> v@[j]@ != name@,
            None => !names_of(v@).contains(name@),
        },
{
    let mut i: usize = 0;
    while i < v.len()
        invariant
            i <= v@.len(),
            forall|j: int| 0 <= j < i ==> v@[j]@ != name@,
        decreases v@.len() - i,
    {
        if v[i] == *name {
            return Some(i);
        }
        i = i + 1;
    }
    proof {
        if names_of(v@).contains(name@) {
            let k = choose|k: int| 0 <= k < names_of(v@).len() && names_of(v@)[k] == name@;
            assert(names_of(v@)[k] == v@[k]@);
        }
    }
    None
}

impl View for MapPool {
    type V = Seq<Seq<char>>;

    closed spec fn view(&self) -> Seq<Seq<char>> {
        names_of(self.maps@)
    }
}

impl MapPool {
    /// At most [`MAX_MAPS`] names, none twice.
    pub open spec fn wf(&self) -> bool {
        &&& self@.len() <= MAX_MAPS
        &&& self@.no_duplicates()
    }

    pub fn new() -> (p: MapPool)
        ensures
            p.wf(),
            p@ == Seq::<Seq<char>>::empty(),
    {
        let p = MapPool { maps: Vec::new() };
        assert(p@ =~= Seq::<Seq<char>>::empty());
        p
    }

    /// A pool holding `names` in order, if they are at most [`MAX_MAPS`] and
    /// distinct.
    pub fn from_names(names: Vec<String>) -> (r: Option<MapPool>)
        ensures
            r is Some <==> (names_of(names@).len() <= MAX_MAPS && names_of(names@).no_duplicates()),
            r matches Some(p) ==> p.wf() && p@ == names_of(names@),
    {
        if names.len() > MAX_MAPS {
            return None;
        }
        let mut i: usize = 0;
        while i < names.len()
            invariant
                i <= names@.len(),
                forall|a: int, b: int|
                    0 <= a < b < i ==> #[trigger] names@[a]@ != #[trigger] names@[b]@,
            decreases names@.len() - i,
        {
            let mut j: usize = 0;
            while j < i
                invariant
                    i < names@.len(),
                    j <= i,
                    forall|a: int| 0 <= a < j ==> names@[a]@ != names@[i as int]@,
                decreases i - j,
            {
                if names[j] == names[i] {
                    proof {
                        assert(names_of(names@)[j as int] == names_of(names@)[i as int]);
                    }
                    return None;
                }
                j = j + 1;
            }
            i = i + 1;
        }
        let p = MapPool { maps: names };
        assert forall|a: int, b: int|
            0 <= a < p@.len() && 0 <= b < p@.len() && a != b implies p@[a] != p@[b] by {
            if a < b {
                assert(names@[a]@ != names@[b]@);
            } else {
                assert(names@[b]@ != names@[a]@);
            }
        }
        Some(p)
    }

    /// The maps, in pool order.
    pub fn maps(&self) -> (r: &Vec<String>)
        ensures
            names_of(r@) == self@,
    {
        &self.maps
    }

    pub fn len(&self) -> (r: usize)
        ensures
            r == self@.len(),
    {
        self.maps.len()
    }

    /// Appends `name` to the pool.
    pub fn add_map(&mut self, is_admin: bool, name: String) -> (r: Result<(), MapPoolError>)
        requires
            old(self).wf(),
        ensures
            final(self).wf(),
            !is_admin ==> r == Err::<(), MapPoolError>(MapPoolError::NotAdmin),
            is_admin && old(self)@.len() >= MAX_MAPS ==> r == Err::<(), MapPoolError>(
                MapPoolError::PoolFull),
            is_admin && old(self)@.len() < MAX_MAPS && old(self)@.contains(name@) ==> r == Err::<
                (),
                MapPoolError,
            >(MapPoolError::AlreadyPresent),
            r is Err ==> final(self)@ == old(self)@,
            is_admin && old(self)@.len() < MAX_MAPS && !old(self)@.contains(name@) ==> r is Ok
                && final(self)@ == old(self)@.push(name@),
    {
        if !is_admin {
            return Err(MapPoolError::NotAdmin);
        }
        if self.maps.len() >= MAX_MAPS {
            return Err(MapPoolError::PoolFull);
        }
        if let Some(i) = find_name(&self.maps, &name) {
            assert(self@[i as int] == name@);
            return Err(MapPoolError::AlreadyPresent);
        }
        let ghost before = self@;
        self.maps.push(name);
        proof {
            assert(self@ =~= before.push(name@));
            assert forall|a: int, b: int|
                0 <= a < self@.len() && 0 <= b < self@.len() && a != b implies self@[a]
                != self@[b] by {
                if a == before.len() {
                    assert(before[b] == self@[b]);
                } else if b == before.len() {
                    assert(before[a] == self@[a]);
                }
            }
        }
        Ok(())
    }

    /// Removes `name` from the pool, keeping the order of the others.
    pub fn remove_map(&mut self, is_admin: bool, name: &String) -> (r: Result<(), MapPoolError>)
        requires
            old(self).wf(),
        ensures
            final(self).wf(),
            !is_admin ==> r == Err::<(), MapPoolError>(MapPoolError::NotAdmin),
            is_admin && !old(self)@.contains(name@) ==> r == Err::<(), MapPoolError>(
                MapPoolError::NotPresent),
            r is Err ==> final(self)@ == old(self)@,
            is_admin && old(self)@.contains(name@) ==> r is Ok && final(self)@ == old(self)@.remove(old(self)@.index_of(name@)) && !final(self)@.contains(name@),
    {
        if !is_admin {
            return Err(MapPoolError::NotAdmin);
        }
        match find_name(&self.maps, name) {
            None => Err(MapPoolError::NotPresent),
            Some(i) => {
                let ghost before = self@;
                proof {
                    before.index_of_first_ensures(name@);
                    assert(before[i as int] == name@);
                    if before.index_of(name@) != i as int {
                        assert(before[i as int] == name@);
                    }
                }
                self.maps.remove(i);
                proof {
                    assert(self@ =~= before.remove(i as int));
                    assert forall|a: int, b: int|
                        0 <= a < self@.len() && 0 <= b < self@.len() && a != b implies self@[a]
                        != self@[b] by {
                        let a0 = if a < i { a } else { a + 1 };
                        let b0 = if b < i { b } else { b + 1 };
                        assert(self@[a] == before[a0]);
                        assert(self@[b] == before[b0]);
                    }
                    if self@.contains(name@) {
                        let k = choose|k: int| 0 <= k < self@.len() && self@[k] == name@;
                        let k0 = if k < i { k } else { k + 1 };
                        assert(before[k0] == name@);
                    }
                }
                Ok(())
            },
        }
    }
}

} // verus!
