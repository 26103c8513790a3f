//! Integer cell coordinates and hashed collections keyed by them.
//!
//! A coordinate pair is stored under a single `u64` key, so that the hashed
//! collections of the standard library can hold it. The collections here hide
//! that key: their views are sets and maps of coordinate pairs.

use std::collections::HashMap;
use std::collections::HashSet;
use vstd::prelude::*;
use vstd::std_specs::iter::IteratorSpec;

verus! {

/// The key of a coordinate: each component is moved into the unsigned range
/// and the two are laid side by side, `x` in the upper half.
pub open spec fn pack_spec(c: (i32, i32)) -> u64 {
    ((c.0 + 0x8000_0000) * 0x1_0000_0000 + (c.1 + 0x8000_0000)) as u64
}

/// The coordinate that a key stands for.
pub open spec fn unpack_spec(k: u64) -> (i32, i32) {
    ((k / 0x1_0000_0000 - 0x8000_0000) as i32, (k % 0x1_0000_0000 - 0x8000_0000) as i32)
}

/// Packing and unpacking are inverse to each other, so keys and coordinates
/// correspond one to one.
pub proof fn lemma_pack_bijective()
    ensures
        forall|c: (i32, i32)| #[trigger] unpack_spec(pack_spec(c)) == c,
        forall|k: u64| #[trigger] pack_spec(unpack_spec(k)) == k,
{
}

/// The key of `c`.
pub fn pack(c: (i32, i32)) -> (k: u64)
    ensures
        k == pack_spec(c),
{
    let hi: u64 = (c.0 as i64 + 0x8000_0000) as u64;
    let lo: u64 = (c.1 as i64 + 0x8000_0000) as u64;
    hi * 0x1_0000_0000 + lo
}

/// The coordinate that `k` stands for.
pub fn unpack(k: u64) -> (c: (i32, i32))
    ensures
        c == unpack_spec(k),
{
    let hi: u64 = k / 0x1_0000_0000;
    let lo: u64 = k % 0x1_0000_0000;
    ((hi as i64 - 0x8000_0000) as i32, (lo as i64 - 0x8000_0000) as i32)
}

/// `c` moved by `(dx, dy)`. Coordinates live on the ring of `i32`, so a move
/// past either end of the range comes back in at the other end.
pub open spec fn shift_spec(c: (i32, i32), dx: i32, dy: i32) -> (i32, i32) {
    (vstd::wrapping::i32_specs::wrapping_add(c.0, dx), vstd::wrapping::i32_specs::wrapping_add(c.1, dy))
}

/// `c` moved back by `(dx, dy)`: the inverse of [`shift_spec`].
pub open spec fn unshift_spec(c: (i32, i32), dx: i32, dy: i32) -> (i32, i32) {
    (vstd::wrapping::i32_specs::wrapping_sub(c.0, dx), vstd::wrapping::i32_specs::wrapping_sub(c.1, dy))
}

/// `c` moved by `(dx, dy)`.
pub fn shift(c: (i32, i32), dx: i32, dy: i32) -> (r: (i32, i32))
    ensures
        r == shift_spec(c, dx, dy),
{
    (c.0.wrapping_add(dx), c.1.wrapping_add(dy))
}

/// `c` moved back by `(dx, dy)`.
pub fn unshift(c: (i32, i32), dx: i32, dy: i32) -> (r: (i32, i32))
    ensures
        r == unshift_spec(c, dx, dy),
{
    (c.0.wrapping_sub(dx), c.1.wrapping_sub(dy))
}

/// Moving there and back is the identity, in both orders; and while the sums
/// stay inside `i32` a move is plain addition.
pub proof fn lemma_shift_inverse(c: (i32, i32), dx: i32, dy: i32)
    ensures
        unshift_spec(shift_spec(c, dx, dy), dx, dy) == c,
        shift_spec(unshift_spec(c, dx, dy), dx, dy) == c,
        shift_spec(c, 0, 0) == c,
        (i32::MIN <= c.0 + dx <= i32::MAX && i32::MIN <= c.1 + dy <= i32::MAX) ==> shift_spec(
            c,
            dx,
            dy,
        ) == ((c.0 + dx) as i32, (c.1 + dy) as i32),
        (i32::MIN <= c.0 - dx <= i32::MAX && i32::MIN <= c.1 - dy <= i32::MAX) ==> unshift_spec(
            c,
            dx,
            dy,
        ) == ((c.0 - dx) as i32, (c.1 - dy) as i32),
{
}

/// A finite set of coordinates.
#[derive(Debug)]
pub struct CoordSet {
    keys: HashSet<u64>,
}

impl View for CoordSet {
    type V = Set<(i32, i32)>;

    closed spec fn view(&self) -> Set<(i32, i32)> {
        Set::new(|c: (i32, i32)| self.keys@.contains(pack_spec(c)))
    }
}

impl CoordSet {
    pub fn new() -> (s: CoordSet)
        ensures
            s@ == Set::<(i32, i32)>::empty(),
    {
        CoordSet { keys: HashSet::new() }
    }

    /// Adds `c`; the result says whether it was new.
    pub fn insert(&mut self, c: (i32, i32)) -> (added: bool)
        ensures
            final(self)@ == old(self)@.insert(c),
            added == !old(self)@.contains(c),
    {
        self.keys.insert(pack(c))
    }

    /// Takes `c` out; the result says whether it was there.
    pub fn remove(&mut self, c: (i32, i32)) -> (removed: bool)
        ensures
            final(self)@ == old(self)@.remove(c),
            removed == old(self)@.contains(c),
    {
        let k = pack(c);
        self.keys.remove(&k)
    }

    pub fn contains(&self, c: (i32, i32)) -> (found: bool)
        ensures
            found == self@.contains(c),
    {
        let k = pack(c);
        self.keys.contains(&k)
    }

    /// Adds every member of `other`.
    pub fn extend(&mut self, other: &CoordSet)
        ensures
            final(self)@ == old(self)@.union(other@),
    {
        let members = other.to_vec();
        let mut i: usize = 0;
        while i < members.len()
            invariant
                i <= members@.len(),
                forall|c: (i32, i32)|
                    self@.contains(c) <==> old(self)@.contains(c) || exists|j: int|
                        0 <= j < i && #[trigger] members@[j] == c,
            decreases members@.len() - i,
        {
            self.insert(members[i]);
            i += 1;
        }
    }

    /// The members, each once, in no particular order.
    pub fn to_vec(&self) -> (v: Vec<(i32, i32)>)
        ensures
            v@.no_duplicates(),
            v@.to_set() == self@,
    {
        let mut v: Vec<(i32, i32)> = Vec::new();
        for k in it: self.keys.iter()
            invariant
                it.seq() == self.keys.iter().remaining(),
                v@.len() == it.index(),
                forall|i: int| 0 <= i < v@.len() ==> v@[i] == unpack_spec(*#[trigger] it.seq()[i]),
        {
            v.push(unpack(*k));
        }
        proof {
            lemma_pack_bijective();
            let keys = self.keys.iter().remaining().unref();
            assert(keys.to_set() == self.keys@);
            assert(keys.no_duplicates());
            assert forall|i: int, j: int| 0 <= i < v@.len() && 0 <= j < v@.len() && i != j implies v@[i]
                != v@[j] by {
                assert(pack_spec(v@[i]) == keys[i]);
                assert(pack_spec(v@[j]) == keys[j]);
            }
            assert forall|c: (i32, i32)| v@.to_set().contains(c) <==> self@.contains(c) by {
                if v@.to_set().contains(c) {
                    let i = choose|i: int| 0 <= i < v@.len() && v@[i] == c;
                    assert(keys[i] == pack_spec(c));
                    assert(keys.to_set().contains(keys[i]));
                }
                if self@.contains(c) {
                    assert(keys.to_set().contains(pack_spec(c)));
                    let i = choose|i: int| 0 <= i < keys.len() && keys[i] == pack_spec(c);
                    assert(v@[i] == c);
                }
            }
            assert(v@.to_set() =~= self@);
        }
        v
    }

    /// Every set of this type is finite.
    pub proof fn lemma_finite(&self)
        ensures
            self@.finite(),
    {
        self.lemma_view_len();
    }

    /// The view is finite, and as large as the table behind it.
    proof fn lemma_view_len(&self)
        ensures
            self@.finite(),
            self@.len() == self.keys@.len(),
    {
        lemma_pack_bijective();
        let f = |k: u64| unpack_spec(k);
        let keys = self.keys.iter().remaining().unref();
        assert(keys.to_set() == self.keys@);
        vstd::seq_lib::seq_to_set_is_finite(keys);
        assert(vstd::relations::injective_on(f, self.keys@)) by {
            assert forall|a: u64, b: u64| #[trigger] f(a) == #[trigger] f(b) implies a == b by {
                assert(pack_spec(unpack_spec(a)) == a);
                assert(pack_spec(unpack_spec(b)) == b);
            }
        }
        assert(self.keys@.map(f) =~= self@) by {
            assert forall|c: (i32, i32)| self.keys@.map(f).contains(c) <==> self@.contains(c) by {
                if self@.contains(c) {
                    assert(f(pack_spec(c)) == c);
                }
            }
        }
        vstd::set_lib::lemma_map_size(self.keys@, self@, f);
    }

    pub fn len(&self) -> (n: usize)
        ensures
            self@.finite(),
            n == self@.len(),
    {
        proof {
            self.lemma_view_len();
        }
        self.keys.len()
    }

    pub fn is_empty(&self) -> (b: bool)
        ensures
            b == self@.is_empty(),
    {
        proof {
            self.lemma_view_len();
            lemma_pack_bijective();
            if self.keys@.is_empty() {
                assert(self@ =~= Set::<(i32, i32)>::empty());
            } else {
                let k = choose|k: u64| self.keys@.contains(k);
                assert(self@.contains(unpack_spec(k)));
            }
        }
        self.keys.is_empty()
    }
}

impl Clone for CoordSet {
    fn clone(&self) -> (s: CoordSet)
        ensures
            s@ == self@,
    {
        let mut keys: HashSet<u64> = HashSet::new();
        for k in it: self.keys.iter()
            invariant
                it.seq() == self.keys.iter().remaining(),
                keys@ == it.seq().unref().take(it.index()).to_set(),
        {
            keys.insert(*k);
            proof {
                let done = it.seq().unref().take(it.index());
                let next = it.seq().unref().take(it.index() + 1);
                assert(next =~= done.push(*k));
                assert(next.to_set() =~= done.to_set().insert(*k)) by {
                    assert forall|x: u64| next.to_set().contains(x) <==> done.to_set().insert(
                        *k,
                    ).contains(x) by {
                        if next.to_set().contains(x) {
                            let i = choose|i: int| 0 <= i < next.len() && next[i] == x;
                            if i < done.len() {
                                assert(done[i] == x);
                            }
                        }
                        if done.to_set().contains(x) {
                            let i = choose|i: int| 0 <= i < done.len() && done[i] == x;
                            assert(next[i] == x);
                        }
                        if x == *k {
                            assert(next[done.len() as int] == x);
                        }
                    }
                }
            }
        }
        let s = CoordSet { keys };
        proof {
            let all = self.keys.iter().remaining().unref();
            assert(all.take(all.len() as int) =~= all);
            assert(s.keys@ == self.keys@);
            assert(s@ =~= self@);
        }
        s
    }
}

/// A finite map from coordinates to values.
#[derive(Debug)]
pub struct CoordMap<V> {
    entries: HashMap<u64, V>,
}

impl<V> View for CoordMap<V> {
    type V = Map<(i32, i32), V>;

    closed spec fn view(&self) -> Map<(i32, i32), V> {
        Map::new(
            |c: (i32, i32)| self.entries@.contains_key(pack_spec(c)),
            |c: (i32, i32)| self.entries@[pack_spec(c)],
        )
    }
}

impl<V> CoordMap<V> {
    pub fn new() -> (m: CoordMap<V>)
        ensures
            m@ == Map::<(i32, i32), V>::empty(),
    {
        CoordMap { entries: HashMap::new() }
    }

    pub fn get(&self, c: (i32, i32)) -> (r: Option<&V>)
        ensures
            match r {
                Some(v) => self@.contains_key(c) && *v == self@[c],
                None => !self@.contains_key(c),
            },
    {
        let k = pack(c);
        self.entries.get(&k)
    }

    pub fn contains_key(&self, c: (i32, i32)) -> (found: bool)
        ensures
            found == self@.contains_key(c),
    {
        let k = pack(c);
        self.entries.contains_key(&k)
    }

    /// Stores `v` at `c` and returns what was there before.
    pub fn insert(&mut self, c: (i32, i32), v: V) -> (prev: Option<V>)
        ensures
            final(self)@ == old(self)@.insert(c, v),
            prev == old(self)@.get(c),
    {
        self.entries.insert(pack(c), v)
    }

    /// Takes the entry at `c` out and returns its value, if there was one.
    pub fn remove(&mut self, c: (i32, i32)) -> (prev: Option<V>)
        ensures
            final(self)@ == old(self)@.remove(c),
            prev == old(self)@.get(c),
    {
        let k = pack(c);
        self.entries.remove(&k)
    }

    /// The coordinates that hold a value, each once, in no particular order.
    pub fn keys(&self) -> (v: Vec<(i32, i32)>)
        ensures
            v@.no_duplicates(),
            v@.to_set() == self@.dom(),
    {
        let mut v: Vec<(i32, i32)> = Vec::new();
        for k in it: self.entries.keys()
            invariant
                it.seq() == self.entries.keys().remaining(),
                v@.len() == it.index(),
                forall|i: int| 0 <= i < v@.len() ==> v@[i] == unpack_spec(*#[trigger] it.seq()[i]),
        {
            v.push(unpack(*k));
        }
        proof {
            lemma_pack_bijective();
            let keys = self.entries.keys().remaining().unref();
            assert(keys.to_set() == self.entries@.dom());
            assert(keys.no_duplicates());
            assert forall|i: int, j: int| 0 <= i < v@.len() && 0 <= j < v@.len() && i != j implies v@[i]
                != v@[j] by {
                assert(pack_spec(v@[i]) == keys[i]);
                assert(pack_spec(v@[j]) == keys[j]);
            }
            assert forall|c: (i32, i32)| v@.to_set().contains(c) <==> self@.dom().contains(c) by {
                if v@.to_set().contains(c) {
                    let i = choose|i: int| 0 <= i < v@.len() && v@[i] == c;
                    assert(keys[i] == pack_spec(c));
                    assert(keys.to_set().contains(keys[i]));
                }
                if self@.dom().contains(c) {
                    assert(keys.to_set().contains(pack_spec(c)));
                    let i = choose|i: int| 0 <= i < keys.len() && keys[i] == pack_spec(c);
                    assert(v@[i] == c);
                }
            }
            assert(v@.to_set() =~= self@.dom());
        }
        v
    }

    pub fn is_empty(&self) -> (b: bool)
        ensures
            b == self@.dom().is_empty(),
    {
        proof {
            lemma_pack_bijective();
            if self.entries@.dom().is_empty() {
                assert(self@.dom() =~= Set::<(i32, i32)>::empty());
            } else {
                let k = choose|k: u64| self.entries@.dom().contains(k);
                assert(self@.dom().contains(unpack_spec(k)));
            }
        }
        self.entries.is_empty()
    }

    /// Every map of this type has finitely many entries.
    pub proof fn lemma_finite(&self)
        ensures
            self@.dom().finite(),
    {
        lemma_pack_bijective();
        let f = |k: u64| unpack_spec(k);
        assert(self.entries@.dom().map(f) =~= self@.dom()) by {
            assert forall|c: (i32, i32)| self.entries@.dom().map(f).contains(c) <==> self@.dom().contains(
                c,
            ) by {
                if self@.dom().contains(c) {
                    assert(f(pack_spec(c)) == c);
                }
            }
        }
        self.entries@.dom().lemma_map_finite(f);
    }
}

} // verus!
