//! Sets of points and maps keyed by points.
//!
//! Both keep their members in insertion order next to a hash index over an
//! integer code of the point.

use std::collections::HashMap;

use vstd::prelude::*;

use crate::geometry::Point;

verus! {

broadcast use vstd::std_specs::hash::group_hash_axioms;

/// An integer that determines the point.
pub open spec fn code(p: Point) -> int {
    (p.x + 0x8000_0000) * 0x1_0000_0000 + (p.y + 0x8000_0000)
}

fn encode(p: Point) -> (r: u64)
    ensures
        r == code(p),
{
    let x: u64 = (p.x as i64 + 0x8000_0000) as u64;
    let y: u64 = (p.y as i64 + 0x8000_0000) as u64;
    x * 0x1_0000_0000 + y
}

proof fn lemma_code_is_injective(a: Point, b: Point)
    requires
        code(a) == code(b),
    ensures
        a == b,
{
}

/// A finite map from points to integers.
pub struct PointMap {
    entries: Vec<(Point, i32)>,
    index: HashMap<u64, usize>,
}

impl View for PointMap {
    type V = Map<Point, i32>;

    closed spec fn view(&self) -> Map<Point, i32> {
        Map::new(
            |p: Point| self.index@.contains_key(code(p) as u64),
            |p: Point| self.entries@[self.index@[code(p) as u64] as int].1,
        )
    }
}

impl PointMap {
    /// Every entry is indexed under its own code, and nothing else is.
    #[verifier::type_invariant]
    closed spec fn indexed(&self) -> bool {
        &&& forall|i: int|
            0 <= i < self.entries@.len() ==> {
                let key = code((#[trigger] self.entries@[i]).0) as u64;
                self.index@.contains_key(key) && self.index@[key] == i
            }
        &&& forall|key: u64| #[trigger]
            self.index@.contains_key(key) ==> {
                &&& self.index@[key] < self.entries@.len()
                &&& code(self.entries@[self.index@[key] as int].0) == key
            }
    }

    pub fn new() -> (r: Self)
        ensures
            r@ == Map::<Point, i32>::empty(),
            r@.dom().finite(),
    {
        let r = PointMap { entries: Vec::new(), index: HashMap::new() };
        assert(r@ =~= Map::<Point, i32>::empty());
        r
    }

    pub fn get(&self, p: Point) -> (r: Option<i32>)
        ensures
            r == (if self@.contains_key(p) {
                Some(self@[p])
            } else {
                None::<i32>
            }),
    {
        proof {
            use_type_invariant(self);
        }
        match self.index.get(&encode(p)) {
            Some(at) => Some(self.entries[*at].1),
            None => None,
        }
    }

    pub fn contains_key(&self, p: Point) -> (r: bool)
        ensures
            r == self@.contains_key(p),
    {
        self.index.contains_key(&encode(p))
    }

    /// Binds `p` to `value`, replacing what it was bound to.
    pub fn insert(&mut self, p: Point, value: i32)
        ensures
            final(self)@ == old(self)@.insert(p, value),
    {
        proof {
            use_type_invariant(&*self);
        }
        let ghost before = self@;
        let mut taken = PointMap::new();
        std::mem::swap(self, &mut taken);
        assert(taken@ == before);
        proof {
            use_type_invariant(&taken);
        }
        let PointMap { mut entries, mut index } = taken;
        let ghost entries_before = entries@;
        let ghost index_before = index@;
        let key = encode(p);
        proof {
            assert forall|q: Point| code(q) as u64 == key implies q == p by {
                lemma_code_is_injective(p, q);
            }
        }
        let found: Option<usize> = match index.get(&key) {
            Some(at) => Some(*at),
            None => None,
        };
        match found {
            Some(at) => {
                entries.set(at, (p, value));
                assert(entries_before[at as int].0 == p);
            },
            None => {
                let at = entries.len();
                entries.push((p, value));
                index.insert(key, at);
            },
        }
        *self = PointMap { entries, index };
        assert(self@ =~= before.insert(p, value));
    }

    /// The number of points that are bound.
    pub fn len(&self) -> (r: usize)
        ensures
            r == self@.dom().len(),
            self@.dom().finite(),
    {
        proof {
            use_type_invariant(self);
            self.lemma_entries_cover();
        }
        self.entries.len()
    }

    proof fn lemma_entries_cover(&self)
        requires
            self.indexed(),
        ensures
            self@.dom() == self.entries@.map_values(|e: (Point, i32)| e.0).to_set(),
            self.entries@.map_values(|e: (Point, i32)| e.0).no_duplicates(),
            self@.dom().finite(),
            self.entries@.len() == self@.dom().len(),
            forall|i: int|
                0 <= i < self.entries@.len() ==> self@.contains_key((#[trigger] self.entries@[i]).0)
                    && self@[self.entries@[i].0] == self.entries@[i].1,
    {
        let keys = self.entries@.map_values(|e: (Point, i32)| e.0);
        assert forall|p: Point| self@.dom().contains(p) implies keys.to_set().contains(p) by {
            let at = self.index@[code(p) as u64] as int;
            lemma_code_is_injective(p, self.entries@[at].0);
            assert(keys[at] == p);
        }
        assert forall|p: Point| keys.to_set().contains(p) implies self@.dom().contains(p) by {
            let at = choose|at: int| 0 <= at < keys.len() && keys[at] == p;
            assert(self.entries@[at].0 == p);
        }
        assert(self@.dom() =~= keys.to_set());
        assert(keys.no_duplicates()) by {
            assert forall|i: int, j: int| 0 <= i < keys.len() && 0 <= j < keys.len() && i != j implies keys[i]
                != keys[j] by {
                assert(self.entries@[i].0 == keys[i]);
                assert(self.entries@[j].0 == keys[j]);
            }
        }
        keys.unique_seq_to_set();
        vstd::seq_lib::seq_to_set_is_finite(keys);
    }

    /// The bindings, each once.
    pub fn entries(&self) -> (r: &Vec<(Point, i32)>)
        ensures
            lists(r@, self@),
    {
        proof {
            use_type_invariant(self);
            self.lemma_entries_cover();
        }
        &self.entries
    }
}

/// Whether a list holds every binding of a map, each exactly once.
pub open spec fn lists(entries: Seq<(Point, i32)>, map: Map<Point, i32>) -> bool {
    &&& map.dom() == entries.map_values(|e: (Point, i32)| e.0).to_set()
    &&& entries.map_values(|e: (Point, i32)| e.0).no_duplicates()
    &&& map.dom().finite()
    &&& entries.len() == map.dom().len()
    &&& forall|i: int|
        0 <= i < entries.len() ==> map.contains_key((#[trigger] entries[i]).0)
            && map[entries[i].0] == entries[i].1
}

/// A finite set of points: those that its map marks with a nonzero number.
pub struct PointSet {
    members: PointMap,
}

impl View for PointSet {
    type V = Set<Point>;

    closed spec fn view(&self) -> Set<Point> {
        self.members@.dom().filter(|p: Point| self.members@[p] != 0)
    }
}

impl PointSet {
    pub fn new() -> (r: Self)
        ensures
            r@ == Set::<Point>::empty(),
    {
        let r = PointSet { members: PointMap::new() };
        assert(r@ =~= Set::<Point>::empty());
        r
    }

    pub fn contains(&self, p: Point) -> (r: bool)
        ensures
            r == self@.contains(p),
    {
        match self.members.get(p) {
            Some(mark) => mark != 0,
            None => false,
        }
    }

    pub fn insert(&mut self, p: Point)
        ensures
            final(self)@ == old(self)@.insert(p),
    {
        self.members.insert(p, 1);
        assert(self@ =~= old(self)@.insert(p));
    }

    pub fn remove(&mut self, p: Point)
        ensures
            final(self)@ == old(self)@.remove(p),
    {
        if self.members.contains_key(p) {
            self.members.insert(p, 0);
        }
        assert(self@ =~= old(self)@.remove(p));
    }

    /// Adds every point of a list.
    pub fn extend(&mut self, points: &[Point])
        ensures
            final(self)@ == old(self)@.union(points@.to_set()),
    {
        let mut i: usize = 0;
        assert(self@ =~= old(self)@.union(points@.take(0).to_set()));
        while i < points.len()
            invariant
                i <= points@.len(),
                self@ == old(self)@.union(points@.take(i as int).to_set()),
            decreases points@.len() - i,
        {
            self.insert(points[i]);
            proof {
                lemma_take_to_set(points@, i as int);
            }
            i += 1;
            assert(self@ =~= old(self)@.union(points@.take(i as int).to_set()));
        }
        assert(points@.take(i as int) == points@);
    }

    /// The members, each once.
    pub fn to_vec(&self) -> (r: Vec<Point>)
        ensures
            r@.to_set() == self@,
            r@.no_duplicates(),
    {
        let entries = self.members.entries();
        let mut r: Vec<Point> = Vec::new();
        let mut i: usize = 0;
        assert(r@.to_set() =~= Set::<Point>::empty());
        while i < entries.len()
            invariant
                i <= entries@.len(),
                lists(entries@, self.members@),
                r@.no_duplicates(),
                forall|p: Point| #[trigger] r@.contains(p) <==> exists|j: int|
                    0 <= j < i && (#[trigger] entries@[j]).0 == p && entries@[j].1 != 0,
            decreases entries@.len() - i,
        {
            let ghost before = r@;
            let ghost keys = entries@.map_values(|e: (Point, i32)| e.0);
            if entries[i].1 != 0 {
                let p = entries[i].0;
                proof {
                    if before.contains(p) {
                        let j = choose|j: int| 0 <= j < i && (#[trigger] entries@[j]).0 == p && entries@[j].1 != 0;
                        assert(keys[j] == keys[i as int]);
                    }
                }
                r.push(p);
                assert forall|q: Point| #[trigger] r@.contains(q) <==> exists|j: int|
                    0 <= j < i + 1 && (#[trigger] entries@[j]).0 == q && entries@[j].1 != 0 by {
                    if r@.contains(q) {
                        let k = choose|k: int| 0 <= k < r@.len() && r@[k] == q;
                        if k < before.len() {
                            assert(before.contains(q));
                        } else {
                            assert(entries@[i as int].0 == q);
                        }
                    }
                    if exists|j: int| 0 <= j < i + 1 && (#[trigger] entries@[j]).0 == q && entries@[j].1 != 0 {
                        let j = choose|j: int| 0 <= j < i + 1 && (#[trigger] entries@[j]).0 == q && entries@[j].1 != 0;
                        if j < i {
                            assert(before.contains(q));
                            let k = choose|k: int| 0 <= k < before.len() && before[k] == q;
                            assert(r@[k] == q);
                        } else {
                            assert(r@[before.len() as int] == q);
                        }
                    }
                }
            }
            i += 1;
        }
        assert forall|p: Point| r@.to_set().contains(p) <==> self@.contains(p) by {
            if self@.contains(p) {
                let keys = entries@.map_values(|e: (Point, i32)| e.0);
                assert(keys.to_set().contains(p));
                let j = choose|j: int| 0 <= j < keys.len() && keys[j] == p;
                assert(entries@[j].0 == p);
                assert(r@.contains(p));
            }
        }
        assert(r@.to_set() =~= self@);
        r
    }
}

/// Adding one more element of a list to the set of those before it.
pub proof fn lemma_take_to_set(points: Seq<Point>, i: int)
    requires
        0 <= i < points.len(),
    ensures
        points.take(i + 1).to_set() == points.take(i).to_set().insert(points[i]),
{
    let before = points.take(i);
    let after = points.take(i + 1);
    assert(after =~= before.push(points[i]));
    assert forall|p: Point| after.to_set().contains(p) <==> before.to_set().insert(points[i]).contains(p) by {
        if after.to_set().contains(p) {
            let k = choose|k: int| 0 <= k < after.len() && after[k] == p;
            if k < i {
                assert(before[k] == p);
            }
        }
        if before.to_set().contains(p) {
            let k = choose|k: int| 0 <= k < before.len() && before[k] == p;
            assert(after[k] == p);
        }
        assert(after[i] == points[i]);
    }
    assert(after.to_set() =~= before.to_set().insert(points[i]));
}

} // verus!
