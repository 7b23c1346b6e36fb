//! The transposition cache of the search: evaluations of exact positions, kept in
//! the order in which they were stored and found through a hash of the position.

use std::collections::HashMap;

use vstd::prelude::*;

use crate::deep_eval::DeepEval;
use crate::duel::{DeepActor, DeepState, DeepView, Mobility};
use crate::geometry::Point;
use crate::num::{larger, smaller};

verus! {

broadcast use vstd::std_specs::hash::group_hash_axioms;

/// The offset and the prime of the 64-bit FNV-1a hash.
pub const HASH_OFFSET: u64 = 0xcbf2_9ce4_8422_2325;

pub const HASH_PRIME: u64 = 0x100_0000_01b3;

/// One step of the FNV-1a hash.
pub open spec fn mixed(hash: u64, word: u64) -> u64 {
    vstd::wrapping::u64_specs::wrapping_mul(hash ^ word, HASH_PRIME)
}

/// The FNV-1a hash of some bytes.
pub open spec fn hash_of_bytes(bytes: Seq<u8>) -> u64
    decreases bytes.len(),
{
    if bytes.len() == 0 {
        HASH_OFFSET
    } else {
        mixed(hash_of_bytes(bytes.drop_last()), bytes.last() as u64)
    }
}

pub fn stable_hash(bytes: &[u8]) -> (r: u64)
    ensures
        r == hash_of_bytes(bytes@),
{
    let mut hash = HASH_OFFSET;
    let mut i: usize = 0;
    while i < bytes.len()
        invariant
            i <= bytes@.len(),
            hash == hash_of_bytes(bytes@.take(i as int)),
        decreases bytes@.len() - i,
    {
        let ghost before = bytes@.take(i as int);
        hash = mix(hash, bytes[i] as u64);
        i += 1;
        assert(bytes@.take(i as int).drop_last() =~= before);
    }
    assert(bytes@.take(i as int) =~= bytes@);
    hash
}

fn mix(hash: u64, word: u64) -> (r: u64)
    ensures
        r == mixed(hash, word),
{
    (hash ^ word).wrapping_mul(HASH_PRIME)
}

/// Everything that the evaluation of a position depends on.
pub struct DeepTTKey {
    pub state: DeepState,
    pub actor: DeepActor,
    pub depth_remaining: usize,
    pub enemy_context: u64,
    pub baseline: Mobility,
}

/// A key in plain values.
pub struct DeepKey {
    pub state: DeepView,
    pub actor: DeepActor,
    pub depth_remaining: usize,
    pub enemy_context: u64,
    pub baseline: Mobility,
}

impl View for DeepTTKey {
    type V = DeepKey;

    open spec fn view(&self) -> DeepKey {
        DeepKey {
            state: self.state@,
            actor: self.actor,
            depth_remaining: self.depth_remaining,
            enemy_context: self.enemy_context,
            baseline: self.baseline,
        }
    }
}

fn same_points(a: &Vec<Point>, b: &Vec<Point>) -> (r: bool)
    ensures
        r == (a@ == b@),
{
    if a.len() != b.len() {
        return false;
    }
    let mut i: usize = 0;
    while i < a.len()
        invariant
            i <= a@.len() == b@.len(),
            forall|j: int| 0 <= j < i ==> a@[j] == b@[j],
        decreases a@.len() - i,
    {
        if a[i] != b[i] {
            return false;
        }
        i += 1;
    }
    assert(a@ =~= b@);
    true
}

impl DeepTTKey {
    /// Whether two keys are the same.
    pub fn same_as(&self, other: &DeepTTKey) -> (r: bool)
        ensures
            r == (self@ == other@),
    {
        self.actor == other.actor && self.depth_remaining == other.depth_remaining && self.enemy_context
            == other.enemy_context && self.baseline.space == other.baseline.space && self.baseline.exits
            == other.baseline.exits && self.baseline.escape == other.baseline.escape && self.state.our_health
            == other.state.our_health && self.state.enemy_health == other.state.enemy_health && self.state.eaten_food
            == other.state.eaten_food && self.state.our_alive == other.state.our_alive && self.state.enemy_alive
            == other.state.enemy_alive && same_points(&self.state.our_body, &other.state.our_body) && same_points(
            &self.state.enemy_body,
            &other.state.enemy_body,
        )
    }
}

/// The hash of some points, begun with a given hash.
spec fn hash_of_points(hash: u64, points: Seq<Point>) -> u64
    decreases points.len(),
{
    if points.len() == 0 {
        hash
    } else {
        let before = hash_of_points(hash, points.drop_last());
        mixed(mixed(before, points.last().x as u32 as u64), points.last().y as u32 as u64)
    }
}

fn mix_points(hash: u64, points: &Vec<Point>) -> (r: u64)
    ensures
        r == hash_of_points(hash, points@),
{
    let mut r = hash;
    let mut i: usize = 0;
    assert(points@.take(0) =~= Seq::<Point>::empty());
    while i < points.len()
        invariant
            i <= points@.len(),
            r == hash_of_points(hash, points@.take(i as int)),
        decreases points@.len() - i,
    {
        let ghost before = points@.take(i as int);
        r = mix(mix(r, points[i].x as u32 as u64), points[i].y as u32 as u64);
        i += 1;
        assert(points@.take(i as int).drop_last() =~= before);
    }
    assert(points@.take(i as int) =~= points@);
    r
}

/// The hash of a key. It takes the parts that differ most.
spec fn hash_of_key(key: DeepKey) -> u64 {
    let bodies = hash_of_points(hash_of_points(HASH_OFFSET, key.state.our_body), key.state.enemy_body);
    let healths = mixed(mixed(bodies, key.state.our_health as u32 as u64), key.state.enemy_health as u32 as u64);
    mixed(mixed(healths, key.depth_remaining as u64), key.enemy_context)
}

fn hash_key(key: &DeepTTKey) -> (r: u64)
    ensures
        r == hash_of_key(key@),
{
    let bodies = mix_points(mix_points(HASH_OFFSET, &key.state.our_body), &key.state.enemy_body);
    let healths = mix(mix(bodies, key.state.our_health as u32 as u64), key.state.enemy_health as u32 as u64);
    mix(mix(healths, key.depth_remaining as u64), key.enemy_context)
}

/// A stored evaluation, and the place of the one stored before it under the same
/// hash.
struct DeepTTEntry {
    key: DeepTTKey,
    eval: DeepEval,
    earlier: Option<usize>,
}

/// What has been stored: of two evaluations of the same position, the later one.
spec fn stored(entries: Seq<DeepTTEntry>) -> Map<DeepKey, DeepEval>
    decreases entries.len(),
{
    if entries.len() == 0 {
        Map::empty()
    } else {
        stored(entries.drop_last()).insert(entries.last().key@, entries.last().eval)
    }
}

proof fn lemma_stored_last(entries: Seq<DeepTTEntry>, key: DeepKey, at: int)
    requires
        0 <= at < entries.len(),
        entries[at].key@ == key,
        forall|i: int| at < i < entries.len() ==> (#[trigger] entries[i]).key@ != key,
    ensures
        stored(entries).contains_key(key),
        stored(entries)[key] == entries[at].eval,
    decreases entries.len(),
{
    if at < entries.len() - 1 {
        assert(entries[entries.len() - 1].key@ != key);
        lemma_stored_last(entries.drop_last(), key, at);
    }
}

proof fn lemma_not_stored(entries: Seq<DeepTTEntry>, key: DeepKey)
    requires
        forall|i: int| 0 <= i < entries.len() ==> (#[trigger] entries[i]).key@ != key,
    ensures
        !stored(entries).contains_key(key),
    decreases entries.len(),
{
    if entries.len() > 0 {
        assert(entries[entries.len() - 1].key@ != key);
        assert forall|i: int| 0 <= i < entries.drop_last().len() implies (#[trigger] entries.drop_last()[i]).key@
            != key by {
            assert(entries[i].key@ != key);
        }
        lemma_not_stored(entries.drop_last(), key);
    }
}

/// A map from exact positions to their evaluations.
pub struct DeepTable {
    entries: Vec<DeepTTEntry>,
    index: HashMap<u64, usize>,
}

impl View for DeepTable {
    type V = Map<DeepKey, DeepEval>;

    closed spec fn view(&self) -> Map<DeepKey, DeepEval> {
        stored(self.entries@)
    }
}

/// The hash under which an entry is found.
spec fn hash_at(entries: Seq<DeepTTEntry>, i: int) -> u64 {
    hash_of_key(entries[i].key@)
}

/// Whether the entry at `i` knows the last one before it under the same hash.
spec fn is_linked(entries: Seq<DeepTTEntry>, i: int) -> bool {
    match entries[i].earlier {
        Some(j) => j < i && hash_at(entries, j as int) == hash_at(entries, i) && forall|m: int|
            j < m < i ==> #[trigger] hash_at(entries, m) != hash_at(entries, i),
        None => forall|m: int| 0 <= m < i ==> #[trigger] hash_at(entries, m) != hash_at(entries, i),
    }
}

/// Whether an index knows the last entry under each hash.
spec fn is_index(entries: Seq<DeepTTEntry>, index: Map<u64, usize>) -> bool {
    &&& forall|i: int| 0 <= i < entries.len() ==> index.contains_key(#[trigger] hash_at(entries, i))
    &&& forall|hash: u64| #[trigger]
        index.contains_key(hash) ==> {
            &&& index[hash] < entries.len()
            &&& hash_at(entries, index[hash] as int) == hash
            &&& forall|m: int| index[hash] < m < entries.len() ==> #[trigger] hash_at(entries, m) != hash
        }
}

impl DeepTable {
    /// Every entry can be reached from the index through its hash.
    #[verifier::type_invariant]
    closed spec fn chained(&self) -> bool {
        &&& forall|i: int| 0 <= i < self.entries@.len() ==> #[trigger] is_linked(self.entries@, i)
        &&& is_index(self.entries@, self.index@)
    }

    pub fn new() -> (r: Self)
        ensures
            r@ == Map::<DeepKey, DeepEval>::empty(),
    {
        DeepTable { entries: Vec::new(), index: HashMap::new() }
    }

    /// The evaluation that is stored for a position.
    pub fn get(&self, key: &DeepTTKey) -> (r: Option<DeepEval>)
        ensures
            r == (if self@.contains_key(key@) {
                Some(self@[key@])
            } else {
                None::<DeepEval>
            }),
    {
        proof {
            use_type_invariant(self);
        }
        let hash = hash_key(key);
        let mut at: Option<usize> = match self.index.get(&hash) {
            Some(last) => Some(*last),
            None => None,
        };
        proof {
            assert forall|m: int|
                (match at {
                    Some(i) => i < m < self.entries@.len(),
                    None => 0 <= m < self.entries@.len(),
                }) implies (#[trigger] self.entries@[m]).key@ != key@ by {
                assert(self.index@.contains_key(hash_at(self.entries@, m)));
                if at is Some {
                    assert(hash_at(self.entries@, m) != hash);
                }
            }
        }
        loop
            invariant
                hash == hash_of_key(key@),
                forall|i: int| 0 <= i < self.entries@.len() ==> #[trigger] is_linked(self.entries@, i),
                match at {
                    Some(i) => {
                        &&& i < self.entries@.len()
                        &&& hash_at(self.entries@, i as int) == hash
                        &&& forall|m: int| i < m < self.entries@.len() ==> (#[trigger] self.entries@[m]).key@ != key@
                    },
                    None => forall|m: int| 0 <= m < self.entries@.len() ==> (#[trigger] self.entries@[m]).key@ != key@,
                },
            decreases
                    (match at {
                        Some(i) => i + 1,
                        None => 0,
                    }),
        {
            match at {
                Some(i) => {
                    let entry = &self.entries[i];
                    if entry.key.same_as(key) {
                        proof {
                            lemma_stored_last(self.entries@, key@, i as int);
                        }
                        return Some(entry.eval);
                    }
                    assert(is_linked(self.entries@, i as int));
                    at = entry.earlier;
                    proof {
                        assert forall|m: int|
                            (match at {
                                Some(j) => j < m < self.entries@.len(),
                                None => 0 <= m < self.entries@.len(),
                            }) implies (#[trigger] self.entries@[m]).key@ != key@ by {
                            if m < i {
                                assert(hash_at(self.entries@, m) != hash);
                            }
                        }
                    }
                },
                None => {
                    proof {
                        lemma_not_stored(self.entries@, key@);
                    }
                    return None;
                },
            }
        }
    }

    /// Stores an evaluation, in place of an earlier one of the same position.
    pub fn insert(&mut self, key: DeepTTKey, eval: DeepEval)
        ensures
            final(self)@ == old(self)@.insert(key@, eval),
    {
        proof {
            use_type_invariant(&*self);
        }
        let mut taken = DeepTable::new();
        std::mem::swap(self, &mut taken);
        proof {
            use_type_invariant(&taken);
        }
        let DeepTable { mut entries, mut index } = taken;
        let ghost before = entries@;
        let ghost index_before = index@;
        let ghost plain = key@;
        let hash = hash_key(&key);
        let earlier: Option<usize> = match index.get(&hash) {
            Some(last) => Some(*last),
            None => None,
        };
        let at = entries.len();
        entries.push(DeepTTEntry { key, eval, earlier });
        index.insert(hash, at);
        proof {
            assert(entries@.drop_last() =~= before);
            assert forall|i: int| 0 <= i < before.len() implies #[trigger] hash_at(entries@, i) == hash_at(
                before,
                i,
            ) by {
                assert(entries@[i] == before[i]);
            }
            assert(hash_at(entries@, at as int) == hash);
            assert forall|i: int| 0 <= i < entries@.len() implies #[trigger] is_linked(entries@, i) by {
                if i < at {
                    assert(is_linked(before, i));
                    assert(entries@[i] == before[i]);
                    assert forall|m: int| 0 <= m < i implies #[trigger] hash_at(entries@, m) == hash_at(before, m) by {
                    }
                    match before[i].earlier {
                        Some(j) => {
                            assert(hash_at(entries@, j as int) == hash_at(before, j as int));
                            assert forall|m: int| j < m < i implies #[trigger] hash_at(entries@, m) != hash_at(
                                entries@,
                                i,
                            ) by {
                                assert(hash_at(before, m) != hash_at(before, i));
                            }
                        },
                        None => {
                            assert forall|m: int| 0 <= m < i implies #[trigger] hash_at(entries@, m) != hash_at(
                                entries@,
                                i,
                            ) by {
                                assert(hash_at(before, m) != hash_at(before, i));
                            }
                        },
                    }
                } else {
                    match earlier {
                        Some(j) => {
                            assert(index_before.contains_key(hash));
                            assert(hash_at(entries@, j as int) == hash_at(before, j as int));
                            assert forall|m: int| j < m < i implies #[trigger] hash_at(entries@, m) != hash by {
                                assert(hash_at(before, m) != hash);
                            }
                        },
                        None => {
                            assert forall|m: int| 0 <= m < i implies #[trigger] hash_at(entries@, m) != hash by {
                                assert(index_before.contains_key(hash_at(before, m)));
                            }
                        },
                    }
                }
            }
            assert(is_index(entries@, index@)) by {
                assert forall|i: int| 0 <= i < entries@.len() implies index@.contains_key(
                    #[trigger] hash_at(entries@, i),
                ) by {
                    if i < at {
                        assert(index_before.contains_key(hash_at(before, i)));
                    }
                }
                assert forall|h: u64| #[trigger] index@.contains_key(h) implies {
                    &&& index@[h] < entries@.len()
                    &&& hash_at(entries@, index@[h] as int) == h
                    &&& forall|m: int| index@[h] < m < entries@.len() ==> #[trigger] hash_at(entries@, m) != h
                } by {
                    if h != hash {
                        assert(index_before.contains_key(h));
                        assert(hash_at(entries@, index@[h] as int) == hash_at(before, index@[h] as int));
                        assert forall|m: int| index@[h] < m < entries@.len() implies #[trigger] hash_at(entries@, m)
                            != h by {
                            if m < at {
                                assert(hash_at(before, m) != h);
                            }
                        }
                    }
                }
            }
        }
        *self = DeepTable { entries, index };
    }
}

/// An evaluation as it is stored: with the plies that we survive counted from the
/// position on, so that it can be used at any depth.
pub open spec fn relative(eval: DeepEval, depth: int) -> DeepEval {
    DeepEval { survival_plies: larger(eval.survival_plies - depth, 0) as usize, ..eval }
}

/// A stored evaluation as it is used at a depth.
pub open spec fn absolute(eval: DeepEval, depth: int) -> DeepEval {
    DeepEval { survival_plies: smaller(eval.survival_plies + depth, usize::MAX as int) as usize, ..eval }
}

/// Law: an evaluation whose plies are counted from the root or beyond comes back
/// from the cache as it was.
pub proof fn stored_evaluations_come_back(eval: DeepEval, depth: int)
    requires
        0 <= depth <= eval.survival_plies,
    ensures
        absolute(relative(eval, depth), depth) == eval,
{
}

/// Stores an evaluation with the plies counted from the position on.
pub fn deep_tt_store(tt: &mut DeepTable, key: DeepTTKey, eval: DeepEval, depth_from_root: usize)
    ensures
        final(tt)@ == old(tt)@.insert(key@, relative(eval, depth_from_root as int)),
{
    let mut cached = eval;
    cached.survival_plies = cached.survival_plies.saturating_sub(depth_from_root);
    tt.insert(key, cached);
}

/// Law: an evaluation that was stored at one depth and is used at another lasts as many
/// plies from the position on, and is otherwise the same.
pub proof fn stored_plies_count_from_the_position(eval: DeepEval, at: int, used: int)
    requires
        0 <= at <= eval.survival_plies,
        0 <= used,
        eval.survival_plies - at + used <= usize::MAX,
    ensures
        ({
            let r = absolute(relative(eval, at), used);
            &&& r.survival_plies - used == eval.survival_plies - at
            &&& r == (DeepEval { survival_plies: r.survival_plies, ..eval })
        }),
{
}

/// Law: the hash of bytes is the 64-bit FNV-1a hash: it begins with the offset, and every
/// byte is mixed in before the product with the prime.
pub proof fn bytes_are_hashed_one_by_one(bytes: Seq<u8>, next: u8)
    ensures
        hash_of_bytes(Seq::<u8>::empty()) == 14_695_981_039_346_656_037u64,
        hash_of_bytes(bytes.push(next)) == vstd::wrapping::u64_specs::wrapping_mul(
            hash_of_bytes(bytes) ^ (next as u64),
            1_099_511_628_211u64,
        ),
{
    assert(bytes.push(next).drop_last() =~= bytes);
}

} // verus!
