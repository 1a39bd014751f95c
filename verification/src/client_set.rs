//! Sets of client ids as one machine word: the recipient sets of the server.

use crate::types::ClientId;
use vstd::prelude::*;

verus! {

/// The size of the id pool: ids are `0 .. MAX_PLAYERS`.
pub const MAX_PLAYERS: usize = 64;

/// Whether bit `i` of `bits` is set.
pub open spec fn bit_is_set(bits: u64, i: usize) -> bool {
    i < 64 && (bits >> (i as u64)) & 1 == 1
}

/// The ids below `limit` that belong to `s`.
pub open spec fn ids_below(s: Set<usize>, limit: int) -> Set<usize> {
    Set::new(|i: usize| i < limit && s.contains(i))
}

/// Counting the members of a set one id at a time.
pub proof fn lemma_ids_below_step(s: Set<usize>, limit: int)
    requires
        0 <= limit < usize::MAX,
    ensures
        ids_below(s, 0).finite(),
        ids_below(s, 0).len() == 0,
        ids_below(s, limit).finite() ==> ids_below(s, limit + 1).finite(),
        ids_below(s, limit).finite() ==> ids_below(s, limit + 1).len() == ids_below(s, limit).len()
            + (if s.contains(limit as usize) {
            1nat
        } else {
            0nat
        }),
{
    assert(ids_below(s, 0) =~= Set::<usize>::empty());
    if s.contains(limit as usize) {
        assert(ids_below(s, limit + 1) =~= ids_below(s, limit).insert(limit as usize));
    } else {
        assert(ids_below(s, limit + 1) =~= ids_below(s, limit));
    }
}

/// A set whose members all lie below `limit` is finite and has at most
/// `limit` members.
pub proof fn lemma_bounded_set(s: Set<usize>, limit: int)
    requires
        0 <= limit <= usize::MAX,
        forall|i: usize| s.contains(i) ==> i < limit,
    ensures
        s.finite(),
        s.len() <= limit,
{
    lemma_ids_below_bound(s, limit);
    assert(ids_below(s, limit) =~= s);
}

/// The ids below `limit` are at most `limit` many.
proof fn lemma_ids_below_bound(s: Set<usize>, limit: int)
    requires
        0 <= limit <= usize::MAX,
    ensures
        ids_below(s, limit).finite(),
        ids_below(s, limit).len() <= limit,
    decreases limit,
{
    if limit == 0 {
        lemma_ids_below_step(s, 0);
    } else {
        lemma_ids_below_bound(s, limit - 1);
        lemma_ids_below_step(s, limit - 1);
    }
}

/// The zero word has no bit set.
proof fn lemma_no_bits()
    ensures
        forall|i: usize| !bit_is_set(0, i),
{
    assert forall|i: usize| !bit_is_set(0, i) by {
        let j = i as u64;
        assert((0u64 >> j) & 1 == 0) by (bit_vector);
    }
}

/// Masking with bit `k` tells whether bit `k` is set.
proof fn lemma_bit_probe(bits: u64, k: usize)
    requires
        k < 64,
    ensures
        (bits & (1u64 << (k as u64)) != 0) == bit_is_set(bits, k),
{
    let j = k as u64;
    assert(j < 64 ==> ((bits & (1u64 << j) != 0) == ((bits >> j) & 1 == 1))) by (bit_vector);
}

/// Or-ing bit `k` in sets bit `k` and leaves the others.
proof fn lemma_bit_set(bits: u64, k: usize)
    requires
        k < 64,
    ensures
        forall|i: usize|
            #[trigger] bit_is_set(bits | (1u64 << (k as u64)), i) == (i == k || bit_is_set(bits, i)),
{
    let j = k as u64;
    let word = bits | (1u64 << j);
    assert forall|i: usize| #[trigger] bit_is_set(word, i) == (i == k || bit_is_set(bits, i)) by {
        let h = i as u64;
        if i < 64 {
            assert(j < 64 && h < 64 ==> ((((bits | (1u64 << j)) >> h) & 1 == 1) == (h == j || (
                bits >> h) & 1 == 1))) by (bit_vector);
        }
    }
}

/// Masking bit `k` out clears bit `k` and leaves the others.
proof fn lemma_bit_cleared(bits: u64, k: usize)
    requires
        k < 64,
    ensures
        forall|i: usize|
            #[trigger] bit_is_set(bits & !(1u64 << (k as u64)), i) == (i != k && bit_is_set(
                bits,
                i,
            )),
{
    let j = k as u64;
    let word = bits & !(1u64 << j);
    assert forall|i: usize| #[trigger] bit_is_set(word, i) == (i != k && bit_is_set(bits, i)) by {
        let h = i as u64;
        if i < 64 {
            assert(j < 64 && h < 64 ==> ((((bits & !(1u64 << j)) >> h) & 1 == 1) == (h != j && (
                bits >> h) & 1 == 1))) by (bit_vector);
        }
    }
}

/// The bits of the or, the and, and the and-not of two words.
proof fn lemma_bits_combined(a: u64, b: u64)
    ensures
        forall|i: usize| bit_is_set(a | b, i) == (bit_is_set(a, i) || bit_is_set(b, i)),
        forall|i: usize| bit_is_set(a & b, i) == (bit_is_set(a, i) && bit_is_set(b, i)),
        forall|i: usize| bit_is_set(a & !b, i) == (bit_is_set(a, i) && !bit_is_set(b, i)),
{
    assert forall|i: usize| bit_is_set(a | b, i) == (bit_is_set(a, i) || bit_is_set(b, i)) by {
        let h = i as u64;
        assert((((a | b) >> h) & 1 == 1) == ((a >> h) & 1 == 1 || (b >> h) & 1 == 1))
            by (bit_vector);
    }
    assert forall|i: usize| bit_is_set(a & b, i) == (bit_is_set(a, i) && bit_is_set(b, i)) by {
        let h = i as u64;
        assert((((a & b) >> h) & 1 == 1) == ((a >> h) & 1 == 1 && (b >> h) & 1 == 1))
            by (bit_vector);
    }
    assert forall|i: usize| bit_is_set(a & !b, i) == (bit_is_set(a, i) && !bit_is_set(b, i)) by {
        let h = i as u64;
        assert((((a & !b) >> h) & 1 == 1) == ((a >> h) & 1 == 1 && !((b >> h) & 1 == 1)))
            by (bit_vector);
    }
}

/// A set of client ids drawn from the id pool. An id outside the pool is
/// never a member.
#[derive(Copy, Clone, Debug, PartialEq, Eq)]
pub struct ClientSet {
    bits: u64,
}

impl View for ClientSet {
    type V = Set<usize>;

    /// The ids in the set.
    closed spec fn view(&self) -> Set<usize> {
        Set::new(|i: usize| bit_is_set(self.bits, i))
    }
}

impl ClientSet {
    /// Every member lies in the id pool, so at most `MAX_PLAYERS` ids are in
    /// a set.
    pub proof fn lemma_in_pool(&self)
        ensures
            forall|i: usize| self@.contains(i) ==> i < MAX_PLAYERS,
            self@.finite(),
            self@.len() <= MAX_PLAYERS,
    {
        lemma_bounded_set(self@, MAX_PLAYERS as int);
    }

    /// Two sets with the same members are the same set.
    pub proof fn lemma_same_members(&self, other: &ClientSet)
        requires
            self@ == other@,
        ensures
            *self == *other,
    {
        let a = self.bits;
        let b = other.bits;
        assert forall|h: u64| h < 64 implies #[trigger] ((a >> h) & 1) == ((b >> h) & 1) by {
            let i = h as usize;
            assert(self@.contains(i) == bit_is_set(a, i));
            assert(other@.contains(i) == bit_is_set(b, i));
            assert(((a >> h) & 1) == 0 || ((a >> h) & 1) == 1) by (bit_vector);
            assert(((b >> h) & 1) == 0 || ((b >> h) & 1) == 1) by (bit_vector);
        }
        lemma_words_equal(a, b);
    }

    /// The empty set.
    pub fn new() -> (s: ClientSet)
        ensures
            s@ == Set::<usize>::empty(),
    {
        let s = ClientSet { bits: 0 };
        proof {
            lemma_no_bits();
            assert(s@ =~= Set::<usize>::empty());
        }
        s
    }

    /// The set of the given ids that lie in the id pool.
    pub fn from_ids(ids: &[ClientId]) -> (s: ClientSet)
        ensures
            forall|i: usize|
                s@.contains(i) <==> (i < MAX_PLAYERS && ids@.contains(ClientId(i))),
    {
        let mut s = ClientSet::new();
        let mut k: usize = 0;
        while k < ids.len()
            invariant
                k <= ids.len(),
                forall|i: usize|
                    s@.contains(i) <==> (i < MAX_PLAYERS && exists|j: int|
                        0 <= j < k && ids@[j] == ClientId(i)),
            decreases ids.len() - k,
        {
            let id = ids[k];
            s.insert(id);
            k += 1;
        }
        s
    }

    /// Whether `client_id` is in the set.
    pub fn contains(&self, client_id: ClientId) -> (found: bool)
        ensures
            found == self@.contains(client_id.0),
    {
        if client_id.0 >= MAX_PLAYERS {
            return false;
        }
        proof {
            lemma_bit_probe(self.bits, client_id.0);
        }
        self.bits & (1u64 << (client_id.0 as u64)) != 0
    }

    /// Keeps only the ids that are also in `other`.
    pub fn intersect_with(&mut self, other: &ClientSet)
        ensures
            final(self)@ == old(self)@.intersect(other@),
    {
        proof {
            lemma_bits_combined(self.bits, other.bits);
        }
        self.bits = self.bits & other.bits;
        assert(self@ =~= old(self)@.intersect(other@));
    }

    /// Adds every id of `other`.
    pub fn union_with(&mut self, other: &ClientSet)
        ensures
            final(self)@ == old(self)@.union(other@),
    {
        proof {
            lemma_bits_combined(self.bits, other.bits);
        }
        self.bits = self.bits | other.bits;
        assert(self@ =~= old(self)@.union(other@));
    }

    /// Removes every id of `other`.
    pub fn difference_with(&mut self, other: &ClientSet)
        ensures
            final(self)@ == old(self)@.difference(other@),
    {
        proof {
            lemma_bits_combined(self.bits, other.bits);
        }
        self.bits = self.bits & !other.bits;
        assert(self@ =~= old(self)@.difference(other@));
    }

    /// Adds `client_id` if it lies in the id pool, and says whether the set
    /// grew.
    pub fn insert(&mut self, client_id: ClientId) -> (added: bool)
        ensures
            client_id.0 < MAX_PLAYERS ==> final(self)@ == old(self)@.insert(client_id.0),
            client_id.0 >= MAX_PLAYERS ==> final(self)@ == old(self)@,
            added == (client_id.0 < MAX_PLAYERS && !old(self)@.contains(client_id.0)),
    {
        if client_id.0 >= MAX_PLAYERS {
            return false;
        }
        proof {
            lemma_bit_probe(self.bits, client_id.0);
            lemma_bit_set(self.bits, client_id.0);
        }
        let mask: u64 = 1u64 << (client_id.0 as u64);
        let had = self.bits & mask != 0;
        self.bits = self.bits | mask;
        assert(self@ =~= old(self)@.insert(client_id.0));
        !had
    }

    /// Removes `client_id`, and says whether it was a member.
    pub fn remove(&mut self, client_id: ClientId) -> (removed: bool)
        ensures
            final(self)@ == old(self)@.remove(client_id.0),
            removed == old(self)@.contains(client_id.0),
    {
        if client_id.0 >= MAX_PLAYERS {
            assert(self@ =~= old(self)@.remove(client_id.0));
            return false;
        }
        proof {
            lemma_bit_probe(self.bits, client_id.0);
            lemma_bit_cleared(self.bits, client_id.0);
        }
        let mask: u64 = 1u64 << (client_id.0 as u64);
        let had = self.bits & mask != 0;
        self.bits = self.bits & !mask;
        assert(self@ =~= old(self)@.remove(client_id.0));
        had
    }

    /// Whether the two sets hold the same ids.
    pub fn same_as(&self, other: &ClientSet) -> (same: bool)
        ensures
            same == (self@ == other@),
    {
        proof {
            if self@ == other@ {
                self.lemma_same_members(other);
            }
        }
        self.bits == other.bits
    }

    /// The number of ids in the set.
    pub fn count(&self) -> (n: usize)
        ensures
            n == self@.len(),
            n <= MAX_PLAYERS,
    {
        let mut n: usize = 0;
        let mut i: usize = 0;
        proof {
            lemma_ids_below_step(self@, 0);
        }
        while i < MAX_PLAYERS
            invariant
                i <= MAX_PLAYERS,
                n <= i,
                ids_below(self@, i as int).finite(),
                n == ids_below(self@, i as int).len(),
            decreases MAX_PLAYERS - i,
        {
            proof {
                lemma_ids_below_step(self@, i as int);
            }
            if self.contains(ClientId(i)) {
                n += 1;
            }
            i += 1;
        }
        assert(ids_below(self@, 64) =~= self@);
        n
    }

    /// The ids in the set, in ascending order.
    pub fn to_vec(&self) -> (ids: Vec<ClientId>)
        ensures
            ids@ == ascending_ids(self@, MAX_PLAYERS as int),
            ids@.len() == self@.len(),
            ids@.no_duplicates(),
            forall|i: usize| ids@.contains(ClientId(i)) <==> self@.contains(i),
    {
        proof {
            lemma_ascending_ids(self@, 64);
            lemma_ascending_ids_count(self@, 64);
            assert(ids_below(self@, 64) =~= self@);
            let all = ascending_ids(self@, 64);
            assert forall|i: usize| all.contains(ClientId(i)) implies self@.contains(i) by {
                let k = choose|k: int| 0 <= k < all.len() && all[k] == ClientId(i);
                assert(self@.contains(all[k].0));
            }
        }
        let mut ids: Vec<ClientId> = Vec::new();
        let mut i: usize = 0;
        while i < MAX_PLAYERS
            invariant
                i <= MAX_PLAYERS,
                ids@ == ascending_ids(self@, i as int),
            decreases MAX_PLAYERS - i,
        {
            if self.contains(ClientId(i)) {
                ids.push(ClientId(i));
            }
            i += 1;
        }
        ids
    }
}

/// The members of `s` below `limit`, in ascending order.
pub open spec fn ascending_ids(s: Set<usize>, limit: int) -> Seq<ClientId>
    decreases limit,
{
    if limit <= 0 {
        Seq::empty()
    } else if s.contains((limit - 1) as usize) {
        ascending_ids(s, limit - 1).push(ClientId((limit - 1) as usize))
    } else {
        ascending_ids(s, limit - 1)
    }
}

/// `ascending_ids` lists exactly the members below the limit, each once and
/// in ascending order.
pub proof fn lemma_ascending_ids(s: Set<usize>, limit: int)
    requires
        0 <= limit <= usize::MAX,
    ensures
        forall|k: int|
            0 <= k < ascending_ids(s, limit).len() ==> {
                &&& s.contains((#[trigger] ascending_ids(s, limit)[k]).0)
                &&& ascending_ids(s, limit)[k].0 < limit
            },
        forall|j: int, k: int|
            0 <= j < k < ascending_ids(s, limit).len() ==> ascending_ids(s, limit)[j].0
                < ascending_ids(s, limit)[k].0,
        forall|i: usize|
            i < limit && s.contains(i) ==> ascending_ids(s, limit).contains(ClientId(i)),
        ascending_ids(s, limit).len() <= limit,
    decreases limit,
{
    if limit > 0 {
        lemma_ascending_ids(s, limit - 1);
        let before = ascending_ids(s, limit - 1);
        let last = (limit - 1) as usize;
        if s.contains(last) {
            let all = before.push(ClientId(last));
            assert(all[before.len() as int] == ClientId(last));
            assert forall|i: usize| i < limit && s.contains(i) implies all.contains(
                ClientId(i),
            ) by {
                if i == last {
                    assert(all[before.len() as int] == ClientId(i));
                } else {
                    let k = choose|k: int| 0 <= k < before.len() && before[k] == ClientId(i);
                    assert(all[k] == ClientId(i));
                }
            }
        }
    }
}

/// `ascending_ids` lists as many ids as the set has below the limit.
pub proof fn lemma_ascending_ids_count(s: Set<usize>, limit: int)
    requires
        0 <= limit <= usize::MAX,
    ensures
        ids_below(s, limit).finite(),
        ascending_ids(s, limit).len() == ids_below(s, limit).len(),
    decreases limit,
{
    if limit > 0 {
        lemma_ascending_ids_count(s, limit - 1);
        lemma_ids_below_step(s, limit - 1);
    } else {
        lemma_ids_below_step(s, 0);
    }
}

/// Two words with the same bits are the same word.
proof fn lemma_words_equal(a: u64, b: u64)
    requires
        forall|h: u64| h < 64 ==> #[trigger] ((a >> h) & 1) == ((b >> h) & 1),
    ensures
        a == b,
{
    lemma_words_equal_from(a, b, 0);
    assert((a >> 0u64) == a && (b >> 0u64) == b) by (bit_vector);
}

/// Two words with the same bits agree from bit `k` up.
proof fn lemma_words_equal_from(a: u64, b: u64, k: u64)
    requires
        k <= 64,
        forall|h: u64| h < 64 ==> #[trigger] ((a >> h) & 1) == ((b >> h) & 1),
    ensures
        k < 64 ==> (a >> k) == (b >> k),
    decreases 64 - k,
{
    if k < 64 {
        assert(((a >> k) & 1) == ((b >> k) & 1));
        if k == 63 {
            assert(((a >> 63) & 1) == ((b >> 63) & 1) ==> (a >> 63) == (b >> 63)) by (bit_vector);
        } else {
            lemma_words_equal_from(a, b, (k + 1) as u64);
            let k1 = (k + 1) as u64;
            assert(k < 63 && k1 == k + 1 && (a >> k1) == (b >> k1) && ((a >> k) & 1) == ((b >> k)
                & 1) ==> (a >> k) == (b >> k)) by (bit_vector);
        }
    }
}

impl Default for ClientSet {
    fn default() -> (s: ClientSet)
        ensures
            s@ == Set::<usize>::empty(),
    {
        ClientSet::new()
    }
}

impl From<ClientId> for ClientSet {
    /// The set that holds `value` alone, or nothing if `value` lies outside
    /// the id pool.
    fn from(value: ClientId) -> (s: ClientSet) {
        let mut s = ClientSet::new();
        s.insert(value);
        proof {
            s.lemma_same_members(&singleton_set(value));
        }
        s
    }
}

impl vstd::std_specs::convert::FromSpecImpl<ClientId> for ClientSet {
    open spec fn obeys_from_spec() -> bool {
        true
    }

    open spec fn from_spec(value: ClientId) -> ClientSet {
        singleton_set(value)
    }
}

/// The set that holds `id` alone, or nothing if `id` lies outside the pool.
pub open spec fn singleton_set(id: ClientId) -> ClientSet {
    choose|s: ClientSet|
        s@ == if id.0 < MAX_PLAYERS {
            Set::<usize>::empty().insert(id.0)
        } else {
            Set::<usize>::empty()
        }
}

} // verus!
