//! The game loop's book of open connections: one entry per logged-in player,
//! in the order of their logins. The loop keeps each connection's sending end
//! beside the entry at the same index and removes it where the book says.

use vstd::prelude::*;
use crate::input::{first_index, first_index_from, keys_view};

verus! {

/// The names of the players with an open connection, in login order.
pub struct Connections {
    pub names: Vec<String>,
}

/// `s` with the elements at the indices `idx` removed one after another, in
/// the order of `idx`.
pub open spec fn removed_from_back<T>(s: Seq<T>, idx: Seq<usize>) -> Seq<T>
    decreases idx.len(),
{
    if idx.len() == 0 {
        s
    } else {
        removed_from_back(s, idx.drop_last()).remove(idx.last() as int)
    }
}

/// The indices rise strictly and each names an element of a sequence of length `n`.
pub open spec fn rising_below(idx: Seq<usize>, n: int) -> bool {
    &&& forall|i: int, j: int| 0 <= i < j < idx.len() ==> idx[i] < idx[j]
    &&& forall|i: int| 0 <= i < idx.len() ==> idx[i] < n
}

impl Connections {
    /// A book without connections.
    pub fn new() -> (c: Connections)
        ensures
            c.names@.len() == 0,
    {
        Connections { names: Vec::new() }
    }

    /// A player logs in: its connection is added last.
    pub fn login(&mut self, name: String)
        ensures
            final(self).names@ == old(self).names@.push(name),
    {
        self.names.push(name);
    }

    /// A player logs out: the first connection under its name goes, and its
    /// index is returned; where there is none, nothing changes.
    pub fn logout(&mut self, name: &str) -> (r: Option<usize>)
        ensures
            r matches Some(i) ==> first_index_from(keys_view(old(self).names@), name@, 0) == Some(i as int)
                && final(self).names@ == old(self).names@.remove(i as int),
            r is None ==> first_index_from(keys_view(old(self).names@), name@, 0) is None
                && final(self).names@ == old(self).names@,
    {
        let found = first_index(&self.names, name);
        match found {
            Some(i) => {
                proof {
                    lemma_first_index_in_range(keys_view(self.names@), name@, 0);
                }
                self.names.remove(i);
                Some(i)
            },
            None => None,
        }
    }

    /// The connections whose sends failed, at the indices `failed` (rising),
    /// are dropped, the last one first.
    pub fn drop_failed(&mut self, failed: &Vec<usize>)
        requires
            rising_below(failed@, old(self).names@.len() as int),
        ensures
            final(self).names@ == removed_from_back(old(self).names@, failed@.reverse()),
    {
        let ghost start = self.names@;
        let mut k = failed.len();
        while k > 0
            invariant
                k <= failed.len(),
                rising_below(failed@, start.len() as int),
                self.names@ == removed_from_back(start, failed@.subrange(k as int, failed@.len() as int).reverse()),
                self.names@.len() == start.len() - (failed@.len() - k),
            decreases k,
        {
            let ghost done = failed@.subrange(k as int, failed@.len() as int);
            k = k - 1;
            let i = failed[k];
            assert(failed@.subrange(k as int, failed@.len() as int).reverse() =~= done.reverse().push(i));
            assert(done.reverse().push(i).drop_last() =~= done.reverse());
            assert(i + (failed@.len() - k) <= start.len()) by {
                lemma_rising_room(failed@, start.len() as int, k as int);
            }
            self.names.remove(i);
        }
        assert(failed@.subrange(0, failed@.len() as int) =~= failed@);
    }
}

/// Rising indices below `n` leave room: the one at `k` plus the number from
/// `k` on is at most `n`.
proof fn lemma_rising_room(idx: Seq<usize>, n: int, k: int)
    requires
        rising_below(idx, n),
        0 <= k < idx.len(),
    ensures
        idx[k] + (idx.len() - k) <= n,
    decreases idx.len() - k,
{
    if k + 1 < idx.len() {
        lemma_rising_room(idx, n, k + 1);
    }
}

/// An index that `first_index_from` finds names an element.
proof fn lemma_first_index_in_range(names: Seq<Seq<char>>, name: Seq<char>, k: int)
    ensures
        first_index_from(names, name, k) matches Some(i) ==> 0 <= i < names.len(),
    decreases names.len() - k,
{
    if 0 <= k < names.len() && names[k] != name {
        lemma_first_index_in_range(names, name, k + 1);
    }
}

} // verus!
