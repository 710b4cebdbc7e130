//! Who is alive after a frame's contacts: players hit by a harmful enemy die,
//! and then players touching a living fellow player come back. Whether two
//! bodies touch is measured outside and handed in as flags.

use vstd::prelude::*;

verus! {

/// Player `j` is alive once this frame's hits are counted.
pub open spec fn alive_after_hits(alive: Seq<bool>, hit: Seq<bool>, j: int) -> bool {
    alive[j] && !hit[j]
}

/// Some other player, alive once the hits are counted, touches player `i`.
pub open spec fn touched_by_living(alive: Seq<bool>, hit: Seq<bool>, touch: Seq<Seq<bool>>, i: int) -> bool {
    exists|j: int| 0 <= j < alive.len() && j != i && #[trigger] touch[i][j] && alive_after_hits(alive, hit, j)
}

/// Player `i` is alive after the frame: not killed by a hit, or brought back by
/// a living player touching it.
pub open spec fn alive_after(alive: Seq<bool>, hit: Seq<bool>, touch: Seq<Seq<bool>>, i: int) -> bool {
    alive_after_hits(alive, hit, i) || touched_by_living(alive, hit, touch, i)
}

/// The players' lives after a frame. `alive[i]` says whether player `i` was
/// alive, `hit[i]` whether a harmful enemy touches it (and it is not
/// invincible), and `touch[i][j]` whether players `i` and `j` touch.
pub fn kill_revive(alive: &Vec<bool>, hit: &Vec<bool>, touch: &Vec<Vec<bool>>) -> (after: Vec<bool>)
    requires
        hit.len() == alive.len(),
        touch.len() == alive.len(),
        forall|i: int| 0 <= i < touch.len() ==> #[trigger] touch@[i].len() == alive.len(),
    ensures
        after.len() == alive.len(),
        forall|i: int| 0 <= i < alive.len() ==> #[trigger] after@[i] == alive_after(alive@, hit@, touch@.map_values(|r: Vec<bool>| r@), i),
{
    let ghost rows = touch@.map_values(|r: Vec<bool>| r@);
    let n = alive.len();
    let mut survivors: Vec<bool> = Vec::new();
    let mut k: usize = 0;
    while k < n
        invariant
            k <= n == alive.len() == hit.len(),
            survivors.len() == k,
            forall|j: int| 0 <= j < k ==> #[trigger] survivors@[j] == alive_after_hits(alive@, hit@, j),
        decreases n - k,
    {
        survivors.push(alive[k] && !hit[k]);
        k = k + 1;
    }
    let mut after: Vec<bool> = Vec::new();
    let mut i: usize = 0;
    while i < n
        invariant
            i <= n == alive.len() == hit.len() == touch.len() == survivors.len(),
            forall|j: int| 0 <= j < n ==> #[trigger] survivors@[j] == alive_after_hits(alive@, hit@, j),
            forall|r: int| 0 <= r < touch.len() ==> #[trigger] touch@[r].len() == alive.len(),
            rows == touch@.map_values(|r: Vec<bool>| r@),
            after.len() == i,
            forall|j: int| 0 <= j < i ==> #[trigger] after@[j] == alive_after(alive@, hit@, rows, j),
        decreases n - i,
    {
        let row = &touch[i];
        let mut revived = false;
        let mut j: usize = 0;
        while j < n
            invariant
                j <= n,
                i < n == alive.len() == hit.len() == touch.len() == survivors.len() == row.len(),
                forall|m: int| 0 <= m < n ==> #[trigger] survivors@[m] == alive_after_hits(alive@, hit@, m),
                row@ == rows[i as int],
                rows.len() == n,
                revived == exists|m: int| 0 <= m < j && m != i && #[trigger] rows[i as int][m] && alive_after_hits(alive@, hit@, m),
            decreases n - j,
        {
            if j != i && row[j] && survivors[j] {
                assert(rows[i as int][j as int] && alive_after_hits(alive@, hit@, j as int));
                revived = true;
            }
            j = j + 1;
        }
        assert(revived == touched_by_living(alive@, hit@, rows, i as int));
        after.push(survivors[i] || revived);
        i = i + 1;
    }
    after
}

/// Deaths are counted before revivals: a player keeps living unless hit; a
/// player that is revived is touched by another player who was alive and not
/// hit this frame; and a player that no such player touches ends the frame
/// exactly as the hits leave it.
pub proof fn lemma_kill_revive(alive: Seq<bool>, hit: Seq<bool>, touch: Seq<Seq<bool>>, i: int)
    requires
        0 <= i < alive.len(),
        hit.len() == alive.len(),
    ensures
        alive[i] && !hit[i] ==> alive_after(alive, hit, touch, i),
        alive_after(alive, hit, touch, i) && !(alive[i] && !hit[i]) ==> exists|j: int|
            0 <= j < alive.len() && j != i && #[trigger] touch[i][j] && alive[j] && !hit[j],
        (forall|j: int| 0 <= j < alive.len() && j != i && #[trigger] touch[i][j] ==> !alive[j] || hit[j])
            ==> alive_after(alive, hit, touch, i) == (alive[i] && !hit[i]),
{
}

} // verus!
