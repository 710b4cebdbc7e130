//! The timers of the effects that hold on a player: each frame counts them
//! down, asks for their multipliers, and drops those that ran out. The
//! strengths of the effects (speed and size factors) are only carried along.

use vstd::prelude::*;

verus! {

/// An effect on a player, with its strength of type `F`.
#[derive(Debug, Clone, Copy, PartialEq)]
pub enum PlayerEffect<F> {
    /// Shrinks the player by `shrink` for `ease` more frames.
    Shrink { origin: usize, shrink: F, ease: usize },
    /// Multiplies the player's speed by `slow` for `ease` more frames.
    SpeedAlter { origin: usize, slow: F, ease: usize },
    /// Multiplies the speed by `speed` and makes the player invincible for
    /// `ease` more frames; the effect lasts `cooldown` more frames.
    Harden { ease: usize, cooldown: usize, speed: F },
}

/// A change to the player that an effect asks for this frame.
#[derive(Debug, Clone, Copy, PartialEq)]
pub enum EffectAction<F> {
    MulSpeedMultiplier(F),
    MulRadiusMultiplier(F),
    SetInvincible,
}

/// The effect has run out and is dropped this frame.
pub open spec fn expired<F>(e: PlayerEffect<F>) -> bool {
    match e {
        PlayerEffect::Shrink { ease, .. } => ease == 0,
        PlayerEffect::SpeedAlter { ease, .. } => ease == 0,
        PlayerEffect::Harden { cooldown, .. } => cooldown == 0,
    }
}

/// The effect after one frame: its running counters count down by one.
pub open spec fn ticked<F>(e: PlayerEffect<F>) -> PlayerEffect<F> {
    match e {
        PlayerEffect::Shrink { origin, shrink, ease } => if ease == 0 {
            e
        } else {
            PlayerEffect::Shrink { origin, shrink, ease: (ease - 1) as usize }
        },
        PlayerEffect::SpeedAlter { origin, slow, ease } => if ease == 0 {
            e
        } else {
            PlayerEffect::SpeedAlter { origin, slow, ease: (ease - 1) as usize }
        },
        PlayerEffect::Harden { ease, cooldown, speed } => PlayerEffect::Harden {
            ease: if ease == 0 {
                0
            } else {
                (ease - 1) as usize
            },
            cooldown: if cooldown == 0 {
                0
            } else {
                (cooldown - 1) as usize
            },
            speed,
        },
    }
}

/// What the effect asks for this frame: nothing once its running time is over.
pub open spec fn effect_actions<F>(e: PlayerEffect<F>) -> Seq<EffectAction<F>> {
    match e {
        PlayerEffect::Shrink { shrink, ease, .. } => if ease == 0 {
            Seq::empty()
        } else {
            seq![EffectAction::MulRadiusMultiplier(shrink)]
        },
        PlayerEffect::SpeedAlter { slow, ease, .. } => if ease == 0 {
            Seq::empty()
        } else {
            seq![EffectAction::MulSpeedMultiplier(slow)]
        },
        PlayerEffect::Harden { ease, speed, .. } => if ease == 0 {
            Seq::empty()
        } else {
            seq![EffectAction::MulSpeedMultiplier(speed), EffectAction::SetInvincible]
        },
    }
}

/// The effects `effects[..n]` after one frame, without those that ran out.
pub open spec fn remaining_effects<F>(effects: Seq<PlayerEffect<F>>, n: int) -> Seq<PlayerEffect<F>>
    decreases n,
{
    if n <= 0 || n > effects.len() {
        Seq::empty()
    } else {
        let prev = remaining_effects(effects, n - 1);
        if expired(effects[n - 1]) {
            prev
        } else {
            prev.push(ticked(effects[n - 1]))
        }
    }
}

/// What the effects `effects[..n]` ask for this frame, in order.
pub open spec fn frame_actions<F>(effects: Seq<PlayerEffect<F>>, n: int) -> Seq<EffectAction<F>>
    decreases n,
{
    if n <= 0 || n > effects.len() {
        Seq::empty()
    } else {
        frame_actions(effects, n - 1) + effect_actions(effects[n - 1])
    }
}

/// One frame of a player's effects: the effects that remain, counted down, and
/// the changes they ask for, in order.
pub fn tick_player_effects<F: Copy>(effects: &Vec<PlayerEffect<F>>) -> (r: (Vec<PlayerEffect<F>>, Vec<EffectAction<F>>))
    ensures
        r.0@ == remaining_effects(effects@, effects@.len() as int),
        r.1@ == frame_actions(effects@, effects@.len() as int),
{
    let mut kept: Vec<PlayerEffect<F>> = Vec::new();
    let mut actions: Vec<EffectAction<F>> = Vec::new();
    let mut i: usize = 0;
    while i < effects.len()
        invariant
            i <= effects.len(),
            kept@ == remaining_effects(effects@, i as int),
            actions@ == frame_actions(effects@, i as int),
        decreases effects.len() - i,
    {
        let ghost before = actions@;
        match effects[i] {
            PlayerEffect::SpeedAlter { origin, slow, ease } => {
                if ease != 0 {
                    kept.push(PlayerEffect::SpeedAlter { origin, slow, ease: ease - 1 });
                    actions.push(EffectAction::MulSpeedMultiplier(slow));
                }
            },
            PlayerEffect::Shrink { origin, shrink, ease } => {
                if ease != 0 {
                    kept.push(PlayerEffect::Shrink { origin, shrink, ease: ease - 1 });
                    actions.push(EffectAction::MulRadiusMultiplier(shrink));
                }
            },
            PlayerEffect::Harden { ease, cooldown, speed } => {
                let next_ease = if ease == 0 {
                    0
                } else {
                    ease - 1
                };
                if cooldown != 0 {
                    kept.push(PlayerEffect::Harden { ease: next_ease, cooldown: cooldown - 1, speed });
                }
                if ease != 0 {
                    actions.push(EffectAction::MulSpeedMultiplier(speed));
                    actions.push(EffectAction::SetInvincible);
                }
            },
        }
        assert(actions@ =~= before + effect_actions(effects@[i as int]));
        i = i + 1;
    }
    (kept, actions)
}

/// The changes that one effect alone asks for in a frame: a running shrink
/// multiplies the player's radius by its factor, a running speed change the
/// speed by its factor, a running hardening the speed by its factor and makes
/// the player invincible; an effect whose running time is over asks for
/// nothing.
pub proof fn lemma_frame_actions_by_kind<F>(e: PlayerEffect<F>)
    ensures
        frame_actions(seq![e], 1) == match e {
            PlayerEffect::Shrink { shrink, ease, .. } => if ease > 0 {
                seq![EffectAction::MulRadiusMultiplier(shrink)]
            } else {
                Seq::empty()
            },
            PlayerEffect::SpeedAlter { slow, ease, .. } => if ease > 0 {
                seq![EffectAction::MulSpeedMultiplier(slow)]
            } else {
                Seq::empty()
            },
            PlayerEffect::Harden { ease, speed, .. } => if ease > 0 {
                seq![EffectAction::MulSpeedMultiplier(speed), EffectAction::SetInvincible]
            } else {
                Seq::empty()
            },
        },
{
    assert(frame_actions(seq![e], 0) =~= Seq::empty());
    assert(frame_actions(seq![e], 1) =~= Seq::empty() + effect_actions(e));
}

/// What a prefix of the effects asks for does not depend on the effects after it.
proof fn lemma_frame_actions_prefix<F>(a: Seq<PlayerEffect<F>>, b: Seq<PlayerEffect<F>>, n: int)
    requires
        0 <= n <= a.len(),
    ensures
        frame_actions(a + b, n) == frame_actions(a, n),
    decreases n,
{
    if n > 0 {
        lemma_frame_actions_prefix(a, b, n - 1);
        assert((a + b)[n - 1] == a[n - 1]);
    }
}

/// The effects each ask on their own: what two lists of effects ask for
/// together is what the first asks for followed by what the second does.
pub proof fn lemma_frame_actions_concat<F>(a: Seq<PlayerEffect<F>>, b: Seq<PlayerEffect<F>>)
    ensures
        frame_actions(a + b, (a + b).len() as int) == frame_actions(a, a.len() as int) + frame_actions(b, b.len() as int),
    decreases b.len(),
{
    if b.len() == 0 {
        assert(a + b =~= a);
        assert(frame_actions(b, 0) =~= Seq::empty());
        assert(frame_actions(a, a.len() as int) + Seq::<EffectAction<F>>::empty() =~= frame_actions(a, a.len() as int));
    } else {
        let c = b.drop_last();
        lemma_frame_actions_concat(a, c);
        assert((a + b).drop_last() =~= a + c);
        lemma_frame_actions_prefix(a + c, seq![b.last()], (a + c).len() as int);
        assert(a + b =~= (a + c) + seq![b.last()]);
        assert((a + b)[(a + b).len() - 1] == b.last());
        lemma_frame_actions_prefix(c, seq![b.last()], c.len() as int);
        assert(b =~= c + seq![b.last()]);
        assert(b[b.len() - 1] == b.last());
        assert(frame_actions(a, a.len() as int) + frame_actions(c, c.len() as int) + effect_actions(b.last())
            =~= frame_actions(a, a.len() as int) + (frame_actions(c, c.len() as int) + effect_actions(b.last())));
    }
}

/// A frame keeps exactly the effects whose time has not run out, each as it
/// was apart from its counters, which go down by one: a shrink or speed change
/// keeps its origin and factor with one frame less to run; a hardening keeps
/// its speed, with its running time and cooldown one frame lower (not below
/// zero).
pub proof fn lemma_tick_one<F>(e: PlayerEffect<F>)
    ensures
        remaining_effects(seq![e], 1) == if expired(e) {
            Seq::<PlayerEffect<F>>::empty()
        } else {
            seq![
                match e {
                    PlayerEffect::Shrink { origin, shrink, ease } => PlayerEffect::Shrink { origin, shrink, ease: (ease - 1) as usize },
                    PlayerEffect::SpeedAlter { origin, slow, ease } => PlayerEffect::SpeedAlter { origin, slow, ease: (ease - 1) as usize },
                    PlayerEffect::Harden { ease, cooldown, speed } => PlayerEffect::Harden {
                        ease: if ease > 0 { (ease - 1) as usize } else { 0 },
                        cooldown: (cooldown - 1) as usize,
                        speed,
                    },
                }
            ]
        },
{
    assert(remaining_effects(seq![e], 0) =~= Seq::empty());
    if !expired(e) {
        assert(remaining_effects(seq![e], 1) =~= Seq::<PlayerEffect<F>>::empty().push(ticked(e)));
    }
}

/// What a prefix of the effects leaves does not depend on the effects after it.
proof fn lemma_remaining_prefix<F>(a: Seq<PlayerEffect<F>>, b: Seq<PlayerEffect<F>>, n: int)
    requires
        0 <= n <= a.len(),
    ensures
        remaining_effects(a + b, n) == remaining_effects(a, n),
    decreases n,
{
    if n > 0 {
        lemma_remaining_prefix(a, b, n - 1);
        assert((a + b)[n - 1] == a[n - 1]);
    }
}

/// The effects are ticked one by one: what a frame leaves of two lists of
/// effects together is what it leaves of the first followed by what it leaves
/// of the second.
pub proof fn lemma_remaining_concat<F>(a: Seq<PlayerEffect<F>>, b: Seq<PlayerEffect<F>>)
    ensures
        remaining_effects(a + b, (a + b).len() as int) == remaining_effects(a, a.len() as int) + remaining_effects(b, b.len() as int),
    decreases b.len(),
{
    if b.len() == 0 {
        assert(a + b =~= a);
        assert(remaining_effects(b, 0) =~= Seq::empty());
        assert(remaining_effects(a, a.len() as int) + Seq::<PlayerEffect<F>>::empty() =~= remaining_effects(a, a.len() as int));
    } else {
        let c = b.drop_last();
        lemma_remaining_concat(a, c);
        assert(a + b =~= (a + c) + seq![b.last()]);
        lemma_remaining_prefix(a + c, seq![b.last()], (a + c).len() as int);
        assert((a + b)[(a + b).len() - 1] == b.last());
        assert(b =~= c + seq![b.last()]);
        lemma_remaining_prefix(c, seq![b.last()], c.len() as int);
        assert(b[b.len() - 1] == b.last());
        if !expired(b.last()) {
            assert(remaining_effects(a, a.len() as int) + remaining_effects(c, c.len() as int).push(ticked(b.last()))
                =~= (remaining_effects(a, a.len() as int) + remaining_effects(c, c.len() as int)).push(ticked(b.last())));
        }
    }
}

/// The effect after `k` frames (while it is kept).
pub open spec fn ticked_times<F>(e: PlayerEffect<F>, k: nat) -> PlayerEffect<F>
    decreases k,
{
    if k == 0 {
        e
    } else {
        ticked(ticked_times(e, (k - 1) as nat))
    }
}

/// An effect set for `ease` frames works for exactly that many frames: for
/// each of the first `ease` frames it asks for its change and is kept; then it
/// asks for nothing, and (apart from a hardening, which lasts for its
/// cooldown) it is dropped.
pub proof fn lemma_effect_duration<F>(e: PlayerEffect<F>, k: nat)
    ensures
        ({
            let ease = match e {
                PlayerEffect::Shrink { ease, .. } => ease,
                PlayerEffect::SpeedAlter { ease, .. } => ease,
                PlayerEffect::Harden { ease, .. } => ease,
            };
            &&& k < ease ==> effect_actions(ticked_times(e, k)).len() > 0
            &&& k >= ease ==> effect_actions(ticked_times(e, k)).len() == 0
            &&& !(e is Harden) ==> (expired(ticked_times(e, k)) <==> k >= ease)
            &&& e matches PlayerEffect::Harden { cooldown, .. } ==> (expired(ticked_times(e, k)) <==> k >= cooldown)
        }),
    decreases k,
{
    if k > 0 {
        lemma_effect_duration(e, (k - 1) as nat);
        lemma_ticked_times_counters(e, k);
    } else {
        lemma_ticked_times_counters(e, 0);
    }
}

/// The counters after `k` frames: each has gone down by `k`, stopping at zero.
proof fn lemma_ticked_times_counters<F>(e: PlayerEffect<F>, k: nat)
    ensures
        match (e, ticked_times(e, k)) {
            (PlayerEffect::Shrink { ease, .. }, PlayerEffect::Shrink { ease: now, .. }) => now == if k >= ease { 0 } else { ease - k },
            (PlayerEffect::SpeedAlter { ease, .. }, PlayerEffect::SpeedAlter { ease: now, .. }) => now == if k >= ease { 0 } else { ease - k },
            (PlayerEffect::Harden { ease, cooldown, .. }, PlayerEffect::Harden { ease: now, cooldown: later, .. }) => now == (if k >= ease { 0 } else { ease - k }) && later == (if k >= cooldown { 0 } else { cooldown - k }),
            _ => false,
        },
    decreases k,
{
    if k > 0 {
        lemma_ticked_times_counters(e, (k - 1) as nat);
    }
}

/// The first index from `k` on of an element of `s` that satisfies `p`.
pub open spec fn first_where<T>(s: Seq<T>, p: spec_fn(T) -> bool, k: int) -> Option<int>
    decreases s.len() - k,
{
    if k < 0 || k >= s.len() {
        None
    } else if p(s[k]) {
        Some(k)
    } else {
        first_where(s, p, k + 1)
    }
}

/// How many elements of `s` satisfy `p`.
pub open spec fn count_where<T>(s: Seq<T>, p: spec_fn(T) -> bool) -> nat
    decreases s.len(),
{
    if s.len() == 0 {
        0
    } else {
        count_where(s.drop_last(), p) + if p(s.last()) {
            1nat
        } else {
            0nat
        }
    }
}

/// What `first_where` finds: the first index from `k` on whose element
/// satisfies `p`, or nothing when none does.
pub proof fn lemma_first_where<T>(s: Seq<T>, p: spec_fn(T) -> bool, k: int)
    requires
        0 <= k,
    ensures
        first_where(s, p, k) matches Some(i) ==> k <= i < s.len() && p(s[i]) && forall|j: int|
            k <= j < i ==> !p(#[trigger] s[j]),
        first_where(s, p, k) is None ==> forall|j: int| k <= j < s.len() ==> !p(#[trigger] s[j]),
    decreases s.len() - k,
{
    if k < s.len() {
        lemma_first_where(s, p, k + 1);
    }
}

/// Replacing an element that satisfies `p` by another that does keeps the count.
pub proof fn lemma_count_update<T>(s: Seq<T>, p: spec_fn(T) -> bool, k: int, x: T)
    requires
        0 <= k < s.len(),
        p(s[k]),
        p(x),
    ensures
        count_where(s.update(k, x), p) == count_where(s, p),
    decreases s.len(),
{
    if k < s.len() - 1 {
        assert(s.update(k, x).drop_last() =~= s.drop_last().update(k, x));
        lemma_count_update(s.drop_last(), p, k, x);
    } else {
        assert(s.update(k, x).drop_last() =~= s.drop_last());
    }
}

/// Appending an element adds one to the count exactly when it satisfies `p`.
pub proof fn lemma_count_push<T>(s: Seq<T>, p: spec_fn(T) -> bool, x: T)
    ensures
        count_where(s.push(x), p) == count_where(s, p) + if p(x) {
            1nat
        } else {
            0nat
        },
{
    assert(s.push(x).drop_last() =~= s);
}

/// No element satisfies `p` exactly when the count is zero.
pub proof fn lemma_count_zero<T>(s: Seq<T>, p: spec_fn(T) -> bool)
    ensures
        (count_where(s, p) == 0) <==> (forall|j: int| 0 <= j < s.len() ==> !p(#[trigger] s[j])),
    decreases s.len(),
{
    if s.len() > 0 {
        lemma_count_zero(s.drop_last(), p);
        if count_where(s, p) == 0 {
            assert forall|j: int| 0 <= j < s.len() implies !p(#[trigger] s[j]) by {
                if j < s.len() - 1 {
                    assert(s[j] == s.drop_last()[j]);
                }
            }
        }
        if forall|j: int| 0 <= j < s.len() ==> !p(#[trigger] s[j]) {
            assert forall|j: int| 0 <= j < s.drop_last().len() implies !p(#[trigger] s.drop_last()[j]) by {
                assert(s.drop_last()[j] == s[j]);
            }
            assert(!p(s[s.len() - 1]));
        }
    }
}

/// Two effects come from the same source: both shrink, or both change the
/// speed, and both come from the same origin.
pub open spec fn same_source<F>(a: PlayerEffect<F>, b: PlayerEffect<F>) -> bool {
    match (a, b) {
        (PlayerEffect::Shrink { origin: x, .. }, PlayerEffect::Shrink { origin: y, .. }) => x == y,
        (PlayerEffect::SpeedAlter { origin: x, .. }, PlayerEffect::SpeedAlter { origin: y, .. }) => x == y,
        _ => false,
    }
}

/// The test "comes from the same source as `new`".
pub open spec fn from_source_of<F>(new: PlayerEffect<F>) -> spec_fn(PlayerEffect<F>) -> bool {
    |e: PlayerEffect<F>| same_source(e, new)
}

/// How many more frames the effect runs.
pub open spec fn ease_of<F>(e: PlayerEffect<F>) -> usize {
    match e {
        PlayerEffect::Shrink { ease, .. } => ease,
        PlayerEffect::SpeedAlter { ease, .. } => ease,
        PlayerEffect::Harden { ease, .. } => ease,
    }
}

/// The effect with its running time set to `value`; a hardening keeps its own.
pub open spec fn eased<F>(e: PlayerEffect<F>, value: usize) -> PlayerEffect<F> {
    match e {
        PlayerEffect::Shrink { origin, shrink, .. } => PlayerEffect::Shrink { origin, shrink, ease: value },
        PlayerEffect::SpeedAlter { origin, slow, .. } => PlayerEffect::SpeedAlter { origin, slow, ease: value },
        PlayerEffect::Harden { .. } => e,
    }
}

/// How an effect reaches a player: an effect from the same source already on
/// the player runs again for the new time, otherwise the new one is added.
#[derive(Debug, Clone, Copy, PartialEq)]
pub enum EffectRefresh<F> {
    SetEase { effect: usize, value: usize },
    Push(PlayerEffect<F>),
}

/// The refresh for `new` on a player with `effects`.
pub open spec fn refresh_spec<F>(effects: Seq<PlayerEffect<F>>, new: PlayerEffect<F>) -> EffectRefresh<F> {
    match first_where(effects, from_source_of(new), 0) {
        Some(k) => EffectRefresh::SetEase { effect: k as usize, value: ease_of(new) },
        None => EffectRefresh::Push(new),
    }
}

/// The player's effects once the refresh is carried out.
pub open spec fn refreshed<F>(effects: Seq<PlayerEffect<F>>, r: EffectRefresh<F>) -> Seq<PlayerEffect<F>> {
    match r {
        EffectRefresh::SetEase { effect, value } => effects.update(effect as int, eased(effects[effect as int], value)),
        EffectRefresh::Push(e) => effects.push(e),
    }
}

/// Decides how `new` reaches a player that has `effects`.
pub fn refresh_effect<F>(effects: &Vec<PlayerEffect<F>>, new: PlayerEffect<F>) -> (r: EffectRefresh<F>)
    ensures
        r == refresh_spec(effects@, new),
{
    let mut i: usize = 0;
    while i < effects.len()
        invariant
            i <= effects.len(),
            first_where(effects@, from_source_of(new), 0) == first_where(effects@, from_source_of(new), i as int),
        decreases effects.len() - i,
    {
        let same = match (&effects[i], &new) {
            (PlayerEffect::Shrink { origin: x, .. }, PlayerEffect::Shrink { origin: y, .. }) => *x == *y,
            (PlayerEffect::SpeedAlter { origin: x, .. }, PlayerEffect::SpeedAlter { origin: y, .. }) => *x == *y,
            _ => false,
        };
        if same {
            let value = match &new {
                PlayerEffect::Shrink { ease, .. } => *ease,
                PlayerEffect::SpeedAlter { ease, .. } => *ease,
                PlayerEffect::Harden { ease, .. } => *ease,
            };
            return EffectRefresh::SetEase { effect: i, value };
        }
        i = i + 1;
    }
    EffectRefresh::Push(new)
}

/// Sets the running time of the player's effect at `effect` to `value`.
pub fn set_player_ease<F>(effects: &mut Vec<PlayerEffect<F>>, effect: usize, value: usize)
    requires
        effect < old(effects)@.len(),
    ensures
        final(effects)@ == old(effects)@.update(effect as int, eased(old(effects)@[effect as int], value)),
{
    match &mut effects[effect] {
        PlayerEffect::Shrink { ease, .. } => {
            *ease = value;
        },
        PlayerEffect::SpeedAlter { ease, .. } => {
            *ease = value;
        },
        PlayerEffect::Harden { .. } => {},
    }
}

/// However often a shrink or a speed change from one source reaches a player,
/// the player carries one effect from that source: the first time it is
/// added, later it runs again for the new time.
pub proof fn lemma_refresh_single_source<F>(effects: Seq<PlayerEffect<F>>, new: PlayerEffect<F>)
    requires
        !(new is Harden),
        effects.len() <= usize::MAX,
    ensures
        ({
            let after = refreshed(effects, refresh_spec(effects, new));
            let n = count_where(effects, from_source_of(new));
            &&& count_where(after, from_source_of(new)) == if n == 0 { 1 } else { n }
            &&& first_where(after, from_source_of(new), 0) matches Some(k) && ease_of(after[k]) == ease_of(new)
        }),
{
    let p = from_source_of(new);
    lemma_first_where(effects, p, 0);
    lemma_count_zero(effects, p);
    assert(same_source(new, new));
    match first_where(effects, p, 0) {
        Some(k) => {
            let x = eased(effects[k], ease_of(new));
            assert((k as usize) as int == k);
            assert(p(x));
            lemma_count_update(effects, p, k, x);
            let after = effects.update(k, x);
            lemma_first_where(after, p, 0);
            assert(after[k] == x);
            if first_where(after, p, 0) != Some(k) {
                let i = first_where(after, p, 0)->0;
                if i < k {
                    assert(after[i] == effects[i]);
                }
            }
        },
        None => {
            lemma_count_push(effects, p, new);
            let after = effects.push(new);
            lemma_first_where(after, p, 0);
            assert(after[effects.len() as int] == new);
            if first_where(after, p, 0) != Some(effects.len() as int) {
                let i = first_where(after, p, 0)->0;
                assert(after[i] == effects[i]);
            }
        },
    }
}

} // verus!
