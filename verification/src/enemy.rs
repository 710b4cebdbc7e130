//! The counters in an enemy's effects: shooting cooldowns, lifetimes, and the
//! timed slow-downs and shrinks that items put on enemies. The strengths of
//! the effects (of type `F`), their reach (of type `R`) and what they draw
//! (of type `D`) are only carried along.

use vstd::prelude::*;

use crate::effects::{count_where, first_where, lemma_count_push, lemma_count_update, lemma_count_zero, lemma_first_where};

verus! {

/// An effect on an enemy.
#[derive(Debug)]
pub enum EnemyEffect<F, R, D> {
    /// Steers towards players within `radius`.
    Chase { radius: R, power: F },
    /// Leaves a small piece behind when it hits a wall.
    Crumble,
    /// The enemy lives for this many more frames.
    Lifetime(usize),
    /// Pushes players within `radius` away.
    Push { radius: R, power: F },
    /// Shoots at a player within `radius` whenever `time_left` is zero, and
    /// then waits `cooldown` frames.
    Shoot {
        lifetime: usize,
        radius: R,
        projectile_radius: F,
        speed: F,
        time_left: usize,
        cooldown: usize,
        color: String,
        effects: Vec<EnemyEffect<F, R, D>>,
        under_dps: Vec<D>,
    },
    /// Bursts into `amount` projectiles whenever `time_left` is zero, and then
    /// waits `cooldown` frames.
    Explode {
        lifetime: usize,
        radius: (F, F),
        speed: F,
        amount: usize,
        time_left: usize,
        cooldown: usize,
        color: String,
        effects: Vec<EnemyEffect<F, R, D>>,
        under_dps: Vec<D>,
    },
    /// Slows players within `radius` for `duration` frames.
    SlowPlayers { radius: R, slow: F, duration: usize },
    /// Grows by `size` each frame up to `maxsize`.
    Grow { size: F, maxsize: F, defaultsize: F },
    /// Multiplies the enemy's speed by `power` for `ease` more frames.
    SpeedAlter { origin: usize, power: F, ease: usize },
    /// Shrinks the enemy for `ease` more frames out of `start`.
    Shrink { origin: usize, power: F, ease: usize, start: usize },
    /// Shrinks players within `radius` for `duration` frames.
    ShrinkPlayers { radius: R, shrink: F, duration: usize },
}

/// `b` is a copy of `a`: the same kind of effect with the same counters and
/// colour, each strength, reach and drawing a clone of the one in `a`, and the
/// nested projectile effects copied one by one.
pub open spec fn is_copy_of<F: Clone, R: Clone, D: Clone>(a: EnemyEffect<F, R, D>, b: EnemyEffect<F, R, D>) -> bool
    decreases a,
{
    match (a, b) {
        (EnemyEffect::Chase { radius, power }, EnemyEffect::Chase { radius: r2, power: p2 }) =>
            cloned(radius, r2) && cloned(power, p2),
        (EnemyEffect::Crumble, EnemyEffect::Crumble) => true,
        (EnemyEffect::Lifetime(t), EnemyEffect::Lifetime(u)) => t == u,
        (EnemyEffect::Push { radius, power }, EnemyEffect::Push { radius: r2, power: p2 }) =>
            cloned(radius, r2) && cloned(power, p2),
        (
            EnemyEffect::Shoot { lifetime, radius, projectile_radius, speed, time_left, cooldown, color, effects, under_dps },
            EnemyEffect::Shoot {
                lifetime: l2,
                radius: r2,
                projectile_radius: pr2,
                speed: s2,
                time_left: t2,
                cooldown: c2,
                color: col2,
                effects: e2,
                under_dps: u2,
            },
        ) => {
            &&& lifetime == l2 && time_left == t2 && cooldown == c2 && color == col2
            &&& cloned(radius, r2) && cloned(projectile_radius, pr2) && cloned(speed, s2)
            &&& copies_of(effects@, e2@)
            &&& u2@.len() == under_dps@.len()
            &&& forall|i: int| 0 <= i < under_dps@.len() ==> #[trigger] cloned(under_dps@[i], u2@[i])
        },
        (
            EnemyEffect::Explode { lifetime, radius, speed, amount, time_left, cooldown, color, effects, under_dps },
            EnemyEffect::Explode {
                lifetime: l2,
                radius: r2,
                speed: s2,
                amount: a2,
                time_left: t2,
                cooldown: c2,
                color: col2,
                effects: e2,
                under_dps: u2,
            },
        ) => {
            &&& lifetime == l2 && amount == a2 && time_left == t2 && cooldown == c2 && color == col2
            &&& cloned(radius.0, r2.0) && cloned(radius.1, r2.1) && cloned(speed, s2)
            &&& copies_of(effects@, e2@)
            &&& u2@.len() == under_dps@.len()
            &&& forall|i: int| 0 <= i < under_dps@.len() ==> #[trigger] cloned(under_dps@[i], u2@[i])
        },
        (EnemyEffect::SlowPlayers { radius, slow, duration }, EnemyEffect::SlowPlayers { radius: r2, slow: s2, duration: d2 }) =>
            cloned(radius, r2) && cloned(slow, s2) && duration == d2,
        (EnemyEffect::Grow { size, maxsize, defaultsize }, EnemyEffect::Grow { size: s2, maxsize: m2, defaultsize: d2 }) =>
            cloned(size, s2) && cloned(maxsize, m2) && cloned(defaultsize, d2),
        (EnemyEffect::SpeedAlter { origin, power, ease }, EnemyEffect::SpeedAlter { origin: o2, power: p2, ease: e2 }) =>
            origin == o2 && cloned(power, p2) && ease == e2,
        (EnemyEffect::Shrink { origin, power, ease, start }, EnemyEffect::Shrink { origin: o2, power: p2, ease: e2, start: s2 }) =>
            origin == o2 && cloned(power, p2) && ease == e2 && start == s2,
        (EnemyEffect::ShrinkPlayers { radius, shrink, duration }, EnemyEffect::ShrinkPlayers { radius: r2, shrink: s2, duration: d2 }) =>
            cloned(radius, r2) && cloned(shrink, s2) && duration == d2,
        _ => false,
    }
}

/// `b` copies `a` element by element: as long, and each element of `b` a copy
/// of the element of `a` at the same index.
pub open spec fn copies_of<F: Clone, R: Clone, D: Clone>(a: Seq<EnemyEffect<F, R, D>>, b: Seq<EnemyEffect<F, R, D>>) -> bool
    decreases a,
{
    &&& a.len() == b.len()
    &&& a.len() > 0 ==> {
        &&& copies_of(a.subrange(0, a.len() - 1), b.subrange(0, b.len() - 1))
        &&& is_copy_of(a[a.len() - 1], b[b.len() - 1])
    }
}

/// A copy of `e`, its nested projectile effects copied one by one.
fn copy_effect<F: Clone, R: Clone, D: Clone>(e: &EnemyEffect<F, R, D>) -> (r: EnemyEffect<F, R, D>)
    ensures
        is_copy_of(*e, r),
    decreases e,
{
    match e {
        EnemyEffect::Shoot { lifetime, radius, projectile_radius, speed, time_left, cooldown, color, effects, under_dps } =>
            EnemyEffect::Shoot {
                lifetime: *lifetime,
                radius: radius.clone(),
                projectile_radius: projectile_radius.clone(),
                speed: speed.clone(),
                time_left: *time_left,
                cooldown: *cooldown,
                color: color.clone(),
                effects: copy_effects(effects),
                under_dps: under_dps.clone(),
            },
        EnemyEffect::Explode { lifetime, radius, speed, amount, time_left, cooldown, color, effects, under_dps } =>
            EnemyEffect::Explode {
                lifetime: *lifetime,
                radius: (radius.0.clone(), radius.1.clone()),
                speed: speed.clone(),
                amount: *amount,
                time_left: *time_left,
                cooldown: *cooldown,
                color: color.clone(),
                effects: copy_effects(effects),
                under_dps: under_dps.clone(),
            },
        EnemyEffect::Chase { radius, power } => EnemyEffect::Chase { radius: radius.clone(), power: power.clone() },
        EnemyEffect::Crumble => EnemyEffect::Crumble,
        EnemyEffect::Lifetime(t) => EnemyEffect::Lifetime(*t),
        EnemyEffect::Push { radius, power } => EnemyEffect::Push { radius: radius.clone(), power: power.clone() },
        EnemyEffect::SlowPlayers { radius, slow, duration } =>
            EnemyEffect::SlowPlayers { radius: radius.clone(), slow: slow.clone(), duration: *duration },
        EnemyEffect::Grow { size, maxsize, defaultsize } =>
            EnemyEffect::Grow { size: size.clone(), maxsize: maxsize.clone(), defaultsize: defaultsize.clone() },
        EnemyEffect::SpeedAlter { origin, power, ease } =>
            EnemyEffect::SpeedAlter { origin: *origin, power: power.clone(), ease: *ease },
        EnemyEffect::Shrink { origin, power, ease, start } =>
            EnemyEffect::Shrink { origin: *origin, power: power.clone(), ease: *ease, start: *start },
        EnemyEffect::ShrinkPlayers { radius, shrink, duration } =>
            EnemyEffect::ShrinkPlayers { radius: radius.clone(), shrink: shrink.clone(), duration: *duration },
    }
}

/// A copy of each of `effects`, in order.
fn copy_effects<F: Clone, R: Clone, D: Clone>(effects: &Vec<EnemyEffect<F, R, D>>) -> (r: Vec<EnemyEffect<F, R, D>>)
    ensures
        copies_of(effects@, r@),
    decreases effects,
{
    let mut r: Vec<EnemyEffect<F, R, D>> = Vec::new();
    let mut i: usize = 0;
    while i < effects.len()
        invariant
            i <= effects.len(),
            copies_of(effects@.subrange(0, i as int), r@),
        decreases effects.len() - i,
    {
        assert(decreases_to!(effects => effects@[i as int]));
        let ghost before = r@;
        r.push(copy_effect(&effects[i]));
        assert(effects@.subrange(0, i + 1).subrange(0, i as int) =~= effects@.subrange(0, i as int));
        assert(r@.subrange(0, i as int) =~= before);
        i = i + 1;
    }
    assert(effects@.subrange(0, effects@.len() as int) =~= effects@);
    r
}

impl<F: Clone, R: Clone, D: Clone> Clone for EnemyEffect<F, R, D> {
    fn clone(&self) -> (r: Self) {
        copy_effect(self)
    }
}

/// The effect after one frame of its cooldown: a waiting shot or burst waits
/// one frame less.
pub open spec fn cooldown_reduced<F, R, D>(e: EnemyEffect<F, R, D>) -> EnemyEffect<F, R, D> {
    match e {
        EnemyEffect::Shoot { lifetime, radius, projectile_radius, speed, time_left, cooldown, color, effects, under_dps } =>
                EnemyEffect::Shoot {
                    lifetime,
                    radius,
                    projectile_radius,
                    speed,
                    time_left: if time_left > 0 { (time_left - 1) as usize } else { 0 },
                    cooldown,
                    color,
                    effects,
                    under_dps,
                },
        EnemyEffect::Explode { lifetime, radius, speed, amount, time_left, cooldown, color, effects, under_dps } =>
            EnemyEffect::Explode {
                lifetime,
                radius,
                speed,
                amount,
                time_left: if time_left > 0 { (time_left - 1) as usize } else { 0 },
                cooldown,
                color,
                effects,
                under_dps,
            },
        _ => e,
    }
}

/// Every cooldown of an enemy counts down one frame.
pub fn reduce_cooldowns<F, R, D>(effects: &mut Vec<EnemyEffect<F, R, D>>)
    ensures
        final(effects)@.len() == old(effects)@.len(),
        forall|i: int| 0 <= i < old(effects)@.len() ==> #[trigger] final(effects)@[i] == cooldown_reduced(old(effects)@[i]),
{
    let mut i: usize = 0;
    while i < effects.len()
        invariant
            i <= effects.len(),
            effects@.len() == old(effects)@.len(),
            forall|j: int| 0 <= j < i ==> #[trigger] effects@[j] == cooldown_reduced(old(effects)@[j]),
            forall|j: int| i <= j < effects@.len() ==> #[trigger] effects@[j] == old(effects)@[j],
        decreases effects.len() - i,
    {
        match &mut effects[i] {
            EnemyEffect::Shoot { time_left, .. } => {
                if *time_left > 0 {
                    *time_left = *time_left - 1;
                }
            },
            EnemyEffect::Explode { time_left, .. } => {
                if *time_left > 0 {
                    *time_left = *time_left - 1;
                }
            },
            _ => {},
        }
        i = i + 1;
    }
}

/// The effect after its cooldown restarts: a shot or burst waits its whole
/// cooldown again.
pub open spec fn cooldown_reset<F, R, D>(e: EnemyEffect<F, R, D>) -> EnemyEffect<F, R, D> {
    match e {
        EnemyEffect::Shoot { lifetime, radius, projectile_radius, speed, time_left, cooldown, color, effects, under_dps } =>
                EnemyEffect::Shoot { lifetime, radius, projectile_radius, speed, time_left: cooldown, cooldown, color, effects, under_dps },
        EnemyEffect::Explode { lifetime, radius, speed, amount, time_left, cooldown, color, effects, under_dps } =>
            EnemyEffect::Explode { lifetime, radius, speed, amount, time_left: cooldown, cooldown, color, effects, under_dps },
        _ => e,
    }
}

/// Every cooldown of an enemy restarts.
pub fn reset_cooldowns<F, R, D>(effects: &mut Vec<EnemyEffect<F, R, D>>)
    ensures
        final(effects)@.len() == old(effects)@.len(),
        forall|i: int| 0 <= i < old(effects)@.len() ==> #[trigger] final(effects)@[i] == cooldown_reset(old(effects)@[i]),
{
    let mut i: usize = 0;
    while i < effects.len()
        invariant
            i <= effects.len(),
            effects@.len() == old(effects)@.len(),
            forall|j: int| 0 <= j < i ==> #[trigger] effects@[j] == cooldown_reset(old(effects)@[j]),
            forall|j: int| i <= j < effects@.len() ==> #[trigger] effects@[j] == old(effects)@[j],
        decreases effects.len() - i,
    {
        match &mut effects[i] {
            EnemyEffect::Shoot { time_left, cooldown, .. } => {
                *time_left = *cooldown;
            },
            EnemyEffect::Explode { time_left, cooldown, .. } => {
                *time_left = *cooldown;
            },
            _ => {},
        }
        i = i + 1;
    }
}

/// The enemy's time is up: its lifetime has reached zero.
pub open spec fn lifetime_over<F, R, D>(e: EnemyEffect<F, R, D>) -> bool {
    e matches EnemyEffect::Lifetime(t) && t == 0
}

/// A lifetime one frame later.
pub open spec fn lifetime_reduced<F, R, D>(e: EnemyEffect<F, R, D>) -> EnemyEffect<F, R, D> {
    match e {
        EnemyEffect::Lifetime(t) => if t > 0 {
            EnemyEffect::Lifetime((t - 1) as usize)
        } else {
            e
        },
        _ => e,
    }
}

/// Counts the lifetime at `effect` down by one frame. Returns whether the
/// enemy's time is up, in which case the effects are left as they are and
/// the enemy is to be removed.
pub fn reduce_lifetime<F, R, D>(effects: &mut Vec<EnemyEffect<F, R, D>>, effect: usize) -> (over: bool)
    requires
        effect < old(effects)@.len(),
    ensures
        over == lifetime_over(old(effects)@[effect as int]),
        final(effects)@ == old(effects)@.update(effect as int, lifetime_reduced(old(effects)@[effect as int])),
{
    match &mut effects[effect] {
        EnemyEffect::Lifetime(t) => {
            if *t == 0 {
                true
            } else {
                *t = *t - 1;
                false
            }
        },
        _ => false,
    }
}

/// How many more frames a timed slow-down or shrink runs (zero for others).
pub open spec fn ease_left<F, R, D>(e: EnemyEffect<F, R, D>) -> usize {
    match e {
        EnemyEffect::SpeedAlter { ease, .. } => ease,
        EnemyEffect::Shrink { ease, .. } => ease,
        _ => 0,
    }
}

/// A timed slow-down or shrink one frame later.
pub open spec fn ease_decremented<F, R, D>(e: EnemyEffect<F, R, D>) -> EnemyEffect<F, R, D> {
    match e {
        EnemyEffect::SpeedAlter { origin, power, ease } => EnemyEffect::SpeedAlter { origin, power, ease: (ease - 1) as usize },
        EnemyEffect::Shrink { origin, power, ease, start } => EnemyEffect::Shrink { origin, power, ease: (ease - 1) as usize, start },
        _ => e,
    }
}

/// Counts the timed slow-down or shrink at `effect` down by one frame.
pub fn decrement_ease<F, R, D>(effects: &mut Vec<EnemyEffect<F, R, D>>, effect: usize)
    requires
        effect < old(effects)@.len(),
        old(effects)@[effect as int] is SpeedAlter || old(effects)@[effect as int] is Shrink ==> ease_left(
            old(effects)@[effect as int],
        ) > 0,
    ensures
        final(effects)@ == old(effects)@.update(effect as int, ease_decremented(old(effects)@[effect as int])),
{
    match &mut effects[effect] {
        EnemyEffect::SpeedAlter { ease, .. } => {
            *ease = *ease - 1;
        },
        EnemyEffect::Shrink { ease, .. } => {
            *ease = *ease - 1;
        },
        _ => {},
    }
}

/// A timed slow-down or shrink that runs for `value` more frames.
pub open spec fn eased<F, R, D>(e: EnemyEffect<F, R, D>, value: usize) -> EnemyEffect<F, R, D> {
    match e {
        EnemyEffect::SpeedAlter { origin, power, .. } => EnemyEffect::SpeedAlter { origin, power, ease: value },
        EnemyEffect::Shrink { origin, power, start, .. } => EnemyEffect::Shrink { origin, power, ease: value, start },
        _ => e,
    }
}

/// Sets the running time of the slow-down at `effect` to `value`; any other
/// effect there is left as it is.
pub fn set_speed_alter_ease<F, R, D>(effects: &mut Vec<EnemyEffect<F, R, D>>, effect: usize, value: usize)
    requires
        effect < old(effects)@.len(),
    ensures
        final(effects)@ == old(effects)@.update(
            effect as int,
            if old(effects)@[effect as int] is SpeedAlter {
                eased(old(effects)@[effect as int], value)
            } else {
                old(effects)@[effect as int]
            },
        ),
{
    match &mut effects[effect] {
        EnemyEffect::SpeedAlter { ease, .. } => {
            *ease = value;
        },
        _ => {},
    }
}

/// The countdown an effect asks for at the end of a frame.
#[derive(Debug, Clone, Copy, PartialEq, Eq, Structural)]
pub enum TimerStep {
    /// Count the lifetime down, or remove the enemy when it is over.
    ReduceLifetime,
    /// The timed effect has run out: remove it.
    RemoveEffect,
    /// Count the timed effect down.
    DecrementEase,
}

/// The countdown that `e` asks for, if any.
pub open spec fn timer_step_spec<F, R, D>(e: EnemyEffect<F, R, D>) -> Option<TimerStep> {
    match e {
        EnemyEffect::Lifetime(_) => Some(TimerStep::ReduceLifetime),
        EnemyEffect::SpeedAlter { ease, .. } => Some(if ease == 0 { TimerStep::RemoveEffect } else { TimerStep::DecrementEase }),
        EnemyEffect::Shrink { ease, .. } => Some(if ease == 0 { TimerStep::RemoveEffect } else { TimerStep::DecrementEase }),
        _ => None,
    }
}

/// Decides the countdown that `e` asks for at the end of a frame.
pub fn timer_step<F, R, D>(e: &EnemyEffect<F, R, D>) -> (r: Option<TimerStep>)
    ensures
        r == timer_step_spec(*e),
{
    match e {
        EnemyEffect::Lifetime(_) => Some(TimerStep::ReduceLifetime),
        EnemyEffect::SpeedAlter { ease, .. } => Some(if *ease == 0 { TimerStep::RemoveEffect } else { TimerStep::DecrementEase }),
        EnemyEffect::Shrink { ease, .. } => Some(if *ease == 0 { TimerStep::RemoveEffect } else { TimerStep::DecrementEase }),
        _ => None,
    }
}

/// The effect is a slow-down put on by `origin`.
pub open spec fn slowed_by<F, R, D>(origin: usize) -> spec_fn(EnemyEffect<F, R, D>) -> bool {
    |e: EnemyEffect<F, R, D>| e matches EnemyEffect::SpeedAlter { origin: o, .. } && o == origin
}

/// The effect is a shrink put on by `origin`.
pub open spec fn shrunk_by<F, R, D>(origin: usize) -> spec_fn(EnemyEffect<F, R, D>) -> bool {
    |e: EnemyEffect<F, R, D>| e matches EnemyEffect::Shrink { origin: o, .. } && o == origin
}

/// The effects after `fresh` from `origin` reaches the enemy: the first
/// effect that `from_origin` picks runs again for the new time, or, when
/// there is none, `fresh` is added.
pub open spec fn renewed<F, R, D>(
    effects: Seq<EnemyEffect<F, R, D>>,
    from_origin: spec_fn(EnemyEffect<F, R, D>) -> bool,
    fresh: EnemyEffect<F, R, D>,
) -> Seq<EnemyEffect<F, R, D>> {
    match first_where(effects, from_origin, 0) {
        Some(k) => effects.update(k, eased(effects[k], ease_left(fresh))),
        None => effects.push(fresh),
    }
}

/// The index of the first effect that is a slow-down (or, with `shrink`, a
/// shrink) put on by `origin`.
fn find_from_origin<F, R, D>(effects: &Vec<EnemyEffect<F, R, D>>, origin: usize, shrink: bool) -> (r: Option<usize>)
    ensures
        r matches Some(k) ==> first_where(effects@, if shrink { shrunk_by(origin) } else { slowed_by(origin) }, 0) == Some(k as int),
        r is None ==> first_where(effects@, if shrink { shrunk_by(origin) } else { slowed_by(origin) }, 0) is None,
{
    let ghost p = if shrink { shrunk_by::<F, R, D>(origin) } else { slowed_by::<F, R, D>(origin) };
    let mut i: usize = 0;
    while i < effects.len()
        invariant
            i <= effects.len(),
            p == (if shrink { shrunk_by::<F, R, D>(origin) } else { slowed_by::<F, R, D>(origin) }),
            first_where(effects@, p, 0) == first_where(effects@, p, i as int),
        decreases effects.len() - i,
    {
        let found = match &effects[i] {
            EnemyEffect::SpeedAlter { origin: o, .. } => !shrink && *o == origin,
            EnemyEffect::Shrink { origin: o, .. } => shrink && *o == origin,
            _ => false,
        };
        if found {
            return Some(i);
        }
        i = i + 1;
    }
    None
}

/// A slow-down by `power` for `duration` frames from item `origin` reaches the
/// enemy: a slow-down from the same item runs again for `duration` frames,
/// otherwise a new one is added.
pub fn slow_enemy<F, R, D>(effects: &mut Vec<EnemyEffect<F, R, D>>, origin: usize, power: F, duration: usize)
    ensures
        final(effects)@ == renewed(old(effects)@, slowed_by(origin), EnemyEffect::SpeedAlter { origin, power, ease: duration }),
{
    match find_from_origin(effects, origin, false) {
        Some(k) => {
            proof {
                lemma_first_where(old(effects)@, slowed_by(origin), 0);
            }
            match &mut effects[k] {
                EnemyEffect::SpeedAlter { ease, .. } => {
                    *ease = duration;
                },
                _ => {},
            }
        },
        None => {
            effects.push(EnemyEffect::SpeedAlter { origin, power, ease: duration });
        },
    }
}

/// A shrink by `power` for `duration` frames from item `origin` reaches the
/// enemy: a shrink from the same item runs again for `duration` frames,
/// otherwise a new one is added.
pub fn shrink_enemy<F, R, D>(effects: &mut Vec<EnemyEffect<F, R, D>>, origin: usize, power: F, duration: usize)
    ensures
        final(effects)@ == renewed(
            old(effects)@,
            shrunk_by(origin),
            EnemyEffect::Shrink { origin, power, ease: duration, start: duration },
        ),
{
    match find_from_origin(effects, origin, true) {
        Some(k) => {
            proof {
                lemma_first_where(old(effects)@, shrunk_by(origin), 0);
            }
            match &mut effects[k] {
                EnemyEffect::Shrink { ease, .. } => {
                    *ease = duration;
                },
                _ => {},
            }
        },
        None => {
            effects.push(EnemyEffect::Shrink { origin, power, ease: duration, start: duration });
        },
    }
}

/// How many more frames a shot or burst waits (zero for other effects).
pub open spec fn cooldown_left<F, R, D>(e: EnemyEffect<F, R, D>) -> usize {
    match e {
        EnemyEffect::Shoot { time_left, .. } => time_left,
        EnemyEffect::Explode { time_left, .. } => time_left,
        _ => 0,
    }
}

/// The cooldown of a shot or burst (zero for other effects).
pub open spec fn cooldown_of<F, R, D>(e: EnemyEffect<F, R, D>) -> usize {
    match e {
        EnemyEffect::Shoot { cooldown, .. } => cooldown,
        EnemyEffect::Explode { cooldown, .. } => cooldown,
        _ => 0,
    }
}

/// The effect after `n` frames of its cooldown.
pub open spec fn cooldown_reduced_times<F, R, D>(e: EnemyEffect<F, R, D>, n: nat) -> EnemyEffect<F, R, D>
    decreases n,
{
    if n == 0 {
        e
    } else {
        cooldown_reduced(cooldown_reduced_times(e, (n - 1) as nat))
    }
}

/// A shot or burst whose cooldown restarts is ready again (waits zero frames)
/// after exactly `cooldown` frames of counting down, and stays ready.
pub proof fn lemma_cooldown_cycle<F, R, D>(e: EnemyEffect<F, R, D>, n: nat)
    requires
        e is Shoot || e is Explode,
    ensures
        cooldown_left(cooldown_reduced_times(cooldown_reset(e), n)) == if n < cooldown_of(e) {
            cooldown_of(e) - n
        } else {
            0
        },
        cooldown_of(cooldown_reduced_times(cooldown_reset(e), n)) == cooldown_of(e),
        cooldown_reduced_times(cooldown_reset(e), n) is Shoot || cooldown_reduced_times(cooldown_reset(e), n) is Explode,
    decreases n,
{
    if n > 0 {
        lemma_cooldown_cycle(e, (n - 1) as nat);
    }
}

/// A lifetime after `n` frames.
pub open spec fn lifetime_reduced_times<F, R, D>(e: EnemyEffect<F, R, D>, n: nat) -> EnemyEffect<F, R, D>
    decreases n,
{
    if n == 0 {
        e
    } else {
        lifetime_reduced(lifetime_reduced_times(e, (n - 1) as nat))
    }
}

/// An enemy with a lifetime of `t` frames lives through `t` countdowns: its
/// time is up exactly from the countdown after them on.
pub proof fn lemma_lifetime<F, R, D>(t: usize, n: nat)
    ensures
        lifetime_over(lifetime_reduced_times(EnemyEffect::<F, R, D>::Lifetime(t), n)) <==> n >= t,
        lifetime_reduced_times(EnemyEffect::<F, R, D>::Lifetime(t), n) == EnemyEffect::<F, R, D>::Lifetime(
            if n < t { (t - n) as usize } else { 0 },
        ),
    decreases n,
{
    if n > 0 {
        lemma_lifetime::<F, R, D>(t, (n - 1) as nat);
    }
}

/// A timed effect after `n` countdowns.
pub open spec fn ease_decremented_times<F, R, D>(e: EnemyEffect<F, R, D>, n: nat) -> EnemyEffect<F, R, D>
    decreases n,
{
    if n == 0 {
        e
    } else {
        ease_decremented(ease_decremented_times(e, (n - 1) as nat))
    }
}

/// A slow-down or shrink set for `ease` frames is counted down in each of the
/// next `ease` frames and removed in the frame after them.
pub proof fn lemma_ease_expires<F, R, D>(e: EnemyEffect<F, R, D>, n: nat)
    requires
        e is SpeedAlter || e is Shrink,
        n <= ease_left(e),
    ensures
        ease_left(ease_decremented_times(e, n)) == ease_left(e) - n,
        timer_step_spec(ease_decremented_times(e, n)) == Some(
            if n < ease_left(e) { TimerStep::DecrementEase } else { TimerStep::RemoveEffect },
        ),
    decreases n,
{
    if n > 0 {
        lemma_ease_expires(e, (n - 1) as nat);
    }
}

/// Renewing an effect from one source keeps one effect from it: the count of
/// effects that `p` picks stays, or becomes one, and the first of them runs
/// for the new time.
proof fn lemma_renew<F, R, D>(
    effects: Seq<EnemyEffect<F, R, D>>,
    p: spec_fn(EnemyEffect<F, R, D>) -> bool,
    fresh: EnemyEffect<F, R, D>,
)
    requires
        p(fresh),
        forall|e: EnemyEffect<F, R, D>| #[trigger] p(e) ==> p(eased(e, ease_left(fresh))) && ease_left(eased(e, ease_left(fresh))) == ease_left(fresh),
    ensures
        ({
            let after = renewed(effects, p, fresh);
            let n = count_where(effects, p);
            &&& count_where(after, p) == if n == 0 { 1 } else { n }
            &&& first_where(after, p, 0) matches Some(k) && ease_left(after[k]) == ease_left(fresh)
        }),
{
    lemma_first_where(effects, p, 0);
    lemma_count_zero(effects, p);
    match first_where(effects, p, 0) {
        Some(k) => {
            let x = eased(effects[k], ease_left(fresh));
            assert(p(effects[k]));
            lemma_count_update(effects, p, k, x);
            let after = effects.update(k, x);
            assert(after[k] == x);
            lemma_first_where(after, p, 0);
            match first_where(after, p, 0) {
                Some(i) => {
                    if i < k {
                        assert(after[i] == effects[i]);
                    }
                },
                None => {},
            }
        },
        None => {
            lemma_count_push(effects, p, fresh);
            let after = effects.push(fresh);
            lemma_first_where(after, p, 0);
            assert(after[effects.len() as int] == fresh);
            if first_where(after, p, 0) != Some(effects.len() as int) {
                let i = first_where(after, p, 0)->0;
                assert(after[i] == effects[i]);
            }
        },
    }
}

/// However often an item slows an enemy, the enemy carries one slow-down from
/// that item, running for the item's duration from the last time.
pub proof fn lemma_slow_single_source<F, R, D>(effects: Seq<EnemyEffect<F, R, D>>, origin: usize, power: F, duration: usize)
    ensures
        ({
            let p = slowed_by::<F, R, D>(origin);
            let after = renewed(effects, p, EnemyEffect::SpeedAlter { origin, power, ease: duration });
            let n = count_where(effects, p);
            &&& count_where(after, p) == if n == 0 { 1 } else { n }
            &&& first_where(after, p, 0) matches Some(k) && ease_left(after[k]) == duration
        }),
{
    lemma_renew(effects, slowed_by::<F, R, D>(origin), EnemyEffect::SpeedAlter { origin, power, ease: duration });
}

/// However often an item shrinks an enemy, the enemy carries one shrink from
/// that item, running for the item's duration from the last time.
pub proof fn lemma_shrink_single_source<F, R, D>(effects: Seq<EnemyEffect<F, R, D>>, origin: usize, power: F, duration: usize)
    ensures
        ({
            let p = shrunk_by::<F, R, D>(origin);
            let after = renewed(effects, p, EnemyEffect::Shrink { origin, power, ease: duration, start: duration });
            let n = count_where(effects, p);
            &&& count_where(after, p) == if n == 0 { 1 } else { n }
            &&& first_where(after, p, 0) matches Some(k) && ease_left(after[k]) == duration
        }),
{
    lemma_renew(
        effects,
        shrunk_by::<F, R, D>(origin),
        EnemyEffect::Shrink { origin, power, ease: duration, start: duration },
    );
}

} // verus!
