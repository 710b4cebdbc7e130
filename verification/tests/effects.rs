use shape_arena::effects::{refresh_effect, set_player_ease, tick_player_effects, EffectAction, EffectRefresh, PlayerEffect};
use shape_arena::enemy::{
    decrement_ease, reduce_cooldowns, reduce_lifetime, reset_cooldowns, set_speed_alter_ease, shrink_enemy, slow_enemy,
    timer_step, EnemyEffect, TimerStep,
};
use shape_arena::life::kill_revive;
use shape_arena::item::{item_label, item_step, use_consumable, Item, ItemEffect, ItemStep};

type Effect = EnemyEffect<f32, f32, u8>;
type Thing = Item<f32, f32, u8>;

fn shoot(time_left: usize, cooldown: usize) -> Effect {
    EnemyEffect::Shoot {
        lifetime: 100,
        radius: 5.0,
        projectile_radius: 1.0,
        speed: 2.0,
        time_left,
        cooldown,
        color: "red".to_string(),
        effects: vec![EnemyEffect::Crumble],
        under_dps: vec![7],
    }
}

fn explode(time_left: usize, cooldown: usize) -> Effect {
    EnemyEffect::Explode {
        lifetime: 50,
        radius: (1.0, 2.0),
        speed: 3.0,
        amount: 4,
        time_left,
        cooldown,
        color: "blue".to_string(),
        effects: vec![],
        under_dps: vec![],
    }
}

fn time_left(e: &Effect) -> usize {
    match e {
        EnemyEffect::Shoot { time_left, .. } | EnemyEffect::Explode { time_left, .. } => *time_left,
        _ => panic!("no cooldown"),
    }
}

fn ease(e: &Effect) -> usize {
    match e {
        EnemyEffect::SpeedAlter { ease, .. } | EnemyEffect::Shrink { ease, .. } => *ease,
        _ => panic!("not timed"),
    }
}

#[test]
fn player_effects_count_down_and_expire() {
    let effects: Vec<PlayerEffect<f32>> = vec![
        PlayerEffect::SpeedAlter { origin: 1, slow: 0.5, ease: 2 },
        PlayerEffect::Shrink { origin: 2, shrink: 0.8, ease: 0 },
        PlayerEffect::Harden { ease: 0, cooldown: 1, speed: 3.0 },
    ];
    let (kept, actions) = tick_player_effects(&effects);
    assert_eq!(
        kept,
        vec![
            PlayerEffect::SpeedAlter { origin: 1, slow: 0.5, ease: 1 },
            PlayerEffect::Harden { ease: 0, cooldown: 0, speed: 3.0 },
        ]
    );
    assert_eq!(actions, vec![EffectAction::MulSpeedMultiplier(0.5)]);
}

#[test]
fn hardening_asks_for_speed_and_invincibility() {
    let effects: Vec<PlayerEffect<f32>> = vec![PlayerEffect::Harden { ease: 1, cooldown: 3, speed: 2.0 }];
    let (kept, actions) = tick_player_effects(&effects);
    assert_eq!(kept, vec![PlayerEffect::Harden { ease: 0, cooldown: 2, speed: 2.0 }]);
    assert_eq!(actions, vec![EffectAction::MulSpeedMultiplier(2.0), EffectAction::SetInvincible]);
    let (kept, actions) = tick_player_effects(&kept);
    assert_eq!(kept, vec![PlayerEffect::Harden { ease: 0, cooldown: 1, speed: 2.0 }]);
    assert!(actions.is_empty());
}

#[test]
fn effect_from_a_new_source_is_added() {
    let effects: Vec<PlayerEffect<f32>> = vec![PlayerEffect::Shrink { origin: 4, shrink: 0.9, ease: 3 }];
    let new = PlayerEffect::SpeedAlter { origin: 4, slow: 0.5, ease: 10 };
    assert_eq!(refresh_effect(&effects, new), EffectRefresh::Push(new));
    let new = PlayerEffect::Shrink { origin: 5, shrink: 0.9, ease: 10 };
    assert_eq!(refresh_effect(&effects, new), EffectRefresh::Push(new));
    let hard = PlayerEffect::Harden { ease: 1, cooldown: 2, speed: 1.0 };
    assert_eq!(refresh_effect(&vec![hard], hard), EffectRefresh::Push(hard));
}

#[test]
fn effect_from_a_known_source_runs_again() {
    let effects: Vec<PlayerEffect<f32>> = vec![
        PlayerEffect::Shrink { origin: 4, shrink: 0.9, ease: 3 },
        PlayerEffect::SpeedAlter { origin: 7, slow: 0.5, ease: 1 },
        PlayerEffect::SpeedAlter { origin: 7, slow: 0.5, ease: 2 },
    ];
    let new = PlayerEffect::SpeedAlter { origin: 7, slow: 0.2, ease: 30 };
    assert_eq!(refresh_effect(&effects, new), EffectRefresh::SetEase { effect: 1, value: 30 });
}

#[test]
fn setting_a_players_ease() {
    let mut effects: Vec<PlayerEffect<f32>> = vec![
        PlayerEffect::Shrink { origin: 4, shrink: 0.9, ease: 3 },
        PlayerEffect::Harden { ease: 1, cooldown: 2, speed: 1.0 },
    ];
    set_player_ease(&mut effects, 0, 12);
    set_player_ease(&mut effects, 1, 12);
    assert_eq!(
        effects,
        vec![
            PlayerEffect::Shrink { origin: 4, shrink: 0.9, ease: 12 },
            PlayerEffect::Harden { ease: 1, cooldown: 2, speed: 1.0 },
        ]
    );
}

#[test]
fn cooldowns_count_down_to_zero() {
    let mut effects = vec![shoot(2, 3), explode(0, 5), EnemyEffect::Lifetime(5)];
    reduce_cooldowns(&mut effects);
    assert_eq!(time_left(&effects[0]), 1);
    assert_eq!(time_left(&effects[1]), 0);
    assert!(matches!(effects[2], EnemyEffect::Lifetime(5)));
}

#[test]
fn cooldowns_restart_and_are_ready_after_their_length() {
    let mut effects = vec![shoot(0, 3), explode(1, 2)];
    reset_cooldowns(&mut effects);
    assert_eq!(time_left(&effects[0]), 3);
    assert_eq!(time_left(&effects[1]), 2);
    for _ in 0..2 {
        reduce_cooldowns(&mut effects);
    }
    assert_eq!(time_left(&effects[0]), 1);
    assert_eq!(time_left(&effects[1]), 0);
    reduce_cooldowns(&mut effects);
    assert_eq!(time_left(&effects[0]), 0);
    match &effects[0] {
        EnemyEffect::Shoot { color, effects, under_dps, .. } => {
            assert_eq!(color, "red");
            assert_eq!(effects.len(), 1);
            assert_eq!(under_dps, &vec![7]);
        }
        _ => panic!("not a shot"),
    }
}

#[test]
fn lifetime_runs_out() {
    let mut effects: Vec<Effect> = vec![EnemyEffect::Crumble, EnemyEffect::Lifetime(1)];
    assert!(!reduce_lifetime(&mut effects, 1));
    assert!(matches!(effects[1], EnemyEffect::Lifetime(0)));
    assert!(reduce_lifetime(&mut effects, 1));
    assert!(matches!(effects[1], EnemyEffect::Lifetime(0)));
    assert!(!reduce_lifetime(&mut effects, 0));
}

#[test]
fn timed_effects_count_down_then_go() {
    let mut effects: Vec<Effect> = vec![
        EnemyEffect::SpeedAlter { origin: 1, power: 0.5, ease: 1 },
        EnemyEffect::Shrink { origin: 1, power: 0.5, ease: 2, start: 2 },
    ];
    assert_eq!(timer_step(&effects[0]), Some(TimerStep::DecrementEase));
    decrement_ease(&mut effects, 0);
    decrement_ease(&mut effects, 1);
    assert_eq!(ease(&effects[0]), 0);
    assert_eq!(ease(&effects[1]), 1);
    assert_eq!(timer_step(&effects[0]), Some(TimerStep::RemoveEffect));
    assert_eq!(timer_step(&effects[1]), Some(TimerStep::DecrementEase));
    assert_eq!(timer_step(&EnemyEffect::<f32, f32, u8>::Lifetime(0)), Some(TimerStep::ReduceLifetime));
    assert_eq!(timer_step(&shoot(0, 1)), None);
}

#[test]
fn setting_an_enemys_slow_down() {
    let mut effects: Vec<Effect> = vec![
        EnemyEffect::SpeedAlter { origin: 1, power: 0.5, ease: 1 },
        EnemyEffect::Shrink { origin: 1, power: 0.5, ease: 2, start: 2 },
    ];
    set_speed_alter_ease(&mut effects, 0, 9);
    set_speed_alter_ease(&mut effects, 1, 9);
    assert_eq!(ease(&effects[0]), 9);
    assert_eq!(ease(&effects[1]), 2);
}

#[test]
fn an_item_slows_an_enemy_once() {
    let mut effects: Vec<Effect> = vec![EnemyEffect::Crumble];
    slow_enemy(&mut effects, 3, 0.5, 10);
    assert_eq!(effects.len(), 2);
    assert!(matches!(effects[1], EnemyEffect::SpeedAlter { origin: 3, ease: 10, .. }));
    decrement_ease(&mut effects, 1);
    slow_enemy(&mut effects, 3, 0.5, 10);
    assert_eq!(effects.len(), 2);
    assert_eq!(ease(&effects[1]), 10);
    slow_enemy(&mut effects, 4, 0.5, 6);
    assert_eq!(effects.len(), 3);
    assert!(matches!(effects[2], EnemyEffect::SpeedAlter { origin: 4, ease: 6, .. }));
}

#[test]
fn an_item_shrinks_an_enemy_once() {
    let mut effects: Vec<Effect> = vec![EnemyEffect::SpeedAlter { origin: 3, power: 0.5, ease: 1 }];
    shrink_enemy(&mut effects, 3, 0.7, 8);
    assert_eq!(effects.len(), 2);
    assert!(matches!(effects[1], EnemyEffect::Shrink { origin: 3, ease: 8, start: 8, .. }));
    shrink_enemy(&mut effects, 3, 0.7, 5);
    assert_eq!(effects.len(), 2);
    assert!(matches!(effects[1], EnemyEffect::Shrink { origin: 3, ease: 5, start: 8, .. }));
}

#[test]
fn copies_of_enemy_effects_are_deep() {
    let first = shoot(1, 2);
    let copy = first.clone();
    assert_eq!(format!("{:?}", copy), format!("{:?}", first));
    let burst = explode(0, 4);
    assert_eq!(format!("{:?}", burst.clone()), format!("{:?}", burst));
}

#[test]
fn items_get_ids_in_turn() {
    let mut counter: usize = 5;
    let a: Thing = Item::new("heart", vec![ItemEffect::Consumable { uses: 3 }], vec![1], &mut counter, Some(2));
    let b: Thing = Item::new("monocle", vec![ItemEffect::Vision((0.5, 1.0))], vec![], &mut counter, None);
    assert_eq!(a.id, 5);
    assert_eq!(b.id, 6);
    assert_eq!(counter, 7);
    assert_eq!(a.name, "heart");
    assert!(!a.active && !b.active);
    assert_eq!(a.drawpacks, vec![1]);
    assert_eq!(a.icon, Some(2));
}

#[test]
fn consumable_items_ask_to_be_used_or_removed() {
    assert_eq!(item_step(&ItemEffect::<f32, f32>::Consumable { uses: 0 }), Some(ItemStep::RemoveItem));
    assert_eq!(item_step(&ItemEffect::<f32, f32>::Consumable { uses: 2 }), Some(ItemStep::UseConsumable));
    assert_eq!(item_step(&ItemEffect::<f32, f32>::Speed(2.0)), None);
}

#[test]
fn a_consumable_is_gone_after_its_last_use() {
    let mut counter: usize = 0;
    let mut heart: Thing = Item::new("heart", vec![ItemEffect::Speed(1.0), ItemEffect::Consumable { uses: 2 }], vec![], &mut counter, None);
    heart.active = true;
    let other: Thing = Item::new("scroll", vec![], vec![], &mut counter, None);
    let mut items = vec![heart, other];
    use_consumable(&mut items, 0, 1);
    assert_eq!(items.len(), 2);
    assert!(!items[0].active);
    assert!(matches!(items[0].effects[1], ItemEffect::Consumable { uses: 1 }));
    use_consumable(&mut items, 0, 0);
    assert_eq!(items.len(), 2);
    use_consumable(&mut items, 0, 1);
    assert_eq!(items.len(), 1);
    assert_eq!(items[0].name, "scroll");
}

#[test]
fn inventory_line_shows_uses_left() {
    let mut counter: usize = 0;
    let heart: Thing = Item::new(
        "heart",
        vec![ItemEffect::Revive { radius: 5.0 }, ItemEffect::Consumable { uses: 3 }],
        vec![],
        &mut counter,
        None,
    );
    assert_eq!(item_label(&heart), "heart (3)");
    let scroll: Thing = Item::new("scroll", vec![], vec![], &mut counter, None);
    assert_eq!(item_label(&scroll), "scroll ");
    let odd: Thing = Item::new(
        "jar",
        vec![ItemEffect::Consumable { uses: 12 }, ItemEffect::Consumable { uses: 0 }],
        vec![],
        &mut counter,
        None,
    );
    assert_eq!(item_label(&odd), "jar (12)(0)");
}

#[test]
fn hits_kill_and_living_players_revive() {
    let alive = vec![true, true, false, true];
    let hit = vec![true, false, false, true];
    let touch = vec![
        vec![true, false, false, false],
        vec![false, true, true, false],
        vec![false, true, true, false],
        vec![true, false, false, true],
    ];
    // 0 is hit and nobody living touches it; 1 lives on; 2 is revived by 1;
    // 3 is hit and touches only 0, who died this frame.
    assert_eq!(kill_revive(&alive, &hit, &touch), vec![false, true, true, false]);
}

#[test]
fn a_player_does_not_revive_itself() {
    let alive = vec![false];
    let hit = vec![false];
    let touch = vec![vec![true]];
    assert_eq!(kill_revive(&alive, &hit, &touch), vec![false]);
    assert_eq!(kill_revive(&vec![], &vec![], &vec![]), Vec::<bool>::new());
}
