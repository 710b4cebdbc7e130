//! Items in a player's inventory: how they get their ids, and how the uses of
//! a consumable item run out. Strengths (of type `F`), reaches (of type `R`)
//! and what an item draws (of type `D`) are only carried along.

use vstd::prelude::*;

use crate::text::{chars_of, decimal, decimal_string, string_of};

verus! {

/// What an item does while it is active.
#[derive(Debug)]
pub enum ItemEffect<F, R> {
    /// Sets the player's zoom limits.
    Vision((F, F)),
    /// Multiplies the player's speed.
    Speed(F),
    /// Slows enemies within `radius` for `duration` frames.
    SlowEnemies { power: F, radius: R, duration: usize },
    /// Shrinks enemies within `radius` for `duration` frames.
    ShrinkEnemies { power: F, radius: R, duration: usize },
    /// Revives players within `radius`.
    Revive { radius: R },
    /// The item can be used `uses` more times.
    Consumable { uses: usize },
    /// Pushes enemies within `radius` away.
    PushEnemies { power: F, radius: R },
    /// Turns enemies within `radius` around the player.
    RotateEnemies { power: F, radius: R },
    /// Makes the player harder to hit for `limit` frames, once every
    /// `cooldown` frames.
    Harden { limit: usize, cooldown: usize, speed: F },
    /// The item is used by a key press rather than kept active.
    Usable,
}

/// An item: its id, its name, whether it is active, its effects, and what it
/// draws.
#[derive(Debug)]
pub struct Item<F, R, D> {
    pub id: usize,
    pub name: String,
    pub active: bool,
    pub effects: Vec<ItemEffect<F, R>>,
    pub drawpacks: Vec<D>,
    pub icon: Option<D>,
}

impl<F, R, D> Item<F, R, D> {
    /// A new, inactive item that takes its id from `item_counter` and moves
    /// the counter on, so that every item gets an id of its own.
    pub fn new(
        name: &str,
        effects: Vec<ItemEffect<F, R>>,
        drawpacks: Vec<D>,
        item_counter: &mut usize,
        icon: Option<D>,
    ) -> (item: Self)
        requires
            *old(item_counter) < usize::MAX,
        ensures
            item.id == *old(item_counter),
            *final(item_counter) == *old(item_counter) + 1,
            item.name@ == name@,
            !item.active,
            item.effects == effects,
            item.drawpacks == drawpacks,
            item.icon == icon,
    {
        let item = Item { name: name.to_owned(), active: false, effects, drawpacks, id: *item_counter, icon };
        *item_counter = *item_counter + 1;
        item
    }
}

/// What an active item's effect asks of the item itself at the end of a frame.
#[derive(Debug, Clone, Copy, PartialEq, Eq, Structural)]
pub enum ItemStep {
    /// The uses have run out: remove the item.
    RemoveItem,
    /// Use the item up once.
    UseConsumable,
}

/// What `e` asks of its item, if anything.
pub open spec fn item_step_spec<F, R>(e: ItemEffect<F, R>) -> Option<ItemStep> {
    match e {
        ItemEffect::Consumable { uses } => Some(if uses == 0 { ItemStep::RemoveItem } else { ItemStep::UseConsumable }),
        _ => None,
    }
}

/// Decides what `e` asks of its item at the end of a frame.
pub fn item_step<F, R>(e: &ItemEffect<F, R>) -> (r: Option<ItemStep>)
    ensures
        r == item_step_spec(*e),
{
    match e {
        ItemEffect::Consumable { uses } => Some(if *uses == 0 { ItemStep::RemoveItem } else { ItemStep::UseConsumable }),
        _ => None,
    }
}

/// How many uses the effect leaves (none for effects other than a consumable).
pub open spec fn uses_of<F, R>(e: ItemEffect<F, R>) -> Option<usize> {
    match e {
        ItemEffect::Consumable { uses } => Some(uses),
        _ => None,
    }
}

/// Uses up the consumable effect `effect` of item `item` once: the item is
/// switched off, and when no use is left it is removed. Any other effect
/// leaves the items as they are.
pub fn use_consumable<F, R, D>(items: &mut Vec<Item<F, R, D>>, item: usize, effect: usize)
    requires
        item < old(items)@.len(),
        effect < old(items)@[item as int].effects@.len(),
        uses_of(old(items)@[item as int].effects@[effect as int]) != Some(0usize),
    ensures
        ({
            let before = old(items)@[item as int];
            match uses_of(before.effects@[effect as int]) {
                Some(uses) => if uses == 1 {
                    final(items)@ == old(items)@.remove(item as int)
                } else {
                    let after = final(items)@[item as int];
                    &&& final(items)@.len() == old(items)@.len()
                    &&& forall|j: int| 0 <= j < old(items)@.len() && j != item ==> #[trigger] final(items)@[j] == old(items)@[j]
                    &&& after.effects@ == before.effects@.update(effect as int, ItemEffect::Consumable { uses: (uses - 1) as usize })
                    &&& !after.active
                    &&& after.id == before.id
                    &&& after.name == before.name
                    &&& after.drawpacks == before.drawpacks
                    &&& after.icon == before.icon
                },
                None => final(items)@ == old(items)@,
            }
        }),
{
    let consumable = match &items[item].effects[effect] {
        ItemEffect::Consumable { .. } => true,
        _ => false,
    };
    if consumable {
        let mut left: usize = 0;
        match &mut items[item].effects[effect] {
            ItemEffect::Consumable { uses } => {
                *uses = *uses - 1;
                left = *uses;
            },
            _ => {},
        }
        items[item].active = false;
        if left == 0 {
            items.remove(item);
        }
    }
}

/// What the effects `effects[..n]` add to an item's line in the inventory:
/// the uses left of each consumable, in brackets.
pub open spec fn uses_text<F, R>(effects: Seq<ItemEffect<F, R>>, n: int) -> Seq<char>
    decreases n,
{
    if n <= 0 || n > effects.len() {
        Seq::empty()
    } else {
        uses_text(effects, n - 1) + match effects[n - 1] {
            ItemEffect::Consumable { uses } => seq!['('] + decimal(uses as nat) + seq![')'],
            _ => Seq::empty(),
        }
    }
}

/// An item's line in the inventory: its name, a space, and the uses left of
/// its consumables.
pub open spec fn item_label_spec<F, R>(name: Seq<char>, effects: Seq<ItemEffect<F, R>>) -> Seq<char> {
    name + seq![' '] + uses_text(effects, effects.len() as int)
}

/// The line that shows `item` in the inventory.
pub fn item_label<F, R, D>(item: &Item<F, R, D>) -> (label: String)
    ensures
        label@ == item_label_spec(item.name@, item.effects@),
{
    let mut out = chars_of(item.name.as_str());
    out.push(' ');
    let mut i: usize = 0;
    while i < item.effects.len()
        invariant
            i <= item.effects.len(),
            out@ == item.name@ + seq![' '] + uses_text(item.effects@, i as int),
        decreases item.effects.len() - i,
    {
        let ghost before = out@;
        match &item.effects[i] {
            ItemEffect::Consumable { uses } => {
                let n = *uses as u64;
                let mut digits = chars_of(decimal_string(n).as_str());
                out.push('(');
                out.append(&mut digits);
                out.push(')');
                assert(out@ =~= before + (seq!['('] + decimal(*uses as nat) + seq![')']));
            },
            _ => {
                assert(out@ =~= before + Seq::<char>::empty());
            },
        }
        i = i + 1;
    }
    string_of(&out)
}

} // verus!
