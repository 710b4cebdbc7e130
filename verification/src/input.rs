//! The keyboard handling of a player that does not touch positions or speeds:
//! which keys were just pressed, the inventory's selection, open state and key
//! bindings, and the respawn and teleport decisions.

use vstd::prelude::*;
use crate::text::{decimal, digit_char};

verus! {

/// The keys as character sequences.
pub open spec fn keys_view(keys: Seq<String>) -> Seq<Seq<char>> {
    keys.map_values(|k: String| k@)
}

/// `keys` lists `key`.
pub open spec fn has_key(keys: Seq<String>, key: Seq<char>) -> bool {
    keys_view(keys).contains(key)
}

/// Whether `keys` lists `key`.
pub fn contains_key(keys: &Vec<String>, key: &str) -> (r: bool)
    ensures
        r == has_key(keys@, key@),
{
    let wanted = key.to_owned();
    let mut i: usize = 0;
    while i < keys.len()
        invariant
            i <= keys.len(),
            wanted@ == key@,
            forall|j: int| 0 <= j < i ==> keys@[j]@ != key@,
        decreases keys.len() - i,
    {
        if keys[i] == wanted {
            assert(keys_view(keys@)[i as int] == key@);
            return true;
        }
        i = i + 1;
    }
    assert forall|j: int| 0 <= j < keys_view(keys@).len() implies keys_view(keys@)[j] != key@ by {
        assert(keys_view(keys@)[j] == keys@[j]@);
    }
    false
}

/// The keys of `down[..n]` that `old` does not list, in order.
pub open spec fn newly_down(down: Seq<Seq<char>>, old: Seq<Seq<char>>, n: int) -> Seq<Seq<char>>
    decreases n,
{
    if n <= 0 || n > down.len() {
        Seq::empty()
    } else {
        let prev = newly_down(down, old, n - 1);
        if old.contains(down[n - 1]) {
            prev
        } else {
            prev.push(down[n - 1])
        }
    }
}

/// The keys held down now that were not held down before: the keys of
/// `keys_down`, in order, that `old_keys_down` does not list.
pub fn just_pressed(keys_down: &Vec<String>, old_keys_down: &Vec<String>) -> (jp: Vec<String>)
    ensures
        keys_view(jp@) == newly_down(keys_view(keys_down@), keys_view(old_keys_down@), keys_down@.len() as int),
{
    let mut jp: Vec<String> = Vec::new();
    let mut i: usize = 0;
    while i < keys_down.len()
        invariant
            i <= keys_down.len(),
            keys_view(jp@) == newly_down(keys_view(keys_down@), keys_view(old_keys_down@), i as int),
        decreases keys_down.len() - i,
    {
        let ghost before = jp@;
        assert(keys_view(keys_down@)[i as int] == keys_down@[i as int]@);
        if !contains_key(old_keys_down, keys_down[i].as_str()) {
            jp.push(keys_down[i].clone());
            assert(keys_view(jp@) =~= keys_view(before).push(keys_down@[i as int]@));
        }
        i = i + 1;
    }
    jp
}

/// No key is bound twice.
pub open spec fn bindings_wf(b: Seq<(String, usize)>) -> bool {
    forall|i: int, j: int| 0 <= i < j < b.len() ==> b[i].0@ != b[j].0@
}

/// The key bindings as a map from key to item index.
pub open spec fn bindings_map(b: Seq<(String, usize)>) -> Map<Seq<char>, usize> {
    Map::new(
        |k: Seq<char>| exists|i: int| 0 <= i < b.len() && b[i].0@ == k,
        |k: Seq<char>| b[choose|i: int| 0 <= i < b.len() && b[i].0@ == k].1,
    )
}

/// The item index bound to `key`, if any.
pub fn binding_for(b: &Vec<(String, usize)>, key: &String) -> (r: Option<usize>)
    requires
        bindings_wf(b@),
    ensures
        r == (if bindings_map(b@).dom().contains(key@) {
            Some(bindings_map(b@)[key@])
        } else {
            None
        }),
{
    let mut i: usize = 0;
    while i < b.len()
        invariant
            i <= b.len(),
            bindings_wf(b@),
            forall|j: int| 0 <= j < i ==> b@[j].0@ != key@,
        decreases b.len() - i,
    {
        if b[i].0 == *key {
            assert(bindings_map(b@).dom().contains(key@));
            proof {
                let c = choose|j: int| 0 <= j < b@.len() && b@[j].0@ == key@;
                if c < i {
                    assert(b@[c].0@ != b@[i as int].0@);
                } else if c > i {
                    assert(b@[i as int].0@ != b@[c].0@);
                }
            }
            return Some(b[i].1);
        }
        i = i + 1;
    }
    None
}

/// Binds `key` to the item index `index`, replacing an earlier binding of `key`.
pub fn bind(b: &mut Vec<(String, usize)>, key: String, index: usize)
    requires
        bindings_wf(old(b)@),
    ensures
        bindings_wf(final(b)@),
        bindings_map(final(b)@) == bindings_map(old(b)@).insert(key@, index),
{
    let ghost old_b = b@;
    let ghost keyv = key@;
    let mut i: usize = 0;
    while i < b.len()
        invariant
            b@ == old_b,
            old(b)@ == old_b,
            keyv == key@,
            i <= b.len(),
            bindings_wf(old_b),
            forall|j: int| 0 <= j < i ==> b@[j].0@ != key@,
        decreases b.len() - i,
    {
        if b[i].0 == key {
            let ghost at = i as int;
            b.set(i, (key, index));
            assert(b@[at].0@ == keyv);
            assert(bindings_wf(b@)) by {
                assert forall|x: int, y: int| 0 <= x < y < b@.len() implies b@[x].0@ != b@[y].0@ by {
                    assert(old_b[at].0@ == b@[at].0@);
                }
            }
            assert forall|k: Seq<char>| #![auto] bindings_map(b@).dom().contains(k) == bindings_map(old_b).insert(b@[at].0@, index).dom().contains(k) by {
                if exists|j: int| 0 <= j < old_b.len() && old_b[j].0@ == k {
                    let j = choose|j: int| 0 <= j < old_b.len() && old_b[j].0@ == k;
                    assert(b@[j].0@ == k);
                }
                if exists|j: int| 0 <= j < b@.len() && b@[j].0@ == k {
                    let j = choose|j: int| 0 <= j < b@.len() && b@[j].0@ == k;
                    assert(old_b[j].0@ == k);
                }
            }
            assert forall|k: Seq<char>| #[trigger] bindings_map(b@).dom().contains(k) implies bindings_map(b@)[k] == bindings_map(old_b).insert(b@[at].0@, index)[k] by {
                let j = choose|j: int| 0 <= j < b@.len() && b@[j].0@ == k;
                if k == b@[at].0@ {
                    assert(j == at);
                } else {
                    assert(old_b[j].0@ == k);
                    let j2 = choose|j2: int| 0 <= j2 < old_b.len() && old_b[j2].0@ == k;
                    assert(j2 == j);
                }
            }
            assert(bindings_map(b@) =~= bindings_map(old_b).insert(b@[at].0@, index));
            assert(bindings_map(b@) == bindings_map(old_b).insert(keyv, index));
            return;
        }
        i = i + 1;
    }
    b.push((key, index));
    let ghost last = old_b.len() as int;
    assert(bindings_wf(b@)) by {
        assert forall|x: int, y: int| 0 <= x < y < b@.len() implies b@[x].0@ != b@[y].0@ by {
            if y == last {
                assert(b@[x] == old_b[x]);
            } else {
                assert(b@[x] == old_b[x]);
                assert(b@[y] == old_b[y]);
            }
        }
    }
    assert forall|k: Seq<char>| #![auto] bindings_map(b@).dom().contains(k) == bindings_map(old_b).insert(keyv, index).dom().contains(k) by {
        if exists|j: int| 0 <= j < old_b.len() && old_b[j].0@ == k {
            let j = choose|j: int| 0 <= j < old_b.len() && old_b[j].0@ == k;
            assert(b@[j] == old_b[j]);
        }
        if k == keyv {
            assert(b@[last].0@ == k);
        }
        if exists|j: int| 0 <= j < b@.len() && b@[j].0@ == k {
            let j = choose|j: int| 0 <= j < b@.len() && b@[j].0@ == k;
            if j < last {
                assert(b@[j] == old_b[j]);
            }
        }
    }
    assert forall|k: Seq<char>| #[trigger] bindings_map(b@).dom().contains(k) implies bindings_map(b@)[k] == bindings_map(old_b).insert(keyv, index)[k] by {
        let j = choose|j: int| 0 <= j < b@.len() && b@[j].0@ == k;
        if k == keyv {
            assert(j == last);
        } else {
            assert(j < last);
            assert(b@[j] == old_b[j]);
            let j2 = choose|j2: int| 0 <= j2 < old_b.len() && old_b[j2].0@ == k;
            assert(b@[j2] == old_b[j2]);
            assert(j2 == j);
        }
    }
    assert(bindings_map(b@) =~= bindings_map(old_b).insert(keyv, index));
}

/// A change to the player's items, applied in order by the caller.
#[derive(Debug, PartialEq, Eq, Clone, Copy, Structural)]
pub enum InventoryAction {
    /// Flip the active flag of the item at this index, where there is one.
    ToggleItem(usize),
    /// Move the items of every collectable on the map to the end of the
    /// inventory, in order, and clear the map's collectables.
    CollectAll,
    /// Take the item at this index out of the inventory, deactivate it, and
    /// drop it on the map in a new collectable below the player.
    DropItem(usize),
    /// Set the active flag of the item at this index, where there is one.
    SetItemActive(usize, bool),
}

/// The state of a player's inventory apart from the items themselves.
pub struct InventoryState {
    /// The inventory is shown.
    pub open: bool,
    /// The index of the highlighted item.
    pub selected_item: Option<usize>,
    /// The next key pressed is bound to the highlighted item.
    pub bind_mode: bool,
    /// Keys bound to item indices; pressing one flips that item.
    pub bindings: Vec<(String, usize)>,
}

/// The toggles that the keys `jp[..n]` bound in `bindings` ask for, in order.
pub open spec fn toggle_actions(jp: Seq<String>, bindings: Map<Seq<char>, usize>, n: int) -> Seq<InventoryAction>
    decreases n,
{
    if n <= 0 || n > jp.len() {
        Seq::empty()
    } else {
        let prev = toggle_actions(jp, bindings, n - 1);
        if bindings.dom().contains(jp[n - 1]@) {
            prev.push(InventoryAction::ToggleItem(bindings[jp[n - 1]@]))
        } else {
            prev
        }
    }
}

/// The inventory after the just pressed keys `jp`, as the tuple
/// (open, selected item, bind mode, bindings, actions on the items, number of
/// items after those actions), from a state with `item_count` items while the
/// map's collectables hold `collected` items.
///
/// In order: unless in bind mode, each bound key flips its item; `KeyE` opens
/// or closes the inventory; `KeyC` collects everything on the map; `KeyG`
/// drops the selected item, keeping the selection on the same index (or the
/// last item, or none when no items are left). Then, while the inventory is
/// open and holds items: with no selection the first item is selected;
/// otherwise `KeyB` enters bind mode (or leaves it, clearing all bindings),
/// and in bind mode `Escape` leaves it while another key is bound to the
/// selection; `ArrowDown` and `ArrowUp` move the selection, wrapping around;
/// `ArrowRight` and `ArrowLeft` activate and deactivate the selected item.
/// A closed inventory has no selection and is not in bind mode.
pub open spec fn inventory_step(
    open: bool,
    selected: Option<usize>,
    bind_mode: bool,
    bindings: Map<Seq<char>, usize>,
    jp: Seq<String>,
    item_count: int,
    collected: int,
) -> (bool, Option<usize>, bool, Map<Seq<char>, usize>, Seq<InventoryAction>, int) {
    let toggles = if !bind_mode {
        toggle_actions(jp, bindings, jp.len() as int)
    } else {
        Seq::empty()
    };
    let open1 = if has_key(jp, "KeyE"@) {
        !open
    } else {
        open
    };
    let collect = has_key(jp, "KeyC"@);
    let n1 = if collect {
        item_count + collected
    } else {
        item_count
    };
    let acts1 = if collect {
        toggles.push(InventoryAction::CollectAll)
    } else {
        toggles
    };
    let drop = has_key(jp, "KeyG"@) && selected is Some;
    let n2 = if drop {
        n1 - 1
    } else {
        n1
    };
    let sel2 = if drop {
        let i = selected.unwrap();
        if n2 == 0 {
            None
        } else if i == n2 {
            Some((i - 1) as usize)
        } else {
            Some(i)
        }
    } else {
        selected
    };
    let acts2 = if drop {
        acts1.push(InventoryAction::DropItem(selected.unwrap()))
    } else {
        acts1
    };
    if !open1 {
        (open1, None, false, bindings, acts2, n2)
    } else if n2 <= 0 {
        (open1, sel2, bind_mode, bindings, acts2, n2)
    } else {
        match sel2 {
            None => (open1, Some(0usize), bind_mode, bindings, acts2, n2),
            Some(s) => {
                let (bind3, map3) = if has_key(jp, "KeyB"@) {
                    if bind_mode {
                        (false, Map::empty())
                    } else {
                        (true, bindings)
                    }
                } else if bind_mode {
                    if has_key(jp, "Escape"@) {
                        (false, bindings)
                    } else if jp.len() > 0 {
                        (false, bindings.insert(jp[0]@, s))
                    } else {
                        (bind_mode, bindings)
                    }
                } else {
                    (bind_mode, bindings)
                };
                let s1: int = if has_key(jp, "ArrowDown"@) {
                    if s == n2 - 1 {
                        0
                    } else {
                        s + 1
                    }
                } else {
                    s as int
                };
                let s2: int = if has_key(jp, "ArrowUp"@) {
                    if s1 == 0 {
                        n2 - 1
                    } else {
                        s1 - 1
                    }
                } else {
                    s1
                };
                let acts3 = if has_key(jp, "ArrowRight"@) {
                    acts2.push(InventoryAction::SetItemActive(s2 as usize, true))
                } else {
                    acts2
                };
                let acts4 = if has_key(jp, "ArrowLeft"@) {
                    acts3.push(InventoryAction::SetItemActive(s2 as usize, false))
                } else {
                    acts3
                };
                (open1, Some(s2 as usize), bind3, map3, acts4, n2)
            },
        }
    }
}

impl InventoryState {
    /// A closed inventory with no selection and no bindings.
    pub fn new() -> (s: InventoryState)
        ensures
            !s.open,
            s.selected_item is None,
            !s.bind_mode,
            s.bindings@.len() == 0,
            s.wf(),
    {
        InventoryState { open: false, selected_item: None, bind_mode: false, bindings: Vec::new() }
    }

    /// No key is bound twice.
    pub open spec fn wf(&self) -> bool {
        bindings_wf(self.bindings@)
    }

    /// Handles the keys `just_pressed` for a player holding `item_count` items
    /// while the map's collectables hold `collectable_items` items; returns the
    /// changes to apply to the items, in order.
    pub fn handle_inventory(
        &mut self,
        just_pressed: &Vec<String>,
        item_count: usize,
        collectable_items: usize,
    ) -> (actions: Vec<InventoryAction>)
        requires
            old(self).wf(),
            has_key(just_pressed@, "KeyC"@) ==> item_count + collectable_items <= usize::MAX,
            old(self).selected_item matches Some(s) ==> s < usize::MAX,
            has_key(just_pressed@, "KeyG"@) && old(self).selected_item is Some ==> old(
                self,
            ).selected_item.unwrap() < item_count + if has_key(just_pressed@, "KeyC"@) {
                collectable_items as int
            } else {
                0
            },
        ensures
            final(self).wf(),
            ({
                let r = inventory_step(
                    old(self).open,
                    old(self).selected_item,
                    old(self).bind_mode,
                    bindings_map(old(self).bindings@),
                    just_pressed@,
                    item_count as int,
                    collectable_items as int,
                );
                &&& final(self).open == r.0
                &&& final(self).selected_item == r.1
                &&& final(self).bind_mode == r.2
                &&& bindings_map(final(self).bindings@) == r.3
                &&& actions@ == r.4
            }),
    {
        let ghost jp = just_pressed@;
        let ghost map0 = bindings_map(self.bindings@);
        let mut actions: Vec<InventoryAction> = Vec::new();
        if !self.bind_mode {
            let mut k: usize = 0;
            while k < just_pressed.len()
                invariant
                    k <= just_pressed.len(),
                    bindings_wf(self.bindings@),
                    bindings_map(self.bindings@) == map0,
                    actions@ == toggle_actions(jp, map0, k as int),
                    jp == just_pressed@,
                decreases just_pressed.len() - k,
            {
                match binding_for(&self.bindings, &just_pressed[k]) {
                    Some(i) => {
                        actions.push(InventoryAction::ToggleItem(i));
                    },
                    None => {},
                }
                k = k + 1;
            }
        }
        if contains_key(just_pressed, "KeyE") {
            self.open = !self.open;
        }
        let mut count = item_count;
        if contains_key(just_pressed, "KeyC") {
            actions.push(InventoryAction::CollectAll);
            count = item_count + collectable_items;
        }
        if contains_key(just_pressed, "KeyG") {
            match self.selected_item {
                Some(i) => {
                    count = count - 1;
                    actions.push(InventoryAction::DropItem(i));
                    if count == 0 {
                        self.selected_item = None;
                    } else if i == count {
                        self.selected_item = Some(i - 1);
                    }
                },
                None => {},
            }
        }
        if self.open {
            if count > 0 {
                match self.selected_item {
                    None => {
                        self.selected_item = Some(0);
                    },
                    Some(s) => {
                        if contains_key(just_pressed, "KeyB") {
                            if self.bind_mode {
                                self.bind_mode = false;
                                self.bindings = Vec::new();
                                assert(bindings_map(self.bindings@) =~= Map::empty());
                            } else {
                                self.bind_mode = true;
                            }
                        } else {
                            if self.bind_mode {
                                if contains_key(just_pressed, "Escape") {
                                    self.bind_mode = false;
                                } else if just_pressed.len() > 0 {
                                    self.bind_mode = false;
                                    bind(&mut self.bindings, just_pressed[0].clone(), s);
                                }
                            }
                        }
                        let mut t = s;
                        if contains_key(just_pressed, "ArrowDown") {
                            if t == count - 1 {
                                t = 0;
                            } else {
                                t = t + 1;
                            }
                        }
                        if contains_key(just_pressed, "ArrowUp") {
                            if t == 0 {
                                t = count - 1;
                            } else {
                                t = t - 1;
                            }
                        }
                        if contains_key(just_pressed, "ArrowRight") {
                            actions.push(InventoryAction::SetItemActive(t, true));
                        }
                        if contains_key(just_pressed, "ArrowLeft") {
                            actions.push(InventoryAction::SetItemActive(t, false));
                        }
                        self.selected_item = Some(t);
                    },
                }
            }
        } else {
            self.selected_item = None;
            self.bind_mode = false;
        }
        actions
    }
}

/// The selection never points past the items: where it names an existing item
/// before the keys are handled, it names an existing item (or nothing)
/// afterwards, counting the items the handled keys collect and drop.
pub proof fn lemma_selection_in_range(
    open: bool,
    selected: Option<usize>,
    bind_mode: bool,
    bindings: Map<Seq<char>, usize>,
    jp: Seq<String>,
    item_count: int,
    collected: int,
)
    requires
        0 <= item_count,
        0 <= collected,
        selected matches Some(s) ==> s < item_count,
    ensures
        ({
            let r = inventory_step(open, selected, bind_mode, bindings, jp, item_count, collected);
            &&& 0 <= r.5
            &&& r.1 matches Some(s) ==> s < r.5
        }),
{
}

/// Bound keys only ever flip items.
proof fn lemma_toggles_only_flip(jp: Seq<String>, bindings: Map<Seq<char>, usize>, n: int)
    ensures
        forall|k: int| 0 <= k < toggle_actions(jp, bindings, n).len() ==> #[trigger] toggle_actions(jp, bindings, n)[k] is ToggleItem,
    decreases n,
{
    if n > 0 && n <= jp.len() {
        lemma_toggles_only_flip(jp, bindings, n - 1);
    }
}

/// The arrow keys alone set items active or inactive, `ArrowRight` to active
/// and `ArrowLeft` to inactive: every action that makes an item active comes
/// with a pressed `ArrowRight`, every one that makes it inactive with a pressed
/// `ArrowLeft`. With the inventory open, an item selected, and neither `KeyE`
/// nor `KeyG` pressed, `ArrowLeft` makes the selected item (after the up and
/// down keys have moved the selection) inactive as the last action, and
/// `ArrowRight` makes it active.
pub proof fn lemma_arrows_set_activity(
    open: bool,
    selected: Option<usize>,
    bind_mode: bool,
    bindings: Map<Seq<char>, usize>,
    jp: Seq<String>,
    item_count: int,
    collected: int,
)
    requires
        0 <= item_count,
        0 <= collected,
    ensures
        ({
            let r = inventory_step(open, selected, bind_mode, bindings, jp, item_count, collected);
            &&& forall|k: int| 0 <= k < r.4.len() ==> (#[trigger] r.4[k] matches InventoryAction::SetItemActive(_, b) ==> (b
                ==> has_key(jp, "ArrowRight"@)) && (!b ==> has_key(jp, "ArrowLeft"@)))
            &&& (open && !has_key(jp, "KeyE"@) && !has_key(jp, "KeyG"@) && selected is Some && item_count > 0) ==> {
                &&& r.1 is Some
                &&& has_key(jp, "ArrowLeft"@) ==> r.4.last() == InventoryAction::SetItemActive(r.1.unwrap(), false)
                &&& has_key(jp, "ArrowRight"@) ==> r.4.contains(InventoryAction::SetItemActive(r.1.unwrap(), true))
            }
        }),
{
    lemma_toggles_only_flip(jp, bindings, jp.len() as int);
    let r = inventory_step(open, selected, bind_mode, bindings, jp, item_count, collected);
    if open && !has_key(jp, "KeyE"@) && !has_key(jp, "KeyG"@) && selected is Some && item_count > 0 && has_key(
        jp,
        "ArrowRight"@,
    ) {
        let last = r.4.len() - 1;
        if has_key(jp, "ArrowLeft"@) {
            assert(r.4[last - 1] == InventoryAction::SetItemActive(r.1.unwrap(), true));
        } else {
            assert(r.4[last] == InventoryAction::SetItemActive(r.1.unwrap(), true));
        }
    }
}

/// Collecting and dropping follow their keys: the inventory collects
/// everything exactly when `KeyC` was just pressed, and drops an item only
/// when `KeyG` was, and then the item that was selected.
pub proof fn lemma_collect_and_drop_keys(
    open: bool,
    selected: Option<usize>,
    bind_mode: bool,
    bindings: Map<Seq<char>, usize>,
    jp: Seq<String>,
    item_count: int,
    collected: int,
)
    ensures
        ({
            let r = inventory_step(open, selected, bind_mode, bindings, jp, item_count, collected);
            &&& r.4.contains(InventoryAction::CollectAll) <==> has_key(jp, "KeyC"@)
            &&& forall|k: int| 0 <= k < r.4.len() ==> (#[trigger] r.4[k] matches InventoryAction::DropItem(i) ==> has_key(jp, "KeyG"@)
                && selected == Some(i))
        }),
{
    lemma_toggles_only_flip(jp, bindings, jp.len() as int);
    let r = inventory_step(open, selected, bind_mode, bindings, jp, item_count, collected);
    let toggles = if !bind_mode {
        toggle_actions(jp, bindings, jp.len() as int)
    } else {
        Seq::empty()
    };
    if has_key(jp, "KeyC"@) {
        assert(r.4[toggles.len() as int] == InventoryAction::CollectAll);
    }
}

/// A respawn or teleport decision, applied in order by the caller.
#[derive(Debug, PartialEq, Eq, Clone, Copy, Structural)]
pub enum RespawnAction {
    /// Back to the centre of the map, alive.
    Respawn,
    /// To the spawn corner with this index (`0` to `3`, for the keys `Digit1`
    /// to `Digit4`), alive, using up the item at index `scroll`.
    Teleport { corner: usize, scroll: usize },
    /// Activate the item at this index.
    ActivateItem(usize),
}

/// The first index of `name` in `names[k..]`.
pub open spec fn first_index_from(names: Seq<Seq<char>>, name: Seq<char>, k: int) -> Option<int>
    decreases names.len() - k,
{
    if k < 0 || k >= names.len() {
        None
    } else if names[k] == name {
        Some(k)
    } else {
        first_index_from(names, name, k + 1)
    }
}

/// The index of the first item named `name`, if any.
pub fn first_index(names: &Vec<String>, name: &str) -> (r: Option<usize>)
    ensures
        r matches Some(i) ==> first_index_from(keys_view(names@), name@, 0) == Some(i as int),
        r is None ==> first_index_from(keys_view(names@), name@, 0) is None,
{
    let wanted = name.to_owned();
    let mut i: usize = 0;
    while i < names.len()
        invariant
            i <= names.len(),
            wanted@ == name@,
            first_index_from(keys_view(names@), name@, 0) == first_index_from(keys_view(names@), name@, i as int),
        decreases names.len() - i,
    {
        assert(keys_view(names@)[i as int] == names@[i as int]@);
        if names[i] == wanted {
            return Some(i);
        }
        i = i + 1;
    }
    None
}

/// The name of the scroll that a teleport uses up.
pub open spec fn scroll_name() -> Seq<char> {
    "teleportation scroll"@
}

/// The key that teleports to the corner with index `corner`.
pub open spec fn corner_key(corner: int) -> Seq<char> {
    if corner == 0 {
        "Digit1"@
    } else if corner == 1 {
        "Digit2"@
    } else if corner == 2 {
        "Digit3"@
    } else {
        "Digit4"@
    }
}

/// The teleports for the corners `corner..4`, in order, and the item names
/// left after them: a corner's key, just pressed while a scroll is held, uses up
/// the first scroll.
pub open spec fn teleports(names: Seq<Seq<char>>, jp: Seq<String>, corner: int) -> (Seq<RespawnAction>, Seq<Seq<char>>)
    decreases 4 - corner,
{
    if corner < 0 || corner >= 4 {
        (Seq::empty(), names)
    } else {
        match first_index_from(names, scroll_name(), 0) {
            Some(p) => if has_key(jp, corner_key(corner)) {
                let rest = teleports(names.remove(p), jp, corner + 1);
                (seq![RespawnAction::Teleport { corner: corner as usize, scroll: p as usize }] + rest.0, rest.1)
            } else {
                teleports(names, jp, corner + 1)
            },
            None => teleports(names, jp, corner + 1),
        }
    }
}

/// The respawn decisions for the keys held (`keys_down`) and just pressed (`jp`)
/// by a player whose items are named `names`: `KeyR` held respawns; each corner
/// key teleports while a scroll lasts; `KeyQ` activates the first heart.
pub open spec fn respawn_spec(keys_down: Seq<String>, jp: Seq<String>, names: Seq<Seq<char>>) -> Seq<RespawnAction> {
    let respawn = if has_key(keys_down, "KeyR"@) {
        seq![RespawnAction::Respawn]
    } else {
        Seq::empty()
    };
    let (tele, left) = teleports(names, jp, 0);
    let heart = if has_key(jp, "KeyQ"@) {
        match first_index_from(left, "heart"@, 0) {
            Some(h) => seq![RespawnAction::ActivateItem(h as usize)],
            None => Seq::empty(),
        }
    } else {
        Seq::empty()
    };
    respawn + tele + heart
}

/// The key `Digit<k>` for the number `k`.
pub open spec fn digit_key(k: nat) -> Seq<char> {
    "Digit"@ + decimal(k)
}

/// The corner keys are the digit keys: corner `c` belongs to `Digit<c + 1>`.
proof fn lemma_corner_key_is_digit(c: int)
    requires
        0 <= c < 4,
    ensures
        corner_key(c) == digit_key((c + 1) as nat),
{
    reveal_strlit("Digit");
    reveal_strlit("Digit1");
    reveal_strlit("Digit2");
    reveal_strlit("Digit3");
    reveal_strlit("Digit4");
    assert(decimal((c + 1) as nat) == seq![digit_char((c + 1) as nat)]);
    assert(corner_key(c) =~= digit_key((c + 1) as nat));
}

/// Each of `actions` is a teleport to a corner from `corner` on whose key is
/// pressed.
pub open spec fn teleports_on_keys(actions: Seq<RespawnAction>, jp: Seq<String>, corner: int) -> bool {
    forall|i: int| 0 <= i < actions.len() ==> (#[trigger] actions[i] matches RespawnAction::Teleport { corner: c, .. }
        && corner <= c < 4 && has_key(jp, corner_key(c as int)))
}

/// Every teleport from corner `corner` on goes to a corner whose key is pressed.
proof fn lemma_teleports_pressed(names: Seq<Seq<char>>, jp: Seq<String>, corner: int)
    requires
        0 <= corner,
    ensures
        teleports_on_keys(teleports(names, jp, corner).0, jp, corner),
    decreases 4 - corner,
{
    if corner < 4 {
        match first_index_from(names, scroll_name(), 0) {
            Some(p) => if has_key(jp, corner_key(corner)) {
                lemma_teleports_pressed(names.remove(p), jp, corner + 1);
                let rest = teleports(names.remove(p), jp, corner + 1);
                let all = seq![RespawnAction::Teleport { corner: corner as usize, scroll: p as usize }] + rest.0;
                assert forall|i: int| 0 < i < all.len() implies all[i] == rest.0[i - 1] by {}
            } else {
                lemma_teleports_pressed(names, jp, corner + 1);
            },
            None => {
                lemma_teleports_pressed(names, jp, corner + 1);
            },
        }
    }
}

/// Where none of the corners `corner..k` has its key pressed and a scroll is
/// held, the first teleport is to corner `k`, using up the first scroll.
proof fn lemma_teleport_to_pressed(names: Seq<Seq<char>>, jp: Seq<String>, corner: int, k: int)
    requires
        0 <= corner <= k < 4,
        has_key(jp, corner_key(k)),
        forall|c: int| corner <= c < k ==> !has_key(jp, #[trigger] corner_key(c)),
        first_index_from(names, scroll_name(), 0) is Some,
    ensures
        teleports(names, jp, corner).0.len() > 0,
        teleports(names, jp, corner).0[0] == (RespawnAction::Teleport {
            corner: k as usize,
            scroll: first_index_from(names, scroll_name(), 0).unwrap() as usize,
        }),
    decreases k - corner,
{
    if corner < k {
        lemma_teleport_to_pressed(names, jp, corner + 1, k);
    }
}

/// Every teleport among `actions` goes to a corner `c` (one of the four)
/// whose key `Digit<c + 1>` was just pressed.
pub open spec fn teleports_by_digit(actions: Seq<RespawnAction>, jp: Seq<String>) -> bool {
    forall|i: int| 0 <= i < actions.len() ==> (#[trigger] actions[i] matches RespawnAction::Teleport { corner: c, .. }
        ==> c < 4 && has_key(jp, digit_key((c + 1) as nat)))
}

/// `Digit<k + 1>` (for one of the four corners `k`) was just pressed, and no
/// lower digit key was.
pub open spec fn first_pressed_digit(jp: Seq<String>, k: int) -> bool {
    &&& 0 <= k < 4
    &&& has_key(jp, digit_key((k + 1) as nat))
    &&& forall|c: nat| 1 <= c <= k ==> !has_key(jp, #[trigger] digit_key(c))
}

/// A teleport goes to corner `c` (one of the four) only where the key
/// `Digit<c + 1>` was just pressed; and where `Digit<k + 1>` was just pressed
/// with none of the digit keys of the corners before it, while a scroll is
/// held, the player teleports to corner `k`, using up the first scroll.
pub proof fn lemma_teleport_corners(keys_down: Seq<String>, jp: Seq<String>, names: Seq<Seq<char>>, k: int)
    ensures
        teleports_by_digit(respawn_spec(keys_down, jp, names), jp),
        first_pressed_digit(jp, k) && first_index_from(names, scroll_name(), 0) is Some ==> respawn_spec(
            keys_down,
            jp,
            names,
        ).contains(
            (RespawnAction::Teleport { corner: k as usize, scroll: first_index_from(names, scroll_name(), 0).unwrap() as usize }),
        ),
{
    let respawn = if has_key(keys_down, "KeyR"@) {
        seq![RespawnAction::Respawn]
    } else {
        Seq::empty()
    };
    let (tele, left) = teleports(names, jp, 0);
    let heart = if has_key(jp, "KeyQ"@) {
        match first_index_from(left, "heart"@, 0) {
            Some(h) => seq![RespawnAction::ActivateItem(h as usize)],
            None => Seq::empty(),
        }
    } else {
        Seq::empty()
    };
    let all = respawn_spec(keys_down, jp, names);
    assert(all == respawn + tele + heart);
    lemma_teleports_pressed(names, jp, 0);
    assert forall|i: int| 0 <= i < all.len() implies (#[trigger] all[i] matches RespawnAction::Teleport { corner: c, .. }
        ==> c < 4 && has_key(jp, digit_key((c + 1) as nat))) by {
        if i >= respawn.len() && i < respawn.len() + tele.len() {
            assert(all[i] == tele[i - respawn.len()]);
            if let RespawnAction::Teleport { corner: c, .. } = all[i] {
                lemma_corner_key_is_digit(c as int);
            }
        } else if i >= respawn.len() + tele.len() {
            assert(all[i] == heart[i - respawn.len() - tele.len()]);
        } else {
            assert(all[i] == respawn[i]);
        }
    }
    if first_pressed_digit(jp, k) && first_index_from(names, scroll_name(), 0) is Some {
        lemma_corner_key_is_digit(k);
        assert forall|c: int| 0 <= c < k implies !has_key(jp, #[trigger] corner_key(c)) by {
            lemma_corner_key_is_digit(c);
            assert(1 <= (c + 1) as nat <= k);
        }
        lemma_teleport_to_pressed(names, jp, 0, k);
        assert(all[respawn.len() as int] == tele[0]);
    }
}

/// Respawning follows `KeyR` and activating a heart follows `KeyQ`: the
/// player respawns exactly when `KeyR` is held, and an item is activated only
/// when `KeyQ` was just pressed.
pub proof fn lemma_respawn_keys(keys_down: Seq<String>, jp: Seq<String>, names: Seq<Seq<char>>)
    ensures
        respawn_spec(keys_down, jp, names).contains(RespawnAction::Respawn) <==> has_key(keys_down, "KeyR"@),
        forall|i: int| 0 <= i < respawn_spec(keys_down, jp, names).len() ==> (#[trigger] respawn_spec(keys_down, jp, names)[i] is ActivateItem
            ==> has_key(jp, "KeyQ"@)),
{
    let all = respawn_spec(keys_down, jp, names);
    let respawn = if has_key(keys_down, "KeyR"@) {
        seq![RespawnAction::Respawn]
    } else {
        Seq::empty()
    };
    let (tele, left) = teleports(names, jp, 0);
    let heart = if has_key(jp, "KeyQ"@) {
        match first_index_from(left, "heart"@, 0) {
            Some(h) => seq![RespawnAction::ActivateItem(h as usize)],
            None => Seq::empty(),
        }
    } else {
        Seq::empty()
    };
    assert(all == respawn + tele + heart);
    lemma_teleports_pressed(names, jp, 0);
    if has_key(keys_down, "KeyR"@) {
        assert(all[0] == RespawnAction::Respawn);
    }
    assert forall|i: int| 0 <= i < all.len() implies !(#[trigger] all[i] is Respawn && i >= respawn.len()) && (all[i] is ActivateItem ==> has_key(jp, "KeyQ"@)) by {
        if i >= respawn.len() && i < respawn.len() + tele.len() {
            assert(all[i] == tele[i - respawn.len()]);
        } else if i >= respawn.len() + tele.len() {
            assert(all[i] == heart[i - respawn.len() - tele.len()]);
        } else {
            assert(all[i] == respawn[i]);
        }
    }
}

/// A result of `first_index_from` is an index of `names` from `k` on.
proof fn lemma_first_index_bounds(names: Seq<Seq<char>>, name: Seq<char>, k: int)
    ensures
        first_index_from(names, name, k) matches Some(i) ==> k <= i < names.len() && names[i] == name,
    decreases names.len() - k,
{
    if 0 <= k < names.len() && names[k] != name {
        lemma_first_index_bounds(names, name, k + 1);
    }
}

/// The respawn and teleport decisions of a player holding the keys `keys_down`,
/// who just pressed `just_pressed`, and whose items are named `item_names`.
pub fn respawn_actions(keys_down: &Vec<String>, just_pressed: &Vec<String>, item_names: &Vec<String>) -> (actions: Vec<RespawnAction>)
    ensures
        actions@ == respawn_spec(keys_down@, just_pressed@, keys_view(item_names@)),
{
    let mut actions: Vec<RespawnAction> = Vec::new();
    if contains_key(keys_down, "KeyR") {
        actions.push(RespawnAction::Respawn);
    }
    let ghost prefix = actions@;
    let mut names = item_names.clone();
    assert(keys_view(names@) == keys_view(item_names@)) by {
        assert forall|j: int| 0 <= j < names@.len() implies names@[j]@ == item_names@[j]@ by {
            assert(names@[j] == item_names@[j]);
        }
        assert(keys_view(names@) =~= keys_view(item_names@));
    }
    let keys = ["Digit1", "Digit2", "Digit3", "Digit4"];
    let mut corner: usize = 0;
    while corner < 4
        invariant
            corner <= 4,
            keys@.len() == 4,
            forall|c: int| 0 <= c < 4 ==> (#[trigger] keys@[c])@ == corner_key(c),
            teleports(keys_view(item_names@), just_pressed@, 0) == ({
                let rest = teleports(keys_view(names@), just_pressed@, corner as int);
                (actions@.subrange(prefix.len() as int, actions@.len() as int) + rest.0, rest.1)
            }),
            prefix.len() <= actions@.len(),
            actions@.subrange(0, prefix.len() as int) == prefix,
        decreases 4 - corner,
    {
        let ghost before = actions@;
        proof {
            lemma_first_index_bounds(keys_view(names@), scroll_name(), 0);
        }
        match first_index(&names, "teleportation scroll") {
            Some(p) => {
                if contains_key(just_pressed, keys[corner]) {
                    actions.push(RespawnAction::Teleport { corner, scroll: p });
                    let ghost names_before = names@;
                    names.remove(p);
                    assert(keys_view(names@) =~= keys_view(names_before).remove(p as int));
                    assert(actions@.subrange(prefix.len() as int, actions@.len() as int) =~= before.subrange(prefix.len() as int, before.len() as int).push(RespawnAction::Teleport { corner, scroll: p }));
                }
            },
            None => {},
        }
        assert(actions@.subrange(0, prefix.len() as int) =~= prefix);
        corner = corner + 1;
    }
    let ghost tele = actions@.subrange(prefix.len() as int, actions@.len() as int);
    assert(teleports(keys_view(names@), just_pressed@, 4) == (Seq::<RespawnAction>::empty(), keys_view(names@)));
    assert(tele + Seq::<RespawnAction>::empty() =~= tele);
    if contains_key(just_pressed, "KeyQ") {
        match first_index(&names, "heart") {
            Some(h) => {
                actions.push(RespawnAction::ActivateItem(h));
            },
            None => {},
        }
    }
    assert(actions@ =~= respawn_spec(keys_down@, just_pressed@, keys_view(item_names@)));
    actions
}

/// A just pressed key is held down now and was not held down before; every
/// key held down now and not before is just pressed.
pub proof fn lemma_just_pressed_keys(down: Seq<Seq<char>>, old: Seq<Seq<char>>, n: int)
    requires
        0 <= n <= down.len(),
    ensures
        forall|k: Seq<char>| #[trigger] newly_down(down, old, n).contains(k) <==> (down.subrange(0, n).contains(k) && !old.contains(k)),
    decreases n,
{
    if n > 0 {
        lemma_just_pressed_keys(down, old, n - 1);
        let prev = newly_down(down, old, n - 1);
        assert forall|k: Seq<char>| #[trigger] newly_down(down, old, n).contains(k) <==> (down.subrange(0, n).contains(k) && !old.contains(k)) by {
            assert(down.subrange(0, n) =~= down.subrange(0, n - 1).push(down[n - 1]));
            if down.subrange(0, n - 1).contains(k) {
                let j = choose|j: int| 0 <= j < n - 1 && #[trigger] down.subrange(0, n - 1)[j] == k;
                assert(down.subrange(0, n)[j] == k);
            }
            if down.subrange(0, n).contains(k) && k != down[n - 1] {
                let j = choose|j: int| 0 <= j < n && #[trigger] down.subrange(0, n)[j] == k;
                assert(down.subrange(0, n - 1)[j] == k);
            }
            if !old.contains(down[n - 1]) {
                assert(newly_down(down, old, n) == prev.push(down[n - 1]));
                if prev.contains(k) {
                    let j = choose|j: int| 0 <= j < prev.len() && #[trigger] prev[j] == k;
                    assert(prev.push(down[n - 1])[j] == k);
                }
                if prev.push(down[n - 1]).contains(k) && k != down[n - 1] {
                    let j = choose|j: int| 0 <= j < prev.len() + 1 && #[trigger] prev.push(down[n - 1])[j] == k;
                    assert(prev[j] == k);
                }
                assert(prev.push(down[n - 1])[prev.len() as int] == down[n - 1]);
            }
            assert(down.subrange(0, n)[n - 1] == down[n - 1]);
        }
    } else {
        assert(down.subrange(0, 0) =~= Seq::<Seq<char>>::empty());
    }
}

} // verus!
