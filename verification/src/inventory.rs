use vstd::prelude::*;

use crate::model::PlayerDefaults;
use crate::text::str_eq;

verus! {

/// The largest stack a slot holds.
pub const MAX_STACK: u8 = 64;

/// The highest slot id that is synchronised with the client.
pub const MAX_SYNCED_SLOT: i32 = 35;

/// One occupied slot of a player inventory.
#[derive(Debug)]
pub struct InventorySlot {
    pub slot: i32,
    pub item_id: String,
    pub count: u8,
    pub data: Option<String>,
}

/// A player inventory: the selected hotbar slot and the occupied slots.
#[derive(Debug)]
pub struct Inventory {
    pub selected_hotbar_slot: u8,
    pub slots: Vec<InventorySlot>,
}

/// The mathematical content of an inventory slot.
pub struct SlotView {
    pub slot: i32,
    pub item_id: Seq<char>,
    pub count: u8,
    pub data: Option<Seq<char>>,
}

/// The mathematical content of an inventory.
pub struct InventoryView {
    pub selected: u8,
    pub slots: Seq<SlotView>,
}

/// The text of a slot's extra data, if any.
pub open spec fn data_view(data: Option<String>) -> Option<Seq<char>> {
    match data {
        Some(d) => Some(d@),
        None => None,
    }
}

impl View for InventorySlot {
    type V = SlotView;

    open spec fn view(&self) -> SlotView {
        SlotView {
            slot: self.slot,
            item_id: self.item_id@,
            count: self.count,
            data: data_view(self.data),
        }
    }
}

/// The contents of a list of slots.
pub open spec fn slots_view(slots: Seq<InventorySlot>) -> Seq<SlotView> {
    slots.map_values(|s: InventorySlot| s@)
}

impl View for Inventory {
    type V = InventoryView;

    open spec fn view(&self) -> InventoryView {
        InventoryView { selected: self.selected_hotbar_slot, slots: slots_view(self.slots@) }
    }
}

/// The index of the first element of `s` that satisfies `p`.
pub open spec fn first_index<T>(s: Seq<T>, p: spec_fn(T) -> bool) -> Option<int> {
    if exists|i: int| 0 <= i < s.len() && p(s[i]) && forall|j: int| 0 <= j < i ==> !p(s[j]) {
        Some(
            choose|i: int| 0 <= i < s.len() && p(s[i]) && forall|j: int| 0 <= j < i ==> !p(s[j]),
        )
    } else {
        None
    }
}

proof fn lemma_first_index_at<T>(s: Seq<T>, p: spec_fn(T) -> bool, i: int)
    requires
        0 <= i < s.len(),
        p(s[i]),
        forall|j: int| 0 <= j < i ==> !p(s[j]),
    ensures
        first_index(s, p) == Some(i),
{
    let k = choose|k: int| 0 <= k < s.len() && p(s[k]) && forall|j: int| 0 <= j < k ==> !p(s[j]);
    if k < i {
        assert(!p(s[k]));
    }
    if i < k {
        assert(!p(s[i]));
    }
}

proof fn lemma_first_index_none<T>(s: Seq<T>, p: spec_fn(T) -> bool)
    requires
        forall|j: int| 0 <= j < s.len() ==> !p(s[j]),
    ensures
        first_index(s, p) is None,
{
}

/// The spare room of a stack holding `count` items.
pub open spec fn room(count: u8) -> int {
    if count < 64 {
        64 - count
    } else {
        0
    }
}

/// The smaller of two integers.
pub open spec fn min(a: int, b: int) -> int {
    if a <= b {
        a
    } else {
        b
    }
}

/// What is left of `count` items of `item` after topping up the matching stacks among the
/// first `n` slots, in order.
pub open spec fn remaining_after(slots: Seq<SlotView>, item: Seq<char>, count: int, n: int) -> int
    decreases n,
{
    if n <= 0 {
        count
    } else {
        let r = remaining_after(slots, item, count, n - 1);
        if slots[n - 1].item_id == item {
            r - min(r, room(slots[n - 1].count))
        } else {
            r
        }
    }
}

/// Slot `i` after topping up matching stacks with `count` items of `item`.
pub open spec fn stacked_slot(slots: Seq<SlotView>, item: Seq<char>, count: int, i: int) -> SlotView {
    let s = slots[i];
    if s.item_id == item {
        SlotView {
            slot: s.slot,
            item_id: s.item_id,
            count: (s.count + min(remaining_after(slots, item, count, i), room(s.count))) as u8,
            data: s.data,
        }
    } else {
        s
    }
}

/// The slots after topping up every matching stack, in order.
pub open spec fn stacked(slots: Seq<SlotView>, item: Seq<char>, count: int) -> Seq<SlotView> {
    Seq::new(slots.len(), |i: int| stacked_slot(slots, item, count, i))
}

/// Whether some slot has id `id`.
pub open spec fn slot_used(slots: Seq<SlotView>, id: int) -> bool {
    exists|j: int| 0 <= j < slots.len() && slots[j].slot == id
}

/// The smallest synchronised slot id at or above `c` that no slot uses.
pub open spec fn first_free_from(slots: Seq<SlotView>, c: int) -> Option<i32>
    decreases 36 - c,
{
    if c > 35 || c < 0 {
        None
    } else if !slot_used(slots, c) {
        Some(c as i32)
    } else {
        first_free_from(slots, c + 1)
    }
}

/// The number of synchronised slot ids at or above `c` that no slot uses.
pub open spec fn free_count_from(slots: Seq<SlotView>, c: int) -> int
    decreases 36 - c,
{
    if c > 35 || c < 0 {
        0
    } else {
        (if slot_used(slots, c) {
            0int
        } else {
            1int
        }) + free_count_from(slots, c + 1)
    }
}

/// The spare stack room among the first `n` slots holding `item`.
pub open spec fn stack_room(slots: Seq<SlotView>, item: Seq<char>, n: int) -> int
    decreases n,
{
    if n <= 0 {
        0
    } else {
        stack_room(slots, item, n - 1) + if slots[n - 1].item_id == item {
            room(slots[n - 1].count)
        } else {
            0
        }
    }
}

/// The number of items of `item` held in the first `n` slots.
pub open spec fn total_of(slots: Seq<SlotView>, item: Seq<char>, n: int) -> int
    decreases n,
{
    if n <= 0 {
        0
    } else {
        total_of(slots, item, n - 1) + if slots[n - 1].item_id == item {
            slots[n - 1].count as int
        } else {
            0
        }
    }
}

/// The slots after adding `count` items of `item`: matching stacks are topped up in order,
/// and what is left goes, at most one full stack of it, into the first free synchronised slot.
pub open spec fn spec_add_simple_item(slots: Seq<SlotView>, item: Seq<char>, count: u8) -> Seq<SlotView> {
    if count == 0 {
        slots
    } else {
        let filled = stacked(slots, item, count as int);
        let rem = remaining_after(slots, item, count as int, slots.len() as int);
        if rem > 0 && first_free_from(slots, 0) is Some {
            filled.push(
                SlotView {
                    slot: first_free_from(slots, 0)->0,
                    item_id: item,
                    count: min(rem, 64) as u8,
                    data: None,
                },
            )
        } else {
            filled
        }
    }
}

/// Whether `count` items of `item` fit into the spare stack room and the free synchronised slots.
pub open spec fn spec_can_add_simple_item(slots: Seq<SlotView>, item: Seq<char>, count: u8) -> bool {
    count == 0 || stack_room(slots, item, slots.len() as int) + 64 * free_count_from(slots, 0)
        >= count
}

/// Matches the slot with the given id.
pub open spec fn has_id(id: int) -> spec_fn(SlotView) -> bool {
    |s: SlotView| s.slot == id
}

/// Matches a non-empty slot with the given id.
pub open spec fn has_id_nonempty(id: int) -> spec_fn(SlotView) -> bool {
    |s: SlotView| s.slot == id && s.count > 0
}

/// Matches a non-empty slot with the given id that holds `item`.
pub open spec fn holds_at(id: int, item: Seq<char>) -> spec_fn(SlotView) -> bool {
    |s: SlotView| s.slot == id && s.item_id == item && s.count > 0
}

/// The first slot whose id is the selected hotbar slot.
pub open spec fn selected_index(inv: InventoryView) -> Option<int> {
    first_index(inv.slots, has_id(inv.selected as int))
}

/// How many of `item` the selected hotbar slot holds.
pub open spec fn spec_selected_item_count(inv: InventoryView, item: Seq<char>) -> u8 {
    match selected_index(inv) {
        Some(i) => if inv.slots[i].item_id == item {
            inv.slots[i].count
        } else {
            0
        },
        None => 0,
    }
}

/// The item in the selected hotbar slot, when the slot holds any.
pub open spec fn spec_selected_item_id(inv: InventoryView) -> Option<Seq<char>> {
    match selected_index(inv) {
        Some(i) => if inv.slots[i].count > 0 {
            Some(inv.slots[i].item_id)
        } else {
            None
        },
        None => None,
    }
}

/// The slots after taking one item of `item` from the selected slot, when it holds one.
pub open spec fn spec_consume_selected(inv: InventoryView, item: Seq<char>) -> Seq<SlotView> {
    match first_index(inv.slots, holds_at(inv.selected as int, item)) {
        Some(i) => {
            let s = inv.slots[i];
            if s.count == 1 {
                inv.slots.remove(i)
            } else {
                inv.slots.update(
                    i,
                    SlotView { slot: s.slot, item_id: s.item_id, count: (s.count - 1) as u8, data: s.data },
                )
            }
        },
        None => inv.slots,
    }
}

/// No two slots share an id.
pub open spec fn unique_slot_ids(slots: Seq<SlotView>) -> bool {
    forall|i: int, j: int| 0 <= i < slots.len() && 0 <= j < slots.len() && i != j ==> slots[i].slot != slots[j].slot
}

/// Every slot holds at most one full stack.
pub open spec fn stacks_bounded(slots: Seq<SlotView>) -> bool {
    forall|i: int| 0 <= i < slots.len() ==> slots[i].count <= 64
}

proof fn lemma_remaining_bounds(slots: Seq<SlotView>, item: Seq<char>, count: int, n: int)
    requires
        count >= 0,
        0 <= n <= slots.len(),
    ensures
        0 <= remaining_after(slots, item, count, n) <= count,
        remaining_after(slots, item, count, n) == if count - stack_room(slots, item, n) > 0 {
            count - stack_room(slots, item, n)
        } else {
            0
        },
    decreases n,
{
    if n > 0 {
        lemma_remaining_bounds(slots, item, count, n - 1);
    }
}

proof fn lemma_remaining_zero_stays(slots: Seq<SlotView>, item: Seq<char>, count: int, k: int, m: int)
    requires
        0 <= k <= m <= slots.len(),
        remaining_after(slots, item, count, k) == 0,
    ensures
        remaining_after(slots, item, count, m) == 0,
    decreases m - k,
{
    if k < m {
        lemma_remaining_zero_stays(slots, item, count, k, m - 1);
    }
}

proof fn lemma_first_free_same(a: Seq<SlotView>, b: Seq<SlotView>, c: int)
    requires
        forall|id: int| slot_used(a, id) == slot_used(b, id),
    ensures
        first_free_from(a, c) == first_free_from(b, c),
    decreases 36 - c,
{
    if 0 <= c <= 35 {
        lemma_first_free_same(a, b, c + 1);
    }
}

proof fn lemma_free_count_some(slots: Seq<SlotView>, c: int)
    requires
        free_count_from(slots, c) > 0,
    ensures
        first_free_from(slots, c) is Some,
        0 <= first_free_from(slots, c)->0 <= 35,
        !slot_used(slots, first_free_from(slots, c)->0 as int),
    decreases 36 - c,
{
    if 0 <= c <= 35 && slot_used(slots, c) {
        lemma_free_count_some(slots, c + 1);
    }
}

proof fn lemma_first_free_range(slots: Seq<SlotView>, c: int)
    ensures
        first_free_from(slots, c) is Some ==> (c <= first_free_from(slots, c)->0 <= 35 && !slot_used(
            slots,
            first_free_from(slots, c)->0 as int,
        )),
    decreases 36 - c,
{
    if 0 <= c <= 35 && slot_used(slots, c) {
        lemma_first_free_range(slots, c + 1);
    }
}

proof fn lemma_free_count_bounds(slots: Seq<SlotView>, c: int)
    ensures
        0 <= free_count_from(slots, c) <= 36,
        c >= 0 ==> free_count_from(slots, c) <= if c <= 36 { 36 - c } else { 0 },
    decreases 36 - c,
{
    if 0 <= c <= 35 {
        lemma_free_count_bounds(slots, c + 1);
    }
}

proof fn lemma_total_stacked(slots: Seq<SlotView>, item: Seq<char>, count: int, n: int)
    requires
        count >= 0,
        0 <= n <= slots.len(),
    ensures
        total_of(stacked(slots, item, count), item, n) == total_of(slots, item, n) + count
            - remaining_after(slots, item, count, n),
    decreases n,
{
    if n > 0 {
        lemma_total_stacked(slots, item, count, n - 1);
        lemma_remaining_bounds(slots, item, count, n - 1);
    }
}

proof fn lemma_total_prefix(a: Seq<SlotView>, b: Seq<SlotView>, item: Seq<char>, n: int)
    requires
        0 <= n <= a.len(),
        n <= b.len(),
        forall|i: int| 0 <= i < n ==> a[i] == b[i],
    ensures
        total_of(a, item, n) == total_of(b, item, n),
    decreases n,
{
    if n > 0 {
        lemma_total_prefix(a, b, item, n - 1);
    }
}

impl InventorySlot {
    /// A copy of this slot with a different item count.
    fn with_count(&self, count: u8) -> (r: InventorySlot)
        ensures
            r@ == (SlotView { slot: self@.slot, item_id: self@.item_id, count, data: self@.data }),
    {
        let data = match &self.data {
            Some(d) => Some(d.clone()),
            None => None,
        };
        InventorySlot { slot: self.slot, item_id: self.item_id.clone(), count, data }
    }
}

impl Default for Inventory {
    fn default() -> (r: Self)
        ensures
            r@.selected == 0,
            r@.slots.len() == 0,
    {
        Inventory { selected_hotbar_slot: 0, slots: Vec::new() }
    }
}

impl Inventory {
    /// The inventory a new profile starts with: nothing selected but the first hotbar slot,
    /// and no items.
    pub fn for_new_profile(_defaults: PlayerDefaults) -> (r: Self)
        ensures
            r@.selected == 0,
            r@.slots.len() == 0,
    {
        Self::default()
    }

    /// How many items of `item_id` the selected hotbar slot holds.
    pub fn selected_item_count(&self, item_id: &str) -> (r: u8)
        ensures
            r == spec_selected_item_count(self@, item_id@),
    {
        match self.selected_slot() {
            Some(i) => {
                if str_eq(self.slots[i].item_id.as_str(), item_id) {
                    self.slots[i].count
                } else {
                    0
                }
            },
            None => 0,
        }
    }

    /// The item held in the selected hotbar slot, if the slot holds any.
    pub fn selected_item_id(&self) -> (r: Option<&str>)
        ensures
            match r {
                Some(s) => spec_selected_item_id(self@) == Some(s@),
                None => spec_selected_item_id(self@) is None,
            },
    {
        match self.selected_slot() {
            Some(i) => {
                if self.slots[i].count > 0 {
                    Some(self.slots[i].item_id.as_str())
                } else {
                    None
                }
            },
            None => None,
        }
    }

    /// Takes one `item_id` from the selected hotbar slot; an emptied slot is removed.
    /// Returns whether an item was taken.
    pub fn consume_selected(&mut self, item_id: &str) -> (r: bool)
        ensures
            r == first_index(old(self)@.slots, holds_at(old(self)@.selected as int, item_id@)) is Some,
            final(self)@.selected == old(self)@.selected,
            final(self)@.slots == spec_consume_selected(old(self)@, item_id@),
    {
        let slot_id = self.selected_hotbar_slot as i32;
        let ghost p = holds_at(self@.selected as int, item_id@);
        let ghost v = self@.slots;
        let n = self.slots.len();
        let mut i: usize = 0;
        while i < n
            invariant
                n == self.slots.len(),
                v == self@.slots,
                v == old(self)@.slots,
                self.selected_hotbar_slot == old(self).selected_hotbar_slot,
                slot_id == self@.selected as int,
                p == holds_at(self@.selected as int, item_id@),
                i <= n,
                forall|j: int| 0 <= j < i ==> !p(v[j]),
            decreases n - i,
        {
            if self.slots[i].slot == slot_id && str_eq(self.slots[i].item_id.as_str(), item_id)
                && self.slots[i].count > 0 {
                proof {
                    lemma_first_index_at(v, p, i as int);
                }
                let c = self.slots[i].count;
                if c == 1 {
                    self.slots.remove(i);
                    proof {
                        assert(self@.slots =~= v.remove(i as int));
                    }
                } else {
                    let updated = self.slots[i].with_count(c - 1);
                    self.slots.set(i, updated);
                    proof {
                        assert(self@.slots =~= v.update(
                            i as int,
                            SlotView { slot: v[i as int].slot, item_id: v[i as int].item_id, count: (c - 1) as u8, data: v[i as int].data },
                        ));
                    }
                }
                return true;
            }
            i += 1;
        }
        proof {
            lemma_first_index_none(v, p);
        }
        false
    }

    /// Adds `count` items of `item_id`: matching stacks are topped up first, in slot order, and
    /// what is left goes into the first free synchronised slot, at most one full stack of it.
    pub fn add_simple_item(&mut self, item_id: &str, count: u8)
        ensures
            final(self)@.selected == old(self)@.selected,
            final(self)@.slots == spec_add_simple_item(old(self)@.slots, item_id@, count),
    {
        if count == 0 {
            return;
        }
        let ghost v = self@.slots;
        let ghost item = item_id@;
        let n = self.slots.len();
        let mut remaining = count;
        let mut i: usize = 0;
        proof {
            lemma_remaining_bounds(v, item, count as int, 0);
        }
        while i < n && remaining > 0
            invariant
                n == self.slots.len(),
                n == v.len(),
                i <= n,
                item == item_id@,
                self@.selected == old(self)@.selected,
                remaining == remaining_after(v, item, count as int, i as int),
                forall|j: int| 0 <= j < i ==> self@.slots[j] == stacked_slot(v, item, count as int, j),
                forall|j: int| i <= j < n ==> self@.slots[j] == v[j],
            decreases n - i,
        {
            let same = str_eq(self.slots[i].item_id.as_str(), item_id);
            assert(same == (self.slots@[i as int].item_id@ == item_id@));
            assert(self@.slots[i as int] == self.slots@[i as int]@);
            assert(same == (v[i as int].item_id == item));
            if same {
                let c = self.slots[i].count;
                let room: u8 = if c < MAX_STACK {
                    MAX_STACK - c
                } else {
                    0
                };
                let add = if remaining < room {
                    remaining
                } else {
                    room
                };
                let ghost before = self@.slots;
                assert(before[i as int] == v[i as int]);
                let updated = self.slots[i].with_count(c + add);
                self.slots.set(i, updated);
                assert(self@.slots =~= before.update(i as int, updated@));
                remaining = remaining - add;
                assert(v[i as int].item_id == item);
                assert(remaining == remaining_after(v, item, count as int, i as int + 1));
                assert(self@.slots[i as int] == stacked_slot(v, item, count as int, i as int));
            } else {
                assert(v[i as int].item_id != item);
                assert(remaining == remaining_after(v, item, count as int, i as int + 1));
            }
            i += 1;
        }
        proof {
            if i < n {
                lemma_remaining_zero_stays(v, item, count as int, i as int, n as int);
                assert forall|j: int| i <= j < n implies self@.slots[j] == stacked_slot(
                    v,
                    item,
                    count as int,
                    j,
                ) by {
                    lemma_remaining_zero_stays(v, item, count as int, i as int, j);
                    lemma_remaining_bounds(v, item, count as int, j);
                }
            }
            assert(self@.slots =~= stacked(v, item, count as int));
            assert forall|id: int| slot_used(self@.slots, id) == slot_used(v, id) by {
                if slot_used(v, id) {
                    let j = choose|j: int| 0 <= j < v.len() && v[j].slot == id;
                    assert(self@.slots[j].slot == id);
                }
                if slot_used(self@.slots, id) {
                    let j = choose|j: int| 0 <= j < self@.slots.len() && self@.slots[j].slot == id;
                    assert(v[j].slot == id);
                }
            }
            lemma_first_free_same(self@.slots, v, 0);
        }
        if remaining > 0 {
            if let Some(slot) = self.next_slot() {
                let stack = if remaining < MAX_STACK {
                    remaining
                } else {
                    MAX_STACK
                };
                self.slots.push(
                    InventorySlot { slot, item_id: item_id.to_owned(), count: stack, data: None },
                );
                proof {
                    assert(self@.slots =~= stacked(v, item, count as int).push(
                        SlotView { slot, item_id: item, count: stack, data: None },
                    ));
                }
            }
        }
    }

    /// Whether `count` items of `item_id` fit into the spare room of matching stacks and the
    /// free synchronised slots.
    pub fn can_add_simple_item(&self, item_id: &str, count: u8) -> (r: bool)
        requires
            count == 0 || stack_room(self@.slots, item_id@, self@.slots.len() as int) + 64
                * free_count_from(self@.slots, 0) <= u16::MAX,
        ensures
            r == spec_can_add_simple_item(self@.slots, item_id@, count),
    {
        if count == 0 {
            return true;
        }
        let ghost v = self@.slots;
        let ghost item = item_id@;
        let n = self.slots.len();
        proof {
            lemma_free_count_bounds(v, 0);
        }
        let mut stack: u16 = 0;
        let mut i: usize = 0;
        while i < n
            invariant
                n == v.len(),
                v == self@.slots,
                item == item_id@,
                i <= n,
                stack == stack_room(v, item, i as int),
                stack_room(v, item, n as int) + 64 * free_count_from(v, 0) <= u16::MAX,
                free_count_from(v, 0) >= 0,
            decreases n - i,
        {
            proof {
                lemma_stack_room_mono(v, item, i as int + 1, n as int);
            }
            assert(self@.slots[i as int] == v[i as int]);
            assert(self@.slots[i as int] == self.slots@[i as int]@);
            if str_eq(self.slots[i].item_id.as_str(), item_id) {
                let c = self.slots[i].count;
                let room: u16 = if c < MAX_STACK {
                    (MAX_STACK - c) as u16
                } else {
                    0
                };
                stack = stack + room;
            }
            i += 1;
        }
        let mut empty: u16 = 0;
        let mut candidate: i32 = 0;
        while candidate <= MAX_SYNCED_SLOT
            invariant
                0 <= candidate <= 36,
                v == self@.slots,
                empty as int + free_count_from(v, candidate as int) == free_count_from(v, 0),
                free_count_from(v, 0) <= 36,
                stack as int + 64 * free_count_from(v, 0) <= u16::MAX,
                stack == stack_room(v, item, v.len() as int),
            decreases 36 - candidate,
        {
            proof {
                lemma_free_count_bounds(v, candidate as int + 1);
            }
            if !self.uses_slot(candidate) {
                empty = empty + 1;
            }
            candidate += 1;
        }
        assert(free_count_from(v, 36) == 0);
        stack + empty * 64 >= count as u16
    }

    /// The non-empty slot with id `slot_id`, if any.
    pub fn slot(&self, slot_id: i32) -> (r: Option<&InventorySlot>)
        ensures
            match first_index(self@.slots, has_id_nonempty(slot_id as int)) {
                Some(i) => r == Some(&self.slots@[i]),
                None => r is None,
            },
    {
        let ghost p = has_id_nonempty(slot_id as int);
        let n = self.slots.len();
        let mut i: usize = 0;
        while i < n
            invariant
                n == self.slots.len(),
                i <= n,
                p == has_id_nonempty(slot_id as int),
                forall|j: int| 0 <= j < i ==> !p(self@.slots[j]),
            decreases n - i,
        {
            if self.slots[i].slot == slot_id && self.slots[i].count > 0 {
                proof {
                    lemma_first_index_at(self@.slots, p, i as int);
                }
                return Some(&self.slots[i]);
            }
            i += 1;
        }
        proof {
            lemma_first_index_none(self@.slots, p);
        }
        None
    }

    /// The slot ids synchronised with the client.
    pub fn synced_slot_ids() -> (r: std::ops::RangeInclusive<i32>)
        ensures
            r@.start == 0,
            r@.end == MAX_SYNCED_SLOT,
            !r@.exhausted,
    {
        std::ops::RangeInclusive::new(0, MAX_SYNCED_SLOT)
    }

    /// Whether `slot_id` is synchronised with the client.
    pub fn is_synced_slot(slot_id: i32) -> (r: bool)
        ensures
            r == (0 <= slot_id <= MAX_SYNCED_SLOT),
    {
        0 <= slot_id && slot_id <= MAX_SYNCED_SLOT
    }

    /// Whether `slot_id` is a hotbar slot.
    pub fn is_hotbar_slot(slot_id: i16) -> (r: bool)
        ensures
            r == (0 <= slot_id <= 8),
    {
        0 <= slot_id && slot_id <= 8
    }

    /// The index of the first slot whose id is the selected hotbar slot.
    fn selected_slot(&self) -> (r: Option<usize>)
        ensures
            match r {
                Some(i) => selected_index(self@) == Some(i as int) && i < self.slots.len(),
                None => selected_index(self@) is None,
            },
    {
        let slot_id = self.selected_hotbar_slot as i32;
        let ghost p = has_id(self@.selected as int);
        let n = self.slots.len();
        let mut i: usize = 0;
        while i < n
            invariant
                n == self.slots.len(),
                i <= n,
                slot_id == self@.selected as int,
                p == has_id(self@.selected as int),
                forall|j: int| 0 <= j < i ==> !p(self@.slots[j]),
            decreases n - i,
        {
            if self.slots[i].slot == slot_id {
                proof {
                    lemma_first_index_at(self@.slots, p, i as int);
                }
                return Some(i);
            }
            i += 1;
        }
        proof {
            lemma_first_index_none(self@.slots, p);
        }
        None
    }

    /// Whether some slot has id `candidate`.
    fn uses_slot(&self, candidate: i32) -> (r: bool)
        ensures
            r == slot_used(self@.slots, candidate as int),
    {
        let n = self.slots.len();
        let mut i: usize = 0;
        while i < n
            invariant
                n == self.slots.len(),
                i <= n,
                forall|j: int| 0 <= j < i ==> self@.slots[j].slot != candidate,
            decreases n - i,
        {
            if self.slots[i].slot == candidate {
                assert(self@.slots[i as int].slot == candidate);
                return true;
            }
            i += 1;
        }
        false
    }

    /// The smallest synchronised slot id that no slot uses.
    fn next_slot(&self) -> (r: Option<i32>)
        ensures
            r == first_free_from(self@.slots, 0),
    {
        let mut candidate: i32 = 0;
        while candidate <= MAX_SYNCED_SLOT
            invariant
                0 <= candidate <= 36,
                first_free_from(self@.slots, 0) == first_free_from(self@.slots, candidate as int),
            decreases 36 - candidate,
        {
            if !self.uses_slot(candidate) {
                return Some(candidate);
            }
            candidate += 1;
        }
        None
    }
}

proof fn lemma_stack_room_mono(slots: Seq<SlotView>, item: Seq<char>, k: int, m: int)
    requires
        0 <= k <= m <= slots.len(),
    ensures
        0 <= stack_room(slots, item, k) <= stack_room(slots, item, m),
    decreases m - k,
{
    if k < m {
        lemma_stack_room_mono(slots, item, k, m - 1);
    } else {
        lemma_stack_room_nonneg(slots, item, k);
    }
}

proof fn lemma_stack_room_nonneg(slots: Seq<SlotView>, item: Seq<char>, n: int)
    requires
        0 <= n <= slots.len(),
    ensures
        0 <= stack_room(slots, item, n),
    decreases n,
{
    if n > 0 {
        lemma_stack_room_nonneg(slots, item, n - 1);
    }
}


/// When `count` items of one kind, at most a full stack, fit into the inventory, adding them
/// raises the number of that item held by exactly `count`.
pub proof fn lemma_add_fits_exactly(slots: Seq<SlotView>, item: Seq<char>, count: u8)
    requires
        count <= 64,
        spec_can_add_simple_item(slots, item, count),
    ensures
        total_of(
            spec_add_simple_item(slots, item, count),
            item,
            spec_add_simple_item(slots, item, count).len() as int,
        ) == total_of(slots, item, slots.len() as int) + count,
{
    if count > 0 {
        let n = slots.len() as int;
        let filled = stacked(slots, item, count as int);
        lemma_total_stacked(slots, item, count as int, n);
        lemma_remaining_bounds(slots, item, count as int, n);
        let rem = remaining_after(slots, item, count as int, n);
        if rem > 0 {
            lemma_free_count_bounds(slots, 0);
            assert(free_count_from(slots, 0) > 0);
            lemma_free_count_some(slots, 0);
            let x = SlotView {
                slot: first_free_from(slots, 0)->0,
                item_id: item,
                count: min(rem, 64) as u8,
                data: None,
            };
            let out = filled.push(x);
            assert(out == spec_add_simple_item(slots, item, count));
            lemma_total_prefix(out, filled, item, n);
            assert(out[n] == x);
        }
    }
}

proof fn lemma_total_stacked_other(slots: Seq<SlotView>, item: Seq<char>, count: int, other: Seq<char>, n: int)
    requires
        other != item,
        0 <= n <= slots.len(),
    ensures
        total_of(stacked(slots, item, count), other, n) == total_of(slots, other, n),
    decreases n,
{
    if n > 0 {
        lemma_total_stacked_other(slots, item, count, other, n - 1);
    }
}

/// Adding items of one kind leaves the number held of every other kind unchanged.
pub proof fn lemma_add_keeps_other_totals(slots: Seq<SlotView>, item: Seq<char>, count: u8, other: Seq<char>)
    requires
        other != item,
    ensures
        total_of(
            spec_add_simple_item(slots, item, count),
            other,
            spec_add_simple_item(slots, item, count).len() as int,
        ) == total_of(slots, other, slots.len() as int),
{
    if count > 0 {
        let n = slots.len() as int;
        let filled = stacked(slots, item, count as int);
        lemma_total_stacked_other(slots, item, count as int, other, n);
        let out = spec_add_simple_item(slots, item, count);
        if out.len() > n {
            lemma_total_prefix(out, filled, other, n);
            assert(out[n].item_id == item);
        }
    }
}

proof fn lemma_stack_room_stacked(slots: Seq<SlotView>, item: Seq<char>, count: int, n: int)
    requires
        count >= 0,
        0 <= n <= slots.len(),
    ensures
        stack_room(stacked(slots, item, count), item, n) == stack_room(slots, item, n) - (count
            - remaining_after(slots, item, count, n)),
    decreases n,
{
    if n > 0 {
        lemma_stack_room_stacked(slots, item, count, n - 1);
        lemma_remaining_bounds(slots, item, count, n - 1);
    }
}

proof fn lemma_stack_room_prefix(a: Seq<SlotView>, b: Seq<SlotView>, item: Seq<char>, n: int)
    requires
        0 <= n <= a.len(),
        n <= b.len(),
        forall|i: int| 0 <= i < n ==> a[i] == b[i],
    ensures
        stack_room(a, item, n) == stack_room(b, item, n),
    decreases n,
{
    if n > 0 {
        lemma_stack_room_prefix(a, b, item, n - 1);
    }
}

proof fn lemma_free_count_taken(a: Seq<SlotView>, b: Seq<SlotView>, f: int, c: int)
    requires
        0 <= f <= 35,
        !slot_used(a, f),
        forall|id: int| #[trigger] slot_used(b, id) == (slot_used(a, id) || id == f),
        0 <= c,
    ensures
        free_count_from(b, c) == free_count_from(a, c) - (if c <= f {
            1int
        } else {
            0int
        }),
    decreases 36 - c,
{
    if c <= 35 {
        lemma_free_count_taken(a, b, f, c + 1);
        assert(slot_used(b, c) == (slot_used(a, c) || c == f));
    }
}

/// The spare stack room plus a full stack for each free synchronised slot.
spec fn capacity(slots: Seq<SlotView>, item: Seq<char>) -> int {
    stack_room(slots, item, slots.len() as int) + 64 * free_count_from(slots, 0)
}

proof fn lemma_add_uses_its_capacity(slots: Seq<SlotView>, item: Seq<char>, count: u8)
    requires
        0 < count <= 64,
        count <= capacity(slots, item),
    ensures
        capacity(spec_add_simple_item(slots, item, count), item) == capacity(slots, item) - count,
{
    let n = slots.len() as int;
    let filled = stacked(slots, item, count as int);
    let rem = remaining_after(slots, item, count as int, n);
    lemma_remaining_bounds(slots, item, count as int, n);
    lemma_stack_room_nonneg(slots, item, n);
    lemma_stack_room_stacked(slots, item, count as int, n);
    lemma_free_count_bounds(slots, 0);
    assert forall|id: int| #[trigger] slot_used(filled, id) == slot_used(slots, id) by {
        if slot_used(slots, id) {
            let j = choose|j: int| 0 <= j < slots.len() && slots[j].slot == id;
            assert(filled[j].slot == id);
        }
        if slot_used(filled, id) {
            let j = choose|j: int| 0 <= j < filled.len() && filled[j].slot == id;
            assert(slots[j].slot == id);
        }
    }
    lemma_first_free_same(filled, slots, 0);
    if rem > 0 {
        assert(free_count_from(slots, 0) > 0);
        lemma_free_count_some(slots, 0);
        let f = first_free_from(slots, 0)->0;
        let x = SlotView { slot: f, item_id: item, count: min(rem, 64) as u8, data: None };
        let out = filled.push(x);
        assert(out == spec_add_simple_item(slots, item, count));
        lemma_stack_room_prefix(out, filled, item, n);
        assert(out[n] == x);
        assert(stack_room(out, item, n + 1) == stack_room(filled, item, n) + room(x.count));
        assert forall|id: int| #[trigger] slot_used(out, id) == (slot_used(slots, id) || id == f) by {
            if slot_used(out, id) {
                let j = choose|j: int| 0 <= j < out.len() && out[j].slot == id;
                if j < n {
                    assert(filled[j].slot == id);
                    assert(slot_used(filled, id));
                }
            }
            if slot_used(slots, id) {
                assert(slot_used(filled, id));
                let j = choose|j: int| 0 <= j < filled.len() && filled[j].slot == id;
                assert(out[j].slot == id);
            }
            if id == f {
                assert(out[n].slot == id);
            }
        }
        lemma_free_count_taken(slots, out, f as int, 0);
    } else {
        assert(spec_add_simple_item(slots, item, count) == filled);
        lemma_free_count_same(filled, slots, 0);
    }
}

proof fn lemma_free_count_same(a: Seq<SlotView>, b: Seq<SlotView>, c: int)
    requires
        forall|id: int| #[trigger] slot_used(a, id) == slot_used(b, id),
    ensures
        free_count_from(a, c) == free_count_from(b, c),
    decreases 36 - c,
{
    if 0 <= c <= 35 {
        lemma_free_count_same(a, b, c + 1);
        assert(slot_used(a, c) == slot_used(b, c));
    }
}

/// Room for `a + b` items of one kind is room for `a` of them and then, once those are added,
/// for `b` more: the capacity check counts every item asked for, however many stacks they take.
pub proof fn lemma_capacity_is_additive(slots: Seq<SlotView>, item: Seq<char>, a: u8, b: u8)
    requires
        a <= 64,
        a + b <= 255,
    ensures
        spec_can_add_simple_item(slots, item, (a + b) as u8) <==> (spec_can_add_simple_item(
            slots,
            item,
            a,
        ) && spec_can_add_simple_item(spec_add_simple_item(slots, item, a), item, b)),
{
    lemma_stack_room_nonneg(slots, item, slots.len() as int);
    lemma_free_count_bounds(slots, 0);
    if a > 0 && a <= capacity(slots, item) {
        lemma_add_uses_its_capacity(slots, item, a);
    }
}

proof fn lemma_first_free_counts(slots: Seq<SlotView>, c: int)
    ensures
        first_free_from(slots, c) is Some ==> free_count_from(slots, c) > 0,
    decreases 36 - c,
{
    lemma_free_count_bounds(slots, c);
    if 0 <= c <= 35 {
        lemma_first_free_counts(slots, c + 1);
        lemma_free_count_bounds(slots, c + 1);
    }
}

/// When `count` items of one kind, at most a full stack, do not fit into the inventory, adding
/// them leaves the number of that item held short of the old number plus `count`: the capacity
/// check tells exactly whether an add takes everything.
pub proof fn lemma_add_falls_short_when_full(slots: Seq<SlotView>, item: Seq<char>, count: u8)
    requires
        count <= 64,
        !spec_can_add_simple_item(slots, item, count),
    ensures
        total_of(
            spec_add_simple_item(slots, item, count),
            item,
            spec_add_simple_item(slots, item, count).len() as int,
        ) < total_of(slots, item, slots.len() as int) + count,
{
    let n = slots.len() as int;
    lemma_free_count_bounds(slots, 0);
    lemma_stack_room_nonneg(slots, item, n);
    assert(free_count_from(slots, 0) == 0);
    lemma_first_free_counts(slots, 0);
    lemma_total_stacked(slots, item, count as int, n);
    lemma_remaining_bounds(slots, item, count as int, n);
    assert(remaining_after(slots, item, count as int, n) > 0);
}

/// Adding items keeps slot ids distinct and every stack within its bound.
pub proof fn lemma_add_keeps_slots_valid(slots: Seq<SlotView>, item: Seq<char>, count: u8)
    requires
        unique_slot_ids(slots),
        stacks_bounded(slots),
    ensures
        unique_slot_ids(spec_add_simple_item(slots, item, count)),
        stacks_bounded(spec_add_simple_item(slots, item, count)),
        forall|i: int|
            0 <= i < slots.len() ==> #[trigger] spec_add_simple_item(slots, item, count)[i].slot
                == slots[i].slot,
        spec_add_simple_item(slots, item, count).len() <= slots.len() + 1,
        forall|i: int|
            slots.len() <= i < spec_add_simple_item(slots, item, count).len() ==> 0
                <= #[trigger] spec_add_simple_item(slots, item, count)[i].slot <= MAX_SYNCED_SLOT,
{
    if count > 0 {
        let n = slots.len() as int;
        let filled = stacked(slots, item, count as int);
        assert forall|i: int| 0 <= i < n implies filled[i].count <= 64 by {
            lemma_remaining_bounds(slots, item, count as int, i);
        }
        let rem = remaining_after(slots, item, count as int, n);
        lemma_first_free_range(slots, 0);
        if rem > 0 && first_free_from(slots, 0) is Some {
            assert(spec_add_simple_item(slots, item, count)[n].slot == first_free_from(slots, 0)->0);
            let out = spec_add_simple_item(slots, item, count);
            let c = first_free_from(slots, 0)->0;
            assert forall|i: int, j: int|
                0 <= i < out.len() && 0 <= j < out.len() && i != j implies out[i].slot
                != out[j].slot by {
                if i == n {
                    assert(out[j].slot == slots[j].slot);
                    assert(!slot_used(slots, c as int));
                } else if j == n {
                    assert(out[i].slot == slots[i].slot);
                    assert(!slot_used(slots, c as int));
                }
            }
        }
    }
}

/// With distinct slot ids, a successful take from the selected slot lowers the selected count
/// of that item by one.
pub proof fn lemma_consume_lowers_selected_count(inv: InventoryView, item: Seq<char>)
    requires
        unique_slot_ids(inv.slots),
        first_index(inv.slots, holds_at(inv.selected as int, item)) is Some,
    ensures
        spec_selected_item_count(
            InventoryView { selected: inv.selected, slots: spec_consume_selected(inv, item) },
            item,
        ) == spec_selected_item_count(inv, item) - 1,
{
    let p = holds_at(inv.selected as int, item);
    let i = first_index(inv.slots, p)->0;
    assert(p(inv.slots[i]));
    let q = has_id(inv.selected as int);
    assert forall|j: int| 0 <= j < i implies !q(inv.slots[j]) by {
        assert(inv.slots[j].slot != inv.slots[i].slot);
    }
    lemma_first_index_at(inv.slots, q, i);
    let after = InventoryView { selected: inv.selected, slots: spec_consume_selected(inv, item) };
    let s = inv.slots[i];
    if s.count == 1 {
        assert forall|j: int| 0 <= j < after.slots.len() implies !q(after.slots[j]) by {
            if j < i {
                assert(after.slots[j] == inv.slots[j]);
            } else {
                assert(after.slots[j] == inv.slots[j + 1]);
                assert(inv.slots[j + 1].slot != inv.slots[i].slot);
            }
        }
        lemma_first_index_none(after.slots, q);
    } else {
        assert forall|j: int| 0 <= j < i implies !q(after.slots[j]) by {
            assert(after.slots[j] == inv.slots[j]);
        }
        assert(q(after.slots[i]));
        lemma_first_index_at(after.slots, q, i);
    }
}

/// The selected slot reports an item only when it holds at least one of it.
pub proof fn lemma_selected_item_is_counted(inv: InventoryView)
    ensures
        spec_selected_item_id(inv) matches Some(item) ==> spec_selected_item_count(inv, item) > 0,
{
}

} // verus!
