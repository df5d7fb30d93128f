use vstd::prelude::*;
use crate::atom::Atom;

verus! {

/// What a slot of the inventory holds.
#[derive(Clone, Copy, Debug)]
pub enum Item {
    Atom(Atom),
    SmartTool,
}

/// Two items stack together: atoms of the same id, or two smart tools.
pub open spec fn same_item(a: Item, b: Item) -> bool {
    match (a, b) {
        (Item::Atom(x), Item::Atom(y)) => x.id == y.id,
        (Item::SmartTool, Item::SmartTool) => true,
        _ => false,
    }
}

impl Item {
    /// Whether `item` stacks with this one: atoms compare by id.
    pub fn same(&self, item: Item) -> (b: bool)
        ensures
            b == same_item(*self, item),
    {
        if let Item::Atom(atom) = self {
            if let Item::Atom(atom2) = item {
                return atom.id == atom2.id;
            }
        }
        match (self, item) {
            (Item::SmartTool, Item::SmartTool) => true,
            _ => false,
        }
    }
}

/// A slot of the inventory.
#[derive(Clone, Copy, Debug)]
pub struct Slot {
    pub item: Item,
    // If none it means item is not stackable
    pub number: Option<u16>,
}

impl Slot {
    /// A full stack (100) of fresh atoms of kind `id` (2 to 9).
    pub fn atom_full(id: u8) -> (s: Self)
        requires
            2 <= id <= 9,
        ensures
            s.item matches Item::Atom(a) && a.id == id && crate::atom::color_of_kind(id, a.color),
            s.number == Some(100u16),
    {
        Self { item: Item::Atom(Atom::new(id)), number: Some(100) }
    }

    /// The smart tool, which does not stack.
    pub fn smart_tool() -> (s: Self)
        ensures
            s.item matches Item::SmartTool,
            s.number is None,
    {
        Self { item: Item::SmartTool, number: None }
    }
}

/// The slot can take one more of `item`: it holds a stack of the same item
/// that is not full.
pub open spec fn stackable(s: Option<Slot>, item: Item) -> bool {
    match s {
        Some(slot) => same_item(slot.item, item) && match slot.number {
            Some(n) => n < u16::MAX,
            None => false,
        },
        None => false,
    }
}

/// The player's inventory: 32 slots, the first 8 in the hotbar.
pub struct Inventory {
    pub slots: [Option<Slot>; 32],
    pub selected: usize,
    /// The entities (as their bits) that show the slots.
    pub slot_ents: [Option<u64>; 32],
    pub showing: bool,
}

} // verus!

verus! {

/// A slot of `s` can take one more of `item`.
pub open spec fn has_stackable(s: Seq<Option<Slot>>, item: Item) -> bool {
    exists|i: int| 0 <= i < s.len() && stackable(#[trigger] s[i], item)
}

/// A slot of `s` is empty.
pub open spec fn has_empty(s: Seq<Option<Slot>>) -> bool {
    exists|i: int| 0 <= i < s.len() && (#[trigger] s[i]) is None
}

/// The slot `s` with one more item in its stack.
pub open spec fn incremented(s: Slot) -> Slot {
    Slot { number: Some((s.number.unwrap() + 1) as u16), ..s }
}

/// What `Inventory::add` does: one more of `item` on the first stack that
/// can take it; else `item` alone in the first empty slot, whose index is
/// returned; else nothing.
pub open spec fn add_post(old: Seq<Option<Slot>>, new: Seq<Option<Slot>>, r: Option<usize>, item: Item) -> bool {
    if has_stackable(old, item) {
        &&& r is None
        &&& exists|i: int|
            0 <= i < old.len() && stackable(#[trigger] old[i], item) && (forall|j: int|
                0 <= j < i ==> !stackable(#[trigger] old[j], item)) && new == old.update(
                i,
                Some(incremented(old[i].unwrap())),
            )
    } else if has_empty(old) {
        &&& r matches Some(i)
        &&& 0 <= i < old.len()
        &&& old[i as int] is None
        &&& forall|j: int| 0 <= j < i ==> (#[trigger] old[j]) is Some
        &&& new == old.update(i as int, Some(Slot { item, number: Some(1u16) }))
    } else {
        r is None && new == old
    }
}

/// What `Inventory::remove_one` does to slot `index`: a stack of more than
/// one loses one item; a stack of one, or an item that does not stack, leaves
/// the slot empty, and `index` is returned.
pub open spec fn remove_post(old: Seq<Option<Slot>>, new: Seq<Option<Slot>>, index: int, r: Option<usize>) -> bool {
    match old[index] {
        None => new == old && r is None,
        Some(s) => match s.number {
            Some(n) => if n <= 1 {
                new == old.update(index, None) && r == Some(index as usize)
            } else {
                new == old.update(index, Some(Slot { number: Some((n - 1) as u16), ..s })) && r is None
            },
            None => new == old.update(index, None) && r == Some(index as usize),
        },
    }
}

impl Inventory {
    //Returns the index of the new item if it wasn't on the inventory
    pub fn add(&mut self, item: Item) -> (r: Option<usize>)
        ensures
            add_post(old(self).slots@, final(self).slots@, r, item),
            final(self).selected == old(self).selected,
            final(self).slot_ents == old(self).slot_ents,
            final(self).showing == old(self).showing,
    {
        //Search if we have the item on inventory
        let mut i: usize = 0;
        while i < 32
            invariant
                i <= 32,
                self.slots == old(self).slots,
                self.selected == old(self).selected,
                self.slot_ents == old(self).slot_ents,
                self.showing == old(self).showing,
                forall|j: int| 0 <= j < i ==> !stackable(#[trigger] self.slots@[j], item),
            decreases 32 - i,
        {
            if let Some(slot) = self.slots[i] {
                if slot.item.same(item) {
                    if let Some(number) = slot.number {
                        if number < u16::MAX {
                            self.slots[i] = Some(Slot { number: Some(number + 1), ..slot });
                            proof {
                                assert(stackable(old(self).slots@[i as int], item));
                                assert(self.slots@ =~= old(self).slots@.update(i as int, Some(incremented(old(self).slots@[i as int].unwrap()))));
                            }
                            return None;
                        }
                    }
                }
            }
            i += 1;
        }
        //If we don't, search the first empty slot
        let mut i: usize = 0;
        while i < 32
            invariant
                i <= 32,
                self.slots == old(self).slots,
                self.selected == old(self).selected,
                self.slot_ents == old(self).slot_ents,
                self.showing == old(self).showing,
                !has_stackable(old(self).slots@, item),
                forall|j: int| 0 <= j < i ==> (#[trigger] self.slots@[j]) is Some,
            decreases 32 - i,
        {
            if self.slots[i].is_none() {
                self.slots[i] = Some(Slot { item, number: Some(1) });
                proof {
                    assert(self.slots@ =~= old(self).slots@.update(i as int, Some(Slot { item, number: Some(1u16) })));
                }
                return Some(i);
            }
            i += 1;
        }
        None
    }

    /// Whether some slot can take one more of `item`: a stack of it that is
    /// not full, or an empty slot.
    pub fn can_add(&self, item: Item) -> (b: bool)
        ensures
            b == (has_stackable(self.slots@, item) || has_empty(self.slots@)),
    {
        let mut i: usize = 0;
        while i < 32
            invariant
                i <= 32,
                forall|j: int| 0 <= j < i ==> !stackable(#[trigger] self.slots@[j], item),
                forall|j: int| 0 <= j < i ==> (#[trigger] self.slots@[j]) is Some,
            decreases 32 - i,
        {
            if let Some(slot) = self.slots[i] {
                if slot.item.same(item) {
                    if let Some(number) = slot.number {
                        if number < u16::MAX {
                            assert(stackable(self.slots@[i as int], item));
                            return true;
                        }
                    }
                }
            } else {
                assert(self.slots@[i as int] is None);
                return true;
            }
            i += 1;
        }
        false
    }

    pub fn new(slots: [Option<Slot>; 32], slot_ents: [Option<u64>; 32], selected: usize) -> (inv: Self)
        ensures
            inv.slots == slots,
            inv.slot_ents == slot_ents,
            inv.selected == selected,
            !inv.showing,
    {
        Self { slots, selected, slot_ents, showing: false }
    }

    /// Takes one item out of slot `index`; returns `index` if the slot is
    /// left empty.
    pub fn remove_one(&mut self, index: usize) -> (r: Option<usize>)
        requires
            index < 32,
        ensures
            remove_post(old(self).slots@, final(self).slots@, index as int, r),
            final(self).selected == old(self).selected,
            final(self).slot_ents == old(self).slot_ents,
            final(self).showing == old(self).showing,
    {
        if let Some(slot) = self.slots[index] {
            let small = match slot.number {
                None => true,
                Some(n) => n <= 1,
            };
            if small {
                self.slots[index] = None;
                proof {
                    assert(self.slots@ =~= old(self).slots@.update(index as int, None));
                }
                return Some(index);
            } else if let Some(n) = slot.number {
                self.slots[index] = Some(Slot { number: Some(n - 1), ..slot });
                proof {
                    assert(self.slots@ =~= old(self).slots@.update(index as int, Some(Slot { number: Some((n - 1) as u16), ..slot })));
                }
            }
        }
        None
    }

    /// Takes one item out of the selected slot.
    pub fn remove_one_selected(&mut self) -> (r: Option<usize>)
        requires
            old(self).selected < 32,
        ensures
            remove_post(old(self).slots@, final(self).slots@, old(self).selected as int, r),
            final(self).selected == old(self).selected,
    {
        self.remove_one(self.selected)
    }

    /// Whether every slot holds something.
    pub fn _full(&self) -> (b: bool)
        ensures
            b == !has_empty(self.slots@),
    {
        let mut i: usize = 0;
        while i < 32
            invariant
                i <= 32,
                forall|j: int| 0 <= j < i ==> (#[trigger] self.slots@[j]) is Some,
            decreases 32 - i,
        {
            if self.slots[i].is_none() {
                assert(self.slots@[i as int] is None);
                return false;
            }
            i += 1;
        }
        true
    }
}

/// Law: an item can be added exactly when adding it changes the inventory.
pub proof fn law_can_add_iff_add_changes(old: Seq<Option<Slot>>, new: Seq<Option<Slot>>, r: Option<usize>, item: Item)
    requires
        add_post(old, new, r, item),
    ensures
        (has_stackable(old, item) || has_empty(old)) <==> new != old,
{
    if has_stackable(old, item) {
        let i = choose|i: int|
            0 <= i < old.len() && stackable(#[trigger] old[i], item) && (forall|j: int|
                0 <= j < i ==> !stackable(#[trigger] old[j], item)) && new == old.update(
                i,
                Some(incremented(old[i].unwrap())),
            );
        assert(new[i] != old[i]);
    } else if has_empty(old) {
        let i = r.unwrap() as int;
        assert(new[i] != old[i]);
    }
}

/// Law: taking one item out of the slot that adding an item filled gives the
/// inventory back, and the same slot index.
pub proof fn law_add_then_remove(
    old: Seq<Option<Slot>>,
    mid: Seq<Option<Slot>>,
    new: Seq<Option<Slot>>,
    i: usize,
    r: Option<usize>,
    item: Item,
)
    requires
        add_post(old, mid, Some(i), item),
        remove_post(mid, new, i as int, r),
    ensures
        new == old,
        r == Some(i),
{
    assert(new =~= old);
}

/// Law: two atom items stack together exactly when their ids are equal; a
/// smart tool stacks with a smart tool only.
pub proof fn law_same_item_by_id(a: Atom, b: Atom)
    ensures
        same_item(Item::Atom(a), Item::Atom(b)) <==> a.id == b.id,
        !same_item(Item::Atom(a), Item::SmartTool),
        !same_item(Item::SmartTool, Item::Atom(a)),
        same_item(Item::SmartTool, Item::SmartTool),
{
}

/// Law: adding an item changes at most one slot, and the slot it changes then
/// holds the same kind of item: an added atom only ever lands on a stack of
/// atoms of its own id, or alone in an empty slot, and never changes the kind
/// of what a slot held.
pub proof fn law_add_keeps_kinds(old: Seq<Option<Slot>>, new: Seq<Option<Slot>>, r: Option<usize>, item: Item)
    requires
        add_post(old, new, r, item),
    ensures
        new.len() == old.len(),
        forall|i: int|
            0 <= i < old.len() && new[i] != old[i] ==> (#[trigger] new[i]) is Some && same_item(new[i].unwrap().item, item)
                && (old[i] is Some ==> same_item(old[i].unwrap().item, new[i].unwrap().item)),
        forall|i: int, j: int|
            0 <= i < old.len() && 0 <= j < old.len() && #[trigger] new[i] != old[i] && i != j ==> #[trigger] new[j] == old[j],
        item is Atom ==> forall|i: int|
            0 <= i < old.len() && new[i] != old[i] ==> (#[trigger] new[i]) is Some && new[i].unwrap().item is Atom
                && new[i].unwrap().item->Atom_0.id == item->Atom_0.id,
{
    if has_stackable(old, item) {
        let k = choose|i: int|
            0 <= i < old.len() && stackable(#[trigger] old[i], item) && (forall|j: int|
                0 <= j < i ==> !stackable(#[trigger] old[j], item)) && new == old.update(
                i,
                Some(incremented(old[i].unwrap())),
            );
        assert forall|i: int| 0 <= i < old.len() && new[i] != old[i] implies i == k by {}
    } else if has_empty(old) {
        let k = r.unwrap() as int;
        assert forall|i: int| 0 <= i < old.len() && new[i] != old[i] implies i == k by {}
    }
}

} // verus!
