//! Items: wearing and taking off equipment, picking up and dropping.

use vstd::prelude::*;
use vstd::string::*;
use crate::color::{
    green, light_green, light_yellow, red, spec_green, spec_light_green, spec_light_yellow,
    spec_red, spec_white, spec_yellow, white, yellow,
};
use crate::combat::worn;
use crate::constants::{INVENTORY_CAPACITY, PLAYER};
use crate::entity::{
    Entity, Equipment, Game, GameObject, Item, Line, MessageLog, Messages, Session, Slot,
    entities, lines,
};
use crate::fov::FovMap;
use crate::spell_effects::{
    Target, after_confuse, after_fireball_on, after_heal, after_lightning, can_cast_fireball,
    can_cast_heal, can_cast_lightning, cast_confuse, cast_fireball, cast_heal, cast_lightning,
    confuse_lines, confuse_result, fireball_is_safe, fireball_lines, fireball_result,
    heal_is_safe, heal_lines, heal_result, lightning_is_safe, lightning_lines,
    lightning_result,
};

verus! {

/// How the use of an item ended.
#[derive(Clone, Copy, Debug, PartialEq, Eq, Structural)]
pub enum UseResult {
    UsedUp,
    UsedAndKept,
    Cancelled,
}

/// The name of a slot in messages.
pub open spec fn slot_name(slot: Slot) -> Seq<char> {
    match slot {
        Slot::LeftHand => "left hand"@,
        Slot::RightHand => "right hand"@,
        Slot::Head => "head"@,
    }
}

impl Slot {
    /// The name of the slot in messages.
    pub fn text(&self) -> (s: &'static str)
        ensures
            s@ == slot_name(*self),
    {
        match self {
            Slot::LeftHand => "left hand",
            Slot::RightHand => "right hand",
            Slot::Head => "head",
        }
    }
}

/// The text that the `Debug` formatting of an object produces.
pub uninterp spec fn debug_text(e: Entity) -> Seq<char>;

/// Calls `format!` with `{:?}` on the object. The contract claims that the
/// text is a function of the object's value: the derived `Debug` writes the
/// fields, one after the other, and reads nothing else.
#[verifier::external_body]
fn debug_string(object: &GameObject) -> (s: String)
    ensures
        s@ == debug_text(object@),
{
    format!("{:?}", object)
}

/// The entity with its equipment marked as worn or not worn.
pub open spec fn with_equipped(e: Entity, equipped: bool) -> Entity
    recommends
        e.equipment is Some,
{
    Entity { equipment: Some(Equipment { equipped, ..e.equipment->0 }), ..e }
}

/// The entity after an attempt to wear it: an item that is a piece of
/// equipment is worn afterwards, anything else is left as it is.
pub open spec fn after_equip(e: Entity) -> Entity {
    if e.item is Some && e.equipment is Some {
        with_equipped(e, true)
    } else {
        e
    }
}

/// The entity after an attempt to take it off.
pub open spec fn after_dequip(e: Entity) -> Entity {
    if e.item is Some && e.equipment is Some {
        with_equipped(e, false)
    } else {
        e
    }
}

/// The lines that an attempt to wear the entity adds to the log.
pub open spec fn equip_lines(e: Entity) -> Seq<Line> {
    if e.item is None {
        seq![("Can't equip "@ + debug_text(e) + " because it's not an Item"@, spec_red())]
    } else {
        match e.equipment {
            Some(equipment) => if !equipment.equipped {
                seq![
                    (
                        "Equipped "@ + e.name + " on "@ + slot_name(equipment.slot) + "."@,
                        spec_light_green(),
                    ),
                ]
            } else {
                seq![]
            },
            None => seq![
                (
                    "Can't equip "@ + debug_text(e) + " because it's not an Equipment."@,
                    spec_red(),
                ),
            ],
        }
    }
}

/// The lines that an attempt to take the entity off adds to the log.
pub open spec fn dequip_lines(e: Entity) -> Seq<Line> {
    if e.item is None {
        seq![("Can't dequip "@ + debug_text(e) + " because it's not an Item."@, spec_red())]
    } else {
        match e.equipment {
            Some(equipment) => if equipment.equipped {
                seq![
                    (
                        "Dequipped "@ + e.name + " from "@ + slot_name(equipment.slot) + "."@,
                        spec_light_yellow(),
                    ),
                ]
            } else {
                seq![]
            },
            None => seq![
                (
                    "Can't dequip "@ + debug_text(e) + " because it's not an Equipment."@,
                    spec_red(),
                ),
            ],
        }
    }
}

impl GameObject {
    /// Wears the object, if it is an item and a piece of equipment, and
    /// logs it; logs why not otherwise.
    pub fn equip(&mut self, log: &mut Messages)
        ensures
            final(self)@ == after_equip(old(self)@),
            lines(final(log)@) == lines(old(log)@) + equip_lines(old(self)@),
    {
        if self.item.is_none() {
            let mut text = String::from_str("Can't equip ");
            text.append(debug_string(self).as_str());
            text.append(" because it's not an Item");
            log.add(text.as_str(), red());
            assert(lines(log@) =~= lines(old(log)@) + equip_lines(old(self)@));
            return;
        }
        if let Some(ref mut equipment) = self.equipment {
            if !equipment.equipped {
                equipment.equipped = true;
                let mut text = String::from_str("Equipped ");
                text.append(self.name.as_str());
                text.append(" on ");
                text.append(equipment.slot.text());
                text.append(".");
                log.add(text.as_str(), light_green());
            }
        } else {
            let mut text = String::from_str("Can't equip ");
            text.append(debug_string(self).as_str());
            text.append(" because it's not an Equipment.");
            log.add(text.as_str(), red());
        }
        assert(lines(log@) =~= lines(old(log)@) + equip_lines(old(self)@));
    }

    /// Takes the object off, if it is an item and a piece of equipment, and
    /// logs it; logs why not otherwise.
    pub fn dequip(&mut self, log: &mut Messages)
        ensures
            final(self)@ == after_dequip(old(self)@),
            lines(final(log)@) == lines(old(log)@) + dequip_lines(old(self)@),
    {
        if self.item.is_none() {
            let mut text = String::from_str("Can't dequip ");
            text.append(debug_string(self).as_str());
            text.append(" because it's not an Item.");
            log.add(text.as_str(), red());
            assert(lines(log@) =~= lines(old(log)@) + dequip_lines(old(self)@));
            return;
        }
        if let Some(ref mut equipment) = self.equipment {
            if equipment.equipped {
                equipment.equipped = false;
                let mut text = String::from_str("Dequipped ");
                text.append(self.name.as_str());
                text.append(" from ");
                text.append(equipment.slot.text());
                text.append(".");
                log.add(text.as_str(), light_yellow());
            }
        } else {
            let mut text = String::from_str("Can't dequip ");
            text.append(debug_string(self).as_str());
            text.append(" because it's not an Equipment.");
            log.add(text.as_str(), red());
        }
        assert(lines(log@) =~= lines(old(log)@) + dequip_lines(old(self)@));
    }
}

/// Whether the item is worn in `slot`.
pub open spec fn in_slot(item: Entity, slot: Slot) -> bool {
    worn(item) && item.equipment->0.slot == slot
}

/// The place in the inventory of the first item that is worn in `slot`.
pub open spec fn first_in_slot(inventory: Seq<Entity>, slot: Slot) -> Option<int>
    decreases inventory.len(),
{
    if inventory.len() == 0 {
        None
    } else {
        match first_in_slot(inventory.drop_last(), slot) {
            Some(i) => Some(i),
            None => if in_slot(inventory.last(), slot) {
                Some(inventory.len() - 1)
            } else {
                None
            },
        }
    }
}

/// What [`first_in_slot`] finds is worn in the slot and nothing before it
/// is; where it finds nothing, nothing is worn in the slot.
pub proof fn lemma_first_in_slot(inventory: Seq<Entity>, slot: Slot)
    ensures
        match first_in_slot(inventory, slot) {
            Some(i) => 0 <= i < inventory.len() && in_slot(inventory[i], slot) && forall|j: int|
                0 <= j < i ==> !in_slot(#[trigger] inventory[j], slot),
            None => forall|j: int|
                0 <= j < inventory.len() ==> !in_slot(#[trigger] inventory[j], slot),
        },
    decreases inventory.len(),
{
    if inventory.len() > 0 {
        lemma_first_in_slot(inventory.drop_last(), slot);
        match first_in_slot(inventory.drop_last(), slot) {
            Some(i) => {
                assert(inventory.drop_last()[i] == inventory[i]);
                assert forall|j: int| 0 <= j < i implies !in_slot(
                    #[trigger] inventory[j],
                    slot,
                ) by {
                    assert(inventory.drop_last()[j] == inventory[j]);
                }
            },
            None => {
                assert forall|j: int| 0 <= j < inventory.len() - 1 implies !in_slot(
                    #[trigger] inventory[j],
                    slot,
                ) by {
                    assert(inventory.drop_last()[j] == inventory[j]);
                }
            },
        }
    }
}

proof fn lemma_first_in_slot_is(inventory: Seq<Entity>, slot: Slot, i: int)
    requires
        0 <= i < inventory.len(),
        in_slot(inventory[i], slot),
        forall|j: int| 0 <= j < i ==> !in_slot(#[trigger] inventory[j], slot),
    ensures
        first_in_slot(inventory, slot) == Some(i),
{
    lemma_first_in_slot(inventory, slot);
}

/// The place in the inventory of the first item that is worn in `slot`.
pub fn get_equipped_in_slot(slot: Slot, game: &Game) -> (found: Option<usize>)
    ensures
        match first_in_slot(game@.inventory, slot) {
            Some(i) => found == Some(i as usize),
            None => found is None,
        },
{
    let mut i: usize = 0;
    while i < game.inventory.len()
        invariant
            i <= game.inventory.len(),
            forall|j: int| 0 <= j < i ==> !in_slot(#[trigger] game@.inventory[j], slot),
        decreases game.inventory.len() - i,
    {
        assert(game@.inventory[i as int] == game.inventory[i as int]@);
        if let Some(equipment) = game.inventory[i].equipment {
            if equipment.equipped && equipment.slot == slot {
                proof {
                    lemma_first_in_slot_is(game@.inventory, slot, i as int);
                }
                return Some(i);
            }
        }
        i += 1;
    }
    proof {
        lemma_first_in_slot(game@.inventory, slot);
    }
    None
}

/// The inventory after whatever is worn in `slot` is taken off.
pub open spec fn slot_cleared(inventory: Seq<Entity>, slot: Slot) -> Seq<Entity> {
    match first_in_slot(inventory, slot) {
        Some(j) => inventory.update(j, after_dequip(inventory[j])),
        None => inventory,
    }
}

/// The lines that taking off what is worn in `slot` adds to the log.
pub open spec fn slot_cleared_lines(inventory: Seq<Entity>, slot: Slot) -> Seq<Line> {
    match first_in_slot(inventory, slot) {
        Some(j) => dequip_lines(inventory[j]),
        None => seq![],
    }
}

/// The inventory after the item at `id` is toggled: a worn piece of
/// equipment is taken off; one that is not worn is put on, after what is
/// worn in its slot is taken off; anything else is left as it is.
pub open spec fn toggled(inventory: Seq<Entity>, id: int) -> Seq<Entity> {
    match inventory[id].equipment {
        None => inventory,
        Some(equipment) => if equipment.equipped {
            inventory.update(id, after_dequip(inventory[id]))
        } else {
            slot_cleared(inventory, equipment.slot).update(id, after_equip(inventory[id]))
        },
    }
}

/// Toggling an item keeps the number of items.
pub proof fn lemma_toggled_len(inventory: Seq<Entity>, id: int)
    requires
        0 <= id < inventory.len(),
    ensures
        toggled(inventory, id).len() == inventory.len(),
{
    if inventory[id].equipment is Some {
        lemma_first_in_slot(inventory, inventory[id].equipment->0.slot);
    }
}

/// The lines that toggling the item at `id` adds to the log.
pub open spec fn toggle_lines(inventory: Seq<Entity>, id: int) -> Seq<Line> {
    match inventory[id].equipment {
        None => seq![],
        Some(equipment) => if equipment.equipped {
            dequip_lines(inventory[id])
        } else {
            slot_cleared_lines(inventory, equipment.slot) + equip_lines(inventory[id])
        },
    }
}

/// Whether no two worn items of the inventory are in the same slot.
pub open spec fn one_per_slot(inventory: Seq<Entity>) -> bool {
    forall|i: int, j: int|
        0 <= i < j < inventory.len() && worn(#[trigger] inventory[i]) && worn(
            #[trigger] inventory[j],
        ) ==> inventory[i].equipment->0.slot != inventory[j].equipment->0.slot
}

/// Whether every piece of equipment in the inventory is an item.
pub open spec fn wearables_are_items(inventory: Seq<Entity>) -> bool {
    forall|i: int|
        0 <= i < inventory.len() && (#[trigger] inventory[i]).equipment is Some
            ==> inventory[i].item is Some
}

/// Where no two worn items share a slot, and every piece of equipment is an
/// item, toggling an item keeps it so: what was worn in the slot is off
/// before the item is put on, and no two items are worn in one slot after
/// the first step nor after the second.
pub proof fn lemma_toggle_keeps_one_per_slot(inventory: Seq<Entity>, id: int)
    requires
        0 <= id < inventory.len(),
        one_per_slot(inventory),
        wearables_are_items(inventory),
    ensures
        one_per_slot(toggled(inventory, id)),
        wearables_are_items(toggled(inventory, id)),
        inventory[id].equipment is Some && !inventory[id].equipment->0.equipped ==> {
            let cleared = slot_cleared(inventory, inventory[id].equipment->0.slot);
            &&& one_per_slot(cleared)
            &&& forall|j: int|
                0 <= j < cleared.len() ==> !in_slot(
                    #[trigger] cleared[j],
                    inventory[id].equipment->0.slot,
                )
        },
{
    if inventory[id].equipment is Some && !inventory[id].equipment->0.equipped {
        let slot = inventory[id].equipment->0.slot;
        let cleared = slot_cleared(inventory, slot);
        lemma_first_in_slot(inventory, slot);
        assert forall|j: int| 0 <= j < cleared.len() implies !in_slot(
            #[trigger] cleared[j],
            slot,
        ) by {
            match first_in_slot(inventory, slot) {
                Some(k) => {
                    if j != k && in_slot(inventory[j], slot) {
                        if j < k {
                            assert(!in_slot(inventory[j], slot));
                        } else {
                            assert(worn(inventory[k]) && worn(inventory[j]));
                        }
                    }
                },
                None => {},
            }
        }
        assert forall|i: int, j: int|
            0 <= i < j < cleared.len() && worn(#[trigger] cleared[i]) && worn(
                #[trigger] cleared[j],
            ) implies cleared[i].equipment->0.slot != cleared[j].equipment->0.slot by {
            assert(worn(inventory[i]) && worn(inventory[j]));
        }
        let after = toggled(inventory, id);
        assert forall|i: int, j: int|
            0 <= i < j < after.len() && worn(#[trigger] after[i]) && worn(
                #[trigger] after[j],
            ) implies after[i].equipment->0.slot != after[j].equipment->0.slot by {
            if i == id {
                assert(!in_slot(cleared[j], slot));
            } else if j == id {
                assert(!in_slot(cleared[i], slot));
            } else {
                assert(worn(cleared[i]) && worn(cleared[j]));
            }
        }
    } else if inventory[id].equipment is Some {
        let after = toggled(inventory, id);
        assert forall|i: int, j: int|
            0 <= i < j < after.len() && worn(#[trigger] after[i]) && worn(
                #[trigger] after[j],
            ) implies after[i].equipment->0.slot != after[j].equipment->0.slot by {
            assert(worn(inventory[i]) && worn(inventory[j]));
        }
    }
}

/// Toggles the item at `inventory_id`: a worn piece of equipment is taken
/// off; one that is not worn is put on, after what is worn in its slot is
/// taken off. The item is kept; an item that is no equipment cancels.
pub fn toggle_equipment(
    inventory_id: usize,
    _objects: &mut Vec<GameObject>,
    game: &mut Game,
) -> (result: UseResult)
    requires
        inventory_id < old(game).inventory.len(),
    ensures
        final(_objects)@ == old(_objects)@,
        final(game)@ == (Session {
            inventory: toggled(old(game)@.inventory, inventory_id as int),
            log: old(game)@.log + toggle_lines(old(game)@.inventory, inventory_id as int),
            ..old(game)@
        }),
        result == if old(game).inventory[inventory_id as int].equipment is Some {
            UseResult::UsedAndKept
        } else {
            UseResult::Cancelled
        },
        one_per_slot(old(game)@.inventory) && wearables_are_items(old(game)@.inventory)
            ==> one_per_slot(final(game)@.inventory),
{
    let ghost before = game@.inventory;
    assert(before[inventory_id as int] == game.inventory[inventory_id as int]@);
    proof {
        if one_per_slot(before) && wearables_are_items(before) {
            lemma_toggle_keeps_one_per_slot(before, inventory_id as int);
        }
    }
    let equipment = match game.inventory[inventory_id].equipment {
        Some(equipment) => equipment,
        None => {
            assert(game@.log =~= old(game)@.log + toggle_lines(before, inventory_id as int));
            return UseResult::Cancelled;
        },
    };
    if equipment.equipped {
        game.inventory[inventory_id].dequip(&mut game.log);
        assert(game@.inventory =~= toggled(before, inventory_id as int));
    } else {
        proof {
            lemma_first_in_slot(before, equipment.slot);
        }
        if let Some(old_equipment) = get_equipped_in_slot(equipment.slot, game) {
            assert(before[old_equipment as int] == game.inventory[old_equipment as int]@);
            game.inventory[old_equipment].dequip(&mut game.log);
            assert(game@.inventory =~= slot_cleared(before, equipment.slot));
        }
        assert(game@.inventory =~= slot_cleared(before, equipment.slot));
        assert(game@.log =~= old(game)@.log + slot_cleared_lines(before, equipment.slot));
        game.inventory[inventory_id].equip(&mut game.log);
        assert(game@.inventory =~= toggled(before, inventory_id as int));
        assert(game@.log =~= old(game)@.log + toggle_lines(before, inventory_id as int));
    }
    UseResult::UsedAndKept
}

/// Whether the inventory has no room for another item.
pub open spec fn is_full(inventory: Seq<Entity>) -> bool {
    inventory.len() >= INVENTORY_CAPACITY
}

/// The objects of the dungeon after the one at `id` is picked up: the last
/// object takes its place. A full inventory picks nothing up.
pub open spec fn ground_after_pickup(objects: Seq<Entity>, inventory: Seq<Entity>, id: int) -> Seq<
    Entity,
> {
    if is_full(inventory) {
        objects
    } else {
        objects.update(id, objects.last()).drop_last()
    }
}

/// Whether an item that has just come into the inventory, at its end, is
/// put on at once: it is a piece of equipment and nothing is worn in its
/// slot, the item itself counted.
pub open spec fn put_on_at_once(inventory: Seq<Entity>, item: Entity) -> bool {
    item.equipment is Some && first_in_slot(inventory.push(item), item.equipment->0.slot) is None
}

/// The inventory after `item` is picked up: it comes last, and is put on
/// at once where its slot is free.
pub open spec fn inventory_after_pickup(inventory: Seq<Entity>, item: Entity) -> Seq<Entity> {
    if is_full(inventory) {
        inventory
    } else if put_on_at_once(inventory, item) {
        inventory.push(after_equip(item))
    } else {
        inventory.push(item)
    }
}

/// The lines that picking `item` up adds to the log.
pub open spec fn pickup_lines(inventory: Seq<Entity>, item: Entity) -> Seq<Line> {
    if is_full(inventory) {
        seq![("Your inventory is full, cannot pick up "@ + item.name, spec_red())]
    } else if put_on_at_once(inventory, item) {
        seq![("You picked up a "@ + item.name + "!"@, spec_green())] + equip_lines(item)
    } else {
        seq![("You picked up a "@ + item.name + "!"@, spec_green())]
    }
}

/// Moves the object at `object_id` from the dungeon into the inventory and
/// logs it. A piece of equipment whose slot is free is put on at once.
/// With a full inventory the object stays where it is, and that is logged.
pub fn pick_item_up(object_id: usize, objects: &mut Vec<GameObject>, game: &mut Game)
    requires
        object_id < old(objects).len(),
    ensures
        entities(final(objects)@) == ground_after_pickup(
            entities(old(objects)@),
            old(game)@.inventory,
            object_id as int,
        ),
        final(game)@ == (Session {
            inventory: inventory_after_pickup(
                old(game)@.inventory,
                old(objects)[object_id as int]@,
            ),
            log: old(game)@.log + pickup_lines(
                old(game)@.inventory,
                old(objects)[object_id as int]@,
            ),
            ..old(game)@
        }),
{
    let ghost picked = objects[object_id as int]@;
    let ghost inventory0 = game@.inventory;
    if game.inventory.len() >= INVENTORY_CAPACITY {
        let mut text = String::from_str("Your inventory is full, cannot pick up ");
        text.append(objects[object_id].name.as_str());
        game.log.add(text.as_str(), red());
        assert(game@.log =~= old(game)@.log + pickup_lines(inventory0, picked));
    } else {
        let item = objects.swap_remove(object_id);
        assert(entities(objects@) =~= ground_after_pickup(
            entities(old(objects)@),
            inventory0,
            object_id as int,
        ));
        let mut text = String::from_str("You picked up a ");
        text.append(item.name.as_str());
        text.append("!");
        game.log.add(text.as_str(), green());
        let index = game.inventory.len();
        let slot = match item.equipment {
            Some(equipment) => Some(equipment.slot),
            None => None,
        };
        game.inventory.push(item);
        assert(game@.inventory =~= inventory0.push(picked));
        if let Some(slot) = slot {
            if get_equipped_in_slot(slot, game).is_none() {
                game.inventory[index].equip(&mut game.log);
                assert(game@.inventory =~= inventory0.push(after_equip(picked)));
            }
        }
        assert(game@.log =~= old(game)@.log + pickup_lines(inventory0, picked));
    }
}

/// The item as it lies on the ground after it is dropped at `(x, y)`: a
/// piece of equipment is taken off first.
pub open spec fn dropped(item: Entity, x: i32, y: i32) -> Entity {
    if item.equipment is Some {
        Entity { x, y, ..after_dequip(item) }
    } else {
        Entity { x, y, ..item }
    }
}

/// The lines that dropping `item` adds to the log.
pub open spec fn drop_lines(item: Entity) -> Seq<Line> {
    if item.equipment is Some {
        dequip_lines(item) + seq![("You dropped a "@ + item.name, spec_yellow())]
    } else {
        seq![("You dropped a "@ + item.name, spec_yellow())]
    }
}

/// Moves the item at `inventory_id` from the inventory to the cell of the
/// player, as the last object of the dungeon, and logs it. A piece of
/// equipment is taken off first.
pub fn drop_item(inventory_id: usize, game: &mut Game, objects: &mut Vec<GameObject>)
    requires
        inventory_id < old(game).inventory.len(),
        old(objects).len() > PLAYER,
    ensures
        entities(final(objects)@) == entities(old(objects)@).push(
            dropped(
                old(game)@.inventory[inventory_id as int],
                old(objects)[PLAYER as int].x,
                old(objects)[PLAYER as int].y,
            ),
        ),
        final(game)@ == (Session {
            inventory: old(game)@.inventory.remove(inventory_id as int),
            log: old(game)@.log + drop_lines(old(game)@.inventory[inventory_id as int]),
            ..old(game)@
        }),
{
    let ghost before = game@.inventory[inventory_id as int];
    assert(before == game.inventory[inventory_id as int]@);
    let mut item = game.inventory.remove(inventory_id);
    assert(game@.inventory =~= old(game)@.inventory.remove(inventory_id as int));
    if item.equipment.is_some() {
        item.dequip(&mut game.log);
    }
    item.set_pos(objects[PLAYER].x, objects[PLAYER].y);
    let mut text = String::from_str("You dropped a ");
    text.append(item.name.as_str());
    game.log.add(text.as_str(), yellow());
    assert(game@.log =~= old(game)@.log + drop_lines(before));
    objects.push(item);
    assert(entities(objects@) =~= entities(old(objects)@).push(
        dropped(before, old(objects)[PLAYER as int].x, old(objects)[PLAYER as int].y),
    ));
}

/// Whether the effect of an item of the given kind can be worked.
pub open spec fn can_work(
    item: Item,
    objects: Seq<Entity>,
    session: Session,
    fov: FovMap,
    target: Target,
) -> bool {
    match item {
        Item::Heal => can_cast_heal(objects, session.inventory),
        Item::Lightning => can_cast_lightning(objects, fov),
        Item::Confuse => target.monster() is Some ==> target.monster()->0 < objects.len(),
        Item::Fireball => can_cast_fireball(objects, target.tile()),
        Item::Sword | Item::Shield => true,
    }
}

/// How the effect of the item at `id` of the inventory ends.
pub open spec fn effect_result(
    item: Item,
    objects: Seq<Entity>,
    session: Session,
    fov: FovMap,
    id: int,
    target: Target,
) -> UseResult {
    match item {
        Item::Heal => heal_result(objects, session.inventory),
        Item::Lightning => lightning_result(objects, fov),
        Item::Confuse => confuse_result(target.monster()),
        Item::Fireball => fireball_result(target.tile()),
        Item::Sword | Item::Shield => if session.inventory[id].equipment is Some {
            UseResult::UsedAndKept
        } else {
            UseResult::Cancelled
        },
    }
}

/// The objects after the effect of an item of the given kind.
pub open spec fn effect_objects(
    item: Item,
    objects: Seq<Entity>,
    session: Session,
    fov: FovMap,
    target: Target,
) -> Seq<Entity> {
    match item {
        Item::Heal => after_heal(objects, session.inventory),
        Item::Lightning => after_lightning(objects, fov),
        Item::Confuse => after_confuse(objects, target.monster()),
        Item::Fireball => after_fireball_on(objects, target.tile()),
        Item::Sword | Item::Shield => objects,
    }
}

/// The lines that the effect of the item at `id` of the inventory adds to
/// the log.
pub open spec fn effect_lines(
    item: Item,
    objects: Seq<Entity>,
    session: Session,
    fov: FovMap,
    id: int,
    target: Target,
) -> Seq<Line> {
    match item {
        Item::Heal => heal_lines(objects, session.inventory),
        Item::Lightning => lightning_lines(objects, fov),
        Item::Confuse => confuse_lines(objects, target.monster()),
        Item::Fireball => fireball_lines(objects, target.tile()),
        Item::Sword | Item::Shield => toggle_lines(session.inventory, id),
    }
}

/// The inventory after the effect of the item at `id`.
pub open spec fn effect_inventory(item: Item, inventory: Seq<Entity>, id: int) -> Seq<Entity> {
    match item {
        Item::Sword | Item::Shield => toggled(inventory, id),
        _ => inventory,
    }
}

/// Whether the item at `id` of the inventory can be used.
pub open spec fn can_use(
    objects: Seq<Entity>,
    session: Session,
    fov: FovMap,
    id: int,
    target: Target,
) -> bool {
    &&& 0 <= id < session.inventory.len()
    &&& match session.inventory[id].item {
        Some(item) => can_work(item, objects, session, fov, target),
        None => true,
    }
}

/// The objects after the item at `id` of the inventory is used.
pub open spec fn objects_after_use(
    objects: Seq<Entity>,
    session: Session,
    fov: FovMap,
    id: int,
    target: Target,
) -> Seq<Entity> {
    match session.inventory[id].item {
        Some(item) => effect_objects(item, objects, session, fov, target),
        None => objects,
    }
}

/// The session after the item at `id` of the inventory is used: an item
/// that was used up has left the inventory; one that was kept is still
/// there; for one that cancelled, that is logged. Something that is no
/// item cannot be used, which is logged.
pub open spec fn session_after_use(
    objects: Seq<Entity>,
    session: Session,
    fov: FovMap,
    id: int,
    target: Target,
) -> Session {
    match session.inventory[id].item {
        Some(item) => {
            let inventory = effect_inventory(item, session.inventory, id);
            let log = session.log + effect_lines(item, objects, session, fov, id, target);
            match effect_result(item, objects, session, fov, id, target) {
                UseResult::UsedUp => Session { inventory: inventory.remove(id), log, ..session },
                UseResult::UsedAndKept => Session { inventory, log, ..session },
                UseResult::Cancelled => Session {
                    inventory,
                    log: log.push(("Cancelled"@, spec_white())),
                    ..session
                },
            }
        },
        None => Session {
            log: session.log.push(
                ("The "@ + session.inventory[id].name + " cannot be used."@, spec_white()),
            ),
            ..session
        },
    }
}

/// Uses the item at `inventory_id`, on the target that the player chose
/// where the item asks for one: a potion or a scroll works its effect, a
/// sword or a shield is put on or taken off.
pub fn use_item(
    inventory_id: usize,
    objects: &mut Vec<GameObject>,
    fov: &FovMap,
    game: &mut Game,
    target: Target,
)
    requires
        can_use(entities(old(objects)@), old(game)@, *fov, inventory_id as int, target),
    ensures
        entities(final(objects)@) == objects_after_use(
            entities(old(objects)@),
            old(game)@,
            *fov,
            inventory_id as int,
            target,
        ),
        final(game)@ == session_after_use(
            entities(old(objects)@),
            old(game)@,
            *fov,
            inventory_id as int,
            target,
        ),
{
    assert(game@.inventory[inventory_id as int] == game.inventory[inventory_id as int]@);
    if let Some(item) = game.inventory[inventory_id].item {
        let result = match item {
            Item::Heal => cast_heal(inventory_id, objects, game),
            Item::Lightning => cast_lightning(inventory_id, objects, game, fov),
            Item::Confuse => cast_confuse(inventory_id, objects, game, target.monster()),
            Item::Fireball => cast_fireball(inventory_id, objects, game, target.tile()),
            Item::Sword => toggle_equipment(inventory_id, objects, game),
            Item::Shield => toggle_equipment(inventory_id, objects, game),
        };
        proof {
            lemma_toggled_len(old(game)@.inventory, inventory_id as int);
        }
        assert(game@.inventory == effect_inventory(
            item,
            old(game)@.inventory,
            inventory_id as int,
        ));
        assert(game.inventory@.len() == game@.inventory.len());
        match result {
            UseResult::UsedUp => {
                game.inventory.remove(inventory_id);
                assert(game@.inventory =~= effect_inventory(
                    item,
                    old(game)@.inventory,
                    inventory_id as int,
                ).remove(inventory_id as int));
            },
            UseResult::UsedAndKept => {},
            UseResult::Cancelled => {
                game.log.add("Cancelled", white());
            },
        }
    } else {
        let mut text = String::from_str("The ");
        text.append(game.inventory[inventory_id].name.as_str());
        text.append(" cannot be used.");
        game.log.add(text.as_str(), white());
    }
}

/// Whether the item at `inventory_id` of the inventory can be used.
pub fn use_is_safe(
    inventory_id: usize,
    objects: &Vec<GameObject>,
    fov: &FovMap,
    game: &Game,
    target: Target,
) -> (b: bool)
    ensures
        b == can_use(entities(objects@), game@, *fov, inventory_id as int, target),
{
    if inventory_id >= game.inventory.len() {
        return false;
    }
    assert(game@.inventory[inventory_id as int] == game.inventory[inventory_id as int]@);
    match game.inventory[inventory_id].item {
        Some(Item::Heal) => heal_is_safe(objects, game),
        Some(Item::Lightning) => lightning_is_safe(objects, fov),
        Some(Item::Confuse) => match target.monster() {
            Some(id) => id < objects.len(),
            None => true,
        },
        Some(Item::Fireball) => fireball_is_safe(objects, target.tile()),
        Some(Item::Sword) => true,
        Some(Item::Shield) => true,
        None => true,
    }
}

/// Picking up an item that is not worn keeps the inventory with no two
/// worn items in one slot: the item is put on only where nothing is worn
/// in its slot.
pub proof fn lemma_pickup_keeps_one_per_slot(inventory: Seq<Entity>, item: Entity)
    requires
        one_per_slot(inventory),
        !worn(item),
    ensures
        one_per_slot(inventory_after_pickup(inventory, item)),
{
    let after = inventory_after_pickup(inventory, item);
    if !is_full(inventory) {
        if put_on_at_once(inventory, item) {
            let grown = inventory.push(item);
            lemma_first_in_slot(grown, item.equipment->0.slot);
            assert forall|i: int, j: int|
                0 <= i < j < after.len() && worn(#[trigger] after[i]) && worn(
                    #[trigger] after[j],
                ) implies after[i].equipment->0.slot != after[j].equipment->0.slot by {
                assert(grown[i] == inventory[i]);
                if j < inventory.len() {
                    assert(worn(inventory[i]) && worn(inventory[j]));
                } else {
                    assert(!in_slot(grown[i], item.equipment->0.slot));
                }
            }
        } else {
            assert forall|i: int, j: int|
                0 <= i < j < after.len() && worn(#[trigger] after[i]) && worn(
                    #[trigger] after[j],
                ) implies after[i].equipment->0.slot != after[j].equipment->0.slot by {
                assert(worn(inventory[i]) && worn(inventory[j]));
            }
        }
    }
}

/// Taking an item out of the inventory, to drop it or because it is used
/// up, keeps the inventory with no two worn items in one slot.
pub proof fn lemma_remove_keeps_one_per_slot(inventory: Seq<Entity>, id: int)
    requires
        0 <= id < inventory.len(),
        one_per_slot(inventory),
    ensures
        one_per_slot(inventory.remove(id)),
{
    let after = inventory.remove(id);
    assert forall|i: int, j: int|
        0 <= i < j < after.len() && worn(#[trigger] after[i]) && worn(
            #[trigger] after[j],
        ) implies after[i].equipment->0.slot != after[j].equipment->0.slot by {
        let from_i = if i < id {
            i
        } else {
            i + 1
        };
        let from_j = if j < id {
            j
        } else {
            j + 1
        };
        assert(after[i] == inventory[from_i]);
        assert(after[j] == inventory[from_j]);
        assert(worn(inventory[from_i]) && worn(inventory[from_j]));
    }
}

} // verus!
