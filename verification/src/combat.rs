//! Fighting: the statistics that equipment raises, damage, death, attacks
//! and healing.

use vstd::prelude::*;
use vstd::string::*;
use crate::color::{dark_red, orange, red, spec_dark_red, spec_orange, spec_red, spec_white, white};
use crate::entity::{
    DeathCallback, Entity, Equipment, Fighter, Game, GameObject, Line, MessageLog, Session,
    entities,
};
use crate::text::{append_decimal, decimal};

verus! {

/// The three statistics that equipment can raise.
#[derive(Clone, Copy, Debug, PartialEq, Eq, Structural)]
pub enum Stat {
    Power,
    Defense,
    MaxHp,
}

/// Whether an entity is the player: it bears the player's name.
pub open spec fn is_player(e: Entity) -> bool {
    e.name == "Player"@
}

/// Whether an item is a piece of equipment that is worn.
pub open spec fn worn(item: Entity) -> bool {
    item.equipment is Some && item.equipment->0.equipped
}

/// The worn pieces of equipment in an inventory, in its order.
pub open spec fn all_equipped(inventory: Seq<Entity>) -> Seq<Equipment>
    decreases inventory.len(),
{
    if inventory.len() == 0 {
        seq![]
    } else if worn(inventory.last()) {
        all_equipped(inventory.drop_last()).push(inventory.last().equipment->0)
    } else {
        all_equipped(inventory.drop_last())
    }
}

/// The equipment whose bonuses count for `e`: what is worn in the
/// inventory for the player, nothing for anyone else.
pub open spec fn equipped_by(e: Entity, inventory: Seq<Entity>) -> Seq<Equipment> {
    if is_player(e) {
        all_equipped(inventory)
    } else {
        seq![]
    }
}

/// What one piece of equipment adds to a statistic.
pub open spec fn bonus(equipment: Equipment, stat: Stat) -> int {
    match stat {
        Stat::Power => equipment.power_bonus as int,
        Stat::Defense => equipment.defense_bonus as int,
        Stat::MaxHp => equipment.hp_bonus as int,
    }
}

/// The sum of the bonuses of some pieces of equipment.
pub open spec fn total_bonus(equipment: Seq<Equipment>, stat: Stat) -> int
    decreases equipment.len(),
{
    if equipment.len() == 0 {
        0
    } else {
        total_bonus(equipment.drop_last(), stat) + bonus(equipment.last(), stat)
    }
}

/// The statistic of the fighter itself; zero for an entity that cannot fight.
pub open spec fn base(e: Entity, stat: Stat) -> int {
    match e.fighter {
        Some(f) => match stat {
            Stat::Power => f.base_power as int,
            Stat::Defense => f.base_defense as int,
            Stat::MaxHp => f.base_max_hp as int,
        },
        None => 0,
    }
}

/// The statistic with equipment counted in.
pub open spec fn effective(e: Entity, inventory: Seq<Entity>, stat: Stat) -> int {
    base(e, stat) + total_bonus(equipped_by(e, inventory), stat)
}

/// Whether a number fits the machine's signed 32-bit integers.
pub open spec fn fits(n: int) -> bool {
    i32::MIN <= n <= i32::MAX
}

proof fn lemma_total_bonus_bound(equipment: Seq<Equipment>, stat: Stat)
    ensures
        -0x8000_0000 * equipment.len() <= total_bonus(equipment, stat) <= 0x8000_0000
            * equipment.len(),
    decreases equipment.len(),
{
    if equipment.len() > 0 {
        lemma_total_bonus_bound(equipment.drop_last(), stat);
    }
}

fn bonus_of(equipment: &Equipment, stat: Stat) -> (b: i32)
    ensures
        b == bonus(*equipment, stat),
{
    match stat {
        Stat::Power => equipment.power_bonus,
        Stat::Defense => equipment.defense_bonus,
        Stat::MaxHp => equipment.hp_bonus,
    }
}

impl GameObject {
    /// The worn equipment whose bonuses count for this object.
    pub fn get_all_equipped(&self, game: &Game) -> (worn_items: Vec<Equipment>)
        ensures
            worn_items@ == equipped_by(self@, game@.inventory),
    {
        let mut worn_items: Vec<Equipment> = Vec::new();
        if self.name == String::from_str("Player") {
            let mut i: usize = 0;
            while i < game.inventory.len()
                invariant
                    i <= game.inventory.len(),
                    worn_items@ == all_equipped(entities(game.inventory@).take(i as int)),
                decreases game.inventory.len() - i,
            {
                proof {
                    let next = entities(game.inventory@).take(i + 1);
                    assert(next.drop_last() =~= entities(game.inventory@).take(i as int));
                    assert(next.last() == game.inventory[i as int]@);
                }
                if let Some(equipment) = game.inventory[i].equipment {
                    if equipment.equipped {
                        worn_items.push(equipment);
                    }
                }
                i += 1;
            }
            assert(entities(game.inventory@).take(i as int) =~= entities(game.inventory@));
        }
        worn_items
    }

    /// A statistic with equipment counted in, whatever its size.
    pub fn wide_stat(&self, game: &Game, stat: Stat) -> (value: i128)
        ensures
            value == effective(self@, game@.inventory, stat),
    {
        let base_value: i32 = match self.fighter {
            Some(f) => match stat {
                Stat::Power => f.base_power,
                Stat::Defense => f.base_defense,
                Stat::MaxHp => f.base_max_hp,
            },
            None => 0,
        };
        let worn_items = self.get_all_equipped(game);
        let mut sum: i128 = 0;
        let mut i: usize = 0;
        while i < worn_items.len()
            invariant
                i <= worn_items.len(),
                sum == total_bonus(worn_items@.take(i as int), stat),
            decreases worn_items.len() - i,
        {
            proof {
                assert(worn_items@.take(i + 1).drop_last() =~= worn_items@.take(i as int));
                lemma_total_bonus_bound(worn_items@.take(i as int), stat);
            }
            sum = sum + bonus_of(&worn_items[i], stat) as i128;
            i += 1;
        }
        assert(worn_items@.take(i as int) =~= worn_items@);
        proof {
            lemma_total_bonus_bound(worn_items@, stat);
        }
        base_value as i128 + sum
    }

    fn stat(&self, game: &Game, stat: Stat) -> (value: i32)
        requires
            fits(effective(self@, game@.inventory, stat)),
        ensures
            value == effective(self@, game@.inventory, stat),
    {
        self.wide_stat(game, stat) as i32
    }

    /// The power with which the object attacks.
    pub fn power(&self, game: &Game) -> (value: i32)
        requires
            fits(effective(self@, game@.inventory, Stat::Power)),
        ensures
            value == effective(self@, game@.inventory, Stat::Power),
    {
        self.stat(game, Stat::Power)
    }

    /// The defense that is taken off an attack on the object.
    pub fn defense(&self, game: &Game) -> (value: i32)
        requires
            fits(effective(self@, game@.inventory, Stat::Defense)),
        ensures
            value == effective(self@, game@.inventory, Stat::Defense),
    {
        self.stat(game, Stat::Defense)
    }

    /// The most hit points that the object can have.
    pub fn max_hp(&self, game: &Game) -> (value: i32)
        requires
            fits(effective(self@, game@.inventory, Stat::MaxHp)),
        ensures
            value == effective(self@, game@.inventory, Stat::MaxHp),
    {
        self.stat(game, Stat::MaxHp)
    }
}

/// The entity after `damage` is taken off its hit points, before it is
/// looked at for death. Only a fighter is hurt, and only by positive damage.
pub open spec fn wounded(e: Entity, damage: int) -> Entity {
    match e.fighter {
        Some(f) if damage > 0 => Entity {
            fighter: Some(Fighter { hp: (f.hp - damage) as i32, ..f }),
            ..e
        },
        _ => e,
    }
}

/// Whether the entity dies of taking `damage`: it is a fighter that has
/// hit points left and that the damage leaves without. A fighter that has
/// none left is dead already and does not die again.
pub open spec fn dies(e: Entity, damage: int) -> bool {
    &&& e.fighter is Some
    &&& e.fighter->0.hp > 0
    &&& wounded(e, damage).fighter->0.hp <= 0
}

/// What is left of the player: a corpse that keeps its statistics.
pub open spec fn player_corpse(e: Entity) -> Entity {
    Entity { char: '%', color: spec_dark_red(), name: "Corpse of player"@, ..e }
}

/// What is left of a monster: scenery that neither blocks, fights nor acts.
pub open spec fn monster_corpse(e: Entity) -> Entity {
    Entity {
        char: '%',
        color: spec_dark_red(),
        blocks: false,
        fighter: None,
        ai: None,
        name: "Remains of "@ + e.name,
        ..e
    }
}

/// The log line for the death of a fighter.
pub open spec fn death_line(e: Entity) -> Line
    recommends
        e.fighter is Some,
{
    match e.fighter->0.on_death {
        DeathCallback::Player => ("You died!"@, spec_red()),
        DeathCallback::Monster => (
            e.name + " is dead! You gain "@ + decimal(e.fighter->0.xp as int)
                + " experience points."@,
            spec_orange(),
        ),
    }
}

/// The corpse that a dead fighter turns into.
pub open spec fn corpse(e: Entity) -> Entity
    recommends
        e.fighter is Some,
{
    match e.fighter->0.on_death {
        DeathCallback::Player => player_corpse(Entity { alive: false, ..e }),
        DeathCallback::Monster => monster_corpse(Entity { alive: false, ..e }),
    }
}

/// The entity after it has taken `damage`, death included.
pub open spec fn after_damage(e: Entity, damage: int) -> Entity {
    if dies(e, damage) {
        corpse(wounded(e, damage))
    } else {
        wounded(e, damage)
    }
}

/// The lines that taking `damage` adds to the log.
pub open spec fn damage_lines(e: Entity, damage: int) -> Seq<Line> {
    if dies(e, damage) {
        seq![death_line(wounded(e, damage))]
    } else {
        seq![]
    }
}

/// The experience that taking `damage` yields: that of a fighter who dies.
pub open spec fn damage_xp(e: Entity, damage: int) -> Option<i32> {
    if dies(e, damage) {
        Some(wounded(e, damage).fighter->0.xp)
    } else {
        None
    }
}

/// Whether `damage` can be taken off the entity's hit points within the
/// machine's integers.
pub open spec fn can_take(e: Entity, damage: int) -> bool {
    e.fighter is Some && damage > 0 ==> fits(e.fighter->0.hp - damage)
}

/// The damage of an attack: the attacker's power less the target's defense.
pub open spec fn attack_damage(attacker: Entity, target: Entity, inventory: Seq<Entity>) -> int {
    effective(attacker, inventory, Stat::Power) - effective(target, inventory, Stat::Defense)
}

/// The log line of an attack that does `damage`.
pub open spec fn attack_line(attacker: Entity, target: Entity, damage: int) -> Line {
    if damage > 0 {
        (
            attacker.name + " attacks "@ + target.name + " for "@ + decimal(damage)
                + " hit points"@,
            spec_white(),
        )
    } else {
        (attacker.name + " attacks "@ + target.name + " but it has no effect!"@, spec_white())
    }
}

/// The lines that an attack adds to the log.
pub open spec fn attack_lines(attacker: Entity, target: Entity, inventory: Seq<Entity>) -> Seq<
    Line,
> {
    let damage = attack_damage(attacker, target, inventory);
    if damage > 0 {
        seq![attack_line(attacker, target, damage)] + damage_lines(target, damage)
    } else {
        seq![attack_line(attacker, target, damage)]
    }
}

/// The target after the attack: it takes the damage if that is positive.
pub open spec fn target_after(attacker: Entity, target: Entity, inventory: Seq<Entity>) -> Entity {
    let damage = attack_damage(attacker, target, inventory);
    if damage > 0 {
        after_damage(target, damage)
    } else {
        target
    }
}

/// The experience that an attack yields: that of a target that dies of it.
pub open spec fn attack_xp(attacker: Entity, target: Entity, inventory: Seq<Entity>) -> Option<
    i32,
> {
    let damage = attack_damage(attacker, target, inventory);
    if damage > 0 {
        damage_xp(target, damage)
    } else {
        None
    }
}

/// The entity with `xp` added to its experience.
pub open spec fn with_xp(e: Entity, xp: int) -> Entity
    recommends
        e.fighter is Some,
{
    Entity { fighter: Some(Fighter { xp: (e.fighter->0.xp + xp) as i32, ..e.fighter->0 }), ..e }
}

/// The attacker after the attack: it gains the experience of a target that
/// dies.
pub open spec fn attacker_after(
    attacker: Entity,
    target: Entity,
    inventory: Seq<Entity>,
) -> Entity {
    match attack_xp(attacker, target, inventory) {
        Some(xp) => with_xp(attacker, xp as int),
        None => attacker,
    }
}

/// Whether an attack stays within the machine's integers and finds a
/// fighter to credit with a kill.
pub open spec fn can_attack(attacker: Entity, target: Entity, inventory: Seq<Entity>) -> bool {
    let damage = attack_damage(attacker, target, inventory);
    &&& fits(effective(attacker, inventory, Stat::Power))
    &&& fits(effective(target, inventory, Stat::Defense))
    &&& fits(damage)
    &&& can_take(target, damage)
    &&& match attack_xp(attacker, target, inventory) {
        Some(xp) => attacker.fighter is Some && fits(attacker.fighter->0.xp + xp),
        None => true,
    }
}

/// The entity after healing by `amount`: its hit points rise, up to
/// `max_hp` at most.
pub open spec fn healed(e: Entity, amount: int, max_hp: int) -> Entity {
    match e.fighter {
        Some(f) => Entity {
            fighter: Some(
                Fighter {
                    hp: if f.hp + amount > max_hp {
                        max_hp as i32
                    } else {
                        (f.hp + amount) as i32
                    },
                    ..f
                },
            ),
            ..e
        },
        None => e,
    }
}

fn player_death(player: &mut GameObject, game: &mut Game)
    ensures
        final(player)@ == player_corpse(old(player)@),
        final(game)@ == (Session {
            log: old(game)@.log.push(("You died!"@, spec_red())),
            ..old(game)@
        }),
{
    game.log.add("You died!", red());
    player.char = '%';
    player.color = dark_red();
    player.name = String::from_str("Corpse of player");
}

fn monster_death(monster: &mut GameObject, game: &mut Game)
    requires
        old(monster).fighter is Some,
        old(monster).fighter->0.on_death == DeathCallback::Monster,
    ensures
        final(monster)@ == monster_corpse(old(monster)@),
        final(game)@ == (Session {
            log: old(game)@.log.push(death_line(old(monster)@)),
            ..old(game)@
        }),
{
    let xp: i32 = match monster.fighter {
        Some(f) => f.xp,
        None => 0,
    };
    let mut text = monster.name.clone();
    text.append(" is dead! You gain ");
    append_decimal(&mut text, xp as i64);
    text.append(" experience points.");
    game.log.add(text.as_str(), orange());
    monster.char = '%';
    monster.color = dark_red();
    monster.blocks = false;
    monster.fighter = None;
    monster.ai = None;
    let mut name = String::from_str("Remains of ");
    name.append(monster.name.as_str());
    monster.name = name;
}

impl GameObject {
    /// Takes `damage` off the hit points of a fighter. A fighter that had
    /// hit points left and is left without dies: it is no longer alive, its
    /// death is logged, it turns into a corpse, and its experience is
    /// returned. That happens once: a fighter that is dead already takes
    /// the damage and nothing else follows.
    pub fn take_damage(&mut self, damage: i32, game: &mut Game) -> (xp: Option<i32>)
        requires
            can_take(old(self)@, damage as int),
        ensures
            final(self)@ == after_damage(old(self)@, damage as int),
            final(game)@ == (Session {
                log: old(game)@.log + damage_lines(old(self)@, damage as int),
                ..old(game)@
            }),
            xp == damage_xp(old(self)@, damage as int),
    {
        let had_hit_points = match self.fighter {
            Some(fighter) => fighter.hp > 0,
            None => false,
        };
        if let Some(ref mut fighter) = self.fighter {
            if damage > 0 {
                fighter.hp -= damage;
            }
        }
        assert(self@ == wounded(old(self)@, damage as int));
        if let Some(fighter) = self.fighter {
            if had_hit_points && fighter.hp <= 0 {
                self.alive = false;
                match fighter.on_death {
                    DeathCallback::Player => player_death(self, game),
                    DeathCallback::Monster => monster_death(self, game),
                }
                assert(game@.log =~= old(game)@.log + damage_lines(old(self)@, damage as int));
                return Some(fighter.xp);
            }
        }
        assert(game@.log =~= old(game)@.log + damage_lines(old(self)@, damage as int));
        None
    }

    /// Attacks `target`: the damage is this object's power less the
    /// target's defense. Positive damage is logged and taken by the target,
    /// and the experience of a target that dies goes to the attacker; other
    /// damage is logged as having no effect.
    pub fn attack(&mut self, target: &mut GameObject, game: &mut Game)
        requires
            can_attack(old(self)@, old(target)@, old(game)@.inventory),
        ensures
            final(self)@ == attacker_after(old(self)@, old(target)@, old(game)@.inventory),
            final(target)@ == target_after(old(self)@, old(target)@, old(game)@.inventory),
            final(game)@ == (Session {
                log: old(game)@.log + attack_lines(
                    old(self)@,
                    old(target)@,
                    old(game)@.inventory,
                ),
                ..old(game)@
            }),
    {
        let damage: i32 = self.power(game) - target.defense(game);
        let mut text = self.name.clone();
        text.append(" attacks ");
        text.append(target.name.as_str());
        if damage > 0 {
            text.append(" for ");
            append_decimal(&mut text, damage as i64);
            text.append(" hit points");
            game.log.add(text.as_str(), white());
            let ghost hit = attack_line(old(self)@, old(target)@, damage as int);
            assert(game@.log == old(game)@.log.push(hit));
            if let Some(xp) = target.take_damage(damage, game) {
                if let Some(ref mut fighter) = self.fighter {
                    fighter.xp += xp;
                }
            }
            assert(game@.log =~= old(game)@.log + (seq![hit] + damage_lines(
                old(target)@,
                damage as int,
            )));
        } else {
            text.append(" but it has no effect!");
            game.log.add(text.as_str(), white());
            assert(game@.log =~= old(game)@.log + seq![
                attack_line(old(self)@, old(target)@, damage as int),
            ]);
        }
    }

    /// Restores `amount` hit points to a fighter, up to its most.
    pub fn heal(&mut self, amount: i32, game: &Game)
        requires
            fits(effective(old(self)@, game@.inventory, Stat::MaxHp)),
            old(self).fighter is Some ==> fits(old(self).fighter->0.hp + amount),
        ensures
            final(self)@ == healed(
                old(self)@,
                amount as int,
                effective(old(self)@, game@.inventory, Stat::MaxHp),
            ),
            final(self).fighter is Some ==> final(self).fighter->0.hp <= effective(
                final(self)@,
                game@.inventory,
                Stat::MaxHp,
            ),
    {
        let max_hp = self.max_hp(game);
        if let Some(ref mut fighter) = self.fighter {
            fighter.hp += amount;
            if fighter.hp > max_hp {
                fighter.hp = max_hp;
            }
        }
    }
}

/// Whether a number fits the machine's signed 32-bit integers.
pub fn is_small(n: i128) -> (b: bool)
    ensures
        b == fits(n as int),
{
    -2147483648 <= n && n <= 2147483647
}

impl GameObject {
    /// Whether `damage` can be taken off the hit points within the
    /// machine's integers.
    pub fn can_take_damage(&self, damage: i32) -> (b: bool)
        ensures
            b == can_take(self@, damage as int),
    {
        match self.fighter {
            Some(f) => damage <= 0 || is_small(f.hp as i128 - damage as i128),
            None => true,
        }
    }

    /// Whether an attack on `target` stays within the machine's integers
    /// and finds a fighter to credit with a kill.
    pub fn can_attack(&self, target: &GameObject, game: &Game) -> (b: bool)
        ensures
            b == can_attack(self@, target@, game@.inventory),
    {
        let power = self.wide_stat(game, Stat::Power);
        let defense = target.wide_stat(game, Stat::Defense);
        if !is_small(power) || !is_small(defense) || !is_small(power - defense) {
            return false;
        }
        let damage: i32 = (power - defense) as i32;
        if !target.can_take_damage(damage) {
            return false;
        }
        if damage <= 0 {
            return true;
        }
        match target.fighter {
            Some(f) => if f.hp > 0 && f.hp as i128 - damage as i128 <= 0 {
                match self.fighter {
                    Some(mine) => is_small(mine.xp as i128 + f.xp as i128),
                    None => false,
                }
            } else {
                true
            },
            None => true,
        }
    }

    /// Whether healing by `amount` stays within the machine's integers.
    pub fn can_heal(&self, amount: i32, game: &Game) -> (b: bool)
        ensures
            b == (fits(effective(self@, game@.inventory, Stat::MaxHp)) && (self.fighter is Some
                ==> fits(self.fighter->0.hp + amount))),
    {
        if !is_small(self.wide_stat(game, Stat::MaxHp)) {
            return false;
        }
        match self.fighter {
            Some(f) => is_small(f.hp as i128 + amount as i128),
            None => true,
        }
    }
}

/// Healing never leaves a fighter with more hit points than its most,
/// equipment counted in, and does not change that most.
pub proof fn lemma_heal_keeps_to_the_most(e: Entity, amount: int, inventory: Seq<Entity>)
    requires
        e.fighter is Some,
        fits(effective(e, inventory, Stat::MaxHp)),
        fits(e.fighter->0.hp + amount),
    ensures
        ({
            let after = healed(e, amount, effective(e, inventory, Stat::MaxHp));
            &&& after.fighter is Some
            &&& after.fighter->0.hp <= effective(after, inventory, Stat::MaxHp)
            &&& effective(after, inventory, Stat::MaxHp) == effective(e, inventory, Stat::MaxHp)
        }),
{
}

/// The damage of an attack is the attacker's power less the target's
/// defense, and depends on nothing else: positive damage comes off the hit
/// points of a target that has some left, which dies of it where none are
/// left after, and with any other damage the target is as it was.
pub proof fn lemma_attack_damage(attacker: Entity, target: Entity, inventory: Seq<Entity>)
    requires
        target.fighter is Some,
        target.fighter->0.hp > 0,
        can_attack(attacker, target, inventory),
    ensures
        ({
            let damage = effective(attacker, inventory, Stat::Power) - effective(
                target,
                inventory,
                Stat::Defense,
            );
            let after = target_after(attacker, target, inventory);
            &&& damage <= 0 ==> after == target
            &&& damage > 0 && target.fighter->0.hp > damage ==> after == (Entity {
                fighter: Some(
                    Fighter { hp: (target.fighter->0.hp - damage) as i32, ..target.fighter->0 },
                ),
                ..target
            })
            &&& damage > 0 && target.fighter->0.hp <= damage ==> !after.alive && attack_xp(
                attacker,
                target,
                inventory,
            ) == Some(target.fighter->0.xp)
        }),
{
}

/// The player dies once: what is left of it keeps its fighter, but further
/// damage only lowers its hit points; it logs nothing, yields no experience
/// and leaves the corpse as it is.
pub proof fn lemma_player_dies_once(e: Entity, damage: int, further: int)
    requires
        e.fighter is Some,
        e.fighter->0.on_death == DeathCallback::Player,
        dies(e, damage),
    ensures
        ({
            let remains = after_damage(e, damage);
            &&& !remains.alive
            &&& remains.name == "Corpse of player"@
            &&& remains.fighter is Some
            &&& remains.fighter->0.hp <= 0
            &&& !dies(remains, further)
            &&& after_damage(remains, further) == wounded(remains, further)
            &&& damage_lines(remains, further) == Seq::<Line>::empty()
            &&& damage_xp(remains, further) is None
        }),
{
}

/// No fighter dies twice: after a death, further damage is no death.
pub proof fn lemma_death_is_final(e: Entity, damage: int, further: int)
    requires
        dies(e, damage),
    ensures
        !dies(after_damage(e, damage), further),
{
}

/// A monster dies once: what is left of it fights no more, so that further
/// damage changes nothing, logs nothing and yields no experience.
pub proof fn lemma_monster_dies_once(e: Entity, damage: int, further: int)
    requires
        e.fighter is Some,
        e.fighter->0.on_death == DeathCallback::Monster,
        dies(e, damage),
    ensures
        ({
            let remains = after_damage(e, damage);
            &&& !remains.alive
            &&& remains.fighter is None
            &&& remains.ai is None
            &&& !remains.blocks
            &&& after_damage(remains, further) == remains
            &&& damage_lines(remains, further) == Seq::<Line>::empty()
            &&& damage_xp(remains, further) is None
        }),
{
}

} // verus!
