use vstd::prelude::*;

verus! {

/// The named colors that entities are drawn in.
#[derive(Clone, Copy, Debug, PartialEq, Eq, Structural)]
pub enum Color {
    White,
    Red,
    DarkRed,
    Orange,
    DarkerOrange,
    LightOrange,
    Blue,
    DarkBlue,
    LightBlue,
    Sky,
    Violet,
    LightGreen,
}

#[derive(Clone, Copy, Debug, PartialEq, Eq, Structural)]
pub enum Item {
    HealPot,
    LightningScroll,
    ConfuseScroll,
    FireballScroll,
    Sword,
    Shield,
}

#[derive(Clone, Copy, Debug, PartialEq, Eq, Structural)]
pub enum Slot {
    Chest,
    Head,
    Hand,
    Ring,
}

/// How many items a slot holds.
pub fn num_in_slot(slot: Slot) -> (r: Option<usize>)
    ensures
        r == Some(match slot {
            Slot::Chest => 1usize,
            Slot::Head => 1usize,
            Slot::Hand => 2usize,
            Slot::Ring => 8usize,
        }),
{
    match slot {
        Slot::Chest => Some(1),
        Slot::Head => Some(1),
        Slot::Hand => Some(2),
        Slot::Ring => Some(8),
    }
}

/// Item `o` is equipment, equipped in `slot`.
pub open spec fn equipped_in(o: Object, slot: Slot) -> bool {
    o.equipment is Some && o.equipment->0.equipped && o.equipment->0.slot == slot
}

/// The inventory positions of the equipment equipped in `slot`, in order, or `None` when
/// the slot is empty.
pub fn get_equipped_in_slot(slot: Slot, inventory: &[Object]) -> (r: Option<Vec<usize>>)
    ensures
        r is None <==> forall|i: int| 0 <= i < inventory@.len() ==> !equipped_in(#[trigger] inventory@[i], slot),
        r is Some ==> {
            let ids = r->0@;
            &&& forall|k: int| 0 <= k < ids.len() ==> (#[trigger] ids[k]) < inventory@.len() && equipped_in(inventory@[ids[k] as int], slot)
            &&& forall|k: int, l: int| 0 <= k < l < ids.len() ==> #[trigger] ids[k] < #[trigger] ids[l]
            &&& forall|i: int| 0 <= i < inventory@.len() && equipped_in(#[trigger] inventory@[i], slot) ==> ids.contains(i as usize)
        },
{
    let mut ids: Vec<usize> = Vec::new();
    let mut i: usize = 0;
    while i < inventory.len()
        invariant
            i <= inventory@.len(),
            forall|k: int| 0 <= k < ids@.len() ==> (#[trigger] ids@[k]) < i && equipped_in(inventory@[ids@[k] as int], slot),
            forall|k: int, l: int| 0 <= k < l < ids@.len() ==> #[trigger] ids@[k] < #[trigger] ids@[l],
            forall|j: int| 0 <= j < i && equipped_in(#[trigger] inventory@[j], slot) ==> ids@.contains(j as usize),
        decreases inventory@.len() - i,
    {
        let hit: bool = match inventory[i].equipment {
            Some(e) => e.equipped && e.slot == slot,
            None => false,
        };
        if hit {
            let ghost before = ids@;
            ids.push(i);
            proof {
                assert forall|j: int| 0 <= j < i + 1 && equipped_in(#[trigger] inventory@[j], slot) implies ids@.contains(j as usize) by {
                    if j < i {
                        let k = choose|k: int| 0 <= k < before.len() && before[k] == j as usize;
                        assert(ids@[k] == j as usize);
                    } else {
                        assert(ids@[before.len() as int] == j as usize);
                    }
                }
            }
        }
        i = i + 1;
    }
    if ids.len() > 0 {
        assert(equipped_in(inventory@[ids@[0] as int], slot));
        Some(ids)
    } else {
        proof {
            assert forall|j: int| 0 <= j < inventory@.len() implies !equipped_in(#[trigger] inventory@[j], slot) by {
                if equipped_in(inventory@[j], slot) {
                    assert(ids@.contains(j as usize));
                }
            }
        }
        None
    }
}

/// An item that can be equipped, with the bonuses it gives.
#[derive(Clone, Copy, Debug, PartialEq, Eq, Structural)]
pub struct Equipment {
    pub slot: Slot,
    pub equipped: bool,
    pub max_hp_bonus: i32,
    pub defense_bonus: i32,
    pub power_bonus: i32,
}

#[derive(Debug, PartialEq, Eq)]
pub enum Ai {
    Basic,
    Confused { previous_ai: Box<Ai>, num_turns: i32 },
}

/// A copy of an AI, the AIs it wraps included.
pub fn copy_ai(a: &Ai) -> (r: Ai)
    ensures
        r == *a,
    decreases a,
{
    match a {
        Ai::Basic => Ai::Basic,
        Ai::Confused { previous_ai, num_turns } => {
            let inner: &Ai = previous_ai;
            Ai::Confused { previous_ai: Box::new(copy_ai(inner)), num_turns: *num_turns }
        },
    }
}

impl Clone for Ai {
    fn clone(&self) -> (r: Ai)
        ensures
            r == *self,
    {
        copy_ai(self)
    }
}

#[derive(Clone, Copy, Debug, PartialEq, Eq, Structural)]
pub enum DeathCallback {
    Player,
    Npc,
}

/// Combat-related properties of the player or an NPC.
#[derive(Debug, PartialEq, Eq)]
pub struct Fighter {
    pub hp: i32,
    pub base_max_hp: u32,
    pub base_defense: i32,
    pub base_power: i32,
    pub xp: i32,
    pub karma: i32,
    pub on_death: DeathCallback,
    pub inventory: Vec<Object>,
}

/// The equipment in `inv` that is equipped, in order.
pub open spec fn equipped_of(inv: Seq<Object>) -> Seq<Equipment>
    decreases inv.len(),
{
    if inv.len() == 0 {
        Seq::empty()
    } else {
        let rest = equipped_of(inv.drop_last());
        match inv.last().equipment {
            Some(e) => if e.equipped {
                rest.push(e)
            } else {
                rest
            },
            None => rest,
        }
    }
}

pub open spec fn power_bonus_sum(es: Seq<Equipment>) -> int
    decreases es.len(),
{
    if es.len() == 0 {
        0
    } else {
        power_bonus_sum(es.drop_last()) + es.last().power_bonus
    }
}

pub open spec fn defense_bonus_sum(es: Seq<Equipment>) -> int
    decreases es.len(),
{
    if es.len() == 0 {
        0
    } else {
        defense_bonus_sum(es.drop_last()) + es.last().defense_bonus
    }
}

pub open spec fn max_hp_bonus_sum(es: Seq<Equipment>) -> int
    decreases es.len(),
{
    if es.len() == 0 {
        0
    } else {
        max_hp_bonus_sum(es.drop_last()) + es.last().max_hp_bonus
    }
}

impl Fighter {
    /// Attack strength: the base power plus the power bonus of everything equipped.
    pub open spec fn power_spec(self) -> int {
        self.base_power + power_bonus_sum(equipped_of(self.inventory@))
    }

    /// Defense: the base defense plus the defense bonus of everything equipped.
    pub open spec fn defense_spec(self) -> int {
        self.base_defense + defense_bonus_sum(equipped_of(self.inventory@))
    }

    /// Maximum hit points: the base maximum plus the bonus of everything equipped.
    pub open spec fn max_hp_spec(self) -> int {
        (self.base_max_hp as i32) + max_hp_bonus_sum(equipped_of(self.inventory@))
    }

    pub fn new(hp: i32, base_defense: i32, base_power: i32, xp: i32, is_npc: bool) -> (f: Fighter)
        ensures
            f.hp == hp,
            f.base_max_hp == hp as u32,
            f.base_defense == base_defense,
            f.base_power == base_power,
            f.xp == xp,
            f.karma == -1000,
            f.on_death == (if is_npc { DeathCallback::Npc } else { DeathCallback::Player }),
            f.inventory@.len() == 0,
    {
        let on_death: DeathCallback = if is_npc {
            DeathCallback::Npc
        } else {
            DeathCallback::Player
        };
        Fighter {
            base_max_hp: hp as u32,
            hp,
            base_defense,
            base_power,
            xp,
            karma: -1000,
            on_death,
            inventory: Vec::new(),
        }
    }

    /// The equipment that is equipped, in inventory order.
    pub fn get_all_equipped(&self) -> (r: Vec<Equipment>)
        ensures
            r@ == equipped_of(self.inventory@),
            r@.len() <= self.inventory@.len(),
    {
        let mut r: Vec<Equipment> = Vec::new();
        let mut i: usize = 0;
        proof {
            assert(self.inventory@.subrange(0, 0) =~= Seq::<Object>::empty());
        }
        while i < self.inventory.len()
            invariant
                i <= self.inventory@.len(),
                r@ == equipped_of(self.inventory@.subrange(0, i as int)),
                r@.len() <= i,
            decreases self.inventory@.len() - i,
        {
            proof {
                assert(self.inventory@.subrange(0, i + 1).drop_last() =~= self.inventory@.subrange(0, i as int));
            }
            match self.inventory[i].equipment {
                Some(e) => {
                    if e.equipped {
                        r.push(e);
                    }
                },
                None => {},
            }
            i = i + 1;
        }
        proof {
            assert(self.inventory@.subrange(0, i as int) =~= self.inventory@);
        }
        r
    }

    pub fn power(&self) -> (r: i32)
        requires
            i32::MIN <= self.power_spec() <= i32::MAX,
        ensures
            r == self.power_spec(),
    {
        let es = self.get_all_equipped();
        let mut total: i128 = 0;
        let mut i: usize = 0;
        while i < es.len()
            invariant
                i <= es@.len(),
                total == power_bonus_sum(es@.subrange(0, i as int)),
                -2147483648 * i <= total <= 2147483647 * i,
            decreases es@.len() - i,
        {
            assert(es@.subrange(0, i + 1).drop_last() =~= es@.subrange(0, i as int));
            total = total + es[i].power_bonus as i128;
            i = i + 1;
        }
        assert(es@.subrange(0, i as int) =~= es@);
        (self.base_power as i128 + total) as i32
    }

    pub fn defense(&self) -> (r: i32)
        requires
            i32::MIN <= self.defense_spec() <= i32::MAX,
        ensures
            r == self.defense_spec(),
    {
        let es = self.get_all_equipped();
        let mut total: i128 = 0;
        let mut i: usize = 0;
        while i < es.len()
            invariant
                i <= es@.len(),
                total == defense_bonus_sum(es@.subrange(0, i as int)),
                -2147483648 * i <= total <= 2147483647 * i,
            decreases es@.len() - i,
        {
            assert(es@.subrange(0, i + 1).drop_last() =~= es@.subrange(0, i as int));
            total = total + es[i].defense_bonus as i128;
            i = i + 1;
        }
        assert(es@.subrange(0, i as int) =~= es@);
        (self.base_defense as i128 + total) as i32
    }

    pub fn max_hp(&self) -> (r: i32)
        requires
            i32::MIN <= self.max_hp_spec() <= i32::MAX,
        ensures
            r == self.max_hp_spec(),
    {
        let es = self.get_all_equipped();
        let mut total: i128 = 0;
        let mut i: usize = 0;
        while i < es.len()
            invariant
                i <= es@.len(),
                total == max_hp_bonus_sum(es@.subrange(0, i as int)),
                -2147483648 * i <= total <= 2147483647 * i,
            decreases es@.len() - i,
        {
            assert(es@.subrange(0, i + 1).drop_last() =~= es@.subrange(0, i as int));
            total = total + es[i].max_hp_bonus as i128;
            i = i + 1;
        }
        assert(es@.subrange(0, i as int) =~= es@);
        let base: i32 = self.base_max_hp as i32;
        (base as i128 + total) as i32
    }

    /// Heals by `amount`, without going over the maximum.
    pub fn heal(&mut self, amount: i32)
        requires
            i32::MIN <= old(self).max_hp_spec() <= i32::MAX,
            i32::MIN <= old(self).hp + amount <= i32::MAX,
        ensures
            final(self).hp == if old(self).hp + amount > old(self).max_hp_spec() {
                old(self).max_hp_spec()
            } else {
                old(self).hp + amount
            },
            *final(self) == (Fighter { hp: final(self).hp, ..*old(self) }),
    {
        let max_hp = self.max_hp();
        self.hp += amount;
        if self.hp > max_hp {
            self.hp = max_hp;
        }
    }

    /// Karma that killing something worth `xp` costs on dungeon level `game_level`.
    pub fn kill_karma(xp: i32, game_level: i32) -> (r: i32)
        requires
            i32::MIN <= -xp * (game_level + 1) <= i32::MAX,
            xp > i32::MIN,
            game_level < i32::MAX,
        ensures
            r == -xp * (game_level + 1),
    {
        let k: i64 = -(xp as i64) * (game_level as i64 + 1);
        k as i32
    }

    /// Grants the experience of a kill and takes its karma.
    pub fn kill_rewards(&mut self, xp: i32, game_level: i32)
        requires
            i32::MIN <= -xp * (game_level + 1) <= i32::MAX,
            xp > i32::MIN,
            game_level < i32::MAX,
            i32::MIN <= old(self).xp + xp <= i32::MAX,
            i32::MIN <= old(self).karma + -xp * (game_level + 1) <= i32::MAX,
        ensures
            final(self).xp == old(self).xp + xp,
            final(self).karma == old(self).karma + -xp * (game_level + 1),
            *final(self) == (Fighter { xp: final(self).xp, karma: final(self).karma, ..*old(self) }),
    {
        self.xp += xp;
        self.karma += Fighter::kill_karma(xp, game_level);
    }
}

/// Anything placed on the map: the player, an NPC, an item, the stairs.
#[derive(Debug, PartialEq, Eq)]
pub struct Object {
    pub x: i32,
    pub y: i32,
    pub chr: char,
    pub color: Color,
    pub name: String,
    pub blocks: bool,
    pub alive: bool,
    pub fighter: Option<Fighter>,
    pub ai: Option<Ai>,
    pub item: Option<Item>,
    pub equipment: Option<Equipment>,
    pub always_visible: bool,
    pub level: i32,
    pub charges: i32,
}

impl Object {
    pub fn new(x: i32, y: i32, chr: char, name: &str, color: Color, blocks: bool) -> (o: Object)
        ensures
            o.x == x,
            o.y == y,
            o.chr == chr,
            o.name@ == name@,
            o.color == color,
            o.blocks == blocks,
            !o.alive,
            o.fighter is None,
            o.ai is None,
            o.item is None,
            o.equipment is None,
            !o.always_visible,
            o.level == 1,
            o.charges == 1,
    {
        Object {
            x,
            y,
            chr,
            color,
            name: name.to_owned(),
            blocks,
            alive: false,
            fighter: None,
            ai: None,
            item: None,
            equipment: None,
            always_visible: false,
            level: 1,
            charges: 1,
        }
    }

    pub fn pos(&self) -> (r: (i32, i32))
        ensures
            r == (self.x, self.y),
    {
        (self.x, self.y)
    }

    pub fn set_pos(&mut self, x: i32, y: i32)
        ensures
            final(self).x == x,
            final(self).y == y,
            *final(self) == (Object { x, y, ..*old(self) }),
    {
        self.x = x;
        self.y = y;
    }

    /// An item that is not equipment stacks.
    pub fn is_stackable(&self) -> (r: bool)
        ensures
            r == (self.item is Some && self.equipment is None),
    {
        self.item.is_some() && self.equipment.is_none()
    }
}

} // verus!
