use crate::dice::{pick_weighted, weight_sum};
use crate::objects::{Ai, Color, Equipment, Fighter, Item, Object, Slot};
use vstd::prelude::*;

verus! {

/// An entry of the NPC table: what an NPC of this kind is, on which dungeon levels it
/// appears, and its weight among the kinds of a level.
pub struct NPC {
    pub symbol: char,
    pub name: String,
    pub ai: Ai,
    pub max_hp: i32,
    pub defense: i32,
    pub attack: i32,
    pub xp: i32,
    pub start_hp: i32,
    pub min_level: i32,
    pub max_level: i32,
    pub weight: u32,
}

/// `(symbol, max_hp, defense, attack, xp, start_hp, min_level, max_level, weight)`
pub type NpcStats = (char, i32, i32, i32, i32, i32, i32, i32, u32);

pub open spec fn stats_of_npc(n: NPC) -> NpcStats {
    (n.symbol, n.max_hp, n.defense, n.attack, n.xp, n.start_hp, n.min_level, n.max_level, n.weight)
}

/// The rows of the NPC table.
pub open spec fn npc_rows() -> Seq<NpcStats> {
    seq![
        ('I', 10i32, 0i32, 8i32, 10i32, 1i32, -99i32, 99i32, 1u32),
        ('O', 20i32, 0i32, 4i32, 35i32, 20i32, -99i32, 19i32, 100u32),
        ('T', 60i32, 2i32, 8i32, 100i32, 30i32, 0i32, 19i32, 25u32),
        ('M', 60i32, 3i32, 9i32, 100i32, 60i32, 10i32, 10i32, 100u32),
        ('W', 100i32, 3i32, 9i32, 100i32, 100i32, 17i32, 19i32, 100u32),
        ('D', 200i32, 12i32, 12i32, 100i32, 200i32, 20i32, 99i32, 250u32),
    ]
}

/// Row `i` of the NPC table appears on dungeon level `level`.
pub open spec fn npc_on_level(i: int, level: int) -> bool {
    npc_rows()[i].6 <= level <= npc_rows()[i].7
}

/// Some kind of NPC appears on dungeon level `level`.
pub open spec fn npc_level_supported(level: int) -> bool {
    exists|i: int| 0 <= i < npc_rows().len() && npc_on_level(i, level)
}

/// `o` is a fresh NPC made from an entry with these stats: at no position yet.
pub open spec fn npc_object(s: NpcStats, o: Object) -> bool {
    &&& o.x == -1 && o.y == -1
    &&& o.chr == s.0
    &&& o.color == Color::White
    &&& o.blocks && o.alive
    &&& o.ai == Some(Ai::Basic)
    &&& o.item is None && o.equipment is None
    &&& o.fighter is Some
    &&& o.fighter->0.hp == s.5
    &&& o.fighter->0.base_max_hp == s.1 as u32
    &&& o.fighter->0.base_defense == s.2
    &&& o.fighter->0.base_power == s.3
    &&& o.fighter->0.xp == s.4
}

impl NPC {
    pub fn new(
        symbol: char,
        name: &str,
        ai: Ai,
        max_hp: i32,
        defense: i32,
        attack: i32,
        xp: i32,
        start_hp: i32,
        min_level: i32,
        max_level: i32,
        weight: u32,
    ) -> (n: NPC)
        requires
            min_level <= max_level,
        ensures
            stats_of_npc(n) == (symbol, max_hp, defense, attack, xp, start_hp, min_level, max_level, weight),
            n.name@ == name@,
            n.ai == ai,
    {
        NPC {
            symbol,
            name: name.to_owned(),
            ai,
            max_hp,
            defense,
            attack,
            xp,
            start_hp,
            min_level,
            max_level,
            weight,
        }
    }

    /// A fresh NPC of this kind, alive, at the impossible position `(-1, -1)`.
    pub fn generate(&self) -> (o: Object)
        ensures
            self.ai == Ai::Basic ==> npc_object(stats_of_npc(*self), o),
            o.name@ == self.name@,
            o.ai == Some(self.ai),
    {
        let mut npc = Object::new(-1, -1, self.symbol, self.name.as_str(), Color::White, true);
        npc.ai = Some(self.ai.clone());
        let mut fighter = Fighter::new(self.max_hp, self.defense, self.attack, self.xp, true);
        fighter.hp = self.start_hp;
        npc.fighter = Some(fighter);
        npc.alive = true;
        npc
    }
}

fn npc_table() -> (t: Vec<NPC>)
    ensures
        t@.len() == npc_rows().len(),
        forall|i: int| 0 <= i < t@.len() ==> stats_of_npc(#[trigger] t@[i]) == npc_rows()[i] && t@[i].ai == Ai::Basic,
{
    let t = vec![
        NPC::new('I', "imp", Ai::Basic, 10, 0, 8, 10, 1, -99, 99, 1),
        NPC::new('O', "orc", Ai::Basic, 20, 0, 4, 35, 20, -99, 19, 100),
        NPC::new('T', "troll", Ai::Basic, 60, 2, 8, 100, 30, 0, 19, 25),
        NPC::new('M', "minotaur", Ai::Basic, 60, 3, 9, 100, 60, 10, 10, 100),
        NPC::new('W', "Wraith", Ai::Basic, 100, 3, 9, 100, 100, 17, 19, 100),
        NPC::new('D', "demon", Ai::Basic, 200, 12, 12, 100, 200, 20, 99, 250),
    ];
    assert(t@.len() == 6);
    t
}

/// The positions, among the first `n` rows of the NPC table, of the rows that appear on
/// `level`, in table order.
pub open spec fn npc_rows_upto(n: int, level: int) -> Seq<usize>
    decreases n,
{
    if n <= 0 {
        Seq::empty()
    } else {
        let r = npc_rows_upto(n - 1, level);
        if npc_on_level(n - 1, level) {
            r.push((n - 1) as usize)
        } else {
            r
        }
    }
}

/// The positions of the NPC table's rows that appear on `level`, in table order.
pub open spec fn valid_npcs(level: int) -> Seq<usize> {
    npc_rows_upto(npc_rows().len() as int, level)
}

proof fn lemma_npc_rows_upto(n: int, level: int)
    requires
        0 <= n <= npc_rows().len(),
    ensures
        npc_rows_upto(n, level).len() <= n,
        forall|k: int| 0 <= k < npc_rows_upto(n, level).len() ==> (#[trigger] npc_rows_upto(n, level)[k]) < n
            && npc_on_level(npc_rows_upto(n, level)[k] as int, level),
        forall|i: int| 0 <= i < n && npc_on_level(i, level) ==> #[trigger] npc_rows_upto(n, level).contains(i as usize),
    decreases n,
{
    if n > 0 {
        lemma_npc_rows_upto(n - 1, level);
        let r = npc_rows_upto(n - 1, level);
        assert forall|i: int| 0 <= i < n && npc_on_level(i, level) implies #[trigger] npc_rows_upto(n, level).contains(i as usize) by {
            if i < n - 1 {
                assert(r.contains(i as usize));
                let k = choose|k: int| 0 <= k < r.len() && r[k] == i as usize;
                assert(npc_rows_upto(n, level)[k] == i as usize);
            } else {
                assert(npc_rows_upto(n, level)[r.len() as int] == i as usize);
            }
        }
    }
}

/// The positions of the NPC table's rows that appear on `level`, in table order.
fn trim_npcs_by_level(table: &Vec<NPC>, level: i32) -> (r: Vec<usize>)
    requires
        table@.len() == npc_rows().len(),
        forall|i: int| 0 <= i < table@.len() ==> stats_of_npc(#[trigger] table@[i]) == npc_rows()[i],
    ensures
        r@ == valid_npcs(level as int),
{
    let mut r: Vec<usize> = Vec::new();
    let mut i: usize = 0;
    while i < table.len()
        invariant
            i <= table@.len(),
            table@.len() == npc_rows().len(),
            forall|k: int| 0 <= k < table@.len() ==> stats_of_npc(#[trigger] table@[k]) == npc_rows()[k],
            r@ == npc_rows_upto(i as int, level as int),
        decreases table@.len() - i,
    {
        let row = &table[i];
        assert(stats_of_npc(table@[i as int]) == npc_rows()[i as int]);
        if level >= row.min_level && level <= row.max_level {
            r.push(i);
        }
        i = i + 1;
    }
    r
}

/// The weights of the chosen rows, in order.
fn weights_of_npcs(table: &Vec<NPC>, rows: &Vec<usize>) -> (w: Vec<u32>)
    requires
        forall|k: int| 0 <= k < rows@.len() ==> (#[trigger] rows@[k]) < table@.len(),
        forall|i: int| 0 <= i < table@.len() ==> 1 <= (#[trigger] table@[i]).weight <= 250,
        rows@.len() <= 6,
    ensures
        w@.len() == rows@.len(),
        forall|k: int| 0 <= k < w@.len() ==> (#[trigger] w@[k]) == table@[rows@[k] as int].weight,
        rows@.len() > 0 ==> 0 < weight_sum(w@) <= u32::MAX,
{
    let mut w: Vec<u32> = Vec::new();
    let mut k: usize = 0;
    while k < rows.len()
        invariant
            k <= rows@.len(),
            rows@.len() <= 6,
            w@.len() == k,
            forall|j: int| 0 <= j < rows@.len() ==> (#[trigger] rows@[j]) < table@.len(),
            forall|i: int| 0 <= i < table@.len() ==> 1 <= (#[trigger] table@[i]).weight <= 250,
            forall|j: int| 0 <= j < k ==> (#[trigger] w@[j]) == table@[rows@[j] as int].weight,
            k <= weight_sum(w@) <= 250 * k,
        decreases rows@.len() - k,
    {
        let ghost before = w@;
        let weight: u32 = table[rows[k]].weight;
        assert(1 <= table@[rows@[k as int] as int].weight <= 250);
        w.push(weight);
        assert(w@.drop_last() =~= before);
        k = k + 1;
    }
    w
}

/// The NPC of the `k`-th kind that appears on `level`, in table order: the function of the
/// weighted draw's result that `generate_npc` returns.
pub fn npc_for_pick(level: i32, k: usize) -> (o: Object)
    requires
        k < valid_npcs(level as int).len(),
    ensures
        npc_on_level(valid_npcs(level as int)[k as int] as int, level as int),
        npc_object(npc_rows()[valid_npcs(level as int)[k as int] as int], o),
{
    let table: Vec<NPC> = npc_table();
    let rows: Vec<usize> = trim_npcs_by_level(&table, level);
    proof {
        lemma_npc_rows_upto(npc_rows().len() as int, level as int);
    }
    let i: usize = rows[k];
    assert(stats_of_npc(table@[i as int]) == npc_rows()[i as int]);
    table[i].generate()
}

/// A random NPC for dungeon `level`: a kind that appears there, chosen with probability
/// proportional to its weight.
pub fn generate_npc(level: i32, rng: &mut rand::StdRng) -> (o: Object)
    requires
        npc_level_supported(level as int),
    ensures
        exists|k: int|
            0 <= k < valid_npcs(level as int).len() && npc_rows()[valid_npcs(level as int)[k] as int].8 > 0
                && npc_object(npc_rows()[valid_npcs(level as int)[k] as int], o),
        exists|i: int| 0 <= i < npc_rows().len() && npc_on_level(i, level as int) && npc_object(npc_rows()[i], o),
{
    let table: Vec<NPC> = npc_table();
    let rows: Vec<usize> = trim_npcs_by_level(&table, level);
    proof {
        lemma_npc_rows_upto(npc_rows().len() as int, level as int);
        let i = choose|i: int| 0 <= i < npc_rows().len() && npc_on_level(i, level as int);
        assert(rows@.contains(i as usize));
        assert forall|i: int| 0 <= i < table@.len() implies 1 <= (#[trigger] table@[i]).weight <= 250 by {
            assert(stats_of_npc(table@[i]) == npc_rows()[i]);
        }
    }
    let weights: Vec<u32> = weights_of_npcs(&table, &rows);
    let k: usize = pick_weighted(rng, &weights);
    assert(stats_of_npc(table@[rows@[k as int] as int]) == npc_rows()[rows@[k as int] as int]);
    npc_for_pick(level, k)
}


/// An entry of the loot table.
struct Loot {
    pub symbol: char,
    pub name: String,
    pub color: Color,
    pub item_type: Item,
    pub slot: Slot,
    pub hp_bonus: i32,
    pub defense_bonus: i32,
    pub attack_bonus: i32,
    pub min_level: i32,
    pub max_level: i32,
    pub weight: u32,
}

/// `(symbol, color, item, slot, hp_bonus, defense_bonus, attack_bonus, min_level, max_level, weight)`
pub type LootStats = (char, Color, Item, Slot, i32, i32, i32, i32, i32, u32);

spec fn stats_of_loot(l: Loot) -> LootStats {
    (l.symbol, l.color, l.item_type, l.slot, l.hp_bonus, l.defense_bonus, l.attack_bonus, l.min_level, l.max_level, l.weight)
}

/// The rows of the loot table.
pub open spec fn loot_rows() -> Seq<LootStats> {
    seq![
        ('/', Color::DarkBlue, Item::Sword, Slot::Hand, 0i32, 2i32, 4i32, 18i32, 99i32, 10u32),
        ('/', Color::Blue, Item::Sword, Slot::Hand, 0i32, 0i32, 5i32, 14i32, 99i32, 10u32),
        ('/', Color::Sky, Item::Sword, Slot::Hand, 0i32, 0i32, 4i32, 7i32, 99i32, 15u32),
        ('/', Color::LightBlue, Item::Sword, Slot::Hand, 0i32, 0i32, 3i32, 4i32, 14i32, 15u32),
        ('-', Color::Sky, Item::Sword, Slot::Hand, 0i32, 0i32, 2i32, -99i32, 4i32, 15u32),
        ('[', Color::DarkerOrange, Item::Shield, Slot::Hand, 0i32, 5i32, 0i32, 15i32, 99i32, 10u32),
        ('[', Color::Orange, Item::Shield, Slot::Hand, 0i32, 3i32, 0i32, 11i32, 20i32, 15u32),
        ('[', Color::LightOrange, Item::Shield, Slot::Hand, 0i32, 2i32, 0i32, 8i32, 17i32, 25u32),
        ('!', Color::Violet, Item::HealPot, Slot::Head, 0i32, 0i32, 0i32, -99i32, 99i32, 35u32),
        ('~', Color::LightBlue, Item::LightningScroll, Slot::Head, 0i32, 0i32, 0i32, 4i32, 99i32, 25u32),
        ('~', Color::Red, Item::FireballScroll, Slot::Head, 0i32, 0i32, 0i32, 2i32, 99i32, 25u32),
        ('~', Color::LightGreen, Item::ConfuseScroll, Slot::Head, 0i32, 0i32, 0i32, 1i32, 99i32, 10u32),
    ]
}

/// Row `i` of the loot table appears on dungeon level `level`.
pub open spec fn loot_on_level(i: int, level: int) -> bool {
    loot_rows()[i].7 <= level <= loot_rows()[i].8
}

/// Some item appears on dungeon level `level`.
pub open spec fn loot_level_supported(level: int) -> bool {
    exists|i: int| 0 <= i < loot_rows().len() && loot_on_level(i, level)
}

/// `o` is a fresh floor item made from an entry with these stats: at no position yet,
/// and equipment exactly when its bonuses add up to more than zero.
pub open spec fn loot_object(s: LootStats, o: Object) -> bool {
    &&& o.x == -1 && o.y == -1
    &&& o.chr == s.0
    &&& o.color == s.1
    &&& !o.blocks
    &&& o.item == Some(s.2)
    &&& o.fighter is None && o.ai is None
    &&& if s.4 + s.5 + s.6 > 0 {
        o.equipment == Some(
            Equipment { equipped: false, slot: s.3, max_hp_bonus: s.4, defense_bonus: s.5, power_bonus: s.6 },
        )
    } else {
        o.equipment is None
    }
}

impl Loot {
    fn new(
        symbol: char,
        name: &str,
        color: Color,
        item_type: Item,
        slot: Slot,
        hp_bonus: i32,
        defense_bonus: i32,
        attack_bonus: i32,
        min_level: i32,
        max_level: i32,
        weight: u32,
    ) -> (l: Loot)
        requires
            min_level < max_level,
        ensures
            stats_of_loot(l) == (symbol, color, item_type, slot, hp_bonus, defense_bonus, attack_bonus, min_level, max_level, weight),
            l.name@ == name@,
    {
        Loot {
            symbol,
            name: name.to_owned(),
            color,
            item_type,
            slot,
            hp_bonus,
            defense_bonus,
            attack_bonus,
            min_level,
            max_level,
            weight,
        }
    }

    /// A fresh item of this kind at the impossible position `(-1, -1)`.
    fn generate(&self) -> (o: Object)
        ensures
            loot_object(stats_of_loot(*self), o),
            o.name@ == self.name@,
    {
        let mut obj = Object::new(-1, -1, self.symbol, self.name.as_str(), self.color, false);
        obj.item = Some(self.item_type);
        let total: i64 = self.hp_bonus as i64 + self.defense_bonus as i64 + self.attack_bonus as i64;
        if total > 0 {
            obj.equipment = Some(Equipment {
                equipped: false,
                slot: self.slot,
                max_hp_bonus: self.hp_bonus,
                defense_bonus: self.defense_bonus,
                power_bonus: self.attack_bonus,
            });
        }
        obj
    }
}

fn loot_table() -> (t: Vec<Loot>)
    ensures
        t@.len() == loot_rows().len(),
        forall|i: int| 0 <= i < t@.len() ==> stats_of_loot(#[trigger] t@[i]) == loot_rows()[i],
{
    let t = vec![
        Loot::new('/', "sword breaker", Color::DarkBlue, Item::Sword, Slot::Hand, 0, 2, 4, 18, 99, 10),
        Loot::new('/', "long sword", Color::Blue, Item::Sword, Slot::Hand, 0, 0, 5, 14, 99, 10),
        Loot::new('/', "sword", Color::Sky, Item::Sword, Slot::Hand, 0, 0, 4, 7, 99, 15),
        Loot::new('/', "short sword", Color::LightBlue, Item::Sword, Slot::Hand, 0, 0, 3, 4, 14, 15),
        Loot::new('-', "dagger", Color::Sky, Item::Sword, Slot::Hand, 0, 0, 2, -99, 4, 15),
        Loot::new('[', "shieldwall", Color::DarkerOrange, Item::Shield, Slot::Hand, 0, 5, 0, 15, 99, 10),
        Loot::new('[', "shield", Color::Orange, Item::Shield, Slot::Hand, 0, 3, 0, 11, 20, 15),
        Loot::new('[', "buckler", Color::LightOrange, Item::Shield, Slot::Hand, 0, 2, 0, 8, 17, 25),
        Loot::new('!', "healing potion", Color::Violet, Item::HealPot, Slot::Head, 0, 0, 0, -99, 99, 35),
        Loot::new('~', "scroll of lightning bolt", Color::LightBlue, Item::LightningScroll, Slot::Head, 0, 0, 0, 4, 99, 25),
        Loot::new('~', "scroll of fireball", Color::Red, Item::FireballScroll, Slot::Head, 0, 0, 0, 2, 99, 25),
        Loot::new('~', "scroll of confusion", Color::LightGreen, Item::ConfuseScroll, Slot::Head, 0, 0, 0, 1, 99, 10),
    ];
    assert(t@.len() == 12);
    t
}

/// The positions, among the first `n` rows of the loot table, of the rows that appear on
/// `level`, in table order.
pub open spec fn loot_rows_upto(n: int, level: int) -> Seq<usize>
    decreases n,
{
    if n <= 0 {
        Seq::empty()
    } else {
        let r = loot_rows_upto(n - 1, level);
        if loot_on_level(n - 1, level) {
            r.push((n - 1) as usize)
        } else {
            r
        }
    }
}

/// The positions of the loot table's rows that appear on `level`, in table order.
pub open spec fn valid_loots(level: int) -> Seq<usize> {
    loot_rows_upto(loot_rows().len() as int, level)
}

proof fn lemma_loot_rows_upto(n: int, level: int)
    requires
        0 <= n <= loot_rows().len(),
    ensures
        loot_rows_upto(n, level).len() <= n,
        forall|k: int| 0 <= k < loot_rows_upto(n, level).len() ==> (#[trigger] loot_rows_upto(n, level)[k]) < n
            && loot_on_level(loot_rows_upto(n, level)[k] as int, level),
        forall|i: int| 0 <= i < n && loot_on_level(i, level) ==> #[trigger] loot_rows_upto(n, level).contains(i as usize),
    decreases n,
{
    if n > 0 {
        lemma_loot_rows_upto(n - 1, level);
        let r = loot_rows_upto(n - 1, level);
        assert forall|i: int| 0 <= i < n && loot_on_level(i, level) implies #[trigger] loot_rows_upto(n, level).contains(i as usize) by {
            if i < n - 1 {
                assert(r.contains(i as usize));
                let k = choose|k: int| 0 <= k < r.len() && r[k] == i as usize;
                assert(loot_rows_upto(n, level)[k] == i as usize);
            } else {
                assert(loot_rows_upto(n, level)[r.len() as int] == i as usize);
            }
        }
    }
}

/// The positions of the loot table's rows that appear on `level`, in table order.
fn trim_loot_by_level(table: &Vec<Loot>, level: i32) -> (r: Vec<usize>)
    requires
        table@.len() == loot_rows().len(),
        forall|i: int| 0 <= i < table@.len() ==> stats_of_loot(#[trigger] table@[i]) == loot_rows()[i],
    ensures
        r@ == valid_loots(level as int),
{
    let mut r: Vec<usize> = Vec::new();
    let mut i: usize = 0;
    while i < table.len()
        invariant
            i <= table@.len(),
            table@.len() == loot_rows().len(),
            forall|k: int| 0 <= k < table@.len() ==> stats_of_loot(#[trigger] table@[k]) == loot_rows()[k],
            r@ == loot_rows_upto(i as int, level as int),
        decreases table@.len() - i,
    {
        let row = &table[i];
        assert(stats_of_loot(table@[i as int]) == loot_rows()[i as int]);
        if level >= row.min_level && level <= row.max_level {
            r.push(i);
        }
        i = i + 1;
    }
    r
}

/// The weights of the chosen rows, in order.
fn weights_of_loot(table: &Vec<Loot>, rows: &Vec<usize>) -> (w: Vec<u32>)
    requires
        forall|k: int| 0 <= k < rows@.len() ==> (#[trigger] rows@[k]) < table@.len(),
        forall|i: int| 0 <= i < table@.len() ==> 1 <= (#[trigger] table@[i]).weight <= 250,
        rows@.len() <= 12,
    ensures
        w@.len() == rows@.len(),
        forall|k: int| 0 <= k < w@.len() ==> (#[trigger] w@[k]) == table@[rows@[k] as int].weight,
        rows@.len() > 0 ==> 0 < weight_sum(w@) <= u32::MAX,
{
    let mut w: Vec<u32> = Vec::new();
    let mut k: usize = 0;
    while k < rows.len()
        invariant
            k <= rows@.len(),
            rows@.len() <= 12,
            w@.len() == k,
            forall|j: int| 0 <= j < rows@.len() ==> (#[trigger] rows@[j]) < table@.len(),
            forall|i: int| 0 <= i < table@.len() ==> 1 <= (#[trigger] table@[i]).weight <= 250,
            forall|j: int| 0 <= j < k ==> (#[trigger] w@[j]) == table@[rows@[j] as int].weight,
            k <= weight_sum(w@) <= 250 * k,
        decreases rows@.len() - k,
    {
        let ghost before = w@;
        let weight: u32 = table[rows[k]].weight;
        assert(1 <= table@[rows@[k as int] as int].weight <= 250);
        w.push(weight);
        assert(w@.drop_last() =~= before);
        k = k + 1;
    }
    w
}

/// The item of the `k`-th kind that appears on `level`, in table order: the function of the
/// weighted draw's result that `generate_floor_item` returns.
pub fn item_for_pick(level: i32, k: usize) -> (o: Object)
    requires
        k < valid_loots(level as int).len(),
    ensures
        loot_on_level(valid_loots(level as int)[k as int] as int, level as int),
        loot_object(loot_rows()[valid_loots(level as int)[k as int] as int], o),
{
    let table: Vec<Loot> = loot_table();
    let rows: Vec<usize> = trim_loot_by_level(&table, level);
    proof {
        lemma_loot_rows_upto(loot_rows().len() as int, level as int);
    }
    let i: usize = rows[k];
    assert(stats_of_loot(table@[i as int]) == loot_rows()[i as int]);
    table[i].generate()
}

/// A random floor item for dungeon `level`: a kind that appears there, chosen with
/// probability proportional to its weight.
pub fn generate_floor_item(level: i32, rng: &mut rand::StdRng) -> (o: Object)
    requires
        loot_level_supported(level as int),
    ensures
        exists|k: int|
            0 <= k < valid_loots(level as int).len() && loot_rows()[valid_loots(level as int)[k] as int].9 > 0
                && loot_object(loot_rows()[valid_loots(level as int)[k] as int], o),
        exists|i: int| 0 <= i < loot_rows().len() && loot_on_level(i, level as int) && loot_object(loot_rows()[i], o),
{
    let table: Vec<Loot> = loot_table();
    let rows: Vec<usize> = trim_loot_by_level(&table, level);
    proof {
        lemma_loot_rows_upto(loot_rows().len() as int, level as int);
        let i = choose|i: int| 0 <= i < loot_rows().len() && loot_on_level(i, level as int);
        assert(rows@.contains(i as usize));
        assert forall|i: int| 0 <= i < table@.len() implies 1 <= (#[trigger] table@[i]).weight <= 250 by {
            assert(stats_of_loot(table@[i]) == loot_rows()[i]);
        }
    }
    let weights: Vec<u32> = weights_of_loot(&table, &rows);
    let k: usize = pick_weighted(rng, &weights);
    assert(stats_of_loot(table@[rows@[k as int] as int]) == loot_rows()[rows@[k as int] as int]);
    item_for_pick(level, k)
}

} // verus!
