//! Reward items: each has a rarity weight, a remaining-copy count, a level
//! with a maximum, eligibility requirements, and the battlefield effect it
//! grants. Selecting an item levels it up; once the level reaches its
//! maximum, each further selection spends a copy, and an item with no
//! copies left is retired from every future reward pool.

use vstd::prelude::*;
use vstd::string::StringExecFns;
use crate::squad::SquadBundle;
use crate::units::UnitType;
use crate::formation::Formation;

verus! {

/// How rare an item is; rarer items get a smaller weight in the pool.
#[derive(Clone, Copy, Debug, PartialEq, Eq, Structural)]
pub enum ItemRarity {
    Common,
    Rare,
    Epic,
    Legendary,
}

impl Default for ItemRarity {
    fn default() -> (r: Self)
        ensures
            r == ItemRarity::Common,
    {
        ItemRarity::Common
    }
}

impl ItemRarity {
    /// The weight of this rarity in the reward pool.
    pub fn weight(&self) -> (r: usize)
        ensures
            r == self.weight_spec(),
    {
        match self {
            ItemRarity::Common => 6,
            ItemRarity::Rare => 4,
            ItemRarity::Epic => 2,
            ItemRarity::Legendary => 1,
        }
    }

    pub open spec fn weight_spec(self) -> int {
        match self {
            ItemRarity::Common => 6,
            ItemRarity::Rare => 4,
            ItemRarity::Epic => 2,
            ItemRarity::Legendary => 1,
        }
    }
}

/// How many copies of an item remain before it is retired.
#[derive(Clone, Copy, Debug, PartialEq, Eq, Structural)]
pub struct ItemMaxCopies(pub usize);

impl Default for ItemMaxCopies {
    fn default() -> (r: Self)
        ensures
            r == ItemMaxCopies(1),
    {
        ItemMaxCopies(1)
    }
}

/// An item's current level and the level at which it stops improving.
#[derive(Clone, Copy, Debug, PartialEq, Eq, Structural)]
pub struct ItemLevel {
    pub level: usize,
    pub max_level: usize,
}

impl ItemLevel {
    /// A fresh level counter with the given maximum.
    pub fn new(max_level: usize) -> (r: Self)
        ensures
            r == (ItemLevel { level: 0, max_level }),
    {
        ItemLevel { level: 0, max_level }
    }
}

impl Default for ItemLevel {
    fn default() -> (r: Self)
        ensures
            r == (ItemLevel { level: 0, max_level: 1 }),
    {
        ItemLevel { level: 0, max_level: 1 }
    }
}

/// A precondition an item demands of the acting team before it may be
/// offered.
#[derive(Clone, Copy, Debug, PartialEq, Eq, Structural)]
pub enum ItemRequirement {
    OpenSlot,
}

/// The battlefield mutation an item grants when selected. Speed deltas and
/// size multipliers are carried in percent.
#[derive(Clone, Copy, Debug, PartialEq, Eq, Structural)]
pub enum ItemEffect {
    AddColumn,
    AddMovementSpeed(u64),
    AddRow,
    AddSquad(SquadBundle),
    SquadSizeMultiplier { multiplier_pct: u64, unit: UnitType },
}

/// One reward item definition.
pub struct Item {
    pub name: String,
    pub description: String,
    pub copies: ItemMaxCopies,
    pub level: ItemLevel,
    pub rarity: ItemRarity,
    pub effect: ItemEffect,
    pub requirements: Vec<ItemRequirement>,
}

/// Whether one requirement is met when the acting team has `open_slots`
/// open slots.
pub open spec fn requirement_met(req: ItemRequirement, open_slots: int) -> bool {
    match req {
        ItemRequirement::OpenSlot => open_slots > 0,
    }
}

/// Whether an item may enter the reward pool: copies remain and every
/// requirement is met.
pub open spec fn eligible(item: Item, open_slots: int) -> bool {
    &&& item.copies.0 > 0
    &&& forall|k: int|
        0 <= k < item.requirements@.len() ==> requirement_met(
            #[trigger] item.requirements@[k],
            open_slots,
        )
}

/// Decides whether an item may enter the reward pool.
pub fn is_eligible(item: &Item, open_slots: usize) -> (r: bool)
    ensures
        r == eligible(*item, open_slots as int),
{
    if item.copies.0 == 0 {
        return false;
    }
    let mut k: usize = 0;
    while k < item.requirements.len()
        invariant
            0 <= k <= item.requirements@.len(),
            forall|j: int|
                0 <= j < k as int ==> requirement_met(
                    #[trigger] item.requirements@[j],
                    open_slots as int,
                ),
        decreases item.requirements@.len() - k,
    {
        let met = match item.requirements[k] {
            ItemRequirement::OpenSlot => open_slots > 0,
        };
        if !met {
            return false;
        }
        k = k + 1;
    }
    true
}

/// Records one selection of an item: the level rises by one, and once the
/// level has reached its maximum, the selection spends one copy; an item
/// whose copies hit zero is permanently retired from future pools.
pub fn select_item(item: &mut Item)
    requires
        old(item).copies.0 > 0,
        old(item).level.level < usize::MAX,
    ensures
        final(item).level.level == old(item).level.level + 1,
        final(item).level.max_level == old(item).level.max_level,
        final(item).level.level >= old(item).level.max_level ==> final(item).copies.0 == old(
            item,
        ).copies.0 - 1,
        final(item).level.level < old(item).level.max_level ==> final(item).copies.0 == old(
            item,
        ).copies.0,
        final(item).name == old(item).name,
        final(item).description == old(item).description,
        final(item).rarity == old(item).rarity,
        final(item).effect == old(item).effect,
        final(item).requirements == old(item).requirements,
{
    item.level.level = item.level.level + 1;
    if item.level.level >= item.level.max_level {
        item.copies.0 = item.copies.0 - 1;
    }
}

/// The roman numeral shown after an item's name for its next level; levels
/// out of the displayable range get no numeral.
pub fn to_roman(num: usize) -> (r: String)
    ensures
        num == 1 ==> r@ == "I"@,
        num == 2 ==> r@ == "II"@,
        num == 3 ==> r@ == "III"@,
        num == 4 ==> r@ == "IV"@,
        num == 5 ==> r@ == "V"@,
        (num == 0 || num > 5) ==> r@ == ""@,
{
    match num {
        1 => String::from_str("I"),
        2 => String::from_str("II"),
        3 => String::from_str("III"),
        4 => String::from_str("IV"),
        5 => String::from_str("V"),
        _ => String::from_str(""),
    }
}

/// The initial item catalogue: a movement-speed boost, a knight squad, an
/// extra column and an extra row.
pub fn init_items() -> (r: Vec<Item>)
    ensures
        r@.len() == 4,
        r@[0].name@ == "Coffee"@,
        r@[0].copies == ItemMaxCopies(1),
        r@[0].level == (ItemLevel { level: 0, max_level: 3 }),
        r@[0].rarity == ItemRarity::Rare,
        r@[0].effect == ItemEffect::AddMovementSpeed(25),
        r@[0].requirements@.len() == 0,
        r@[1].name@ == "Knight Squad"@,
        r@[1].copies == ItemMaxCopies(6),
        r@[1].level == (ItemLevel { level: 0, max_level: 1 }),
        r@[1].rarity == ItemRarity::Common,
        r@[1].effect == ItemEffect::AddSquad(
            SquadBundle { count: 10, formation: Formation::Box, unit: UnitType::Knight },
        ),
        r@[1].requirements@ == seq![ItemRequirement::OpenSlot],
        r@[2].name@ == "Column"@,
        r@[2].copies == ItemMaxCopies(
            (crate::layout::MAX_COLUMNS - crate::layout::INITIAL_COLUMNS) as usize,
        ),
        r@[2].level == (ItemLevel { level: 0, max_level: 1 }),
        r@[2].rarity == ItemRarity::Epic,
        r@[2].effect == ItemEffect::AddColumn,
        r@[2].requirements@.len() == 0,
        r@[3].name@ == "Row"@,
        r@[3].copies == ItemMaxCopies(1),
        r@[3].level == (ItemLevel { level: 0, max_level: 1 }),
        r@[3].rarity == ItemRarity::Rare,
        r@[3].effect == ItemEffect::AddRow,
        r@[3].requirements@.len() == 0,
{
    let mut items: Vec<Item> = Vec::new();

    items.push(
        Item {
            name: String::from_str("Coffee"),
            description: String::from_str("+25% movement speed"),
            copies: ItemMaxCopies(1),
            level: ItemLevel::new(3),
            rarity: ItemRarity::Rare,
            effect: ItemEffect::AddMovementSpeed(25),
            requirements: Vec::new(),
        },
    );

    let mut knight_reqs: Vec<ItemRequirement> = Vec::new();
    knight_reqs.push(ItemRequirement::OpenSlot);
    proof {
        assert(knight_reqs@ =~= seq![ItemRequirement::OpenSlot]);
    }
    items.push(
        Item {
            name: String::from_str("Knight Squad"),
            description: String::from_str("+1 knight squad"),
            copies: ItemMaxCopies(6),
            level: ItemLevel { level: 0, max_level: 1 },
            rarity: ItemRarity::Common,
            effect: ItemEffect::AddSquad(
                SquadBundle { count: 10, formation: Formation::Box, unit: UnitType::Knight },
            ),
            requirements: knight_reqs,
        },
    );

    items.push(
        Item {
            name: String::from_str("Column"),
            description: String::from_str("+1 column"),
            copies: ItemMaxCopies(crate::layout::MAX_COLUMNS - crate::layout::INITIAL_COLUMNS),
            level: ItemLevel { level: 0, max_level: 1 },
            rarity: ItemRarity::Epic,
            effect: ItemEffect::AddColumn,
            requirements: Vec::new(),
        },
    );

    items.push(
        Item {
            name: String::from_str("Row"),
            description: String::from_str("+1 row"),
            copies: ItemMaxCopies(1),
            level: ItemLevel { level: 0, max_level: 1 },
            rarity: ItemRarity::Rare,
            effect: ItemEffect::AddRow,
            requirements: Vec::new(),
        },
    );

    items
}

} // verus!
