//! The data-component registry: a closed name <-> id lookup table for the
//! components an item stack can carry. Both lookups are total and
//! side-effect-free, and the two directions invert each other.

use vstd::prelude::*;
use crate::text::str_eq;

verus! {

/// A data component an item stack can carry, one variant per registered
/// component name.
#[derive(Clone, Copy, Debug, PartialEq, Eq, Structural)]
pub enum DataComponent {
    CustomData,
    MaxStackSize,
    MaxDamage,
    Damage,
    Unbreakable,
    CustomName,
    ItemName,
    Lore,
    Rarity,
    Enchantments,
}

/// The registered name of a component.
pub open spec fn spec_component_name(c: DataComponent) -> Seq<char> {
    match c {
        DataComponent::CustomData => "minecraft:custom_data"@,
        DataComponent::MaxStackSize => "minecraft:max_stack_size"@,
        DataComponent::MaxDamage => "minecraft:max_damage"@,
        DataComponent::Damage => "minecraft:damage"@,
        DataComponent::Unbreakable => "minecraft:unbreakable"@,
        DataComponent::CustomName => "minecraft:custom_name"@,
        DataComponent::ItemName => "minecraft:item_name"@,
        DataComponent::Lore => "minecraft:lore"@,
        DataComponent::Rarity => "minecraft:rarity"@,
        DataComponent::Enchantments => "minecraft:enchantments"@,
    }
}

/// The numeric id of a component: its position in the registry.
pub open spec fn spec_component_id(c: DataComponent) -> u16 {
    match c {
        DataComponent::CustomData => 0,
        DataComponent::MaxStackSize => 1,
        DataComponent::MaxDamage => 2,
        DataComponent::Damage => 3,
        DataComponent::Unbreakable => 4,
        DataComponent::CustomName => 5,
        DataComponent::ItemName => 6,
        DataComponent::Lore => 7,
        DataComponent::Rarity => 8,
        DataComponent::Enchantments => 9,
    }
}

/// The component registered under a numeric id, if any.
pub open spec fn spec_component_from_id(id: u16) -> Option<DataComponent> {
    if id == 0 {
        Some(DataComponent::CustomData)
    } else if id == 1 {
        Some(DataComponent::MaxStackSize)
    } else if id == 2 {
        Some(DataComponent::MaxDamage)
    } else if id == 3 {
        Some(DataComponent::Damage)
    } else if id == 4 {
        Some(DataComponent::Unbreakable)
    } else if id == 5 {
        Some(DataComponent::CustomName)
    } else if id == 6 {
        Some(DataComponent::ItemName)
    } else if id == 7 {
        Some(DataComponent::Lore)
    } else if id == 8 {
        Some(DataComponent::Rarity)
    } else if id == 9 {
        Some(DataComponent::Enchantments)
    } else {
        None
    }
}

/// The component registered under a name, if any.
pub open spec fn spec_component_from_name(s: Seq<char>) -> Option<DataComponent> {
    if s == spec_component_name(DataComponent::CustomData) {
        Some(DataComponent::CustomData)
    } else if s == spec_component_name(DataComponent::MaxStackSize) {
        Some(DataComponent::MaxStackSize)
    } else if s == spec_component_name(DataComponent::MaxDamage) {
        Some(DataComponent::MaxDamage)
    } else if s == spec_component_name(DataComponent::Damage) {
        Some(DataComponent::Damage)
    } else if s == spec_component_name(DataComponent::Unbreakable) {
        Some(DataComponent::Unbreakable)
    } else if s == spec_component_name(DataComponent::CustomName) {
        Some(DataComponent::CustomName)
    } else if s == spec_component_name(DataComponent::ItemName) {
        Some(DataComponent::ItemName)
    } else if s == spec_component_name(DataComponent::Lore) {
        Some(DataComponent::Lore)
    } else if s == spec_component_name(DataComponent::Rarity) {
        Some(DataComponent::Rarity)
    } else if s == spec_component_name(DataComponent::Enchantments) {
        Some(DataComponent::Enchantments)
    } else {
        None
    }
}

impl DataComponent {
    /// The registered name of this component.
    pub fn to_name(&self) -> (r: &'static str)
        ensures
            r@ == spec_component_name(*self),
    {
        match self {
            DataComponent::CustomData => "minecraft:custom_data",
            DataComponent::MaxStackSize => "minecraft:max_stack_size",
            DataComponent::MaxDamage => "minecraft:max_damage",
            DataComponent::Damage => "minecraft:damage",
            DataComponent::Unbreakable => "minecraft:unbreakable",
            DataComponent::CustomName => "minecraft:custom_name",
            DataComponent::ItemName => "minecraft:item_name",
            DataComponent::Lore => "minecraft:lore",
            DataComponent::Rarity => "minecraft:rarity",
            DataComponent::Enchantments => "minecraft:enchantments",
        }
    }

    /// The numeric id of this component.
    pub fn to_id(&self) -> (r: u16)
        ensures
            r == spec_component_id(*self),
    {
        match self {
            DataComponent::CustomData => 0,
            DataComponent::MaxStackSize => 1,
            DataComponent::MaxDamage => 2,
            DataComponent::Damage => 3,
            DataComponent::Unbreakable => 4,
            DataComponent::CustomName => 5,
            DataComponent::ItemName => 6,
            DataComponent::Lore => 7,
            DataComponent::Rarity => 8,
            DataComponent::Enchantments => 9,
        }
    }

    /// Looks a component up by its numeric id.
    pub fn try_from_id(id: u16) -> (r: Option<DataComponent>)
        ensures
            r == spec_component_from_id(id),
    {
        if id == 0 {
            Some(DataComponent::CustomData)
        } else if id == 1 {
            Some(DataComponent::MaxStackSize)
        } else if id == 2 {
            Some(DataComponent::MaxDamage)
        } else if id == 3 {
            Some(DataComponent::Damage)
        } else if id == 4 {
            Some(DataComponent::Unbreakable)
        } else if id == 5 {
            Some(DataComponent::CustomName)
        } else if id == 6 {
            Some(DataComponent::ItemName)
        } else if id == 7 {
            Some(DataComponent::Lore)
        } else if id == 8 {
            Some(DataComponent::Rarity)
        } else if id == 9 {
            Some(DataComponent::Enchantments)
        } else {
            None
        }
    }

    /// Looks a component up by its registered name.
    pub fn try_from_name(name: &str) -> (r: Option<DataComponent>)
        ensures
            r == spec_component_from_name(name@),
    {
        if str_eq(name, "minecraft:custom_data") {
            Some(DataComponent::CustomData)
        } else if str_eq(name, "minecraft:max_stack_size") {
            Some(DataComponent::MaxStackSize)
        } else if str_eq(name, "minecraft:max_damage") {
            Some(DataComponent::MaxDamage)
        } else if str_eq(name, "minecraft:damage") {
            Some(DataComponent::Damage)
        } else if str_eq(name, "minecraft:unbreakable") {
            Some(DataComponent::Unbreakable)
        } else if str_eq(name, "minecraft:custom_name") {
            Some(DataComponent::CustomName)
        } else if str_eq(name, "minecraft:item_name") {
            Some(DataComponent::ItemName)
        } else if str_eq(name, "minecraft:lore") {
            Some(DataComponent::Lore)
        } else if str_eq(name, "minecraft:rarity") {
            Some(DataComponent::Rarity)
        } else if str_eq(name, "minecraft:enchantments") {
            Some(DataComponent::Enchantments)
        } else {
            None
        }
    }
}

/// Law: looking a component's own name up in the registry finds exactly that
/// component; the name table is injective.
#[verifier::rlimit(60)]
pub proof fn lemma_component_name_roundtrip(c: DataComponent)
    ensures
        spec_component_from_name(spec_component_name(c)) == Some(c),
{
    broadcast use vstd::string::group_string_axioms;

    reveal_strlit("minecraft:custom_data");
    reveal_strlit("minecraft:max_stack_size");
    reveal_strlit("minecraft:max_damage");
    reveal_strlit("minecraft:damage");
    reveal_strlit("minecraft:unbreakable");
    reveal_strlit("minecraft:custom_name");
    reveal_strlit("minecraft:item_name");
    reveal_strlit("minecraft:lore");
    reveal_strlit("minecraft:rarity");
    reveal_strlit("minecraft:enchantments");
    assert(("minecraft:custom_data"@).len() == 21);
    assert(("minecraft:max_stack_size"@).len() == 24);
    assert(("minecraft:max_damage"@).len() == 20);
    assert(("minecraft:damage"@).len() == 16);
    assert(("minecraft:unbreakable"@).len() == 21);
    assert(("minecraft:custom_name"@).len() == 21);
    assert(("minecraft:item_name"@).len() == 19);
    assert(("minecraft:lore"@).len() == 14);
    assert(("minecraft:rarity"@).len() == 16);
    assert(("minecraft:enchantments"@).len() == 22);
    assert(("minecraft:custom_data"@)[10] == 'c');
    assert(("minecraft:unbreakable"@)[10] == 'u');
    assert(("minecraft:custom_name"@)[17] == 'n');
    assert(("minecraft:custom_data"@)[17] == 'd');
    assert(("minecraft:unbreakable"@)[17] == 'a');
    assert(("minecraft:damage"@)[10] == 'd');
    assert(("minecraft:rarity"@)[10] == 'r');
}

/// Law: converting a component to its numeric id and back yields the same
/// component.
pub proof fn lemma_component_id_roundtrip(c: DataComponent)
    ensures
        spec_component_from_id(spec_component_id(c)) == Some(c),
{
}

} // verus!
