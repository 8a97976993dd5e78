use pumpkin_core::data_component::DataComponent;

/// Test that map lookup works for known data components
#[test]
fn test_data_component_lookup() {
    // Test a few known data components
    assert!(DataComponent::try_from_name("minecraft:custom_data").is_some());
    assert!(DataComponent::try_from_name("minecraft:max_stack_size").is_some());
    assert!(DataComponent::try_from_name("minecraft:damage").is_some());

    // Test that invalid names return None
    assert!(DataComponent::try_from_name("invalid:component").is_none());
    assert!(DataComponent::try_from_name("").is_none());
}

/// Test that round-trip conversion works (name -> enum -> name)
#[test]
fn test_data_component_roundtrip() {
    let name = "minecraft:custom_data";
    let component = DataComponent::try_from_name(name).expect("Component should exist");
    assert_eq!(component.to_name(), name);
}

/// Test that ID conversion works
#[test]
fn test_data_component_id_conversion() {
    // Get a component by name
    let component =
        DataComponent::try_from_name("minecraft:custom_data").expect("Component should exist");

    // Convert to ID and back
    let id = component.to_id();
    let component_from_id = DataComponent::try_from_id(id).expect("Component should exist by ID");

    assert_eq!(component, component_from_id);
}

#[test]
fn test_every_component_name_roundtrips() {
    let names = [
        "minecraft:custom_data",
        "minecraft:max_stack_size",
        "minecraft:max_damage",
        "minecraft:damage",
        "minecraft:unbreakable",
        "minecraft:custom_name",
        "minecraft:item_name",
        "minecraft:lore",
        "minecraft:rarity",
        "minecraft:enchantments",
    ];
    for name in names {
        let c = DataComponent::try_from_name(name).expect("known component");
        assert_eq!(c.to_name(), name);
        assert_eq!(DataComponent::try_from_id(c.to_id()), Some(c));
    }
    assert_eq!(DataComponent::try_from_id(10), None);
}
