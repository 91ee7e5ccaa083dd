use lkjmcrs::chunk::ProbeError;
use lkjmcrs::registry::{
    registry_entries, validate_registries, validate_tags, DecodedRegistry, DecodedTag,
    DecodedTagGroup, RegistryContract,
};

fn strings(items: &[&str]) -> Vec<String> {
    items.iter().map(|s| s.to_string()).collect()
}

fn contract() -> RegistryContract {
    RegistryContract {
        registry_ids: strings(&["minecraft:dimension_type", "minecraft:cat_variant", "minecraft:timeline"]),
        one_entry: vec![("minecraft:dimension_type".to_string(), "minecraft:overworld".to_string())],
        non_empty_variant: strings(&["minecraft:cat_variant"]),
        timeline_registry: "minecraft:timeline".to_string(),
        timeline_entry: "minecraft:day".to_string(),
        timeline_overworld_tag: "minecraft:in_overworld".to_string(),
        timeline_overworld_entry_id: 0,
    }
}

fn registry(id: &str, entries: &[&str]) -> DecodedRegistry {
    DecodedRegistry { id: id.to_string(), entries: strings(entries) }
}

fn registries() -> Vec<DecodedRegistry> {
    vec![
        registry("minecraft:dimension_type", &["minecraft:overworld"]),
        registry("minecraft:cat_variant", &["minecraft:tabby", "minecraft:black"]),
        registry("minecraft:timeline", &["minecraft:day"]),
    ]
}

fn group(registry: &str, tags: Vec<DecodedTag>) -> DecodedTagGroup {
    DecodedTagGroup { registry: registry.to_string(), tags }
}

fn tags(entries: Vec<i32>) -> Vec<DecodedTagGroup> {
    vec![
        group("minecraft:dimension_type", vec![]),
        group("minecraft:cat_variant", vec![]),
        group(
            "minecraft:timeline",
            vec![
                DecodedTag { name: "minecraft:other".to_string(), entries: vec![4] },
                DecodedTag { name: "minecraft:in_overworld".to_string(), entries },
            ],
        ),
    ]
}

fn phase<T>(result: Result<T, ProbeError>) -> &'static str {
    match result {
        Err(ProbeError::Phase(phase)) => phase,
        _ => "",
    }
}

#[test]
fn registries_matching_the_contract_are_accepted() {
    assert!(validate_registries(&registries(), &contract()).is_ok());
}

#[test]
fn registries_are_checked_in_order() {
    let mut swapped = registries();
    swapped.swap(0, 1);
    assert_eq!(phase(validate_registries(&swapped, &contract())), "registry ids");
    let mut short = registries();
    short.pop();
    assert_eq!(phase(validate_registries(&short, &contract())), "registry ids");

    let mut two_dimensions = registries();
    two_dimensions[0] = registry("minecraft:dimension_type", &["minecraft:overworld", "minecraft:end"]);
    assert_eq!(phase(validate_registries(&two_dimensions, &contract())), "registry entry keys");

    let mut no_cats = registries();
    no_cats[1] = registry("minecraft:cat_variant", &[]);
    assert_eq!(phase(validate_registries(&no_cats, &contract())), "empty variant registry");

    let mut night = registries();
    night[2] = registry("minecraft:timeline", &["minecraft:night"]);
    assert_eq!(phase(validate_registries(&night, &contract())), "timeline registry");

    let mut unknown = contract();
    unknown.non_empty_variant.push("minecraft:wolf_variant".to_string());
    assert_eq!(phase(validate_registries(&registries(), &unknown)), "missing registry");
}

#[test]
fn registry_entries_are_found_by_id() {
    let regs = registries();
    assert_eq!(
        registry_entries(&regs, "minecraft:cat_variant").unwrap(),
        &strings(&["minecraft:tabby", "minecraft:black"])
    );
    assert_eq!(phase(registry_entries(&regs, "minecraft:wolf_variant")), "missing registry");
}

#[test]
fn tags_matching_the_contract_are_accepted() {
    assert!(validate_tags(&tags(vec![0]), &contract()).is_ok());
}

#[test]
fn tags_are_checked() {
    assert_eq!(phase(validate_tags(&tags(vec![1]), &contract())), "timeline tag entries");
    assert_eq!(phase(validate_tags(&tags(vec![0, 0]), &contract())), "timeline tag entries");
    let mut missing_tag = tags(vec![0]);
    missing_tag[2].tags.pop();
    assert_eq!(phase(validate_tags(&missing_tag, &contract())), "timeline overworld tag");
    let mut reordered = tags(vec![0]);
    reordered.swap(1, 2);
    assert_eq!(phase(validate_tags(&reordered, &contract())), "tag registry ids");
    let mut other_timeline = contract();
    other_timeline.timeline_registry = "minecraft:clock".to_string();
    assert_eq!(phase(validate_tags(&tags(vec![0]), &other_timeline)), "timeline tag group");
}
