use injectables::compose::process_field_type;
use injectables::registry::{collect_fields, get_path_from_type, InjectionChains, Registry};
use injectables::text::{is_scope_child, replace_all, str_eq, str_starts_with};
use injectables::types::FieldDef;
use injectables::visibility::{can_access_field, VisibilityKind};

fn field(name: &str, ty: &str, vis: VisibilityKind) -> FieldDef {
    FieldDef {
        name: name.to_string(),
        ty: ty.to_string(),
        vis,
        generic_params: Vec::new(),
    }
}

#[test]
fn string_equality_and_prefix() {
    assert!(str_eq("app::core", "app::core"));
    assert!(!str_eq("app::core", "app::cor"));
    assert!(str_starts_with("app::core", "app"));
    assert!(!str_starts_with("app", "app::core"));
    assert!(str_starts_with("anything", ""));
}

#[test]
fn scope_child_requires_separator_boundary() {
    assert!(is_scope_child("models::detail", "models"));
    assert!(!is_scope_child("models", "models"));
    // A sibling sharing a textual prefix is not a child.
    assert!(!is_scope_child("app::foobar", "app::foo"));
    assert!(is_scope_child("app::foo::bar", "app::foo"));
}

#[test]
fn replace_all_replaces_every_occurrence() {
    assert_eq!(replace_all("T", "T", "string"), "string");
    assert_eq!(replace_all("Vec<T>", "T", "u8"), "Vec<u8>");
    assert_eq!(replace_all("Map<T, T>", "T", "K"), "Map<K, K>");
    // Literal text substitution also hits occurrences inside longer names.
    assert_eq!(replace_all("TValue", "T", "u8"), "u8Value");
    // An empty pattern replaces nothing.
    assert_eq!(replace_all("abc", "", "x"), "abc");
    assert_eq!(replace_all("abc", "d", "x"), "abc");
}

#[test]
fn path_from_type_drops_final_segment() {
    let segs: Vec<String> = vec!["crate".to_string(), "models".to_string(), "User".to_string()];
    assert_eq!(get_path_from_type(&segs), "crate::models");
    let single: Vec<String> = vec!["User".to_string()];
    assert_eq!(get_path_from_type(&single), "");
    let none: Vec<String> = vec![];
    assert_eq!(get_path_from_type(&none), "");
}

#[test]
fn public_fields_always_accessible() {
    assert!(can_access_field(&VisibilityKind::Public, "a", "b"));
    assert!(can_access_field(&VisibilityKind::Public, "", ""));
}

#[test]
fn private_fields_follow_scope_nesting() {
    let private = VisibilityKind::Private;
    assert!(can_access_field(&private, "", ""));
    assert!(can_access_field(&private, "models", "models"));
    assert!(can_access_field(&private, "models", "models::detail"));
    assert!(!can_access_field(&private, "models", "controllers"));
    assert!(!can_access_field(&private, "app::foo", "app::foobar"));
}

#[test]
fn restricted_fields_follow_restriction_paths() {
    assert!(can_access_field(
        &VisibilityKind::Restricted("crate".to_string()),
        "a",
        "b"
    ));
    let to_super = VisibilityKind::Restricted("super".to_string());
    assert!(can_access_field(&to_super, "app", "app::inner"));
    assert!(!can_access_field(&to_super, "app", "lib"));
    let to_self = VisibilityKind::Restricted("self".to_string());
    assert!(can_access_field(&to_self, "app", "app"));
    assert!(!can_access_field(&to_self, "app", "app::inner"));
    let explicit = VisibilityKind::Restricted("in app".to_string());
    assert!(can_access_field(&explicit, "whatever", "app::inner"));
    assert!(!can_access_field(&explicit, "whatever", "lib"));
}

#[test]
fn visibility_labels() {
    assert_eq!(VisibilityKind::Public.describe(), "Public");
    assert_eq!(VisibilityKind::Private.describe(), "Private");
    assert_eq!(
        VisibilityKind::Restricted("crate".to_string()).describe(),
        "Restricted(\"crate\")"
    );
}

#[test]
fn field_type_resolution_zips_to_the_shorter_list() {
    let f = FieldDef {
        name: "data".to_string(),
        ty: "Map<K, V>".to_string(),
        vis: VisibilityKind::Public,
        generic_params: vec!["K".to_string(), "V".to_string()],
    };
    let both: Vec<String> = vec!["u8".to_string(), "u16".to_string()];
    assert_eq!(process_field_type(&f, &both), "Map<u8, u16>");
    // A missing argument leaves the trailing parameter in place.
    let one: Vec<String> = vec!["u8".to_string()];
    assert_eq!(process_field_type(&f, &one), "Map<u8, V>");
    // Extra arguments are ignored.
    let three: Vec<String> = vec!["u8".to_string(), "u16".to_string(), "u32".to_string()];
    assert_eq!(process_field_type(&f, &three), "Map<u8, u16>");
    // No declared parameters: the type is untouched whatever is supplied.
    let plain = field("id", "T", VisibilityKind::Public);
    assert_eq!(process_field_type(&plain, &both), "T");
}

#[test]
fn collect_fields_walks_dependencies_breadth_first() {
    let mut registry = Registry::new();
    let mut chains = InjectionChains::new();
    registry.register(
        "A".to_string(),
        vec![field("alpha", "u8", VisibilityKind::Public)],
    );
    registry.register(
        "B".to_string(),
        vec![field("beta", "u16", VisibilityKind::Public)],
    );
    injectables::registry::check_and_update_injection_chain(&mut chains, "B", "A").unwrap();
    let collected = collect_fields("B", &registry, &chains).unwrap();
    let names: Vec<&str> = collected.iter().map(|f| f.name.as_str()).collect();
    assert_eq!(names, vec!["beta", "alpha"]);
    // A name with no binding and no dependencies collects nothing.
    let empty = collect_fields("Missing", &registry, &chains).unwrap();
    assert!(empty.is_empty());
}
