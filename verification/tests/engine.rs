use injectables::compose::compose_fields;
use injectables::registry::{check_and_update_injection_chain, InjectionChains, Registry};
use injectables::types::{CompositionRequest, FieldDef, SourceRef, TargetShape};
use injectables::visibility::VisibilityKind;

fn field(name: &str, ty: &str, vis: VisibilityKind) -> FieldDef {
    FieldDef {
        name: name.to_string(),
        ty: ty.to_string(),
        vis,
        generic_params: Vec::new(),
    }
}

fn generic_field(name: &str, ty: &str, vis: VisibilityKind, params: &[&str]) -> FieldDef {
    FieldDef {
        name: name.to_string(),
        ty: ty.to_string(),
        vis,
        generic_params: params.iter().map(|p| p.to_string()).collect(),
    }
}

fn source(segments: &[&str], args: &[&str]) -> SourceRef {
    SourceRef {
        segments: segments.iter().map(|s| s.to_string()).collect(),
        type_args: args.iter().map(|a| a.to_string()).collect(),
    }
}

fn request(target: &str, scope: &str, sources: Vec<SourceRef>) -> CompositionRequest {
    CompositionRequest {
        target_name: target.to_string(),
        target_module: scope.to_string(),
        shape: TargetShape::NamedFields,
        sources,
    }
}

#[test]
fn public_field_composes_across_scopes() {
    // Declare provider `Base` with one public field `id: uint64`, then
    // compose `Document` in scope `app` from `Base` referenced in `app`.
    let mut registry = Registry::new();
    let mut chains = InjectionChains::new();
    registry.register(
        "Base".to_string(),
        vec![field("id", "uint64", VisibilityKind::Public)],
    );
    let req = request("Document", "app", vec![source(&["app", "Base"], &[])]);
    let merged = compose_fields(&mut registry, &mut chains, &req).unwrap();
    assert_eq!(merged.len(), 1);
    assert_eq!(merged[0].name, "id");
    assert_eq!(merged[0].ty, "uint64");
    assert!(matches!(merged[0].vis, VisibilityKind::Public));
}

#[test]
fn private_field_refused_across_scopes() {
    // A private field declared in `app::core` is not accessible from
    // `app::ui`.
    let mut registry = Registry::new();
    let mut chains = InjectionChains::new();
    registry.register(
        "Base".to_string(),
        vec![field("id", "uint64", VisibilityKind::Private)],
    );
    let req = request(
        "Document",
        "app::ui",
        vec![source(&["app", "core", "Base"], &[])],
    );
    let errs = compose_fields(&mut registry, &mut chains, &req).unwrap_err();
    assert_eq!(
        errs,
        vec![
            "Cannot access field 'id' with visibility Private from module 'app::core' in module 'app::ui'"
                .to_string()
        ]
    );
}

#[test]
fn private_field_allowed_in_descendant_scope() {
    let mut registry = Registry::new();
    let mut chains = InjectionChains::new();
    registry.register(
        "Base".to_string(),
        vec![field("id", "uint64", VisibilityKind::Private)],
    );
    let req = request(
        "Detail",
        "models::detail",
        vec![source(&["models", "Base"], &[])],
    );
    let merged = compose_fields(&mut registry, &mut chains, &req).unwrap();
    assert_eq!(merged.len(), 1);
    assert_eq!(merged[0].name, "id");
}

#[test]
fn self_reference_always_recursive_error() {
    let mut registry = Registry::new();
    let mut chains = InjectionChains::new();
    registry.register(
        "Document".to_string(),
        vec![field("id", "uint64", VisibilityKind::Public)],
    );
    let req = request("Document", "app", vec![source(&["Document"], &[])]);
    let errs = compose_fields(&mut registry, &mut chains, &req).unwrap_err();
    assert_eq!(
        errs,
        vec!["Recursive injection detected: Document tries to inject from itself".to_string()]
    );
}

#[test]
fn cycle_refused_on_second_edge_only() {
    let mut chains = InjectionChains::new();
    assert!(check_and_update_injection_chain(&mut chains, "A", "B").is_ok());
    let err = check_and_update_injection_chain(&mut chains, "B", "A").unwrap_err();
    assert_eq!(
        err,
        "Circular injection chain detected: B already depends on A".to_string()
    );
}

#[test]
fn cycle_refused_through_composition() {
    let mut registry = Registry::new();
    let mut chains = InjectionChains::new();
    registry.register(
        "A".to_string(),
        vec![field("a", "u8", VisibilityKind::Public)],
    );
    registry.register(
        "B".to_string(),
        vec![field("b", "u8", VisibilityKind::Public)],
    );
    let req_a = request("A", "", vec![source(&["B"], &[])]);
    assert!(compose_fields(&mut registry, &mut chains, &req_a).is_ok());
    let req_b = request("B", "", vec![source(&["A"], &[])]);
    let errs = compose_fields(&mut registry, &mut chains, &req_b).unwrap_err();
    assert_eq!(
        errs,
        vec!["Circular injection chain detected: B already depends on A".to_string()]
    );
}

#[test]
fn identical_duplicate_fields_merge_once() {
    let mut registry = Registry::new();
    let mut chains = InjectionChains::new();
    registry.register(
        "X".to_string(),
        vec![field("shared", "u32", VisibilityKind::Public)],
    );
    registry.register(
        "Y".to_string(),
        vec![field("shared", "u32", VisibilityKind::Public)],
    );
    let req = request(
        "Target",
        "",
        vec![source(&["X"], &[]), source(&["Y"], &[])],
    );
    let merged = compose_fields(&mut registry, &mut chains, &req).unwrap();
    assert_eq!(merged.len(), 1);
    assert_eq!(merged[0].name, "shared");
    assert_eq!(merged[0].ty, "u32");
}

#[test]
fn conflicting_types_refused() {
    let mut registry = Registry::new();
    let mut chains = InjectionChains::new();
    registry.register(
        "X".to_string(),
        vec![field("shared", "u32", VisibilityKind::Public)],
    );
    registry.register(
        "Y".to_string(),
        vec![field("shared", "u64", VisibilityKind::Public)],
    );
    let req = request(
        "Target",
        "",
        vec![source(&["X"], &[]), source(&["Y"], &[])],
    );
    let errs = compose_fields(&mut registry, &mut chains, &req).unwrap_err();
    assert_eq!(
        errs,
        vec!["Conflicting types for field 'shared': found both 'u32' and 'u64'".to_string()]
    );
}

#[test]
fn conflicting_visibility_refused() {
    let mut registry = Registry::new();
    let mut chains = InjectionChains::new();
    registry.register(
        "X".to_string(),
        vec![field("shared", "u32", VisibilityKind::Public)],
    );
    registry.register(
        "Y".to_string(),
        vec![field("shared", "u32", VisibilityKind::Private)],
    );
    let req = request(
        "Target",
        "",
        vec![source(&["X"], &[]), source(&["Y"], &[])],
    );
    let errs = compose_fields(&mut registry, &mut chains, &req).unwrap_err();
    assert_eq!(
        errs,
        vec![
            "Conflicting visibility for field 'shared': cannot have both private and public fields with the same name"
                .to_string()
        ]
    );
}

#[test]
fn transitive_chain_merges_union_without_duplicates() {
    // C composes B, which earlier composed A: C receives the union of B's
    // and A's fields, B's first, each name once.
    let mut registry = Registry::new();
    let mut chains = InjectionChains::new();
    registry.register(
        "A".to_string(),
        vec![field("alpha", "u8", VisibilityKind::Public)],
    );
    registry.register(
        "B".to_string(),
        vec![field("beta", "u16", VisibilityKind::Public)],
    );
    let req_b = request("B", "", vec![source(&["A"], &[])]);
    let from_a = compose_fields(&mut registry, &mut chains, &req_b).unwrap();
    assert_eq!(from_a.len(), 1);
    assert_eq!(from_a[0].name, "alpha");
    let req_c = request("C", "", vec![source(&["B"], &[])]);
    let merged = compose_fields(&mut registry, &mut chains, &req_c).unwrap();
    let names: Vec<&str> = merged.iter().map(|f| f.name.as_str()).collect();
    assert_eq!(names, vec!["beta", "alpha"]);
}

#[test]
fn generic_parameter_resolves_to_concrete_argument() {
    let mut registry = Registry::new();
    let mut chains = InjectionChains::new();
    registry.register(
        "Container".to_string(),
        vec![generic_field("data", "T", VisibilityKind::Public, &["T"])],
    );
    let req = request(
        "Doc",
        "",
        vec![source(&["Container"], &["string"])],
    );
    let merged = compose_fields(&mut registry, &mut chains, &req).unwrap();
    assert_eq!(merged[0].ty, "string");

    let mut registry2 = Registry::new();
    let mut chains2 = InjectionChains::new();
    registry2.register(
        "Container".to_string(),
        vec![generic_field("data", "T", VisibilityKind::Public, &["T"])],
    );
    let req2 = request(
        "Doc",
        "",
        vec![source(&["Container"], &["Pair<int,bool>"])],
    );
    let merged2 = compose_fields(&mut registry2, &mut chains2, &req2).unwrap();
    assert_eq!(merged2[0].ty, "Pair<int,bool>");
}

#[test]
fn unknown_provider_refused() {
    let mut registry = Registry::new();
    let mut chains = InjectionChains::new();
    let req = request("Doc", "", vec![source(&["Missing"], &[])]);
    let errs = compose_fields(&mut registry, &mut chains, &req).unwrap_err();
    assert_eq!(
        errs,
        vec!["Cannot inject fields from 'Missing' as this type does not exist".to_string()]
    );
}

#[test]
fn structural_errors_by_target_shape() {
    let mut registry = Registry::new();
    let mut chains = InjectionChains::new();
    registry.register(
        "Base".to_string(),
        vec![field("id", "u8", VisibilityKind::Public)],
    );
    let mut req = request("Doc", "", vec![source(&["Base"], &[])]);
    req.shape = TargetShape::UnnamedFields;
    let errs = compose_fields(&mut registry, &mut chains, &req).unwrap_err();
    assert_eq!(errs, vec!["Only named fields are supported".to_string()]);
    let mut req2 = request("Doc2", "", vec![source(&["Base"], &[])]);
    req2.shape = TargetShape::NotAStruct;
    let errs2 = compose_fields(&mut registry, &mut chains, &req2).unwrap_err();
    assert_eq!(
        errs2,
        vec!["Only structs are supported as injection targets".to_string()]
    );
}

#[test]
fn validation_and_chain_errors_are_batched() {
    // An unknown provider and a self-reference in one request are reported
    // together, validation first.
    let mut registry = Registry::new();
    let mut chains = InjectionChains::new();
    registry.register(
        "Doc".to_string(),
        vec![field("id", "u8", VisibilityKind::Public)],
    );
    let req = request(
        "Doc",
        "",
        vec![source(&["Missing"], &[]), source(&["Doc"], &[])],
    );
    let errs = compose_fields(&mut registry, &mut chains, &req).unwrap_err();
    assert_eq!(
        errs,
        vec![
            "Cannot inject fields from 'Missing' as this type does not exist".to_string(),
            "Recursive injection detected: Doc tries to inject from itself".to_string(),
        ]
    );
}

#[test]
fn redeclaration_overwrites_provider() {
    let mut registry = Registry::new();
    let mut chains = InjectionChains::new();
    registry.register(
        "Base".to_string(),
        vec![field("old", "u8", VisibilityKind::Public)],
    );
    registry.register(
        "Base".to_string(),
        vec![field("new", "u16", VisibilityKind::Public)],
    );
    let req = request("Doc", "", vec![source(&["Base"], &[])]);
    let merged = compose_fields(&mut registry, &mut chains, &req).unwrap();
    assert_eq!(merged.len(), 1);
    assert_eq!(merged[0].name, "new");
    assert_eq!(merged[0].ty, "u16");
}

#[test]
fn composition_records_reference_scope() {
    let mut registry = Registry::new();
    let mut chains = InjectionChains::new();
    registry.register(
        "Base".to_string(),
        vec![field("id", "u8", VisibilityKind::Public)],
    );
    assert_eq!(registry.get_info("Base").unwrap().module_scope, "");
    let req = request("Doc", "", vec![source(&["app", "core", "Base"], &[])]);
    compose_fields(&mut registry, &mut chains, &req).unwrap();
    assert_eq!(registry.get_info("Base").unwrap().module_scope, "app::core");
}

#[test]
fn empty_source_list_merges_nothing() {
    let mut registry = Registry::new();
    let mut chains = InjectionChains::new();
    let req = request("Doc", "app", vec![]);
    let merged = compose_fields(&mut registry, &mut chains, &req).unwrap();
    assert!(merged.is_empty());
}

#[test]
fn single_provider_fields_kept_verbatim() {
    // A non-generic provider under its own scope passes every field
    // through unchanged, in declaration order.
    let mut registry = Registry::new();
    let mut chains = InjectionChains::new();
    registry.register(
        "Base".to_string(),
        vec![
            field("id", "u64", VisibilityKind::Public),
            field("body", "String", VisibilityKind::Private),
            field("tag", "u8", VisibilityKind::Restricted("crate".to_string())),
        ],
    );
    let req = request("Doc", "lib", vec![source(&["lib", "Base"], &[])]);
    let merged = compose_fields(&mut registry, &mut chains, &req).unwrap();
    assert_eq!(merged.len(), 3);
    assert_eq!(merged[0].name, "id");
    assert_eq!(merged[0].ty, "u64");
    assert!(matches!(merged[0].vis, VisibilityKind::Public));
    assert_eq!(merged[1].name, "body");
    assert!(matches!(merged[1].vis, VisibilityKind::Private));
    assert_eq!(merged[2].name, "tag");
    assert_eq!(
        merged[2].vis,
        VisibilityKind::Restricted("crate".to_string())
    );
}

#[test]
fn repeating_a_source_trips_the_cycle_check() {
    // The dependency set is cumulative: once the first reference records
    // the edge, the second reference to the same provider finds the source
    // already among the target's dependencies and is refused as circular.
    let mut registry = Registry::new();
    let mut chains = InjectionChains::new();
    registry.register(
        "Base".to_string(),
        vec![field("id", "u8", VisibilityKind::Public)],
    );
    let req = request(
        "Doc",
        "",
        vec![source(&["Base"], &[]), source(&["Base"], &[])],
    );
    let errs = compose_fields(&mut registry, &mut chains, &req).unwrap_err();
    assert_eq!(
        errs,
        vec!["Circular injection chain detected: Doc already depends on Base".to_string()]
    );
}

#[test]
fn scopes_may_hold_multibyte_characters() {
    let mut registry = Registry::new();
    let mut chains = InjectionChains::new();
    registry.register(
        "Base".to_string(),
        vec![field("id", "u8", VisibilityKind::Private)],
    );
    let req = request(
        "Doc",
        "café::détail",
        vec![source(&["café", "Base"], &[])],
    );
    let merged = compose_fields(&mut registry, &mut chains, &req).unwrap();
    assert_eq!(merged.len(), 1);
    assert_eq!(registry.get_info("Base").unwrap().module_scope, "café");
}

#[test]
fn failed_request_leaves_recorded_edges_in_place() {
    // A request that fails after its edges were validated keeps those
    // edges: retrying the reverse direction still reports the cycle.
    let mut registry = Registry::new();
    let mut chains = InjectionChains::new();
    registry.register(
        "A".to_string(),
        vec![field("secret", "u8", VisibilityKind::Private)],
    );
    let req = request("B", "elsewhere", vec![source(&["app", "A"], &[])]);
    assert!(compose_fields(&mut registry, &mut chains, &req).is_err());
    let err = check_and_update_injection_chain(&mut chains, "A", "B").unwrap_err();
    assert_eq!(
        err,
        "Circular injection chain detected: A already depends on B".to_string()
    );
}
