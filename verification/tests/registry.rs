use wiremux::registry::{
    ApiStability, CapabilityCatalog, CapabilityDeclaration, CapabilityId, CapabilityRequirement,
    ProviderRegistry, RegistryError, ResolveError,
};

fn test_capability() -> CapabilityDeclaration {
    CapabilityDeclaration::new(
        CapabilityId::new("wiremux.test.capability", 1),
        ApiStability::Frozen,
        "test capability",
        Vec::new(),
    )
}

#[test]
fn registry_resolves_registered_provider() {
    let capability = test_capability();
    let id = capability.id().clone();
    let mut registry = ProviderRegistry::new();

    registry
        .register(capability, "test_provider")
        .expect("provider registers");

    let provider = registry.resolve(&id).expect("provider resolves");
    assert_eq!(provider.provider_key(), "test_provider");
    assert!(registry.supports(&id));
}

#[test]
fn registry_rejects_duplicate_provider() {
    let capability = test_capability();
    let mut registry = ProviderRegistry::new();
    registry
        .register(capability.clone(), "first")
        .expect("provider registers");

    let err = registry
        .register(capability, "second")
        .expect_err("duplicate provider is rejected");

    assert!(matches!(err, RegistryError::DuplicateProvider(_)));
}

#[test]
fn registry_reports_missing_provider() {
    let registry = ProviderRegistry::new();
    let id = CapabilityId::new("wiremux.test.capability", 1);

    let err = registry
        .resolve(&id)
        .expect_err("missing provider is reported");

    assert_eq!(err, ResolveError::ProviderNotRegistered(id));
}

#[test]
fn register_then_resolve_keeps_first_provider() {
    let mut registry = ProviderRegistry::new();
    registry.register(test_capability(), "first").expect("registers");
    let other = CapabilityDeclaration::new(
        CapabilityId::new("wiremux.test.capability", 2),
        ApiStability::Stable,
        "next version",
        Vec::new(),
    );
    registry.register(other, "second").expect("another version registers");
    assert!(registry.register(test_capability(), "third").is_err());

    let v1 = CapabilityId::new("wiremux.test.capability", 1);
    let v2 = CapabilityId::new("wiremux.test.capability", 2);
    assert_eq!(registry.resolve(&v1).expect("v1").provider_key(), "first");
    assert_eq!(registry.resolve(&v2).expect("v2").provider_key(), "second");
    assert!(!registry.supports(&CapabilityId::new("wiremux.test.capability", 3)));
}

#[test]
fn capability_id_text_and_errors_read_as_name_and_version() {
    let id = CapabilityId::new("wiremux.test.capability", 7);
    assert_eq!(id.to_text(), "wiremux.test.capability@7");
    assert_eq!(
        RegistryError::DuplicateProvider(id.clone()).to_text(),
        "enhanced provider already registered for wiremux.test.capability@7"
    );
    assert_eq!(
        ResolveError::ProviderNotRegistered(id).to_text(),
        "enhanced provider is not registered for wiremux.test.capability@7"
    );
}

#[test]
fn catalog_find_matches_name_and_version() {
    let req = CapabilityRequirement::new(CapabilityId::new("wiremux.dep", 1), "needs dep");
    let decl = CapabilityDeclaration::new(
        CapabilityId::new("wiremux.test.capability", 1),
        ApiStability::Development,
        "test capability",
        vec![req],
    );
    let catalog = CapabilityCatalog::new(3, vec![decl]);
    assert_eq!(catalog.current_version(), 3);
    assert_eq!(catalog.capabilities().len(), 1);
    let found = catalog.find(&CapabilityId::new("wiremux.test.capability", 1)).expect("found");
    assert_eq!(found.requirements()[0].description(), "needs dep");
    assert_eq!(found.stability(), ApiStability::Development);
    assert!(catalog.find(&CapabilityId::new("wiremux.test.capability", 2)).is_none());
}
