use wiremux::generic_enhanced::{
    convert_catalog, latest_catalog, latest_virtual_serial_capability_id,
    latest_virtual_serial_declaration, register_virtual_serial_provider,
    virtual_serial_declaration, BuiltInProviderError, CatalogError, GenericEnhancedApiCatalog,
    GenericEnhancedApiDeclaration, GenericEnhancedRegistry, STABILITY_FROZEN,
    VIRTUAL_SERIAL_PROVIDER_KEY,
};
use wiremux::registry::{ApiStability, RegistryError, ResolveError};

fn raw_declaration(api_name: &str, frozen_version: u32, stability: i32) -> GenericEnhancedApiDeclaration {
    GenericEnhancedApiDeclaration {
        api_name: api_name.to_string(),
        frozen_version,
        stability,
        description: String::new(),
    }
}

#[test]
fn latest_catalog_decodes_virtual_serial_capability() {
    let catalog = latest_catalog().expect("catalog decodes");

    assert_eq!(catalog.current_version(), 1);
    let declaration =
        latest_virtual_serial_declaration().expect("virtual serial declaration exists");
    assert_eq!(
        declaration.id().api_name(),
        "wiremux.generic.enhanced.virtual_serial"
    );
    assert_eq!(declaration.id().frozen_version(), 1);
    assert_eq!(declaration.stability(), ApiStability::Frozen);
    assert!(catalog.find(declaration.id()).is_some());
}

#[test]
fn registry_resolves_registered_virtual_serial_provider() {
    let mut registry = GenericEnhancedRegistry::new();
    register_virtual_serial_provider(&mut registry).expect("provider registers");
    let id = latest_virtual_serial_capability_id().expect("capability id exists");

    let provider = registry.resolve(&id).expect("provider resolves");

    assert_eq!(provider.provider_key(), VIRTUAL_SERIAL_PROVIDER_KEY);
    assert!(registry.supports(&id));
}

#[test]
fn lib_registry_rejects_duplicate_provider() {
    let mut registry = GenericEnhancedRegistry::new();
    register_virtual_serial_provider(&mut registry).expect("provider registers");

    let err = register_virtual_serial_provider(&mut registry)
        .expect_err("duplicate provider is rejected");

    assert!(matches!(
        err,
        BuiltInProviderError::Registry(RegistryError::DuplicateProvider(_))
    ));
}

#[test]
fn lib_registry_reports_missing_provider() {
    let registry = GenericEnhancedRegistry::new();
    let id = latest_virtual_serial_capability_id().expect("capability id exists");

    let err = registry
        .resolve(&id)
        .expect_err("missing provider is reported");

    assert_eq!(err, ResolveError::ProviderNotRegistered(id));
}

#[test]
fn catalog_rejects_duplicate_capability() {
    let raw = GenericEnhancedApiCatalog {
        current_version: 1,
        apis: vec![
            raw_declaration("wiremux.generic.enhanced.virtual_serial", 1, STABILITY_FROZEN),
            raw_declaration("wiremux.generic.enhanced.virtual_serial", 1, STABILITY_FROZEN),
        ],
    };

    let err = convert_catalog(&raw).expect_err("duplicate capability is rejected");

    assert!(matches!(err, CatalogError::DuplicateCapability(_)));
}

#[test]
fn virtual_serial_lookup_uses_generic_enhanced_api_namespace() {
    let raw = GenericEnhancedApiCatalog {
        current_version: 1,
        apis: vec![raw_declaration("wiremux.vendor.enhanced.virtual_serial", 1, STABILITY_FROZEN)],
    };
    let catalog = convert_catalog(&raw).expect("catalog converts");

    let err =
        virtual_serial_declaration(&catalog).expect_err("vendor namespace is not generic");

    assert_eq!(err, CatalogError::VirtualSerialMissing);
}

#[test]
fn catalog_rejects_empty_name_zero_version_and_unknown_stability() {
    let empty = GenericEnhancedApiCatalog { current_version: 1, apis: vec![raw_declaration("  ", 1, STABILITY_FROZEN)] };
    assert_eq!(convert_catalog(&empty), Err(CatalogError::EmptyApiName));

    let zero = GenericEnhancedApiCatalog { current_version: 1, apis: vec![raw_declaration("a.b", 0, STABILITY_FROZEN)] };
    assert_eq!(
        convert_catalog(&zero),
        Err(CatalogError::MissingFrozenVersion { api_name: "a.b".to_string() })
    );

    let unknown = GenericEnhancedApiCatalog { current_version: 1, apis: vec![raw_declaration("a.b", 1, 9)] };
    let err = convert_catalog(&unknown).expect_err("unknown stability");
    assert_eq!(err, CatalogError::UnknownStability { api_name: "a.b".to_string(), value: 9 });
    assert_eq!(err.to_text(), "generic enhanced catalog entry a.b has unknown stability 9");
}

#[test]
fn virtual_serial_lookup_rejects_two_versions() {
    let raw = GenericEnhancedApiCatalog {
        current_version: 2,
        apis: vec![
            raw_declaration("wiremux.generic.enhanced.virtual_serial", 1, STABILITY_FROZEN),
            raw_declaration("wiremux.generic.enhanced.virtual_serial", 2, STABILITY_FROZEN),
        ],
    };
    let catalog = convert_catalog(&raw).expect("catalog converts");
    assert_eq!(
        virtual_serial_declaration(&catalog).expect_err("two versions"),
        CatalogError::VirtualSerialAmbiguous
    );
}
