use wiremux::registry::{ApiStability, RegistryError, ResolveError};
use wiremux::vendor_enhanced::{
    built_in_espressif_registry, convert_catalog, esptool_bridge_declaration,
    latest_espressif_catalog, latest_esptool_bridge_capability_id,
    latest_esptool_bridge_declaration, register_esptool_bridge_provider, BuiltInProviderError,
    CatalogError, EspressifVendorEnhancedApiCatalog, EspressifVendorEnhancedApiDeclaration,
    HostCapabilityRequirement, VendorEnhancedRegistry, ESPTOOL_BRIDGE_PROVIDER_KEY,
    GENERIC_ENHANCED_VIRTUAL_SERIAL_API, STABILITY_FROZEN,
};

fn esptool_bridge_raw_declaration(
    generic_enhanced_requirements: Vec<HostCapabilityRequirement>,
) -> EspressifVendorEnhancedApiDeclaration {
    EspressifVendorEnhancedApiDeclaration {
        api_name: "wiremux.vendor.enhanced.espressif.esptool_bridge".to_string(),
        frozen_version: 1,
        stability: STABILITY_FROZEN,
        description: String::new(),
        generic_enhanced_requirements,
    }
}

fn generic_virtual_serial_requirement() -> HostCapabilityRequirement {
    HostCapabilityRequirement {
        api_name: GENERIC_ENHANCED_VIRTUAL_SERIAL_API.to_string(),
        frozen_version: 1,
        description: String::new(),
    }
}

#[test]
fn latest_catalog_decodes_esptool_bridge_capability() {
    let catalog = latest_espressif_catalog().expect("catalog decodes");

    assert_eq!(catalog.current_version(), 1);
    let declaration =
        latest_esptool_bridge_declaration().expect("esptool bridge declaration exists");
    assert_eq!(
        declaration.id().api_name(),
        "wiremux.vendor.enhanced.espressif.esptool_bridge"
    );
    assert_eq!(declaration.id().frozen_version(), 1);
    assert_eq!(declaration.stability(), ApiStability::Frozen);
    assert!(catalog.find(declaration.id()).is_some());
}

#[test]
fn esptool_bridge_declares_generic_virtual_serial_requirement_by_reference() {
    let declaration =
        latest_esptool_bridge_declaration().expect("esptool bridge declaration exists");

    let requirements = declaration.requirements();

    assert_eq!(requirements.len(), 1);
    assert_eq!(
        requirements[0].id().api_name(),
        GENERIC_ENHANCED_VIRTUAL_SERIAL_API
    );
    assert_eq!(requirements[0].id().frozen_version(), 1);
}

#[test]
fn registry_resolves_registered_esptool_bridge_provider() {
    let registry = built_in_espressif_registry().expect("provider registers");
    let id = latest_esptool_bridge_capability_id().expect("capability id exists");

    let provider = registry.resolve(&id).expect("provider resolves");

    assert_eq!(provider.provider_key(), ESPTOOL_BRIDGE_PROVIDER_KEY);
    assert!(registry.supports(&id));
}

#[test]
fn vendor_registry_rejects_duplicate_provider() {
    let mut registry = VendorEnhancedRegistry::new();
    register_esptool_bridge_provider(&mut registry).expect("provider registers");

    let err = register_esptool_bridge_provider(&mut registry)
        .expect_err("duplicate provider is rejected");

    assert!(matches!(
        err,
        BuiltInProviderError::Registry(RegistryError::DuplicateProvider(_))
    ));
}

#[test]
fn vendor_registry_reports_missing_provider() {
    let registry = VendorEnhancedRegistry::new();
    let id = latest_esptool_bridge_capability_id().expect("capability id exists");

    let err = registry
        .resolve(&id)
        .expect_err("missing provider is reported");

    assert_eq!(err, ResolveError::ProviderNotRegistered(id));
}

#[test]
fn lib_catalog_rejects_duplicate_capability() {
    let raw = EspressifVendorEnhancedApiCatalog {
        current_version: 1,
        apis: vec![
            esptool_bridge_raw_declaration(vec![generic_virtual_serial_requirement()]),
            esptool_bridge_raw_declaration(vec![generic_virtual_serial_requirement()]),
        ],
    };

    let err = convert_catalog(&raw).expect_err("duplicate capability is rejected");

    assert!(matches!(err, CatalogError::DuplicateCapability(_)));
}

#[test]
fn catalog_rejects_duplicate_generic_requirement() {
    let raw = EspressifVendorEnhancedApiCatalog {
        current_version: 1,
        apis: vec![esptool_bridge_raw_declaration(vec![
            generic_virtual_serial_requirement(),
            generic_virtual_serial_requirement(),
        ])],
    };

    let err = convert_catalog(&raw).expect_err("duplicate requirement is rejected");

    assert!(matches!(
        err,
        CatalogError::DuplicateGenericEnhancedRequirement { .. }
    ));
}

#[test]
fn esptool_bridge_lookup_uses_espressif_vendor_namespace() {
    let raw = EspressifVendorEnhancedApiCatalog {
        current_version: 1,
        apis: vec![EspressifVendorEnhancedApiDeclaration {
            api_name: "wiremux.generic.enhanced.esptool_bridge".to_string(),
            frozen_version: 1,
            stability: STABILITY_FROZEN,
            description: String::new(),
            generic_enhanced_requirements: vec![generic_virtual_serial_requirement()],
        }],
    };
    let catalog = convert_catalog(&raw).expect("catalog converts");

    let err =
        esptool_bridge_declaration(&catalog).expect_err("generic namespace is not vendor");

    assert_eq!(err, CatalogError::EsptoolBridgeMissing);
}

#[test]
fn esptool_bridge_requires_generic_virtual_serial() {
    let raw = EspressifVendorEnhancedApiCatalog {
        current_version: 1,
        apis: vec![esptool_bridge_raw_declaration(Vec::new())],
    };
    let catalog = convert_catalog(&raw).expect("catalog converts");

    let err = esptool_bridge_declaration(&catalog)
        .expect_err("missing generic virtual serial requirement is rejected");

    assert_eq!(
        err,
        CatalogError::EsptoolBridgeMissingVirtualSerialRequirement
    );
}

#[test]
fn catalog_rejects_requirement_without_name_or_version() {
    let mut empty = generic_virtual_serial_requirement();
    empty.api_name = " ".to_string();
    let raw = EspressifVendorEnhancedApiCatalog {
        current_version: 1,
        apis: vec![esptool_bridge_raw_declaration(vec![empty])],
    };
    assert!(matches!(
        convert_catalog(&raw),
        Err(CatalogError::EmptyGenericEnhancedRequirement { .. })
    ));

    let mut zero = generic_virtual_serial_requirement();
    zero.frozen_version = 0;
    let raw = EspressifVendorEnhancedApiCatalog {
        current_version: 1,
        apis: vec![esptool_bridge_raw_declaration(vec![zero])],
    };
    assert!(matches!(
        convert_catalog(&raw),
        Err(CatalogError::MissingGenericEnhancedRequirementVersion { .. })
    ));
}
