//! The Espressif vendor enhanced host APIs: their catalog, which refers to
//! generic enhanced APIs by name and version, and the built-in esptool
//! bridge provider.
use vstd::prelude::*;
use crate::registry::{
    declaration_position, ApiStability, CapabilityCatalog, CapabilityDeclaration, CapabilityId,
    CapabilityRequirement, ProviderRegistry, RegistryError,
};
use crate::text::{decimal_string, push_str, str_is_concat, trim_string};

verus! {

/// The registry of providers for these capabilities.
pub type VendorEnhancedRegistry = ProviderRegistry;

pub const ESPRESSIF_VENDOR_ENHANCED_API_PREFIX: &'static str = "wiremux.vendor.enhanced.espressif.";
pub const ESPTOOL_BRIDGE_PROVIDER_KEY: &'static str = "esptool_bridge";
pub const ESPTOOL_BRIDGE_API_NAME: &'static str = "wiremux.vendor.enhanced.espressif.esptool_bridge";
pub const ESPTOOL_BRIDGE_DESCRIPTION: &'static str = "Bridges esptool traffic to the device through a virtual serial endpoint.";
pub const GENERIC_ENHANCED_VIRTUAL_SERIAL_API: &'static str = "wiremux.generic.enhanced.virtual_serial";
pub const VIRTUAL_SERIAL_REQUIREMENT_DESCRIPTION: &'static str = "The esptool bridge is served through a generic virtual serial endpoint.";

/// Stability values of a catalog entry as the catalog encodes them.
pub const STABILITY_UNSPECIFIED: i32 = 0;
pub const STABILITY_DEVELOPMENT: i32 = 1;
pub const STABILITY_STABLE: i32 = 2;
pub const STABILITY_FROZEN: i32 = 3;

/// A generic enhanced API that a vendor API needs, as the catalog encodes
/// it.
#[derive(Clone, Debug, PartialEq, Eq)]
pub struct HostCapabilityRequirement {
    pub api_name: String,
    pub frozen_version: u32,
    pub description: String,
}

/// A requirement entry as a value.
pub struct RawRequirementView {
    pub api_name: Seq<char>,
    pub frozen_version: u32,
    pub description: Seq<char>,
}

impl View for HostCapabilityRequirement {
    type V = RawRequirementView;

    open spec fn view(&self) -> RawRequirementView {
        RawRequirementView {
            api_name: self.api_name@,
            frozen_version: self.frozen_version,
            description: self.description@,
        }
    }
}

pub open spec fn raw_requirements_view(reqs: Seq<HostCapabilityRequirement>) -> Seq<RawRequirementView> {
    reqs.map_values(|r: HostCapabilityRequirement| r@)
}

/// A catalog entry as the catalog encodes it.
#[derive(Clone, Debug, PartialEq, Eq)]
pub struct EspressifVendorEnhancedApiDeclaration {
    pub api_name: String,
    pub frozen_version: u32,
    pub stability: i32,
    pub description: String,
    pub generic_enhanced_requirements: Vec<HostCapabilityRequirement>,
}

/// The catalog as it is encoded.
#[derive(Clone, Debug, PartialEq, Eq)]
pub struct EspressifVendorEnhancedApiCatalog {
    pub current_version: u32,
    pub apis: Vec<EspressifVendorEnhancedApiDeclaration>,
}

/// A catalog entry as a value.
pub struct RawApiView {
    pub api_name: Seq<char>,
    pub frozen_version: u32,
    pub stability: i32,
    pub description: Seq<char>,
    pub requirements: Seq<RawRequirementView>,
}

impl View for EspressifVendorEnhancedApiDeclaration {
    type V = RawApiView;

    open spec fn view(&self) -> RawApiView {
        RawApiView {
            api_name: self.api_name@,
            frozen_version: self.frozen_version,
            stability: self.stability,
            description: self.description@,
            requirements: raw_requirements_view(self.generic_enhanced_requirements@),
        }
    }
}

pub open spec fn raw_apis_view(apis: Seq<EspressifVendorEnhancedApiDeclaration>) -> Seq<RawApiView> {
    apis.map_values(|a: EspressifVendorEnhancedApiDeclaration| a@)
}

/// Why the catalog could not be read.
#[derive(Debug, PartialEq, Eq)]
pub enum CatalogError {
    Decode(String),
    EmptyApiName,
    MissingFrozenVersion { api_name: String },
    UnknownStability { api_name: String, value: i32 },
    DuplicateCapability(CapabilityId),
    EmptyGenericEnhancedRequirement { api_name: String },
    MissingGenericEnhancedRequirementVersion { api_name: String, required_api_name: String },
    DuplicateGenericEnhancedRequirement { api_name: String, requirement: CapabilityId },
    EsptoolBridgeMissing,
    EsptoolBridgeAmbiguous,
    EsptoolBridgeMissingVirtualSerialRequirement,
}

/// A catalog error as a value.
pub enum CatalogErrorView {
    Decode(Seq<char>),
    EmptyApiName,
    MissingFrozenVersion(Seq<char>),
    UnknownStability(Seq<char>, i32),
    DuplicateCapability(crate::registry::IdView),
    EmptyGenericEnhancedRequirement(Seq<char>),
    MissingGenericEnhancedRequirementVersion(Seq<char>, Seq<char>),
    DuplicateGenericEnhancedRequirement(Seq<char>, crate::registry::IdView),
    EsptoolBridgeMissing,
    EsptoolBridgeAmbiguous,
    EsptoolBridgeMissingVirtualSerialRequirement,
}

impl View for CatalogError {
    type V = CatalogErrorView;

    open spec fn view(&self) -> CatalogErrorView {
        match self {
            CatalogError::Decode(s) => CatalogErrorView::Decode(s@),
            CatalogError::EmptyApiName => CatalogErrorView::EmptyApiName,
            CatalogError::MissingFrozenVersion { api_name } => CatalogErrorView::MissingFrozenVersion(api_name@),
            CatalogError::UnknownStability { api_name, value } => CatalogErrorView::UnknownStability(api_name@, *value),
            CatalogError::DuplicateCapability(id) => CatalogErrorView::DuplicateCapability(id@),
            CatalogError::EmptyGenericEnhancedRequirement { api_name } => CatalogErrorView::EmptyGenericEnhancedRequirement(api_name@),
            CatalogError::MissingGenericEnhancedRequirementVersion { api_name, required_api_name } =>
                CatalogErrorView::MissingGenericEnhancedRequirementVersion(api_name@, required_api_name@),
            CatalogError::DuplicateGenericEnhancedRequirement { api_name, requirement } =>
                CatalogErrorView::DuplicateGenericEnhancedRequirement(api_name@, requirement@),
            CatalogError::EsptoolBridgeMissing => CatalogErrorView::EsptoolBridgeMissing,
            CatalogError::EsptoolBridgeAmbiguous => CatalogErrorView::EsptoolBridgeAmbiguous,
            CatalogError::EsptoolBridgeMissingVirtualSerialRequirement => CatalogErrorView::EsptoolBridgeMissingVirtualSerialRequirement,
        }
    }
}

/// The message of a catalog error.
pub open spec fn catalog_error_text(e: CatalogErrorView) -> Seq<char> {
    match e {
        CatalogErrorView::Decode(err) => "failed to decode Espressif vendor enhanced catalog: "@ + err,
        CatalogErrorView::EmptyApiName => "Espressif vendor enhanced catalog contains an empty api_name"@,
        CatalogErrorView::MissingFrozenVersion(name) => "Espressif vendor enhanced catalog entry "@ + name + " has frozen_version = 0"@,
        CatalogErrorView::UnknownStability(name, value) => "Espressif vendor enhanced catalog entry "@ + name
            + " has unknown stability "@ + crate::text::signed_decimal_chars(value as int),
        CatalogErrorView::DuplicateCapability(id) => "Espressif vendor enhanced catalog contains duplicate capability "@
            + crate::registry::id_text(id),
        CatalogErrorView::EmptyGenericEnhancedRequirement(name) => "Espressif vendor enhanced catalog entry "@ + name
            + " contains an empty generic enhanced requirement"@,
        CatalogErrorView::MissingGenericEnhancedRequirementVersion(name, required) => "Espressif vendor enhanced catalog entry "@
            + name + " requires "@ + required + " with frozen_version = 0"@,
        CatalogErrorView::DuplicateGenericEnhancedRequirement(name, id) => "Espressif vendor enhanced catalog entry "@ + name
            + " contains duplicate generic enhanced requirement "@ + crate::registry::id_text(id),
        CatalogErrorView::EsptoolBridgeMissing => "Espressif vendor enhanced catalog does not declare esptool bridge"@,
        CatalogErrorView::EsptoolBridgeAmbiguous => "Espressif vendor enhanced catalog declares multiple esptool bridge capabilities"@,
        CatalogErrorView::EsptoolBridgeMissingVirtualSerialRequirement =>
            "Espressif vendor enhanced esptool bridge does not require generic enhanced virtual serial"@,
    }
}

impl CatalogError {
    /// The message that describes the error.
    pub fn to_text(&self) -> (r: String)
        ensures
            r@ == catalog_error_text(self@),
    {
        let mut out = String::new();
        match self {
            CatalogError::Decode(err) => {
                push_str(&mut out, "failed to decode Espressif vendor enhanced catalog: ");
                push_str(&mut out, err.as_str());
            },
            CatalogError::EmptyApiName => {
                push_str(&mut out, "Espressif vendor enhanced catalog contains an empty api_name");
            },
            CatalogError::MissingFrozenVersion { api_name } => {
                push_str(&mut out, "Espressif vendor enhanced catalog entry ");
                push_str(&mut out, api_name.as_str());
                push_str(&mut out, " has frozen_version = 0");
            },
            CatalogError::UnknownStability { api_name, value } => {
                push_str(&mut out, "Espressif vendor enhanced catalog entry ");
                push_str(&mut out, api_name.as_str());
                push_str(&mut out, " has unknown stability ");
                crate::text::push_signed_decimal(&mut out, *value);
            },
            CatalogError::DuplicateCapability(id) => {
                push_str(&mut out, "Espressif vendor enhanced catalog contains duplicate capability ");
                let text = id.to_text();
                push_str(&mut out, text.as_str());
            },
            CatalogError::EmptyGenericEnhancedRequirement { api_name } => {
                push_str(&mut out, "Espressif vendor enhanced catalog entry ");
                push_str(&mut out, api_name.as_str());
                push_str(&mut out, " contains an empty generic enhanced requirement");
            },
            CatalogError::MissingGenericEnhancedRequirementVersion { api_name, required_api_name } => {
                push_str(&mut out, "Espressif vendor enhanced catalog entry ");
                push_str(&mut out, api_name.as_str());
                push_str(&mut out, " requires ");
                push_str(&mut out, required_api_name.as_str());
                push_str(&mut out, " with frozen_version = 0");
            },
            CatalogError::DuplicateGenericEnhancedRequirement { api_name, requirement } => {
                push_str(&mut out, "Espressif vendor enhanced catalog entry ");
                push_str(&mut out, api_name.as_str());
                push_str(&mut out, " contains duplicate generic enhanced requirement ");
                let text = requirement.to_text();
                push_str(&mut out, text.as_str());
            },
            CatalogError::EsptoolBridgeMissing => {
                push_str(&mut out, "Espressif vendor enhanced catalog does not declare esptool bridge");
            },
            CatalogError::EsptoolBridgeAmbiguous => {
                push_str(&mut out, "Espressif vendor enhanced catalog declares multiple esptool bridge capabilities");
            },
            CatalogError::EsptoolBridgeMissingVirtualSerialRequirement => {
                push_str(&mut out, "Espressif vendor enhanced esptool bridge does not require generic enhanced virtual serial");
            },
        }
        out
    }
}

/// Why the built-in provider could not be registered.
#[derive(Debug, PartialEq, Eq)]
pub enum BuiltInProviderError {
    Catalog(CatalogError),
    Registry(RegistryError),
}

impl BuiltInProviderError {
    /// The message that describes the error: the catalog's or the
    /// registry's.
    pub fn to_text(&self) -> (r: String)
        ensures
            r@ == match self {
                BuiltInProviderError::Catalog(err) => catalog_error_text(err@),
                BuiltInProviderError::Registry(RegistryError::DuplicateProvider(id)) => "enhanced provider already registered for "@
                    + crate::registry::id_text(id@),
            },
    {
        match self {
            BuiltInProviderError::Catalog(err) => err.to_text(),
            BuiltInProviderError::Registry(err) => err.to_text(),
        }
    }
}

/// The stability that a catalog value encodes, if any.
pub open spec fn stability_of(value: i32) -> Option<ApiStability> {
    if value == STABILITY_DEVELOPMENT {
        Some(ApiStability::Development)
    } else if value == STABILITY_STABLE {
        Some(ApiStability::Stable)
    } else if value == STABILITY_FROZEN {
        Some(ApiStability::Frozen)
    } else {
        None
    }
}

fn convert_stability(value: i32, api_name: &str) -> (r: Result<ApiStability, CatalogError>)
    ensures
        match stability_of(value) {
            Some(s) => r == Ok::<ApiStability, CatalogError>(s),
            None => r matches Err(e) && e@ == CatalogErrorView::UnknownStability(api_name@, value),
        },
{
    if value == STABILITY_DEVELOPMENT {
        Ok(ApiStability::Development)
    } else if value == STABILITY_STABLE {
        Ok(ApiStability::Stable)
    } else if value == STABILITY_FROZEN {
        Ok(ApiStability::Frozen)
    } else {
        Err(CatalogError::UnknownStability { api_name: api_name.to_owned(), value })
    }
}

/// Whether a requirement with the given id is among `done`.
pub open spec fn requires_id(done: Seq<crate::registry::RequirementView>, id: crate::registry::IdView) -> bool {
    exists|k: int| 0 <= k < done.len() && done[k].0 == id
}

/// Converting the requirements of entry `api_name` from `i` on.
pub open spec fn convert_requirements(
    api_name: Seq<char>,
    reqs: Seq<RawRequirementView>,
    i: int,
    done: Seq<crate::registry::RequirementView>,
) -> Result<Seq<crate::registry::RequirementView>, CatalogErrorView>
    decreases reqs.len() - i,
{
    if i < 0 || i >= reqs.len() {
        Ok(done)
    } else {
        let name = crate::text::trim_chars(reqs[i].api_name);
        if name.len() == 0 {
            Err(CatalogErrorView::EmptyGenericEnhancedRequirement(api_name))
        } else if reqs[i].frozen_version == 0 {
            Err(CatalogErrorView::MissingGenericEnhancedRequirementVersion(api_name, name))
        } else if requires_id(done, (name, reqs[i].frozen_version)) {
            Err(CatalogErrorView::DuplicateGenericEnhancedRequirement(api_name, (name, reqs[i].frozen_version)))
        } else {
            convert_requirements(api_name, reqs, i + 1, done.push(((name, reqs[i].frozen_version), reqs[i].description)))
        }
    }
}

fn requirement_present(reqs: &Vec<CapabilityRequirement>, id: &CapabilityId) -> (r: bool)
    ensures
        r == requires_id(crate::registry::requirements_view(reqs@), id@),
{
    let ghost rv = crate::registry::requirements_view(reqs@);
    let mut i: usize = 0;
    while i < reqs.len()
        invariant
            i <= reqs@.len(),
            rv == crate::registry::requirements_view(reqs@),
            forall|k: int| 0 <= k < i ==> rv[k].0 != id@,
        decreases reqs@.len() - i,
    {
        assert(rv[i as int] == reqs@[i as int]@);
        if reqs[i].id().same_as(id) {
            return true;
        }
        i = i + 1;
    }
    false
}

/// Converts the generic enhanced requirements of entry `api_name`.
fn convert_generic_requirements(api_name: &str, raw_requirements: &Vec<HostCapabilityRequirement>) -> (r: Result<Vec<CapabilityRequirement>, CatalogError>)
    ensures
        match convert_requirements(api_name@, raw_requirements_view(raw_requirements@), 0, Seq::empty()) {
            Ok(reqs) => r matches Ok(v) && crate::registry::requirements_view(v@) == reqs,
            Err(e) => r matches Err(err) && err@ == e,
        },
{
    let ghost raws = raw_requirements_view(raw_requirements@);
    let mut requirements: Vec<CapabilityRequirement> = Vec::new();
    let mut i: usize = 0;
    assert(crate::registry::requirements_view(requirements@) =~= Seq::empty());
    while i < raw_requirements.len()
        invariant
            i <= raw_requirements@.len(),
            raws == raw_requirements_view(raw_requirements@),
            convert_requirements(api_name@, raws, 0, Seq::empty())
                == convert_requirements(api_name@, raws, i as int, crate::registry::requirements_view(requirements@)),
        decreases raw_requirements@.len() - i,
    {
        let requirement = &raw_requirements[i];
        assert(raws[i as int] == requirement@);
        let required_api_name = trim_string(requirement.api_name.as_str());
        if required_api_name.as_str().is_empty() {
            return Err(CatalogError::EmptyGenericEnhancedRequirement { api_name: api_name.to_owned() });
        }
        if requirement.frozen_version == 0 {
            return Err(CatalogError::MissingGenericEnhancedRequirementVersion {
                api_name: api_name.to_owned(),
                required_api_name,
            });
        }
        let id = CapabilityId::new(required_api_name.as_str(), requirement.frozen_version);
        if requirement_present(&requirements, &id) {
            return Err(CatalogError::DuplicateGenericEnhancedRequirement {
                api_name: api_name.to_owned(),
                requirement: id,
            });
        }
        let ghost before = crate::registry::requirements_view(requirements@);
        requirements.push(CapabilityRequirement::new(id, requirement.description.as_str()));
        proof {
            assert(crate::registry::requirements_view(requirements@) =~= before.push(requirements@.last()@));
        }
        i = i + 1;
    }
    Ok(requirements)
}

/// Converting one entry, given the declarations converted before it.
pub open spec fn convert_api(api: RawApiView, earlier: Seq<crate::registry::DeclarationView>) -> Result<crate::registry::DeclarationView, CatalogErrorView> {
    let name = crate::text::trim_chars(api.api_name);
    if name.len() == 0 {
        Err(CatalogErrorView::EmptyApiName)
    } else if api.frozen_version == 0 {
        Err(CatalogErrorView::MissingFrozenVersion(name))
    } else {
        match stability_of(api.stability) {
            None => Err(CatalogErrorView::UnknownStability(name, api.stability)),
            Some(stability) => if crate::registry::first_with_id(earlier, (name, api.frozen_version)) is Some {
                Err(CatalogErrorView::DuplicateCapability((name, api.frozen_version)))
            } else {
                match convert_requirements(name, api.requirements, 0, Seq::empty()) {
                    Err(e) => Err(e),
                    Ok(requirements) => Ok(crate::registry::DeclarationView {
                        id: (name, api.frozen_version),
                        stability,
                        description: api.description,
                        requirements,
                    }),
                }
            },
        }
    }
}

/// Converting the entries from `i` on: the first error, or all
/// declarations.
pub open spec fn convert_apis(apis: Seq<RawApiView>, i: int, done: Seq<crate::registry::DeclarationView>) -> Result<Seq<crate::registry::DeclarationView>, CatalogErrorView>
    decreases apis.len() - i,
{
    if i < 0 || i >= apis.len() {
        Ok(done)
    } else {
        match convert_api(apis[i], done) {
            Err(e) => Err(e),
            Ok(d) => convert_apis(apis, i + 1, done.push(d)),
        }
    }
}

/// Converts the encoded catalog into declarations.
pub fn convert_catalog(raw: &EspressifVendorEnhancedApiCatalog) -> (r: Result<CapabilityCatalog, CatalogError>)
    ensures
        match convert_apis(raw_apis_view(raw.apis@), 0, Seq::empty()) {
            Ok(decls) => r matches Ok(c) && c.version() == raw.current_version && c.declarations() == decls,
            Err(e) => r matches Err(err) && err@ == e,
        },
{
    let ghost apis = raw_apis_view(raw.apis@);
    let mut capabilities: Vec<CapabilityDeclaration> = Vec::new();
    let mut i: usize = 0;
    assert(crate::registry::declarations_view(capabilities@) =~= Seq::empty());
    while i < raw.apis.len()
        invariant
            i <= raw.apis@.len(),
            apis == raw_apis_view(raw.apis@),
            convert_apis(apis, 0, Seq::empty()) == convert_apis(apis, i as int, crate::registry::declarations_view(capabilities@)),
        decreases raw.apis@.len() - i,
    {
        let api = &raw.apis[i];
        assert(apis[i as int] == api@);
        let api_name = trim_string(api.api_name.as_str());
        if api_name.as_str().is_empty() {
            return Err(CatalogError::EmptyApiName);
        }
        if api.frozen_version == 0 {
            return Err(CatalogError::MissingFrozenVersion { api_name });
        }
        let stability = match convert_stability(api.stability, api_name.as_str()) {
            Ok(s) => s,
            Err(e) => {
                return Err(e);
            },
        };
        let id = CapabilityId::new(api_name.as_str(), api.frozen_version);
        if declaration_position(capabilities.as_slice(), &id).is_some() {
            return Err(CatalogError::DuplicateCapability(id));
        }
        let requirements = match convert_generic_requirements(api_name.as_str(), &api.generic_enhanced_requirements) {
            Ok(reqs) => reqs,
            Err(e) => {
                return Err(e);
            },
        };
        let ghost before = crate::registry::declarations_view(capabilities@);
        capabilities.push(CapabilityDeclaration::new(id, stability, api.description.as_str(), requirements));
        proof {
            assert(crate::registry::declarations_view(capabilities@) =~= before.push(capabilities@.last()@));
        }
        i = i + 1;
    }
    Ok(CapabilityCatalog::new(raw.current_version, capabilities))
}

/// The catalog of Espressif vendor enhanced APIs that this host knows.
pub fn built_in_catalog() -> (r: EspressifVendorEnhancedApiCatalog)
    ensures
        r.current_version == 1,
        raw_apis_view(r.apis@) == seq![RawApiView {
            api_name: ESPTOOL_BRIDGE_API_NAME@,
            frozen_version: 1,
            stability: STABILITY_FROZEN,
            description: ESPTOOL_BRIDGE_DESCRIPTION@,
            requirements: seq![RawRequirementView {
                api_name: GENERIC_ENHANCED_VIRTUAL_SERIAL_API@,
                frozen_version: 1,
                description: VIRTUAL_SERIAL_REQUIREMENT_DESCRIPTION@,
            }],
        }],
{
    let mut requirements: Vec<HostCapabilityRequirement> = Vec::new();
    requirements.push(HostCapabilityRequirement {
        api_name: GENERIC_ENHANCED_VIRTUAL_SERIAL_API.to_owned(),
        frozen_version: 1,
        description: VIRTUAL_SERIAL_REQUIREMENT_DESCRIPTION.to_owned(),
    });
    assert(raw_requirements_view(requirements@) =~= seq![requirements@[0]@]);
    let mut apis: Vec<EspressifVendorEnhancedApiDeclaration> = Vec::new();
    apis.push(EspressifVendorEnhancedApiDeclaration {
        api_name: ESPTOOL_BRIDGE_API_NAME.to_owned(),
        frozen_version: 1,
        stability: STABILITY_FROZEN,
        description: ESPTOOL_BRIDGE_DESCRIPTION.to_owned(),
        generic_enhanced_requirements: requirements,
    });
    let r = EspressifVendorEnhancedApiCatalog { current_version: 1, apis };
    assert(raw_apis_view(r.apis@) =~= seq![r.apis@[0]@]);
    r
}

/// The declaration of the esptool bridge API, as the catalog holds it.
pub open spec fn esptool_bridge_view() -> crate::registry::DeclarationView {
    crate::registry::DeclarationView {
        id: (ESPTOOL_BRIDGE_API_NAME@, 1),
        stability: ApiStability::Frozen,
        description: ESPTOOL_BRIDGE_DESCRIPTION@,
        requirements: seq![((GENERIC_ENHANCED_VIRTUAL_SERIAL_API@, 1u32), VIRTUAL_SERIAL_REQUIREMENT_DESCRIPTION@)],
    }
}

/// The current catalog of Espressif vendor enhanced APIs.
pub fn latest_espressif_catalog() -> (r: Result<CapabilityCatalog, CatalogError>)
    ensures
        r matches Ok(c) && c.version() == 1 && c.declarations() == seq![esptool_bridge_view()],
{
    let raw = built_in_catalog();
    proof {
        reveal_strlit("wiremux.vendor.enhanced.espressif.esptool_bridge");
        reveal_strlit("wiremux.generic.enhanced.virtual_serial");
        let apis = raw_apis_view(raw.apis@);
        let name = ESPTOOL_BRIDGE_API_NAME@;
        let req_name = GENERIC_ENHANCED_VIRTUAL_SERIAL_API@;
        assert(crate::text::trim_start_chars(name) == name);
        assert(crate::text::trim_end_chars(name) == name);
        assert(crate::text::trim_start_chars(req_name) == req_name);
        assert(crate::text::trim_end_chars(req_name) == req_name);
        let reqs = apis[0].requirements;
        let one = seq![((req_name, 1u32), VIRTUAL_SERIAL_REQUIREMENT_DESCRIPTION@)];
        assert(!requires_id(Seq::empty(), (req_name, 1u32)));
        assert(Seq::<crate::registry::RequirementView>::empty().push(((req_name, 1u32), VIRTUAL_SERIAL_REQUIREMENT_DESCRIPTION@)) =~= one);
        assert(convert_requirements(name, reqs, 1, one) == Ok::<Seq<crate::registry::RequirementView>, CatalogErrorView>(one));
        assert(convert_requirements(name, reqs, 0, Seq::empty()) == Ok::<Seq<crate::registry::RequirementView>, CatalogErrorView>(one));
        assert(convert_apis(apis, 1, seq![esptool_bridge_view()]) == Ok::<Seq<crate::registry::DeclarationView>, CatalogErrorView>(seq![esptool_bridge_view()]));
    }
    convert_catalog(&raw)
}

/// Whether a declaration is the Espressif esptool bridge API.
pub open spec fn is_esptool_bridge(d: crate::registry::DeclarationView) -> bool {
    d.id.0 == ESPRESSIF_VENDOR_ENHANCED_API_PREFIX@ + ESPTOOL_BRIDGE_PROVIDER_KEY@
}

/// How many declarations from `i` on are the esptool bridge API.
pub open spec fn count_esptool_bridge(decls: Seq<crate::registry::DeclarationView>, i: int) -> nat
    decreases decls.len() - i,
{
    if i < 0 || i >= decls.len() {
        0
    } else {
        (if is_esptool_bridge(decls[i]) { 1nat } else { 0nat }) + count_esptool_bridge(decls, i + 1)
    }
}

/// The first esptool bridge declaration from `i` on.
pub open spec fn first_esptool_bridge(decls: Seq<crate::registry::DeclarationView>, i: int) -> int
    decreases decls.len() - i,
{
    if i < 0 || i >= decls.len() {
        decls.len() as int
    } else if is_esptool_bridge(decls[i]) {
        i
    } else {
        first_esptool_bridge(decls, i + 1)
    }
}

/// Whether a declaration requires the generic virtual serial API at
/// version 1.
pub open spec fn requires_virtual_serial(d: crate::registry::DeclarationView) -> bool {
    requires_id(d.requirements, (GENERIC_ENHANCED_VIRTUAL_SERIAL_API@, 1u32))
}

/// The one esptool bridge declaration of the catalog, which must require
/// the generic virtual serial API.
pub fn esptool_bridge_declaration(catalog: &CapabilityCatalog) -> (r: Result<&CapabilityDeclaration, CatalogError>)
    ensures
        count_esptool_bridge(catalog.declarations(), 0) == 0 ==> r matches Err(CatalogError::EsptoolBridgeMissing),
        count_esptool_bridge(catalog.declarations(), 0) >= 2 ==> r matches Err(CatalogError::EsptoolBridgeAmbiguous),
        count_esptool_bridge(catalog.declarations(), 0) == 1 ==> ({
            let d = catalog.declarations()[first_esptool_bridge(catalog.declarations(), 0)];
            if requires_virtual_serial(d) {
                r matches Ok(found) && found@ == d
            } else {
                r matches Err(CatalogError::EsptoolBridgeMissingVirtualSerialRequirement)
            }
        }),
{
    let caps = catalog.capabilities();
    let ghost decls = catalog.declarations();
    let mut found: Option<usize> = None;
    let mut i: usize = 0;
    while i < caps.len()
        invariant
            i <= caps@.len(),
            crate::registry::declarations_view(caps@) == decls,
            decls == catalog.declarations(),
            decls.len() == caps@.len(),
            count_esptool_bridge(decls, 0) == (if found is Some { 1nat } else { 0nat }) + count_esptool_bridge(decls, i as int),
            found is None ==> first_esptool_bridge(decls, 0) == first_esptool_bridge(decls, i as int),
            found matches Some(k) ==> k < i && first_esptool_bridge(decls, 0) == k,
        decreases caps@.len() - i,
    {
        assert(decls[i as int] == caps@[i as int]@);
        let matched = str_is_concat(caps[i].id().api_name(), ESPRESSIF_VENDOR_ENHANCED_API_PREFIX, ESPTOOL_BRIDGE_PROVIDER_KEY);
        assert(matched == is_esptool_bridge(decls[i as int]));
        assert(count_esptool_bridge(decls, i as int) == (if matched { 1nat } else { 0nat }) + count_esptool_bridge(decls, i as int + 1));
        if matched {
            match found {
                Some(_) => {
                    assert(count_esptool_bridge(decls, 0) == 1 + count_esptool_bridge(decls, i as int));
                    return Err(CatalogError::EsptoolBridgeAmbiguous);
                },
                None => {
                    found = Some(i);
                },
            }
        }
        i = i + 1;
    }
    match found {
        Some(k) => {
            assert(decls[k as int] == caps@[k as int]@);
            let first = &caps[k];
            let required = CapabilityId::new(GENERIC_ENHANCED_VIRTUAL_SERIAL_API, 1);
            let reqs = first.requirements();
            let mut j: usize = 0;
            let mut present = false;
            while j < reqs.len()
                invariant
                    j <= reqs@.len(),
                    required@ == (GENERIC_ENHANCED_VIRTUAL_SERIAL_API@, 1u32),
                    crate::registry::requirements_view(reqs@) == first@.requirements,
                    present == (exists|m: int| 0 <= m < j && first@.requirements[m].0 == required@),
                decreases reqs@.len() - j,
            {
                assert(first@.requirements[j as int] == reqs@[j as int]@);
                if reqs[j].id().same_as(&required) {
                    present = true;
                }
                j = j + 1;
            }
            if !present {
                return Err(CatalogError::EsptoolBridgeMissingVirtualSerialRequirement);
            }
            Ok(first)
        },
        None => Err(CatalogError::EsptoolBridgeMissing),
    }
}

/// The current declaration of the esptool bridge API.
pub fn latest_esptool_bridge_declaration() -> (r: Result<CapabilityDeclaration, CatalogError>)
    ensures
        r matches Ok(d) && d@ == esptool_bridge_view(),
{
    let catalog = match latest_espressif_catalog() {
        Ok(c) => c,
        Err(e) => {
            return Err(e);
        },
    };
    proof {
        reveal_strlit("wiremux.vendor.enhanced.espressif.esptool_bridge");
        reveal_strlit("wiremux.vendor.enhanced.espressif.");
        reveal_strlit("esptool_bridge");
        let decls = catalog.declarations();
        assert(ESPTOOL_BRIDGE_API_NAME@ =~= ESPRESSIF_VENDOR_ENHANCED_API_PREFIX@ + ESPTOOL_BRIDGE_PROVIDER_KEY@);
        assert(is_esptool_bridge(decls[0]));
        assert(count_esptool_bridge(decls, 1) == 0);
        assert(first_esptool_bridge(decls, 0) == 0);
        assert(decls[0].requirements[0].0 == (GENERIC_ENHANCED_VIRTUAL_SERIAL_API@, 1u32));
        assert(requires_virtual_serial(decls[0]));
    }
    match esptool_bridge_declaration(&catalog) {
        Ok(d) => Ok(d.duplicate()),
        Err(e) => Err(e),
    }
}

/// The id of the current esptool bridge API.
pub fn latest_esptool_bridge_capability_id() -> (r: Result<CapabilityId, CatalogError>)
    ensures
        r matches Ok(id) && id@ == esptool_bridge_view().id,
{
    match latest_esptool_bridge_declaration() {
        Ok(d) => Ok(d.id().duplicate()),
        Err(e) => Err(e),
    }
}

/// Registers the built-in esptool bridge provider.
pub fn register_esptool_bridge_provider(registry: &mut ProviderRegistry) -> (r: Result<(), BuiltInProviderError>)
    requires
        old(registry).well_formed(),
    ensures
        final(registry).well_formed(),
        old(registry).provider_for(esptool_bridge_view().id) is Some ==> (r matches Err(BuiltInProviderError::Registry(RegistryError::DuplicateProvider(id)))
            && id@ == esptool_bridge_view().id && final(registry).registrations() == old(registry).registrations()),
        old(registry).provider_for(esptool_bridge_view().id) is None ==> (r is Ok
            && final(registry).registrations() == old(registry).registrations().push((esptool_bridge_view(), ESPTOOL_BRIDGE_PROVIDER_KEY@))),
{
    let declaration = match latest_esptool_bridge_declaration() {
        Ok(d) => d,
        Err(e) => {
            return Err(BuiltInProviderError::Catalog(e));
        },
    };
    match registry.register(declaration, ESPTOOL_BRIDGE_PROVIDER_KEY) {
        Ok(()) => Ok(()),
        Err(e) => Err(BuiltInProviderError::Registry(e)),
    }
}

/// A registry holding the built-in Espressif providers.
pub fn built_in_espressif_registry() -> (r: Result<ProviderRegistry, BuiltInProviderError>)
    ensures
        r matches Ok(reg) && reg.well_formed()
            && reg.registrations() == seq![(esptool_bridge_view(), ESPTOOL_BRIDGE_PROVIDER_KEY@)],
{
    let mut registry = ProviderRegistry::new();
    proof {
        crate::registry::lemma_first_with_id_prefix(
            crate::registry::registered_capabilities(registry.registrations()), esptool_bridge_view().id, 0);
    }
    match register_esptool_bridge_provider(&mut registry) {
        Ok(()) => {},
        Err(e) => {
            return Err(e);
        },
    }
    assert(registry.registrations() =~= seq![(esptool_bridge_view(), ESPTOOL_BRIDGE_PROVIDER_KEY@)]);
    Ok(registry)
}

/// Whether this host provides the esptool bridge.
pub fn host_supports_esptool_bridge_provider() -> (r: bool)
    ensures
        r,
{
    let registry = match built_in_espressif_registry() {
        Ok(reg) => reg,
        Err(_) => {
            return false;
        },
    };
    let capability_id = match latest_esptool_bridge_capability_id() {
        Ok(id) => id,
        Err(_) => {
            return false;
        },
    };
    proof {
        crate::registry::lemma_register_then_resolve(
            Seq::empty(), (esptool_bridge_view(), ESPTOOL_BRIDGE_PROVIDER_KEY@), esptool_bridge_view().id);
        assert(Seq::<crate::registry::RegistrationView>::empty().push((esptool_bridge_view(), ESPTOOL_BRIDGE_PROVIDER_KEY@))
            =~= registry.registrations());
    }
    registry.supports(&capability_id)
}

} // verus!
