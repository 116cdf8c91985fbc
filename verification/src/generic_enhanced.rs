//! The generic enhanced host APIs: their catalog and the built-in virtual
//! serial provider.
use vstd::prelude::*;
use crate::registry::{
    declaration_position, ApiStability, CapabilityCatalog, CapabilityDeclaration, CapabilityId,
    ProviderRegistry, RegistryError,
};
use crate::text::{decimal_string, push_str, str_is_concat, trim_string};

verus! {

/// The registry of providers for these capabilities.
pub type GenericEnhancedRegistry = ProviderRegistry;

pub const GENERIC_ENHANCED_API_PREFIX: &'static str = "wiremux.generic.enhanced.";
pub const VIRTUAL_SERIAL_PROVIDER_KEY: &'static str = "virtual_serial";
pub const VIRTUAL_SERIAL_API_NAME: &'static str = "wiremux.generic.enhanced.virtual_serial";
pub const VIRTUAL_SERIAL_DESCRIPTION: &'static str = "Exposes mux channels as host virtual serial endpoints.";

/// Stability values of a catalog entry as the catalog encodes them.
pub const STABILITY_UNSPECIFIED: i32 = 0;
pub const STABILITY_DEVELOPMENT: i32 = 1;
pub const STABILITY_STABLE: i32 = 2;
pub const STABILITY_FROZEN: i32 = 3;

/// A catalog entry as the catalog encodes it.
#[derive(Clone, Debug, PartialEq, Eq)]
pub struct GenericEnhancedApiDeclaration {
    pub api_name: String,
    pub frozen_version: u32,
    pub stability: i32,
    pub description: String,
}

/// The catalog as it is encoded.
#[derive(Clone, Debug, PartialEq, Eq)]
pub struct GenericEnhancedApiCatalog {
    pub current_version: u32,
    pub apis: Vec<GenericEnhancedApiDeclaration>,
}

/// A catalog entry as a value.
pub struct RawApiView {
    pub api_name: Seq<char>,
    pub frozen_version: u32,
    pub stability: i32,
    pub description: Seq<char>,
}

impl View for GenericEnhancedApiDeclaration {
    type V = RawApiView;

    open spec fn view(&self) -> RawApiView {
        RawApiView {
            api_name: self.api_name@,
            frozen_version: self.frozen_version,
            stability: self.stability,
            description: self.description@,
        }
    }
}

pub open spec fn raw_apis_view(apis: Seq<GenericEnhancedApiDeclaration>) -> Seq<RawApiView> {
    apis.map_values(|a: GenericEnhancedApiDeclaration| a@)
}

/// Why the catalog could not be read.
#[derive(Debug, PartialEq, Eq)]
pub enum CatalogError {
    Decode(String),
    EmptyApiName,
    MissingFrozenVersion { api_name: String },
    UnknownStability { api_name: String, value: i32 },
    DuplicateCapability(CapabilityId),
    VirtualSerialMissing,
    VirtualSerialAmbiguous,
}

/// A catalog error as a value.
pub enum CatalogErrorView {
    Decode(Seq<char>),
    EmptyApiName,
    MissingFrozenVersion(Seq<char>),
    UnknownStability(Seq<char>, i32),
    DuplicateCapability(crate::registry::IdView),
    VirtualSerialMissing,
    VirtualSerialAmbiguous,
}

impl View for CatalogError {
    type V = CatalogErrorView;

    open spec fn view(&self) -> CatalogErrorView {
        match self {
            CatalogError::Decode(s) => CatalogErrorView::Decode(s@),
            CatalogError::EmptyApiName => CatalogErrorView::EmptyApiName,
            CatalogError::MissingFrozenVersion { api_name } => CatalogErrorView::MissingFrozenVersion(api_name@),
            CatalogError::UnknownStability { api_name, value } => CatalogErrorView::UnknownStability(api_name@, *value),
            CatalogError::DuplicateCapability(id) => CatalogErrorView::DuplicateCapability(id@),
            CatalogError::VirtualSerialMissing => CatalogErrorView::VirtualSerialMissing,
            CatalogError::VirtualSerialAmbiguous => CatalogErrorView::VirtualSerialAmbiguous,
        }
    }
}

/// The message of a catalog error.
pub open spec fn catalog_error_text(e: CatalogErrorView) -> Seq<char> {
    match e {
        CatalogErrorView::Decode(err) => "failed to decode generic enhanced catalog: "@ + err,
        CatalogErrorView::EmptyApiName => "generic enhanced catalog contains an empty api_name"@,
        CatalogErrorView::MissingFrozenVersion(name) => "generic enhanced catalog entry "@ + name + " has frozen_version = 0"@,
        CatalogErrorView::UnknownStability(name, value) => "generic enhanced catalog entry "@ + name
            + " has unknown stability "@ + crate::text::signed_decimal_chars(value as int),
        CatalogErrorView::DuplicateCapability(id) => "generic enhanced catalog contains duplicate capability "@
            + crate::registry::id_text(id),
        CatalogErrorView::VirtualSerialMissing => "generic enhanced catalog does not declare virtual serial"@,
        CatalogErrorView::VirtualSerialAmbiguous => "generic enhanced catalog declares multiple virtual serial capabilities"@,
    }
}

impl CatalogError {
    /// The message that describes the error.
    pub fn to_text(&self) -> (r: String)
        ensures
            r@ == catalog_error_text(self@),
    {
        let mut out = String::new();
        match self {
            CatalogError::Decode(err) => {
                push_str(&mut out, "failed to decode generic enhanced catalog: ");
                push_str(&mut out, err.as_str());
            },
            CatalogError::EmptyApiName => {
                push_str(&mut out, "generic enhanced catalog contains an empty api_name");
            },
            CatalogError::MissingFrozenVersion { api_name } => {
                push_str(&mut out, "generic enhanced catalog entry ");
                push_str(&mut out, api_name.as_str());
                push_str(&mut out, " has frozen_version = 0");
            },
            CatalogError::UnknownStability { api_name, value } => {
                push_str(&mut out, "generic enhanced catalog entry ");
                push_str(&mut out, api_name.as_str());
                push_str(&mut out, " has unknown stability ");
                crate::text::push_signed_decimal(&mut out, *value);
            },
            CatalogError::DuplicateCapability(id) => {
                push_str(&mut out, "generic enhanced catalog contains duplicate capability ");
                let text = id.to_text();
                push_str(&mut out, text.as_str());
            },
            CatalogError::VirtualSerialMissing => {
                push_str(&mut out, "generic enhanced catalog does not declare virtual serial");
            },
            CatalogError::VirtualSerialAmbiguous => {
                push_str(&mut out, "generic enhanced catalog declares multiple virtual serial capabilities");
            },
        }
        out
    }
}

/// Why the built-in provider could not be registered.
#[derive(Debug, PartialEq, Eq)]
pub enum BuiltInProviderError {
    Catalog(CatalogError),
    Registry(RegistryError),
}

impl BuiltInProviderError {
    /// The message that describes the error: the catalog's or the
    /// registry's.
    pub fn to_text(&self) -> (r: String)
        ensures
            r@ == match self {
                BuiltInProviderError::Catalog(err) => catalog_error_text(err@),
                BuiltInProviderError::Registry(RegistryError::DuplicateProvider(id)) => "enhanced provider already registered for "@
                    + crate::registry::id_text(id@),
            },
    {
        match self {
            BuiltInProviderError::Catalog(err) => err.to_text(),
            BuiltInProviderError::Registry(err) => err.to_text(),
        }
    }
}

/// The stability that a catalog value encodes, if any.
pub open spec fn stability_of(value: i32) -> Option<ApiStability> {
    if value == STABILITY_DEVELOPMENT {
        Some(ApiStability::Development)
    } else if value == STABILITY_STABLE {
        Some(ApiStability::Stable)
    } else if value == STABILITY_FROZEN {
        Some(ApiStability::Frozen)
    } else {
        None
    }
}

fn convert_stability(value: i32, api_name: &str) -> (r: Result<ApiStability, CatalogError>)
    ensures
        match stability_of(value) {
            Some(s) => r == Ok::<ApiStability, CatalogError>(s),
            None => r matches Err(e) && e@ == CatalogErrorView::UnknownStability(api_name@, value),
        },
{
    if value == STABILITY_DEVELOPMENT {
        Ok(ApiStability::Development)
    } else if value == STABILITY_STABLE {
        Ok(ApiStability::Stable)
    } else if value == STABILITY_FROZEN {
        Ok(ApiStability::Frozen)
    } else {
        Err(CatalogError::UnknownStability { api_name: api_name.to_owned(), value })
    }
}

/// Converting one entry, given the declarations converted before it.
pub open spec fn convert_api(api: RawApiView, earlier: Seq<crate::registry::DeclarationView>) -> Result<crate::registry::DeclarationView, CatalogErrorView> {
    let name = crate::text::trim_chars(api.api_name);
    if name.len() == 0 {
        Err(CatalogErrorView::EmptyApiName)
    } else if api.frozen_version == 0 {
        Err(CatalogErrorView::MissingFrozenVersion(name))
    } else {
        match stability_of(api.stability) {
            None => Err(CatalogErrorView::UnknownStability(name, api.stability)),
            Some(stability) => if crate::registry::first_with_id(earlier, (name, api.frozen_version)) is Some {
                Err(CatalogErrorView::DuplicateCapability((name, api.frozen_version)))
            } else {
                Ok(crate::registry::DeclarationView {
                    id: (name, api.frozen_version),
                    stability,
                    description: api.description,
                    requirements: Seq::empty(),
                })
            },
        }
    }
}

/// Converting the entries from `i` on: the first error, or all
/// declarations.
pub open spec fn convert_apis(apis: Seq<RawApiView>, i: int, done: Seq<crate::registry::DeclarationView>) -> Result<Seq<crate::registry::DeclarationView>, CatalogErrorView>
    decreases apis.len() - i,
{
    if i < 0 || i >= apis.len() {
        Ok(done)
    } else {
        match convert_api(apis[i], done) {
            Err(e) => Err(e),
            Ok(d) => convert_apis(apis, i + 1, done.push(d)),
        }
    }
}

/// Converts the encoded catalog into declarations.
pub fn convert_catalog(raw: &GenericEnhancedApiCatalog) -> (r: Result<CapabilityCatalog, CatalogError>)
    ensures
        match convert_apis(raw_apis_view(raw.apis@), 0, Seq::empty()) {
            Ok(decls) => r matches Ok(c) && c.version() == raw.current_version && c.declarations() == decls,
            Err(e) => r matches Err(err) && err@ == e,
        },
{
    let ghost apis = raw_apis_view(raw.apis@);
    let mut capabilities: Vec<CapabilityDeclaration> = Vec::new();
    let mut i: usize = 0;
    assert(crate::registry::declarations_view(capabilities@) =~= Seq::empty());
    while i < raw.apis.len()
        invariant
            i <= raw.apis@.len(),
            apis == raw_apis_view(raw.apis@),
            convert_apis(apis, 0, Seq::empty()) == convert_apis(apis, i as int, crate::registry::declarations_view(capabilities@)),
        decreases raw.apis@.len() - i,
    {
        let api = &raw.apis[i];
        assert(apis[i as int] == api@);
        let api_name = trim_string(api.api_name.as_str());
        if api_name.as_str().is_empty() {
            return Err(CatalogError::EmptyApiName);
        }
        if api.frozen_version == 0 {
            return Err(CatalogError::MissingFrozenVersion { api_name });
        }
        let stability = match convert_stability(api.stability, api_name.as_str()) {
            Ok(s) => s,
            Err(e) => {
                return Err(e);
            },
        };
        let id = CapabilityId::new(api_name.as_str(), api.frozen_version);
        if declaration_position(capabilities.as_slice(), &id).is_some() {
            return Err(CatalogError::DuplicateCapability(id));
        }
        let ghost before = crate::registry::declarations_view(capabilities@);
        capabilities.push(CapabilityDeclaration::new(id, stability, api.description.as_str(), Vec::new()));
        proof {
            assert(crate::registry::requirements_view(Seq::<crate::registry::CapabilityRequirement>::empty()) =~= Seq::empty());
            assert(crate::registry::declarations_view(capabilities@) =~= before.push(capabilities@.last()@));
        }
        i = i + 1;
    }
    Ok(CapabilityCatalog::new(raw.current_version, capabilities))
}

/// The catalog of generic enhanced APIs that this host knows.
pub fn built_in_catalog() -> (r: GenericEnhancedApiCatalog)
    ensures
        r.current_version == 1,
        raw_apis_view(r.apis@) == seq![RawApiView {
            api_name: VIRTUAL_SERIAL_API_NAME@,
            frozen_version: 1,
            stability: STABILITY_FROZEN,
            description: VIRTUAL_SERIAL_DESCRIPTION@,
        }],
{
    let mut apis: Vec<GenericEnhancedApiDeclaration> = Vec::new();
    apis.push(GenericEnhancedApiDeclaration {
        api_name: VIRTUAL_SERIAL_API_NAME.to_owned(),
        frozen_version: 1,
        stability: STABILITY_FROZEN,
        description: VIRTUAL_SERIAL_DESCRIPTION.to_owned(),
    });
    let r = GenericEnhancedApiCatalog { current_version: 1, apis };
    assert(raw_apis_view(r.apis@) =~= seq![r.apis@[0]@]);
    r
}

/// The declaration of the virtual serial API, as the catalog holds it.
pub open spec fn virtual_serial_view() -> crate::registry::DeclarationView {
    crate::registry::DeclarationView {
        id: (VIRTUAL_SERIAL_API_NAME@, 1),
        stability: ApiStability::Frozen,
        description: VIRTUAL_SERIAL_DESCRIPTION@,
        requirements: Seq::empty(),
    }
}

/// The current catalog of generic enhanced APIs.
pub fn latest_catalog() -> (r: Result<CapabilityCatalog, CatalogError>)
    ensures
        r matches Ok(c) && c.version() == 1 && c.declarations() == seq![virtual_serial_view()],
{
    let raw = built_in_catalog();
    proof {
        reveal_strlit("wiremux.generic.enhanced.virtual_serial");
        let apis = raw_apis_view(raw.apis@);
        let name = VIRTUAL_SERIAL_API_NAME@;
        assert(crate::text::trim_start_chars(name) == name);
        assert(crate::text::trim_end_chars(name) == name);
        assert(convert_apis(apis, 1, seq![virtual_serial_view()]) == Ok::<Seq<crate::registry::DeclarationView>, CatalogErrorView>(seq![virtual_serial_view()]));
    }
    convert_catalog(&raw)
}

/// Whether a declaration is the generic virtual serial API.
pub open spec fn is_virtual_serial(d: crate::registry::DeclarationView) -> bool {
    d.id.0 == GENERIC_ENHANCED_API_PREFIX@ + VIRTUAL_SERIAL_PROVIDER_KEY@
}

/// How many declarations from `i` on are the virtual serial API.
pub open spec fn count_virtual_serial(decls: Seq<crate::registry::DeclarationView>, i: int) -> nat
    decreases decls.len() - i,
{
    if i < 0 || i >= decls.len() {
        0
    } else {
        (if is_virtual_serial(decls[i]) { 1nat } else { 0nat }) + count_virtual_serial(decls, i + 1)
    }
}

/// The first virtual serial declaration from `i` on.
pub open spec fn first_virtual_serial(decls: Seq<crate::registry::DeclarationView>, i: int) -> int
    decreases decls.len() - i,
{
    if i < 0 || i >= decls.len() {
        decls.len() as int
    } else if is_virtual_serial(decls[i]) {
        i
    } else {
        first_virtual_serial(decls, i + 1)
    }
}

/// The one virtual serial declaration of the catalog.
pub fn virtual_serial_declaration(catalog: &CapabilityCatalog) -> (r: Result<&CapabilityDeclaration, CatalogError>)
    ensures
        count_virtual_serial(catalog.declarations(), 0) == 0 ==> r matches Err(CatalogError::VirtualSerialMissing),
        count_virtual_serial(catalog.declarations(), 0) >= 2 ==> r matches Err(CatalogError::VirtualSerialAmbiguous),
        count_virtual_serial(catalog.declarations(), 0) == 1 ==> (r matches Ok(d)
            && d@ == catalog.declarations()[first_virtual_serial(catalog.declarations(), 0)]),
{
    let caps = catalog.capabilities();
    let ghost decls = catalog.declarations();
    let mut found: Option<usize> = None;
    let mut i: usize = 0;
    while i < caps.len()
        invariant
            i <= caps@.len(),
            crate::registry::declarations_view(caps@) == decls,
            decls == catalog.declarations(),
            decls.len() == caps@.len(),
            count_virtual_serial(decls, 0) == (if found is Some { 1nat } else { 0nat }) + count_virtual_serial(decls, i as int),
            found is None ==> first_virtual_serial(decls, 0) == first_virtual_serial(decls, i as int),
            found matches Some(k) ==> k < i && first_virtual_serial(decls, 0) == k,
        decreases caps@.len() - i,
    {
        assert(decls[i as int] == caps@[i as int]@);
        let matched = str_is_concat(caps[i].id().api_name(), GENERIC_ENHANCED_API_PREFIX, VIRTUAL_SERIAL_PROVIDER_KEY);
        assert(matched == is_virtual_serial(decls[i as int]));
        assert(count_virtual_serial(decls, i as int) == (if matched { 1nat } else { 0nat }) + count_virtual_serial(decls, i as int + 1));
        if matched {
            match found {
                Some(_) => {
                    assert(count_virtual_serial(decls, 0) == 1 + count_virtual_serial(decls, i as int));
                    assert(count_virtual_serial(decls, 0) >= 2);
                    return Err(CatalogError::VirtualSerialAmbiguous);
                },
                None => {
                    found = Some(i);
                },
            }
        }
        i = i + 1;
    }
    match found {
        Some(k) => {
            assert(decls[k as int] == caps@[k as int]@);
            Ok(&caps[k])
        },
        None => Err(CatalogError::VirtualSerialMissing),
    }
}

/// The current declaration of the virtual serial API.
pub fn latest_virtual_serial_declaration() -> (r: Result<CapabilityDeclaration, CatalogError>)
    ensures
        r matches Ok(d) && d@ == virtual_serial_view(),
{
    let catalog = match latest_catalog() {
        Ok(c) => c,
        Err(e) => {
            return Err(e);
        },
    };
    proof {
        reveal_strlit("wiremux.generic.enhanced.virtual_serial");
        reveal_strlit("wiremux.generic.enhanced.");
        reveal_strlit("virtual_serial");
        let decls = catalog.declarations();
        assert(VIRTUAL_SERIAL_API_NAME@ =~= GENERIC_ENHANCED_API_PREFIX@ + VIRTUAL_SERIAL_PROVIDER_KEY@);
        assert(is_virtual_serial(decls[0]));
        assert(count_virtual_serial(decls, 1) == 0);
        assert(first_virtual_serial(decls, 0) == 0);
    }
    match virtual_serial_declaration(&catalog) {
        Ok(d) => Ok(d.duplicate()),
        Err(e) => Err(e),
    }
}

/// The id of the current virtual serial API.
pub fn latest_virtual_serial_capability_id() -> (r: Result<CapabilityId, CatalogError>)
    ensures
        r matches Ok(id) && id@ == virtual_serial_view().id,
{
    match latest_virtual_serial_declaration() {
        Ok(d) => Ok(d.id().duplicate()),
        Err(e) => Err(e),
    }
}

/// Registers the built-in virtual serial provider.
pub fn register_virtual_serial_provider(registry: &mut ProviderRegistry) -> (r: Result<(), BuiltInProviderError>)
    requires
        old(registry).well_formed(),
    ensures
        final(registry).well_formed(),
        old(registry).provider_for(virtual_serial_view().id) is Some ==> (r matches Err(BuiltInProviderError::Registry(RegistryError::DuplicateProvider(id)))
            && id@ == virtual_serial_view().id && final(registry).registrations() == old(registry).registrations()),
        old(registry).provider_for(virtual_serial_view().id) is None ==> (r is Ok
            && final(registry).registrations() == old(registry).registrations().push((virtual_serial_view(), VIRTUAL_SERIAL_PROVIDER_KEY@))),
{
    let declaration = match latest_virtual_serial_declaration() {
        Ok(d) => d,
        Err(e) => {
            return Err(BuiltInProviderError::Catalog(e));
        },
    };
    match registry.register(declaration, VIRTUAL_SERIAL_PROVIDER_KEY) {
        Ok(()) => Ok(()),
        Err(e) => Err(BuiltInProviderError::Registry(e)),
    }
}

} // verus!
