//! Capability declarations of enhanced host APIs and the registry of the
//! providers that implement them.
use vstd::prelude::*;
use crate::text::{decimal_string, push_str};

verus! {

/// How settled a declared API is.
#[derive(Clone, Copy, Debug, PartialEq, Eq, Structural)]
pub enum ApiStability {
    Development,
    Stable,
    Frozen,
}

/// An API name together with the version at which it was frozen.
#[derive(Clone, Debug, PartialEq, Eq, Hash)]
pub struct CapabilityId {
    api_name: String,
    frozen_version: u32,
}

/// A capability id as a value: the name's characters and the version.
pub type IdView = (Seq<char>, u32);

impl View for CapabilityId {
    type V = IdView;

    closed spec fn view(&self) -> IdView {
        (self.api_name@, self.frozen_version)
    }
}

impl CapabilityId {
    pub fn new(api_name: &str, frozen_version: u32) -> (r: Self)
        ensures
            r@ == (api_name@, frozen_version),
    {
        CapabilityId { api_name: api_name.to_owned(), frozen_version }
    }

    pub fn api_name(&self) -> (r: &str)
        ensures
            r@ == self@.0,
    {
        self.api_name.as_str()
    }

    pub fn frozen_version(&self) -> (r: u32)
        ensures
            r == self@.1,
    {
        self.frozen_version
    }

    /// Whether two ids name the same capability.
    pub fn same_as(&self, other: &CapabilityId) -> (r: bool)
        ensures
            r == (self@ == other@),
    {
        self.frozen_version == other.frozen_version && self.api_name == other.api_name
    }

    /// A copy of this id.
    pub fn duplicate(&self) -> (r: CapabilityId)
        ensures
            r@ == self@,
    {
        CapabilityId { api_name: self.api_name.clone(), frozen_version: self.frozen_version }
    }

    /// The id as text: the name, `@`, the version.
    pub fn to_text(&self) -> (r: String)
        ensures
            r@ == id_text(self@),
    {
        let mut out = self.api_name.clone();
        push_str(&mut out, "@");
        let version = decimal_string(self.frozen_version as u64);
        push_str(&mut out, version.as_str());
        proof {
            reveal_strlit("@");
        }
        out
    }
}

/// A capability that another one needs, with why.
#[derive(Clone, Debug, PartialEq, Eq)]
pub struct CapabilityRequirement {
    id: CapabilityId,
    description: String,
}

/// A requirement as a value.
pub type RequirementView = (IdView, Seq<char>);

impl View for CapabilityRequirement {
    type V = RequirementView;

    closed spec fn view(&self) -> RequirementView {
        (self.id@, self.description@)
    }
}

impl CapabilityRequirement {
    pub fn new(id: CapabilityId, description: &str) -> (r: Self)
        ensures
            r@ == (id@, description@),
    {
        CapabilityRequirement { id, description: description.to_owned() }
    }

    pub fn id(&self) -> (r: &CapabilityId)
        ensures
            r@ == self@.0,
    {
        &self.id
    }

    pub fn description(&self) -> (r: &str)
        ensures
            r@ == self@.1,
    {
        self.description.as_str()
    }

    /// A copy of this requirement.
    pub fn duplicate(&self) -> (r: CapabilityRequirement)
        ensures
            r@ == self@,
    {
        CapabilityRequirement { id: self.id.duplicate(), description: self.description.clone() }
    }
}

/// The views of a sequence of requirements.
pub open spec fn requirements_view(reqs: Seq<CapabilityRequirement>) -> Seq<RequirementView> {
    reqs.map_values(|r: CapabilityRequirement| r@)
}

/// A declared capability: its id, stability, description and what it
/// requires.
#[derive(Clone, Debug, PartialEq, Eq)]
pub struct CapabilityDeclaration {
    id: CapabilityId,
    stability: ApiStability,
    description: String,
    requirements: Vec<CapabilityRequirement>,
}

/// A declaration as a value.
pub struct DeclarationView {
    pub id: IdView,
    pub stability: ApiStability,
    pub description: Seq<char>,
    pub requirements: Seq<RequirementView>,
}

impl View for CapabilityDeclaration {
    type V = DeclarationView;

    closed spec fn view(&self) -> DeclarationView {
        DeclarationView {
            id: self.id@,
            stability: self.stability,
            description: self.description@,
            requirements: requirements_view(self.requirements@),
        }
    }
}

fn duplicate_requirements(reqs: &[CapabilityRequirement]) -> (r: Vec<CapabilityRequirement>)
    ensures
        requirements_view(r@) == requirements_view(reqs@),
{
    let mut out: Vec<CapabilityRequirement> = Vec::new();
    let mut i: usize = 0;
    while i < reqs.len()
        invariant
            i <= reqs@.len(),
            out@.len() == i,
            requirements_view(out@) == requirements_view(reqs@.subrange(0, i as int)),
        decreases reqs@.len() - i,
    {
        let ghost before = out@;
        out.push(reqs[i].duplicate());
        assert forall|j: int| 0 <= j < i + 1 implies #[trigger] requirements_view(out@)[j]
            == requirements_view(reqs@.subrange(0, i as int + 1))[j] by {
            if j < i {
                assert(requirements_view(before)[j] == requirements_view(reqs@.subrange(0, i as int))[j]);
                assert(out@[j] == before[j]);
            }
        }
        assert(requirements_view(out@) =~= requirements_view(reqs@.subrange(0, i as int + 1)));
        i = i + 1;
    }
    assert(reqs@.subrange(0, i as int) =~= reqs@);
    out
}

impl CapabilityDeclaration {
    pub fn new(
        id: CapabilityId,
        stability: ApiStability,
        description: &str,
        requirements: Vec<CapabilityRequirement>,
    ) -> (r: Self)
        ensures
            r@ == (DeclarationView {
                id: id@,
                stability,
                description: description@,
                requirements: requirements_view(requirements@),
            }),
    {
        CapabilityDeclaration { id, stability, description: description.to_owned(), requirements }
    }

    pub fn id(&self) -> (r: &CapabilityId)
        ensures
            r@ == self@.id,
    {
        &self.id
    }

    pub fn stability(&self) -> (r: ApiStability)
        ensures
            r == self@.stability,
    {
        self.stability
    }

    pub fn description(&self) -> (r: &str)
        ensures
            r@ == self@.description,
    {
        self.description.as_str()
    }

    pub fn requirements(&self) -> (r: &[CapabilityRequirement])
        ensures
            requirements_view(r@) == self@.requirements,
    {
        self.requirements.as_slice()
    }

    /// A copy of this declaration.
    pub fn duplicate(&self) -> (r: CapabilityDeclaration)
        ensures
            r@ == self@,
    {
        CapabilityDeclaration {
            id: self.id.duplicate(),
            stability: self.stability,
            description: self.description.clone(),
            requirements: duplicate_requirements(self.requirements.as_slice()),
        }
    }
}

/// The views of a sequence of declarations.
pub open spec fn declarations_view(decls: Seq<CapabilityDeclaration>) -> Seq<DeclarationView> {
    decls.map_values(|d: CapabilityDeclaration| d@)
}

/// The index of the first declaration with the given id.
pub open spec fn first_with_id(decls: Seq<DeclarationView>, id: IdView) -> Option<int>
    decreases decls.len(),
{
    if decls.len() == 0 {
        None
    } else {
        match first_with_id(decls.drop_last(), id) {
            Some(i) => Some(i),
            None => if decls.last().id == id {
                Some(decls.len() - 1)
            } else {
                None
            },
        }
    }
}

/// What the first match of a prefix says about the whole sequence.
pub proof fn lemma_first_with_id_prefix(decls: Seq<DeclarationView>, id: IdView, k: int)
    requires
        0 <= k <= decls.len(),
    ensures
        first_with_id(decls.subrange(0, k), id) matches Some(i) ==> first_with_id(decls, id) == Some(i),
        first_with_id(decls, id) matches Some(i) ==> 0 <= i < decls.len() && decls[i].id == id,
        first_with_id(decls, id) is None <==> (forall|j: int| 0 <= j < decls.len() ==> decls[j].id != id),
        first_with_id(decls.subrange(0, k), id) is None ==> (forall|j: int| 0 <= j < k ==> decls[j].id != id),
    decreases decls.len(),
{
    if decls.len() > 0 {
        if k == decls.len() {
            assert(decls.subrange(0, k) =~= decls);
            lemma_first_with_id_prefix(decls.drop_last(), id, k - 1);
        } else {
            assert(decls.drop_last().subrange(0, k) =~= decls.subrange(0, k));
            lemma_first_with_id_prefix(decls.drop_last(), id, k);
            if first_with_id(decls.subrange(0, k), id) is None {
                assert forall|j: int| 0 <= j < k implies decls[j].id != id by {
                    assert(decls.drop_last()[j] == decls[j]);
                }
            }
        }
        lemma_first_with_id_prefix(decls.drop_last(), id, decls.len() - 1);
        assert(decls.drop_last().subrange(0, decls.len() - 1) =~= decls.drop_last());
        if first_with_id(decls.drop_last(), id) is None {
            assert forall|j: int| 0 <= j < decls.len() - 1 implies decls[j].id != id by {
                assert(decls.drop_last()[j] == decls[j]);
            }
        }
    } else {
        assert(decls.subrange(0, k) =~= decls);
    }
}

/// The position of the first declaration with the given id.
pub fn declaration_position(decls: &[CapabilityDeclaration], id: &CapabilityId) -> (r: Option<usize>)
    ensures
        r matches Some(i) ==> first_with_id(declarations_view(decls@), id@) == Some(i as int),
        r is None ==> first_with_id(declarations_view(decls@), id@) is None,
{
    let ghost dv = declarations_view(decls@);
    let mut i: usize = 0;
    while i < decls.len()
        invariant
            i <= decls@.len(),
            dv == declarations_view(decls@),
            first_with_id(dv.subrange(0, i as int), id@) is None,
        decreases decls@.len() - i,
    {
        proof {
            assert(dv.subrange(0, i as int + 1).drop_last() =~= dv.subrange(0, i as int));
        }
        if decls[i].id.same_as(id) {
            proof {
                lemma_first_with_id_prefix(dv, id@, i as int + 1);
            }
            return Some(i);
        }
        i = i + 1;
    }
    proof {
        assert(dv.subrange(0, i as int) =~= dv);
    }
    None
}

/// A versioned list of declarations.
#[derive(Clone, Debug, PartialEq, Eq)]
pub struct CapabilityCatalog {
    current_version: u32,
    capabilities: Vec<CapabilityDeclaration>,
}

impl CapabilityCatalog {
    pub closed spec fn version(&self) -> u32 {
        self.current_version
    }

    pub closed spec fn declarations(&self) -> Seq<DeclarationView> {
        declarations_view(self.capabilities@)
    }

    pub fn new(current_version: u32, capabilities: Vec<CapabilityDeclaration>) -> (r: Self)
        ensures
            r.version() == current_version,
            r.declarations() == declarations_view(capabilities@),
    {
        CapabilityCatalog { current_version, capabilities }
    }

    pub fn current_version(&self) -> (r: u32)
        ensures
            r == self.version(),
    {
        self.current_version
    }

    pub fn capabilities(&self) -> (r: &[CapabilityDeclaration])
        ensures
            declarations_view(r@) == self.declarations(),
    {
        self.capabilities.as_slice()
    }

    /// The first declaration with the given id.
    pub fn find(&self, id: &CapabilityId) -> (r: Option<&CapabilityDeclaration>)
        ensures
            match first_with_id(self.declarations(), id@) {
                Some(i) => r matches Some(d) && d@ == self.declarations()[i],
                None => r is None,
            },
    {
        match declaration_position(self.capabilities.as_slice(), id) {
            Some(i) => {
                proof {
                    lemma_first_with_id_prefix(self.declarations(), id@, 0);
                }
                Some(&self.capabilities[i])
            },
            None => None,
        }
    }
}

/// A provider registered for a capability.
#[derive(Clone, Debug, PartialEq, Eq)]
pub struct ProviderRegistration {
    capability: CapabilityDeclaration,
    provider_key: String,
}

/// A registration as a value.
pub type RegistrationView = (DeclarationView, Seq<char>);

impl View for ProviderRegistration {
    type V = RegistrationView;

    closed spec fn view(&self) -> RegistrationView {
        (self.capability@, self.provider_key@)
    }
}

impl ProviderRegistration {
    pub fn capability(&self) -> (r: &CapabilityDeclaration)
        ensures
            r@ == self@.0,
    {
        &self.capability
    }

    pub fn provider_key(&self) -> (r: &str)
        ensures
            r@ == self@.1,
    {
        self.provider_key.as_str()
    }
}

/// The text of a capability id: the name, `@`, the version.
pub open spec fn id_text(id: IdView) -> Seq<char> {
    id.0 + seq!['@'] + crate::text::decimal_chars(id.1 as nat)
}

/// Why a registration was refused.
#[derive(Debug, PartialEq, Eq)]
pub enum RegistryError {
    DuplicateProvider(CapabilityId),
}

impl RegistryError {
    /// The message that describes the error.
    pub fn to_text(&self) -> (r: String)
        ensures
            r@ == match self {
                RegistryError::DuplicateProvider(id) => "enhanced provider already registered for "@ + id_text(id@),
            },
    {
        match self {
            RegistryError::DuplicateProvider(id) => {
                let mut out = String::new();
                push_str(&mut out, "enhanced provider already registered for ");
                let text = id.to_text();
                push_str(&mut out, text.as_str());
                out
            },
        }
    }
}

/// Why a capability could not be resolved.
#[derive(Debug, PartialEq, Eq)]
pub enum ResolveError {
    ProviderNotRegistered(CapabilityId),
}

impl ResolveError {
    /// The message that describes the error.
    pub fn to_text(&self) -> (r: String)
        ensures
            r@ == match self {
                ResolveError::ProviderNotRegistered(id) => "enhanced provider is not registered for "@ + id_text(id@),
            },
    {
        match self {
            ResolveError::ProviderNotRegistered(id) => {
                let mut out = String::new();
                push_str(&mut out, "enhanced provider is not registered for ");
                let text = id.to_text();
                push_str(&mut out, text.as_str());
                out
            },
        }
    }
}

/// The views of a sequence of registrations.
pub open spec fn registrations_view(regs: Seq<ProviderRegistration>) -> Seq<RegistrationView> {
    regs.map_values(|r: ProviderRegistration| r@)
}

/// The capabilities of a sequence of registrations.
pub open spec fn registered_capabilities(regs: Seq<RegistrationView>) -> Seq<DeclarationView> {
    regs.map_values(|r: RegistrationView| r.0)
}

/// The registration for `id` among `regs`, if any.
pub open spec fn lookup(regs: Seq<RegistrationView>, id: IdView) -> Option<RegistrationView> {
    match first_with_id(registered_capabilities(regs), id) {
        Some(i) => Some(regs[i]),
        None => None,
    }
}

/// The providers registered for capabilities, at most one per capability.
#[derive(Clone, Debug)]
pub struct ProviderRegistry {
    providers: Vec<ProviderRegistration>,
}

impl ProviderRegistry {
    /// The registrations, in the order they were made.
    pub closed spec fn registrations(&self) -> Seq<RegistrationView> {
        registrations_view(self.providers@)
    }

    /// No capability has two providers.
    pub open spec fn well_formed(&self) -> bool {
        forall|i: int, j: int|
            0 <= i < j < self.registrations().len() ==> #[trigger] self.registrations()[i].0.id
                != #[trigger] self.registrations()[j].0.id
    }

    /// The registration for `id`, if any.
    pub open spec fn provider_for(&self, id: IdView) -> Option<RegistrationView> {
        lookup(self.registrations(), id)
    }

    pub fn new() -> (r: Self)
        ensures
            r.well_formed(),
            r.registrations() == Seq::<RegistrationView>::empty(),
    {
        let r = ProviderRegistry { providers: Vec::new() };
        assert(r.registrations() =~= Seq::<RegistrationView>::empty());
        r
    }

    fn position(&self, id: &CapabilityId) -> (r: Option<usize>)
        ensures
            r matches Some(i) ==> first_with_id(registered_capabilities(self.registrations()), id@) == Some(i as int),
            r is None ==> first_with_id(registered_capabilities(self.registrations()), id@) is None,
    {
        let ghost decls = registered_capabilities(self.registrations());
        let mut i: usize = 0;
        while i < self.providers.len()
            invariant
                i <= self.providers@.len(),
                decls == registered_capabilities(registrations_view(self.providers@)),
                decls.len() == self.providers@.len(),
                first_with_id(decls.subrange(0, i as int), id@) is None,
            decreases self.providers@.len() - i,
        {
            proof {
                assert(decls.subrange(0, i as int + 1).drop_last() =~= decls.subrange(0, i as int));
                assert(decls[i as int] == self.providers@[i as int].capability@);
            }
            if self.providers[i].capability.id.same_as(id) {
                proof {
                    lemma_first_with_id_prefix(decls, id@, i as int + 1);
                }
                return Some(i);
            }
            i = i + 1;
        }
        proof {
            assert(decls.subrange(0, i as int) =~= decls);
        }
        None
    }

    /// Registers `provider_key` for the capability; a capability that
    /// already has a provider is refused and the registry left as it was.
    pub fn register(&mut self, capability: CapabilityDeclaration, provider_key: &str) -> (r: Result<(), RegistryError>)
        requires
            old(self).well_formed(),
        ensures
            final(self).well_formed(),
            old(self).provider_for(capability@.id) is Some ==> (r matches Err(RegistryError::DuplicateProvider(id))
                && id@ == capability@.id && final(self).registrations() == old(self).registrations()),
            old(self).provider_for(capability@.id) is None ==> (r is Ok
                && final(self).registrations() == old(self).registrations().push((capability@, provider_key@))),
    {
        proof {
            lemma_first_with_id_prefix(registered_capabilities(self.registrations()), capability@.id, 0);
        }
        match self.position(&capability.id) {
            Some(_) => Err(RegistryError::DuplicateProvider(capability.id.duplicate())),
            None => {
                let ghost before = self.registrations();
                self.providers.push(ProviderRegistration { capability, provider_key: provider_key.to_owned() });
                proof {
                    assert(self.registrations() =~= before.push((capability@, provider_key@)));
                    assert forall|i: int| 0 <= i < before.len() implies #[trigger] before[i].0.id != capability@.id by {
                        assert(registered_capabilities(before)[i] == before[i].0);
                    }
                }
                Ok(())
            },
        }
    }

    /// The registration for `id`.
    pub fn resolve(&self, id: &CapabilityId) -> (r: Result<&ProviderRegistration, ResolveError>)
        ensures
            match self.provider_for(id@) {
                Some(reg) => r matches Ok(p) && p@ == reg,
                None => r matches Err(ResolveError::ProviderNotRegistered(e)) && e@ == id@,
            },
    {
        match self.position(id) {
            Some(i) => {
                proof {
                    lemma_first_with_id_prefix(registered_capabilities(self.registrations()), id@, 0);
                    let caps = registered_capabilities(self.registrations());
                    assert(caps.len() == self.providers@.len());
                    assert(self.registrations()[i as int] == self.providers@[i as int]@);
                    assert(self.provider_for(id@) == Some(self.registrations()[i as int]));
                }
                Ok(&self.providers[i])
            },
            None => Err(ResolveError::ProviderNotRegistered(id.duplicate())),
        }
    }

    /// Whether a provider is registered for `id`.
    pub fn supports(&self, id: &CapabilityId) -> (r: bool)
        ensures
            r == self.provider_for(id@) is Some,
    {
        match self.position(id) {
            Some(_) => true,
            None => false,
        }
    }
}

/// After a registration is accepted, resolving its capability gives it
/// back, and every other capability resolves as before.
pub proof fn lemma_register_then_resolve(
    regs: Seq<RegistrationView>,
    reg: RegistrationView,
    other: IdView,
)
    requires
        lookup(regs, reg.0.id) is None,
    ensures
        lookup(regs.push(reg), reg.0.id) == Some(reg),
        other != reg.0.id ==> lookup(regs.push(reg), other) == lookup(regs, other),
{
    let caps = registered_capabilities(regs);
    let caps2 = registered_capabilities(regs.push(reg));
    assert(caps2.drop_last() =~= caps);
    assert(caps2.last() == reg.0);
    lemma_first_with_id_prefix(caps, other, 0);
    if other != reg.0.id {
        assert(first_with_id(caps2, other) == first_with_id(caps, other));
        if let Some(i) = first_with_id(caps, other) {
            assert(regs.push(reg)[i] == regs[i]);
        }
    }
}

} // verus!
