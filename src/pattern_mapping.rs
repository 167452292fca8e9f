//! Classifies a resolved import target, and gives the expression that
//! replaces the import's key in generated code.
use vstd::prelude::*;

verus! {

/// A module id assigned by the chunking system.
#[derive(Debug, PartialEq)]
pub enum ModuleId {
    Number(u32),
    String(String),
}

/// How the import loads its target.
#[derive(Clone, Copy, Debug, PartialEq, Eq, Structural)]
pub enum ResolveType {
    /// Asynchronous loading (dynamic `import()`).
    EsmAsync,
    /// Synchronous loading (`require()`).
    Cjs,
}

/// A mapping from a request pattern (e.g. `"./module"`, or
/// `` `./images/${name}.png` ``) to the module ids it can reach.
#[derive(Debug, PartialEq)]
pub enum PatternMapping {
    /// Invalid request.
    Invalid,
    /// Constant request that always maps to the same module.
    Single(ModuleId),
    /// Variable request that can map to different modules at runtime: pairs
    /// of interpolation key and module id, keys distinct.
    IdMap(Vec<(String, ModuleId)>),
    /// Keep the original reference.
    OriginalReferenceExternal,
    /// Keep the reference, with this request instead.
    OriginalReferenceTypeExternal(String),
}

/// The expression that stands for an import's key in generated code.
#[derive(Debug, PartialEq)]
pub enum CodeExpr {
    /// An expression that throws an `Error("Invalid")` when evaluated.
    ThrowInvalid,
    /// The literal for a module id.
    ModuleIdLit(ModuleId),
    /// A string literal.
    Str(String),
    /// An expression of the source, by its text, kept as it is.
    Source(String),
}

/// Mappings for which no replacement expression can be made alone.
#[derive(Debug, PartialEq, Eq, Structural)]
pub enum UnsupportedPattern {
    /// A variable request over several modules: complex expressions cannot
    /// be transformed yet.
    ComplexExpression,
    /// The original reference is kept, so the key expression is needed
    /// (use `apply`).
    NeedsKeyExpression,
}

/// What the resolver answered for an import.
#[derive(Debug, PartialEq)]
pub enum ResolveSummary {
    /// Alternative candidate assets, by count; the first one is taken.
    Alternatives(usize),
    /// One asset.
    Single,
    /// The target is external: keep the original reference.
    OriginalReferenceExternal,
    /// The target is external, referenced by this request.
    OriginalReferenceTypeExternal(String),
    /// Any other, non-trivial result.
    Other,
}

/// Which id of the chosen asset the chunking system is asked for.
#[derive(Clone, Copy, Debug, PartialEq, Eq, Structural)]
pub enum IdForm {
    /// The id of the asset placed in a chunk.
    Placement,
    /// The id of the loader of the asset's chunk manifest.
    ManifestLoader,
}

/// A diagnostic to report, always of bug severity.
#[derive(Debug, PartialEq, Eq, Structural)]
pub enum CodeGenIssue {
    /// The resolver gave a result that no mapping is made for yet.
    NonTrivialResult,
    /// The chosen asset cannot be placed in an ECMAScript chunk, so it has no
    /// module id.
    NonPlaceableAsset,
}

/// The next step of resolving a request into a mapping.
#[derive(Debug, PartialEq)]
pub enum ResolveStep {
    /// The mapping is known, with the diagnostic to report, if any.
    Done(PatternMapping, Option<CodeGenIssue>),
    /// Ask the chunking system for this id of the chosen asset, then call
    /// `PatternMapping::from_lookup` with the answer.
    LookupId(IdForm),
}

pub open spec fn well_formed_entries(entries: Seq<(String, ModuleId)>) -> bool {
    forall|i: int, j: int|
        0 <= i < j < entries.len() ==> entries[i].0@ != entries[j].0@
}

pub open spec fn is_internal(m: PatternMapping) -> bool {
    match m {
        PatternMapping::Invalid | PatternMapping::Single(_) | PatternMapping::IdMap(_) => true,
        _ => false,
    }
}

/// What `create` gives for `m`.
pub open spec fn created(m: PatternMapping, r: Result<CodeExpr, UnsupportedPattern>) -> bool {
    match m {
        PatternMapping::Invalid => r == Ok::<CodeExpr, UnsupportedPattern>(
            CodeExpr::ThrowInvalid,
        ),
        PatternMapping::Single(id) => r matches Ok(CodeExpr::ModuleIdLit(x)) && x == id,
        PatternMapping::IdMap(_) => r == Err::<CodeExpr, UnsupportedPattern>(
            UnsupportedPattern::ComplexExpression,
        ),
        PatternMapping::OriginalReferenceExternal => r == Err::<
            CodeExpr,
            UnsupportedPattern,
        >(UnsupportedPattern::NeedsKeyExpression),
        PatternMapping::OriginalReferenceTypeExternal(s) => r matches Ok(
            CodeExpr::Str(x),
        ) && x@ == s@,
    }
}

/// What `apply` gives for `m` and the key expression `key`.
pub open spec fn applied(m: PatternMapping, key: CodeExpr, r: Result<CodeExpr, UnsupportedPattern>) -> bool {
    match m {
        PatternMapping::OriginalReferenceExternal => r == Ok::<CodeExpr, UnsupportedPattern>(key),
        _ => created(m, r),
    }
}

impl CodeGenIssue {
    /// The diagnostic's title.
    pub fn title(&self) -> (r: String)
        ensures
            r@ == match self {
                CodeGenIssue::NonTrivialResult => "not implemented result for pattern mapping"@,
                CodeGenIssue::NonPlaceableAsset => "non-ecmascript placeable asset"@,
            },
    {
        match self {
            CodeGenIssue::NonTrivialResult => String::from_str(
                "not implemented result for pattern mapping",
            ),
            CodeGenIssue::NonPlaceableAsset => String::from_str("non-ecmascript placeable asset"),
        }
    }
}

impl PatternMapping {
    /// Keys of an `IdMap` are distinct.
    pub open spec fn well_formed(&self) -> bool {
        match self {
            PatternMapping::IdMap(entries) => well_formed_entries(entries@),
            _ => true,
        }
    }

    /// Whether the import stays inside the bundle (as opposed to an external
    /// reference).
    pub fn is_internal_import(&self) -> (r: bool)
        ensures
            r == is_internal(*self),
    {
        match self {
            PatternMapping::Invalid | PatternMapping::Single(_) | PatternMapping::IdMap(_) => true,
            PatternMapping::OriginalReferenceExternal
            | PatternMapping::OriginalReferenceTypeExternal(_) => false,
        }
    }

    /// The expression that replaces the import's key. An `IdMap` and an
    /// original external reference have none of their own.
    pub fn create(&self) -> (r: Result<CodeExpr, UnsupportedPattern>)
        ensures
            created(*self, r),
    {
        match self {
            PatternMapping::Invalid => Ok(CodeExpr::ThrowInvalid),
            PatternMapping::Single(id) => Ok(CodeExpr::ModuleIdLit(clone_module_id(id))),
            PatternMapping::IdMap(_) => Err(UnsupportedPattern::ComplexExpression),
            PatternMapping::OriginalReferenceExternal => Err(
                UnsupportedPattern::NeedsKeyExpression,
            ),
            PatternMapping::OriginalReferenceTypeExternal(s) => Ok(CodeExpr::Str(s.clone())),
        }
    }

    /// The expression that replaces `key_expr`: for an original external
    /// reference, `key_expr` itself; otherwise what `create` gives.
    pub fn apply(&self, key_expr: CodeExpr) -> (r: Result<CodeExpr, UnsupportedPattern>)
        ensures
            applied(*self, key_expr, r),
    {
        match self {
            PatternMapping::OriginalReferenceExternal => Ok(key_expr),
            _ => self.create(),
        }
    }
}

fn clone_module_id(id: &ModuleId) -> (r: ModuleId)
    ensures
        r == *id,
{
    match id {
        ModuleId::Number(n) => ModuleId::Number(*n),
        ModuleId::String(s) => ModuleId::String(s.clone()),
    }
}

impl PatternMapping {
    /// The first step of resolving a request: what the resolver's answer
    /// settles, and otherwise which id of the chosen asset to look up.
    pub fn resolve_request(result: ResolveSummary, resolve_type: ResolveType) -> (r: ResolveStep)
        ensures
            r == resolve_step(result, resolve_type),
    {
        match result {
            ResolveSummary::Alternatives(n) => {
                if n == 0 {
                    ResolveStep::Done(PatternMapping::Invalid, None)
                } else {
                    ResolveStep::LookupId(id_form(resolve_type))
                }
            },
            ResolveSummary::Single => ResolveStep::LookupId(id_form(resolve_type)),
            ResolveSummary::OriginalReferenceExternal => ResolveStep::Done(
                PatternMapping::OriginalReferenceExternal,
                None,
            ),
            ResolveSummary::OriginalReferenceTypeExternal(s) => ResolveStep::Done(
                PatternMapping::OriginalReferenceTypeExternal(s),
                None,
            ),
            ResolveSummary::Other => ResolveStep::Done(
                PatternMapping::Invalid,
                Some(CodeGenIssue::NonTrivialResult),
            ),
        }
    }

    /// The last step: the id that the chunking system gave for the chosen
    /// asset, or `None` where the asset cannot be placed in a chunk.
    pub fn from_lookup(id: Option<ModuleId>) -> (r: (PatternMapping, Option<CodeGenIssue>))
        ensures
            r == lookup_result(id),
    {
        match id {
            Some(x) => (PatternMapping::Single(x), None),
            None => (PatternMapping::Invalid, Some(CodeGenIssue::NonPlaceableAsset)),
        }
    }
}

/// The mapping for the id looked up for the chosen asset: `None` (the asset
/// cannot be placed) gives `Invalid` with a diagnostic.
pub open spec fn lookup_result(id: Option<ModuleId>) -> (PatternMapping, Option<CodeGenIssue>) {
    match id {
        Some(x) => (PatternMapping::Single(x), None),
        None => (PatternMapping::Invalid, Some(CodeGenIssue::NonPlaceableAsset)),
    }
}

/// Asynchronous loading goes through the chunk manifest's loader.
pub open spec fn id_form_spec(t: ResolveType) -> IdForm {
    match t {
        ResolveType::EsmAsync => IdForm::ManifestLoader,
        ResolveType::Cjs => IdForm::Placement,
    }
}

fn id_form(t: ResolveType) -> (r: IdForm)
    ensures
        r == id_form_spec(t),
{
    match t {
        ResolveType::EsmAsync => IdForm::ManifestLoader,
        ResolveType::Cjs => IdForm::Placement,
    }
}

/// The first step for a resolver's answer: no candidate gives `Invalid`
/// with no diagnostic (it was reported upstream); a non-trivial answer gives
/// `Invalid` with one; an external marker is kept; a chosen asset needs its id.
pub open spec fn resolve_step(result: ResolveSummary, t: ResolveType) -> ResolveStep {
    match result {
        ResolveSummary::Alternatives(n) => if n == 0 {
            ResolveStep::Done(PatternMapping::Invalid, None)
        } else {
            ResolveStep::LookupId(id_form_spec(t))
        },
        ResolveSummary::Single => ResolveStep::LookupId(id_form_spec(t)),
        ResolveSummary::OriginalReferenceExternal => ResolveStep::Done(
            PatternMapping::OriginalReferenceExternal,
            None,
        ),
        ResolveSummary::OriginalReferenceTypeExternal(s) => ResolveStep::Done(
            PatternMapping::OriginalReferenceTypeExternal(s),
            None,
        ),
        ResolveSummary::Other => ResolveStep::Done(
            PatternMapping::Invalid,
            Some(CodeGenIssue::NonTrivialResult),
        ),
    }
}

/// No candidate asset gives `Invalid`, with no diagnostic, whatever the
/// loading convention.
pub proof fn lemma_empty_resolution_is_invalid(t: ResolveType)
    ensures
        resolve_step(ResolveSummary::Alternatives(0), t) == ResolveStep::Done(
            PatternMapping::Invalid,
            None,
        ),
{
}

/// One asset loaded synchronously is looked up by its placement id, and
/// the mapping is `Single` of the id that the chunking system gave.
pub proof fn lemma_single_sync_asset(id: ModuleId)
    ensures
        resolve_step(ResolveSummary::Single, ResolveType::Cjs) == ResolveStep::LookupId(
            IdForm::Placement,
        ),
        lookup_result(Some(id)) == (PatternMapping::Single(id), None::<CodeGenIssue>),
{
}

/// An external marker is kept as the original reference, and applying it
/// to a key expression gives that expression unchanged.
pub proof fn lemma_external_passes_key_through(
    t: ResolveType,
    key: CodeExpr,
    r: Result<CodeExpr, UnsupportedPattern>,
)
    ensures
        resolve_step(ResolveSummary::OriginalReferenceExternal, t) == ResolveStep::Done(
            PatternMapping::OriginalReferenceExternal,
            None,
        ),
        applied(PatternMapping::OriginalReferenceExternal, key, r) <==> r == Ok::<
            CodeExpr,
            UnsupportedPattern,
        >(key),
{
}

} // verus!
