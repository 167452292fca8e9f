use turbopack_analyzer::pattern_mapping::{
    CodeExpr, CodeGenIssue, IdForm, ModuleId, PatternMapping, ResolveStep, ResolveSummary,
    ResolveType, UnsupportedPattern,
};

#[test]
fn empty_resolution_is_invalid_without_diagnostic() {
    for t in [ResolveType::Cjs, ResolveType::EsmAsync] {
        assert_eq!(
            PatternMapping::resolve_request(ResolveSummary::Alternatives(0), t),
            ResolveStep::Done(PatternMapping::Invalid, None)
        );
    }
}

#[test]
fn single_sync_asset_maps_to_its_placement_id() {
    let step = PatternMapping::resolve_request(ResolveSummary::Single, ResolveType::Cjs);
    assert_eq!(step, ResolveStep::LookupId(IdForm::Placement));
    let (mapping, issue) = PatternMapping::from_lookup(Some(ModuleId::Number(42)));
    assert_eq!(mapping, PatternMapping::Single(ModuleId::Number(42)));
    assert_eq!(issue, None);
    assert_eq!(mapping.create(), Ok(CodeExpr::ModuleIdLit(ModuleId::Number(42))));
}

#[test]
fn async_asset_uses_the_manifest_loader_id() {
    assert_eq!(
        PatternMapping::resolve_request(ResolveSummary::Single, ResolveType::EsmAsync),
        ResolveStep::LookupId(IdForm::ManifestLoader)
    );
    assert_eq!(
        PatternMapping::resolve_request(ResolveSummary::Alternatives(3), ResolveType::EsmAsync),
        ResolveStep::LookupId(IdForm::ManifestLoader)
    );
    assert_eq!(
        PatternMapping::resolve_request(ResolveSummary::Alternatives(2), ResolveType::Cjs),
        ResolveStep::LookupId(IdForm::Placement)
    );
}

#[test]
fn external_marker_passes_key_through() {
    let step = PatternMapping::resolve_request(ResolveSummary::OriginalReferenceExternal, ResolveType::Cjs);
    assert_eq!(step, ResolveStep::Done(PatternMapping::OriginalReferenceExternal, None));
    let key = CodeExpr::Source("\"./dep\"".to_string());
    let mapping = PatternMapping::OriginalReferenceExternal;
    assert_eq!(mapping.apply(key), Ok(CodeExpr::Source("\"./dep\"".to_string())));
    assert!(!mapping.is_internal_import());
    assert_eq!(mapping.create(), Err(UnsupportedPattern::NeedsKeyExpression));
}

#[test]
fn typed_external_gives_its_request() {
    let step = PatternMapping::resolve_request(
        ResolveSummary::OriginalReferenceTypeExternal("node:fs".to_string()),
        ResolveType::EsmAsync,
    );
    let mapping = match step {
        ResolveStep::Done(m, None) => m,
        other => panic!("unexpected {:?}", other),
    };
    assert_eq!(mapping, PatternMapping::OriginalReferenceTypeExternal("node:fs".to_string()));
    assert!(!mapping.is_internal_import());
    let key = CodeExpr::Source("x".to_string());
    assert_eq!(mapping.apply(key), Ok(CodeExpr::Str("node:fs".to_string())));
}

#[test]
fn non_trivial_result_is_diagnosed() {
    let step = PatternMapping::resolve_request(ResolveSummary::Other, ResolveType::Cjs);
    assert_eq!(step, ResolveStep::Done(PatternMapping::Invalid, Some(CodeGenIssue::NonTrivialResult)));
    assert_eq!(CodeGenIssue::NonTrivialResult.title(), "not implemented result for pattern mapping");
}

#[test]
fn non_placeable_asset_is_diagnosed() {
    let (mapping, issue) = PatternMapping::from_lookup(None);
    assert_eq!(mapping, PatternMapping::Invalid);
    assert_eq!(issue, Some(CodeGenIssue::NonPlaceableAsset));
    assert_eq!(CodeGenIssue::NonPlaceableAsset.title(), "non-ecmascript placeable asset");
}

#[test]
fn generated_expressions() {
    assert_eq!(PatternMapping::Invalid.create(), Ok(CodeExpr::ThrowInvalid));
    assert!(PatternMapping::Invalid.is_internal_import());
    let id = ModuleId::String("./a.js".to_string());
    assert_eq!(
        PatternMapping::Single(id).apply(CodeExpr::Source("k".to_string())),
        Ok(CodeExpr::ModuleIdLit(ModuleId::String("./a.js".to_string())))
    );
    let map = PatternMapping::IdMap(vec![("a".to_string(), ModuleId::Number(1))]);
    assert!(map.is_internal_import());
    assert_eq!(map.create(), Err(UnsupportedPattern::ComplexExpression));
    assert_eq!(
        map.apply(CodeExpr::Source("k".to_string())),
        Err(UnsupportedPattern::ComplexExpression)
    );
}
