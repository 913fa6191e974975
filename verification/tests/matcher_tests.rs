//! Tests for instrumentation matching.

use il_rewriter::matcher::{InstrumentationMatcher, InstrumentationPoint};

fn test_matcher() -> InstrumentationMatcher {
    InstrumentationMatcher::new(vec![
        InstrumentationPoint {
            assembly_name: "MyApp".to_string(),
            class_name: "MyApp.Controllers.HomeController".to_string(),
            method_name: "Index".to_string(),
        },
        InstrumentationPoint {
            assembly_name: "MyApp".to_string(),
            class_name: "MyApp.Services.DataService".to_string(),
            method_name: "GetData".to_string(),
        },
    ])
}

#[test]
fn assembly_filter_excludes_non_targets() {
    let matcher = test_matcher();
    assert!(!matcher.should_instrument_assembly("System.Private.CoreLib"));
    assert!(!matcher.should_instrument_assembly("Microsoft.Extensions.Logging"));
    assert!(!matcher.should_instrument_assembly(""));
}

#[test]
fn assembly_filter_includes_targets() {
    let matcher = test_matcher();
    assert!(matcher.should_instrument_assembly("MyApp"));
    assert!(matcher.should_instrument_assembly("mscorlib"));
}

#[test]
fn method_filter_includes_targets() {
    let matcher = test_matcher();
    assert!(matcher.should_instrument_method("Index"));
    assert!(matcher.should_instrument_method("GetData"));
}

#[test]
fn method_filter_includes_hardcoded_agent_methods() {
    let matcher = test_matcher();
    assert!(matcher.should_instrument_method("GetAppDomainBoolean"));
    assert!(matcher.should_instrument_method("LoadAssemblyOrThrow"));
}

#[test]
fn full_match_requires_all_three() {
    let matcher = test_matcher();
    assert!(matcher.matches("MyApp", "MyApp.Controllers.HomeController", "Index"));
    assert!(!matcher.matches("MyApp", "MyApp.Controllers.HomeController", "About"));
    assert!(!matcher.matches("MyApp", "MyApp.Controllers.OtherController", "Index"));
    assert!(!matcher.matches("OtherApp", "MyApp.Controllers.HomeController", "Index"));
}

#[test]
fn test_targets_include_profiler_test_app() {
    let matcher = InstrumentationMatcher::with_test_targets();
    assert!(matcher.should_instrument_assembly("ProfilerTestApp"));
    assert!(matcher.matches("ProfilerTestApp", "ProfilerTestApp.Program", "DoSomeWork"));
    assert!(matcher.matches("ProfilerTestApp", "ProfilerTestApp.Program", "TryCatchWork"));
    assert!(!matcher.matches("ProfilerTestApp", "ProfilerTestApp.Program", "Main"));
}

#[test]
fn empty_matcher_only_has_hardcoded_entries() {
    let matcher = InstrumentationMatcher::new(vec![]);
    assert!(matcher.should_instrument_assembly("mscorlib"));
    assert!(!matcher.should_instrument_assembly("SomeOtherAssembly"));
    assert!(matcher.should_instrument_method("GetAppDomainBoolean"));
}

#[test]
fn type_filter_includes_targets() {
    let matcher = test_matcher();
    assert!(matcher.should_instrument_type("MyApp.Controllers.HomeController"));
    assert!(matcher.should_instrument_type("System.CannotUnloadAppDomainException"));
    assert!(!matcher.should_instrument_type("MyApp.Unknown"));
}

#[test]
fn points_returns_configured_points() {
    let matcher = test_matcher();
    assert_eq!(matcher.points().len(), 2);
    assert_eq!(matcher.points()[0].method_name, "Index");
}
