//! Tests for the validation-event capture.

use il_rewriter::validation::{ValidationEvent, ValidationFramework};

#[test]
fn test_validation_event_creation() {
    let event = ValidationEvent {
        timestamp_micros: 1000,
        event_type: "Test".to_string(),
        function_id: Some(12345),
        module_id: None,
        method_name: Some("TestMethod".to_string()),
        assembly_name: None,
        parameters: Vec::new(),
    };

    assert_eq!(event.event_type, "Test");
    assert_eq!(event.function_id, Some(12345));
}

#[test]
fn enabled_framework_captures_events() {
    let mut framework = ValidationFramework::new(true);
    framework.log_jit_compilation(12345, true, 1000);
    framework.log_module_load(67890, Some("TestAssembly".to_string()), 1001);

    assert_eq!(framework.count(), 2);
    assert_eq!(framework.events()[0].event_type, "JITCompilationStarted");
    assert_eq!(framework.events()[0].function_id, Some(12345));
    assert_eq!(framework.events()[0].parameters[0].0, "is_safe_to_block");
    assert_eq!(framework.events()[0].parameters[0].1, "true");
    assert_eq!(framework.events()[1].event_type, "ModuleLoadFinished");
    assert_eq!(framework.events()[1].module_id, Some(67890));
}

#[test]
fn disabled_framework_drops_events() {
    let mut framework = ValidationFramework::new(false);
    framework.log_jit_compilation(12345, false, 1000);
    assert_eq!(framework.count(), 0);
}
