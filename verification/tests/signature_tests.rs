//! Tests for method-signature parsing.

use il_rewriter::signature::parse_method_signature;

#[test]
fn static_void_no_params() {
    let sig = vec![0x00, 0x00, 0x01];
    let result = parse_method_signature(&sig).unwrap();

    assert!(!result.has_this);
    assert!(!result.is_generic);
    assert_eq!(result.generic_param_count, 0);
    assert_eq!(result.param_count, 0);
    assert!(result.return_type_is_void);
}

#[test]
fn instance_void_no_params() {
    let sig = vec![0x20, 0x00, 0x01];
    let result = parse_method_signature(&sig).unwrap();

    assert!(result.has_this);
    assert!(!result.is_generic);
    assert_eq!(result.param_count, 0);
    assert!(result.return_type_is_void);
}

#[test]
fn static_int32_two_params() {
    let sig = vec![0x00, 0x02, 0x08, 0x08, 0x0E];
    let result = parse_method_signature(&sig).unwrap();

    assert!(!result.has_this);
    assert_eq!(result.param_count, 2);
    assert!(!result.return_type_is_void);
}

#[test]
fn generic_method() {
    let sig = vec![0x10, 0x01, 0x00, 0x01];
    let result = parse_method_signature(&sig).unwrap();

    assert!(!result.has_this);
    assert!(result.is_generic);
    assert_eq!(result.generic_param_count, 1);
    assert_eq!(result.param_count, 0);
    assert!(result.return_type_is_void);
}

#[test]
fn instance_generic_method() {
    let sig = vec![0x30, 0x02, 0x01, 0x1C, 0x08];
    let result = parse_method_signature(&sig).unwrap();

    assert!(result.has_this);
    assert!(result.is_generic);
    assert_eq!(result.generic_param_count, 2);
    assert_eq!(result.param_count, 1);
    assert!(!result.return_type_is_void);
}

#[test]
fn realistic_void_method_with_one_param() {
    let sig = vec![0x00, 0x01, 0x01, 0x0E];
    let result = parse_method_signature(&sig).unwrap();

    assert!(!result.has_this);
    assert_eq!(result.param_count, 1);
    assert!(result.return_type_is_void);
}

#[test]
fn empty_signature_fails() {
    assert!(parse_method_signature(&[]).is_err());
}

#[test]
fn truncated_signature_fails() {
    assert!(parse_method_signature(&[0x00]).is_err());
}

#[test]
fn raw_signature_preserved() {
    let sig = vec![0x20, 0x02, 0x01, 0x08, 0x0E];
    let result = parse_method_signature(&sig).unwrap();
    assert_eq!(result.raw_signature, sig);
}
