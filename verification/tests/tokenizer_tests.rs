//! Tests for metadata token resolution and wide-string conversion.

use il_rewriter::strutil::{to_wide_string, wchar_to_string_len};
use il_rewriter::tokenizer::{core_clr_assembly_for_type, MetadataService, Tokenizer};

#[test]
fn core_clr_type_resolution() {
    assert_eq!(core_clr_assembly_for_type("System.Object"), Some("System.Runtime"));
    assert_eq!(core_clr_assembly_for_type("System.Exception"), Some("System.Runtime"));
    assert_eq!(core_clr_assembly_for_type("System.Type"), Some("System.Runtime"));
    assert_eq!(core_clr_assembly_for_type("System.UInt32"), Some("System.Runtime"));
    assert_eq!(core_clr_assembly_for_type("System.UInt64"), Some("System.Runtime"));
    assert_eq!(core_clr_assembly_for_type("System.Reflection.MethodBase"), Some("System.Runtime"));
    assert_eq!(core_clr_assembly_for_type("System.Action`2"), Some("System.Runtime"));
    assert_eq!(core_clr_assembly_for_type("System.Console"), Some("System.Console"));
}

#[test]
fn core_clr_unknown_type_returns_none() {
    assert_eq!(core_clr_assembly_for_type("MyApp.MyClass"), None);
    assert_eq!(core_clr_assembly_for_type("System.Custom"), None);
}

#[test]
fn to_wide_string_basic() {
    let wide = to_wide_string("Hello");
    assert_eq!(wide, vec![0x48, 0x65, 0x6C, 0x6C, 0x6F, 0x00]);
}

#[test]
fn to_wide_string_empty() {
    let wide = to_wide_string("");
    assert_eq!(wide, vec![0x00]);
}

#[test]
fn wchar_to_string_with_null() {
    let buf = [0x48u16, 0x69, 0x00];
    assert_eq!(wchar_to_string_len(&buf, 3), "Hi");
}

#[test]
fn wchar_to_string_without_null() {
    let buf = [0x48u16, 0x69];
    assert_eq!(wchar_to_string_len(&buf, 2), "Hi");
}

#[test]
fn tokenizer_wchar_to_string_empty() {
    let buf = [0u16; 0];
    assert_eq!(wchar_to_string_len(&buf, 0), "");
}

/// A metadata service over plain tables, for exercising the tokenizer.
struct FakeService {
    refs: Vec<(u32, Vec<u16>)>,
    next_token: u32,
    defined_assembly_refs: usize,
}

impl MetadataService for FakeService {
    fn define_type_ref_by_name(
        &mut self,
        _scope_token: u32,
        _type_name_wide: &[u16],
    ) -> Result<u32, i32> {
        self.next_token += 1;
        Ok(0x0100_0000 | self.next_token)
    }

    fn define_member_ref(
        &mut self,
        _parent_token: u32,
        _name_wide: &[u16],
        _signature: &[u8],
    ) -> Result<u32, i32> {
        self.next_token += 1;
        Ok(0x0A00_0000 | self.next_token)
    }

    fn define_user_string(&mut self, _string_wide: &[u16], _char_count: u32) -> Result<u32, i32> {
        self.next_token += 1;
        Ok(0x7000_0000 | self.next_token)
    }

    fn get_token_from_type_spec(&mut self, _signature: &[u8]) -> Result<u32, i32> {
        self.next_token += 1;
        Ok(0x1B00_0000 | self.next_token)
    }

    fn get_token_from_sig(&mut self, _signature: &[u8]) -> Result<u32, i32> {
        self.next_token += 1;
        Ok(0x1100_0000 | self.next_token)
    }

    fn define_method_spec(
        &mut self,
        _parent_token: u32,
        _instantiation_signature: &[u8],
    ) -> Result<u32, i32> {
        self.next_token += 1;
        Ok(0x2B00_0000 | self.next_token)
    }

    fn enum_assembly_refs(&mut self) -> Vec<u32> {
        self.refs.iter().map(|r| r.0).collect()
    }

    fn get_assembly_ref_name(&mut self, token: u32) -> Option<Vec<u16>> {
        self.refs.iter().find(|r| r.0 == token).map(|r| r.1.clone())
    }

    fn define_assembly_ref(&mut self, _name_wide: &[u16]) -> Result<u32, i32> {
        self.defined_assembly_refs += 1;
        self.next_token += 1;
        Ok(0x2300_0000 | self.next_token)
    }
}

fn service_with(names: &[&str]) -> FakeService {
    FakeService {
        refs: names
            .iter()
            .enumerate()
            .map(|(i, n)| (0x2300_0001 + i as u32, to_wide_string(n)))
            .collect(),
        next_token: 0,
        defined_assembly_refs: 0,
    }
}

#[test]
fn assembly_ref_found_in_existing_refs() {
    let service = service_with(&["System.Runtime", "MyLib"]);
    let mut tok = Tokenizer::new(service, true);
    let t = tok.get_assembly_ref_token("MyLib").unwrap();
    assert_eq!(t, 0x2300_0002);
    // A second lookup is served from the cache and defines nothing.
    let t2 = tok.get_assembly_ref_token("MyLib").unwrap();
    assert_eq!(t2, t);
    assert_eq!(tok.service.defined_assembly_refs, 0);
}

#[test]
fn mscorlib_falls_back_to_system_runtime_on_core_clr() {
    let service = service_with(&["System.Runtime"]);
    let mut tok = Tokenizer::new(service, true);
    let t = tok.get_assembly_ref_token("mscorlib").unwrap();
    assert_eq!(t, 0x2300_0001);
}

#[test]
fn missing_assembly_defined_on_core_clr_only() {
    let service = service_with(&[]);
    let mut tok = Tokenizer::new(service, false);
    assert!(tok.get_assembly_ref_token("Absent").is_err());

    let service2 = service_with(&[]);
    let mut tok2 = Tokenizer::new(service2, true);
    assert!(tok2.get_assembly_ref_token("Absent").is_ok());
    assert_eq!(tok2.service.defined_assembly_refs, 1);
}

#[test]
fn type_ref_tokens_are_cached() {
    let service = service_with(&["System.Runtime"]);
    let mut tok = Tokenizer::new(service, true);
    let t1 = tok.get_type_ref_token("mscorlib", "System.Object").unwrap();
    let t2 = tok.get_type_ref_token("mscorlib", "System.Object").unwrap();
    assert_eq!(t1, t2);
    assert_eq!(tok.type_ref_cache.len(), 1);
}
