//! Metadata token resolution for IL injection.
//!
//! The tokenizer turns assembly, type and member names into metadata tokens
//! over an abstract metadata-service capability the host runtime provides.
//! It caches assembly-reference and type-reference lookups, and on the
//! modern runtime flavor maps the classic core-library names onto the
//! assemblies that actually hold them.

use vstd::prelude::*;

use crate::strutil::{to_wide_string, wchar_to_string_len};
use crate::IlError;

verus! {

/// The metadata read/write capability backing the tokenizer: lookups and
/// definitions against the host runtime's metadata tables.  Names travel as
/// null-terminated UTF-16 buffers, blobs as plain bytes; a failed call
/// comes back as the host's status code.  Nothing is assumed of the host's
/// behavior: the tokenizer states only what holds whatever comes back.
pub trait MetadataService {
    /// Materialize a type reference bound to a resolution scope.
    fn define_type_ref_by_name(&mut self, scope_token: u32, type_name_wide: &[u16]) -> Result<
        u32,
        i32,
    >;

    /// Define a member reference on a parent type token.
    fn define_member_ref(&mut self, parent_token: u32, name_wide: &[u16], signature: &[u8])
        -> Result<u32, i32>;

    /// Intern a UTF-16 string literal of the given character count.
    fn define_user_string(&mut self, string_wide: &[u16], char_count: u32) -> Result<u32, i32>;

    /// Token for a generic-instantiation signature.
    fn get_token_from_type_spec(&mut self, signature: &[u8]) -> Result<u32, i32>;

    /// Token for a standalone (local-variable) signature blob.
    fn get_token_from_sig(&mut self, signature: &[u8]) -> Result<u32, i32>;

    /// Token for a generic method instantiation.
    fn define_method_spec(&mut self, parent_token: u32, instantiation_signature: &[u8]) -> Result<
        u32,
        i32,
    >;

    /// The module's existing assembly-reference tokens.
    fn enum_assembly_refs(&mut self) -> Vec<u32>;

    /// The name recorded for an assembly-reference token, as UTF-16 units.
    fn get_assembly_ref_name(&mut self, token: u32) -> Option<Vec<u16>>;

    /// Create a new assembly reference by name.
    fn define_assembly_ref(&mut self, name_wide: &[u16]) -> Result<u32, i32>;
}

/// The assembly the modern runtime keeps a classic core-library type in,
/// when the tokenizer overrides the caller-supplied assembly name.
pub open spec fn spec_core_clr_assembly(t: Seq<char>) -> Option<Seq<char>> {
    if t == "System.Object"@ || t == "System.Exception"@ || t == "System.Type"@ || t
        == "System.RuntimeTypeHandle"@ || t == "System.UInt32"@ || t == "System.UInt64"@ || t
        == "System.Int32"@ || t == "System.Int64"@ || t == "System.Boolean"@ || t
        == "System.String"@ || t == "System.Reflection.MethodBase"@ || t
        == "System.Reflection.MethodInfo"@ || t == "System.Reflection.Assembly"@ || t
        == "System.Action`2"@ {
        Some("System.Runtime"@)
    } else if t == "System.Console"@ {
        Some("System.Console"@)
    } else {
        None
    }
}

/// True when two strings spell the same characters.
fn str_eq(a: &str, b: &str) -> (r: bool)
    ensures
        r == (a@ == b@),
{
    let ao: String = a.to_owned();
    let bo: String = b.to_owned();
    ao.eq(&bo)
}

/// The assembly a classic core-library type lives in on the modern
/// runtime, or `None` for types outside the built-in table.
pub fn core_clr_assembly_for_type(typename: &str) -> (r: Option<&'static str>)
    ensures
        r is Some <==> spec_core_clr_assembly(typename@) is Some,
        r matches Some(s) ==> spec_core_clr_assembly(typename@) == Some(s@),
{
    if str_eq(typename, "System.Object") || str_eq(typename, "System.Exception") || str_eq(
        typename,
        "System.Type",
    ) || str_eq(typename, "System.RuntimeTypeHandle") || str_eq(typename, "System.UInt32")
        || str_eq(typename, "System.UInt64") || str_eq(typename, "System.Int32") || str_eq(
        typename,
        "System.Int64",
    ) || str_eq(typename, "System.Boolean") || str_eq(typename, "System.String") || str_eq(
        typename,
        "System.Reflection.MethodBase",
    ) || str_eq(typename, "System.Reflection.MethodInfo") || str_eq(
        typename,
        "System.Reflection.Assembly",
    ) || str_eq(typename, "System.Action`2") {
        Some("System.Runtime")
    } else if str_eq(typename, "System.Console") {
        Some("System.Console")
    } else {
        None
    }
}

/// The token the first cache entry spelling `name` carries, if any.
pub open spec fn cache_lookup(cache: Seq<(String, u32)>, name: Seq<char>) -> Option<u32>
    decreases cache.len(),
{
    if cache.len() == 0 {
        None
    } else if cache[0].0@ == name {
        Some(cache[0].1)
    } else {
        cache_lookup(cache.skip(1), name)
    }
}

/// Resolves metadata tokens from type and member names, caching
/// assembly-reference and type-reference lookups.
pub struct Tokenizer<S: MetadataService> {
    /// The metadata capability of the host runtime.
    pub service: S,
    /// Whether the modern runtime's type-to-assembly overrides apply.
    pub is_core_clr: bool,
    /// Cache: assembly name to assembly-ref token.
    pub assembly_ref_cache: Vec<(String, u32)>,
    /// Cache: (assembly-ref token, type name) to type-ref token.
    pub type_ref_cache: Vec<(u32, String, u32)>,
}

/// The token the first type-cache entry for `(scope, name)` carries.
pub open spec fn type_cache_lookup(cache: Seq<(u32, String, u32)>, scope: u32, name: Seq<
    char,
>) -> Option<u32>
    decreases cache.len(),
{
    if cache.len() == 0 {
        None
    } else if cache[0].0 == scope && cache[0].1@ == name {
        Some(cache[0].2)
    } else {
        type_cache_lookup(cache.skip(1), scope, name)
    }
}

impl<S: MetadataService> Tokenizer<S> {
    /// Create a tokenizer over a metadata service.
    pub fn new(service: S, is_core_clr: bool) -> (r: Self)
        ensures
            r.is_core_clr == is_core_clr,
            r.assembly_ref_cache@ == Seq::<(String, u32)>::empty(),
            r.type_ref_cache@ == Seq::<(u32, String, u32)>::empty(),
    {
        Self { service, is_core_clr, assembly_ref_cache: Vec::new(), type_ref_cache: Vec::new() }
    }

    /// Get an assembly-reference token by name: from the cache when
    /// already resolved (leaving everything unchanged), else from the
    /// module's existing references, else—on the modern runtime—by
    /// falling back from `mscorlib` to `System.Runtime` and by defining a
    /// missing reference.  Whatever the service answers, the caches only
    /// ever grow, and a token served from the cache is the one recorded
    /// for that name.
    pub fn get_assembly_ref_token(&mut self, assembly_name: &str) -> (r: Result<u32, IlError>)
        ensures
            final(self).is_core_clr == old(self).is_core_clr,
            old(self).assembly_ref_cache@.is_prefix_of(final(self).assembly_ref_cache@),
            final(self).type_ref_cache@ == old(self).type_ref_cache@,
            cache_lookup(old(self).assembly_ref_cache@, assembly_name@) matches Some(t) ==> (
            r == Ok::<u32, IlError>(t) && *final(self) == *old(self)),
            r matches Err(e) ==> e is TokenResolutionFailed,
            !old(self).is_core_clr && r is Ok ==> cache_lookup(
                final(self).assembly_ref_cache@,
                assembly_name@,
            ) == Some(r.unwrap()),
    {
        if let Some(token) = lookup_assembly_cache(&self.assembly_ref_cache, assembly_name) {
            return Ok(token);
        }

        if let Some(token) = self.find_existing_assembly_ref(assembly_name) {
            push_assembly_cache(&mut self.assembly_ref_cache, assembly_name, token);
            proof {
                lemma_cache_lookup_extend(
                    old(self).assembly_ref_cache@,
                    assembly_name@,
                    self.assembly_ref_cache@,
                );
            }
            return Ok(token);
        }

        if self.is_core_clr && str_eq(assembly_name, "mscorlib") {
            if let Some(token) = self.find_existing_assembly_ref("System.Runtime") {
                push_assembly_cache(&mut self.assembly_ref_cache, assembly_name, token);
                return Ok(token);
            }
            return self.define_assembly_ref("System.Runtime");
        }

        if self.is_core_clr {
            return self.define_assembly_ref(assembly_name);
        }

        Err(
            IlError::TokenResolutionFailed(
                String::from_str("assembly reference not found"),
            ),
        )
    }

    /// The assembly name a type lookup resolves to: the built-in table's
    /// assembly on the modern runtime where the table knows the type, else
    /// the caller's assembly name.
    pub open spec fn spec_resolved_assembly(&self, assembly_name: Seq<char>, typename: Seq<
        char,
    >) -> Seq<char> {
        if self.is_core_clr {
            match spec_core_clr_assembly(typename) {
                Some(mapped) => mapped,
                None => assembly_name,
            }
        } else {
            assembly_name
        }
    }

    /// Get a type-reference token.  On the modern runtime the built-in
    /// table picks the assembly the type really lives in; the resolved
    /// assembly's reference token then scopes the lookup, which is cached.
    /// When both the resolved assembly and the scoped type are already
    /// cached, the cached token comes back and nothing—including the
    /// service—is touched; on any success, the returned token stands
    /// recorded in the type cache for this type name.
    pub fn get_type_ref_token(&mut self, assembly_name: &str, typename: &str) -> (r: Result<
        u32,
        IlError,
    >)
        ensures
            final(self).is_core_clr == old(self).is_core_clr,
            old(self).assembly_ref_cache@.is_prefix_of(final(self).assembly_ref_cache@),
            old(self).type_ref_cache@.is_prefix_of(final(self).type_ref_cache@),
            r matches Err(e) ==> e is TokenResolutionFailed,
            ({
                let resolved = old(self).spec_resolved_assembly(assembly_name@, typename@);
                cache_lookup(old(self).assembly_ref_cache@, resolved) matches Some(a)
                    && type_cache_lookup(old(self).type_ref_cache@, a, typename@) matches Some(t)
            }) ==> ({
                let resolved = old(self).spec_resolved_assembly(assembly_name@, typename@);
                let a = cache_lookup(old(self).assembly_ref_cache@, resolved).unwrap();
                let t = type_cache_lookup(old(self).type_ref_cache@, a, typename@).unwrap();
                r == Ok::<u32, IlError>(t) && *final(self) == *old(self)
            }),
            r matches Ok(t) ==> exists|a: u32|
                #[trigger] type_cache_lookup(final(self).type_ref_cache@, a, typename@) == Some(t),
    {
        let resolved: &str = if self.is_core_clr {
            match core_clr_assembly_for_type(typename) {
                Some(mapped) => mapped,
                None => assembly_name,
            }
        } else {
            assembly_name
        };

        let assembly_ref = match self.get_assembly_ref_token(resolved) {
            Ok(t) => t,
            Err(e) => {
                return Err(e);
            },
        };

        if let Some(token) = lookup_type_cache(&self.type_ref_cache, assembly_ref, typename) {
            proof {
                assert(type_cache_lookup(self.type_ref_cache@, assembly_ref, typename@) == Some(
                    token,
                ));
            }
            return Ok(token);
        }

        let wide = to_wide_string(typename);
        let token = match self.service.define_type_ref_by_name(assembly_ref, wide.as_slice()) {
            Ok(t) => t,
            Err(_) => {
                return Err(
                    IlError::TokenResolutionFailed(
                        String::from_str("type reference definition failed"),
                    ),
                );
            },
        };

        let ghost pre_push = self.type_ref_cache@;
        self.type_ref_cache.push((assembly_ref, typename.to_owned(), token));
        proof {
            assert(old(self).type_ref_cache@.is_prefix_of(self.type_ref_cache@));
            lemma_type_cache_extend(pre_push, self.type_ref_cache@, assembly_ref, typename@);
            assert(type_cache_lookup(self.type_ref_cache@, assembly_ref, typename@) == Some(
                token,
            ));
        }
        Ok(token)
    }

    /// Get a member-reference token for a method or field on a type.
    pub fn get_member_ref_token(&mut self, parent_token: u32, method_name: &str, signature: &[u8])
        -> (r: Result<u32, IlError>)
        ensures
            final(self).is_core_clr == old(self).is_core_clr,
            final(self).assembly_ref_cache@ == old(self).assembly_ref_cache@,
            final(self).type_ref_cache@ == old(self).type_ref_cache@,
            r matches Err(e) ==> e is TokenResolutionFailed,
    {
        let wide = to_wide_string(method_name);
        match self.service.define_member_ref(parent_token, wide.as_slice(), signature) {
            Ok(t) => Ok(t),
            Err(_) => Err(
                IlError::TokenResolutionFailed(
                    String::from_str("member reference definition failed"),
                ),
            ),
        }
    }

    /// Get a user-string token for an embedded string literal; the
    /// character count handed to the service leaves out the terminator.
    pub fn get_string_token(&mut self, string: &str) -> (r: Result<u32, IlError>)
        ensures
            final(self).is_core_clr == old(self).is_core_clr,
            final(self).assembly_ref_cache@ == old(self).assembly_ref_cache@,
            final(self).type_ref_cache@ == old(self).type_ref_cache@,
            r matches Err(e) ==> e is TokenResolutionFailed,
    {
        let wide = to_wide_string(string);
        let char_count = wide.len() - 1;
        if char_count > u32::MAX as usize {
            return Err(
                IlError::TokenResolutionFailed(String::from_str("string literal too long")),
            );
        }
        match self.service.define_user_string(wide.as_slice(), char_count as u32) {
            Ok(t) => Ok(t),
            Err(_) => Err(
                IlError::TokenResolutionFailed(String::from_str("user string definition failed")),
            ),
        }
    }

    /// Get a TypeSpec token for a generic-instantiation signature.
    pub fn get_type_spec_token(&mut self, signature: &[u8]) -> (r: Result<u32, IlError>)
        ensures
            final(self).is_core_clr == old(self).is_core_clr,
            final(self).assembly_ref_cache@ == old(self).assembly_ref_cache@,
            final(self).type_ref_cache@ == old(self).type_ref_cache@,
            r matches Err(e) ==> e is TokenResolutionFailed,
    {
        match self.service.get_token_from_type_spec(signature) {
            Ok(t) => Ok(t),
            Err(_) => Err(
                IlError::TokenResolutionFailed(String::from_str("type spec lookup failed")),
            ),
        }
    }

    /// Get a signature token for a local-variable signature blob.
    pub fn get_token_from_signature(&mut self, signature: &[u8]) -> (r: Result<u32, IlError>)
        ensures
            final(self).is_core_clr == old(self).is_core_clr,
            final(self).assembly_ref_cache@ == old(self).assembly_ref_cache@,
            final(self).type_ref_cache@ == old(self).type_ref_cache@,
            r matches Err(e) ==> e is TokenResolutionFailed,
    {
        match self.service.get_token_from_sig(signature) {
            Ok(t) => Ok(t),
            Err(_) => Err(
                IlError::TokenResolutionFailed(String::from_str("signature token lookup failed")),
            ),
        }
    }

    /// Get a MethodSpec token for a generic method instantiation.
    pub fn get_method_spec_token(&mut self, method_token: u32, instantiation_signature: &[u8])
        -> (r: Result<u32, IlError>)
        ensures
            final(self).is_core_clr == old(self).is_core_clr,
            final(self).assembly_ref_cache@ == old(self).assembly_ref_cache@,
            final(self).type_ref_cache@ == old(self).type_ref_cache@,
            r matches Err(e) ==> e is TokenResolutionFailed,
    {
        match self.service.define_method_spec(method_token, instantiation_signature) {
            Ok(t) => Ok(t),
            Err(_) => Err(
                IlError::TokenResolutionFailed(String::from_str("method spec definition failed")),
            ),
        }
    }

    /// Walk the module's existing assembly references for one whose
    /// recorded name spells `assembly_name`.
    fn find_existing_assembly_ref(&mut self, assembly_name: &str) -> (r: Option<u32>)
        ensures
            final(self).is_core_clr == old(self).is_core_clr,
            final(self).assembly_ref_cache@ == old(self).assembly_ref_cache@,
            final(self).type_ref_cache@ == old(self).type_ref_cache@,
    {
        let refs = self.service.enum_assembly_refs();
        let owned: String = assembly_name.to_owned();
        let mut i: usize = 0;
        while i < refs.len()
            invariant
                0 <= i <= refs@.len(),
                self.is_core_clr == old(self).is_core_clr,
                self.assembly_ref_cache@ == old(self).assembly_ref_cache@,
                self.type_ref_cache@ == old(self).type_ref_cache@,
            decreases refs@.len() - i,
        {
            let token = refs[i];
            if let Some(name_buf) = self.service.get_assembly_ref_name(token) {
                let len = name_buf.len();
                if len <= u32::MAX as usize {
                    let name = wchar_to_string_len(name_buf.as_slice(), len as u32);
                    if name.eq(&owned) {
                        return Some(token);
                    }
                }
            }
            i = i + 1;
        }
        None
    }

    /// Create a new assembly reference and record it in the cache under
    /// the name it was created with.
    fn define_assembly_ref(&mut self, assembly_name: &str) -> (r: Result<u32, IlError>)
        ensures
            final(self).is_core_clr == old(self).is_core_clr,
            old(self).assembly_ref_cache@.is_prefix_of(final(self).assembly_ref_cache@),
            final(self).type_ref_cache@ == old(self).type_ref_cache@,
            r matches Err(e) ==> (e is TokenResolutionFailed && final(self).assembly_ref_cache@
                == old(self).assembly_ref_cache@),
            r matches Ok(t) ==> {
                &&& final(self).assembly_ref_cache@.len() == old(self).assembly_ref_cache@.len()
                    + 1
                &&& final(self).assembly_ref_cache@.last().0@ == assembly_name@
                &&& final(self).assembly_ref_cache@.last().1 == t
                &&& cache_lookup(final(self).assembly_ref_cache@, assembly_name@) is Some
                &&& (cache_lookup(old(self).assembly_ref_cache@, assembly_name@) is None
                    ==> cache_lookup(final(self).assembly_ref_cache@, assembly_name@) == Some(t))
            },
    {
        let wide = to_wide_string(assembly_name);
        let token = match self.service.define_assembly_ref(wide.as_slice()) {
            Ok(t) => t,
            Err(_) => {
                return Err(
                    IlError::TokenResolutionFailed(
                        String::from_str("assembly reference definition failed"),
                    ),
                );
            },
        };
        push_assembly_cache(&mut self.assembly_ref_cache, assembly_name, token);
        proof {
            lemma_cache_lookup_extend(
                old(self).assembly_ref_cache@,
                assembly_name@,
                self.assembly_ref_cache@,
            );
        }
        Ok(token)
    }
}

/// The cached token for `name`, by the first matching entry.
fn lookup_assembly_cache(cache: &Vec<(String, u32)>, name: &str) -> (r: Option<u32>)
    ensures
        r == cache_lookup(cache@, name@),
{
    let owned: String = name.to_owned();
    let mut i: usize = 0;
    assert(cache@.skip(0) =~= cache@);
    while i < cache.len()
        invariant
            0 <= i <= cache@.len(),
            owned@ == name@,
            cache_lookup(cache@, name@) == cache_lookup(cache@.skip(i as int), name@),
        decreases cache@.len() - i,
    {
        proof {
            assert(cache@.skip(i as int)[0] == cache@[i as int]);
            assert(cache@.skip(i as int).skip(1) =~= cache@.skip(i + 1));
        }
        if cache[i].0.eq(&owned) {
            return Some(cache[i].1);
        }
        i = i + 1;
    }
    None
}

/// The cached token for `(scope, name)`, by the first matching entry.
fn lookup_type_cache(cache: &Vec<(u32, String, u32)>, scope: u32, name: &str) -> (r: Option<u32>)
    ensures
        r == type_cache_lookup(cache@, scope, name@),
{
    let owned: String = name.to_owned();
    let mut i: usize = 0;
    assert(cache@.skip(0) =~= cache@);
    while i < cache.len()
        invariant
            0 <= i <= cache@.len(),
            owned@ == name@,
            type_cache_lookup(cache@, scope, name@) == type_cache_lookup(
                cache@.skip(i as int),
                scope,
                name@,
            ),
        decreases cache@.len() - i,
    {
        proof {
            assert(cache@.skip(i as int)[0] == cache@[i as int]);
            assert(cache@.skip(i as int).skip(1) =~= cache@.skip(i + 1));
        }
        if cache[i].0 == scope && cache[i].1.eq(&owned) {
            return Some(cache[i].2);
        }
        i = i + 1;
    }
    None
}

/// Record a resolved assembly name in the cache.
fn push_assembly_cache(cache: &mut Vec<(String, u32)>, name: &str, token: u32)
    ensures
        final(cache)@.len() == old(cache)@.len() + 1,
        old(cache)@.is_prefix_of(final(cache)@),
        final(cache)@.last().0@ == name@,
        final(cache)@.last().1 == token,
{
    let owned: String = name.to_owned();
    assert(owned@ == name@);
    cache.push((owned, token));
    proof {
        assert(old(cache)@.is_prefix_of(final(cache)@));
    }
}

/// A type-cache miss followed by a push resolves the pushed pair to the
/// pushed token.
proof fn lemma_type_cache_extend(
    old_cache: Seq<(u32, String, u32)>,
    new_cache: Seq<(u32, String, u32)>,
    scope: u32,
    name: Seq<char>,
)
    requires
        old_cache.is_prefix_of(new_cache),
        new_cache.len() == old_cache.len() + 1,
        new_cache.last().0 == scope,
        new_cache.last().1@ == name,
        type_cache_lookup(old_cache, scope, name) is None,
    ensures
        type_cache_lookup(new_cache, scope, name) == Some(new_cache.last().2),
    decreases old_cache.len(),
{
    if old_cache.len() == 0 {
        assert(new_cache[0] == new_cache.last());
    } else {
        assert(new_cache[0] == old_cache[0]);
        assert(!(new_cache[0].0 == scope && new_cache[0].1@ == name));
        assert(old_cache.skip(1).is_prefix_of(new_cache.skip(1)));
        assert(new_cache.skip(1).last() == new_cache.last());
        lemma_type_cache_extend(old_cache.skip(1), new_cache.skip(1), scope, name);
    }
}

/// Appending an entry cannot lose a cached name, and resolves a name the
/// cache did not hold to the appended token.
proof fn lemma_cache_lookup_extend(
    old_cache: Seq<(String, u32)>,
    name: Seq<char>,
    new_cache: Seq<(String, u32)>,
)
    requires
        old_cache.is_prefix_of(new_cache),
        new_cache.len() == old_cache.len() + 1,
        new_cache.last().0@ == name,
    ensures
        cache_lookup(new_cache, name) is Some,
        cache_lookup(old_cache, name) is None ==> cache_lookup(new_cache, name) == Some(
            new_cache.last().1,
        ),
    decreases old_cache.len(),
{
    if old_cache.len() == 0 {
        assert(new_cache[0].0@ == name);
    } else {
        if new_cache[0].0@ == name {
            assert(old_cache[0].0@ == name);
        } else {
            assert(old_cache.skip(1).is_prefix_of(new_cache.skip(1)));
            assert(new_cache.skip(1).last() == new_cache.last());
            lemma_cache_lookup_extend(old_cache.skip(1), name, new_cache.skip(1));
        }
    }
}

} // verus!
