//! Instrumentation matching: which methods get instrumented.
//!
//! Methods are checked against three name sets—assembly first, the cheapest
//! filter—then against the exact instrumentation points.  A fixed group of
//! runtime-helper names needed by the agent's bootstrap mechanism is always
//! present alongside the configured points.

use vstd::prelude::*;

verus! {

/// An instrumentation point defining a specific method to instrument.
#[derive(Debug, Clone, PartialEq, Eq, Hash)]
pub struct InstrumentationPoint {
    pub assembly_name: String,
    pub class_name: String,
    pub method_name: String,
}

/// True when some entry of `v` spells `s`.
pub open spec fn set_has(v: Seq<String>, s: Seq<char>) -> bool {
    exists|i: int| 0 <= i < v.len() && v[i]@ == s
}

/// The method names of the agent's bootstrap helpers, always instrumented.
pub open spec fn builtin_method_names() -> Seq<Seq<char>> {
    seq![
        "GetAppDomainBoolean"@,
        "GetThreadLocalBoolean"@,
        "SetThreadLocalBoolean"@,
        "GetMethodFromAppDomainStorageOrReflectionOrThrow"@,
        "GetMethodFromAppDomainStorage"@,
        "GetMethodViaReflectionOrThrow"@,
        "GetTypeViaReflectionOrThrow"@,
        "LoadAssemblyOrThrow"@,
        "StoreMethodInAppDomainStorageOrThrow"@,
    ]
}

/// What the matcher's sets hold for a given point list: the assembly set is
/// `mscorlib` plus each point's assembly, the type set is the app-domain
/// helper type plus each point's class, the method set is the bootstrap
/// helpers plus each point's method.
pub open spec fn matcher_wf(m: InstrumentationMatcher, points: Seq<InstrumentationPoint>) -> bool {
    &&& m.points@ == points
    &&& m.assemblies@.len() == 1 + points.len()
    &&& m.assemblies@[0]@ == "mscorlib"@
    &&& forall|i: int|
        0 <= i < points.len() ==> m.assemblies@[i + 1]@ == #[trigger] points[i].assembly_name@
    &&& m.types@.len() == 1 + points.len()
    &&& m.types@[0]@ == "System.CannotUnloadAppDomainException"@
    &&& forall|i: int| 0 <= i < points.len() ==> m.types@[i + 1]@ == #[trigger] points[i].class_name@
    &&& m.methods@.len() == 9 + points.len()
    &&& forall|i: int| 0 <= i < 9 ==> m.methods@[i]@ == #[trigger] builtin_method_names()[i]
    &&& forall|i: int|
        0 <= i < points.len() ==> m.methods@[i + 9]@ == #[trigger] points[i].method_name@
}

/// Determines which methods should be instrumented based on assembly, type
/// and method name matching.
pub struct InstrumentationMatcher {
    pub assemblies: Vec<String>,
    pub types: Vec<String>,
    pub methods: Vec<String>,
    pub points: Vec<InstrumentationPoint>,
}

/// True when some entry of `v` equals `name`.
fn vec_has_str(v: &Vec<String>, name: &str) -> (r: bool)
    ensures
        r == set_has(v@, name@),
{
    let owned: String = name.to_owned();
    let mut i: usize = 0;
    while i < v.len()
        invariant
            0 <= i <= v@.len(),
            owned@ == name@,
            forall|k: int| 0 <= k < i ==> v@[k]@ != name@,
        decreases v@.len() - i,
    {
        if v[i].eq(&owned) {
            return true;
        }
        i = i + 1;
    }
    false
}

impl InstrumentationMatcher {
    /// Create a new matcher with the given instrumentation points; the
    /// hardcoded bootstrap names join the configured ones in each set.
    pub fn new(points: Vec<InstrumentationPoint>) -> (r: Self)
        ensures
            matcher_wf(r, points@),
    {
        let mut assemblies: Vec<String> = Vec::new();
        let mut types: Vec<String> = Vec::new();
        let mut methods: Vec<String> = Vec::new();

        assemblies.push(String::from_str("mscorlib"));
        types.push(String::from_str("System.CannotUnloadAppDomainException"));
        methods.push(String::from_str("GetAppDomainBoolean"));
        methods.push(String::from_str("GetThreadLocalBoolean"));
        methods.push(String::from_str("SetThreadLocalBoolean"));
        methods.push(String::from_str("GetMethodFromAppDomainStorageOrReflectionOrThrow"));
        methods.push(String::from_str("GetMethodFromAppDomainStorage"));
        methods.push(String::from_str("GetMethodViaReflectionOrThrow"));
        methods.push(String::from_str("GetTypeViaReflectionOrThrow"));
        methods.push(String::from_str("LoadAssemblyOrThrow"));
        methods.push(String::from_str("StoreMethodInAppDomainStorageOrThrow"));

        let mut i: usize = 0;
        while i < points.len()
            invariant
                0 <= i <= points@.len(),
                assemblies@.len() == 1 + i,
                assemblies@[0]@ == "mscorlib"@,
                forall|k: int|
                    0 <= k < i ==> assemblies@[k + 1]@ == #[trigger] points@[k].assembly_name@,
                types@.len() == 1 + i,
                types@[0]@ == "System.CannotUnloadAppDomainException"@,
                forall|k: int| 0 <= k < i ==> types@[k + 1]@ == #[trigger] points@[k].class_name@,
                methods@.len() == 9 + i,
                forall|k: int| 0 <= k < 9 ==> methods@[k]@ == #[trigger] builtin_method_names()[k],
                forall|k: int|
                    0 <= k < i ==> methods@[k + 9]@ == #[trigger] points@[k].method_name@,
            decreases points@.len() - i,
        {
            assemblies.push(points[i].assembly_name.clone());
            types.push(points[i].class_name.clone());
            methods.push(points[i].method_name.clone());
            i = i + 1;
        }

        Self { assemblies, types, methods, points }
    }

    /// Create a matcher for the bundled test targets in the sample program.
    pub fn with_test_targets() -> (r: Self)
        ensures
            matcher_wf(r, r.points@),
            r.points@.len() == 3,
            r.points@[0].assembly_name@ == "ProfilerTestApp"@,
            r.points@[0].class_name@ == "ProfilerTestApp.Program"@,
            r.points@[0].method_name@ == "DoSomeWork"@,
            r.points@[1].method_name@ == "DoAsyncWork"@,
            r.points@[2].method_name@ == "TryCatchWork"@,
    {
        let mut points: Vec<InstrumentationPoint> = Vec::new();
        points.push(
            InstrumentationPoint {
                assembly_name: String::from_str("ProfilerTestApp"),
                class_name: String::from_str("ProfilerTestApp.Program"),
                method_name: String::from_str("DoSomeWork"),
            },
        );
        points.push(
            InstrumentationPoint {
                assembly_name: String::from_str("ProfilerTestApp"),
                class_name: String::from_str("ProfilerTestApp.Program"),
                method_name: String::from_str("DoAsyncWork"),
            },
        );
        points.push(
            InstrumentationPoint {
                assembly_name: String::from_str("ProfilerTestApp"),
                class_name: String::from_str("ProfilerTestApp.Program"),
                method_name: String::from_str("TryCatchWork"),
            },
        );
        Self::new(points)
    }

    /// Check if an assembly should be considered for instrumentation: the
    /// first and cheapest filter.
    pub fn should_instrument_assembly(&self, assembly_name: &str) -> (r: bool)
        ensures
            r == set_has(self.assemblies@, assembly_name@),
    {
        vec_has_str(&self.assemblies, assembly_name)
    }

    /// Check if a method name is in the instrumentation set.
    pub fn should_instrument_method(&self, method_name: &str) -> (r: bool)
        ensures
            r == set_has(self.methods@, method_name@),
    {
        vec_has_str(&self.methods, method_name)
    }

    /// Check if a type name is in the instrumentation set.
    pub fn should_instrument_type(&self, typename: &str) -> (r: bool)
        ensures
            r == set_has(self.types@, typename@),
    {
        vec_has_str(&self.types, typename)
    }

    /// Full three-tier check: the assembly passes the cheap filter and some
    /// instrumentation point matches all three names exactly.
    pub fn matches(&self, assembly_name: &str, typename: &str, method_name: &str) -> (r: bool)
        ensures
            r == (set_has(self.assemblies@, assembly_name@) && exists|k: int|
                0 <= k < self.points@.len() && (#[trigger] self.points@[k]).assembly_name@
                    == assembly_name@ && self.points@[k].class_name@ == typename@
                    && self.points@[k].method_name@ == method_name@),
    {
        if !self.should_instrument_assembly(assembly_name) {
            return false;
        }

        let owned_assembly: String = assembly_name.to_owned();
        let ty: String = typename.to_owned();
        let mth: String = method_name.to_owned();

        let mut k: usize = 0;
        while k < self.points.len()
            invariant
                0 <= k <= self.points@.len(),
                set_has(self.assemblies@, assembly_name@),
                owned_assembly@ == assembly_name@,
                ty@ == typename@,
                mth@ == method_name@,
                forall|j: int|
                    0 <= j < k ==> !((#[trigger] self.points@[j]).assembly_name@ == assembly_name@
                        && self.points@[j].class_name@ == typename@
                        && self.points@[j].method_name@ == method_name@),
            decreases self.points@.len() - k,
        {
            let p = &self.points[k];
            if p.assembly_name.eq(&owned_assembly) && p.class_name.eq(&ty) && p.method_name.eq(
                &mth,
            ) {
                proof {
                    let kk = k as int;
                    assert(set_has(self.assemblies@, assembly_name@));
                    assert(exists|j: int|
                        0 <= j < self.points@.len() && (#[trigger] self.points@[j]).assembly_name@
                            == assembly_name@ && self.points@[j].class_name@ == typename@
                            && self.points@[j].method_name@ == method_name@) by {
                        assert(0 <= kk < self.points@.len() && self.points@[kk].assembly_name@
                            == assembly_name@ && self.points@[kk].class_name@ == typename@
                            && self.points@[kk].method_name@ == method_name@);
                    }
                }
                return true;
            }
            k = k + 1;
        }
        false
    }

    /// The instrumentation points.
    pub fn points(&self) -> (r: &[InstrumentationPoint])
        ensures
            r@ == self.points@,
    {
        self.points.as_slice()
    }
}

} // verus!
