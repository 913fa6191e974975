//! The instrumentation template: generates the replacement IL for a method.
//!
//! The emitted method null-initializes two injected locals, tries to obtain
//! a tracer delegate inside its own try/catch, runs the (ret-preprocessed)
//! original body inside a try whose catch stores the exception, finishes
//! the tracer on both the exceptional and the normal path—each finish call
//! again shielded by its own try/catch—and returns the saved result for a
//! non-void method.  The original exception clauses are remapped through
//! the ret-rewrite offset map, shifted to where the original code now
//! sits, and appended after the template's own clauses.

use vstd::prelude::*;

use crate::builder::{is_site, label_sites, ldloc_bytes, outside_label_sites, outside_sites,
    sites_wf, stloc_bytes, InstructionBuilder};
use crate::codec::{encode_uint, table_tag, token_compressed_value, token_table};
use crate::eh::{remap_clause, spec_parse_section, spec_section_bytes, ExceptionClause,
    ExceptionHandlerManipulator};
use crate::header::{align4, build_method_bytes, fat_header_bytes, is_fat_image, is_tiny_image,
    parse_method,
    spec_parse_fat_header, FatHeader, COR_ILMETHOD_FAT_FORMAT,
    COR_ILMETHOD_INIT_LOCALS, COR_ILMETHOD_MORE_SECTS};
use crate::locals::LocalVariableSignature;
use crate::scanner::{preprocess_user_code, spec_new_offset, spec_pieces, spec_ret_count,
    spec_scan, spec_widen};
use crate::signature::MethodSignature;
use crate::tokenizer::{MetadataService, Tokenizer};
use crate::IlError;

verus! {

/// Context for generating instrumented IL: the names, identities and
/// configuration strings handed to the tracer factory.
pub struct InstrumentationContext {
    /// Assembly name of the instrumented method
    pub assembly_name: String,
    /// Fully-qualified type name
    pub type_name_full: String,
    /// Method name
    pub method_name: String,
    /// Runtime function identity (boxed into the parameter array)
    pub function_id: u64,
    /// Metadata token for the type being instrumented
    pub type_token: u32,
    /// Tracer factory name from instrumentation configuration
    pub tracer_factory_name: String,
    /// Tracer factory arguments from instrumentation configuration
    pub tracer_factory_args: u32,
    /// Metric name pattern from instrumentation configuration
    pub metric_name: String,
    /// Argument signature string from instrumentation configuration
    pub argument_signature: String,
    /// Parsed method signature
    pub method_signature: MethodSignature,
}

/// Resolved metadata tokens the injection template embeds.
#[derive(Debug, Clone)]
pub struct InjectionTokens {
    /// TypeRef for the exception type (catch clause type)
    pub exception_type_ref: u32,
    /// TypeRef for the root object type (array element type)
    pub object_type_ref: u32,
    /// TypeRef for the unsigned 32-bit integer type (boxing tracer args)
    pub uint32_type_ref: u32,
    /// TypeRef for the unsigned 64-bit integer type (boxing the identity)
    pub uint64_type_ref: u32,
    /// TypeRef for the reflection type class
    pub type_type_ref: u32,
    /// MemberRef for resolving a type from its runtime handle
    pub get_type_from_handle_ref: u32,
    /// TypeRef for the reflection method-base class
    pub method_base_type_ref: u32,
    /// MemberRef for reflective invocation
    pub method_base_invoke_ref: u32,
    /// TypeRef for the open two-argument action delegate
    pub action2_type_ref: u32,
    /// MemberRef for `Invoke` on the open delegate
    pub action2_invoke_ref: u32,
    /// TypeSpec for the delegate closed over object and exception
    pub action2_type_spec: u32,
    /// MemberRef for `Invoke` on the closed TypeSpec
    pub action2_invoke_on_spec: u32,
    /// String tokens for the parameter array
    pub tracer_factory_name_token: u32,
    pub metric_name_token: u32,
    pub assembly_name_token: u32,
    pub type_name_token: u32,
    pub method_name_token: u32,
    pub argument_signature_token: u32,
}

/// Context from the runtime with the method's original local-variable
/// information.
pub struct ClrMethodContext {
    /// The original method's local-variable signature bytes (empty if the
    /// method has no locals).
    pub original_locals_signature: Vec<u8>,
    /// Number of locals in the original method.
    pub original_local_count: u16,
}

/// The header the template parses out of the original image: the fat
/// header itself, or the fat normalization of a tiny one.
pub open spec fn spec_parsed_header(il: Seq<u8>) -> FatHeader {
    if is_fat_image(il) {
        spec_parse_fat_header(il)
    } else {
        FatHeader {
            flags: 0x13,
            size: 3,
            max_stack: 8,
            code_size: (il[0] / 4) as u32,
            local_var_sig_tok: 0,
        }
    }
}

/// The code bytes the template parses out of the original image.
pub open spec fn spec_parsed_code(il: Seq<u8>) -> Seq<u8> {
    if is_fat_image(il) {
        let h = spec_parse_fat_header(il);
        il.subrange(h.size * 4, h.size * 4 + h.code_size)
    } else {
        il.subrange(1, 1 + il[0] / 4)
    }
}

/// What ret preprocessing turns the original code into: unchanged with no
/// `ret`, the final `ret` replaced by `nop` with exactly one, the full
/// rewrite with several.
pub open spec fn spec_preprocessed(c: Seq<u8>, user: Seq<u8>) -> bool {
    match spec_scan(c, 0) {
        Some(insts) => {
            let rc = spec_ret_count(insts);
            if rc == 0 {
                user == c
            } else if rc == 1 {
                user == c.update(insts.last().offset as int, 0x00u8)
            } else {
                user == spec_pieces(c, insts, spec_widen(c, insts), insts.len() as int)
            }
        },
        None => false,
    }
}

/// The ret-rewrite offset map's remapping of an exception-clause offset,
/// at the spec level: the identity when the code was not rewritten, else
/// the old-to-new instruction offset pairs of the rewrite.
pub open spec fn spec_rewrite_map(c: Seq<u8>) -> Seq<(usize, usize)> {
    match spec_scan(c, 0) {
        Some(insts) => {
            let rc = spec_ret_count(insts);
            if rc >= 2 {
                Seq::new(
                    insts.len(),
                    |i: int|
                        (
                            insts[i].offset,
                            spec_new_offset(insts, spec_widen(c, insts), i) as usize,
                        ),
                )
            } else {
                Seq::new(insts.len(), |i: int| (insts[i].offset, insts[i].offset))
            }
        },
        None => Seq::empty(),
    }
}

/// The template's own exception clauses are well formed against the final
/// code: each handler starts exactly where its try region ends and ends
/// within the code.
pub open spec fn template_clauses_wf(
    cs: Seq<ExceptionClause>,
    code_len: int,
    exception_type_ref: u32,
) -> bool {
    forall|i: int|
        0 <= i < cs.len() ==> {
            let c = #[trigger] cs[i];
            &&& c.flags == 0
            &&& c.class_token == exception_type_ref
            &&& c.handler_offset == c.try_offset + c.try_length
            &&& c.try_length >= 1
            &&& c.handler_length >= 1
            &&& c.handler_offset + c.handler_length <= code_len
        }
}

/// The shape of a successfully instrumented image, for a given original
/// image, parameter count, return-type voidness, exception-type token,
/// local-signature token and original local count: there are code bytes,
/// template clauses, remapped original clauses, a preprocessed body and an
/// offset at which that body sits, assembling exactly to the image, with
/// the finalized header, the injected-local prologue, the terminal `ret`,
/// well-formed template clauses and the original clauses remapped through
/// the ret-rewrite map.
pub open spec fn spec_instrumented_image(
    out: Seq<u8>,
    il: Seq<u8>,
    param_count: u32,
    is_void: bool,
    exc_ref: u32,
    sig_tok: u32,
    n: u16,
) -> bool {
    exists|
        code: Seq<u8>,
        tclauses: Seq<ExceptionClause>,
        origs: Seq<ExceptionClause>,
        user: Seq<u8>,
        u: int,
    |
        #![trigger code.len(), tclauses.len(), origs.len(), user.len(), u + 0]
        {
            let h = spec_parsed_header(il);
            &&& out == fat_header_bytes(
                FatHeader {
                    flags: (h.flags | (COR_ILMETHOD_FAT_FORMAT | COR_ILMETHOD_INIT_LOCALS
                        | COR_ILMETHOD_MORE_SECTS)) as u16,
                    size: h.size,
                    max_stack: (if h.max_stack >= 10 && h.max_stack >= param_count + 1 {
                        h.max_stack as int
                    } else if 10 >= param_count + 1 {
                        10int
                    } else {
                        param_count + 1
                    }) as u16,
                    code_size: code.len() as u32,
                    local_var_sig_tok: sig_tok,
                },
            ) + code + Seq::new(
                (align4(12 + code.len() as int) - (12 + code.len() as int)) as nat,
                |i: int| 0u8,
            ) + spec_section_bytes(tclauses, origs, u as u32)
            &&& code.len() <= 0xFFFF_FFFF
            &&& (seq![0x14u8] + stloc_bytes(n) + seq![0x14u8] + stloc_bytes(
                (n + 1) as u16,
            )).is_prefix_of(code)
            &&& (if is_void {
                seq![0x2Au8]
            } else {
                ldloc_bytes((n + 2) as u16) + seq![0x2Au8]
            }).is_suffix_of(code)
            &&& spec_preprocessed(spec_parsed_code(il), user)
            &&& 0 <= u
            &&& u + user.len() <= code.len()
            &&& code.subrange(u, u + user.len()) == user
            &&& tclauses.len() == 4
            &&& template_clauses_wf(tclauses, code.len() as int, exc_ref)
            &&& (match spec_parse_section_opt(il) {
                Some(parsed) => origs == parsed.map_values(
                    |c: ExceptionClause| remap_clause(spec_rewrite_map(spec_parsed_code(il)), c),
                ),
                None => origs == Seq::<ExceptionClause>::empty(),
            })
        }
}

/// Build an instrumented method using pre-resolved tokens.
///
/// The result image is the fat header, the emitted code, zero padding to a
/// four-byte boundary, and the exception table.  The header carries the
/// original flags with `FatFormat | InitLocals | MoreSects` set, the given
/// local-signature token, the emitted code's exact size, and a max stack
/// of at least 10 and at least one more than the parameter count, never
/// below the original's.  The code starts by null-initializing the two
/// injected locals (indices `original_local_count` and the next), embeds
/// the ret-preprocessed original body contiguously at the offset the
/// exception table is shifted by, and ends with `ret` (preceded by loading
/// the result local for a non-void method).  The exception table holds the
/// template's three clauses first—each handler starting exactly at its
/// try region's end and ending within the code—then the original clauses,
/// remapped through the ret-rewrite offset map and shifted by the offset
/// where the original body now sits.
#[verifier::rlimit(100)]
#[verifier::spinoff_prover]
pub fn build_instrumented_method_with_tokens(
    ctx: &InstrumentationContext,
    tokens: &InjectionTokens,
    original_il: &[u8],
    local_sig_token: u32,
    original_local_count: u16,
) -> (r: Result<Vec<u8>, IlError>)
    requires
        original_local_count <= 0xFFFC,
        ctx.method_signature.param_count <= 0xFFFE,
    ensures
        r matches Ok(out) ==> spec_instrumented_image(
            out@,
            original_il@,
            ctx.method_signature.param_count,
            ctx.method_signature.return_type_is_void,
            tokens.exception_type_ref,
            local_sig_token,
            original_local_count,
        ),
        r matches Err(e) ==> (e is InvalidHeader || e is UnexpectedEnd || e is GenerationError
            || e is InvalidExceptionClause),
        ({
            let il = original_il@;
            let c = spec_parsed_code(il);
            is_tiny_image(il) && 1 + il[0] / 4 <= il.len() && (spec_scan(c, 0) matches Some(insts)
                && (spec_ret_count(insts) == 0 || (spec_ret_count(insts) == 1
                && insts.last().opcode == 0x2A)))
        }) ==> r is Ok,
{
    let parsed = match parse_method(original_il) {
        Ok(p) => p,
        Err(e) => {
            return Err(e);
        },
    };
    let header = parsed.header;

    let tracer_local = original_local_count;
    let exception_local = original_local_count + 1;
    let is_void = ctx.method_signature.return_type_is_void;
    let result_local = original_local_count + 2;

    let preprocessed = match preprocess_user_code(parsed.code.as_slice()) {
        Ok(p) => p,
        Err(e) => {
            return Err(e);
        },
    };
    let user_code = preprocessed.code;
    proof {
        assert(spec_parsed_code(original_il@) =~= parsed.code@);
        let c = parsed.code@;
        match spec_scan(c, 0) {
            Some(insts) => {
                let rc = spec_ret_count(insts);
                if rc == 0 {
                    assert(user_code@ == c);
                } else if rc == 1 {
                    if insts.len() > 0 && insts.last().opcode == 0x2A {
                        crate::scanner::lemma_scan_complete(c, 0, insts);
                        let last = insts[insts.len() - 1];
                        assert(last.total_size >= 1 && crate::scanner::inst_at(
                            c,
                            last.offset as int,
                        ) == Some(last));
                        crate::scanner::lemma_inst_at_bounds(c, last);
                        assert(last.offset < c.len());
                        assert(user_code@ == c.update(insts.last().offset as int, 0x00u8));
                        assert(user_code@.len() == c.len());
                    } else {
                        crate::scanner::lemma_scan_complete(c, 0, insts);
                        assert(insts.len() > 0) by {
                            if insts.len() == 0 {
                                assert(spec_ret_count(insts) == 0);
                            }
                        }
                        assert(false);
                    }
                }
                if rc <= 1 {
                    assert(user_code@.len() == c.len());
                }
            },
            None => {},
        }
    }

    if user_code.len() > 0xFFFF_0000usize {
        return Err(IlError::GenerationError(String::from_str("rewritten method body too large")));
    }

    let b = emit_template_code(
        tokens,
        tracer_local,
        exception_local,
        result_local,
        is_void,
        user_code.as_slice(),
    );
    let ghost code = b.bytes@;
    let ghost u = b.user_code_offset as int;

    // 6 and 7: merge the exception tables and assemble the final image.
    proof {
        let c = parsed.code@;
        match spec_scan(c, 0) {
            Some(insts) => {
                if spec_ret_count(insts) <= 1 {
                    assert forall|k: int|
                        0 <= k < preprocessed.offset_map@.len() implies #[trigger] preprocessed
                        .offset_map@[k].1 <= u32::MAX by {
                        crate::scanner::lemma_scan_complete(c, 0, insts);
                        assert(preprocessed.offset_map@[k] == (insts[k].offset, insts[k].offset));
                        assert(insts[k].total_size >= 1 && crate::scanner::inst_at(
                            c,
                            insts[k].offset as int,
                        ) == Some(insts[k]));
                        crate::scanner::lemma_inst_at_bounds(c, insts[k]);
                    }
                }
            },
            None => {},
        }
    }
    let result = match assemble_image(
        &header,
        &b,
        &parsed.extra_sections,
        &preprocessed.offset_map,
        local_sig_token,
        ctx.method_signature.param_count,
    ) {
        Ok(v) => v,
        Err(e) => {
            return Err(e);
        },
    };

    proof {
        let il = original_il@;
        let h = spec_parsed_header(il);
        assert((COR_ILMETHOD_FAT_FORMAT | COR_ILMETHOD_INIT_LOCALS) == 0x13u16) by (bit_vector);
        assert(header == h);
        assert(spec_parsed_code(il) =~= parsed.code@);

        // the offset map matches its spec-level image
        let m = preprocessed.offset_map@;
        assert(m =~= spec_rewrite_map(parsed.code@));
        assert(spec_rewrite_map(spec_parsed_code(il)) == spec_rewrite_map(parsed.code@));

        // the serialized originals are the parsed section, remapped
        let extra_view = match &parsed.extra_sections {
            Some(x) => Some::<Seq<u8>>(x@),
            None => None,
        };
        let origs = spec_origs(extra_view, m);
        match spec_parse_section_opt(il) {
            Some(sec) => {
                assert(origs =~= sec.map_values(
                    |c: ExceptionClause| remap_clause(spec_rewrite_map(spec_parsed_code(il)), c),
                ));
            },
            None => {
                assert(origs =~= Seq::<ExceptionClause>::empty());
            },
        }

        // preprocessing relation
        assert(spec_preprocessed(spec_parsed_code(il), user_code@));

        let code2 = code;
        let tclauses2 = b.completed_clauses@;
        let origs2 = origs;
        let user2 = user_code@;
        let u2 = u;
        assert(code2.len() == code.len() && tclauses2.len() == 4 && origs2.len() == origs.len()
            && user2.len() == user_code@.len() && u2 + 0 == u);
        assert(code2.subrange(u2, u2 + user2.len()) == user2);
    }

    Ok(result)
}

/// The original clauses as they enter the emitted table: parsed from the
/// extra section and remapped through the ret-rewrite offset map; none
/// when the method had no extra section.
pub open spec fn spec_origs(extra: Option<Seq<u8>>, m: Seq<(usize, usize)>) -> Seq<
    ExceptionClause,
> {
    match extra {
        Some(x) => match spec_parse_section(x) {
            Some(sec) => sec.map_values(|c: ExceptionClause| remap_clause(m, c)),
            None => Seq::empty(),
        },
        None => Seq::empty(),
    }
}

/// Assemble the final method image from the emitted code and the original
/// extra section: the finalized fat header, the code, alignment padding,
/// and the exception table holding the template's clauses then the
/// remapped, shifted originals.
#[verifier::rlimit(100)]
#[verifier::spinoff_prover]
fn assemble_image(
    header: &FatHeader,
    b: &InstructionBuilder,
    extra_sections: &Option<Vec<u8>>,
    offset_map: &Vec<(usize, usize)>,
    local_sig_token: u32,
    param_count: u32,
) -> (r: Result<Vec<u8>, IlError>)
    requires
        b.bytes@.len() <= 0xFFFF_0000 + 450,
        param_count <= 0xFFFE,
    ensures
        r matches Ok(out) ==> {
            let extra_view = match extra_sections {
                Some(x) => Some(x@),
                None => None,
            };
            &&& (extra_sections matches Some(x) ==> spec_parse_section(x@) is Some)
            &&& out@ == fat_header_bytes(
                FatHeader {
                    flags: (header.flags | (COR_ILMETHOD_FAT_FORMAT | COR_ILMETHOD_INIT_LOCALS
                        | COR_ILMETHOD_MORE_SECTS)) as u16,
                    size: header.size,
                    max_stack: (if header.max_stack >= 10 && header.max_stack >= param_count + 1 {
                        header.max_stack as int
                    } else if 10 >= param_count + 1 {
                        10int
                    } else {
                        param_count + 1
                    }) as u16,
                    code_size: b.bytes@.len() as u32,
                    local_var_sig_tok: local_sig_token,
                },
            ) + b.bytes@ + Seq::new(
                (align4(12 + b.bytes@.len() as int) - (12 + b.bytes@.len() as int)) as nat,
                |i: int| 0u8,
            ) + spec_section_bytes(
                b.completed_clauses@,
                spec_origs(extra_view, offset_map@),
                b.user_code_offset,
            )
        },
        r matches Err(e) ==> (e is GenerationError || e is InvalidExceptionClause),
        (extra_sections is None && b.completed_clauses@.len() <= 32 && (forall|k: int|
            0 <= k < offset_map@.len() ==> #[trigger] offset_map@[k].1 <= u32::MAX)) ==> r is Ok,
{
    let mut k: usize = 0;
    while k < offset_map.len()
        invariant
            0 <= k <= offset_map@.len(),
            forall|m: int| 0 <= m < k ==> #[trigger] offset_map@[m].1 <= u32::MAX,
        decreases offset_map@.len() - k,
    {
        if offset_map[k].1 as u64 > 0xFFFF_FFFFu64 {
            return Err(
                IlError::GenerationError(String::from_str("rewritten offset out of range")),
            );
        }
        k = k + 1;
    }

    let mut eh_manip = match extra_sections {
        Some(extra_bytes) => {
            match ExceptionHandlerManipulator::from_extra_section(extra_bytes.as_slice()) {
                Ok(m) => m,
                Err(e) => {
                    return Err(e);
                },
            }
        },
        None => ExceptionHandlerManipulator::new(),
    };
    eh_manip.apply_offset_map(offset_map.as_slice());
    eh_manip.add_clauses(b.get_completed_clauses());

    if b.completed_clauses.len() > 32 || eh_manip.original_clauses.len() > (0xFF_FFFFusize - 4)
        / 24 - 32 {
        return Err(IlError::GenerationError(String::from_str("too many exception clauses")));
    }

    let user_code_offset = b.get_user_code_offset();
    let extra_section_bytes = eh_manip.get_extra_section_bytes(user_code_offset);

    let code_len = b.position();

    let pc1 = param_count + 1;
    let min_stack: u16 = if 10 >= pc1 {
        10
    } else {
        pc1 as u16
    };
    let max_stack: u16 = if header.max_stack >= min_stack {
        header.max_stack
    } else {
        min_stack
    };

    let new_header = FatHeader {
        flags: header.flags | (COR_ILMETHOD_FAT_FORMAT | COR_ILMETHOD_INIT_LOCALS
            | COR_ILMETHOD_MORE_SECTS),
        size: header.size,
        max_stack,
        code_size: code_len as u32,
        local_var_sig_tok: local_sig_token,
    };

    let result = build_method_bytes(
        &new_header,
        b.get_bytes(),
        Some(extra_section_bytes.as_slice()),
    );

    proof {
        let extra_view = match extra_sections {
            Some(x) => Some(x@),
            None => None,
        };
        assert(eh_manip.original_clauses@ =~= spec_origs(extra_view, offset_map@));
        assert(eh_manip.new_clauses@ =~= b.completed_clauses@);
    }

    Ok(result)
}

/// A position inside the prologue or the embedded user code lies outside
/// every placeholder when all placeholders respect those windows.
proof fn lemma_window_outside(
    jumps: Seq<(String, Vec<usize>)>,
    i: int,
    pl: int,
    u: int,
    ue: int,
)
    requires
        forall|s: int| is_site(jumps, s) ==> pl <= s && (s + 4 <= u || s >= ue),
        (0 <= i < pl) || (u <= i < ue),
        pl <= u <= ue,
    ensures
        outside_sites(jumps, i),
{
    assert forall|e: int, k: int|
        #![trigger jumps[e].1@[k]]
        0 <= e < jumps.len() && 0 <= k < jumps[e].1@.len() implies !(jumps[e].1@[k] <= i
        < jumps[e].1@[k] + 4) by {
        let s = jumps[e].1@[k] as int;
        assert(is_site(jumps, s));
    }
}


/// The extra section of the original image, parsed, when the image has one.
pub open spec fn spec_parse_section_opt(il: Seq<u8>) -> Option<Seq<ExceptionClause>> {
    let h = spec_parsed_header(il);
    let code_end = h.size * 4 + h.code_size;
    if is_fat_image(il) && h.flags & COR_ILMETHOD_MORE_SECTS != 0 && align4(code_end as int)
        < il.len() {
        spec_parse_section(il.subrange(align4(code_end as int), il.len() as int))
    } else {
        None
    }
}

/// Emit the template's code: the prologue that null-initializes the
/// injected locals, the shielded tracer acquisition, the user code inside
/// its try/catch (storing the result for a non-void method), the two
/// shielded finish-tracer sections, and the final `ret`.  The builder
/// comes back with exactly four completed clauses, each handler starting
/// at its try region's end and ending within the code; the prologue is a
/// prefix of the bytes, the code ends with `ret`, and the user code sits
/// verbatim at the recorded user-code offset.
#[verifier::rlimit(100)]
#[verifier::spinoff_prover]
fn emit_template_code(
    tokens: &InjectionTokens,
    tracer_local: u16,
    exception_local: u16,
    result_local: u16,
    is_void: bool,
    user_code: &[u8],
) -> (b: InstructionBuilder)
    requires
        user_code@.len() <= 0xFFFF_0000,
    ensures
        b.bytes@.len() <= user_code@.len() + 450,
        b.bytes@.len() <= 0xFFFF_FFFF,
        (seq![0x14u8] + stloc_bytes(tracer_local) + seq![0x14u8] + stloc_bytes(
            exception_local,
        )).is_prefix_of(b.bytes@),
        (if is_void {
            seq![0x2Au8]
        } else {
            ldloc_bytes(result_local) + seq![0x2Au8]
        }).is_suffix_of(b.bytes@),
        b.user_code_offset + user_code@.len() <= b.bytes@.len(),
        b.bytes@.subrange(
            b.user_code_offset as int,
            b.user_code_offset + user_code@.len(),
        ) == user_code@,
        b.completed_clauses@.len() == 4,
        template_clauses_wf(
            b.completed_clauses@,
            b.bytes@.len() as int,
            tokens.exception_type_ref,
        ),
{
    let mut b = InstructionBuilder::new();

    // 1. Null-initialize the injected locals.
    b.append_opcode(0x14);
    b.append_store_local(tracer_local);
    b.append_opcode(0x14);
    b.append_store_local(exception_local);

    let ghost prologue = seq![0x14u8] + stloc_bytes(tracer_local) + seq![0x14u8] + stloc_bytes(
        exception_local,
    );
    let ghost pl = prologue.len() as int;
    proof {
        assert(b.bytes@ =~= prologue);
        assert(pl <= 10);
    }

    // 2. Obtain the tracer inside its own try/catch.
    proof {
        assert(sites_wf(b.jumps@, b.bytes@.len() as int));
    }
    build_safe_call_get_tracer(&mut b, tokens, tracer_local);
    let ghost jumps_g = b.jumps@;
    let ghost len_g = b.bytes@.len() as int;
    proof {
        assert forall|i: int| 0 <= i < pl implies b.bytes@[i] == prologue[i] by {
            assert(outside_sites(b.jumps@, i)) by {
                assert forall|e: int, k: int|
                    #![trigger b.jumps@[e].1@[k]]
                    0 <= e < b.jumps@.len() && 0 <= k < b.jumps@[e].1@.len() implies !(
                b.jumps@[e].1@[k] <= i < b.jumps@[e].1@[k] + 4) by {
                    let s = b.jumps@[e].1@[k] as int;
                    assert(is_site(b.jumps@, s));
                    assert(s >= pl);
                }
            }
        }
        assert(forall|s: int| is_site(b.jumps@, s) ==> pl <= s && s + 4 <= b.bytes@.len());
    }
    let ghost len_t = b.bytes@.len() as int;
    let ghost tclause = b.completed_clauses@.last();

    // 3. The user code, wrapped in try/catch.
    b.append_try_start();
    b.append_user_code(user_code);
    let ghost u = len_t;
    let ghost ue = u + user_code@.len();
    proof {
        assert(b.user_code_offset == u);
        assert(forall|i: int| 0 <= i < pl ==> b.bytes@[i] == prologue[i]);
        assert(forall|j: int| 0 <= j < user_code@.len() ==> b.bytes@[u + j] == user_code@[j]);
        assert(forall|s: int|
            is_site(b.jumps@, s) ==> pl <= s && (s + 4 <= u || s >= ue));
    }

    if !is_void {
        b.append_store_local(result_local);
    }
    proof {
        assert(sites_wf(b.jumps@, b.bytes@.len() as int)) by {
            assert forall|e: int, k: int|
                #![trigger b.jumps@[e].1@[k]]
                0 <= e < b.jumps@.len() && 0 <= k < b.jumps@[e].1@.len() implies b.jumps@[e].1@[k]
                + 4 <= b.bytes@.len() by {
                assert(b.jumps@ == jumps_g);
                assert(jumps_g[e].1@[k] + 4 <= len_g);
            }
        }
    }
    let after_catch_label = b.append_jump_auto(0xDD);
    let ghost jumps_j = b.jumps@;
    let ghost len_j = b.bytes@.len() as int;
    b.append_try_end();
    proof {
        assert(forall|i: int| 0 <= i < pl ==> b.bytes@[i] == prologue[i]);
        assert(forall|j: int| 0 <= j < user_code@.len() ==> b.bytes@[u + j] == user_code@[j]);
        assert forall|s: int| is_site(b.jumps@, s) implies pl <= s && (s + 4 <= u || s >= ue) by {}
    }

    b.append_catch_start(tokens.exception_type_ref);
    b.append_store_local(exception_local);
    proof {
        assert(sites_wf(b.jumps@, b.bytes@.len() as int)) by {
            assert forall|e: int, k: int|
                #![trigger b.jumps@[e].1@[k]]
                0 <= e < b.jumps@.len() && 0 <= k < b.jumps@[e].1@.len() implies b.jumps@[e].1@[k]
                + 4 <= b.bytes@.len() by {
                assert(b.jumps@ == jumps_j);
                assert(jumps_j[e].1@[k] + 4 <= len_j);
            }
        }
    }
    let _finish_call_pos = build_safe_call_finish_tracer(
        &mut b,
        tracer_local,
        exception_local,
        result_local,
        is_void,
        tokens,
        true,
    );
    let ghost jumps_f1 = b.jumps@;
    let ghost len_f1 = b.bytes@.len() as int;
    proof {
        assert forall|i: int| 0 <= i < pl implies b.bytes@[i] == prologue[i] by {
            lemma_window_outside(b.jumps@, i, pl, u, ue);
        }
        assert forall|j: int| 0 <= j < user_code@.len() implies b.bytes@[u + j]
            == user_code@[j] by {
            lemma_window_outside(b.jumps@, u + j, pl, u, ue);
        }
        assert forall|s: int| is_site(b.jumps@, s) implies pl <= s && (s + 4 <= u || s >= ue) by {}
    }
    let ghost f1clause = b.completed_clauses@.last();
    b.append_opcode(0xFE1A);
    b.append_catch_end();
    let ghost len_ce = b.bytes@.len() as int;
    let ghost uclause = b.completed_clauses@.last();

    b.append_label(after_catch_label.as_str());
    proof {
        assert forall|i: int| 0 <= i < pl implies b.bytes@[i] == prologue[i] by {
            lemma_window_outside(b.jumps@, i, pl, u, ue);
        }
        assert forall|j: int| 0 <= j < user_code@.len() implies b.bytes@[u + j]
            == user_code@[j] by {
            lemma_window_outside(b.jumps@, u + j, pl, u, ue);
        }
    }

    // 4. Normal-path finish.
    proof {
        assert(sites_wf(b.jumps@, b.bytes@.len() as int)) by {
            assert forall|e: int, k: int|
                #![trigger b.jumps@[e].1@[k]]
                0 <= e < b.jumps@.len() && 0 <= k < b.jumps@[e].1@.len() implies b.jumps@[e].1@[k]
                + 4 <= b.bytes@.len() by {
                assert(b.jumps@ == jumps_f1);
                assert(jumps_f1[e].1@[k] + 4 <= len_f1);
            }
        }
    }
    let _finish_ret_pos = build_safe_call_finish_tracer(
        &mut b,
        tracer_local,
        exception_local,
        result_local,
        is_void,
        tokens,
        false,
    );
    proof {
        assert forall|i: int| 0 <= i < pl implies b.bytes@[i] == prologue[i] by {
            lemma_window_outside(b.jumps@, i, pl, u, ue);
        }
        assert forall|j: int| 0 <= j < user_code@.len() implies b.bytes@[u + j]
            == user_code@[j] by {
            lemma_window_outside(b.jumps@, u + j, pl, u, ue);
        }
    }
    let ghost f2clause = b.completed_clauses@.last();

    // 5. Return.
    if !is_void {
        b.append_load_local(result_local);
    }
    b.append_opcode(0x2A);

    let ghost code = b.bytes@;
    let ghost tail: Seq<u8> = if is_void {
        seq![0x2Au8]
    } else {
        ldloc_bytes(result_local) + seq![0x2Au8]
    };
    proof {
        assert(code =~= b.bytes@);
        assert(code.subrange(code.len() - tail.len(), code.len() as int) =~= tail);
        assert(tail.is_suffix_of(code));
        assert(code.subrange(0, pl) =~= prologue);
        assert(prologue.is_prefix_of(code));
        assert(code.subrange(u, ue) =~= user_code@);
    }
    proof {
        let tclauses = b.completed_clauses@;
        assert(tclauses.len() == 4);
        assert(tclauses[0] == tclause && tclauses[1] == f1clause && tclauses[2] == uclause
            && tclauses[3] == f2clause);
        assert(template_clauses_wf(
            b.completed_clauses@,
            b.bytes@.len() as int,
            tokens.exception_type_ref,
        )) by {
            assert forall|i: int| 0 <= i < tclauses.len() implies {
                let c = #[trigger] tclauses[i];
                &&& c.flags == 0
                &&& c.class_token == tokens.exception_type_ref
                &&& c.handler_offset == c.try_offset + c.try_length
                &&& c.try_length >= 1
                &&& c.handler_length >= 1
                &&& c.handler_offset + c.handler_length <= code.len()
            } by {
                if i == 0 {
                    assert(tclauses[i] == tclause);
                } else if i == 1 {
                    assert(tclauses[i] == f1clause);
                } else if i == 2 {
                    assert(tclauses[i] == uclause);
                } else {
                    assert(tclauses[i] == f2clause);
                }
            }
        }
        assert(b.user_code_offset == u);
        assert(b.bytes@.subrange(u, ue) =~= user_code@);
    }
    b
}





/// Emit the tracer-acquisition section: a try/catch around code that
/// leaves the tracer local null (acquisition through the agent's bootstrap
/// goes here), with the catch swallowing anything thrown.  Adds exactly
/// one completed clause whose handler starts exactly at its try region's
/// end and ends at the section's end.
fn build_safe_call_get_tracer(
    b: &mut InstructionBuilder,
    tokens: &InjectionTokens,
    tracer_local: u16,
)
    requires
        old(b).bytes@.len() + 100 <= u32::MAX,
        old(b).label_counter + 2 <= u32::MAX,
        sites_wf(old(b).jumps@, old(b).bytes@.len() as int),
    ensures
        sites_wf(final(b).jumps@, final(b).bytes@.len() as int),
        old(b).bytes@.len() + 10 <= final(b).bytes@.len() <= old(b).bytes@.len() + 100,
        final(b).exception_stack@ == old(b).exception_stack@,
        final(b).user_code_offset == old(b).user_code_offset,
        old(b).label_counter <= final(b).label_counter <= old(b).label_counter + 2,
        final(b).completed_clauses@ == old(b).completed_clauses@.push(
            ExceptionClause {
                flags: 0,
                try_offset: old(b).bytes@.len() as u32,
                try_length: (final(b).bytes@.len() - old(b).bytes@.len() - 6) as u32,
                handler_offset: (final(b).bytes@.len() - 6) as u32,
                handler_length: 6,
                class_token: tokens.exception_type_ref,
                filter_offset: 0,
            },
        ),
        forall|s: int|
            is_site(final(b).jumps@, s) ==> (is_site(old(b).jumps@, s) || (old(b).bytes@.len() <= s
                && s + 4 <= final(b).bytes@.len())),
        forall|s: int| is_site(old(b).jumps@, s) ==> is_site(final(b).jumps@, s),
        forall|i: int|
            0 <= i < old(b).bytes@.len() && outside_sites(final(b).jumps@, i)
                ==> final(b).bytes@[i] == old(b).bytes@[i],
{
    let ghost len0 = b.bytes@.len();

    b.append_try_start();
    b.append_opcode(0x14);
    b.append_store_local(tracer_local);
    let try_leave = b.append_jump_auto(0xDD);
    b.append_try_end();

    b.append_catch_start(tokens.exception_type_ref);
    b.append_opcode(0x26);
    let catch_leave = b.append_jump_auto(0xDD);
    b.append_catch_end();

    let ghost bytes_mid = b.bytes@;
    let ghost jumps_done = b.jumps@;
    b.append_label(try_leave.as_str());
    let ghost bytes_l1 = b.bytes@;
    b.append_label(catch_leave.as_str());

    proof {
        assert(final(b).exception_stack@ =~= old(b).exception_stack@);
        assert(b.jumps@ == jumps_done);
        assert forall|i: int|
            0 <= i < old(b).bytes@.len() && outside_sites(b.jumps@, i) implies b.bytes@[i] == old(
            b,
        ).bytes@[i] by {
            assert(bytes_mid[i] == old(b).bytes@[i]);
            assert(bytes_l1[i] == bytes_mid[i]);
            assert(b.bytes@[i] == bytes_l1[i]);
        }
        assert(sites_wf(b.jumps@, b.bytes@.len() as int)) by {
            assert forall|e: int, k: int|
                #![trigger b.jumps@[e].1@[k]]
                0 <= e < b.jumps@.len() && 0 <= k < b.jumps@[e].1@.len() implies b.jumps@[e].1@[k]
                + 4 <= b.bytes@.len() by {
                let s = b.jumps@[e].1@[k] as int;
                assert(is_site(b.jumps@, s));
                if is_site(old(b).jumps@, s) {
                    let (e2, k2) = choose|e2: int, k2: int|
                        #![trigger old(b).jumps@[e2].1@[k2]]
                        0 <= e2 < old(b).jumps@.len() && 0 <= k2 < old(b).jumps@[e2].1@.len()
                            && old(b).jumps@[e2].1@[k2] == s;
                    assert(old(b).jumps@[e2].1@[k2] + 4 <= old(b).bytes@.len());
                }
            }
        }
    }
}

/// Emit one finish-tracer section: inside its own try/catch, skip when the
/// tracer local is null, else cast it to the closed delegate type and
/// invoke it with either `(null, exception)` on the exceptional path or
/// `(result-or-null, null)` on the normal path; the catch swallows
/// anything thrown.  Adds exactly one completed clause whose handler
/// starts exactly at its try region's end and ends at the section's end,
/// and leaves the delegate invocation—`callvirt` on the closed
/// TypeSpec—standing in the emitted bytes, clear of every placeholder.
#[verifier::rlimit(100)]
#[verifier::spinoff_prover]
fn build_safe_call_finish_tracer(
    b: &mut InstructionBuilder,
    tracer_local: u16,
    exception_local: u16,
    result_local: u16,
    is_void: bool,
    tokens: &InjectionTokens,
    is_exception_path: bool,
) -> (q: usize)
    requires
        old(b).bytes@.len() + 100 <= u32::MAX,
        old(b).label_counter + 3 <= u32::MAX,
        sites_wf(old(b).jumps@, old(b).bytes@.len() as int),
    ensures
        old(b).bytes@.len() + 10 <= final(b).bytes@.len() <= old(b).bytes@.len() + 100,
        final(b).exception_stack@ == old(b).exception_stack@,
        final(b).user_code_offset == old(b).user_code_offset,
        old(b).label_counter <= final(b).label_counter <= old(b).label_counter + 3,
        final(b).completed_clauses@ == old(b).completed_clauses@.push(
            ExceptionClause {
                flags: 0,
                try_offset: old(b).bytes@.len() as u32,
                try_length: (final(b).bytes@.len() - old(b).bytes@.len() - 6) as u32,
                handler_offset: (final(b).bytes@.len() - 6) as u32,
                handler_length: 6,
                class_token: tokens.exception_type_ref,
                filter_offset: 0,
            },
        ),
        forall|s: int|
            is_site(final(b).jumps@, s) ==> (is_site(old(b).jumps@, s) || (old(b).bytes@.len() <= s
                && s + 4 <= final(b).bytes@.len())),
        forall|s: int| is_site(old(b).jumps@, s) ==> is_site(final(b).jumps@, s),
        forall|i: int|
            0 <= i < old(b).bytes@.len() && outside_sites(final(b).jumps@, i)
                ==> final(b).bytes@[i] == old(b).bytes@[i],
        sites_wf(final(b).jumps@, final(b).bytes@.len() as int),
        old(b).bytes@.len() <= q,
        q + 5 <= final(b).bytes@.len(),
        final(b).bytes@.subrange(q as int, q + 5) == seq![0x6Fu8] + crate::le::le32(
            tokens.action2_invoke_on_spec,
        ),
        forall|s: int|
            is_site(final(b).jumps@, s) && !is_site(old(b).jumps@, s) ==> (s + 4 <= q || s >= q
                + 5),
{
    let ghost len0 = b.bytes@.len() as int;

    b.append_try_start();

    b.append_load_local(tracer_local);
    let ghost skip_site = b.bytes@.len() + 1;
    let skip_label = b.append_jump_auto(0x39);
    let ghost jumps_after_skip = b.jumps@;

    b.append_load_local(tracer_local);
    b.append_opcode_u32(0x74, tokens.action2_type_spec);

    if is_exception_path {
        b.append_opcode(0x14);
        b.append_load_local(exception_local);
    } else {
        if !is_void {
            b.append_load_local(result_local);
        } else {
            b.append_opcode(0x14);
        }
        b.append_opcode(0x14);
    }

    let q = b.position();
    b.append_opcode_u32(0x6F, tokens.action2_invoke_on_spec);
    let ghost callvirt_bytes = seq![0x6Fu8] + crate::le::le32(tokens.action2_invoke_on_spec);
    proof {
        assert(b.bytes@.subrange(q as int, q + 5) =~= callvirt_bytes);
        assert(skip_site + 4 <= q);
    }

    let ghost bytes_pre_skip = b.bytes@;
    let ghost jumps_mid = b.jumps@;
    proof {
        assert(jumps_mid == jumps_after_skip);
        assert(label_sites(jumps_mid, skip_label@) == label_sites(
            old(b).jumps@,
            skip_label@,
        ).push(skip_site as usize));
        crate::builder::lemma_label_sites_below(old(b).jumps@, skip_label@, len0);
    }
    b.append_label(skip_label.as_str());
    proof {
        let sites = label_sites(jumps_mid, skip_label@);
        let old_part = label_sites(old(b).jumps@, skip_label@);
        assert forall|i: int| q as int <= i < q + 5 implies outside_label_sites(
            jumps_mid,
            skip_label@,
            i,
        ) by {
            assert forall|k: int| 0 <= k < sites.len() implies !((#[trigger] sites[k]) <= i
                < sites[k] + 4) by {
                if k < old_part.len() {
                    assert(sites[k] == old_part[k]);
                    assert(old_part[k] + 4 <= len0);
                } else {
                    assert(sites[k] == skip_site as usize);
                }
            }
        }
        assert(b.bytes@.subrange(q as int, q + 5) =~= callvirt_bytes) by {
            assert forall|i: int| q as int <= i < q + 5 implies b.bytes@[i]
                == bytes_pre_skip[i] by {
                assert(outside_label_sites(jumps_mid, skip_label@, i));
            }
            assert forall|j: int| 0 <= j < 5 implies b.bytes@.subrange(q as int, q + 5)[j]
                == callvirt_bytes[j] by {
                assert(b.bytes@[q + j] == bytes_pre_skip[q + j]);
                assert(bytes_pre_skip.subrange(q as int, q + 5)[j] == bytes_pre_skip[q + j]);
            }
        }
    }

    let ghost leave_site = b.bytes@.len() + 1;
    let leave_label = b.append_jump_auto(0xDD);
    b.append_try_end();

    b.append_catch_start(tokens.exception_type_ref);
    b.append_opcode(0x26);
    let ghost catch_site = b.bytes@.len() + 1;
    let catch_leave = b.append_jump_auto(0xDD);
    b.append_catch_end();

    proof {
        assert(leave_label@.len() != skip_label@.len() && catch_leave@.len() != skip_label@.len()
            && catch_leave@.len() != leave_label@.len());
        assert(q + 5 <= leave_site && leave_site < catch_site);
    }

    let ghost bytes_l1 = b.bytes@;
    let ghost jumps_done = b.jumps@;
    proof {
        assert(label_sites(jumps_done, leave_label@) == label_sites(
            old(b).jumps@,
            leave_label@,
        ).push(leave_site as usize));
        assert(label_sites(jumps_done, catch_leave@) == label_sites(
            old(b).jumps@,
            catch_leave@,
        ).push(catch_site as usize));
        crate::builder::lemma_label_sites_below(old(b).jumps@, leave_label@, len0);
        crate::builder::lemma_label_sites_below(old(b).jumps@, catch_leave@, len0);
        assert forall|i: int| q as int <= i < q + 5 implies outside_label_sites(
            jumps_done,
            leave_label@,
            i,
        ) && outside_label_sites(jumps_done, catch_leave@, i) by {
            let s1 = label_sites(jumps_done, leave_label@);
            let o1 = label_sites(old(b).jumps@, leave_label@);
            assert forall|k: int| 0 <= k < s1.len() implies !((#[trigger] s1[k]) <= i < s1[k]
                + 4) by {
                if k < o1.len() {
                    assert(s1[k] == o1[k]);
                    assert(o1[k] + 4 <= len0);
                } else {
                    assert(s1[k] == leave_site as usize);
                }
            }
            let s2 = label_sites(jumps_done, catch_leave@);
            let o2 = label_sites(old(b).jumps@, catch_leave@);
            assert forall|k: int| 0 <= k < s2.len() implies !((#[trigger] s2[k]) <= i < s2[k]
                + 4) by {
                if k < o2.len() {
                    assert(s2[k] == o2[k]);
                    assert(o2[k] + 4 <= len0);
                } else {
                    assert(s2[k] == catch_site as usize);
                }
            }
        }
        assert(bytes_l1.subrange(q as int, q + 5) =~= callvirt_bytes) by {
            assert forall|j: int| 0 <= j < 5 implies bytes_l1.subrange(q as int, q + 5)[j]
                == callvirt_bytes[j] by {
                assert(bytes_l1[q + j] == b.bytes@[q + j] || true);
                assert(b.bytes@.subrange(q as int, q + 5)[j] == callvirt_bytes[j]);
            }
        }
    }
    b.append_label(leave_label.as_str());
    let ghost bytes_l2 = b.bytes@;
    proof {
        assert forall|j: int| 0 <= j < 5 implies #[trigger] bytes_l2[q + j] == bytes_l1[q
            + j] by {
            assert(outside_label_sites(jumps_done, leave_label@, q + j));
        }
    }
    b.append_label(catch_leave.as_str());

    proof {
        assert(final(b).exception_stack@ =~= old(b).exception_stack@);
        assert(b.jumps@ == jumps_done);
        assert forall|j: int| 0 <= j < 5 implies #[trigger] b.bytes@[q + j] == bytes_l2[q
            + j] by {
            assert(outside_label_sites(jumps_done, catch_leave@, q + j));
        }
        assert(b.bytes@.subrange(q as int, q + 5) =~= callvirt_bytes) by {
            assert forall|j: int| 0 <= j < 5 implies b.bytes@.subrange(q as int, q + 5)[j]
                == callvirt_bytes[j] by {
                assert(b.bytes@[q + j] == bytes_l2[q + j]);
                assert(bytes_l2[q + j] == bytes_l1[q + j]);
                assert(bytes_l1.subrange(q as int, q + 5)[j] == callvirt_bytes[j]);
            }
        }
        assert forall|i: int|
            0 <= i < old(b).bytes@.len() && outside_sites(b.jumps@, i) implies b.bytes@[i] == old(
            b,
        ).bytes@[i] by {
            crate::builder::lemma_outside_mono(jumps_mid, b.jumps@, i);
            assert(bytes_pre_skip[i] == old(b).bytes@[i]);
            assert(bytes_l1[i] == bytes_pre_skip[i]);
            assert(bytes_l2[i] == bytes_l1[i]);
            assert(b.bytes@[i] == bytes_l2[i]);
        }
        // every site of the final state: an old one, or one of the three
        // recorded here, each clear of the callvirt bytes
        assert forall|s: int|
            is_site(b.jumps@, s) && !is_site(old(b).jumps@, s) implies (s + 4 <= q || s >= q
            + 5) by {
            assert(s == skip_site || s == leave_site || s == catch_site);
        }
        assert(sites_wf(b.jumps@, b.bytes@.len() as int)) by {
            assert forall|e: int, k: int|
                #![trigger b.jumps@[e].1@[k]]
                0 <= e < b.jumps@.len() && 0 <= k < b.jumps@[e].1@.len() implies b.jumps@[e].1@[k]
                + 4 <= b.bytes@.len() by {
                let s = b.jumps@[e].1@[k] as int;
                assert(is_site(b.jumps@, s));
                if is_site(old(b).jumps@, s) {
                    let (e2, k2) = choose|e2: int, k2: int|
                        #![trigger old(b).jumps@[e2].1@[k2]]
                        0 <= e2 < old(b).jumps@.len() && 0 <= k2 < old(b).jumps@[e2].1@.len()
                            && old(b).jumps@[e2].1@[k2] == s;
                    assert(old(b).jumps@[e2].1@[k2] + 4 <= len0);
                } else {
                    assert(s == skip_site || s == leave_site || s == catch_site);
                }
            }
        }
        assert(old(b).bytes@.len() <= q && q + 5 <= b.bytes@.len());
    }
    q
}

/// The compressed image of a token, or nothing when its table cannot be
/// compressed (mirroring a failed compression contributing no bytes).
pub open spec fn compressed_or_empty(token: u32) -> Seq<u8> {
    match table_tag(token_table(token)) {
        Some(_) => encode_uint(token_compressed_value(token)),
        None => Seq::empty(),
    }
}

/// Append a compressed token, or nothing when its table cannot be
/// compressed.
fn push_compressed_token(sig: &mut Vec<u8>, token: u32)
    ensures
        final(sig)@ == old(sig)@ + compressed_or_empty(token),
{
    match crate::codec::compress_token(token) {
        Ok(c) => {
            let mut i: usize = 0;
            while i < c.len()
                invariant
                    0 <= i <= c@.len(),
                    sig@ == old(sig)@ + c@.subrange(0, i as int),
                decreases c@.len() - i,
            {
                sig.push(c[i]);
                i = i + 1;
                assert(sig@ =~= old(sig)@ + c@.subrange(0, i as int));
            }
            assert(sig@ =~= old(sig)@ + compressed_or_empty(token));
        },
        Err(_) => {
            assert(sig@ =~= old(sig)@ + compressed_or_empty(token));
        },
    }
}

/// Build the signature blob for resolving a type from its runtime handle:
/// a static method of one value-type parameter returning a class.
pub fn build_get_type_from_handle_sig(type_token: u32, rth_token: u32) -> (r: Vec<u8>)
    ensures
        r@ == seq![0x00u8, 0x01u8, 0x12u8] + compressed_or_empty(type_token) + seq![0x11u8]
            + compressed_or_empty(rth_token),
{
    let mut sig: Vec<u8> = Vec::new();
    sig.push(0x00);
    sig.push(0x01);
    sig.push(0x12);
    assert(sig@ =~= seq![0x00u8, 0x01u8, 0x12u8]);
    push_compressed_token(&mut sig, type_token);
    sig.push(0x11);
    assert(sig@ =~= seq![0x00u8, 0x01u8, 0x12u8] + compressed_or_empty(type_token)
        + seq![0x11u8]);
    push_compressed_token(&mut sig, rth_token);
    sig
}

/// Build the signature blob for reflective invocation: an instance method
/// taking an object and an object array, returning an object.
pub fn build_method_base_invoke_sig(object_token: u32) -> (r: Vec<u8>)
    ensures
        r@ == seq![0x20u8, 0x02u8, 0x12u8] + compressed_or_empty(object_token) + seq![0x12u8]
            + compressed_or_empty(object_token) + seq![0x1Du8, 0x12u8] + compressed_or_empty(
            object_token,
        ),
{
    let mut sig: Vec<u8> = Vec::new();
    sig.push(0x20);
    sig.push(0x02);
    sig.push(0x12);
    assert(sig@ =~= seq![0x20u8, 0x02u8, 0x12u8]);
    push_compressed_token(&mut sig, object_token);
    sig.push(0x12);
    assert(sig@ =~= seq![0x20u8, 0x02u8, 0x12u8] + compressed_or_empty(object_token)
        + seq![0x12u8]);
    push_compressed_token(&mut sig, object_token);
    sig.push(0x1D);
    sig.push(0x12);
    assert(sig@ =~= seq![0x20u8, 0x02u8, 0x12u8] + compressed_or_empty(object_token)
        + seq![0x12u8] + compressed_or_empty(object_token) + seq![0x1Du8, 0x12u8]);
    push_compressed_token(&mut sig, object_token);
    sig
}

/// Build the signature blob for invoking the two-argument action delegate:
/// an instance method over the two generic variables, returning void.
pub fn build_action2_invoke_sig() -> (r: Vec<u8>)
    ensures
        r@ == seq![0x20u8, 0x02u8, 0x01u8, 0x13u8, 0x00u8, 0x13u8, 0x01u8],
{
    let mut sig: Vec<u8> = Vec::new();
    sig.push(0x20);
    sig.push(0x02);
    sig.push(0x01);
    sig.push(0x13);
    sig.push(0x00);
    sig.push(0x13);
    sig.push(0x01);
    assert(sig@ =~= seq![0x20u8, 0x02u8, 0x01u8, 0x13u8, 0x00u8, 0x13u8, 0x01u8]);
    sig
}

/// Build the TypeSpec signature for the action delegate closed over the
/// object and exception types: a generic instantiation of the open
/// delegate with those two class arguments.
pub fn build_action2_typespec_sig(
    action2_type_ref: u32,
    object_type_ref: u32,
    exception_type_ref: u32,
) -> (r: Vec<u8>)
    ensures
        r@ == seq![0x15u8, 0x12u8] + compressed_or_empty(action2_type_ref) + seq![0x02u8, 0x12u8]
            + compressed_or_empty(object_type_ref) + seq![0x12u8] + compressed_or_empty(
            exception_type_ref,
        ),
{
    let mut sig: Vec<u8> = Vec::new();
    sig.push(0x15);
    sig.push(0x12);
    assert(sig@ =~= seq![0x15u8, 0x12u8]);
    push_compressed_token(&mut sig, action2_type_ref);
    sig.push(0x02);
    sig.push(0x12);
    assert(sig@ =~= seq![0x15u8, 0x12u8] + compressed_or_empty(action2_type_ref) + seq![
        0x02u8,
        0x12u8,
    ]);
    push_compressed_token(&mut sig, object_type_ref);
    sig.push(0x12);
    assert(sig@ =~= seq![0x15u8, 0x12u8] + compressed_or_empty(action2_type_ref) + seq![
        0x02u8,
        0x12u8,
    ] + compressed_or_empty(object_type_ref) + seq![0x12u8]);
    push_compressed_token(&mut sig, exception_type_ref);
    sig
}

/// Resolve every metadata token the injection template embeds.  Whatever
/// the service answers, the runtime flavor is preserved and the caches
/// only grow; every blob handed to the service comes from the verified
/// signature builders.
fn resolve_injection_tokens<S: MetadataService>(
    ctx: &InstrumentationContext,
    tokenizer: &mut Tokenizer<S>,
) -> (r: Result<InjectionTokens, IlError>)
    ensures
        final(tokenizer).is_core_clr == old(tokenizer).is_core_clr,
        old(tokenizer).assembly_ref_cache@.is_prefix_of(final(tokenizer).assembly_ref_cache@),
        old(tokenizer).type_ref_cache@.is_prefix_of(final(tokenizer).type_ref_cache@),
        r matches Err(e) ==> e is TokenResolutionFailed,
{
    let exception_type_ref = match tokenizer.get_type_ref_token("mscorlib", "System.Exception") {
        Ok(t) => t,
        Err(e) => {
            return Err(e);
        },
    };
    let object_type_ref = match tokenizer.get_type_ref_token("mscorlib", "System.Object") {
        Ok(t) => t,
        Err(e) => {
            return Err(e);
        },
    };
    let uint32_type_ref = match tokenizer.get_type_ref_token("mscorlib", "System.UInt32") {
        Ok(t) => t,
        Err(e) => {
            return Err(e);
        },
    };
    let uint64_type_ref = match tokenizer.get_type_ref_token("mscorlib", "System.UInt64") {
        Ok(t) => t,
        Err(e) => {
            return Err(e);
        },
    };
    let type_type_ref = match tokenizer.get_type_ref_token("mscorlib", "System.Type") {
        Ok(t) => t,
        Err(e) => {
            return Err(e);
        },
    };
    let method_base_type_ref = match tokenizer.get_type_ref_token(
        "mscorlib",
        "System.Reflection.MethodBase",
    ) {
        Ok(t) => t,
        Err(e) => {
            return Err(e);
        },
    };
    let action2_type_ref = match tokenizer.get_type_ref_token("mscorlib", "System.Action`2") {
        Ok(t) => t,
        Err(e) => {
            return Err(e);
        },
    };
    let runtime_type_handle_ref = match tokenizer.get_type_ref_token(
        "mscorlib",
        "System.RuntimeTypeHandle",
    ) {
        Ok(t) => t,
        Err(e) => {
            return Err(e);
        },
    };

    let get_type_sig = build_get_type_from_handle_sig(type_type_ref, runtime_type_handle_ref);
    let get_type_from_handle_ref = match tokenizer.get_member_ref_token(
        type_type_ref,
        "GetTypeFromHandle",
        get_type_sig.as_slice(),
    ) {
        Ok(t) => t,
        Err(e) => {
            return Err(e);
        },
    };

    let invoke_sig = build_method_base_invoke_sig(object_type_ref);
    let method_base_invoke_ref = match tokenizer.get_member_ref_token(
        method_base_type_ref,
        "Invoke",
        invoke_sig.as_slice(),
    ) {
        Ok(t) => t,
        Err(e) => {
            return Err(e);
        },
    };

    let action_invoke_sig = build_action2_invoke_sig();
    let action2_invoke_ref = match tokenizer.get_member_ref_token(
        action2_type_ref,
        "Invoke",
        action_invoke_sig.as_slice(),
    ) {
        Ok(t) => t,
        Err(e) => {
            return Err(e);
        },
    };

    let action2_typespec_sig = build_action2_typespec_sig(
        action2_type_ref,
        object_type_ref,
        exception_type_ref,
    );
    let action2_type_spec = match tokenizer.get_type_spec_token(action2_typespec_sig.as_slice()) {
        Ok(t) => t,
        Err(e) => {
            return Err(e);
        },
    };

    let action2_invoke_on_spec = match tokenizer.get_member_ref_token(
        action2_type_spec,
        "Invoke",
        action_invoke_sig.as_slice(),
    ) {
        Ok(t) => t,
        Err(e) => {
            return Err(e);
        },
    };

    let tracer_factory_name_token = match tokenizer.get_string_token(
        ctx.tracer_factory_name.as_str(),
    ) {
        Ok(t) => t,
        Err(e) => {
            return Err(e);
        },
    };
    let metric_name_token = match tokenizer.get_string_token(ctx.metric_name.as_str()) {
        Ok(t) => t,
        Err(e) => {
            return Err(e);
        },
    };
    let assembly_name_token = match tokenizer.get_string_token(ctx.assembly_name.as_str()) {
        Ok(t) => t,
        Err(e) => {
            return Err(e);
        },
    };
    let type_name_token = match tokenizer.get_string_token(ctx.type_name_full.as_str()) {
        Ok(t) => t,
        Err(e) => {
            return Err(e);
        },
    };
    let method_name_token = match tokenizer.get_string_token(ctx.method_name.as_str()) {
        Ok(t) => t,
        Err(e) => {
            return Err(e);
        },
    };
    let argument_signature_token = match tokenizer.get_string_token(
        ctx.argument_signature.as_str(),
    ) {
        Ok(t) => t,
        Err(e) => {
            return Err(e);
        },
    };

    Ok(
        InjectionTokens {
            exception_type_ref,
            object_type_ref,
            uint32_type_ref,
            uint64_type_ref,
            type_type_ref,
            get_type_from_handle_ref,
            method_base_type_ref,
            method_base_invoke_ref,
            action2_type_ref,
            action2_invoke_ref,
            action2_type_spec,
            action2_invoke_on_spec,
            tracer_factory_name_token,
            metric_name_token,
            assembly_name_token,
            type_name_token,
            method_name_token,
            argument_signature_token,
        },
    )
}

/// Build an instrumented method from the original IL: resolve the tokens
/// the template embeds, extend the method's local-variable signature with
/// the tracer, exception and (for a non-void method) result locals,
/// register the extended signature, and emit the instrumented image.
/// Whatever the metadata service answers, a success is an image of the
/// shape [`spec_instrumented_image`] for some exception-type and
/// local-signature tokens.
pub fn build_instrumented_method<S: MetadataService>(
    ctx: &InstrumentationContext,
    clr_ctx: &ClrMethodContext,
    tokenizer: &mut Tokenizer<S>,
    original_il: &[u8],
) -> (r: Result<Vec<u8>, IlError>)
    requires
        clr_ctx.original_local_count <= 0xFFFC,
        ctx.method_signature.param_count <= 0xFFFE,
    ensures
        final(tokenizer).is_core_clr == old(tokenizer).is_core_clr,
        old(tokenizer).assembly_ref_cache@.is_prefix_of(final(tokenizer).assembly_ref_cache@),
        old(tokenizer).type_ref_cache@.is_prefix_of(final(tokenizer).type_ref_cache@),
        r matches Ok(out) ==> exists|exc_ref: u32, sig_tok: u32|
            spec_instrumented_image(
                out@,
                original_il@,
                ctx.method_signature.param_count,
                ctx.method_signature.return_type_is_void,
                exc_ref,
                sig_tok,
                clr_ctx.original_local_count,
            ),
{
    let object_type_ref = match tokenizer.get_type_ref_token("mscorlib", "System.Object") {
        Ok(t) => t,
        Err(e) => {
            return Err(e);
        },
    };
    let exception_type_ref = match tokenizer.get_type_ref_token("mscorlib", "System.Exception") {
        Ok(t) => t,
        Err(e) => {
            return Err(e);
        },
    };

    let tokens = match resolve_injection_tokens(ctx, tokenizer) {
        Ok(t) => t,
        Err(e) => {
            return Err(e);
        },
    };

    let mut locals = if clr_ctx.original_locals_signature.len() > 0 {
        match LocalVariableSignature::from_existing(clr_ctx.original_locals_signature.clone()) {
            Ok(l) => l,
            Err(e) => {
                return Err(e);
            },
        }
    } else {
        LocalVariableSignature::new()
    };

    if let Err(e) = locals.append_class_type(object_type_ref) {
        return Err(e);
    }
    if let Err(e) = locals.append_class_type(exception_type_ref) {
        return Err(e);
    }
    if !ctx.method_signature.return_type_is_void {
        if let Err(e) = locals.append_class_type(object_type_ref) {
            return Err(e);
        }
    }

    let local_sig_token = match tokenizer.get_token_from_signature(locals.get_bytes()) {
        Ok(t) => t,
        Err(e) => {
            return Err(e);
        },
    };

    let result = match build_instrumented_method_with_tokens(
        ctx,
        &tokens,
        original_il,
        local_sig_token,
        clr_ctx.original_local_count,
    ) {
        Ok(v) => v,
        Err(e) => {
            return Err(e);
        },
    };

    proof {
        assert(spec_instrumented_image(
            result@,
            original_il@,
            ctx.method_signature.param_count,
            ctx.method_signature.return_type_is_void,
            tokens.exception_type_ref,
            local_sig_token,
            clr_ctx.original_local_count,
        ));
    }
    Ok(result)
}

/// Emit the store of an interned string into the current array slot:
/// duplicate the array reference, load the index, load the string, store
/// the element.
pub fn store_array_element_string(
    builder: &mut InstructionBuilder,
    index: i32,
    string_token: u32,
)
    ensures
        final(builder).bytes@ == old(builder).bytes@ + seq![0x25u8]
            + crate::builder::ldc_i4_bytes(index) + seq![0x72u8] + crate::le::le32(string_token)
            + seq![0xA2u8],
        final(builder).same_tracking(old(builder)),
{
    builder.append_opcode(0x25);
    builder.append_ldc_i4(index);
    builder.append_opcode_u32(0x72, string_token);
    builder.append_opcode(0xA2);
    assert(final(builder).bytes@ =~= old(builder).bytes@ + seq![0x25u8]
        + crate::builder::ldc_i4_bytes(index) + seq![0x72u8] + crate::le::le32(string_token)
        + seq![0xA2u8]);
}

} // verus!
