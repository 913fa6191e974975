//! IL instruction builder: bytecode emission with symbolic jump labels and
//! exception-clause tracking.
//!
//! Bytes are appended through typed operations; a jump emits a four-byte
//! placeholder and records its position under a label, and placing the
//! label patches every recorded position with the distance from just past
//! the placeholder to the label.  Try/catch boundaries are tracked on a
//! stack so nested clauses complete innermost-first.

use vstd::prelude::*;

use crate::eh::ExceptionClause;
use crate::le::{le16, le32, le64, push_le16, push_le32, push_le64};
use crate::opcodes::{opcode_bytes, spec_ldc_i4_opcode_for, IlOpcode};

verus! {

/// The bytes of the shortest `ldarg` encoding for an argument index.
pub open spec fn ldarg_bytes(index: u16) -> Seq<u8> {
    if index < 4 {
        seq![(0x02 + index) as u8]
    } else if index < 256 {
        seq![0x0Eu8, index as u8]
    } else {
        seq![0xFEu8, 0x09u8] + le16(index)
    }
}

/// The bytes of the shortest `ldloc` encoding for a local index.
pub open spec fn ldloc_bytes(index: u16) -> Seq<u8> {
    if index < 4 {
        seq![(0x06 + index) as u8]
    } else if index < 256 {
        seq![0x11u8, index as u8]
    } else {
        seq![0xFEu8, 0x0Cu8] + le16(index)
    }
}

/// The bytes of the shortest `stloc` encoding for a local index.
pub open spec fn stloc_bytes(index: u16) -> Seq<u8> {
    if index < 4 {
        seq![(0x0A + index) as u8]
    } else if index < 256 {
        seq![0x13u8, index as u8]
    } else {
        seq![0xFEu8, 0x0Eu8] + le16(index)
    }
}

/// The bytes of the shortest `ldc.i4` encoding for a value.
pub open spec fn ldc_i4_bytes(value: i32) -> Seq<u8> {
    let (op, operand) = spec_ldc_i4_opcode_for(value);
    match operand {
        None => seq![op as u8],
        Some(v) => if op == 0x1F {
            seq![0x1Fu8, (if v >= 0 {
                v as int
            } else {
                v + 0x100
            }) as u8]
        } else {
            seq![0x20u8] + le32((if v >= 0 {
                v as int
            } else {
                v + 0x1_0000_0000
            }) as u32)
        },
    }
}

/// Builds IL bytecode with jump labels and exception-clause tracking.
pub struct InstructionBuilder {
    /// Raw IL bytes being built.
    pub bytes: Vec<u8>,
    /// Forward references: label, then every placeholder position whose
    /// 4-byte slot is patched when the label is placed.
    pub jumps: Vec<(String, Vec<usize>)>,
    /// Stack of exception clauses being constructed (nested try/catch).
    pub exception_stack: Vec<ExceptionClause>,
    /// Completed exception clauses, innermost first.
    pub completed_clauses: Vec<ExceptionClause>,
    /// Byte offset where the user (original) code begins.
    pub user_code_offset: u32,
    /// Counter for generated label names.
    pub label_counter: u32,
}

/// Every recorded placeholder's four bytes lie within the first `len`
/// bytes.
pub open spec fn sites_wf(jumps: Seq<(String, Vec<usize>)>, len: int) -> bool {
    forall|e: int, k: int|
        #![trigger jumps[e].1@[k]]
        0 <= e < jumps.len() && 0 <= k < jumps[e].1@.len() ==> jumps[e].1@[k] + 4 <= len
}

/// Position `i` lies outside every recorded placeholder's four bytes.
pub open spec fn outside_sites(jumps: Seq<(String, Vec<usize>)>, i: int) -> bool {
    forall|e: int, k: int|
        #![trigger jumps[e].1@[k]]
        0 <= e < jumps.len() && 0 <= k < jumps[e].1@.len() ==> !(jumps[e].1@[k] <= i < jumps[e].1@[k]
            + 4)
}

/// Position `s` is one of the recorded placeholders.
pub open spec fn is_site(jumps: Seq<(String, Vec<usize>)>, s: int) -> bool {
    exists|e: int, k: int|
        #![trigger jumps[e].1@[k]]
        0 <= e < jumps.len() && 0 <= k < jumps[e].1@.len() && jumps[e].1@[k] == s
}

/// A position outside every placeholder of a larger site set is outside
/// every placeholder of a smaller one.
pub proof fn lemma_outside_mono(a: Seq<(String, Vec<usize>)>, b: Seq<(String, Vec<usize>)>, i: int)
    requires
        forall|s: int| is_site(a, s) ==> is_site(b, s),
        outside_sites(b, i),
    ensures
        outside_sites(a, i),
{
    assert forall|e: int, k: int|
        #![trigger a[e].1@[k]]
        0 <= e < a.len() && 0 <= k < a[e].1@.len() implies !(a[e].1@[k] <= i < a[e].1@[k] + 4) by {
        let s = a[e].1@[k] as int;
        assert(is_site(a, s));
        assert(is_site(b, s));
        let (e2, k2) = choose|e2: int, k2: int|
            #![trigger b[e2].1@[k2]]
            0 <= e2 < b.len() && 0 <= k2 < b[e2].1@.len() && b[e2].1@[k2] == s;
        assert(!(b[e2].1@[k2] <= i < b[e2].1@[k2] + 4));
    }
}

/// The placeholder positions recorded under a label: those of the first
/// entry spelling the label, or none.
pub open spec fn label_sites(jumps: Seq<(String, Vec<usize>)>, l: Seq<char>) -> Seq<usize>
    decreases jumps.len(),
{
    if jumps.len() == 0 {
        Seq::empty()
    } else if jumps[0].0@ == l {
        jumps[0].1@
    } else {
        label_sites(jumps.skip(1), l)
    }
}

/// Position `i` lies outside the four patched bytes of every placeholder
/// recorded under the label.
pub open spec fn outside_label_sites(jumps: Seq<(String, Vec<usize>)>, l: Seq<char>, i: int) -> bool {
    forall|k: int|
        0 <= k < label_sites(jumps, l).len() ==> !((#[trigger] label_sites(jumps, l)[k]) <= i
            < label_sites(jumps, l)[k] + 4)
}

/// The four bytes written over a placeholder at `p` when its label is
/// placed with the buffer `cur` bytes long: the distance from just past
/// the four-byte operand to the label, as a little-endian 32-bit word.
pub open spec fn patch_value(cur: int, p: int) -> Seq<u8>
    recommends
        p + 4 <= cur,
{
    le32((((cur - (p + 4)) % 0x1_0000_0000) as u32))
}

/// No placeholder with index in `(t, hi)` overlaps the four bytes of the
/// one at index `t`.
pub open spec fn no_overlap_range(sites: Seq<usize>, t: int, hi: int) -> bool {
    forall|m: int| t < m < hi ==> ((#[trigger] sites[m]) + 4 <= sites[t] || sites[m] >= sites[t] + 4)
}

/// No placeholder recorded later in the list overlaps the four bytes of
/// the one at index `t`; only then does the patch at `t` survive the whole
/// placement pass.
pub open spec fn no_later_overlap(sites: Seq<usize>, t: int) -> bool {
    no_overlap_range(sites, t, sites.len() as int)
}

/// Position `i` lies outside the four patched bytes of the first `k`
/// placeholders of a site list.
pub open spec fn outside_sites_upto(sites: Seq<usize>, k: int, i: int) -> bool {
    forall|t: int| 0 <= t < k ==> !((#[trigger] sites[t]) <= i < sites[t] + 4)
}

/// [`label_sites`] of the first entry spelling the label.
proof fn lemma_label_sites_found(jumps: Seq<(String, Vec<usize>)>, e: int, l: Seq<char>)
    requires
        0 <= e < jumps.len(),
        jumps[e].0@ == l,
        forall|k: int| 0 <= k < e ==> (#[trigger] jumps[k]).0@ != l,
    ensures
        label_sites(jumps, l) == jumps[e].1@,
    decreases e,
{
    if e > 0 {
        assert(jumps[0].0@ != l);
        assert(forall|k: int| 0 <= k < e - 1 ==> (#[trigger] jumps.skip(1)[k]) == jumps[k + 1]);
        lemma_label_sites_found(jumps.skip(1), e - 1, l);
        assert(jumps.skip(1)[e - 1] == jumps[e]);
    }
}

/// [`label_sites`] is empty when no entry spells the label.
proof fn lemma_label_sites_none(jumps: Seq<(String, Vec<usize>)>, l: Seq<char>)
    requires
        forall|k: int| 0 <= k < jumps.len() ==> (#[trigger] jumps[k]).0@ != l,
    ensures
        label_sites(jumps, l) == Seq::<usize>::empty(),
    decreases jumps.len(),
{
    if jumps.len() > 0 {
        assert(forall|k: int|
            0 <= k < jumps.len() - 1 ==> (#[trigger] jumps.skip(1)[k]) == jumps[k + 1]);
        lemma_label_sites_none(jumps.skip(1), l);
    }
}

/// Updating the first entry of a label changes that label's sites to the
/// new entry's and no other label's.
proof fn lemma_label_sites_update(
    before: Seq<(String, Vec<usize>)>,
    after: Seq<(String, Vec<usize>)>,
    e: int,
    l: Seq<char>,
)
    requires
        0 <= e < before.len(),
        before[e].0@ == l,
        forall|k: int| 0 <= k < e ==> (#[trigger] before[k]).0@ != l,
        after == before.update(e, after[e]),
        after[e].0@ == l,
    ensures
        label_sites(after, l) == after[e].1@,
        forall|l2: Seq<char>| l2 != l ==> label_sites(after, l2) == label_sites(before, l2),
    decreases before.len(),
{
    assert forall|k: int| 0 <= k < before.len() && k != e implies (#[trigger] after[k])
        == before[k] by {
        assert(after[k] == before.update(e, after[e])[k]);
    }
    lemma_label_sites_found(after, e, l);
    assert forall|l2: Seq<char>| l2 != l implies label_sites(after, l2) == label_sites(
        before,
        l2,
    ) by {
        assert(after.len() == before.len());
        assert(before[e].0@ != l2);
        assert(after[e].0@ != l2);
        lemma_label_sites_skip_eq(before, after, e, l2);
    }
}

/// Two lists equal except at one index whose key spells neither query give
/// the same sites for every other label.
proof fn lemma_label_sites_skip_eq(
    before: Seq<(String, Vec<usize>)>,
    after: Seq<(String, Vec<usize>)>,
    e: int,
    l2: Seq<char>,
)
    requires
        0 <= e < before.len(),
        after.len() == before.len(),
        forall|k: int| 0 <= k < before.len() && k != e ==> (#[trigger] after[k]) == before[k],
        before[e].0@ != l2,
        after[e].0@ != l2,
    ensures
        label_sites(after, l2) == label_sites(before, l2),
    decreases before.len(),
{
    if before.len() > 0 {
        assert(after[0].0@ == before[0].0@ || e == 0);
        if e == 0 {
            assert(forall|k: int|
                0 <= k < before.len() - 1 ==> (#[trigger] after.skip(1)[k]) == before.skip(1)[k]);
            assert(after.skip(1) =~= before.skip(1));
        } else {
            assert(after[0] == before[0]);
            assert(forall|k: int|
                0 <= k < before.len() - 1 && k != e - 1 ==> (#[trigger] after.skip(1)[k])
                    == before.skip(1)[k]);
            assert(after.skip(1)[e - 1] == after[e] && before.skip(1)[e - 1] == before[e]);
            lemma_label_sites_skip_eq(before.skip(1), after.skip(1), e - 1, l2);
        }
    }
}

/// Appending a fresh entry for a label no existing entry spells gives that
/// label exactly the entry's sites and changes no other label's.
proof fn lemma_label_sites_push(
    before: Seq<(String, Vec<usize>)>,
    entry: (String, Vec<usize>),
    l: Seq<char>,
)
    requires
        forall|k: int| 0 <= k < before.len() ==> (#[trigger] before[k]).0@ != l,
        entry.0@ == l,
    ensures
        label_sites(before.push(entry), l) == entry.1@,
        forall|l2: Seq<char>| l2 != l ==> label_sites(before.push(entry), l2) == label_sites(
            before,
            l2,
        ),
    decreases before.len(),
{
    let after = before.push(entry);
    if before.len() == 0 {
        assert(after[0] == entry);
        assert forall|l2: Seq<char>| l2 != l implies label_sites(after, l2) == label_sites(
            before,
            l2,
        ) by {
            assert(after[0].0@ == l && after[0].0@ != l2);
            assert(after.skip(1) =~= Seq::<(String, Vec<usize>)>::empty());
            assert(label_sites(after, l2) == label_sites(after.skip(1), l2));
            assert(label_sites(after.skip(1), l2) =~= Seq::<usize>::empty());
            assert(label_sites(before, l2) =~= Seq::<usize>::empty());
        }
    } else {
        assert(after[0] == before[0]);
        assert(after.skip(1) =~= before.skip(1).push(entry));
        assert(forall|k: int|
            0 <= k < before.len() - 1 ==> (#[trigger] before.skip(1)[k]) == before[k + 1]);
        lemma_label_sites_push(before.skip(1), entry, l);
        assert(label_sites(after, l) == entry.1@);
        assert forall|l2: Seq<char>| l2 != l implies label_sites(after, l2) == label_sites(
            before,
            l2,
        ) by {
            if before[0].0@ != l2 {
                assert(label_sites(after, l2) == label_sites(after.skip(1), l2));
                assert(label_sites(after.skip(1), l2) == label_sites(
                    before.skip(1).push(entry),
                    l2,
                ));
                assert(label_sites(before.skip(1).push(entry), l2) == label_sites(
                    before.skip(1),
                    l2,
                ));
                assert(label_sites(before, l2) == label_sites(before.skip(1), l2));
            } else {
                assert(label_sites(after, l2) == after[0].1@);
                assert(label_sites(before, l2) == before[0].1@);
            }
        }
    }
}

/// Every placeholder recorded under any label lies within the first `len`
/// bytes when every placeholder at all does.
pub proof fn lemma_label_sites_below(jumps: Seq<(String, Vec<usize>)>, l: Seq<char>, len: int)
    requires
        sites_wf(jumps, len),
    ensures
        forall|k: int|
            0 <= k < label_sites(jumps, l).len() ==> (#[trigger] label_sites(jumps, l)[k]) + 4
                <= len,
    decreases jumps.len(),
{
    if jumps.len() > 0 {
        if jumps[0].0@ == l {
            assert forall|k: int| 0 <= k < label_sites(jumps, l).len() implies (
            #[trigger] label_sites(jumps, l)[k]) + 4 <= len by {
                assert(jumps[0].1@[k] + 4 <= len);
            }
        } else {
            assert forall|e: int, k: int|
                #![trigger jumps.skip(1)[e].1@[k]]
                0 <= e < jumps.skip(1).len() && 0 <= k < jumps.skip(1)[e].1@.len() implies jumps.skip(
                1,
            )[e].1@[k] + 4 <= len by {
                assert(jumps.skip(1)[e] == jumps[e + 1]);
                assert(jumps[e + 1].1@[k] + 4 <= len);
            }
            lemma_label_sites_below(jumps.skip(1), l, len);
            assert(label_sites(jumps, l) == label_sites(jumps.skip(1), l));
            assert forall|k: int| 0 <= k < label_sites(jumps, l).len() implies (
            #[trigger] label_sites(jumps, l)[k]) + 4 <= len by {
                assert(label_sites(jumps.skip(1), l)[k] + 4 <= len);
            }
        }
    }
}

impl InstructionBuilder {
    /// The parts of the builder the byte-appending operations leave alone.
    pub open spec fn same_tracking(&self, other: &Self) -> bool {
        &&& self.jumps@ == other.jumps@
        &&& self.exception_stack@ == other.exception_stack@
        &&& self.completed_clauses@ == other.completed_clauses@
        &&& self.user_code_offset == other.user_code_offset
        &&& self.label_counter == other.label_counter
    }

    /// Create a new, empty instruction builder.
    pub fn new() -> (r: Self)
        ensures
            r.bytes@ == Seq::<u8>::empty(),
            r.jumps@ == Seq::<(String, Vec<usize>)>::empty(),
            r.exception_stack@ == Seq::<ExceptionClause>::empty(),
            r.completed_clauses@ == Seq::<ExceptionClause>::empty(),
            r.user_code_offset == 0,
            r.label_counter == 0,
    {
        Self {
            bytes: Vec::new(),
            jumps: Vec::new(),
            exception_stack: Vec::new(),
            completed_clauses: Vec::new(),
            user_code_offset: 0,
            label_counter: 0,
        }
    }

    /// Append an opcode with no operand: one byte below `0x100`, else the
    /// `0xFE` prefix and the low byte.
    pub fn append_opcode(&mut self, opcode: IlOpcode)
        ensures
            final(self).bytes@ == old(self).bytes@ + opcode_bytes(opcode),
            final(self).same_tracking(old(self)),
    {
        if opcode > 0xFF {
            self.bytes.push(0xFE);
            self.bytes.push((opcode % 0x100) as u8);
        } else {
            self.bytes.push(opcode as u8);
        }
        assert(final(self).bytes@ =~= old(self).bytes@ + opcode_bytes(opcode));
    }

    /// Append an opcode with a one-byte operand.
    pub fn append_opcode_u8(&mut self, opcode: IlOpcode, operand: u8)
        ensures
            final(self).bytes@ == old(self).bytes@ + opcode_bytes(opcode) + seq![operand],
            final(self).same_tracking(old(self)),
    {
        self.append_opcode(opcode);
        self.bytes.push(operand);
        assert(final(self).bytes@ =~= old(self).bytes@ + opcode_bytes(opcode) + seq![operand]);
    }

    /// Append an opcode with a two-byte little-endian operand.
    pub fn append_opcode_u16(&mut self, opcode: IlOpcode, operand: u16)
        ensures
            final(self).bytes@ == old(self).bytes@ + opcode_bytes(opcode) + le16(operand),
            final(self).same_tracking(old(self)),
    {
        self.append_opcode(opcode);
        push_le16(&mut self.bytes, operand);
    }

    /// Append an opcode with a four-byte little-endian operand.
    pub fn append_opcode_u32(&mut self, opcode: IlOpcode, operand: u32)
        ensures
            final(self).bytes@ == old(self).bytes@ + opcode_bytes(opcode) + le32(operand),
            final(self).same_tracking(old(self)),
    {
        self.append_opcode(opcode);
        push_le32(&mut self.bytes, operand);
    }

    /// Append an opcode with an eight-byte little-endian operand.
    pub fn append_opcode_u64(&mut self, opcode: IlOpcode, operand: u64)
        ensures
            final(self).bytes@ == old(self).bytes@ + opcode_bytes(opcode) + le64(operand),
            final(self).same_tracking(old(self)),
    {
        self.append_opcode(opcode);
        push_le64(&mut self.bytes, operand);
    }

    /// Append raw bytes (for example an original method body).
    pub fn append_raw_bytes(&mut self, raw: &[u8])
        ensures
            final(self).bytes@ == old(self).bytes@ + raw@,
            final(self).same_tracking(old(self)),
    {
        let mut i: usize = 0;
        while i < raw.len()
            invariant
                0 <= i <= raw@.len(),
                self.bytes@ == old(self).bytes@ + raw@.subrange(0, i as int),
                self.same_tracking(old(self)),
            decreases raw@.len() - i,
        {
            self.bytes.push(raw[i]);
            i = i + 1;
            assert(self.bytes@ =~= old(self).bytes@ + raw@.subrange(0, i as int));
        }
        assert(final(self).bytes@ =~= old(self).bytes@ + raw@);
    }

    /// Emit a jump instruction with a named forward label: the opcode byte
    /// then a four-byte placeholder, whose position is recorded under the
    /// label for patching.
    pub fn append_jump(&mut self, instruction: u8, label: &str)
        requires
            old(self).bytes@.len() + 5 <= usize::MAX,
        ensures
            final(self).bytes@ == old(self).bytes@ + seq![instruction, 0u8, 0u8, 0u8, 0u8],
            final(self).exception_stack@ == old(self).exception_stack@,
            final(self).completed_clauses@ == old(self).completed_clauses@,
            final(self).user_code_offset == old(self).user_code_offset,
            final(self).label_counter == old(self).label_counter,
            forall|s: int|
                is_site(final(self).jumps@, s) <==> (is_site(old(self).jumps@, s) || s == old(
                    self,
                ).bytes@.len() + 1),
            sites_wf(old(self).jumps@, old(self).bytes@.len() as int) ==> sites_wf(
                final(self).jumps@,
                final(self).bytes@.len() as int,
            ),
            label_sites(final(self).jumps@, label@) == label_sites(old(self).jumps@, label@).push(
                (old(self).bytes@.len() + 1) as usize,
            ),
            forall|l2: Seq<char>|
                l2 != label@ ==> label_sites(final(self).jumps@, l2) == label_sites(
                    old(self).jumps@,
                    l2,
                ),
    {
        self.bytes.push(instruction);
        let placeholder_pos = self.bytes.len();
        self.record_site(label, placeholder_pos);
        self.bytes.push(0x00);
        self.bytes.push(0x00);
        self.bytes.push(0x00);
        self.bytes.push(0x00);
        assert(final(self).bytes@ =~= old(self).bytes@ + seq![instruction, 0u8, 0u8, 0u8, 0u8]);
        proof {
            if sites_wf(old(self).jumps@, old(self).bytes@.len() as int) {
                assert forall|e: int, k: int|
                    #![trigger self.jumps@[e].1@[k]]
                    0 <= e < self.jumps@.len() && 0 <= k < self.jumps@[e].1@.len() implies self
                    .jumps@[e].1@[k] + 4 <= self.bytes@.len() by {
                    let s = self.jumps@[e].1@[k] as int;
                    assert(is_site(self.jumps@, s));
                    if is_site(old(self).jumps@, s) {
                        let (e2, k2) = choose|e2: int, k2: int|
                            #![trigger old(self).jumps@[e2].1@[k2]]
                            0 <= e2 < old(self).jumps@.len() && 0 <= k2 < old(
                                self,
                            ).jumps@[e2].1@.len() && old(self).jumps@[e2].1@[k2] == s;
                        assert(old(self).jumps@[e2].1@[k2] + 4 <= old(self).bytes@.len());
                    }
                }
            }
        }
    }

    /// Record `pos` as a placeholder for `label`: appended to the first
    /// entry with that label, or put in a fresh entry at the end.
    fn record_site(&mut self, label: &str, pos: usize)
        ensures
            final(self).bytes@ == old(self).bytes@,
            final(self).exception_stack@ == old(self).exception_stack@,
            final(self).completed_clauses@ == old(self).completed_clauses@,
            final(self).user_code_offset == old(self).user_code_offset,
            final(self).label_counter == old(self).label_counter,
            forall|s: int|
                is_site(final(self).jumps@, s) <==> (is_site(old(self).jumps@, s) || s
                    == pos as int),
            label_sites(final(self).jumps@, label@) == label_sites(old(self).jumps@, label@).push(
                pos,
            ),
            forall|l2: Seq<char>|
                l2 != label@ ==> label_sites(final(self).jumps@, l2) == label_sites(
                    old(self).jumps@,
                    l2,
                ),
    {
        let owned: String = label.to_owned();
        let n = self.jumps.len();
        let mut e: usize = 0;
        while e < n
            invariant
                0 <= e <= n,
                n == self.jumps@.len(),
                self.bytes@ == old(self).bytes@,
                self.jumps@ == old(self).jumps@,
                self.exception_stack@ == old(self).exception_stack@,
                self.completed_clauses@ == old(self).completed_clauses@,
                self.user_code_offset == old(self).user_code_offset,
                self.label_counter == old(self).label_counter,
                owned@ == label@,
                forall|k: int| 0 <= k < e ==> (#[trigger] self.jumps@[k]).0@ != label@,
            decreases n - e,
        {
            if self.jumps[e].0.eq(&owned) {
                let ghost before = self.jumps@;
                let key = self.jumps[e].0.clone();
                let mut entry_sites = self.jumps[e].1.clone();
                proof {
                    assert(entry_sites@ =~= before[e as int].1@);
                }
                entry_sites.push(pos);
                self.jumps.set(e, (key, entry_sites));
                proof {
                    let after = self.jumps@;
                    assert(after[e as int].1@ == before[e as int].1@.push(pos));
                    assert(forall|j: int|
                        0 <= j < after.len() && j != e ==> after[j] == #[trigger] before[j]);
                    assert(after =~= before.update(e as int, after[e as int]));
                    assert(after[e as int].0@ == label@);
                    lemma_label_sites_found(before, e as int, label@);
                    lemma_label_sites_update(before, after, e as int, label@);
                    assert forall|s: int| is_site(after, s) implies (is_site(before, s) || s
                        == pos as int) by {
                        let (e2, k2) = choose|e2: int, k2: int|
                            #![trigger after[e2].1@[k2]]
                            0 <= e2 < after.len() && 0 <= k2 < after[e2].1@.len()
                                && after[e2].1@[k2] == s;
                        if e2 == e as int && k2 == before[e as int].1@.len() {
                        } else {
                            assert(before[e2].1@[k2] == s);
                        }
                    }
                    assert forall|s: int| (is_site(before, s) || s == pos as int) implies is_site(
                        after,
                        s,
                    ) by {
                        if s == pos as int {
                            assert(after[e as int].1@[before[e as int].1@.len() as int] == s);
                        } else {
                            let (e2, k2) = choose|e2: int, k2: int|
                                #![trigger before[e2].1@[k2]]
                                0 <= e2 < before.len() && 0 <= k2 < before[e2].1@.len()
                                    && before[e2].1@[k2] == s;
                            if e2 == e as int {
                                assert(after[e2].1@[k2] == s);
                            } else {
                                assert(after[e2].1@[k2] == s);
                            }
                        }
                    }
                }
                return ;
            }
            e = e + 1;
        }
        let ghost before = self.jumps@;
        let mut sites: Vec<usize> = Vec::new();
        sites.push(pos);
        self.jumps.push((owned, sites));
        proof {
            let after = self.jumps@;
            assert(after.len() == before.len() + 1);
            assert(after.last().1@ =~= seq![pos]);
            assert(forall|j: int| 0 <= j < before.len() ==> after[j] == #[trigger] before[j]);
            assert(after.last().0@ == label@);
            lemma_label_sites_none(before, label@);
            assert(after =~= before.push(after.last()));
            lemma_label_sites_push(before, after.last(), label@);
            assert(label_sites(after, label@) =~= label_sites(before, label@).push(pos));
            assert forall|s: int| is_site(after, s) implies (is_site(before, s) || s
                == pos as int) by {
                let (e2, k2) = choose|e2: int, k2: int|
                    #![trigger after[e2].1@[k2]]
                    0 <= e2 < after.len() && 0 <= k2 < after[e2].1@.len() && after[e2].1@[k2] == s;
                if e2 < before.len() {
                    assert(before[e2].1@[k2] == s);
                }
            }
            assert forall|s: int| (is_site(before, s) || s == pos as int) implies is_site(
                after,
                s,
            ) by {
                if s == pos as int {
                    assert(after[before.len() as int].1@[0] == s);
                } else {
                    let (e2, k2) = choose|e2: int, k2: int|
                        #![trigger before[e2].1@[k2]]
                        0 <= e2 < before.len() && 0 <= k2 < before[e2].1@.len()
                            && before[e2].1@[k2] == s;
                    assert(after[e2].1@[k2] == s);
                }
            }
        }
    }

    /// Emit a jump with a freshly generated label and return the label.
    pub fn append_jump_auto(&mut self, instruction: u8) -> (label: String)
        requires
            old(self).bytes@.len() + 5 <= usize::MAX,
            old(self).label_counter < u32::MAX,
        ensures
            final(self).bytes@ == old(self).bytes@ + seq![instruction, 0u8, 0u8, 0u8, 0u8],
            final(self).exception_stack@ == old(self).exception_stack@,
            final(self).completed_clauses@ == old(self).completed_clauses@,
            final(self).user_code_offset == old(self).user_code_offset,
            final(self).label_counter == old(self).label_counter + 1,
            forall|s: int|
                is_site(final(self).jumps@, s) <==> (is_site(old(self).jumps@, s) || s == old(
                    self,
                ).bytes@.len() + 1),
            label@.len() == old(self).label_counter + 1,
            forall|i: int| 0 <= i < label@.len() ==> label@[i] == '_',
            sites_wf(old(self).jumps@, old(self).bytes@.len() as int) ==> sites_wf(
                final(self).jumps@,
                final(self).bytes@.len() as int,
            ),
            label_sites(final(self).jumps@, label@) == label_sites(old(self).jumps@, label@).push(
                (old(self).bytes@.len() + 1) as usize,
            ),
            forall|l2: Seq<char>|
                l2 != label@ ==> label_sites(final(self).jumps@, l2) == label_sites(
                    old(self).jumps@,
                    l2,
                ),
    {
        let label = generated_label(self.label_counter);
        self.label_counter = self.label_counter + 1;
        self.append_jump(instruction, label.as_str());
        label
    }

    /// Place a label at the current position: every placeholder recorded
    /// under it is patched with the distance from just past its four bytes
    /// to here, as a little-endian 32-bit word.  A placeholder running past
    /// the current end is skipped, and a placeholder overlapped by a later
    /// one under the same label is overwritten by the later patch.  Bytes
    /// outside the label's placeholders are untouched.
    #[verifier::rlimit(100)]
    #[verifier::spinoff_prover]
    pub fn append_label(&mut self, label: &str)
        ensures
            final(self).bytes@.len() == old(self).bytes@.len(),
            final(self).jumps@ == old(self).jumps@,
            final(self).exception_stack@ == old(self).exception_stack@,
            final(self).completed_clauses@ == old(self).completed_clauses@,
            final(self).user_code_offset == old(self).user_code_offset,
            final(self).label_counter == old(self).label_counter,
            ({
                let sites = label_sites(old(self).jumps@, label@);
                let cur = old(self).bytes@.len() as int;
                forall|t: int|
                    0 <= t < sites.len() && (#[trigger] sites[t]) + 4 <= cur && no_later_overlap(
                        sites,
                        t,
                    ) ==> final(self).bytes@.subrange(sites[t] as int, sites[t] + 4) == patch_value(
                        cur,
                        sites[t] as int,
                    )
            }),
            forall|i: int|
                0 <= i < old(self).bytes@.len() && outside_label_sites(old(self).jumps@, label@, i)
                    ==> final(self).bytes@[i] == old(self).bytes@[i],
            forall|i: int|
                0 <= i < old(self).bytes@.len() && outside_sites(old(self).jumps@, i)
                    ==> final(self).bytes@[i] == old(self).bytes@[i],
    {
        let owned: String = label.to_owned();
        let n = self.jumps.len();
        let mut e: usize = 0;
        while e < n
            invariant
                0 <= e <= n,
                n == self.jumps@.len(),
                self.jumps@ == old(self).jumps@,
                self.bytes@ == old(self).bytes@,
                self.exception_stack@ == old(self).exception_stack@,
                self.completed_clauses@ == old(self).completed_clauses@,
                self.user_code_offset == old(self).user_code_offset,
                self.label_counter == old(self).label_counter,
                owned@ == label@,
                forall|k: int| 0 <= k < e ==> (#[trigger] self.jumps@[k]).0@ != label@,
            decreases n - e,
        {
            if self.jumps[e].0.eq(&owned) {
                proof {
                    lemma_label_sites_found(self.jumps@, e as int, label@);
                }
                let ghost sites = label_sites(self.jumps@, label@);
                let ghost cur = self.bytes@.len() as int;
                let m = self.jumps[e].1.len();
                let mut k: usize = 0;
                while k < m
                    invariant
                        0 <= k <= m,
                        0 <= (e as int) < self.jumps@.len(),
                        m == sites.len(),
                        sites == self.jumps@[e as int].1@,
                        sites == label_sites(old(self).jumps@, label@),
                        cur == old(self).bytes@.len() as int,
                        self.jumps@ == old(self).jumps@,
                        self.exception_stack@ == old(self).exception_stack@,
                        self.completed_clauses@ == old(self).completed_clauses@,
                        self.user_code_offset == old(self).user_code_offset,
                        self.label_counter == old(self).label_counter,
                        self.bytes@.len() == old(self).bytes@.len(),
                        forall|t: int|
                            0 <= t < k && (#[trigger] sites[t]) + 4 <= cur && no_overlap_range(
                                sites,
                                t,
                                k as int,
                            ) ==> self.bytes@.subrange(sites[t] as int, sites[t] + 4)
                                == patch_value(cur, sites[t] as int),
                        forall|i: int|
                            0 <= i < old(self).bytes@.len() && outside_sites_upto(
                                sites,
                                k as int,
                                i,
                            ) ==> self.bytes@[i] == old(self).bytes@[i],
                    decreases m - k,
                {
                    let p = self.jumps[e].1[k];
                    let blen = self.bytes.len();
                    proof {
                        assert(sites[k as int] == p);
                        assert(blen == cur);
                    }
                    if p <= usize::MAX - 4 && p + 4 <= blen {
                        let current_pos = self.bytes.len();
                        let distance: u64 = (current_pos as u64 - (p as u64 + 4)) % 0x1_0000_0000;
                        let ghost prev = self.bytes@;
                        write_u32_at(&mut self.bytes, p, distance as u32);
                        proof {
                            assert(le32(distance as u32) =~= patch_value(cur, p as int));
                            assert(self.bytes@.subrange(p as int, p + 4) == patch_value(
                                cur,
                                p as int,
                            ));
                            assert forall|t: int|
                                0 <= t < k + 1 && (#[trigger] sites[t]) + 4 <= cur
                                    && no_overlap_range(sites, t, k + 1) implies self
                                .bytes@.subrange(sites[t] as int, sites[t] + 4) == patch_value(
                                cur,
                                sites[t] as int,
                            ) by {
                                if t < k {
                                    assert(sites[k as int] + 4 <= sites[t] || sites[k as int]
                                        >= sites[t] + 4);
                                    assert(self.bytes@.subrange(sites[t] as int, sites[t] + 4)
                                        =~= prev.subrange(sites[t] as int, sites[t] + 4));
                                }
                            }
                            assert forall|i: int|
                                0 <= i < old(self).bytes@.len() && outside_sites_upto(
                                    sites,
                                    k + 1,
                                    i,
                                ) implies self.bytes@[i] == old(self).bytes@[i] by {
                                assert(!(sites[k as int] <= i < sites[k as int] + 4));
                                assert(outside_sites_upto(sites, k as int, i));
                                assert(prev[i] == old(self).bytes@[i]);
                                assert(self.bytes@[i] == prev[i]);
                            }
                        }
                    } else {
                        proof {
                            if p <= usize::MAX - 4 {
                                assert(sites[k as int] + 4 > cur);
                            } else {
                                assert(cur <= usize::MAX);
                                assert(sites[k as int] + 4 > cur);
                            }
                            assert forall|i: int|
                                0 <= i < old(self).bytes@.len() && outside_sites_upto(
                                    sites,
                                    k + 1,
                                    i,
                                ) implies self.bytes@[i] == old(self).bytes@[i] by {
                                assert(outside_sites_upto(sites, k as int, i));
                            }
                        }
                    }
                    k = k + 1;
                }
                proof {
                    assert forall|i: int|
                        0 <= i < old(self).bytes@.len() && outside_label_sites(
                            old(self).jumps@,
                            label@,
                            i,
                        ) implies self.bytes@[i] == old(self).bytes@[i] by {
                        assert forall|t: int| 0 <= t < sites.len() implies !((
                        #[trigger] sites[t]) <= i < sites[t] + 4) by {
                            assert(label_sites(old(self).jumps@, label@)[t] == sites[t]);
                        }
                        assert(outside_sites_upto(sites, m as int, i));
                    }
                    assert forall|i: int|
                        0 <= i < old(self).bytes@.len() && outside_sites(old(self).jumps@, i)
                            implies self.bytes@[i] == old(self).bytes@[i] by {
                        assert forall|t: int| 0 <= t < sites.len() implies !((
                        #[trigger] sites[t]) <= i < sites[t] + 4) by {
                            assert(old(self).jumps@[e as int].1@[t] == sites[t]);
                        }
                        assert(outside_sites_upto(sites, m as int, i));
                    }
                }
                return ;
            }
            e = e + 1;
        }
        proof {
            lemma_label_sites_none(self.jumps@, label@);
        }
    }

    /// Emit the shortest `ldarg` encoding for an argument index.
    pub fn append_load_argument(&mut self, index: u16)
        ensures
            final(self).bytes@ == old(self).bytes@ + ldarg_bytes(index),
            final(self).same_tracking(old(self)),
    {
        if index < 4 {
            self.append_opcode(0x02 + index);
        } else if index < 256 {
            self.append_opcode_u8(0x0E, index as u8);
        } else {
            self.append_opcode_u16(0xFE09, index);
        }
        assert(final(self).bytes@ =~= old(self).bytes@ + ldarg_bytes(index));
    }

    /// Emit the shortest `ldloc` encoding for a local index.
    pub fn append_load_local(&mut self, index: u16)
        ensures
            final(self).bytes@ == old(self).bytes@ + ldloc_bytes(index),
            final(self).same_tracking(old(self)),
    {
        if index < 4 {
            self.append_opcode(0x06 + index);
        } else if index < 256 {
            self.append_opcode_u8(0x11, index as u8);
        } else {
            self.append_opcode_u16(0xFE0C, index);
        }
        assert(final(self).bytes@ =~= old(self).bytes@ + ldloc_bytes(index));
    }

    /// Emit the shortest `stloc` encoding for a local index.
    pub fn append_store_local(&mut self, index: u16)
        ensures
            final(self).bytes@ == old(self).bytes@ + stloc_bytes(index),
            final(self).same_tracking(old(self)),
    {
        if index < 4 {
            self.append_opcode(0x0A + index);
        } else if index < 256 {
            self.append_opcode_u8(0x13, index as u8);
        } else {
            self.append_opcode_u16(0xFE0E, index);
        }
        assert(final(self).bytes@ =~= old(self).bytes@ + stloc_bytes(index));
    }

    /// Emit the shortest `ldc.i4` encoding for a value.
    pub fn append_ldc_i4(&mut self, value: i32)
        ensures
            final(self).bytes@ == old(self).bytes@ + ldc_i4_bytes(value),
            final(self).same_tracking(old(self)),
    {
        let (opcode, operand) = crate::opcodes::ldc_i4_opcode_for(value);
        match operand {
            None => self.append_opcode(opcode),
            Some(v) => {
                if opcode == 0x1F {
                    let b: u8 = if v >= 0 {
                        v as u8
                    } else {
                        (v + 0x100) as u8
                    };
                    self.append_opcode_u8(opcode, b);
                } else {
                    let w: u32 = if v >= 0 {
                        v as u32
                    } else {
                        ((v as i64) + 0x1_0000_0000) as u32
                    };
                    self.append_opcode_u32(opcode, w);
                }
            },
        }
        assert(final(self).bytes@ =~= old(self).bytes@ + ldc_i4_bytes(value));
    }

    /// Record where the user code begins and append the original method
    /// body verbatim.
    pub fn append_user_code(&mut self, user_code: &[u8])
        requires
            old(self).bytes@.len() <= u32::MAX,
        ensures
            final(self).bytes@ == old(self).bytes@ + user_code@,
            final(self).user_code_offset == old(self).bytes@.len(),
            final(self).jumps@ == old(self).jumps@,
            final(self).exception_stack@ == old(self).exception_stack@,
            final(self).completed_clauses@ == old(self).completed_clauses@,
            final(self).label_counter == old(self).label_counter,
    {
        self.user_code_offset = self.bytes.len() as u32;
        self.append_raw_bytes(user_code);
    }

    /// Open a try region at the current position.
    pub fn append_try_start(&mut self)
        requires
            old(self).bytes@.len() <= u32::MAX,
        ensures
            final(self).bytes@ == old(self).bytes@,
            final(self).exception_stack@ == old(self).exception_stack@.push(
                ExceptionClause {
                    flags: 0,
                    try_offset: old(self).bytes@.len() as u32,
                    try_length: 0,
                    handler_offset: 0,
                    handler_length: 0,
                    class_token: 0,
                    filter_offset: 0,
                },
            ),
            final(self).jumps@ == old(self).jumps@,
            final(self).completed_clauses@ == old(self).completed_clauses@,
            final(self).user_code_offset == old(self).user_code_offset,
            final(self).label_counter == old(self).label_counter,
    {
        let clause = ExceptionClause {
            flags: 0,
            try_offset: self.bytes.len() as u32,
            try_length: 0,
            handler_offset: 0,
            handler_length: 0,
            class_token: 0,
            filter_offset: 0,
        };
        self.exception_stack.push(clause);
    }

    /// Close the innermost open try region, setting its length from the
    /// current position.  With no open region, nothing happens.
    pub fn append_try_end(&mut self)
        requires
            old(self).bytes@.len() <= u32::MAX,
            old(self).exception_stack@.len() > 0 ==> old(self).exception_stack@.last().try_offset
                <= old(self).bytes@.len(),
        ensures
            final(self).bytes@ == old(self).bytes@,
            old(self).exception_stack@.len() == 0 ==> final(self).exception_stack@ == old(
                self,
            ).exception_stack@,
            old(self).exception_stack@.len() > 0 ==> final(self).exception_stack@ == old(
                self,
            ).exception_stack@.update(
                old(self).exception_stack@.len() - 1,
                ExceptionClause {
                    try_length: (old(self).bytes@.len() - old(
                        self,
                    ).exception_stack@.last().try_offset) as u32,
                    ..old(self).exception_stack@.last()
                },
            ),
            final(self).jumps@ == old(self).jumps@,
            final(self).completed_clauses@ == old(self).completed_clauses@,
            final(self).user_code_offset == old(self).user_code_offset,
            final(self).label_counter == old(self).label_counter,
    {
        let n = self.exception_stack.len();
        if n > 0 {
            let pos = self.bytes.len() as u32;
            let last = self.exception_stack[n - 1];
            let updated = ExceptionClause { try_length: pos - last.try_offset, ..last };
            self.exception_stack.set(n - 1, updated);
        }
    }

    /// Open the catch handler of the innermost try region: the handler
    /// offset is the current position, the clause becomes a catch for the
    /// given class token.  With no open region, nothing happens.
    pub fn append_catch_start(&mut self, class_token: u32)
        requires
            old(self).bytes@.len() <= u32::MAX,
        ensures
            final(self).bytes@ == old(self).bytes@,
            old(self).exception_stack@.len() == 0 ==> final(self).exception_stack@ == old(
                self,
            ).exception_stack@,
            old(self).exception_stack@.len() > 0 ==> final(self).exception_stack@ == old(
                self,
            ).exception_stack@.update(
                old(self).exception_stack@.len() - 1,
                ExceptionClause {
                    handler_offset: old(self).bytes@.len() as u32,
                    flags: 0,
                    class_token,
                    ..old(self).exception_stack@.last()
                },
            ),
            final(self).jumps@ == old(self).jumps@,
            final(self).completed_clauses@ == old(self).completed_clauses@,
            final(self).user_code_offset == old(self).user_code_offset,
            final(self).label_counter == old(self).label_counter,
    {
        let n = self.exception_stack.len();
        if n > 0 {
            let pos = self.bytes.len() as u32;
            let last = self.exception_stack[n - 1];
            let updated = ExceptionClause { handler_offset: pos, flags: 0, class_token, ..last };
            self.exception_stack.set(n - 1, updated);
        }
    }

    /// Close the innermost handler: its length is set from the current
    /// position and the clause moves to the completed list.  With no open
    /// region, nothing happens.
    pub fn append_catch_end(&mut self)
        requires
            old(self).bytes@.len() <= u32::MAX,
            old(self).exception_stack@.len() > 0 ==> old(
                self,
            ).exception_stack@.last().handler_offset <= old(self).bytes@.len(),
        ensures
            final(self).bytes@ == old(self).bytes@,
            old(self).exception_stack@.len() == 0 ==> (final(self).exception_stack@ == old(
                self,
            ).exception_stack@ && final(self).completed_clauses@ == old(self).completed_clauses@),
            old(self).exception_stack@.len() > 0 ==> (final(self).exception_stack@ == old(
                self,
            ).exception_stack@.drop_last() && final(self).completed_clauses@ == old(
                self,
            ).completed_clauses@.push(
                ExceptionClause {
                    handler_length: (old(self).bytes@.len() - old(
                        self,
                    ).exception_stack@.last().handler_offset) as u32,
                    ..old(self).exception_stack@.last()
                },
            )),
            final(self).jumps@ == old(self).jumps@,
            final(self).user_code_offset == old(self).user_code_offset,
            final(self).label_counter == old(self).label_counter,
    {
        match self.exception_stack.pop() {
            Some(clause) => {
                let pos = self.bytes.len() as u32;
                let completed = ExceptionClause {
                    handler_length: pos - clause.handler_offset,
                    ..clause
                };
                self.completed_clauses.push(completed);
            },
            None => {},
        }
    }

    /// The built IL bytes.
    pub fn get_bytes(&self) -> (r: &[u8])
        ensures
            r@ == self.bytes@,
    {
        self.bytes.as_slice()
    }

    /// The byte offset where the user (original) code begins.
    pub fn get_user_code_offset(&self) -> (r: u32)
        ensures
            r == self.user_code_offset,
    {
        self.user_code_offset
    }

    /// The completed exception clauses, innermost first.
    pub fn get_completed_clauses(&self) -> (r: &[ExceptionClause])
        ensures
            r@ == self.completed_clauses@,
    {
        self.completed_clauses.as_slice()
    }

    /// The number of bytes written so far.
    pub fn position(&self) -> (r: usize)
        ensures
            r == self.bytes@.len(),
    {
        self.bytes.len()
    }
}

/// Write a `u32` little-endian over four existing bytes.
fn write_u32_at(bytes: &mut Vec<u8>, p: usize, v: u32)
    requires
        p + 4 <= old(bytes)@.len(),
    ensures
        final(bytes)@.len() == old(bytes)@.len(),
        forall|i: int|
            0 <= i < old(bytes)@.len() && !(p <= i < p + 4) ==> final(bytes)@[i] == old(
                bytes,
            )@[i],
        final(bytes)@.subrange(p as int, p + 4) == le32(v),
{
    let n = bytes.len();
    assert(p + 4 <= n);
    bytes.set(p, (v % 0x100) as u8);
    bytes.set(p + 1, ((v / 0x100) % 0x100) as u8);
    bytes.set(p + 2, ((v / 0x1_0000) % 0x100) as u8);
    bytes.set(p + 3, (v / 0x100_0000) as u8);
    assert(final(bytes)@.subrange(p as int, p + 4) =~= le32(v));
}

/// A generated label: distinct counters give distinct names.
fn generated_label(counter: u32) -> (r: String)
    requires
        counter < u32::MAX,
    ensures
        r@.len() == counter + 1,
        forall|i: int| 0 <= i < r@.len() ==> r@[i] == '_',
{
    let mut label = String::new();
    let mut i: u32 = 0;
    proof {
        reveal_strlit("_");
    }
    while i <= counter
        invariant
            0 <= i <= counter + 1,
            counter < u32::MAX,
            label@.len() == i,
            forall|k: int| 0 <= k < label@.len() ==> label@[k] == '_',
            "_"@ =~= seq!['_'],
        decreases counter + 1 - i,
    {
        label.append("_");
        i = i + 1;
    }
    label
}

} // verus!
