//! Exception-clause parsing, offset shifting, and serialization
//! (ECMA-335 II.25.4.6).
//!
//! Existing clauses are parsed from a method's extra section (small or fat
//! format), optionally remapped through a ret-rewrite offset map, shifted by
//! the byte offset where the original code now begins, and written back out
//! after the clauses the instrumentation template added.  Output is always
//! the fat format: a 4-byte section header and 24 bytes per clause.

use vstd::prelude::*;

use crate::le::{le24, le32, lemma_le24_round_trip, push_le24, push_le32, read_u16_le, read_u24_le,
    read_u32_le, u16_le, u24_le, u32_le};
use crate::IlError;

verus! {

/// Exception-handling-table flag of the extra-section header byte.
pub const COR_ILEXCEPTION_SECT_EHTABLE: u8 = 0x01;

/// Fat-format flag of the extra-section header byte (24-byte clauses).
pub const COR_ILEXCEPTION_SECT_FATFORMAT: u8 = 0x40;

/// More-sections flag of the extra-section header byte.
pub const COR_ILEXCEPTION_SECT_MORE_SECTS: u8 = 0x80;

/// Size of a fat exception clause in bytes.
pub const FAT_CLAUSE_SIZE: usize = 24;

/// Size of a small exception clause in bytes.
pub const SMALL_CLAUSE_SIZE: usize = 12;

/// Size of the extra-section header in bytes.
pub const EXTRA_SECTION_HEADER_SIZE: usize = 4;

/// An exception-handling clause: a protected region and its handler.  The
/// final on-wire word is multiplexed: a filter clause (`flags == 1`)
/// carries `filter_offset` there, every other kind carries `class_token`.
#[derive(Debug, Clone, Copy, Default, PartialEq, Eq, Structural)]
pub struct ExceptionClause {
    /// Clause kind: 0 = catch, 1 = filter, 2 = finally, 4 = fault
    pub flags: u32,
    /// Byte offset of the start of the try block
    pub try_offset: u32,
    /// Length of the try block in bytes
    pub try_length: u32,
    /// Byte offset of the start of the handler
    pub handler_offset: u32,
    /// Length of the handler in bytes
    pub handler_length: u32,
    /// Token of the exception type (for catch clauses)
    pub class_token: u32,
    /// Offset of the filter expression (for filter clauses)
    pub filter_offset: u32,
}

/// The 24 on-wire bytes of a fat clause.
pub open spec fn clause_wire(c: ExceptionClause) -> Seq<u8> {
    le32(c.flags) + le32(c.try_offset) + le32(c.try_length) + le32(c.handler_offset) + le32(
        c.handler_length,
    ) + le32(
        if c.flags == 1 {
            c.filter_offset
        } else {
            c.class_token
        },
    )
}

/// A clause as parsing returns it: the side of the multiplexed word the
/// flags do not select is zero.
pub open spec fn normalize_clause(c: ExceptionClause) -> ExceptionClause {
    if c.flags == 1 {
        ExceptionClause { class_token: 0, ..c }
    } else {
        ExceptionClause { filter_offset: 0, ..c }
    }
}

/// The fat clause read from the 24 bytes of `s` starting at `off`.
pub open spec fn spec_parse_fat_clause(s: Seq<u8>, off: int) -> ExceptionClause
    recommends
        0 <= off,
        off + 24 <= s.len(),
{
    let flags = u32_le(s[off], s[off + 1], s[off + 2], s[off + 3]);
    let word = u32_le(s[off + 20], s[off + 21], s[off + 22], s[off + 23]);
    ExceptionClause {
        flags,
        try_offset: u32_le(s[off + 4], s[off + 5], s[off + 6], s[off + 7]),
        try_length: u32_le(s[off + 8], s[off + 9], s[off + 10], s[off + 11]),
        handler_offset: u32_le(s[off + 12], s[off + 13], s[off + 14], s[off + 15]),
        handler_length: u32_le(s[off + 16], s[off + 17], s[off + 18], s[off + 19]),
        class_token: if flags == 1 {
            0
        } else {
            word
        },
        filter_offset: if flags == 1 {
            word
        } else {
            0
        },
    }
}

/// The small clause read from the 12 bytes of `s` starting at `off`.
pub open spec fn spec_parse_small_clause(s: Seq<u8>, off: int) -> ExceptionClause
    recommends
        0 <= off,
        off + 12 <= s.len(),
{
    let flags = u16_le(s[off], s[off + 1]) as u32;
    let word = u32_le(s[off + 8], s[off + 9], s[off + 10], s[off + 11]);
    ExceptionClause {
        flags,
        try_offset: u16_le(s[off + 2], s[off + 3]) as u32,
        try_length: s[off + 4] as u32,
        handler_offset: u16_le(s[off + 5], s[off + 6]) as u32,
        handler_length: s[off + 7] as u32,
        class_token: if flags == 1 {
            0
        } else {
            word
        },
        filter_offset: if flags == 1 {
            word
        } else {
            0
        },
    }
}

/// The clauses an extra section holds, or `None` when the section is not a
/// well-formed exception table: too short for its header, not marked as an
/// EH table, a size below the header's own four bytes, or clauses running
/// past the section bytes.
pub open spec fn spec_parse_section(s: Seq<u8>) -> Option<Seq<ExceptionClause>> {
    if s.len() < 4 {
        None
    } else if s[0] % 2 == 0 {
        None
    } else if (s[0] / 0x40) % 2 == 1 {
        let size = u24_le(s[1], s[2], s[3]);
        if size < 4 {
            None
        } else {
            let count = (size - 4) as int / 24;
            if 4 + count * 24 > s.len() {
                None
            } else {
                Some(Seq::new(count as nat, |i: int| spec_parse_fat_clause(s, 4 + i * 24)))
            }
        }
    } else {
        let size = s[1] as int;
        if size < 4 {
            None
        } else {
            let count = (size - 4) / 12;
            if 4 + count * 12 > s.len() {
                None
            } else {
                Some(Seq::new(count as nat, |i: int| spec_parse_small_clause(s, 4 + i * 12)))
            }
        }
    }
}

/// A clause with all offsets shifted by `shift` (modulo the 32-bit space):
/// the try and handler starts always, the filter offset for filter clauses.
pub open spec fn shift_clause(c: ExceptionClause, shift: u32) -> ExceptionClause {
    ExceptionClause {
        try_offset: ((c.try_offset + shift) % 0x1_0000_0000) as u32,
        handler_offset: ((c.handler_offset + shift) % 0x1_0000_0000) as u32,
        filter_offset: if c.flags == 1 {
            ((c.filter_offset + shift) % 0x1_0000_0000) as u32
        } else {
            c.filter_offset
        },
        ..c
    }
}

/// The new offset an old offset maps to: the second member of the first
/// pair whose first member matches, or the offset itself when none does.
pub open spec fn remap_offset(map: Seq<(usize, usize)>, off: u32) -> int
    decreases map.len(),
{
    if map.len() == 0 {
        off as int
    } else if map[0].0 == off {
        map[0].1 as int
    } else {
        remap_offset(map.skip(1), off)
    }
}

/// A clause with its try, handler and (for filter clauses) filter offsets
/// remapped through an instruction offset map.
pub open spec fn remap_clause(map: Seq<(usize, usize)>, c: ExceptionClause) -> ExceptionClause {
    ExceptionClause {
        try_offset: remap_offset(map, c.try_offset) as u32,
        handler_offset: remap_offset(map, c.handler_offset) as u32,
        filter_offset: if c.flags == 1 {
            remap_offset(map, c.filter_offset) as u32
        } else {
            c.filter_offset
        },
        ..c
    }
}

/// Concatenated fat wire images of a clause sequence.
pub open spec fn clauses_wire(cs: Seq<ExceptionClause>) -> Seq<u8>
    decreases cs.len(),
{
    if cs.len() == 0 {
        Seq::empty()
    } else {
        clauses_wire(cs.drop_last()) + clause_wire(cs.last())
    }
}

/// The complete extra-section image: nothing for zero clauses, else the
/// header byte `EHTABLE | FATFORMAT`, the 24-bit section size, the new
/// clauses in insertion order, then the original clauses with their
/// offsets shifted by `shift`.
pub open spec fn spec_section_bytes(
    new: Seq<ExceptionClause>,
    orig: Seq<ExceptionClause>,
    shift: u32,
) -> Seq<u8> {
    let total = new.len() + orig.len();
    if total == 0 {
        Seq::empty()
    } else {
        seq![0x41u8] + le24((4 + 24 * total) as u32) + clauses_wire(new) + clauses_wire(
            orig.map_values(|c: ExceptionClause| shift_clause(c, shift)),
        )
    }
}

/// Manages exception-handling clauses for a method being instrumented:
/// the original clauses parsed from the method's extra section and the new
/// clauses the instrumentation template adds.
pub struct ExceptionHandlerManipulator {
    /// Original clauses from the method (shifted on serialization)
    pub original_clauses: Vec<ExceptionClause>,
    /// New clauses added by instrumentation (written first, unshifted)
    pub new_clauses: Vec<ExceptionClause>,
}

/// Append the 24 wire bytes of one fat clause.
fn push_clause_wire(v: &mut Vec<u8>, c: &ExceptionClause)
    ensures
        final(v)@ == old(v)@ + clause_wire(*c),
{
    push_le32(v, c.flags);
    push_le32(v, c.try_offset);
    push_le32(v, c.try_length);
    push_le32(v, c.handler_offset);
    push_le32(v, c.handler_length);
    if c.flags == 1 {
        push_le32(v, c.filter_offset);
    } else {
        push_le32(v, c.class_token);
    }
    assert(final(v)@ =~= old(v)@ + clause_wire(*c));
}

impl ExceptionHandlerManipulator {
    /// Create an empty manipulator: the method had no exception handlers.
    pub fn new() -> (r: Self)
        ensures
            r.original_clauses@ == Seq::<ExceptionClause>::empty(),
            r.new_clauses@ == Seq::<ExceptionClause>::empty(),
    {
        Self { original_clauses: Vec::new(), new_clauses: Vec::new() }
    }

    /// Create a manipulator by parsing existing extra-section bytes, which
    /// must start at the section header.  Succeeds exactly when
    /// [`spec_parse_section`] accepts the bytes, and then holds exactly the
    /// clauses it reads.
    pub fn from_extra_section(bytes: &[u8]) -> (r: Result<Self, IlError>)
        ensures
            r is Ok <==> spec_parse_section(bytes@) is Some,
            r matches Ok(m) ==> Some(m.original_clauses@) == spec_parse_section(bytes@)
                && m.new_clauses@ == Seq::<ExceptionClause>::empty(),
            r matches Err(e) ==> e is InvalidExceptionClause,
    {
        let clauses = match parse_extra_section(bytes) {
            Ok(v) => v,
            Err(e) => {
                return Err(e);
            },
        };
        Ok(Self { original_clauses: clauses, new_clauses: Vec::new() })
    }

    /// Add a new exception clause (from the instrumentation template).
    pub fn add_clause(&mut self, clause: ExceptionClause)
        ensures
            final(self).new_clauses@ == old(self).new_clauses@.push(clause),
            final(self).original_clauses@ == old(self).original_clauses@,
    {
        self.new_clauses.push(clause);
    }

    /// Add several new clauses in order.
    pub fn add_clauses(&mut self, clauses: &[ExceptionClause])
        ensures
            final(self).new_clauses@ == old(self).new_clauses@ + clauses@,
            final(self).original_clauses@ == old(self).original_clauses@,
    {
        let mut i: usize = 0;
        while i < clauses.len()
            invariant
                0 <= i <= clauses@.len(),
                self.new_clauses@ == old(self).new_clauses@ + clauses@.subrange(0, i as int),
                self.original_clauses@ == old(self).original_clauses@,
            decreases clauses@.len() - i,
        {
            self.new_clauses.push(clauses[i]);
            i = i + 1;
            assert(self.new_clauses@ =~= old(self).new_clauses@ + clauses@.subrange(0, i as int));
        }
        assert(self.new_clauses@ =~= old(self).new_clauses@ + clauses@);
    }

    /// Remap every original clause's offsets through an instruction offset
    /// map from ret preprocessing: each of the try start, handler start
    /// and (for filter clauses) filter offset that appears as an old offset
    /// in the map is replaced by its new offset.
    pub fn apply_offset_map(&mut self, offset_map: &[(usize, usize)])
        requires
            forall|k: int|
                0 <= k < offset_map@.len() ==> #[trigger] offset_map@[k].1 <= u32::MAX,
        ensures
            final(self).original_clauses@ == old(self).original_clauses@.map_values(
                |c: ExceptionClause| remap_clause(offset_map@, c),
            ),
            final(self).new_clauses@ == old(self).new_clauses@,
    {
        let n = self.original_clauses.len();
        let mut remapped: Vec<ExceptionClause> = Vec::new();
        let mut i: usize = 0;
        while i < n
            invariant
                0 <= i <= n,
                n == old(self).original_clauses@.len(),
                self.original_clauses@ == old(self).original_clauses@,
                self.new_clauses@ == old(self).new_clauses@,
                forall|k: int|
                    0 <= k < offset_map@.len() ==> #[trigger] offset_map@[k].1 <= u32::MAX,
                remapped@ == old(self).original_clauses@.subrange(0, i as int).map_values(
                    |c: ExceptionClause| remap_clause(offset_map@, c),
                ),
            decreases n - i,
        {
            let c = self.original_clauses[i];
            let new_try = lookup_offset(offset_map, c.try_offset);
            let new_handler = lookup_offset(offset_map, c.handler_offset);
            let new_filter = if c.flags == 1 {
                lookup_offset(offset_map, c.filter_offset)
            } else {
                c.filter_offset
            };
            remapped.push(
                ExceptionClause {
                    try_offset: new_try,
                    handler_offset: new_handler,
                    filter_offset: new_filter,
                    ..c
                },
            );
            i = i + 1;
            assert(remapped@ =~= old(self).original_clauses@.subrange(0, i as int).map_values(
                |c: ExceptionClause| remap_clause(offset_map@, c),
            ));
        }
        assert(old(self).original_clauses@.subrange(0, n as int) =~= old(self).original_clauses@);
        self.original_clauses = remapped;
    }

    /// Build the complete extra-section bytes: the new clauses first,
    /// unshifted, then the original clauses with every offset shifted by
    /// `user_code_offset`, all in fat format behind the section header.
    pub fn get_extra_section_bytes(&self, user_code_offset: u32) -> (r: Vec<u8>)
        requires
            4 + 24 * (self.new_clauses@.len() + self.original_clauses@.len()) <= 0xFF_FFFF,
        ensures
            r@ == spec_section_bytes(self.new_clauses@, self.original_clauses@, user_code_offset),
    {
        let n_new = self.new_clauses.len();
        let n_orig = self.original_clauses.len();
        let total = n_new + n_orig;
        let mut bytes: Vec<u8> = Vec::new();
        if total == 0 {
            return bytes;
        }

        let section_size = EXTRA_SECTION_HEADER_SIZE + total * FAT_CLAUSE_SIZE;
        assert((COR_ILEXCEPTION_SECT_EHTABLE | COR_ILEXCEPTION_SECT_FATFORMAT) == 0x41u8)
            by (bit_vector);
        bytes.push(COR_ILEXCEPTION_SECT_EHTABLE | COR_ILEXCEPTION_SECT_FATFORMAT);
        push_le24(&mut bytes, section_size as u32);
        assert(bytes@ =~= seq![0x41u8] + le24((4 + 24 * (self.new_clauses@.len()
            + self.original_clauses@.len())) as u32));

        let ghost header = bytes@;

        let mut i: usize = 0;
        while i < n_new
            invariant
                0 <= i <= n_new,
                n_new == self.new_clauses@.len(),
                bytes@ == header + clauses_wire(self.new_clauses@.subrange(0, i as int)),
            decreases n_new - i,
        {
            push_clause_wire(&mut bytes, &self.new_clauses[i]);
            i = i + 1;
            proof {
                let prefix = self.new_clauses@.subrange(0, i as int);
                assert(prefix.drop_last() =~= self.new_clauses@.subrange(0, i - 1));
                assert(bytes@ =~= header + clauses_wire(prefix));
            }
        }
        assert(self.new_clauses@.subrange(0, n_new as int) =~= self.new_clauses@);

        let ghost with_new = bytes@;
        let ghost shifted = self.original_clauses@.map_values(
            |c: ExceptionClause| shift_clause(c, user_code_offset),
        );

        let mut j: usize = 0;
        while j < n_orig
            invariant
                0 <= j <= n_orig,
                n_orig == self.original_clauses@.len(),
                shifted == self.original_clauses@.map_values(
                    |c: ExceptionClause| shift_clause(c, user_code_offset),
                ),
                bytes@ == with_new + clauses_wire(shifted.subrange(0, j as int)),
            decreases n_orig - j,
        {
            let c = self.original_clauses[j];
            let s = ExceptionClause {
                try_offset: ((c.try_offset as u64 + user_code_offset as u64) % 0x1_0000_0000)
                    as u32,
                handler_offset: ((c.handler_offset as u64 + user_code_offset as u64)
                    % 0x1_0000_0000) as u32,
                filter_offset: if c.flags == 1 {
                    ((c.filter_offset as u64 + user_code_offset as u64) % 0x1_0000_0000) as u32
                } else {
                    c.filter_offset
                },
                ..c
            };
            assert(s == shift_clause(c, user_code_offset));
            push_clause_wire(&mut bytes, &s);
            j = j + 1;
            proof {
                let prefix = shifted.subrange(0, j as int);
                assert(prefix.drop_last() =~= shifted.subrange(0, j - 1));
                assert(prefix.last() == shift_clause(
                    self.original_clauses@[j - 1],
                    user_code_offset,
                ));
                assert(bytes@ =~= with_new + clauses_wire(prefix));
            }
        }
        assert(shifted.subrange(0, n_orig as int) =~= shifted);

        bytes
    }

    /// The total number of clauses (original plus new).
    pub fn clause_count(&self) -> (r: usize)
        requires
            self.original_clauses@.len() + self.new_clauses@.len() <= usize::MAX,
        ensures
            r == self.original_clauses@.len() + self.new_clauses@.len(),
    {
        self.original_clauses.len() + self.new_clauses.len()
    }
}

/// The new offset the map assigns to `off`, or `off` when the map has no
/// entry for it.
fn lookup_offset(offset_map: &[(usize, usize)], off: u32) -> (r: u32)
    requires
        forall|k: int| 0 <= k < offset_map@.len() ==> #[trigger] offset_map@[k].1 <= u32::MAX,
    ensures
        r == remap_offset(offset_map@, off),
{
    let mut i: usize = 0;
    assert(offset_map@.skip(0) =~= offset_map@);
    while i < offset_map.len()
        invariant
            0 <= i <= offset_map@.len(),
            forall|k: int| 0 <= k < offset_map@.len() ==> #[trigger] offset_map@[k].1 <= u32::MAX,
            remap_offset(offset_map@, off) == remap_offset(offset_map@.skip(i as int), off),
        decreases offset_map@.len() - i,
    {
        let (old_off, new_off) = offset_map[i];
        proof {
            assert(offset_map@.skip(i as int)[0] == offset_map@[i as int]);
            assert(offset_map@.skip(i as int).skip(1) =~= offset_map@.skip(i + 1));
        }
        if old_off == off as usize {
            return new_off as u32;
        }
        i = i + 1;
    }
    proof {
        assert(offset_map@.skip(offset_map@.len() as int) =~= Seq::<(usize, usize)>::empty());
    }
    off
}

/// Parse an extra section into exception clauses, per
/// [`spec_parse_section`].
fn parse_extra_section(bytes: &[u8]) -> (r: Result<Vec<ExceptionClause>, IlError>)
    ensures
        r is Ok <==> spec_parse_section(bytes@) is Some,
        r matches Ok(v) ==> Some(v@) == spec_parse_section(bytes@),
        r matches Err(e) ==> e is InvalidExceptionClause,
{
    if bytes.len() < EXTRA_SECTION_HEADER_SIZE {
        return Err(
            IlError::InvalidExceptionClause(
                String::from_str("extra section too short for header"),
            ),
        );
    }

    let flags = bytes[0];

    if flags % 2 == 0 {
        return Err(
            IlError::InvalidExceptionClause(String::from_str("extra section is not an EH table")),
        );
    }

    if (flags / 0x40) % 2 == 1 {
        let size = read_u24_le(bytes, 1);
        if size < 4 {
            return Err(
                IlError::InvalidExceptionClause(String::from_str("fat section size too small")),
            );
        }
        let count = ((size - 4) / 24) as usize;
        if count > (bytes.len() - 4) / 24 {
            return Err(
                IlError::InvalidExceptionClause(
                    String::from_str("fat clause extends beyond extra section"),
                ),
            );
        }
        assert(4 + count * 24 <= bytes@.len());
        proof {
            crate::scanner::lemma_code_len_bound(bytes);
        }

        let mut clauses: Vec<ExceptionClause> = Vec::new();
        let mut i: usize = 0;
        while i < count
            invariant
                0 <= i <= count,
                4 + count * 24 <= bytes@.len(),
                bytes@.len() <= usize::MAX,
                clauses@.len() == i,
                forall|k: int|
                    0 <= k < i ==> #[trigger] clauses@[k] == spec_parse_fat_clause(
                        bytes@,
                        4 + k * 24,
                    ),
            decreases count - i,
        {
            let off = EXTRA_SECTION_HEADER_SIZE + i * FAT_CLAUSE_SIZE;
            let flags_w = read_u32_le(bytes, off);
            let word = read_u32_le(bytes, off + 20);
            clauses.push(
                ExceptionClause {
                    flags: flags_w,
                    try_offset: read_u32_le(bytes, off + 4),
                    try_length: read_u32_le(bytes, off + 8),
                    handler_offset: read_u32_le(bytes, off + 12),
                    handler_length: read_u32_le(bytes, off + 16),
                    class_token: if flags_w == 1 {
                        0
                    } else {
                        word
                    },
                    filter_offset: if flags_w == 1 {
                        word
                    } else {
                        0
                    },
                },
            );
            i = i + 1;
        }
        proof {
            let parsed = spec_parse_section(bytes@).unwrap();
            assert(clauses@ =~= parsed);
        }
        Ok(clauses)
    } else {
        let size = bytes[1] as usize;
        if size < 4 {
            return Err(
                IlError::InvalidExceptionClause(String::from_str("small section size too small")),
            );
        }
        let count = (size - 4) / 12;
        if count > (bytes.len() - 4) / 12 {
            return Err(
                IlError::InvalidExceptionClause(
                    String::from_str("small clause extends beyond extra section"),
                ),
            );
        }
        assert(4 + count * 12 <= bytes@.len());
        proof {
            crate::scanner::lemma_code_len_bound(bytes);
        }

        let mut clauses: Vec<ExceptionClause> = Vec::new();
        let mut i: usize = 0;
        while i < count
            invariant
                0 <= i <= count,
                4 + count * 12 <= bytes@.len(),
                bytes@.len() <= usize::MAX,
                clauses@.len() == i,
                forall|k: int|
                    0 <= k < i ==> #[trigger] clauses@[k] == spec_parse_small_clause(
                        bytes@,
                        4 + k * 12,
                    ),
            decreases count - i,
        {
            let off = EXTRA_SECTION_HEADER_SIZE + i * SMALL_CLAUSE_SIZE;
            let flags_w = read_u16_le(bytes, off) as u32;
            let word = read_u32_le(bytes, off + 8);
            clauses.push(
                ExceptionClause {
                    flags: flags_w,
                    try_offset: read_u16_le(bytes, off + 2) as u32,
                    try_length: bytes[off + 4] as u32,
                    handler_offset: read_u16_le(bytes, off + 5) as u32,
                    handler_length: bytes[off + 7] as u32,
                    class_token: if flags_w == 1 {
                        0
                    } else {
                        word
                    },
                    filter_offset: if flags_w == 1 {
                        word
                    } else {
                        0
                    },
                },
            );
            i = i + 1;
        }
        proof {
            let parsed = spec_parse_section(bytes@).unwrap();
            assert(clauses@ =~= parsed);
        }
        Ok(clauses)
    }
}

/// Concatenated wire images measure 24 bytes per clause.
pub proof fn lemma_clauses_wire_len(cs: Seq<ExceptionClause>)
    ensures
        clauses_wire(cs).len() == 24 * cs.len(),
    decreases cs.len(),
{
    if cs.len() > 0 {
        lemma_clauses_wire_len(cs.drop_last());
    }
}

/// The wire image of a clause list concatenates per clause.
proof fn lemma_clauses_wire_concat(a: Seq<ExceptionClause>, b: Seq<ExceptionClause>)
    ensures
        clauses_wire(a + b) == clauses_wire(a) + clauses_wire(b),
    decreases b.len(),
{
    if b.len() == 0 {
        assert(a + b =~= a);
        assert(clauses_wire(a) + clauses_wire(b) =~= clauses_wire(a));
    } else {
        lemma_clauses_wire_concat(a, b.drop_last());
        assert((a + b).drop_last() =~= a + b.drop_last());
        assert((a + b).last() == b.last());
        assert(clauses_wire(a + b) =~= clauses_wire(a) + clauses_wire(b));
    }
}

/// The bytes of clause `i` within a concatenated wire image.
proof fn lemma_clauses_wire_index(cs: Seq<ExceptionClause>, i: int)
    requires
        0 <= i < cs.len(),
    ensures
        clauses_wire(cs).subrange(24 * i, 24 * i + 24) == clause_wire(cs[i]),
    decreases cs.len(),
{
    lemma_clauses_wire_len(cs);
    lemma_clauses_wire_len(cs.drop_last());
    if i == cs.len() - 1 {
        assert(clauses_wire(cs).subrange(24 * i, 24 * i + 24) =~= clause_wire(cs.last()));
    } else {
        lemma_clauses_wire_index(cs.drop_last(), i);
        assert(clauses_wire(cs).subrange(24 * i, 24 * i + 24) =~= clauses_wire(
            cs.drop_last(),
        ).subrange(24 * i, 24 * i + 24));
    }
}

/// Parsing the 24 wire bytes of a clause restores it, with the unselected
/// side of the multiplexed word zeroed.
proof fn lemma_parse_clause_wire(s: Seq<u8>, off: int, c: ExceptionClause)
    requires
        0 <= off,
        off + 24 <= s.len(),
        s.subrange(off, off + 24) == clause_wire(c),
    ensures
        spec_parse_fat_clause(s, off) == normalize_clause(c),
{
    let w = clause_wire(c);
    assert forall|j: int| 0 <= j < 24 implies s[off + j] == #[trigger] w[j] by {
        assert(s.subrange(off, off + 24)[j] == s[off + j]);
    }
    crate::le::lemma_le32_round_trip(c.flags);
    crate::le::lemma_le32_round_trip(c.try_offset);
    crate::le::lemma_le32_round_trip(c.try_length);
    crate::le::lemma_le32_round_trip(c.handler_offset);
    crate::le::lemma_le32_round_trip(c.handler_length);
    crate::le::lemma_le32_round_trip(c.class_token);
    crate::le::lemma_le32_round_trip(c.filter_offset);
    assert(w[0] == le32(c.flags)[0] && w[1] == le32(c.flags)[1] && w[2] == le32(c.flags)[2] && w[3]
        == le32(c.flags)[3]);
    assert(w[4] == le32(c.try_offset)[0] && w[5] == le32(c.try_offset)[1] && w[6] == le32(
        c.try_offset,
    )[2] && w[7] == le32(c.try_offset)[3]);
    assert(w[8] == le32(c.try_length)[0] && w[9] == le32(c.try_length)[1] && w[10] == le32(
        c.try_length,
    )[2] && w[11] == le32(c.try_length)[3]);
    assert(w[12] == le32(c.handler_offset)[0] && w[13] == le32(c.handler_offset)[1] && w[14]
        == le32(c.handler_offset)[2] && w[15] == le32(c.handler_offset)[3]);
    assert(w[16] == le32(c.handler_length)[0] && w[17] == le32(c.handler_length)[1] && w[18]
        == le32(c.handler_length)[2] && w[19] == le32(c.handler_length)[3]);
    let word = if c.flags == 1 {
        c.filter_offset
    } else {
        c.class_token
    };
    assert(w[20] == le32(word)[0] && w[21] == le32(word)[1] && w[22] == le32(word)[2] && w[23]
        == le32(word)[3]);
}

/// The exception-table round trip: parsing a serialized section yields the
/// new clauses, then the originals with every offset shifted by the user
/// code offset (each normalized so the unselected side of the multiplexed
/// word reads as zero).  In particular, every parsed original clause's
/// offsets equal their pre-shift values plus the shift.
#[verifier::rlimit(100)]
#[verifier::spinoff_prover]
pub proof fn lemma_section_round_trip(
    new: Seq<ExceptionClause>,
    orig: Seq<ExceptionClause>,
    shift: u32,
)
    requires
        new.len() + orig.len() >= 1,
        4 + 24 * (new.len() + orig.len()) <= 0xFF_FFFF,
    ensures
        spec_parse_section(spec_section_bytes(new, orig, shift)) == Some(
            (new + orig.map_values(|c: ExceptionClause| shift_clause(c, shift))).map_values(
                |c: ExceptionClause| normalize_clause(c),
            ),
        ),
{
    let shifted = orig.map_values(|c: ExceptionClause| shift_clause(c, shift));
    let combined = new + shifted;
    let total = new.len() + orig.len();
    let s = spec_section_bytes(new, orig, shift);
    let size: u32 = (4 + 24 * total) as u32;

    lemma_clauses_wire_len(new);
    lemma_clauses_wire_len(shifted);
    lemma_clauses_wire_concat(new, shifted);
    assert(s =~= seq![0x41u8] + le24(size) + clauses_wire(combined));
    assert(s.len() == 4 + 24 * total);

    assert(s[0] == 0x41);
    assert(s[1] == le24(size)[0] && s[2] == le24(size)[1] && s[3] == le24(size)[2]);
    lemma_le24_round_trip(size);
    assert(u24_le(s[1], s[2], s[3]) == size);
    let count = (size - 4) as int / 24;
    assert(count == total);

    let parsed = spec_parse_section(s).unwrap();
    assert(parsed.len() == total);
    let expected = combined.map_values(|c: ExceptionClause| normalize_clause(c));
    assert forall|i: int| 0 <= i < total implies #[trigger] parsed[i] == expected[i] by {
        lemma_clauses_wire_index(combined, i);
        lemma_clauses_wire_len(combined);
        assert(s.subrange(4 + 24 * i, 4 + 24 * i + 24) =~= clauses_wire(combined).subrange(
            24 * i,
            24 * i + 24,
        ));
        lemma_parse_clause_wire(s, 4 + 24 * i, combined[i]);
    }
    assert(parsed =~= expected);
}

} // verus!
