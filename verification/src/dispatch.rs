//! Opcode-based decode routing: a table, built once, that maps 7-bit opcode
//! values to instruction formats, and the dispatcher that extracts a word's
//! opcode and hands the word to the matching format's decoder.

use vstd::prelude::*;

verus! {

use crate::formats::{
    Instruction,
    RInstruction,
    IInstruction,
    SInstruction,
    BInstruction,
    UInstruction,
    JInstruction,
};

/// Which instruction format an opcode selects.
#[derive(Clone, Copy, PartialEq, Eq, Structural, Debug)]
pub enum FormatTag {
    R,
    I,
    S,
    B,
    U,
    J,
}

/// The error raised at table-construction time when two formats claim the
/// same opcode value.
#[derive(Clone, Copy, PartialEq, Eq, Structural, Debug)]
pub struct DuplicateOpcodeError {
    /// The opcode value that was already registered.
    pub opcode: u8,
}

/// The outcome of dispatching one word: a tagged decoded instruction, or
/// the explicit unrecognized-opcode outcome, which is ordinary control flow
/// rather than an error.
pub enum DecodedInstruction {
    R(RInstruction),
    I(IInstruction),
    S(SInstruction),
    B(BInstruction),
    U(UInstruction),
    J(JInstruction),
    /// No registered opcode matches the word's low seven bits.
    Unrecognized,
}

/// The first entry at or after `i` whose opcode equals `opcode`, if any.
pub open spec fn lookup_from(entries: Seq<(u8, FormatTag)>, i: int, opcode: u8) -> Option<
    FormatTag,
>
    decreases entries.len() - i,
{
    if i < 0 || i >= entries.len() {
        None
    } else if entries[i].0 == opcode {
        Some(entries[i].1)
    } else {
        lookup_from(entries, i + 1, opcode)
    }
}

/// A registered entry is found.
proof fn lemma_lookup_from_finds(entries: Seq<(u8, FormatTag)>, i: int, k: int, opcode: u8)
    requires
        0 <= i <= k < entries.len(),
        entries[k].0 == opcode,
    ensures
        lookup_from(entries, i, opcode) is Some,
    decreases k - i,
{
    if entries[i].0 != opcode {
        lemma_lookup_from_finds(entries, i + 1, k, opcode);
    }
}

/// An opcode that no entry at or after `i` carries is not found.
proof fn lemma_lookup_from_none(entries: Seq<(u8, FormatTag)>, i: int, opcode: u8)
    requires
        0 <= i,
        forall|t: int| i <= t < entries.len() ==> entries[t].0 != opcode,
    ensures
        lookup_from(entries, i, opcode) is None,
    decreases entries.len() - i,
{
    if i < entries.len() {
        lemma_lookup_from_none(entries, i + 1, opcode);
    }
}

/// Appending an entry leaves every already-resolvable lookup unchanged and
/// resolves exactly the new entry's opcode among the rest.
proof fn lemma_lookup_from_push(
    entries: Seq<(u8, FormatTag)>,
    e: (u8, FormatTag),
    i: int,
    opcode: u8,
)
    requires
        0 <= i <= entries.len(),
    ensures
        lookup_from(entries.push(e), i, opcode) == if lookup_from(entries, i, opcode) is Some {
            lookup_from(entries, i, opcode)
        } else {
            if e.0 == opcode {
                Some(e.1)
            } else {
                None
            }
        },
    decreases entries.len() - i,
{
    if i < entries.len() {
        assert(entries.push(e)[i] == entries[i]);
        lemma_lookup_from_push(entries, e, i + 1, opcode);
    } else {
        assert(entries.push(e)[i] == e);
        assert(lookup_from(entries, i, opcode) is None);
        assert(lookup_from(entries.push(e), i + 1, opcode) is None);
    }
}

/// The static table mapping opcode values to formats. Built once by
/// `register_opcode` calls, immutable and read-only thereafter; opcodes in
/// the table are unique and fit the word's 7-bit opcode field.
pub struct OpcodeTable {
    entries: Vec<(u8, FormatTag)>,
}

impl OpcodeTable {
    /// The registered entries, in registration order.
    pub closed spec fn entries_seq(&self) -> Seq<(u8, FormatTag)> {
        self.entries@
    }

    /// The format registered for `opcode`, if any.
    pub open spec fn spec_lookup(&self, opcode: u8) -> Option<FormatTag> {
        lookup_from(self.entries_seq(), 0, opcode)
    }

    /// Every registered opcode is unique and fits in seven bits.
    pub open spec fn wf(&self) -> bool {
        &&& forall|i: int, j: int|
            0 <= i < j < self.entries_seq().len() ==> self.entries_seq()[i].0
                != self.entries_seq()[j].0
        &&& forall|i: int| 0 <= i < self.entries_seq().len() ==> self.entries_seq()[i].0 < 128
    }

    /// An empty table: no opcode is registered.
    pub fn new() -> (t: OpcodeTable)
        ensures
            t.wf(),
            forall|opcode: u8| t.spec_lookup(opcode) is None,
    {
        let t = OpcodeTable { entries: Vec::new() };
        proof {
            assert forall|opcode: u8| t.spec_lookup(opcode) is None by {
                assert(lookup_from(t.entries_seq(), 0, opcode) is None);
            }
        }
        t
    }

    /// Register `value` as `tag`'s opcode. Fails with `DuplicateOpcodeError`
    /// exactly when `value` is already registered, leaving the table
    /// unchanged; on success only `value` resolves differently than before.
    pub fn register_opcode(&mut self, value: u8, tag: FormatTag) -> (r: Result<
        (),
        DuplicateOpcodeError,
    >)
        requires
            old(self).wf(),
            value < 128,
        ensures
            final(self).wf(),
            match r {
                Ok(()) => {
                    &&& old(self).spec_lookup(value) is None
                    &&& final(self).spec_lookup(value) == Some(tag)
                    &&& forall|opcode: u8|
                        opcode != value ==> final(self).spec_lookup(opcode) == old(
                            self,
                        ).spec_lookup(opcode)
                },
                Err(e) => {
                    &&& e.opcode == value
                    &&& old(self).spec_lookup(value) is Some
                    &&& *final(self) == *old(self)
                },
            },
    {
        let ghost entries = self.entries@;
        let n = self.entries.len();
        let mut j: usize = 0;
        while j < n
            invariant
                old(self).wf(),
                n == entries.len(),
                self.entries@ == entries,
                *self == *old(self),
                j <= n,
                forall|t: int| 0 <= t < j ==> entries[t].0 != value,
            decreases n - j,
        {
            if self.entries[j].0 == value {
                proof {
                    lemma_lookup_from_finds(entries, 0, j as int, value);
                }
                return Err(DuplicateOpcodeError { opcode: value });
            }
            j += 1;
        }
        proof {
            lemma_lookup_from_none(entries, 0, value);
            lemma_lookup_from_push(entries, (value, tag), 0, value);
            assert forall|opcode: u8|
                opcode != value implies lookup_from(entries.push((value, tag)), 0, opcode)
                == lookup_from(entries, 0, opcode) by {
                lemma_lookup_from_push(entries, (value, tag), 0, opcode);
            }
        }
        self.entries.push((value, tag));
        Ok(())
    }

    /// Look `opcode` up in the table.
    pub fn lookup(&self, opcode: u8) -> (r: Option<FormatTag>)
        ensures
            r == self.spec_lookup(opcode),
    {
        let ghost entries = self.entries@;
        let n = self.entries.len();
        let mut j: usize = 0;
        while j < n
            invariant
                n == entries.len(),
                self.entries@ == entries,
                j <= n,
                lookup_from(entries, 0, opcode) == lookup_from(entries, j as int, opcode),
            decreases n - j,
        {
            let e = self.entries[j];
            if e.0 == opcode {
                return Some(e.1);
            }
            j += 1;
        }
        None
    }
}

/// Route a raw word to its format's decoder by the opcode in the word's low
/// seven bits. Total: a word whose opcode is not registered yields the
/// `Unrecognized` outcome, never a fault.
pub fn dispatch(word: u32, table: &OpcodeTable) -> (r: DecodedInstruction)
    ensures
        ({
            let opcode = (word & 0x7f) as u8;
            match table.spec_lookup(opcode) {
                None => r is Unrecognized,
                Some(FormatTag::R) => r == DecodedInstruction::R(RInstruction::decoded(word)),
                Some(FormatTag::I) => r == DecodedInstruction::I(IInstruction::decoded(word)),
                Some(FormatTag::S) => r == DecodedInstruction::S(SInstruction::decoded(word)),
                Some(FormatTag::B) => r == DecodedInstruction::B(BInstruction::decoded(word)),
                Some(FormatTag::U) => r == DecodedInstruction::U(UInstruction::decoded(word)),
                Some(FormatTag::J) => r == DecodedInstruction::J(JInstruction::decoded(word)),
            }
        }),
{
    proof {
        assert((word & 0x7f) < 128) by (bit_vector);
    }
    let opcode: u8 = (word & 0x7f) as u8;
    match table.lookup(opcode) {
        None => DecodedInstruction::Unrecognized,
        Some(FormatTag::R) => DecodedInstruction::R(RInstruction::from_u32(word)),
        Some(FormatTag::I) => DecodedInstruction::I(IInstruction::from_u32(word)),
        Some(FormatTag::S) => DecodedInstruction::S(SInstruction::from_u32(word)),
        Some(FormatTag::B) => DecodedInstruction::B(BInstruction::from_u32(word)),
        Some(FormatTag::U) => DecodedInstruction::U(UInstruction::from_u32(word)),
        Some(FormatTag::J) => DecodedInstruction::J(JInstruction::from_u32(word)),
    }
}

} // verus!
