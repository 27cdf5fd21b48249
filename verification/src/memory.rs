//! The memory-counters record: the key-value block of memory totals and
//! pools, each an unsigned integer with a unit suffix that the integer
//! rule discards.

use vstd::prelude::*;

use crate::deserialize::{
    decode_record, spec_decode_record, spec_slot_u32, FieldSpec, PrimKind, Schema, SpecField,
    lemma_decode_record_len,
};
use crate::DecodeError;

verus! {

/// The memory counters of one snapshot, in kibibytes.
#[derive(Debug, Clone, PartialEq)]
pub struct Memory {
    pub total: u32,
    pub free: u32,
    pub available: u32,
    pub buffers: u32,
    pub cached: u32,
    pub swap_cached: u32,
    pub active: u32,
    pub inactive: u32,
    pub active_anon: u32,
    pub inactive_anon: u32,
    pub active_file: u32,
    pub inactive_file: u32,
    pub unevictable: u32,
    pub mlocked: u32,
    pub swap_total: u32,
    pub swap_free: u32,
    pub zswap: u32,
    pub zsapped: u32,
    pub dirty: u32,
    pub writeback: u32,
    pub anon_pages: u32,
    pub mapped: u32,
    pub shmem: u32,
}

/// The schema of the memory record: every field a required unsigned
/// integer, read from its capitalized source key.
pub open spec fn spec_memory_fields() -> Seq<SpecField> {
    seq![
        SpecField { alias: "MemTotal"@, kind: PrimKind::Unsigned, optional: false },
        SpecField { alias: "MemFree"@, kind: PrimKind::Unsigned, optional: false },
        SpecField { alias: "MemAvailable"@, kind: PrimKind::Unsigned, optional: false },
        SpecField { alias: "Buffers"@, kind: PrimKind::Unsigned, optional: false },
        SpecField { alias: "Cached"@, kind: PrimKind::Unsigned, optional: false },
        SpecField { alias: "SwapCached"@, kind: PrimKind::Unsigned, optional: false },
        SpecField { alias: "Active"@, kind: PrimKind::Unsigned, optional: false },
        SpecField { alias: "Inactive"@, kind: PrimKind::Unsigned, optional: false },
        SpecField { alias: "Active(anon)"@, kind: PrimKind::Unsigned, optional: false },
        SpecField { alias: "Inactive(anon)"@, kind: PrimKind::Unsigned, optional: false },
        SpecField { alias: "Active(file)"@, kind: PrimKind::Unsigned, optional: false },
        SpecField { alias: "Inactive(file)"@, kind: PrimKind::Unsigned, optional: false },
        SpecField { alias: "Unevictable"@, kind: PrimKind::Unsigned, optional: false },
        SpecField { alias: "Mlocked"@, kind: PrimKind::Unsigned, optional: false },
        SpecField { alias: "SwapTotal"@, kind: PrimKind::Unsigned, optional: false },
        SpecField { alias: "SwapFree"@, kind: PrimKind::Unsigned, optional: false },
        SpecField { alias: "Zswap"@, kind: PrimKind::Unsigned, optional: false },
        SpecField { alias: "Zswapped"@, kind: PrimKind::Unsigned, optional: false },
        SpecField { alias: "Dirty"@, kind: PrimKind::Unsigned, optional: false },
        SpecField { alias: "Writeback"@, kind: PrimKind::Unsigned, optional: false },
        SpecField { alias: "AnonPages"@, kind: PrimKind::Unsigned, optional: false },
        SpecField { alias: "Mapped"@, kind: PrimKind::Unsigned, optional: false },
        SpecField { alias: "Shmem"@, kind: PrimKind::Unsigned, optional: false },
    ]
}

impl Memory {
    /// Build the memory record's schema.
    #[verifier::rlimit(100)]
    pub fn schema() -> (r: Schema)
        ensures
            r@ == spec_memory_fields(),
    {
        let mut fields: Vec<FieldSpec> = Vec::new();
    fields.push(FieldSpec::field_as("total", "MemTotal", PrimKind::Unsigned));
    fields.push(FieldSpec::field_as("free", "MemFree", PrimKind::Unsigned));
    fields.push(FieldSpec::field_as("available", "MemAvailable", PrimKind::Unsigned));
    fields.push(FieldSpec::field_as("buffers", "Buffers", PrimKind::Unsigned));
    fields.push(FieldSpec::field_as("cached", "Cached", PrimKind::Unsigned));
    fields.push(FieldSpec::field_as("swap_cached", "SwapCached", PrimKind::Unsigned));
    fields.push(FieldSpec::field_as("active", "Active", PrimKind::Unsigned));
    fields.push(FieldSpec::field_as("inactive", "Inactive", PrimKind::Unsigned));
    fields.push(FieldSpec::field_as("active_anon", "Active(anon)", PrimKind::Unsigned));
    fields.push(FieldSpec::field_as("inactive_anon", "Inactive(anon)", PrimKind::Unsigned));
    fields.push(FieldSpec::field_as("active_file", "Active(file)", PrimKind::Unsigned));
    fields.push(FieldSpec::field_as("inactive_file", "Inactive(file)", PrimKind::Unsigned));
    fields.push(FieldSpec::field_as("unevictable", "Unevictable", PrimKind::Unsigned));
    fields.push(FieldSpec::field_as("mlocked", "Mlocked", PrimKind::Unsigned));
    fields.push(FieldSpec::field_as("swap_total", "SwapTotal", PrimKind::Unsigned));
    fields.push(FieldSpec::field_as("swap_free", "SwapFree", PrimKind::Unsigned));
    fields.push(FieldSpec::field_as("zswap", "Zswap", PrimKind::Unsigned));
    fields.push(FieldSpec::field_as("zsapped", "Zswapped", PrimKind::Unsigned));
    fields.push(FieldSpec::field_as("dirty", "Dirty", PrimKind::Unsigned));
    fields.push(FieldSpec::field_as("writeback", "Writeback", PrimKind::Unsigned));
    fields.push(FieldSpec::field_as("anon_pages", "AnonPages", PrimKind::Unsigned));
    fields.push(FieldSpec::field_as("mapped", "Mapped", PrimKind::Unsigned));
    fields.push(FieldSpec::field_as("shmem", "Shmem", PrimKind::Unsigned));
        let r = Schema { fields };
        proof {
            assert(r@ =~= spec_memory_fields());
        }
        r
    }

    /// Decode one memory record from a key-value block. Each counter must
    /// be present and fit 32 bits; unknown keys are ignored.
    #[verifier::rlimit(100)]
    pub fn from_text(input: &str) -> (r: Result<Memory, DecodeError>)
        ensures
            match r {
                Ok(m) => {
                    let d = spec_decode_record(input@, spec_memory_fields());
                    &&& d matches Ok(vals)
                    &&& d matches Ok(vals) ==> {
                        &&& spec_slot_u32(vals, 0) == Result::<u32, DecodeError>::Ok(m.total)
                        &&& spec_slot_u32(vals, 1) == Result::<u32, DecodeError>::Ok(m.free)
                        &&& spec_slot_u32(vals, 2) == Result::<u32, DecodeError>::Ok(m.available)
                        &&& spec_slot_u32(vals, 3) == Result::<u32, DecodeError>::Ok(m.buffers)
                        &&& spec_slot_u32(vals, 4) == Result::<u32, DecodeError>::Ok(m.cached)
                        &&& spec_slot_u32(vals, 5) == Result::<u32, DecodeError>::Ok(m.swap_cached)
                        &&& spec_slot_u32(vals, 6) == Result::<u32, DecodeError>::Ok(m.active)
                        &&& spec_slot_u32(vals, 7) == Result::<u32, DecodeError>::Ok(m.inactive)
                        &&& spec_slot_u32(vals, 8) == Result::<u32, DecodeError>::Ok(m.active_anon)
                        &&& spec_slot_u32(vals, 9) == Result::<u32, DecodeError>::Ok(m.inactive_anon)
                        &&& spec_slot_u32(vals, 10) == Result::<u32, DecodeError>::Ok(m.active_file)
                        &&& spec_slot_u32(vals, 11) == Result::<u32, DecodeError>::Ok(m.inactive_file)
                        &&& spec_slot_u32(vals, 12) == Result::<u32, DecodeError>::Ok(m.unevictable)
                        &&& spec_slot_u32(vals, 13) == Result::<u32, DecodeError>::Ok(m.mlocked)
                        &&& spec_slot_u32(vals, 14) == Result::<u32, DecodeError>::Ok(m.swap_total)
                        &&& spec_slot_u32(vals, 15) == Result::<u32, DecodeError>::Ok(m.swap_free)
                        &&& spec_slot_u32(vals, 16) == Result::<u32, DecodeError>::Ok(m.zswap)
                        &&& spec_slot_u32(vals, 17) == Result::<u32, DecodeError>::Ok(m.zsapped)
                        &&& spec_slot_u32(vals, 18) == Result::<u32, DecodeError>::Ok(m.dirty)
                        &&& spec_slot_u32(vals, 19) == Result::<u32, DecodeError>::Ok(m.writeback)
                        &&& spec_slot_u32(vals, 20) == Result::<u32, DecodeError>::Ok(m.anon_pages)
                        &&& spec_slot_u32(vals, 21) == Result::<u32, DecodeError>::Ok(m.mapped)
                        &&& spec_slot_u32(vals, 22) == Result::<u32, DecodeError>::Ok(m.shmem)
                    }
                },
                Err(e) => match spec_decode_record(input@, spec_memory_fields()) {
                    Err(de) => e == de,
                    Ok(vals) => (e == DecodeError::ExpectedInteger || e == DecodeError::Eof) && !({
                        &&& spec_slot_u32(vals, 0) is Ok
                        &&& spec_slot_u32(vals, 1) is Ok
                        &&& spec_slot_u32(vals, 2) is Ok
                        &&& spec_slot_u32(vals, 3) is Ok
                        &&& spec_slot_u32(vals, 4) is Ok
                        &&& spec_slot_u32(vals, 5) is Ok
                        &&& spec_slot_u32(vals, 6) is Ok
                        &&& spec_slot_u32(vals, 7) is Ok
                        &&& spec_slot_u32(vals, 8) is Ok
                        &&& spec_slot_u32(vals, 9) is Ok
                        &&& spec_slot_u32(vals, 10) is Ok
                        &&& spec_slot_u32(vals, 11) is Ok
                        &&& spec_slot_u32(vals, 12) is Ok
                        &&& spec_slot_u32(vals, 13) is Ok
                        &&& spec_slot_u32(vals, 14) is Ok
                        &&& spec_slot_u32(vals, 15) is Ok
                        &&& spec_slot_u32(vals, 16) is Ok
                        &&& spec_slot_u32(vals, 17) is Ok
                        &&& spec_slot_u32(vals, 18) is Ok
                        &&& spec_slot_u32(vals, 19) is Ok
                        &&& spec_slot_u32(vals, 20) is Ok
                        &&& spec_slot_u32(vals, 21) is Ok
                        &&& spec_slot_u32(vals, 22) is Ok
                    }),
                },
            },
    {
        let schema = Memory::schema();
        match decode_record(input, &schema) {
            Err(e) => Err(e),
            Ok(rec) => {
                proof {
                    lemma_decode_record_len(input@, spec_memory_fields());
                }
            let total = match rec.get_u32(0) {
                Ok(v) => v,
                Err(e) => return Err(e),
            };
            let free = match rec.get_u32(1) {
                Ok(v) => v,
                Err(e) => return Err(e),
            };
            let available = match rec.get_u32(2) {
                Ok(v) => v,
                Err(e) => return Err(e),
            };
            let buffers = match rec.get_u32(3) {
                Ok(v) => v,
                Err(e) => return Err(e),
            };
            let cached = match rec.get_u32(4) {
                Ok(v) => v,
                Err(e) => return Err(e),
            };
            let swap_cached = match rec.get_u32(5) {
                Ok(v) => v,
                Err(e) => return Err(e),
            };
            let active = match rec.get_u32(6) {
                Ok(v) => v,
                Err(e) => return Err(e),
            };
            let inactive = match rec.get_u32(7) {
                Ok(v) => v,
                Err(e) => return Err(e),
            };
            let active_anon = match rec.get_u32(8) {
                Ok(v) => v,
                Err(e) => return Err(e),
            };
            let inactive_anon = match rec.get_u32(9) {
                Ok(v) => v,
                Err(e) => return Err(e),
            };
            let active_file = match rec.get_u32(10) {
                Ok(v) => v,
                Err(e) => return Err(e),
            };
            let inactive_file = match rec.get_u32(11) {
                Ok(v) => v,
                Err(e) => return Err(e),
            };
            let unevictable = match rec.get_u32(12) {
                Ok(v) => v,
                Err(e) => return Err(e),
            };
            let mlocked = match rec.get_u32(13) {
                Ok(v) => v,
                Err(e) => return Err(e),
            };
            let swap_total = match rec.get_u32(14) {
                Ok(v) => v,
                Err(e) => return Err(e),
            };
            let swap_free = match rec.get_u32(15) {
                Ok(v) => v,
                Err(e) => return Err(e),
            };
            let zswap = match rec.get_u32(16) {
                Ok(v) => v,
                Err(e) => return Err(e),
            };
            let zsapped = match rec.get_u32(17) {
                Ok(v) => v,
                Err(e) => return Err(e),
            };
            let dirty = match rec.get_u32(18) {
                Ok(v) => v,
                Err(e) => return Err(e),
            };
            let writeback = match rec.get_u32(19) {
                Ok(v) => v,
                Err(e) => return Err(e),
            };
            let anon_pages = match rec.get_u32(20) {
                Ok(v) => v,
                Err(e) => return Err(e),
            };
            let mapped = match rec.get_u32(21) {
                Ok(v) => v,
                Err(e) => return Err(e),
            };
            let shmem = match rec.get_u32(22) {
                Ok(v) => v,
                Err(e) => return Err(e),
            };
                Ok(Memory {
                total,
                free,
                available,
                buffers,
                cached,
                swap_cached,
                active,
                inactive,
                active_anon,
                inactive_anon,
                active_file,
                inactive_file,
                unevictable,
                mlocked,
                swap_total,
                swap_free,
                zswap,
                zsapped,
                dirty,
                writeback,
                anon_pages,
                mapped,
                shmem,
                })
            },
        }
    }
}

} // verus!
