//! The CPU-topology record family: one key-value section per logical
//! processor, blank-line-delimited, decoded against a fixed schema of
//! mixed unsigned, boolean and text fields.

use vstd::prelude::*;

use crate::deserialize::{
    decode_record, lemma_decode_record_len, spec_decode_record, spec_slot_bool, spec_slot_opt_u8,
    spec_slot_text, spec_slot_u16, spec_slot_usize, FieldSpec, PrimKind, Record, Schema,
    SpecField, SpecValue,
};
use crate::document::{
    decode_document, lemma_decode_document_len, recs_view, spec_decode_document,
};
use crate::DecodeError;

verus! {

/// One logical processor's section of the CPU-topology pseudo-file.
#[derive(Debug, Clone, PartialEq)]
pub struct CPU {
    pub processor: u16,
    pub vendor_id: String,
    pub cpu_family: u16,
    pub model: usize,
    pub model_name: String,
    pub microcode: String,
    pub cpu_mhz: String,
    pub cache_size: usize,
    pub physical_id: u16,
    pub siblings: u16,
    pub core_id: u16,
    pub cpu_cores: u16,
    pub apicid: u16,
    pub initial_apicid: u16,
    pub fpu: bool,
    pub fpu_exception: bool,
    pub cpuid_level: u16,
    pub wp: bool,
    pub flags: String,
    pub vmx_flags: String,
    pub bugs: String,
    pub bogomips: String,
    pub clflush_size: u16,
    pub cache_alignment: u16,
    pub address_sizes: String,
    pub power_management: Option<u8>,
}

/// All logical processors, one record per section.
pub type CPUs = Vec<CPU>;

/// The schema of one CPU section. The clock-speed field stays text: this
/// engine decodes no floating-point values.
pub open spec fn spec_cpu_fields() -> Seq<SpecField> {
    seq![
        SpecField { alias: "processor"@, kind: PrimKind::Unsigned, optional: false },
        SpecField { alias: "vendor_id"@, kind: PrimKind::Text, optional: false },
        SpecField { alias: "cpu family"@, kind: PrimKind::Unsigned, optional: false },
        SpecField { alias: "model"@, kind: PrimKind::Unsigned, optional: false },
        SpecField { alias: "model name"@, kind: PrimKind::Text, optional: false },
        SpecField { alias: "microcode"@, kind: PrimKind::Text, optional: false },
        SpecField { alias: "cpu MHz"@, kind: PrimKind::Text, optional: false },
        SpecField { alias: "cache size"@, kind: PrimKind::Unsigned, optional: false },
        SpecField { alias: "physical id"@, kind: PrimKind::Unsigned, optional: false },
        SpecField { alias: "siblings"@, kind: PrimKind::Unsigned, optional: false },
        SpecField { alias: "core id"@, kind: PrimKind::Unsigned, optional: false },
        SpecField { alias: "cpu cores"@, kind: PrimKind::Unsigned, optional: false },
        SpecField { alias: "apicid"@, kind: PrimKind::Unsigned, optional: false },
        SpecField { alias: "initial apicid"@, kind: PrimKind::Unsigned, optional: false },
        SpecField { alias: "fpu"@, kind: PrimKind::Boolean, optional: false },
        SpecField { alias: "fpu_exception"@, kind: PrimKind::Boolean, optional: false },
        SpecField { alias: "cpuid level"@, kind: PrimKind::Unsigned, optional: false },
        SpecField { alias: "wp"@, kind: PrimKind::Boolean, optional: false },
        SpecField { alias: "flags"@, kind: PrimKind::Text, optional: false },
        SpecField { alias: "vmx flags"@, kind: PrimKind::Text, optional: false },
        SpecField { alias: "bugs"@, kind: PrimKind::Text, optional: false },
        SpecField { alias: "bogomips"@, kind: PrimKind::Text, optional: false },
        SpecField { alias: "clflush size"@, kind: PrimKind::Unsigned, optional: false },
        SpecField { alias: "cache_alignment"@, kind: PrimKind::Unsigned, optional: false },
        SpecField { alias: "address sizes"@, kind: PrimKind::Text, optional: false },
        SpecField { alias: "power_management"@, kind: PrimKind::Unsigned, optional: true },
    ]
}

/// The record slots of one section bind exactly the fields of `c`.
pub open spec fn spec_cpu_ok(vals: Seq<Option<SpecValue>>, c: CPU) -> bool {
    &&& spec_slot_u16(vals, 0) == Result::<u16, DecodeError>::Ok(c.processor)
    &&& spec_slot_text(vals, 1) == Result::<Seq<char>, DecodeError>::Ok(c.vendor_id@)
    &&& spec_slot_u16(vals, 2) == Result::<u16, DecodeError>::Ok(c.cpu_family)
    &&& spec_slot_usize(vals, 3) == Result::<usize, DecodeError>::Ok(c.model)
    &&& spec_slot_text(vals, 4) == Result::<Seq<char>, DecodeError>::Ok(c.model_name@)
    &&& spec_slot_text(vals, 5) == Result::<Seq<char>, DecodeError>::Ok(c.microcode@)
    &&& spec_slot_text(vals, 6) == Result::<Seq<char>, DecodeError>::Ok(c.cpu_mhz@)
    &&& spec_slot_usize(vals, 7) == Result::<usize, DecodeError>::Ok(c.cache_size)
    &&& spec_slot_u16(vals, 8) == Result::<u16, DecodeError>::Ok(c.physical_id)
    &&& spec_slot_u16(vals, 9) == Result::<u16, DecodeError>::Ok(c.siblings)
    &&& spec_slot_u16(vals, 10) == Result::<u16, DecodeError>::Ok(c.core_id)
    &&& spec_slot_u16(vals, 11) == Result::<u16, DecodeError>::Ok(c.cpu_cores)
    &&& spec_slot_u16(vals, 12) == Result::<u16, DecodeError>::Ok(c.apicid)
    &&& spec_slot_u16(vals, 13) == Result::<u16, DecodeError>::Ok(c.initial_apicid)
    &&& spec_slot_bool(vals, 14) == Result::<bool, DecodeError>::Ok(c.fpu)
    &&& spec_slot_bool(vals, 15) == Result::<bool, DecodeError>::Ok(c.fpu_exception)
    &&& spec_slot_u16(vals, 16) == Result::<u16, DecodeError>::Ok(c.cpuid_level)
    &&& spec_slot_bool(vals, 17) == Result::<bool, DecodeError>::Ok(c.wp)
    &&& spec_slot_text(vals, 18) == Result::<Seq<char>, DecodeError>::Ok(c.flags@)
    &&& spec_slot_text(vals, 19) == Result::<Seq<char>, DecodeError>::Ok(c.vmx_flags@)
    &&& spec_slot_text(vals, 20) == Result::<Seq<char>, DecodeError>::Ok(c.bugs@)
    &&& spec_slot_text(vals, 21) == Result::<Seq<char>, DecodeError>::Ok(c.bogomips@)
    &&& spec_slot_u16(vals, 22) == Result::<u16, DecodeError>::Ok(c.clflush_size)
    &&& spec_slot_u16(vals, 23) == Result::<u16, DecodeError>::Ok(c.cache_alignment)
    &&& spec_slot_text(vals, 24) == Result::<Seq<char>, DecodeError>::Ok(c.address_sizes@)
    &&& spec_slot_opt_u8(vals, 25) == Result::<Option<u8>, DecodeError>::Ok(c.power_management)
}

/// Every slot of one section can be bound to its field.
pub open spec fn spec_cpu_all_ok(vals: Seq<Option<SpecValue>>) -> bool {
    &&& spec_slot_u16(vals, 0) is Ok
    &&& spec_slot_text(vals, 1) is Ok
    &&& spec_slot_u16(vals, 2) is Ok
    &&& spec_slot_usize(vals, 3) is Ok
    &&& spec_slot_text(vals, 4) is Ok
    &&& spec_slot_text(vals, 5) is Ok
    &&& spec_slot_text(vals, 6) is Ok
    &&& spec_slot_usize(vals, 7) is Ok
    &&& spec_slot_u16(vals, 8) is Ok
    &&& spec_slot_u16(vals, 9) is Ok
    &&& spec_slot_u16(vals, 10) is Ok
    &&& spec_slot_u16(vals, 11) is Ok
    &&& spec_slot_u16(vals, 12) is Ok
    &&& spec_slot_u16(vals, 13) is Ok
    &&& spec_slot_bool(vals, 14) is Ok
    &&& spec_slot_bool(vals, 15) is Ok
    &&& spec_slot_u16(vals, 16) is Ok
    &&& spec_slot_bool(vals, 17) is Ok
    &&& spec_slot_text(vals, 18) is Ok
    &&& spec_slot_text(vals, 19) is Ok
    &&& spec_slot_text(vals, 20) is Ok
    &&& spec_slot_text(vals, 21) is Ok
    &&& spec_slot_u16(vals, 22) is Ok
    &&& spec_slot_u16(vals, 23) is Ok
    &&& spec_slot_text(vals, 24) is Ok
    &&& spec_slot_opt_u8(vals, 25) is Ok
}

/// The text a section is decoded from: the section itself, closed by a
/// newline when it does not already end in one.
pub open spec fn spec_sec_text(e: Seq<char>) -> Seq<char> {
    if e.len() > 0 && e[e.len() - 1] == '\n' {
        e
    } else {
        e.push('\n')
    }
}

/// Bind one decoded record's slots to a CPU value.
#[verifier::rlimit(100)]
fn cpu_of_record(rec: &Record) -> (r: Result<CPU, DecodeError>)
    requires
        rec@.len() == spec_cpu_fields().len(),
    ensures
        match r {
            Ok(c) => spec_cpu_ok(rec@, c),
            Err(e) => (e == DecodeError::ExpectedInteger || e == DecodeError::Eof)
                && !spec_cpu_all_ok(rec@),
        },
{
    let processor = match rec.get_u16(0) {
        Ok(v) => v,
        Err(e) => return Err(e),
    };
    let vendor_id = match rec.get_text(1) {
        Ok(v) => v,
        Err(e) => return Err(e),
    };
    let cpu_family = match rec.get_u16(2) {
        Ok(v) => v,
        Err(e) => return Err(e),
    };
    let model = match rec.get_usize(3) {
        Ok(v) => v,
        Err(e) => return Err(e),
    };
    let model_name = match rec.get_text(4) {
        Ok(v) => v,
        Err(e) => return Err(e),
    };
    let microcode = match rec.get_text(5) {
        Ok(v) => v,
        Err(e) => return Err(e),
    };
    let cpu_mhz = match rec.get_text(6) {
        Ok(v) => v,
        Err(e) => return Err(e),
    };
    let cache_size = match rec.get_usize(7) {
        Ok(v) => v,
        Err(e) => return Err(e),
    };
    let physical_id = match rec.get_u16(8) {
        Ok(v) => v,
        Err(e) => return Err(e),
    };
    let siblings = match rec.get_u16(9) {
        Ok(v) => v,
        Err(e) => return Err(e),
    };
    let core_id = match rec.get_u16(10) {
        Ok(v) => v,
        Err(e) => return Err(e),
    };
    let cpu_cores = match rec.get_u16(11) {
        Ok(v) => v,
        Err(e) => return Err(e),
    };
    let apicid = match rec.get_u16(12) {
        Ok(v) => v,
        Err(e) => return Err(e),
    };
    let initial_apicid = match rec.get_u16(13) {
        Ok(v) => v,
        Err(e) => return Err(e),
    };
    let fpu = match rec.get_bool(14) {
        Ok(v) => v,
        Err(e) => return Err(e),
    };
    let fpu_exception = match rec.get_bool(15) {
        Ok(v) => v,
        Err(e) => return Err(e),
    };
    let cpuid_level = match rec.get_u16(16) {
        Ok(v) => v,
        Err(e) => return Err(e),
    };
    let wp = match rec.get_bool(17) {
        Ok(v) => v,
        Err(e) => return Err(e),
    };
    let flags = match rec.get_text(18) {
        Ok(v) => v,
        Err(e) => return Err(e),
    };
    let vmx_flags = match rec.get_text(19) {
        Ok(v) => v,
        Err(e) => return Err(e),
    };
    let bugs = match rec.get_text(20) {
        Ok(v) => v,
        Err(e) => return Err(e),
    };
    let bogomips = match rec.get_text(21) {
        Ok(v) => v,
        Err(e) => return Err(e),
    };
    let clflush_size = match rec.get_u16(22) {
        Ok(v) => v,
        Err(e) => return Err(e),
    };
    let cache_alignment = match rec.get_u16(23) {
        Ok(v) => v,
        Err(e) => return Err(e),
    };
    let address_sizes = match rec.get_text(24) {
        Ok(v) => v,
        Err(e) => return Err(e),
    };
    let power_management = match rec.get_opt_u8(25) {
        Ok(v) => v,
        Err(e) => return Err(e),
    };
    Ok(CPU {
            processor,
            vendor_id,
            cpu_family,
            model,
            model_name,
            microcode,
            cpu_mhz,
            cache_size,
            physical_id,
            siblings,
            core_id,
            cpu_cores,
            apicid,
            initial_apicid,
            fpu,
            fpu_exception,
            cpuid_level,
            wp,
            flags,
            vmx_flags,
            bugs,
            bogomips,
            clflush_size,
            cache_alignment,
            address_sizes,
            power_management,
    })
}

impl CPU {
    /// Build the CPU section's schema.
    #[verifier::rlimit(100)]
    pub fn schema() -> (r: Schema)
        ensures
            r@ == spec_cpu_fields(),
    {
        let mut fields: Vec<FieldSpec> = Vec::new();
    fields.push(FieldSpec::field("processor", PrimKind::Unsigned));
    fields.push(FieldSpec::field("vendor_id", PrimKind::Text));
    fields.push(FieldSpec::field_as("cpu_family", "cpu family", PrimKind::Unsigned));
    fields.push(FieldSpec::field("model", PrimKind::Unsigned));
    fields.push(FieldSpec::field_as("model_name", "model name", PrimKind::Text));
    fields.push(FieldSpec::field("microcode", PrimKind::Text));
    fields.push(FieldSpec::field_as("cpu_mhz", "cpu MHz", PrimKind::Text));
    fields.push(FieldSpec::field_as("cache_size", "cache size", PrimKind::Unsigned));
    fields.push(FieldSpec::field_as("physical_id", "physical id", PrimKind::Unsigned));
    fields.push(FieldSpec::field("siblings", PrimKind::Unsigned));
    fields.push(FieldSpec::field_as("core_id", "core id", PrimKind::Unsigned));
    fields.push(FieldSpec::field_as("cpu_cores", "cpu cores", PrimKind::Unsigned));
    fields.push(FieldSpec::field("apicid", PrimKind::Unsigned));
    fields.push(FieldSpec::field_as("initial_apicid", "initial apicid", PrimKind::Unsigned));
    fields.push(FieldSpec::field("fpu", PrimKind::Boolean));
    fields.push(FieldSpec::field("fpu_exception", PrimKind::Boolean));
    fields.push(FieldSpec::field_as("cpuid_level", "cpuid level", PrimKind::Unsigned));
    fields.push(FieldSpec::field("wp", PrimKind::Boolean));
    fields.push(FieldSpec::field("flags", PrimKind::Text));
    fields.push(FieldSpec::field_as("vmx_flags", "vmx flags", PrimKind::Text));
    fields.push(FieldSpec::field("bugs", PrimKind::Text));
    fields.push(FieldSpec::field("bogomips", PrimKind::Text));
    fields.push(FieldSpec::field_as("clflush_size", "clflush size", PrimKind::Unsigned));
    fields.push(FieldSpec::field("cache_alignment", PrimKind::Unsigned));
    fields.push(FieldSpec::field_as("address_sizes", "address sizes", PrimKind::Text));
    fields.push(FieldSpec::optional("power_management", PrimKind::Unsigned));
        let r = Schema { fields };
        proof {
            assert(r@ =~= spec_cpu_fields());
        }
        r
    }

    /// Decode one CPU section. A section handed over without its final
    /// newline is closed with one first.
    #[verifier::rlimit(100)]
    pub fn parse_sec(e: &str) -> (r: Result<CPU, DecodeError>)
        ensures
            match r {
                Ok(c) => {
                    let d = spec_decode_record(spec_sec_text(e@), spec_cpu_fields());
                    &&& d matches Ok(vals)
                    &&& d matches Ok(vals) ==> spec_cpu_ok(vals, c)
                },
                Err(e2) => match spec_decode_record(spec_sec_text(e@), spec_cpu_fields()) {
                    Err(de) => e2 == de,
                    Ok(vals) => (e2 == DecodeError::ExpectedInteger || e2 == DecodeError::Eof)
                        && !spec_cpu_all_ok(vals),
                },
            },
    {
        let len = e.unicode_len();
        let mut owned = e.to_owned();
        if len == 0 || e.get_char(len - 1) != '\n' {
            owned.append("\n");
            proof {
                reveal_strlit("\n");
                assert("\n"@ =~= seq!['\n']);
                assert(owned@ =~= e@.push('\n'));
            }
        }
        proof {
            assert(owned@ == spec_sec_text(e@));
        }
        let schema = CPU::schema();
        match decode_record(owned.as_str(), &schema) {
            Err(e2) => Err(e2),
            Ok(rec) => {
                proof {
                    lemma_decode_record_len(owned@, spec_cpu_fields());
                }
                cpu_of_record(&rec)
            },
        }
    }
}

/// Decode a whole CPU-topology document: one record per blank-line
/// section, in input order; the first failing section fails the call.
#[verifier::rlimit(100)]
pub fn cpus_from_text(input: &str) -> (r: Result<CPUs, DecodeError>)
    ensures
        match r {
            Ok(v) => {
                let dd = spec_decode_document(input@, spec_cpu_fields());
                &&& dd matches Ok(docs)
                &&& dd matches Ok(docs) ==> v@.len() == docs.len() && (forall|i: int|
                    0 <= i < docs.len() ==> spec_cpu_ok(#[trigger] docs[i], v@[i]))
            },
            Err(e) => match spec_decode_document(input@, spec_cpu_fields()) {
                Err(de) => e == de,
                Ok(docs) => (e == DecodeError::ExpectedInteger || e == DecodeError::Eof)
                    && exists|i: int| 0 <= i < docs.len() && !spec_cpu_all_ok(#[trigger] docs[i]),
            },
        },
{
    let schema = CPU::schema();
    match decode_document(input, &schema) {
        Err(e) => Err(e),
        Ok(recs) => {
            proof {
                lemma_decode_document_len(input@, spec_cpu_fields());
            }
            let ghost docs = recs_view(recs@);
            let m = recs.len();
            let mut out: Vec<CPU> = Vec::new();
            let mut i: usize = 0;
            while i < m
                invariant
                    i <= m,
                    m == recs@.len(),
                    docs == recs_view(recs@),
                    spec_decode_document(input@, spec_cpu_fields()) == Result::<
                        Seq<Seq<Option<SpecValue>>>,
                        DecodeError,
                    >::Ok(docs),
                    forall|j: int| 0 <= j < m ==> (#[trigger] docs[j]).len()
                        == spec_cpu_fields().len(),
                    out@.len() == i,
                    forall|j: int| 0 <= j < i ==> spec_cpu_ok(#[trigger] docs[j], out@[j]),
                decreases m - i,
            {
                proof {
                    assert(docs[i as int] == recs@[i as int]@);
                }
                match cpu_of_record(&recs[i]) {
                    Ok(c) => {
                        out.push(c);
                    },
                    Err(e) => {
                        proof {
                            assert(0 <= (i as int) && (i as int) < docs.len());
                            assert(!spec_cpu_all_ok(docs[i as int]));
                            assert(spec_decode_document(input@, spec_cpu_fields()) == Result::<
                                Seq<Seq<Option<SpecValue>>>,
                                DecodeError,
                            >::Ok(docs));
                            assert(e == DecodeError::ExpectedInteger || e == DecodeError::Eof);
                            let snap = spec_decode_document(input@, spec_cpu_fields());
                            let docs2 = snap->Ok_0;
                            assert(docs2 == docs);
                            assert(0 <= (i as int) && (i as int) < docs2.len() && !spec_cpu_all_ok(
                                docs2[i as int],
                            ));
                            assert(exists|j: int|
                                0 <= j < docs2.len() && !spec_cpu_all_ok(#[trigger] docs2[j]));
                        }
                        return Err(e);
                    },
                }
                i = i + 1;
            }
            Ok(out)
        },
    }
}

} // verus!
