//! The schema-driven decode core.
//!
//! A caller describes the target record as a schema: one entry per field,
//! each with a source-key alias, a primitive kind and an optional flag.
//! The core walks the token stream of a key-value input and fills a record
//! with one decoded value per schema field.

use vstd::prelude::*;

use crate::text::{digit_value, is_digit};
use crate::token::{spec_tokenize, token_texts, SpecToken, TokenKind, TokenStream};
use crate::DecodeError;

verus! {

/// The primitive decode rules a schema can request for a field.
#[derive(Debug, Clone, Copy, PartialEq, Eq, Structural)]
pub enum PrimKind {
    /// Leading decimal digits; anything after them (such as a unit suffix)
    /// is discarded without validation.
    Unsigned,
    /// Exactly the literal `yes` or `no`.
    Boolean,
    /// The value text verbatim.
    Text,
}

/// Number of leading decimal digits of `v`.
pub open spec fn digits_prefix_len(v: Seq<char>) -> int
    decreases v.len(),
{
    if v.len() == 0 || !is_digit(v[0]) {
        0
    } else {
        1 + digits_prefix_len(v.skip(1))
    }
}

/// The number an all-digit sequence denotes.
pub open spec fn digits_value(ds: Seq<char>) -> nat
    decreases ds.len(),
{
    if ds.len() == 0 {
        0
    } else {
        digits_value(ds.take(ds.len() - 1)) * 10 + digit_value(ds[ds.len() - 1])
    }
}

/// The number denoted by the leading digits of `v`, or nothing when `v`
/// has no leading digit.
pub open spec fn spec_parse_unsigned(v: Seq<char>) -> Option<nat> {
    if digits_prefix_len(v) == 0 {
        Option::None
    } else {
        Option::Some(digits_value(v.take(digits_prefix_len(v))))
    }
}

pub proof fn lemma_digits_prefix(v: Seq<char>)
    ensures
        0 <= digits_prefix_len(v) <= v.len(),
        forall|i: int| 0 <= i < digits_prefix_len(v) ==> is_digit(v[i]),
        digits_prefix_len(v) < v.len() ==> !is_digit(v[digits_prefix_len(v)]),
    decreases v.len(),
{
    if v.len() > 0 && is_digit(v[0]) {
        lemma_digits_prefix(v.skip(1));
        let t = digits_prefix_len(v.skip(1));
        assert forall|i: int| 0 <= i < t + 1 implies is_digit(v[i]) by {
            if i > 0 {
                assert(v[i] == v.skip(1)[i - 1]);
            }
        }
        if t + 1 < v.len() {
            assert(v[t + 1] == v.skip(1)[t]);
        }
    }
}

/// A position with only digits before it and a non-digit (or the end) at
/// it pins `digits_prefix_len` exactly.
pub proof fn lemma_digits_prefix_exact(v: Seq<char>, k: int)
    requires
        0 <= k <= v.len(),
        forall|i: int| 0 <= i < k ==> is_digit(v[i]),
        k == v.len() || !is_digit(v[k]),
    ensures
        digits_prefix_len(v) == k,
{
    lemma_digits_prefix(v);
    let t = digits_prefix_len(v);
    if t < k {
        assert(is_digit(v[t]));
    } else if t > k {
        assert(is_digit(v[k]));
    }
}

/// A digit sequence never denotes less than any of its prefixes.
pub proof fn lemma_digits_value_monotone(ds: Seq<char>, k: int)
    requires
        0 <= k <= ds.len(),
    ensures
        digits_value(ds.take(k)) <= digits_value(ds),
    decreases ds.len() - k,
{
    if k < ds.len() {
        lemma_digits_value_monotone(ds, k + 1);
        assert(ds.take(k + 1).take(k) =~= ds.take(k));
        assert(digits_value(ds.take(k + 1)) == digits_value(ds.take(k)) * 10 + digit_value(
            ds.take(k + 1)[k],
        ));
    } else {
        assert(ds.take(k) =~= ds);
    }
}

/// Decode the leading decimal digits of `v` as an unsigned integer. The
/// digits end at the first non-digit character; the rest of the text (a
/// unit suffix such as `kB`) is discarded without validation. Fails when
/// `v` has no leading digit or the number does not fit in 64 bits.
pub fn parse_unsigned(v: &str) -> (r: Result<u64, DecodeError>)
    ensures
        match r {
            Ok(n) => spec_parse_unsigned(v@) == Option::Some(n as nat),
            Err(e) => e == DecodeError::ExpectedInteger && match spec_parse_unsigned(v@) {
                Option::None => true,
                Option::Some(n) => n > u64::MAX,
            },
        },
{
    let len = v.unicode_len();
    let mut i: usize = 0;
    let mut acc: u64 = 0;
    while i < len
        invariant
            i <= len,
            len == v@.len(),
            forall|j: int| 0 <= j < i ==> is_digit(v@[j]),
            acc as nat == digits_value(v@.take(i as int)),
        decreases len - i,
    {
        let c = v.get_char(i);
        if !((c as u32) >= ('0' as u32) && (c as u32) <= ('9' as u32)) {
            proof {
                lemma_digits_prefix_exact(v@, i as int);
            }
            if i == 0 {
                return Err(DecodeError::ExpectedInteger);
            }
            return Ok(acc);
        }
        let d = ((c as u32) - ('0' as u32)) as u64;
        proof {
            assert(v@.take(i + 1).take(i as int) =~= v@.take(i as int));
            assert(v@.take(i + 1)[i as int] == v@[i as int]);
        }
        if acc > (u64::MAX - d) / 10 {
            // The true value only grows with further digits, so it cannot
            // fit in 64 bits.
            proof {
                lemma_digits_prefix(v@);
                let pl = digits_prefix_len(v@);
                assert(pl >= i + 1) by {
                    if pl < i + 1 {
                        assert(is_digit(v@[pl]));
                    }
                }
                lemma_digits_value_monotone(v@.take(pl), i + 1);
                assert(v@.take(pl).take(i + 1) =~= v@.take(i + 1));
                assert(digits_value(v@.take(i + 1)) == acc * 10 + d);
                assert(acc * 10 + d > u64::MAX) by (nonlinear_arith)
                    requires
                        acc > (u64::MAX - d) / 10,
                        d <= 9,
                ;
            }
            return Err(DecodeError::ExpectedInteger);
        }
        acc = acc * 10 + d;
        i = i + 1;
    }
    proof {
        lemma_digits_prefix_exact(v@, len as int);
        assert(v@.take(len as int) =~= v@);
    }
    if len == 0 {
        return Err(DecodeError::ExpectedInteger);
    }
    Ok(acc)
}

/// What a boolean value text denotes, if anything.
pub open spec fn spec_parse_bool(v: Seq<char>) -> Option<bool> {
    if v == seq!['y', 'e', 's'] {
        Option::Some(true)
    } else if v == seq!['n', 'o'] {
        Option::Some(false)
    } else {
        Option::None
    }
}

/// Decode a boolean value: exactly the literal `yes` or `no`, nothing
/// else, with no case folding and no numeric form.
pub fn parse_bool(v: &str) -> (r: Result<bool, DecodeError>)
    ensures
        match r {
            Ok(b) => spec_parse_bool(v@) == Option::Some(b),
            Err(e) => e == DecodeError::InvalidBool && spec_parse_bool(v@) is None,
        },
{
    proof {
        reveal_strlit("yes");
        reveal_strlit("no");
        assert("yes"@ =~= seq!['y', 'e', 's']);
        assert("no"@ =~= seq!['n', 'o']);
    }
    if crate::text::str_eq(v, "yes") {
        Ok(true)
    } else if crate::text::str_eq(v, "no") {
        Ok(false)
    } else {
        Err(DecodeError::InvalidBool)
    }
}

/// The mathematical image of a field specification: the source key it is
/// bound to, its decode rule, and whether it may be absent.
pub ghost struct SpecField {
    pub alias: Seq<char>,
    pub kind: PrimKind,
    pub optional: bool,
}

/// One field of a schema: the target field's name, the source key it is
/// read from (by default the field name itself), its primitive decode
/// rule, and whether the input may omit it.
pub struct FieldSpec {
    pub name: String,
    pub alias: String,
    pub kind: PrimKind,
    pub optional: bool,
}

impl View for FieldSpec {
    type V = SpecField;

    open spec fn view(&self) -> SpecField {
        SpecField { alias: self.alias@, kind: self.kind, optional: self.optional }
    }
}

impl FieldSpec {
    /// A required field read from the source key of its own name.
    pub fn field(name: &str, kind: PrimKind) -> (r: FieldSpec)
        ensures
            r@ == (SpecField { alias: name@, kind, optional: false }),
    {
        FieldSpec { name: name.to_owned(), alias: name.to_owned(), kind, optional: false }
    }

    /// A required field read from a source key different from its name.
    pub fn field_as(name: &str, alias: &str, kind: PrimKind) -> (r: FieldSpec)
        ensures
            r@ == (SpecField { alias: alias@, kind, optional: false }),
    {
        FieldSpec { name: name.to_owned(), alias: alias.to_owned(), kind, optional: false }
    }

    /// A field the input may omit.
    pub fn optional(name: &str, kind: PrimKind) -> (r: FieldSpec)
        ensures
            r@ == (SpecField { alias: name@, kind, optional: true }),
    {
        FieldSpec { name: name.to_owned(), alias: name.to_owned(), kind, optional: true }
    }
}

/// A target record's schema: one entry per field, in the record's own
/// field order. Constructed once per target type and borrowed, never
/// mutated, by decode calls.
pub struct Schema {
    pub fields: Vec<FieldSpec>,
}

impl View for Schema {
    type V = Seq<SpecField>;

    open spec fn view(&self) -> Seq<SpecField> {
        self.fields@.map(|i: int, f: FieldSpec| f@)
    }
}

/// The mathematical image of a decoded primitive value.
pub ghost enum SpecValue {
    Unsigned(u64),
    Boolean(bool),
    Text(Seq<char>),
}

/// A decoded primitive value.
#[derive(Debug, Clone, PartialEq)]
pub enum FieldValue {
    Unsigned(u64),
    Boolean(bool),
    Text(String),
}

impl View for FieldValue {
    type V = SpecValue;

    open spec fn view(&self) -> SpecValue {
        match self {
            FieldValue::Unsigned(n) => SpecValue::Unsigned(*n),
            FieldValue::Boolean(b) => SpecValue::Boolean(*b),
            FieldValue::Text(s) => SpecValue::Text(s@),
        }
    }
}

/// A decoded record: one slot per schema field, in schema order; a slot is
/// empty when the input did not bind its field.
#[derive(Debug, Clone, PartialEq)]
pub struct Record {
    pub values: Vec<Option<FieldValue>>,
}

/// The mathematical image of a value-slot list.
pub open spec fn vals_view(vs: Seq<Option<FieldValue>>) -> Seq<Option<SpecValue>> {
    vs.map(
        |i: int, ov: Option<FieldValue>|
            match ov {
                Option::Some(v) => Option::Some(v@),
                Option::None => Option::None::<SpecValue>,
            },
    )
}

impl View for Record {
    type V = Seq<Option<SpecValue>>;

    open spec fn view(&self) -> Seq<Option<SpecValue>> {
        vals_view(self.values@)
    }
}

/// Index of the first schema field bound to `key`, or -1 when no field is.
pub open spec fn spec_find_field(fields: Seq<SpecField>, key: Seq<char>) -> int
    decreases fields.len(),
{
    if fields.len() == 0 {
        -1
    } else if fields[0].alias == key {
        0
    } else {
        let r = spec_find_field(fields.skip(1), key);
        if r < 0 {
            -1
        } else {
            r + 1
        }
    }
}

pub proof fn lemma_find_field(fields: Seq<SpecField>, key: Seq<char>)
    ensures
        spec_find_field(fields, key) >= 0 ==> spec_find_field(fields, key) < fields.len()
            && fields[spec_find_field(fields, key)].alias == key,
        spec_find_field(fields, key) >= 0 ==> forall|i: int|
            0 <= i < spec_find_field(fields, key) ==> fields[i].alias != key,
        spec_find_field(fields, key) < 0 ==> forall|i: int|
            0 <= i < fields.len() ==> fields[i].alias != key,
    decreases fields.len(),
{
    if fields.len() > 0 && fields[0].alias != key {
        lemma_find_field(fields.skip(1), key);
        let r = spec_find_field(fields.skip(1), key);
        if r >= 0 {
            assert(fields[r + 1] == fields.skip(1)[r]);
            assert forall|i: int| 0 <= i < r + 1 implies fields[i].alias != key by {
                if i > 0 {
                    assert(fields[i] == fields.skip(1)[i - 1]);
                }
            }
        } else {
            assert forall|i: int| 0 <= i < fields.len() implies fields[i].alias != key by {
                if i > 0 {
                    assert(fields[i] == fields.skip(1)[i - 1]);
                }
            }
        }
    }
}

/// A position whose field is bound to `key`, with no earlier one bound to
/// it, pins `spec_find_field` exactly.
pub proof fn lemma_find_field_exact(fields: Seq<SpecField>, key: Seq<char>, k: int)
    requires
        0 <= k < fields.len(),
        fields[k].alias == key,
        forall|i: int| 0 <= i < k ==> fields[i].alias != key,
    ensures
        spec_find_field(fields, key) == k,
{
    lemma_find_field(fields, key);
    let r = spec_find_field(fields, key);
    if r < 0 {
        assert(fields[k].alias != key);
    } else if r < k {
        assert(fields[r].alias != key);
    } else if r > k {
        assert(fields[k].alias != key);
    }
}

/// What decoding a value text under a primitive rule yields.
pub open spec fn spec_prim_value(kind: PrimKind, v: Seq<char>) -> Result<SpecValue, DecodeError> {
    match kind {
        PrimKind::Unsigned => match spec_parse_unsigned(v) {
            Option::Some(n) => if n <= u64::MAX {
                Result::Ok(SpecValue::Unsigned(n as u64))
            } else {
                Result::Err(DecodeError::ExpectedInteger)
            },
            Option::None => Result::Err(DecodeError::ExpectedInteger),
        },
        PrimKind::Boolean => match spec_parse_bool(v) {
            Option::Some(b) => Result::Ok(SpecValue::Boolean(b)),
            Option::None => Result::Err(DecodeError::InvalidBool),
        },
        PrimKind::Text => Result::Ok(SpecValue::Text(v)),
    }
}

/// Only section breaks and the terminal token remain: nothing with content.
pub open spec fn spec_rest_blank(toks: Seq<SpecToken>) -> bool {
    forall|i: int|
        0 <= i < toks.len() ==> (#[trigger] toks[i].kind) == TokenKind::SectionBreak || toks[i].kind
            == TokenKind::EndOfInput
}

/// The record accumulator before any entry is decoded: every slot empty.
pub open spec fn empty_acc(n: nat) -> Seq<Option<SpecValue>> {
    Seq::new(n, |i: int| Option::None)
}

/// The entry loop of a map-shaped decode, one `key separator value` triple
/// at a time.
///
/// The loop stops at a section break or at the end of the input; content
/// found beyond the stop is trailing input. A key bound by the schema has
/// its value decoded under the field's rule and stored, unless the field
/// was already bound (the first occurrence of a key wins); keys the schema
/// does not mention are read and ignored. A key followed by another key is
/// a key without separator inside the record; a key followed by nothing
/// but the line end is trailing content.
pub open spec fn spec_decode_entries(
    toks: Seq<SpecToken>,
    fields: Seq<SpecField>,
    acc: Seq<Option<SpecValue>>,
) -> Result<Seq<Option<SpecValue>>, DecodeError>
    decreases toks.len(),
{
    if toks.len() == 0 {
        Result::Ok(acc)
    } else if toks[0].kind == TokenKind::EndOfInput || toks[0].kind == TokenKind::SectionBreak {
        if spec_rest_blank(toks) {
            Result::Ok(acc)
        } else {
            Result::Err(DecodeError::TrailingCharacters)
        }
    } else if toks[0].kind == TokenKind::Key {
        if toks.len() >= 2 && toks[1].kind == TokenKind::Separator {
            if toks.len() >= 3 && toks[2].kind == TokenKind::Value {
                let fi = spec_find_field(fields, toks[0].text);
                if fi < 0 || acc[fi] is Some {
                    spec_decode_entries(toks.skip(3), fields, acc)
                } else {
                    match spec_prim_value(fields[fi].kind, toks[2].text) {
                        Result::Ok(v) => spec_decode_entries(
                            toks.skip(3),
                            fields,
                            acc.update(fi, Option::Some(v)),
                        ),
                        Result::Err(e) => Result::Err(e),
                    }
                }
            } else {
                Result::Err(DecodeError::Eof)
            }
        } else if toks.len() >= 2 && toks[1].kind == TokenKind::Key {
            Result::Err(DecodeError::MissingSeparator)
        } else {
            Result::Err(DecodeError::TrailingCharacters)
        }
    } else {
        Result::Err(DecodeError::TrailingCharacters)
    }
}

/// Some required field is still unbound.
pub open spec fn spec_missing_required(
    fields: Seq<SpecField>,
    vals: Seq<Option<SpecValue>>,
) -> bool {
    exists|i: int| 0 <= i < fields.len() && !(#[trigger] fields[i]).optional && vals[i] is None
}

/// What decoding one record from a token list yields.
pub open spec fn spec_decode_record_toks(toks: Seq<SpecToken>, fields: Seq<SpecField>) -> Result<
    Seq<Option<SpecValue>>,
    DecodeError,
> {
    match spec_decode_entries(toks, fields, empty_acc(fields.len())) {
        Result::Ok(vals) => if spec_missing_required(fields, vals) {
            Result::Err(DecodeError::Eof)
        } else {
            Result::Ok(vals)
        },
        Result::Err(e) => Result::Err(e),
    }
}

/// What decoding one record from an input text yields.
pub open spec fn spec_decode_record(input: Seq<char>, fields: Seq<SpecField>) -> Result<
    Seq<Option<SpecValue>>,
    DecodeError,
> {
    spec_decode_record_toks(spec_tokenize(input), fields)
}

/// Index of the first schema field bound to `key`.
fn find_field(schema: &Schema, key: &str) -> (r: Option<usize>)
    ensures
        match r {
            Some(i) => i < schema.fields@.len() && spec_find_field(schema@, key@) == i as int,
            None => spec_find_field(schema@, key@) < 0,
        },
{
    let n = schema.fields.len();
    let mut j: usize = 0;
    while j < n
        invariant
            j <= n,
            n == schema.fields@.len(),
            forall|i: int| 0 <= i < j ==> (#[trigger] schema@[i]).alias != key@,
        decreases n - j,
    {
        if crate::text::str_eq(key, schema.fields[j].alias.as_str()) {
            proof {
                assert(schema@[j as int].alias == key@);
                lemma_find_field_exact(schema@, key@, j as int);
            }
            return Some(j);
        }
        j = j + 1;
    }
    proof {
        lemma_find_field(schema@, key@);
    }
    None
}

/// A successful entry decode keeps one slot per schema field.
pub proof fn lemma_decode_entries_len(
    toks: Seq<SpecToken>,
    fields: Seq<SpecField>,
    acc: Seq<Option<SpecValue>>,
)
    requires
        acc.len() == fields.len(),
    ensures
        spec_decode_entries(toks, fields, acc) matches Ok(vals) ==> vals.len() == acc.len(),
    decreases toks.len(),
{
    if toks.len() == 0 {
    } else if toks[0].kind == TokenKind::EndOfInput || toks[0].kind == TokenKind::SectionBreak {
    } else if toks[0].kind == TokenKind::Key {
        if toks.len() >= 2 && toks[1].kind == TokenKind::Separator {
            if toks.len() >= 3 && toks[2].kind == TokenKind::Value {
                lemma_find_field(fields, toks[0].text);
                let fi = spec_find_field(fields, toks[0].text);
                if fi < 0 || acc[fi] is Some {
                    lemma_decode_entries_len(toks.skip(3), fields, acc);
                    assert(spec_decode_entries(toks, fields, acc) == spec_decode_entries(
                        toks.skip(3),
                        fields,
                        acc,
                    ));
                } else {
                    match spec_prim_value(fields[fi].kind, toks[2].text) {
                        Result::Ok(v) => {
                            let acc2 = acc.update(fi, Option::Some(v));
                            lemma_decode_entries_len(toks.skip(3), fields, acc2);
                            assert(acc2.len() == acc.len());
                            assert(spec_decode_entries(toks, fields, acc) == spec_decode_entries(
                                toks.skip(3),
                                fields,
                                acc2,
                            ));
                        },
                        Result::Err(_) => {},
                    }
                }
            }
        }
    }
}

/// A successful record decode yields one slot per schema field.
pub proof fn lemma_decode_record_len(input: Seq<char>, fields: Seq<SpecField>)
    ensures
        spec_decode_record(input, fields) matches Ok(vals) ==> vals.len() == fields.len(),
{
    lemma_decode_entries_len(spec_tokenize(input), fields, empty_acc(fields.len()));
}

/// A successful token-level record decode yields one slot per schema field.
pub proof fn lemma_decode_record_toks_len(toks: Seq<SpecToken>, fields: Seq<SpecField>)
    ensures
        spec_decode_record_toks(toks, fields) matches Ok(vals) ==> vals.len() == fields.len(),
{
    lemma_decode_entries_len(toks, fields, empty_acc(fields.len()));
}

/// An unsigned slot narrowed to 64 bits.
pub open spec fn spec_slot_u64(vals: Seq<Option<SpecValue>>, i: int) -> Result<u64, DecodeError> {
    match vals[i] {
        Option::Some(SpecValue::Unsigned(n)) => Result::Ok(n),
        _ => Result::Err(DecodeError::Eof),
    }
}

/// An unsigned slot narrowed to 32 bits.
pub open spec fn spec_slot_u32(vals: Seq<Option<SpecValue>>, i: int) -> Result<u32, DecodeError> {
    match vals[i] {
        Option::Some(SpecValue::Unsigned(n)) => if n <= u32::MAX {
            Result::Ok(n as u32)
        } else {
            Result::Err(DecodeError::ExpectedInteger)
        },
        _ => Result::Err(DecodeError::Eof),
    }
}

/// An unsigned slot narrowed to 16 bits.
pub open spec fn spec_slot_u16(vals: Seq<Option<SpecValue>>, i: int) -> Result<u16, DecodeError> {
    match vals[i] {
        Option::Some(SpecValue::Unsigned(n)) => if n <= u16::MAX {
            Result::Ok(n as u16)
        } else {
            Result::Err(DecodeError::ExpectedInteger)
        },
        _ => Result::Err(DecodeError::Eof),
    }
}

/// An unsigned slot narrowed to the pointer width.
pub open spec fn spec_slot_usize(vals: Seq<Option<SpecValue>>, i: int) -> Result<
    usize,
    DecodeError,
> {
    match vals[i] {
        Option::Some(SpecValue::Unsigned(n)) => if n <= usize::MAX {
            Result::Ok(n as usize)
        } else {
            Result::Err(DecodeError::ExpectedInteger)
        },
        _ => Result::Err(DecodeError::Eof),
    }
}

/// A boolean slot.
pub open spec fn spec_slot_bool(vals: Seq<Option<SpecValue>>, i: int) -> Result<
    bool,
    DecodeError,
> {
    match vals[i] {
        Option::Some(SpecValue::Boolean(b)) => Result::Ok(b),
        _ => Result::Err(DecodeError::Eof),
    }
}

/// A text slot.
pub open spec fn spec_slot_text(vals: Seq<Option<SpecValue>>, i: int) -> Result<
    Seq<char>,
    DecodeError,
> {
    match vals[i] {
        Option::Some(SpecValue::Text(s)) => Result::Ok(s),
        _ => Result::Err(DecodeError::Eof),
    }
}

/// An optional unsigned slot narrowed to 8 bits; an unbound slot is no
/// error.
pub open spec fn spec_slot_opt_u8(vals: Seq<Option<SpecValue>>, i: int) -> Result<
    Option<u8>,
    DecodeError,
> {
    match vals[i] {
        Option::None => Result::Ok(Option::None),
        Option::Some(SpecValue::Unsigned(n)) => if n <= u8::MAX {
            Result::Ok(Option::Some(n as u8))
        } else {
            Result::Err(DecodeError::ExpectedInteger)
        },
        _ => Result::Err(DecodeError::Eof),
    }
}

impl Record {
    /// Read slot `i` as an unsigned 64-bit value.
    pub fn get_u64(&self, i: usize) -> (r: Result<u64, DecodeError>)
        requires
            i < self.values@.len(),
        ensures
            r == spec_slot_u64(self@, i as int),
    {
        match &self.values[i] {
            Some(FieldValue::Unsigned(n)) => Ok(*n),
            _ => Err(DecodeError::Eof),
        }
    }

    /// Read slot `i` as an unsigned 32-bit value.
    pub fn get_u32(&self, i: usize) -> (r: Result<u32, DecodeError>)
        requires
            i < self.values@.len(),
        ensures
            r == spec_slot_u32(self@, i as int),
    {
        match &self.values[i] {
            Some(FieldValue::Unsigned(n)) => if *n <= u32::MAX as u64 {
                Ok(*n as u32)
            } else {
                Err(DecodeError::ExpectedInteger)
            },
            _ => Err(DecodeError::Eof),
        }
    }

    /// Read slot `i` as an unsigned 16-bit value.
    pub fn get_u16(&self, i: usize) -> (r: Result<u16, DecodeError>)
        requires
            i < self.values@.len(),
        ensures
            r == spec_slot_u16(self@, i as int),
    {
        match &self.values[i] {
            Some(FieldValue::Unsigned(n)) => if *n <= u16::MAX as u64 {
                Ok(*n as u16)
            } else {
                Err(DecodeError::ExpectedInteger)
            },
            _ => Err(DecodeError::Eof),
        }
    }

    /// Read slot `i` as an unsigned pointer-width value.
    pub fn get_usize(&self, i: usize) -> (r: Result<usize, DecodeError>)
        requires
            i < self.values@.len(),
        ensures
            r == spec_slot_usize(self@, i as int),
    {
        match &self.values[i] {
            Some(FieldValue::Unsigned(n)) => if *n <= usize::MAX as u64 {
                Ok(*n as usize)
            } else {
                Err(DecodeError::ExpectedInteger)
            },
            _ => Err(DecodeError::Eof),
        }
    }

    /// Read slot `i` as a boolean.
    pub fn get_bool(&self, i: usize) -> (r: Result<bool, DecodeError>)
        requires
            i < self.values@.len(),
        ensures
            r == spec_slot_bool(self@, i as int),
    {
        match &self.values[i] {
            Some(FieldValue::Boolean(b)) => Ok(*b),
            _ => Err(DecodeError::Eof),
        }
    }

    /// Read slot `i` as owned text.
    pub fn get_text(&self, i: usize) -> (r: Result<String, DecodeError>)
        requires
            i < self.values@.len(),
        ensures
            match r {
                Ok(s) => spec_slot_text(self@, i as int) == Result::<Seq<char>, DecodeError>::Ok(
                    s@,
                ),
                Err(e) => spec_slot_text(self@, i as int) == Result::<Seq<char>, DecodeError>::Err(
                    e,
                ),
            },
    {
        match &self.values[i] {
            Some(FieldValue::Text(s)) => Ok(s.clone()),
            _ => Err(DecodeError::Eof),
        }
    }

    /// Read slot `i` as an optional unsigned 8-bit value.
    pub fn get_opt_u8(&self, i: usize) -> (r: Result<Option<u8>, DecodeError>)
        requires
            i < self.values@.len(),
        ensures
            r == spec_slot_opt_u8(self@, i as int),
    {
        match &self.values[i] {
            None => Ok(None),
            Some(FieldValue::Unsigned(n)) => if *n <= u8::MAX as u64 {
                Ok(Some(*n as u8))
            } else {
                Err(DecodeError::ExpectedInteger)
            },
            _ => Err(DecodeError::Eof),
        }
    }
}

/// Decode one record from `input` under `schema`: tokenize, consume the
/// `key separator value` entries, reject trailing content, and require
/// every non-optional field to be bound. Succeeds exactly when the
/// mathematical decode does, with the same record or the same failure.
#[verifier::rlimit(100)]
pub fn decode_record(input: &str, schema: &Schema) -> (r: Result<Record, DecodeError>)
    ensures
        match r {
            Ok(rec) => spec_decode_record(input@, schema@) == Result::<
                Seq<Option<SpecValue>>,
                DecodeError,
            >::Ok(rec@),
            Err(e) => spec_decode_record(input@, schema@) == Result::<
                Seq<Option<SpecValue>>,
                DecodeError,
            >::Err(e),
        },
{
    let mut st = TokenStream::new(input);
    let ghost full = token_texts(input@, st.toks@);
    let n = schema.fields.len();
    let mut values: Vec<Option<FieldValue>> = Vec::new();
    let mut k: usize = 0;
    while k < n
        invariant
            k <= n,
            values@.len() == k,
            forall|i: int| 0 <= i < k ==> values@[i] is None,
        decreases n - k,
    {
        values.push(None);
        k = k + 1;
    }
    proof {
        assert(vals_view(values@) =~= empty_acc(schema@.len()));
        assert(full.skip(0) =~= full);
    }
    let ghost target = spec_decode_entries(full, schema@, empty_acc(schema@.len()));
    while st.pos < st.toks.len()
        invariant
            st.wf(),
            st.input@ == input@,
            full == token_texts(input@, st.toks@),
            n == schema.fields@.len(),
            values@.len() == n,
            target == spec_decode_entries(full, schema@, empty_acc(schema@.len())),
            spec_decode_entries(full.skip(st.pos as int), schema@, vals_view(values@)) == target,
        ensures
            st.wf(),
            st.input@ == input@,
            full == token_texts(input@, st.toks@),
            values@.len() == n,
            target == spec_decode_entries(full, schema@, empty_acc(schema@.len())),
            spec_decode_entries(full.skip(st.pos as int), schema@, vals_view(values@)) == target,
            st.pos == st.toks@.len() || st.toks@[st.pos as int].kind == TokenKind::EndOfInput
                || st.toks@[st.pos as int].kind == TokenKind::SectionBreak,
        decreases st.toks@.len() - st.pos,
    {
        let t = st.toks[st.pos];
        let ghost s = full.skip(st.pos as int);
        proof {
            assert(s[0] == full[st.pos as int]);
            assert(s[0].kind == t.kind);
        }
        match t.kind {
            TokenKind::EndOfInput => { break; },
            TokenKind::SectionBreak => { break; },
            TokenKind::Separator => {
                return Err(DecodeError::TrailingCharacters);
            },
            TokenKind::Value => {
                return Err(DecodeError::TrailingCharacters);
            },
            TokenKind::Key => {
                let len = st.toks.len();
                if st.pos + 1 < len && st.toks[st.pos + 1].kind == TokenKind::Separator {
                    proof {
                        assert(s[1] == full[st.pos + 1]);
                    }
                    if st.pos + 2 < len && st.toks[st.pos + 2].kind == TokenKind::Value {
                        let t2 = st.toks[st.pos + 2];
                        proof {
                            assert(s[2] == full[st.pos + 2]);
                            assert(s.skip(3) =~= full.skip(st.pos + 3));
                            // Token spans are within the input.
                            assert(0 <= t.start && t.start <= t.end && t.end <= input@.len());
                            assert(0 <= t2.start && t2.start <= t2.end && t2.end <= input@.len());
                            assert(s[0].text == input@.subrange(t.start as int, t.end as int));
                            assert(s[2].text == input@.subrange(t2.start as int, t2.end as int));
                        }
                        let key_s = input.substring_char(t.start, t.end);
                        let fi_opt = find_field(schema, key_s);
                        match fi_opt {
                            None => {
                                proof {
                                    assert(spec_find_field(schema@, s[0].text) < 0);
                                }
                                st.pos = st.pos + 3;
                            },
                            Some(fi) => {
                                proof {
                                    assert(spec_find_field(schema@, s[0].text) == fi as int);
                                }
                                if values[fi].is_some() {
                                    proof {
                                        assert(vals_view(values@)[fi as int] is Some);
                                    }
                                    st.pos = st.pos + 3;
                                } else {
                                    proof {
                                        assert(vals_view(values@)[fi as int] is None);
                                        assert(schema@[fi as int] == schema.fields@[fi as int]@);
                                    }
                                    let val_s = input.substring_char(t2.start, t2.end);
                                    let ghost vals0 = values@;
                                    match schema.fields[fi].kind {
                                        PrimKind::Unsigned => {
                                            match parse_unsigned(val_s) {
                                                Ok(nv) => {
                                                    values[fi] = Some(FieldValue::Unsigned(nv));
                                                    proof {
                                                        assert(spec_prim_value(
                                                            schema@[fi as int].kind,
                                                            s[2].text,
                                                        ) == Result::<
                                                            SpecValue,
                                                            DecodeError,
                                                        >::Ok(SpecValue::Unsigned(nv)));
                                                        assert(vals_view(values@) =~= vals_view(
                                                            vals0,
                                                        ).update(
                                                            fi as int,
                                                            Option::Some(SpecValue::Unsigned(nv)),
                                                        ));
                                                    }
                                                },
                                                Err(e) => {
                                                    proof {
                                                        assert(spec_prim_value(
                                                            schema@[fi as int].kind,
                                                            s[2].text,
                                                        ) == Result::<
                                                            SpecValue,
                                                            DecodeError,
                                                        >::Err(e));
                                                    }
                                                    return Err(e);
                                                },
                                            }
                                        },
                                        PrimKind::Boolean => {
                                            match parse_bool(val_s) {
                                                Ok(bv) => {
                                                    values[fi] = Some(FieldValue::Boolean(bv));
                                                    proof {
                                                        assert(spec_prim_value(
                                                            schema@[fi as int].kind,
                                                            s[2].text,
                                                        ) == Result::<
                                                            SpecValue,
                                                            DecodeError,
                                                        >::Ok(SpecValue::Boolean(bv)));
                                                        assert(vals_view(values@) =~= vals_view(
                                                            vals0,
                                                        ).update(
                                                            fi as int,
                                                            Option::Some(SpecValue::Boolean(bv)),
                                                        ));
                                                    }
                                                },
                                                Err(e) => {
                                                    proof {
                                                        assert(spec_prim_value(
                                                            schema@[fi as int].kind,
                                                            s[2].text,
                                                        ) == Result::<
                                                            SpecValue,
                                                            DecodeError,
                                                        >::Err(e));
                                                    }
                                                    return Err(e);
                                                },
                                            }
                                        },
                                        PrimKind::Text => {
                                            values[fi] = Some(FieldValue::Text(val_s.to_owned()));
                                            proof {
                                                assert(spec_prim_value(
                                                    schema@[fi as int].kind,
                                                    s[2].text,
                                                ) == Result::<SpecValue, DecodeError>::Ok(
                                                    SpecValue::Text(s[2].text),
                                                ));
                                                assert(vals_view(values@) =~= vals_view(
                                                    vals0,
                                                ).update(
                                                    fi as int,
                                                    Option::Some(SpecValue::Text(s[2].text)),
                                                ));
                                            }
                                        },
                                    }
                                    st.pos = st.pos + 3;
                                }
                            },
                        }
                    } else {
                        return Err(DecodeError::Eof);
                    }
                } else if st.pos + 1 < len && st.toks[st.pos + 1].kind == TokenKind::Key {
                    proof {
                        assert(s[1] == full[st.pos + 1]);
                    }
                    return Err(DecodeError::MissingSeparator);
                } else {
                    proof {
                        if st.pos + 1 < len {
                            assert(s[1] == full[st.pos + 1]);
                        }
                    }
                    return Err(DecodeError::TrailingCharacters);
                }
            },
        }
    }
    // The entry loop stopped at a section break or at the end: anything
    // with content beyond it is trailing input.
    let ghost stop = st.pos as int;
    let mut q: usize = st.pos;
    while q < st.toks.len()
        invariant
            st.wf(),
            st.input@ == input@,
            full == token_texts(input@, st.toks@),
            target == spec_decode_entries(full, schema@, empty_acc(schema@.len())),
            spec_decode_entries(full.skip(stop), schema@, vals_view(values@)) == target,
            values@.len() == n,
            n == schema.fields@.len(),
            stop == st.pos as int,
            st.pos == st.toks@.len() || st.toks@[st.pos as int].kind == TokenKind::EndOfInput
                || st.toks@[st.pos as int].kind == TokenKind::SectionBreak,
            stop <= q as int <= st.toks@.len(),
            forall|i: int|
                stop <= i < q as int ==> (#[trigger] full[i].kind) == TokenKind::SectionBreak
                    || full[i].kind == TokenKind::EndOfInput,
        decreases st.toks@.len() - q,
    {
        let tq = st.toks[q];
        proof {
            assert(full[q as int].kind == tq.kind);
        }
        match tq.kind {
            TokenKind::SectionBreak => {},
            TokenKind::EndOfInput => {},
            _ => {
                proof {
                    let s = full.skip(stop);
                    assert(s[q as int - stop] == full[q as int]);
                    assert(!spec_rest_blank(s));
                    assert(s.len() > 0 && (s[0].kind == TokenKind::EndOfInput || s[0].kind
                        == TokenKind::SectionBreak));
                }
                return Err(DecodeError::TrailingCharacters);
            },
        }
        q = q + 1;
    }
    proof {
        let s = full.skip(stop);
        assert forall|i: int| 0 <= i < s.len() implies (#[trigger] s[i].kind)
            == TokenKind::SectionBreak || s[i].kind == TokenKind::EndOfInput by {
            assert(s[i] == full[stop + i]);
        }
        assert(spec_rest_blank(s));
        assert(spec_decode_entries(s, schema@, vals_view(values@)) == Result::<
            Seq<Option<SpecValue>>,
            DecodeError,
        >::Ok(vals_view(values@)));
        assert(target == Result::<Seq<Option<SpecValue>>, DecodeError>::Ok(vals_view(values@)));
        assert(full == spec_tokenize(input@));
    }
    // The stream is consumed; require every non-optional field to be
    // bound.
    let mut i: usize = 0;
    while i < n
        invariant
            n == schema.fields@.len(),
            values@.len() == n,
            i <= n,
            full == spec_tokenize(input@),
            target == spec_decode_entries(full, schema@, empty_acc(schema@.len())),
            target == Result::<Seq<Option<SpecValue>>, DecodeError>::Ok(vals_view(values@)),
            forall|j: int|
                0 <= j < i ==> (#[trigger] schema@[j]).optional || vals_view(values@)[j] is Some,
        decreases n - i,
    {
        if !schema.fields[i].optional && values[i].is_none() {
            proof {
                assert(schema@[i as int] == schema.fields@[i as int]@);
                assert(!schema@[i as int].optional && vals_view(values@)[i as int] is None);
                assert(spec_missing_required(schema@, vals_view(values@)));
            }
            return Err(DecodeError::Eof);
        }
        proof {
            assert(schema@[i as int] == schema.fields@[i as int]@);
        }
        i = i + 1;
    }
    proof {
        assert(!spec_missing_required(schema@, vals_view(values@)));
    }
    Ok(Record { values })
}

} // verus!
