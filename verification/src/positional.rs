//! The positional (fixed-arity, whitespace-separated) record grammar.
//!
//! A positional line holds a leading run of digits (the record's numeric
//! key), a parenthesized free-text field that may itself contain
//! whitespace or parentheses (its closing delimiter is the last `)` on the
//! line), and then a fixed number of whitespace-delimited fields whose
//! count is declared by the caller, never discovered from the input.

use vstd::prelude::*;

use crate::deserialize::{digits_prefix_len, digits_value, lemma_digits_prefix_exact};
use crate::text::{is_digit, is_ws, trim_start};
use crate::DecodeError;

verus! {

/// Index of the last occurrence of `c` in `s`, or -1 when `c` does not
/// occur.
pub open spec fn rfind_char(s: Seq<char>, c: char) -> int
    decreases s.len(),
{
    if s.len() == 0 {
        -1
    } else if s[s.len() - 1] == c {
        s.len() - 1
    } else {
        rfind_char(s.take(s.len() - 1), c)
    }
}

pub proof fn lemma_rfind_char(s: Seq<char>, c: char)
    ensures
        rfind_char(s, c) >= 0 ==> rfind_char(s, c) < s.len() && s[rfind_char(s, c)] == c,
        rfind_char(s, c) >= 0 ==> forall|i: int| rfind_char(s, c) < i < s.len() ==> s[i] != c,
        rfind_char(s, c) < 0 ==> forall|i: int| 0 <= i < s.len() ==> s[i] != c,
    decreases s.len(),
{
    if s.len() > 0 && s[s.len() - 1] != c {
        lemma_rfind_char(s.take(s.len() - 1), c);
        let r = rfind_char(s.take(s.len() - 1), c);
        if r >= 0 {
            assert(s.take(s.len() - 1)[r] == s[r]);
            assert forall|i: int| r < i < s.len() implies s[i] != c by {
                if i < s.len() - 1 {
                    assert(s.take(s.len() - 1)[i] == s[i]);
                }
            }
        } else {
            assert forall|i: int| 0 <= i < s.len() implies s[i] != c by {
                if i < s.len() - 1 {
                    assert(s.take(s.len() - 1)[i] == s[i]);
                }
            }
        }
    }
}

/// A position holding `c` with none after it pins `rfind_char` exactly.
pub proof fn lemma_rfind_char_exact(s: Seq<char>, c: char, k: int)
    requires
        0 <= k < s.len(),
        s[k] == c,
        forall|i: int| k < i < s.len() ==> s[i] != c,
    ensures
        rfind_char(s, c) == k,
{
    lemma_rfind_char(s, c);
    let r = rfind_char(s, c);
    if r < 0 {
        assert(s[k] != c);
    } else if r < k {
        assert(s[k] != c);
    } else if r > k {
        assert(s[r] != c);
    }
}

/// Number of leading non-whitespace characters.
pub open spec fn nonws_prefix_len(s: Seq<char>) -> int
    decreases s.len(),
{
    if s.len() == 0 || is_ws(s[0]) {
        0
    } else {
        1 + nonws_prefix_len(s.skip(1))
    }
}

pub proof fn lemma_nonws_prefix(s: Seq<char>)
    ensures
        0 <= nonws_prefix_len(s) <= s.len(),
        forall|i: int| 0 <= i < nonws_prefix_len(s) ==> !is_ws(s[i]),
        nonws_prefix_len(s) < s.len() ==> is_ws(s[nonws_prefix_len(s)]),
    decreases s.len(),
{
    if s.len() > 0 && !is_ws(s[0]) {
        lemma_nonws_prefix(s.skip(1));
        let t = nonws_prefix_len(s.skip(1));
        assert forall|i: int| 0 <= i < t + 1 implies !is_ws(s[i]) by {
            if i > 0 {
                assert(s[i] == s.skip(1)[i - 1]);
            }
        }
        if t + 1 < s.len() {
            assert(s[t + 1] == s.skip(1)[t]);
        }
    }
}

/// A position with only non-whitespace before it and whitespace (or the
/// end) at it pins `nonws_prefix_len` exactly.
pub proof fn lemma_nonws_prefix_exact(s: Seq<char>, k: int)
    requires
        0 <= k <= s.len(),
        forall|i: int| 0 <= i < k ==> !is_ws(s[i]),
        k == s.len() || is_ws(s[k]),
    ensures
        nonws_prefix_len(s) == k,
{
    lemma_nonws_prefix(s);
    let t = nonws_prefix_len(s);
    if t < k {
        assert(!is_ws(s[t]));
    } else if t > k {
        assert(is_ws(s[k]));
    }
}

/// The whitespace-delimited fields of `s`, in order.
pub open spec fn spec_ws_fields(s: Seq<char>) -> Seq<Seq<char>>
    decreases s.len(),
    via spec_ws_fields_decreases
{
    if s.len() == 0 {
        Seq::empty()
    } else if is_ws(s[0]) {
        spec_ws_fields(s.skip(1))
    } else {
        let k = nonws_prefix_len(s);
        seq![s.take(k)] + spec_ws_fields(s.skip(k))
    }
}

#[via_fn]
proof fn spec_ws_fields_decreases(s: Seq<char>) {
    lemma_nonws_prefix(s);
}

/// All-digit text denotes a number; anything else denotes nothing. Unlike
/// the key-value rule, no trailing text is tolerated.
pub open spec fn spec_strict_unsigned(v: Seq<char>) -> Option<nat> {
    if v.len() > 0 && digits_prefix_len(v) == v.len() {
        Option::Some(digits_value(v))
    } else {
        Option::None
    }
}

/// An optional leading minus sign followed by all digits.
pub open spec fn spec_strict_signed(v: Seq<char>) -> Option<int> {
    if v.len() > 0 && v[0] == '-' {
        match spec_strict_unsigned(v.skip(1)) {
            Option::Some(n) => Option::Some(-(n as int)),
            Option::None => Option::None,
        }
    } else {
        match spec_strict_unsigned(v) {
            Option::Some(n) => Option::Some(n as int),
            Option::None => Option::None,
        }
    }
}

/// Decode an all-digit text as an unsigned integer; any other text, and
/// any value over 64 bits, is rejected.
pub fn parse_u64_strict(v: &str) -> (r: Result<u64, DecodeError>)
    ensures
        match r {
            Ok(n) => spec_strict_unsigned(v@) == Option::Some(n as nat),
            Err(e) => e == DecodeError::ExpectedInteger && match spec_strict_unsigned(v@) {
                Option::None => true,
                Option::Some(n) => n > u64::MAX,
            },
        },
{
    let len = v.unicode_len();
    if len == 0 {
        return Err(DecodeError::ExpectedInteger);
    }
    let mut i: usize = 0;
    let mut acc: u64 = 0;
    while i < len
        invariant
            i <= len,
            len == v@.len(),
            forall|j: int| 0 <= j < i ==> is_digit(v@[j]),
            acc as nat == digits_value(v@.take(i as int)),
        decreases len - i,
    {
        let c = v.get_char(i);
        if !((c as u32) >= ('0' as u32) && (c as u32) <= ('9' as u32)) {
            proof {
                lemma_digits_prefix_exact(v@, i as int);
            }
            return Err(DecodeError::ExpectedInteger);
        }
        let d = ((c as u32) - ('0' as u32)) as u64;
        proof {
            assert(v@.take(i + 1).take(i as int) =~= v@.take(i as int));
            assert(v@.take(i + 1)[i as int] == v@[i as int]);
        }
        if acc > (u64::MAX - d) / 10 {
            proof {
                if digits_prefix_len(v@) == v@.len() {
                    crate::deserialize::lemma_digits_value_monotone(v@, i + 1);
                    assert(digits_value(v@.take(i + 1)) == acc * 10 + d);
                    assert(acc * 10 + d > u64::MAX) by (nonlinear_arith)
                        requires
                            acc > (u64::MAX - d) / 10,
                            d <= 9,
                    ;
                }
            }
            return Err(DecodeError::ExpectedInteger);
        }
        acc = acc * 10 + d;
        i = i + 1;
    }
    proof {
        lemma_digits_prefix_exact(v@, len as int);
        assert(v@.take(len as int) =~= v@);
    }
    Ok(acc)
}

/// Decode a strict signed integer: an optional leading minus sign and
/// digits. A negative value below `-i64::MAX` is rejected along with
/// everything that does not fit.
pub fn parse_i64_strict(v: &str) -> (r: Result<i64, DecodeError>)
    ensures
        match r {
            Ok(n) => spec_strict_signed(v@) == Option::Some(n as int),
            Err(e) => e == DecodeError::ExpectedInteger && match spec_strict_signed(v@) {
                Option::None => true,
                Option::Some(n) => n > i64::MAX || n < -(i64::MAX as int),
            },
        },
{
    let len = v.unicode_len();
    if len > 0 && v.get_char(0) == '-' {
        let rest = v.substring_char(1, len);
        proof {
            assert(rest@ == v@.skip(1));
        }
        match parse_u64_strict(rest) {
            Ok(n) => {
                if n <= i64::MAX as u64 {
                    Ok(-(n as i64))
                } else {
                    Err(DecodeError::ExpectedInteger)
                }
            },
            Err(e) => Err(e),
        }
    } else {
        match parse_u64_strict(v) {
            Ok(n) => {
                if n <= i64::MAX as u64 {
                    Ok(n as i64)
                } else {
                    Err(DecodeError::ExpectedInteger)
                }
            },
            Err(e) => Err(e),
        }
    }
}

/// Whether `c` is whitespace for positional records.
pub fn ws(c: char) -> (r: bool)
    ensures
        r == is_ws(c),
{
    c == ' ' || c == '\t' || c == '\n' || c == '\r'
}

/// The mathematical image of a positional record: the key's digits, the
/// parenthesized field's text, and the remaining fields in order.
pub ghost struct SpecPositional {
    pub key: Seq<char>,
    pub command: Seq<char>,
    pub fields: Seq<Seq<char>>,
}

/// A decoded positional record. All text is owned: nothing borrows from
/// the decoded line.
#[derive(Debug, Clone, PartialEq)]
pub struct PositionalRecord {
    /// The leading run of digits (the record's numeric key).
    pub key: String,
    /// The parenthesized free-text field, without its parentheses.
    pub command: String,
    /// The whitespace-delimited fields after the parenthesized one.
    pub fields: Vec<String>,
}

impl View for PositionalRecord {
    type V = SpecPositional;

    open spec fn view(&self) -> SpecPositional {
        SpecPositional {
            key: self.key@,
            command: self.command@,
            fields: self.fields@.map(|i: int, s: String| s@),
        }
    }
}

/// What decoding a positional line with a declared field count yields.
///
/// The line must open with at least one digit; after optional horizontal
/// whitespace a `(` must follow; the free-text field runs to the last `)`
/// of the whole line; the rest splits at whitespace into exactly the
/// declared number of fields, else the shape does not match.
pub open spec fn spec_decode_positional(line: Seq<char>, n: int) -> Result<
    SpecPositional,
    DecodeError,
> {
    let dl = digits_prefix_len(line);
    if dl == 0 {
        Result::Err(DecodeError::GrammarMismatch)
    } else {
        let a = dl + trim_start(line.skip(dl));
        if a >= line.len() || line[a] != '(' {
            Result::Err(DecodeError::GrammarMismatch)
        } else {
            let rp = rfind_char(line, ')');
            if rp <= a {
                Result::Err(DecodeError::GrammarMismatch)
            } else {
                let fields = spec_ws_fields(line.skip(rp + 1));
                if fields.len() != n {
                    Result::Err(DecodeError::ShapeMismatch)
                } else {
                    Result::Ok(
                        SpecPositional {
                            key: line.take(dl),
                            command: line.subrange(dl + trim_start(line.skip(dl)) + 1, rp),
                            fields,
                        },
                    )
                }
            }
        }
    }
}

/// Split `line[from..]` into its whitespace-delimited fields, each an
/// owned copy.
pub fn split_ws(line: &str, from: usize) -> (r: Vec<String>)
    requires
        from <= line@.len(),
    ensures
        r@.map(|i: int, s: String| s@) == spec_ws_fields(line@.skip(from as int)),
{
    let len = line.unicode_len();
    let mut fields: Vec<String> = Vec::new();
    let mut p: usize = from;
    proof {
        assert(fields@.map(|i: int, s: String| s@) =~= Seq::<Seq<char>>::empty());
        assert(line@.skip(from as int).skip(0) =~= line@.skip(from as int));
    }
    while p < len
        invariant
            from <= p <= len,
            len == line@.len(),
            spec_ws_fields(line@.skip(from as int)) =~= fields@.map(|i: int, s: String| s@)
                + spec_ws_fields(line@.skip(p as int)),
        decreases len - p,
    {
        let ghost rem = line@.skip(p as int);
        let c = line.get_char(p);
        proof {
            assert(rem[0] == line@[p as int]);
        }
        if ws(c) {
            proof {
                assert(rem.skip(1) =~= line@.skip(p + 1));
            }
            p = p + 1;
        } else {
            let st = p;
            let mut en: usize = p + 1;
            while en < len
                invariant
                    st < en <= len,
                    len == line@.len(),
                    forall|j: int| st <= j < en ==> !is_ws(line@[j]),
                ensures
                    st < en <= len,
                    forall|j: int| st <= j < en ==> !is_ws(line@[j]),
                    en == len || is_ws(line@[en as int]),
                decreases len - en,
            {
                if ws(line.get_char(en)) {
                    break;
                }
                en = en + 1;
            }
            let ghost fields0 = fields@;
            let piece = line.substring_char(st, en);
            fields.push(piece.to_owned());
            proof {
                assert forall|j: int| 0 <= j < en - st implies !is_ws(rem[j]) by {
                    assert(rem[j] == line@[st + j]);
                }
                if en < len {
                    assert(rem[en - st] == line@[en as int]);
                }
                lemma_nonws_prefix_exact(rem, en - st);
                assert(rem.take(en - st) =~= line@.subrange(st as int, en as int));
                assert(rem.skip(en - st) =~= line@.skip(en as int));
                assert(spec_ws_fields(rem) == seq![line@.subrange(st as int, en as int)]
                    + spec_ws_fields(line@.skip(en as int)));
                assert(fields@.map(|i: int, s: String| s@) =~= fields0.map(
                    |i: int, s: String| s@,
                ).push(line@.subrange(st as int, en as int)));
            }
            p = en;
        }
    }
    proof {
        assert(line@.skip(len as int) =~= Seq::<char>::empty());
        assert(spec_ws_fields(line@.skip(from as int)) =~= fields@.map(|i: int, s: String| s@));
    }
    fields
}

/// Decode one positional line against a declared field count.
#[verifier::rlimit(100)]
pub fn decode_positional(line: &str, field_count: usize) -> (r: Result<
    PositionalRecord,
    DecodeError,
>)
    ensures
        match r {
            Ok(p) => spec_decode_positional(line@, field_count as int) == Result::<
                SpecPositional,
                DecodeError,
            >::Ok(p@),
            Err(e) => spec_decode_positional(line@, field_count as int) == Result::<
                SpecPositional,
                DecodeError,
            >::Err(e),
        },
{
    let len = line.unicode_len();
    // The leading digit run.
    let mut dl: usize = 0;
    while dl < len
        invariant
            dl <= len,
            len == line@.len(),
            forall|j: int| 0 <= j < dl ==> is_digit(line@[j]),
        ensures
            dl <= len,
            forall|j: int| 0 <= j < dl ==> is_digit(line@[j]),
            dl == len || !is_digit(line@[dl as int]),
        decreases len - dl,
    {
        let c = line.get_char(dl);
        if !((c as u32) >= ('0' as u32) && (c as u32) <= ('9' as u32)) {
            break;
        }
        dl = dl + 1;
    }
    proof {
        lemma_digits_prefix_exact(line@, dl as int);
    }
    if dl == 0 {
        return Err(DecodeError::GrammarMismatch);
    }
    // Horizontal whitespace, then the opening parenthesis.
    let mut a: usize = dl;
    while a < len
        invariant
            dl <= a <= len,
            len == line@.len(),
            forall|j: int| dl <= j < a ==> crate::text::is_hws(line@[j]),
        ensures
            dl <= a <= len,
            forall|j: int| dl <= j < a ==> crate::text::is_hws(line@[j]),
            a == len || !crate::text::is_hws(line@[a as int]),
        decreases len - a,
    {
        if !crate::text::hws(line.get_char(a)) {
            break;
        }
        a = a + 1;
    }
    proof {
        let rest = line@.skip(dl as int);
        assert forall|j: int| 0 <= j < a - dl implies crate::text::is_hws(rest[j]) by {
            assert(rest[j] == line@[dl + j]);
        }
        if a < len {
            assert(rest[a - dl] == line@[a as int]);
        }
        crate::text::lemma_trim_start_exact(rest, a - dl);
        assert(dl + trim_start(line@.skip(dl as int)) == a as int);
    }
    if a >= len || line.get_char(a) != '(' {
        return Err(DecodeError::GrammarMismatch);
    }
    // The last closing parenthesis of the whole line.
    let mut q: usize = len;
    let mut rp_found = false;
    let mut rp: usize = 0;
    while q > 0
        invariant_except_break
            !rp_found,
        invariant
            q <= len,
            len == line@.len(),
            forall|j: int| q <= j < len ==> line@[j] != ')',
        ensures
            (rp_found && rp < len && line@[rp as int] == ')' && forall|j: int|
                rp < j < len ==> line@[j] != ')') || (!rp_found && forall|j: int|
                0 <= j < len ==> line@[j] != ')'),
        decreases q,
    {
        if line.get_char(q - 1) == ')' {
            rp_found = true;
            rp = q - 1;
            break;
        }
        q = q - 1;
    }
    if !rp_found {
        proof {
            lemma_rfind_char(line@, ')');
            if rfind_char(line@, ')') >= 0 {
                assert(line@[rfind_char(line@, ')')] != ')');
            }
        }
        return Err(DecodeError::GrammarMismatch);
    }
    proof {
        lemma_rfind_char_exact(line@, ')', rp as int);
    }
    if rp <= a {
        return Err(DecodeError::GrammarMismatch);
    }
    // The whitespace-delimited fields after the parenthesized one.
    let fields = split_ws(line, rp + 1);
    if fields.len() != field_count {
        return Err(DecodeError::ShapeMismatch);
    }
    let key = line.substring_char(0, dl).to_owned();
    let command = line.substring_char(a + 1, rp).to_owned();
    proof {
        assert(key@ =~= line@.take(dl as int));
    }
    Ok(PositionalRecord { key, command, fields })
}

} // verus!
