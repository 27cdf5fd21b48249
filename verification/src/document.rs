//! Sequence-of-records decoding.
//!
//! A document is an ordered sequence of records separated by blank lines.
//! The input is partitioned into sections before any token-level decoding:
//! each section is a maximal run of non-blank lines, and each section is
//! then decoded as one record. An input with no section break yields a
//! single-element sequence.

use vstd::prelude::*;

use crate::deserialize::{
    decode_record, spec_decode_record, Record, Schema, SpecField, SpecValue,
};
use crate::text::{find_char, is_blank, lemma_find_char, spec_lines, trim_range};
use crate::DecodeError;

verus! {

/// Number of leading non-blank lines.
pub open spec fn nonblank_prefix_len(ls: Seq<Seq<char>>) -> int
    decreases ls.len(),
{
    if ls.len() == 0 || is_blank(ls[0]) {
        0
    } else {
        1 + nonblank_prefix_len(ls.skip(1))
    }
}

pub proof fn lemma_nonblank_prefix(ls: Seq<Seq<char>>)
    ensures
        0 <= nonblank_prefix_len(ls) <= ls.len(),
        forall|i: int| 0 <= i < nonblank_prefix_len(ls) ==> !is_blank(ls[i]),
        nonblank_prefix_len(ls) < ls.len() ==> is_blank(ls[nonblank_prefix_len(ls)]),
    decreases ls.len(),
{
    if ls.len() > 0 && !is_blank(ls[0]) {
        lemma_nonblank_prefix(ls.skip(1));
        let t = nonblank_prefix_len(ls.skip(1));
        assert forall|i: int| 0 <= i < t + 1 implies !is_blank(ls[i]) by {
            if i > 0 {
                assert(ls[i] == ls.skip(1)[i - 1]);
            }
        }
        if t + 1 < ls.len() {
            assert(ls[t + 1] == ls.skip(1)[t]);
        }
    }
}

/// The lines grouped into sections: each section is a maximal run of
/// consecutive non-blank lines, in input order.
pub open spec fn spec_line_sections(ls: Seq<Seq<char>>) -> Seq<Seq<Seq<char>>>
    decreases ls.len(),
    via spec_line_sections_decreases
{
    if ls.len() == 0 {
        Seq::empty()
    } else if is_blank(ls[0]) {
        spec_line_sections(ls.skip(1))
    } else {
        let k = nonblank_prefix_len(ls);
        seq![ls.take(k)] + spec_line_sections(ls.skip(k))
    }
}

#[via_fn]
proof fn spec_line_sections_decreases(ls: Seq<Seq<char>>) {
    lemma_nonblank_prefix(ls);
}

/// What decoding one section (one record's lines) yields: the record
/// decode applied to the section's own tokens.
pub open spec fn spec_decode_section(sec: Seq<Seq<char>>, fields: Seq<SpecField>) -> Result<
    Seq<Option<SpecValue>>,
    DecodeError,
> {
    crate::deserialize::spec_decode_record_toks(
        crate::token::spec_tokens_of_lines(sec).push(
            crate::token::SpecToken { kind: crate::token::TokenKind::EndOfInput, text: Seq::empty() },
        ),
        fields,
    )
}

/// Decode a list of sections in order; the first failure is the
/// document's failure.
pub open spec fn spec_decode_sections(
    secs: Seq<Seq<Seq<char>>>,
    fields: Seq<SpecField>,
) -> Result<Seq<Seq<Option<SpecValue>>>, DecodeError>
    decreases secs.len(),
{
    if secs.len() == 0 {
        Result::Ok(Seq::empty())
    } else {
        match spec_decode_section(secs[0], fields) {
            Result::Ok(r) => match spec_decode_sections(secs.skip(1), fields) {
                Result::Ok(rs) => Result::Ok(seq![r] + rs),
                Result::Err(e) => Result::Err(e),
            },
            Result::Err(e) => Result::Err(e),
        }
    }
}

/// What decoding a document yields: its sections decoded in order. An
/// input without content decodes as a single empty section, so a
/// sequence-shaped decode of it is a single-element sequence.
pub open spec fn spec_decode_document(input: Seq<char>, fields: Seq<SpecField>) -> Result<
    Seq<Seq<Option<SpecValue>>>,
    DecodeError,
> {
    let secs = spec_line_sections(spec_lines(input));
    if secs.len() == 0 {
        spec_decode_sections(seq![Seq::empty()], fields)
    } else {
        spec_decode_sections(secs, fields)
    }
}

/// A successful section-list decode yields one slot list per section,
/// each with one slot per schema field.
pub proof fn lemma_decode_sections_len(secs: Seq<Seq<Seq<char>>>, fields: Seq<SpecField>)
    ensures
        spec_decode_sections(secs, fields) matches Ok(rs) ==> rs.len() == secs.len() && forall|
            i: int,
        | 0 <= i < rs.len() ==> (#[trigger] rs[i]).len() == fields.len(),
    decreases secs.len(),
{
    if secs.len() > 0 {
        crate::deserialize::lemma_decode_record_toks_len(
            crate::token::spec_tokens_of_lines(secs[0]).push(
                crate::token::SpecToken {
                    kind: crate::token::TokenKind::EndOfInput,
                    text: Seq::empty(),
                },
            ),
            fields,
        );
        lemma_decode_sections_len(secs.skip(1), fields);
        let d0 = spec_decode_section(secs[0], fields);
        let d1 = spec_decode_sections(secs.skip(1), fields);
        if d0 is Ok && d1 is Ok {
            let r = d0->Ok_0;
            let rs2 = d1->Ok_0;
            let rs = seq![r] + rs2;
            assert forall|i: int| 0 <= i < rs.len() implies (#[trigger] rs[i]).len()
                == fields.len() by {
                if i > 0 {
                    assert(rs[i] == rs2[i - 1]);
                }
            }
        }
    }
}

/// A successful document decode yields records with one slot per schema
/// field.
pub proof fn lemma_decode_document_len(input: Seq<char>, fields: Seq<SpecField>)
    ensures
        spec_decode_document(input, fields) matches Ok(docs) ==> forall|i: int|
            0 <= i < docs.len() ==> (#[trigger] docs[i]).len() == fields.len(),
{
    let secs = spec_line_sections(spec_lines(input));
    if secs.len() == 0 {
        lemma_decode_sections_len(seq![Seq::<Seq<char>>::empty()], fields);
    } else {
        lemma_decode_sections_len(secs, fields);
    }
}

/// The texts of a list of line spans.
pub open spec fn span_texts(input: Seq<char>, spans: Seq<(usize, usize)>) -> Seq<Seq<char>> {
    spans.map(|i: int, p: (usize, usize)| input.subrange(p.0 as int, p.1 as int))
}

/// Line spans are well formed: each within the input and free of newlines,
/// consecutive ones separated by exactly one newline, the first at the
/// input's start, the last ending at the input's end or just before a
/// final newline.
pub open spec fn wf_line_spans(input: Seq<char>, spans: Seq<(usize, usize)>) -> bool {
    &&& forall|i: int|
        0 <= i < spans.len() ==> (#[trigger] spans[i]).0 <= spans[i].1 && spans[i].1 <= input.len()
    &&& forall|i: int, j: int|
        #![trigger spans[i], input[j]]
        0 <= i < spans.len() && spans[i].0 <= j < spans[i].1 ==> input[j] != '\n'
    &&& forall|i: int|
        #![trigger spans[i], spans[i + 1]]
        0 <= i < spans.len() - 1 ==> spans[i].1 + 1 == spans[i + 1].0 && input[spans[i].1 as int]
            == '\n'
    &&& spans.len() > 0 ==> spans[0].0 == 0
    &&& spans.len() > 0 ==> (spans[spans.len() - 1].1 == input.len() || input[spans[spans.len()
        - 1].1 as int] == '\n')
}

/// Split the input into its line spans.
fn line_spans(input: &str) -> (r: Vec<(usize, usize)>)
    ensures
        span_texts(input@, r@) =~= spec_lines(input@),
        wf_line_spans(input@, r@),
{
    let len = input.unicode_len();
    let mut spans: Vec<(usize, usize)> = Vec::new();
    let mut p: usize = 0;
    proof {
        assert(input@.skip(0) =~= input@);
        assert(span_texts(input@, spans@) =~= Seq::<Seq<char>>::empty());
    }
    while p < len
        invariant
            p <= len,
            len == input@.len(),
            spec_lines(input@) =~= span_texts(input@, spans@) + spec_lines(input@.skip(p as int)),
            forall|i: int|
                0 <= i < spans@.len() ==> (#[trigger] spans@[i]).0 <= spans@[i].1 && spans@[i].1
                    <= len,
            forall|i: int, j: int|
                #![trigger spans@[i], input@[j]]
                0 <= i < spans@.len() && spans@[i].0 <= j < spans@[i].1 ==> input@[j] != '\n',
            forall|i: int|
                #![trigger spans@[i], spans@[i + 1]]
                0 <= i < spans@.len() - 1 ==> spans@[i].1 + 1 == spans@[i + 1].0
                    && input@[spans@[i].1 as int] == '\n',
            spans@.len() > 0 ==> spans@[0].0 == 0,
            spans@.len() > 0 ==> ((spans@[spans@.len() - 1].1 + 1 == p && input@[spans@[spans@.len()
                - 1].1 as int] == '\n') || (spans@[spans@.len() - 1].1 == p && p == len)),
            spans@.len() == 0 ==> p == 0,
        decreases len - p,
    {
        let ghost rem = input@.skip(p as int);
        let ghost spans0 = spans@;
        proof {
            assert(input@.subrange(p as int, len as int) =~= rem);
        }
        let nl_opt = crate::text::find_char_range(input, p, len, '\n');
        let (line_end, next_p) = match nl_opt {
            Some(nl) => (nl, nl + 1),
            None => (len, len),
        };
        proof {
            let rel = find_char(rem, '\n');
            assert(rem.len() > 0);
            if nl_opt is Some {
                let nl = line_end as int;
                assert(rel == nl - p);
                lemma_find_char(rem, '\n');
                assert forall|j: int| p <= j < nl implies input@[j] != '\n' by {
                    assert(rem[j - p] == input@[j]);
                }
                assert(rem.subrange(0, rel) =~= input@.subrange(p as int, nl));
                assert(rem.subrange(rel + 1, rem.len() as int) =~= input@.skip(nl + 1));
                assert(spec_lines(rem) == seq![input@.subrange(p as int, nl)] + spec_lines(
                    input@.skip(nl + 1),
                ));
            } else {
                assert(rel < 0);
                lemma_find_char(rem, '\n');
                assert forall|j: int| p <= j < len implies input@[j] != '\n' by {
                    assert(rem[j - p] == input@[j]);
                }
                assert(spec_lines(rem) =~= seq![rem]);
                assert(input@.skip(len as int) =~= Seq::<char>::empty());
            }
        }
        spans.push((p, line_end));
        proof {
            assert(spans@ =~= spans0.push((p, line_end)));
            assert(span_texts(input@, spans@) =~= span_texts(input@, spans0).push(
                input@.subrange(p as int, line_end as int),
            ));
            assert(spec_lines(input@.skip(p as int)) == seq![
                input@.subrange(p as int, line_end as int),
            ] + spec_lines(input@.skip(next_p as int)));
        }
        p = next_p;
    }
    proof {
        assert(input@.skip(len as int) =~= Seq::<char>::empty());
        assert(spec_lines(input@) =~= span_texts(input@, spans@));
    }
    spans
}

/// A newline-free, non-empty text is a single line.
proof fn lemma_lines_unit(a: Seq<char>)
    requires
        forall|m: int| 0 <= m < a.len() ==> a[m] != '\n',
        a.len() > 0,
    ensures
        spec_lines(a) == seq![a],
{
    lemma_find_char(a, '\n');
    if find_char(a, '\n') >= 0 {
        assert(a[find_char(a, '\n')] != '\n');
    }
    assert(spec_lines(a) =~= seq![a]);
}

/// A text whose first newline sits at `k` splits into the line before it
/// and the lines after it.
proof fn lemma_lines_cons(s: Seq<char>, k: int)
    requires
        0 <= k < s.len(),
        s[k] == '\n',
        forall|m: int| 0 <= m < k ==> s[m] != '\n',
    ensures
        spec_lines(s) == seq![s.subrange(0, k)] + spec_lines(s.subrange(k + 1, s.len() as int)),
{
    crate::text::lemma_find_char_exact(s, '\n', k);
}

/// One step of reading a section back: the first line, its newline, and
/// the rest.
#[verifier::spinoff_prover]
proof fn lemma_section_lines_step(
    input: Seq<char>,
    spans: Seq<(usize, usize)>,
    i: int,
    j: int,
)
    requires
        0 <= i < j - 1 < spans.len(),
        spans[i].0 <= spans[i].1 < spans[j - 1].1 <= input.len(),
        spans[i].1 + 1 == spans[i + 1].0,
        input[spans[i].1 as int] == '\n',
        forall|m: int| spans[i].0 <= m < spans[i].1 ==> input[m] != '\n',
        spec_lines(input.subrange(spans[i + 1].0 as int, spans[j - 1].1 as int)) == span_texts(
            input,
            spans.subrange(i + 1, j),
        ),
    ensures
        spec_lines(input.subrange(spans[i].0 as int, spans[j - 1].1 as int)) == span_texts(
            input,
            spans.subrange(i, j),
        ),
{
    let s0 = spans[i].0 as int;
    let e0 = spans[i].1 as int;
    let e_last = spans[j - 1].1 as int;
    let sub = input.subrange(s0, e_last);
    assert forall|m: int| 0 <= m < e0 - s0 implies sub[m] != '\n' by {
        assert(sub[m] == input[s0 + m]);
    }
    assert(sub[e0 - s0] == input[e0]);
    lemma_lines_cons(sub, e0 - s0);
    assert(sub.subrange(0, e0 - s0) =~= input.subrange(s0, e0));
    assert(sub.subrange(e0 - s0 + 1, sub.len() as int) =~= input.subrange(
        spans[i + 1].0 as int,
        e_last,
    ));
    let lhs = seq![input.subrange(s0, e0)] + span_texts(input, spans.subrange(i + 1, j));
    let rhs = span_texts(input, spans.subrange(i, j));
    assert forall|m: int| 0 <= m < rhs.len() implies lhs[m] == rhs[m] by {
        assert(spans.subrange(i, j)[m] == spans[m + i]);
        if m > 0 {
            assert(spans.subrange(i + 1, j)[m - 1] == spans[m + i]);
        }
    }
    assert(lhs =~= rhs);
}

/// A run of whole, non-blank lines reads back as exactly those lines.
#[verifier::spinoff_prover]
#[verifier::rlimit(100)]
proof fn lemma_section_lines(input: Seq<char>, spans: Seq<(usize, usize)>, i: int, j: int)
    requires
        wf_line_spans(input, spans),
        0 <= i < j <= spans.len(),
        forall|k: int| i <= k < j ==> (#[trigger] spans[k]).0 < spans[k].1,
    ensures
        spec_lines(input.subrange(spans[i].0 as int, spans[j - 1].1 as int)) == span_texts(
            input,
            spans.subrange(i, j),
        ),
    decreases j - i,
{
    let s0 = spans[i].0 as int;
    let e_last = spans[j - 1].1 as int;
    let sub = input.subrange(s0, e_last);
    if j - 1 == i {
        assert(sub.len() > 0);
        assert forall|m: int| 0 <= m < sub.len() implies sub[m] != '\n' by {
            assert(sub[m] == input[s0 + m]);
        }
        lemma_lines_unit(sub);
        assert(span_texts(input, spans.subrange(i, j)) =~= seq![sub]);
    } else {
        assert forall|k: int|
            #![trigger spans[k], spans[k + 1]]
            i <= k < j - 1 implies spans[k].1 < spans[k + 1].1 by {
            assert(spans[k].1 + 1 == spans[k + 1].0);
        }
        assert(spans[i].1 < spans[i + 1].1);
        lemma_spans_sorted(spans, i + 1, j - 1);
        assert(spans[i].1 < spans[j - 1].1);
        lemma_section_lines(input, spans, i + 1, j);
        lemma_section_lines_step(input, spans, i, j);
    }
}

/// The line groups that section index ranges denote.
pub open spec fn sec_groups(lines: Seq<Seq<char>>, secs: Seq<(usize, usize)>) -> Seq<
    Seq<Seq<char>>,
> {
    secs.map(|k: int, p: (usize, usize)| lines.subrange(p.0 as int, p.1 as int))
}

/// The mathematical image of a list of decoded records.
pub open spec fn recs_view(rs: Seq<Record>) -> Seq<Seq<Option<SpecValue>>> {
    rs.map(|i: int, rec: Record| rec@)
}

/// A position with only non-blank lines before it and a blank line (or the
/// end) at it pins `nonblank_prefix_len` exactly.
proof fn lemma_nonblank_prefix_exact(ls: Seq<Seq<char>>, k: int)
    requires
        0 <= k <= ls.len(),
        forall|i: int| 0 <= i < k ==> !is_blank(ls[i]),
        k == ls.len() || is_blank(ls[k]),
    ensures
        nonblank_prefix_len(ls) == k,
{
    lemma_nonblank_prefix(ls);
    let t = nonblank_prefix_len(ls);
    if t < k {
        assert(!is_blank(ls[t]));
    } else if t > k {
        assert(is_blank(ls[k]));
    }
}

/// Decode a document: partition the input into blank-line-delimited
/// sections, decode each section as one record, and return the records in
/// input order. An input with no section break yields one record; the
/// first failing section fails the whole call with its own error.
#[verifier::rlimit(100)]
pub fn decode_document(input: &str, schema: &Schema) -> (r: Result<Vec<Record>, DecodeError>)
    ensures
        match r {
            Ok(v) => spec_decode_document(input@, schema@) == Result::<
                Seq<Seq<Option<SpecValue>>>,
                DecodeError,
            >::Ok(recs_view(v@)),
            Err(e) => spec_decode_document(input@, schema@) == Result::<
                Seq<Seq<Option<SpecValue>>>,
                DecodeError,
            >::Err(e),
        },
{
    let spans = line_spans(input);
    let ghost lines = spec_lines(input@);
    let nspans = spans.len();
    let mut secs: Vec<(usize, usize)> = Vec::new();
    let mut li: usize = 0;
    proof {
        assert(lines.skip(0) =~= lines);
        assert(sec_groups(lines, secs@) =~= Seq::<Seq<Seq<char>>>::empty());
    }
    while li < nspans
        invariant
            li <= nspans,
            nspans == spans@.len(),
            lines == span_texts(input@, spans@),
            wf_line_spans(input@, spans@),
            spec_line_sections(lines) =~= sec_groups(lines, secs@) + spec_line_sections(
                lines.skip(li as int),
            ),
            forall|k: int|
                0 <= k < secs@.len() ==> 0 <= (#[trigger] secs@[k]).0 && secs@[k].0 < secs@[k].1
                    && secs@[k].1 <= li,
            forall|k: int, m: int|
                #![trigger secs@[k], lines[m]]
                0 <= k < secs@.len() && secs@[k].0 <= m < secs@[k].1 ==> !is_blank(lines[m]),
        decreases nspans - li,
    {
        let sp = spans[li];
        let tr = trim_range(input, sp.0, sp.1);
        let ghost line = input@.subrange(sp.0 as int, sp.1 as int);
        proof {
            crate::text::lemma_blank_trim(line);
            assert(lines[li as int] == line);
            assert(lines.skip(li as int)[0] == lines[li as int]);
        }
        if tr.1 == sp.0 {
            // A blank line between sections.
            proof {
                assert(is_blank(line));
                assert(lines.skip(li as int).skip(1) =~= lines.skip(li + 1));
            }
            li = li + 1;
        } else {
            assert(!is_blank(line));
            let lo = li;
            let mut hi = li + 1;
            while hi < nspans
                invariant
                    lo < hi <= nspans,
                    nspans == spans@.len(),
                    lines == span_texts(input@, spans@),
                    wf_line_spans(input@, spans@),
                    forall|m: int| lo <= m < hi ==> !is_blank(#[trigger] lines[m]),
                ensures
                    lo < hi <= nspans,
                    forall|m: int| lo <= m < hi ==> !is_blank(#[trigger] lines[m]),
                    hi == nspans || is_blank(lines[hi as int]),
                decreases nspans - hi,
            {
                let sp2 = spans[hi];
                let tr2 = trim_range(input, sp2.0, sp2.1);
                let ghost line2 = input@.subrange(sp2.0 as int, sp2.1 as int);
                proof {
                    crate::text::lemma_blank_trim(line2);
                    assert(lines[hi as int] == line2);
                }
                if tr2.1 == sp2.0 {
                    break;
                }
                hi = hi + 1;
            }
            let ghost secs0 = secs@;
            secs.push((lo, hi));
            proof {
                let rem = lines.skip(lo as int);
                assert forall|m: int| 0 <= m < hi - lo implies !is_blank(rem[m]) by {
                    assert(rem[m] == lines[lo + m]);
                }
                if hi < nspans {
                    assert(rem[hi - lo] == lines[hi as int]);
                }
                lemma_nonblank_prefix_exact(rem, hi - lo);
                assert(!is_blank(rem[0]));
                assert(rem.take(hi - lo) =~= lines.subrange(lo as int, hi as int));
                assert(rem.skip(hi - lo) =~= lines.skip(hi as int));
                assert(spec_line_sections(rem) == seq![lines.subrange(lo as int, hi as int)]
                    + spec_line_sections(lines.skip(hi as int)));
                assert(secs@ =~= secs0.push((lo, hi)));
                assert(sec_groups(lines, secs@) =~= sec_groups(lines, secs0).push(
                    lines.subrange(lo as int, hi as int),
                ));
            }
            li = hi;
        }
    }
    proof {
        assert(lines.skip(nspans as int) =~= Seq::<Seq<char>>::empty());
        assert(spec_line_sections(lines) =~= sec_groups(lines, secs@));
    }
    let ghost specsecs = spec_line_sections(lines);
    let nsecs = secs.len();
    let mut out: Vec<Record> = Vec::new();
    if nsecs == 0 {
        // No content at all: the document is one empty record.
        let sub = input.substring_char(0, 0);
        proof {
            assert(sub@ =~= Seq::<char>::empty());
            assert(spec_lines(sub@) =~= Seq::<Seq<char>>::empty());
            assert(crate::token::spec_tokenize(sub@) =~= crate::token::spec_tokens_of_lines(
                Seq::<Seq<char>>::empty(),
            ).push(
                crate::token::SpecToken {
                    kind: crate::token::TokenKind::EndOfInput,
                    text: Seq::empty(),
                },
            ));
            assert(spec_decode_record(sub@, schema@) == spec_decode_section(
                Seq::<Seq<char>>::empty(),
                schema@,
            ));
            assert(spec_decode_document(input@, schema@) == spec_decode_sections(
                seq![Seq::<Seq<char>>::empty()],
                schema@,
            ));
            assert(seq![Seq::<Seq<char>>::empty()].skip(1) =~= Seq::<Seq<Seq<char>>>::empty());
        }
        match decode_record(sub, schema) {
            Ok(rec) => {
                out.push(rec);
                proof {
                    assert(recs_view(out@) =~= seq![rec@] + Seq::<Seq<Option<SpecValue>>>::empty());
                }
                return Ok(out);
            },
            Err(e) => {
                return Err(e);
            },
        }
    }
    let mut d: usize = 0;
    proof {
        assert(specsecs.skip(0) =~= specsecs);
        assert(recs_view(out@) =~= Seq::<Seq<Option<SpecValue>>>::empty());
    }
    while d < nsecs
        invariant
            d <= nsecs,
            nsecs == secs@.len(),
            nsecs > 0,
            nspans == spans@.len(),
            lines == span_texts(input@, spans@),
            wf_line_spans(input@, spans@),
            specsecs == sec_groups(lines, secs@),
            specsecs == spec_line_sections(lines),
            lines == spec_lines(input@),
            forall|k: int|
                0 <= k < secs@.len() ==> 0 <= (#[trigger] secs@[k]).0 && secs@[k].0 < secs@[k].1
                    && secs@[k].1 <= nspans,
            forall|k: int, m: int|
                #![trigger secs@[k], lines[m]]
                0 <= k < secs@.len() && secs@[k].0 <= m < secs@[k].1 ==> !is_blank(lines[m]),
            out@.len() == d,
            spec_decode_sections(specsecs, schema@) == (match spec_decode_sections(
                specsecs.skip(d as int),
                schema@,
            ) {
                Result::Ok(rest) => Result::<Seq<Seq<Option<SpecValue>>>, DecodeError>::Ok(
                    recs_view(out@) + rest,
                ),
                Result::Err(e) => Result::<Seq<Seq<Option<SpecValue>>>, DecodeError>::Err(e),
            }),
        decreases nsecs - d,
    {
        let sec = secs[d];
        let lo = sec.0;
        let hi = sec.1;
        let s = spans[lo].0;
        let e = spans[hi - 1].1;
        proof {
            assert forall|m: int| lo as int <= m < hi as int implies (#[trigger] spans@[m]).0
                < spans@[m].1 by {
                assert(!is_blank(lines[m]));
                assert(lines[m] == input@.subrange(spans@[m].0 as int, spans@[m].1 as int));
                if spans@[m].0 == spans@[m].1 {
                    assert(lines[m].len() == 0);
                }
            }
            assert forall|k: int|
                #![trigger spans@[k], spans@[k + 1]]
                lo as int <= k < hi - 1 implies spans@[k].1 < spans@[k + 1].1 by {
                assert(spans@[k].1 + 1 == spans@[k + 1].0);
            }
            if (lo as int) < hi - 1 {
                lemma_spans_sorted(spans@, lo as int, hi - 1);
            }
            assert(s <= e <= input@.len());
            lemma_section_lines(input@, spans@, lo as int, hi as int);
            assert(span_texts(input@, spans@.subrange(lo as int, hi as int)) =~= lines.subrange(
                lo as int,
                hi as int,
            ));
            assert(specsecs[d as int] == lines.subrange(lo as int, hi as int));
        }
        let sub = input.substring_char(s, e);
        proof {
            assert(spec_lines(sub@) == specsecs[d as int]);
            assert(spec_decode_record(sub@, schema@) == spec_decode_section(
                specsecs[d as int],
                schema@,
            ));
            assert(specsecs.skip(d as int)[0] == specsecs[d as int]);
            assert(specsecs.skip(d as int).skip(1) =~= specsecs.skip(d + 1));
        }
        match decode_record(sub, schema) {
            Ok(rec) => {
                let ghost out0 = out@;
                out.push(rec);
                proof {
                    assert(recs_view(out@) =~= recs_view(out0).push(rec@));
                    if spec_decode_sections(specsecs.skip(d + 1), schema@) is Ok {
                        let rest = spec_decode_sections(specsecs.skip(d + 1), schema@)->Ok_0;
                        assert(recs_view(out0) + (seq![rec@] + rest) =~= recs_view(out@) + rest);
                    }
                }
            },
            Err(e) => {
                return Err(e);
            },
        }
        d = d + 1;
    }
    proof {
        assert(specsecs.skip(nsecs as int) =~= Seq::<Seq<Seq<char>>>::empty());
        assert(recs_view(out@) + Seq::<Seq<Option<SpecValue>>>::empty() =~= recs_view(out@));
    }
    Ok(out)
}

/// Ends of line spans are increasing across a range.
proof fn lemma_spans_sorted(spans: Seq<(usize, usize)>, i: int, j: int)
    requires
        0 <= i <= j < spans.len(),
        forall|k: int| #![trigger spans[k], spans[k + 1]] i <= k < j ==> spans[k].1 < spans[k
            + 1].1,
    ensures
        spans[i].1 <= spans[j].1,
    decreases j - i,
{
    if i < j {
        lemma_spans_sorted(spans, i + 1, j);
    }
}

} // verus!
