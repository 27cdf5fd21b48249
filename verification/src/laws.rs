//! Engine-wide laws: statements that relate whole decode calls, proved
//! once and for all inputs.

use vstd::prelude::*;

use crate::deserialize::{
    empty_acc, spec_decode_entries, spec_decode_record, spec_decode_record_toks, SpecField,
    SpecValue,
};
use crate::document::spec_decode_document;
use crate::text::{find_char, is_blank, is_hws, lemma_find_char, lemma_find_char_exact, spec_lines};
use crate::token::{spec_line_tokens, spec_tokenize, spec_tokens_of_lines, SpecToken, TokenKind};
use crate::DecodeError;

verus! {

/// Decoding is a function of the input text and the schema alone: the
/// same text decoded twice against the same schema yields the same
/// result, record-shaped or sequence-shaped; no state is carried from one
/// call into the next.
pub proof fn lemma_decode_idempotent(
    input1: Seq<char>,
    input2: Seq<char>,
    fields1: Seq<SpecField>,
    fields2: Seq<SpecField>,
)
    requires
        input1 == input2,
        fields1 == fields2,
    ensures
        spec_decode_record(input1, fields1) == spec_decode_record(input2, fields2),
        spec_decode_document(input1, fields1) == spec_decode_document(input2, fields2),
{
}

/// Splitting into lines distributes over concatenation at a newline
/// boundary.
proof fn lemma_lines_append(s: Seq<char>, t: Seq<char>)
    requires
        s.len() == 0 || s[s.len() - 1] == '\n',
    ensures
        spec_lines(s + t) == spec_lines(s) + spec_lines(t),
    decreases s.len(),
{
    if s.len() == 0 {
        assert(s + t =~= t);
        assert(spec_lines(s) + spec_lines(t) =~= spec_lines(t));
    } else {
        lemma_find_char(s, '\n');
        let i = find_char(s, '\n');
        assert(i >= 0) by {
            if i < 0 {
                assert(s[s.len() - 1] != '\n');
            }
        }
        let u = s + t;
        assert forall|j: int| 0 <= j < i implies u[j] != '\n' by {
            assert(u[j] == s[j]);
        }
        assert(u[i] == s[i]);
        lemma_find_char_exact(u, '\n', i);
        let s2 = s.skip(i + 1);
        assert(s2.len() == 0 || s2[s2.len() - 1] == '\n') by {
            if s2.len() > 0 {
                assert(s2[s2.len() - 1] == s[s.len() - 1]);
            }
        }
        lemma_lines_append(s2, t);
        assert(u.subrange(0, i) =~= s.subrange(0, i));
        assert(u.subrange(i + 1, u.len() as int) =~= s2 + t);
        assert(spec_lines(u) == seq![s.subrange(0, i)] + (spec_lines(s2) + spec_lines(t)));
        assert(spec_lines(s) == seq![s.subrange(0, i)] + spec_lines(s2));
        assert(seq![s.subrange(0, i)] + (spec_lines(s2) + spec_lines(t)) =~= (seq![
            s.subrange(0, i),
        ] + spec_lines(s2)) + spec_lines(t));
    }
}

/// Tokenizing lines distributes over concatenation.
proof fn lemma_tokens_of_lines_append(a: Seq<Seq<char>>, b: Seq<Seq<char>>)
    ensures
        spec_tokens_of_lines(a + b) == spec_tokens_of_lines(a) + spec_tokens_of_lines(b),
    decreases a.len(),
{
    if a.len() == 0 {
        assert(a + b =~= b);
        assert(spec_tokens_of_lines(a) + spec_tokens_of_lines(b) =~= spec_tokens_of_lines(b));
    } else {
        assert((a + b)[0] == a[0]);
        assert((a + b).skip(1) =~= a.skip(1) + b);
        lemma_tokens_of_lines_append(a.skip(1), b);
        assert(spec_tokens_of_lines(a + b) == spec_line_tokens(a[0]) + (spec_tokens_of_lines(
            a.skip(1),
        ) + spec_tokens_of_lines(b)));
        assert(spec_line_tokens(a[0]) + (spec_tokens_of_lines(a.skip(1)) + spec_tokens_of_lines(b))
            =~= (spec_line_tokens(a[0]) + spec_tokens_of_lines(a.skip(1))) + spec_tokens_of_lines(
            b,
        ));
    }
}

/// Line tokens never include the terminal token.
proof fn lemma_tokens_of_lines_no_eoi(ls: Seq<Seq<char>>)
    ensures
        forall|i: int|
            0 <= i < spec_tokens_of_lines(ls).len() ==> (#[trigger] spec_tokens_of_lines(
                ls,
            )[i]).kind != TokenKind::EndOfInput,
    decreases ls.len(),
{
    if ls.len() > 0 {
        lemma_tokens_of_lines_no_eoi(ls.skip(1));
        let head = spec_line_tokens(ls[0]);
        let tail = spec_tokens_of_lines(ls.skip(1));
        assert forall|i: int|
            0 <= i < spec_tokens_of_lines(ls).len() implies (#[trigger] spec_tokens_of_lines(
            ls,
        )[i]).kind != TokenKind::EndOfInput by {
            if i < head.len() {
                assert(spec_tokens_of_lines(ls)[i] == head[i]);
            } else {
                assert(spec_tokens_of_lines(ls)[i] == tail[i - head.len()]);
            }
        }
    }
}

/// The junk a single non-whitespace character forms at the end of the
/// token list: a lone key, or a separator with an empty value.
spec fn junk_shape(x: Seq<SpecToken>) -> bool {
    ||| (x.len() == 1 && x[0].kind == TokenKind::Key)
    ||| (x.len() == 2 && x[0].kind == TokenKind::Separator && x[1].kind == TokenKind::Value)
}

/// An entry decode that succeeds turns into a trailing-characters failure
/// when junk of that shape follows the consumed tokens.
proof fn lemma_entries_trailing(
    a: Seq<SpecToken>,
    x: Seq<SpecToken>,
    fields: Seq<SpecField>,
    acc: Seq<Option<SpecValue>>,
)
    requires
        forall|i: int|
            0 <= i < a.len() ==> (#[trigger] a[i]).kind != TokenKind::EndOfInput,
        junk_shape(x),
        spec_decode_entries(
            a.push(SpecToken { kind: TokenKind::EndOfInput, text: Seq::empty() }),
            fields,
            acc,
        ) is Ok,
    ensures
        spec_decode_entries(
            (a + x).push(SpecToken { kind: TokenKind::EndOfInput, text: Seq::empty() }),
            fields,
            acc,
        ) == Result::<Seq<Option<SpecValue>>, DecodeError>::Err(DecodeError::TrailingCharacters),
    decreases a.len(),
{
    let eoi = SpecToken { kind: TokenKind::EndOfInput, text: Seq::empty() };
    let old_toks = a.push(eoi);
    let new_toks = (a + x).push(eoi);
    if a.len() == 0 {
        assert(new_toks[0] == x[0]);
        if x[0].kind == TokenKind::Key {
            assert(new_toks.len() == 2);
            assert(new_toks[1] == eoi);
        }
    } else {
        assert(old_toks[0] == a[0]);
        assert(new_toks[0] == a[0]);
        if a[0].kind == TokenKind::SectionBreak {
            // The whole remainder was blank; the junk now sits in it.
            let ji = a.len() as int;
            assert(new_toks[ji] == x[0]);
            assert(!crate::deserialize::spec_rest_blank(new_toks));
        } else if a[0].kind == TokenKind::Key {
            // The successful decode consumed a whole entry here.
            assert(old_toks.len() >= 2);
            assert(old_toks[1] == if a.len() >= 2 {
                a[1]
            } else {
                eoi
            });
            assert(a.len() >= 2 && a[1].kind == TokenKind::Separator) by {
                if a.len() == 1 {
                    assert(old_toks[1] == eoi);
                }
            }
            assert(a.len() >= 3 && a[2].kind == TokenKind::Value) by {
                if a.len() == 2 {
                    assert(old_toks[2] == eoi);
                } else {
                    assert(old_toks[2] == a[2]);
                }
            }
            assert(new_toks[1] == a[1]);
            assert(new_toks[2] == a[2]);
            assert(old_toks.skip(3) =~= a.skip(3).push(eoi));
            assert(new_toks.skip(3) =~= (a.skip(3) + x).push(eoi));
            let fi = crate::deserialize::spec_find_field(fields, a[0].text);
            crate::deserialize::lemma_find_field(fields, a[0].text);
            if fi < 0 || acc[fi] is Some {
                lemma_entries_trailing(a.skip(3), x, fields, acc);
            } else {
                match crate::deserialize::spec_prim_value(fields[fi].kind, a[2].text) {
                    Result::Ok(v) => {
                        lemma_entries_trailing(a.skip(3), x, fields, acc.update(fi, Option::Some(v)));
                    },
                    Result::Err(_) => {
                        assert(false);
                    },
                }
            }
        } else {
            // A separator or value first failed the successful decode.
            assert(false);
        }
    }
}

/// Appending one non-whitespace character to a fully decoded document
/// makes the same decode fail with a trailing-characters error. The
/// document must be newline-terminated (or empty), so that the appended
/// character forms a line of its own.
pub proof fn lemma_trailing_byte(input: Seq<char>, c: char, fields: Seq<SpecField>)
    requires
        spec_decode_record(input, fields) is Ok,
        input.len() == 0 || input[input.len() - 1] == '\n',
        !is_hws(c),
        c != '\n',
    ensures
        spec_decode_record(input.push(c), fields) == Result::<
            Seq<Option<SpecValue>>,
            DecodeError,
        >::Err(DecodeError::TrailingCharacters),
{
    let eoi = SpecToken { kind: TokenKind::EndOfInput, text: Seq::empty() };
    let junk_line = seq![c];
    lemma_lines_append(input, junk_line);
    assert(input + junk_line =~= input.push(c));
    assert(spec_lines(junk_line) =~= seq![junk_line]) by {
        assert(junk_line[0] == c);
        lemma_find_char(junk_line, '\n');
        if find_char(junk_line, '\n') >= 0 {
            assert(junk_line[find_char(junk_line, '\n')] == '\n');
        }
    }
    let a = spec_tokens_of_lines(spec_lines(input));
    let x = spec_line_tokens(junk_line);
    lemma_tokens_of_lines_append(spec_lines(input), seq![junk_line]);
    assert(spec_tokens_of_lines(seq![junk_line]) =~= x) by {
        assert(seq![junk_line][0] == junk_line);
        assert(seq![junk_line].skip(1) =~= Seq::<Seq<char>>::empty());
        assert(spec_tokens_of_lines(Seq::<Seq<char>>::empty()) =~= Seq::<SpecToken>::empty());
        assert(spec_tokens_of_lines(seq![junk_line]) == spec_line_tokens(junk_line)
            + spec_tokens_of_lines(Seq::<Seq<char>>::empty()));
        assert(x + Seq::<SpecToken>::empty() =~= x);
    }
    assert(spec_lines(input.push(c)) == spec_lines(input) + seq![junk_line]);
    assert(spec_tokens_of_lines(spec_lines(input.push(c))) == a + x);
    assert(junk_shape(x)) by {
        assert(!is_blank(junk_line)) by {
            assert(junk_line[0] == c);
        }
        lemma_find_char(junk_line, ':');
        let ci = find_char(junk_line, ':');
        if ci >= 0 {
            assert(junk_line[ci] == ':');
            assert(ci == 0);
            assert(junk_line.subrange(0, 0) =~= Seq::<char>::empty());
            assert(crate::text::spec_trim(Seq::<char>::empty()).len() == 0);
        }
    }
    lemma_tokens_of_lines_no_eoi(spec_lines(input));
    assert(spec_tokenize(input) == a.push(eoi));
    assert(spec_tokenize(input.push(c)) == (a + x).push(eoi));
    assert(spec_decode_entries(a.push(eoi), fields, empty_acc(fields.len())) is Ok) by {
        if spec_decode_entries(a.push(eoi), fields, empty_acc(fields.len())) is Err {
            assert(spec_decode_record(input, fields) is Err);
        }
    }
    lemma_entries_trailing(a, x, fields, empty_acc(fields.len()));
    assert(spec_decode_record_toks((a + x).push(eoi), fields) == Result::<
        Seq<Option<SpecValue>>,
        DecodeError,
    >::Err(DecodeError::TrailingCharacters));
}

/// The token triples of a list of key-value entries, as the tokenizer
/// lays them out for a block of `key: value` lines.
pub open spec fn entries_tokens(ps: Seq<(Seq<char>, Seq<char>)>) -> Seq<SpecToken>
    decreases ps.len(),
{
    if ps.len() == 0 {
        Seq::empty()
    } else {
        seq![
            SpecToken { kind: TokenKind::Key, text: ps[0].0 },
            SpecToken { kind: TokenKind::Separator, text: seq![':'] },
            SpecToken { kind: TokenKind::Value, text: ps[0].1 },
        ] + entries_tokens(ps.skip(1))
    }
}

/// No two entries share a key.
pub open spec fn distinct_keys(ps: Seq<(Seq<char>, Seq<char>)>) -> bool {
    forall|i: int, j: int|
        #![trigger ps[i], ps[j]]
        0 <= i < j < ps.len() ==> ps[i].0 != ps[j].0
}

/// No two schema fields read the same source key.
pub open spec fn distinct_aliases(fields: Seq<SpecField>) -> bool {
    forall|i: int, j: int|
        #![trigger fields[i], fields[j]]
        0 <= i < j < fields.len() ==> fields[i].alias != fields[j].alias
}

/// Every entry the schema binds decodes under its field's rule.
pub open spec fn block_decodes(ps: Seq<(Seq<char>, Seq<char>)>, fields: Seq<SpecField>) -> bool {
    forall|j: int|
        0 <= j < ps.len() ==> {
            let fi = crate::deserialize::spec_find_field(fields, (#[trigger] ps[j]).0);
            fi >= 0 ==> crate::deserialize::spec_prim_value(fields[fi].kind, ps[j].1) is Ok
        }
}

/// Every required field has an entry.
pub open spec fn block_complete(ps: Seq<(Seq<char>, Seq<char>)>, fields: Seq<SpecField>) -> bool {
    forall|i: int|
        0 <= i < fields.len() && !(#[trigger] fields[i]).optional ==> exists|j: int|
            0 <= j < ps.len() && (#[trigger] ps[j]).0 == fields[i].alias
}

/// The value a block binds to schema field `i`: the decoded value of the
/// entry carrying the field's source key, if there is one.
pub open spec fn block_value(
    ps: Seq<(Seq<char>, Seq<char>)>,
    fields: Seq<SpecField>,
    i: int,
) -> Option<SpecValue> {
    if exists|j: int| 0 <= j < ps.len() && (#[trigger] ps[j]).0 == fields[i].alias {
        let j = choose|j: int| 0 <= j < ps.len() && (#[trigger] ps[j]).0 == fields[i].alias;
        match crate::deserialize::spec_prim_value(fields[i].kind, ps[j].1) {
            Result::Ok(v) => Option::Some(v),
            Result::Err(_) => Option::None,
        }
    } else {
        Option::None
    }
}

/// The record a block denotes: each field looked up by its source key.
pub open spec fn block_record(ps: Seq<(Seq<char>, Seq<char>)>, fields: Seq<SpecField>) -> Seq<
    Option<SpecValue>,
> {
    Seq::new(fields.len(), |i: int| block_value(ps, fields, i))
}

/// With pairwise distinct aliases, each field is found under its own
/// alias.
proof fn lemma_find_field_self(fields: Seq<SpecField>, i: int)
    requires
        distinct_aliases(fields),
        0 <= i < fields.len(),
    ensures
        crate::deserialize::spec_find_field(fields, fields[i].alias) == i,
{
    assert forall|k: int| 0 <= k < i implies fields[k].alias != fields[i].alias by {
        assert(fields[k].alias != fields[i].alias);
    }
    crate::deserialize::lemma_find_field_exact(fields, fields[i].alias, i);
}

/// Dropping a first entry whose key is not field `i`'s alias does not
/// change the field's bound value.
proof fn lemma_block_value_skip(ps: Seq<(Seq<char>, Seq<char>)>, fields: Seq<SpecField>, i: int)
    requires
        distinct_keys(ps),
        ps.len() > 0,
        0 <= i < fields.len(),
        ps[0].0 != fields[i].alias,
    ensures
        block_value(ps, fields, i) == block_value(ps.skip(1), fields, i),
{
    let alias = fields[i].alias;
    if exists|j: int| 0 <= j < ps.len() && (#[trigger] ps[j]).0 == alias {
        let j = choose|j: int| 0 <= j < ps.len() && (#[trigger] ps[j]).0 == alias;
        assert(j != 0);
        assert(ps.skip(1)[j - 1] == ps[j]);
        assert(exists|k: int| 0 <= k < ps.skip(1).len() && (#[trigger] ps.skip(1)[k]).0 == alias);
        let k = choose|k: int| 0 <= k < ps.skip(1).len() && (#[trigger] ps.skip(1)[k]).0 == alias;
        assert(ps.skip(1)[k] == ps[k + 1]);
        assert(ps[k + 1].0 == alias);
        assert(j == k + 1) by {
            if j < k + 1 {
                assert(ps[j].0 != ps[k + 1].0);
            } else if j > k + 1 {
                assert(ps[k + 1].0 != ps[j].0);
            }
        }
    } else {
        if exists|k: int| 0 <= k < ps.skip(1).len() && (#[trigger] ps.skip(1)[k]).0 == alias {
            let k = choose|k: int| 0 <= k < ps.skip(1).len() && (#[trigger] ps.skip(1)[k]).0
                == alias;
            assert(ps[k + 1] == ps.skip(1)[k]);
            assert(ps[k + 1].0 == alias);
        }
    }
}

/// The entry loop on a block of distinct keys is a per-field lookup: it
/// succeeds, and each still-unbound field receives the value its source
/// key carries.
proof fn lemma_entries_lookup(
    ps: Seq<(Seq<char>, Seq<char>)>,
    fields: Seq<SpecField>,
    acc: Seq<Option<SpecValue>>,
)
    requires
        distinct_keys(ps),
        distinct_aliases(fields),
        acc.len() == fields.len(),
        block_decodes(ps, fields),
    ensures
        spec_decode_entries(
            entries_tokens(ps).push(SpecToken { kind: TokenKind::EndOfInput, text: Seq::empty() }),
            fields,
            acc,
        ) == Result::<Seq<Option<SpecValue>>, DecodeError>::Ok(
            Seq::new(
                fields.len(),
                |i: int|
                    if acc[i] is Some {
                        acc[i]
                    } else {
                        block_value(ps, fields, i)
                    },
            ),
        ),
    decreases ps.len(),
{
    let eoi = SpecToken { kind: TokenKind::EndOfInput, text: Seq::empty() };
    let toks = entries_tokens(ps).push(eoi);
    let target = Seq::new(
        fields.len(),
        |i: int|
            if acc[i] is Some {
                acc[i]
            } else {
                block_value(ps, fields, i)
            },
    );
    if ps.len() == 0 {
        assert(toks.len() == 1);
        assert(toks[0] == eoi);
        assert(crate::deserialize::spec_rest_blank(toks));
        assert(target =~= acc);
    } else {
        let rest = entries_tokens(ps.skip(1)).push(eoi);
        assert(toks[0].kind == TokenKind::Key && toks[0].text == ps[0].0);
        assert(toks[1].kind == TokenKind::Separator);
        assert(toks[2].kind == TokenKind::Value && toks[2].text == ps[0].1);
        assert(toks.skip(3) =~= rest);
        assert(distinct_keys(ps.skip(1))) by {
            assert forall|a: int, b: int|
                #![trigger ps.skip(1)[a], ps.skip(1)[b]]
                0 <= a < b < ps.skip(1).len() implies ps.skip(1)[a].0 != ps.skip(1)[b].0 by {
                assert(ps.skip(1)[a] == ps[a + 1]);
                assert(ps.skip(1)[b] == ps[b + 1]);
            }
        }
        assert(block_decodes(ps.skip(1), fields)) by {
            assert forall|j: int| 0 <= j < ps.skip(1).len() implies {
                let fi = crate::deserialize::spec_find_field(fields, (#[trigger] ps.skip(1)[j]).0);
                fi >= 0 ==> crate::deserialize::spec_prim_value(
                    fields[fi].kind,
                    ps.skip(1)[j].1,
                ) is Ok
            } by {
                assert(ps.skip(1)[j] == ps[j + 1]);
            }
        }
        let fi = crate::deserialize::spec_find_field(fields, ps[0].0);
        crate::deserialize::lemma_find_field(fields, ps[0].0);
        if fi < 0 || acc[fi] is Some {
            lemma_entries_lookup(ps.skip(1), fields, acc);
            let target2 = Seq::new(
                fields.len(),
                |i: int|
                    if acc[i] is Some {
                        acc[i]
                    } else {
                        block_value(ps.skip(1), fields, i)
                    },
            );
            assert(target =~= target2) by {
                assert forall|i: int| 0 <= i < fields.len() implies target[i] == target2[i] by {
                    if acc[i] is None {
                        assert(ps[0].0 != fields[i].alias) by {
                            if ps[0].0 == fields[i].alias {
                                lemma_find_field_self(fields, i);
                            }
                        }
                        lemma_block_value_skip(ps, fields, i);
                    }
                }
            }
        } else {
            assert(crate::deserialize::spec_prim_value(fields[fi].kind, ps[0].1) is Ok);
            let v = crate::deserialize::spec_prim_value(fields[fi].kind, ps[0].1)->Ok_0;
            let acc2 = acc.update(fi, Option::Some(v));
            lemma_entries_lookup(ps.skip(1), fields, acc2);
            let target2 = Seq::new(
                fields.len(),
                |i: int|
                    if acc2[i] is Some {
                        acc2[i]
                    } else {
                        block_value(ps.skip(1), fields, i)
                    },
            );
            assert(target =~= target2) by {
                assert forall|i: int| 0 <= i < fields.len() implies target[i] == target2[i] by {
                    if i == fi {
                        assert(fields[fi].alias == ps[0].0);
                        assert(exists|j: int|
                            0 <= j < ps.len() && (#[trigger] ps[j]).0 == fields[fi].alias) by {
                            assert(ps[0].0 == fields[fi].alias);
                        }
                        let j = choose|j: int|
                            0 <= j < ps.len() && (#[trigger] ps[j]).0 == fields[fi].alias;
                        assert(j == 0) by {
                            if j > 0 {
                                assert(ps[0].0 != ps[j].0);
                            }
                        }
                        assert(block_value(ps, fields, fi) == Option::Some(v));
                    } else if acc[i] is None {
                        assert(ps[0].0 != fields[i].alias) by {
                            if ps[0].0 == fields[i].alias {
                                lemma_find_field_self(fields, i);
                            }
                        }
                        lemma_block_value_skip(ps, fields, i);
                    }
                }
            }
        }
    }
}

/// Decoding a well-formed block is a per-field lookup: it succeeds, and
/// each field holds exactly the decoded value of the entry carrying its
/// source key. The block is given as its ordered key-value entries, the
/// form the tokenizer reduces a block of `key: value` lines to.
pub proof fn lemma_block_decode(ps: Seq<(Seq<char>, Seq<char>)>, fields: Seq<SpecField>)
    requires
        distinct_keys(ps),
        distinct_aliases(fields),
        block_decodes(ps, fields),
        block_complete(ps, fields),
    ensures
        spec_decode_record_toks(
            entries_tokens(ps).push(SpecToken { kind: TokenKind::EndOfInput, text: Seq::empty() }),
            fields,
        ) == Result::<Seq<Option<SpecValue>>, DecodeError>::Ok(block_record(ps, fields)),
{
    lemma_entries_lookup(ps, fields, empty_acc(fields.len()));
    let acc = empty_acc(fields.len());
    let vals = Seq::new(
        fields.len(),
        |i: int|
            if acc[i] is Some {
                acc[i]
            } else {
                block_value(ps, fields, i)
            },
    );
    assert(vals =~= block_record(ps, fields));
    assert(!crate::deserialize::spec_missing_required(fields, block_record(ps, fields))) by {
        assert forall|i: int|
            0 <= i < fields.len() && !(#[trigger] fields[i]).optional implies !(block_record(
            ps,
            fields,
        )[i] is None) by {
            let j = choose|j: int| 0 <= j < ps.len() && (#[trigger] ps[j]).0 == fields[i].alias;
            lemma_find_field_self(fields, i);
            assert(crate::deserialize::spec_prim_value(fields[i].kind, ps[j].1) is Ok);
            assert(block_value(ps, fields, i) is Some);
        }
    }
}

/// Success and result of a well-formed block's decode do not depend on
/// the order of its entries: two blocks with the same entries, however
/// ordered, decode to the same record.
pub proof fn lemma_block_order_independent(
    ps1: Seq<(Seq<char>, Seq<char>)>,
    ps2: Seq<(Seq<char>, Seq<char>)>,
    fields: Seq<SpecField>,
)
    requires
        distinct_keys(ps1),
        distinct_keys(ps2),
        distinct_aliases(fields),
        block_decodes(ps1, fields),
        block_complete(ps1, fields),
        forall|j: int| 0 <= j < ps1.len() ==> ps2.contains(#[trigger] ps1[j]),
        forall|j: int| 0 <= j < ps2.len() ==> ps1.contains(#[trigger] ps2[j]),
    ensures
        spec_decode_record_toks(
            entries_tokens(ps1).push(SpecToken { kind: TokenKind::EndOfInput, text: Seq::empty() }),
            fields,
        ) == Result::<Seq<Option<SpecValue>>, DecodeError>::Ok(block_record(ps1, fields)),
        spec_decode_record_toks(
            entries_tokens(ps2).push(SpecToken { kind: TokenKind::EndOfInput, text: Seq::empty() }),
            fields,
        ) == Result::<Seq<Option<SpecValue>>, DecodeError>::Ok(block_record(ps1, fields)),
{
    lemma_block_decode(ps1, fields);
    assert(block_decodes(ps2, fields)) by {
        assert forall|j: int| 0 <= j < ps2.len() implies {
            let fi = crate::deserialize::spec_find_field(fields, (#[trigger] ps2[j]).0);
            fi >= 0 ==> crate::deserialize::spec_prim_value(fields[fi].kind, ps2[j].1) is Ok
        } by {
            let k = choose|k: int| 0 <= k < ps1.len() && ps1[k] == ps2[j];
            assert(ps1.contains(ps2[j]));
            assert(ps1[k] == ps2[j]);
        }
    }
    assert(block_complete(ps2, fields)) by {
        assert forall|i: int|
            0 <= i < fields.len() && !(#[trigger] fields[i]).optional implies exists|j: int|
            0 <= j < ps2.len() && (#[trigger] ps2[j]).0 == fields[i].alias by {
            let j1 = choose|j: int| 0 <= j < ps1.len() && (#[trigger] ps1[j]).0 == fields[i].alias;
            assert(ps2.contains(ps1[j1]));
            let j2 = choose|j: int| 0 <= j < ps2.len() && ps2[j] == ps1[j1];
            assert(ps2[j2].0 == fields[i].alias);
        }
    }
    lemma_block_decode(ps2, fields);
    assert(block_record(ps2, fields) =~= block_record(ps1, fields)) by {
        assert forall|i: int| 0 <= i < fields.len() implies block_value(ps2, fields, i)
            == block_value(ps1, fields, i) by {
            let alias = fields[i].alias;
            if exists|j: int| 0 <= j < ps1.len() && (#[trigger] ps1[j]).0 == alias {
                let j1 = choose|j: int| 0 <= j < ps1.len() && (#[trigger] ps1[j]).0 == alias;
                assert(ps2.contains(ps1[j1]));
                let j2 = choose|j: int| 0 <= j < ps2.len() && ps2[j] == ps1[j1];
                assert(exists|j: int| 0 <= j < ps2.len() && (#[trigger] ps2[j]).0 == alias) by {
                    assert(ps2[j2].0 == alias);
                }
                let k2 = choose|j: int| 0 <= j < ps2.len() && (#[trigger] ps2[j]).0 == alias;
                // The chosen entries carry the same key, so they are the
                // same entry of either block.
                assert(ps1.contains(ps2[k2]));
                let k1 = choose|j: int| 0 <= j < ps1.len() && ps1[j] == ps2[k2];
                assert(ps1[k1].0 == alias);
                assert(k1 == j1) by {
                    if k1 < j1 {
                        assert(ps1[k1].0 != ps1[j1].0);
                    } else if k1 > j1 {
                        assert(ps1[j1].0 != ps1[k1].0);
                    }
                }
                assert(ps2[k2].1 == ps1[j1].1);
            } else {
                if exists|j: int| 0 <= j < ps2.len() && (#[trigger] ps2[j]).0 == alias {
                    let k2 = choose|j: int| 0 <= j < ps2.len() && (#[trigger] ps2[j]).0 == alias;
                    assert(ps1.contains(ps2[k2]));
                    let k1 = choose|j: int| 0 <= j < ps1.len() && ps1[j] == ps2[k2];
                    assert(ps1[k1].0 == alias);
                }
            }
        }
    }
}

/// A line that holds one `key: value` entry: non-blank, with a separator
/// and a non-empty key.
pub open spec fn entry_line(line: Seq<char>) -> bool {
    &&& !is_blank(line)
    &&& find_char(line, ':') >= 0
    &&& crate::text::spec_trim(line.subrange(0, find_char(line, ':'))).len() > 0
}

/// The entry a line holds: its trimmed key and trimmed value.
pub open spec fn line_entry(line: Seq<char>) -> (Seq<char>, Seq<char>) {
    let c = find_char(line, ':');
    (
        crate::text::spec_trim(line.subrange(0, c)),
        crate::text::spec_trim(line.subrange(c + 1, line.len() as int)),
    )
}

/// The entries of a block of lines, in line order.
pub open spec fn block_entries(ls: Seq<Seq<char>>) -> Seq<(Seq<char>, Seq<char>)> {
    ls.map(|i: int, l: Seq<char>| line_entry(l))
}

/// A block of entry lines tokenizes to exactly its entries' triples.
proof fn lemma_block_tokens(ls: Seq<Seq<char>>)
    requires
        forall|i: int| 0 <= i < ls.len() ==> entry_line(#[trigger] ls[i]),
    ensures
        spec_tokens_of_lines(ls) == entries_tokens(block_entries(ls)),
    decreases ls.len(),
{
    if ls.len() == 0 {
        assert(block_entries(ls) =~= Seq::<(Seq<char>, Seq<char>)>::empty());
        assert(spec_tokens_of_lines(ls) =~= entries_tokens(block_entries(ls)));
    } else {
        let line = ls[0];
        assert(entry_line(line));
        let c = find_char(line, ':');
        lemma_find_char(line, ':');
        assert(line[c] == ':');
        assert(line.subrange(c, c + 1) =~= seq![':']);
        lemma_block_tokens(ls.skip(1));
        assert(block_entries(ls.skip(1)) =~= block_entries(ls).skip(1)) by {
            assert forall|i: int| 0 <= i < ls.skip(1).len() implies block_entries(ls.skip(1))[i]
                == block_entries(ls).skip(1)[i] by {
                assert(ls.skip(1)[i] == ls[i + 1]);
            }
        }
        assert(block_entries(ls)[0] == line_entry(line));
        assert(spec_line_tokens(line) =~= seq![
            SpecToken { kind: TokenKind::Key, text: line_entry(line).0 },
            SpecToken { kind: TokenKind::Separator, text: seq![':'] },
            SpecToken { kind: TokenKind::Value, text: line_entry(line).1 },
        ]);
        assert(spec_tokens_of_lines(ls) =~= entries_tokens(block_entries(ls)));
    }
}

/// Decoding a well-formed block of `key: value` lines is a per-field
/// lookup on its entries: it succeeds, and each field holds exactly the
/// decoded value of the line carrying its source key.
pub proof fn lemma_block_text_decode(input: Seq<char>, fields: Seq<SpecField>)
    requires
        forall|i: int|
            0 <= i < spec_lines(input).len() ==> entry_line(#[trigger] spec_lines(input)[i]),
        distinct_keys(block_entries(spec_lines(input))),
        distinct_aliases(fields),
        block_decodes(block_entries(spec_lines(input)), fields),
        block_complete(block_entries(spec_lines(input)), fields),
    ensures
        spec_decode_record(input, fields) == Result::<Seq<Option<SpecValue>>, DecodeError>::Ok(
            block_record(block_entries(spec_lines(input)), fields),
        ),
{
    lemma_block_tokens(spec_lines(input));
    lemma_block_decode(block_entries(spec_lines(input)), fields);
}

/// Success and result of decoding a well-formed block of `key: value`
/// lines do not depend on the order of its lines: two inputs carrying the
/// same entries, however ordered, decode to the same record.
pub proof fn lemma_text_order_independent(
    input1: Seq<char>,
    input2: Seq<char>,
    fields: Seq<SpecField>,
)
    requires
        forall|i: int|
            0 <= i < spec_lines(input1).len() ==> entry_line(#[trigger] spec_lines(input1)[i]),
        forall|i: int|
            0 <= i < spec_lines(input2).len() ==> entry_line(#[trigger] spec_lines(input2)[i]),
        distinct_keys(block_entries(spec_lines(input1))),
        distinct_keys(block_entries(spec_lines(input2))),
        distinct_aliases(fields),
        block_decodes(block_entries(spec_lines(input1)), fields),
        block_complete(block_entries(spec_lines(input1)), fields),
        forall|j: int|
            0 <= j < block_entries(spec_lines(input1)).len() ==> block_entries(
                spec_lines(input2),
            ).contains(#[trigger] block_entries(spec_lines(input1))[j]),
        forall|j: int|
            0 <= j < block_entries(spec_lines(input2)).len() ==> block_entries(
                spec_lines(input1),
            ).contains(#[trigger] block_entries(spec_lines(input2))[j]),
    ensures
        spec_decode_record(input1, fields) == Result::<Seq<Option<SpecValue>>, DecodeError>::Ok(
            block_record(block_entries(spec_lines(input1)), fields),
        ),
        spec_decode_record(input2, fields) == spec_decode_record(input1, fields),
{
    lemma_block_tokens(spec_lines(input1));
    lemma_block_tokens(spec_lines(input2));
    lemma_block_order_independent(
        block_entries(spec_lines(input1)),
        block_entries(spec_lines(input2)),
        fields,
    );
}

} // verus!
