//! The mathematical text model: lines, horizontal-whitespace trimming and
//! character search over `Seq<char>`, together with small verified
//! executable scanners over `&str` that realize them.

use vstd::prelude::*;

verus! {

/// Horizontal whitespace: the characters that may surround a separator and
/// that are trimmed from keys and values.
pub open spec fn is_hws(c: char) -> bool {
    c == ' ' || c == '\t'
}

/// Whitespace for positional (space-separated) records.
pub open spec fn is_ws(c: char) -> bool {
    c == ' ' || c == '\t' || c == '\n' || c == '\r'
}

/// An ASCII decimal digit.
pub open spec fn is_digit(c: char) -> bool {
    ('0' as u32) <= (c as u32) && (c as u32) <= ('9' as u32)
}

/// The numeric value of a digit character.
pub open spec fn digit_value(c: char) -> nat {
    ((c as u32) - ('0' as u32)) as nat
}

/// A line is blank when it consists of horizontal whitespace alone.
pub open spec fn is_blank(s: Seq<char>) -> bool {
    forall|i: int| 0 <= i < s.len() ==> is_hws(s[i])
}

/// Index of the first occurrence of `c` in `s`, or -1 when `c` does not
/// occur.
pub open spec fn find_char(s: Seq<char>, c: char) -> int
    decreases s.len(),
{
    if s.len() == 0 {
        -1
    } else if s[0] == c {
        0
    } else {
        let r = find_char(s.skip(1), c);
        if r < 0 {
            -1
        } else {
            r + 1
        }
    }
}

pub proof fn lemma_find_char(s: Seq<char>, c: char)
    ensures
        find_char(s, c) >= 0 ==> find_char(s, c) < s.len() && s[find_char(s, c)] == c,
        find_char(s, c) >= 0 ==> forall|i: int| 0 <= i < find_char(s, c) ==> s[i] != c,
        find_char(s, c) < 0 ==> forall|i: int| 0 <= i < s.len() ==> s[i] != c,
    decreases s.len(),
{
    if s.len() > 0 && s[0] != c {
        lemma_find_char(s.skip(1), c);
        let r = find_char(s.skip(1), c);
        if r >= 0 {
            assert(s[r + 1] == s.skip(1)[r]);
            assert forall|i: int| 0 <= i < r + 1 implies s[i] != c by {
                if i > 0 {
                    assert(s[i] == s.skip(1)[i - 1]);
                }
            }
        } else {
            assert forall|i: int| 0 <= i < s.len() implies s[i] != c by {
                if i > 0 {
                    assert(s[i] == s.skip(1)[i - 1]);
                }
            }
        }
    }
}

/// Number of leading horizontal-whitespace characters.
pub open spec fn trim_start(s: Seq<char>) -> int
    decreases s.len(),
{
    if s.len() == 0 {
        0
    } else if is_hws(s[0]) {
        1 + trim_start(s.skip(1))
    } else {
        0
    }
}

/// End of the content once trailing horizontal whitespace is dropped
/// (0 when the whole sequence is blank).
pub open spec fn trim_end(s: Seq<char>) -> int
    decreases s.len(),
{
    if s.len() == 0 {
        0
    } else if is_hws(s[s.len() - 1]) {
        trim_end(s.take(s.len() - 1))
    } else {
        s.len() as int
    }
}

/// `s` with leading and trailing horizontal whitespace removed.
pub open spec fn spec_trim(s: Seq<char>) -> Seq<char> {
    if trim_end(s) <= trim_start(s) {
        Seq::empty()
    } else {
        s.subrange(trim_start(s), trim_end(s))
    }
}

pub proof fn lemma_trim_start(s: Seq<char>)
    ensures
        0 <= trim_start(s) <= s.len(),
        forall|i: int| 0 <= i < trim_start(s) ==> is_hws(s[i]),
        trim_start(s) < s.len() ==> !is_hws(s[trim_start(s)]),
    decreases s.len(),
{
    if s.len() > 0 && is_hws(s[0]) {
        lemma_trim_start(s.skip(1));
        let t = trim_start(s.skip(1));
        assert forall|i: int| 0 <= i < t + 1 implies is_hws(s[i]) by {
            if i > 0 {
                assert(s[i] == s.skip(1)[i - 1]);
            }
        }
        if t + 1 < s.len() {
            assert(s[t + 1] == s.skip(1)[t]);
        }
    }
}

pub proof fn lemma_trim_end(s: Seq<char>)
    ensures
        0 <= trim_end(s) <= s.len(),
        forall|i: int| trim_end(s) <= i < s.len() ==> is_hws(s[i]),
        trim_end(s) > 0 ==> !is_hws(s[trim_end(s) - 1]),
    decreases s.len(),
{
    if s.len() > 0 && is_hws(s[s.len() - 1]) {
        lemma_trim_end(s.take(s.len() - 1));
        let t = trim_end(s.take(s.len() - 1));
        assert forall|i: int| t <= i < s.len() implies is_hws(s[i]) by {
            if i < s.len() - 1 {
                assert(s[i] == s.take(s.len() - 1)[i]);
            }
        }
        if t > 0 {
            assert(s[t - 1] == s.take(s.len() - 1)[t - 1]);
        }
    }
}

/// A blank sequence is exactly one whose trimmed content is empty.
pub proof fn lemma_blank_trim(s: Seq<char>)
    ensures
        is_blank(s) <==> trim_end(s) == 0,
        is_blank(s) <==> spec_trim(s).len() == 0,
    decreases s.len(),
{
    lemma_trim_end(s);
    lemma_trim_start(s);
    if s.len() > 0 && is_hws(s[s.len() - 1]) {
        lemma_blank_trim(s.take(s.len() - 1));
        if is_blank(s.take(s.len() - 1)) {
            assert forall|i: int| 0 <= i < s.len() implies is_hws(s[i]) by {
                if i < s.len() - 1 {
                    assert(s[i] == s.take(s.len() - 1)[i]);
                }
            }
        } else {
            let j = choose|j: int| 0 <= j < s.len() - 1 && !is_hws(#[trigger] s.take(s.len() - 1)[j]);
            assert(s[j] == s.take(s.len() - 1)[j]);
            assert(!is_blank(s));
        }
    }
    if trim_end(s) > 0 {
        assert(!is_hws(s[trim_end(s) - 1]));
    }
}

/// The input split at newline characters. A trailing newline does not
/// produce an extra empty line; an empty input has no lines.
pub open spec fn spec_lines(s: Seq<char>) -> Seq<Seq<char>>
    decreases s.len(),
    via spec_lines_decreases
{
    if s.len() == 0 {
        Seq::empty()
    } else {
        let i = find_char(s, '\n');
        if i < 0 {
            seq![s]
        } else {
            seq![s.subrange(0, i)] + spec_lines(s.subrange(i + 1, s.len() as int))
        }
    }
}

#[via_fn]
proof fn spec_lines_decreases(s: Seq<char>) {
    lemma_find_char(s, '\n');
}

/// A position that has only horizontal whitespace before it and content (or
/// the end) at it pins `trim_start` exactly.
pub proof fn lemma_trim_start_exact(s: Seq<char>, k: int)
    requires
        0 <= k <= s.len(),
        forall|j: int| 0 <= j < k ==> is_hws(s[j]),
        k == s.len() || !is_hws(s[k]),
    ensures
        trim_start(s) == k,
{
    lemma_trim_start(s);
    let t = trim_start(s);
    if t < k {
        assert(is_hws(s[t]));
    } else if t > k {
        assert(is_hws(s[k]));
    }
}

/// A position with only horizontal whitespace at or after it and content
/// (or the start) just before it pins `trim_end` exactly.
pub proof fn lemma_trim_end_exact(s: Seq<char>, k: int)
    requires
        0 <= k <= s.len(),
        forall|j: int| k <= j < s.len() ==> is_hws(s[j]),
        k == 0 || !is_hws(s[k - 1]),
    ensures
        trim_end(s) == k,
{
    lemma_trim_end(s);
    let t = trim_end(s);
    if t < k {
        assert(is_hws(s[k - 1]));
    } else if t > k {
        assert(is_hws(s[t - 1]));
    }
}

/// Compare two strings by their character sequences.
pub fn str_eq(a: &str, b: &str) -> (r: bool)
    ensures
        r == (a@ == b@),
{
    let alen = a.unicode_len();
    let blen = b.unicode_len();
    if alen != blen {
        assert(a@ != b@);
        return false;
    }
    let mut i: usize = 0;
    while i < alen
        invariant
            alen == a@.len(),
            blen == b@.len(),
            alen == blen,
            i <= alen,
            forall|j: int| 0 <= j < i ==> a@[j] == b@[j],
        decreases alen - i,
    {
        if a.get_char(i) != b.get_char(i) {
            return false;
        }
        i = i + 1;
    }
    assert(a@ =~= b@);
    true
}

/// Find the first occurrence of `c` in `s` within `[from, to)`.
pub fn find_char_range(s: &str, from: usize, to: usize, c: char) -> (r: Option<usize>)
    requires
        from <= to <= s@.len(),
    ensures
        match r {
            Some(i) => from <= i < to && s@[i as int] == c && find_char(
                s@.subrange(from as int, to as int),
                c,
            ) == i - from,
            None => find_char(s@.subrange(from as int, to as int), c) < 0,
        },
{
    let ghost part = s@.subrange(from as int, to as int);
    let mut i: usize = from;
    while i < to
        invariant
            from <= i <= to <= s@.len(),
            part == s@.subrange(from as int, to as int),
            forall|j: int| from <= j < i ==> s@[j] != c,
        decreases to - i,
    {
        if s.get_char(i) == c {
            proof {
                assert forall|j: int| 0 <= j < i - from implies part[j] != c by {
                    assert(part[j] == s@[from + j]);
                }
                assert(part[i - from] == s@[i as int]);
                lemma_find_char_exact(part, c, i - from as int);
            }
            return Some(i);
        }
        i = i + 1;
    }
    proof {
        lemma_find_char(part, c);
        if find_char(part, c) >= 0 {
            let k = find_char(part, c);
            assert(part[k] == s@[from + k]);
        }
    }
    None
}

/// Whether `c` is horizontal whitespace.
pub fn hws(c: char) -> (r: bool)
    ensures
        r == is_hws(c),
{
    c == ' ' || c == '\t'
}

/// Bounds of the content of `s[from..to]` once horizontal whitespace is
/// trimmed from both ends, as absolute positions in `s`.
pub fn trim_range(s: &str, from: usize, to: usize) -> (r: (usize, usize))
    requires
        from <= to <= s@.len(),
    ensures
        r.0 == from + trim_start(s@.subrange(from as int, to as int)),
        r.1 == from + trim_end(s@.subrange(from as int, to as int)),
        from <= r.0 <= to,
        r.1 <= to,
        r.0 < r.1 || r.1 == from,
{
    let ghost line = s@.subrange(from as int, to as int);
    let mut a: usize = from;
    while a < to && hws(s.get_char(a))
        invariant
            from <= a <= to <= s@.len(),
            forall|j: int| from <= j < a ==> is_hws(s@[j]),
        decreases to - a,
    {
        a = a + 1;
    }
    proof {
        assert forall|j: int| 0 <= j < a - from implies is_hws(line[j]) by {
            assert(line[j] == s@[from + j]);
        }
        if a < to {
            assert(line[a - from] == s@[a as int]);
        }
        lemma_trim_start_exact(line, a - from);
    }
    if a == to {
        proof {
            lemma_trim_end_exact(line, 0);
        }
        return (a, from);
    }
    let mut b: usize = to;
    while b > a && hws(s.get_char(b - 1))
        invariant
            from <= a < b + 1,
            b <= to <= s@.len(),
            forall|j: int| b <= j < to ==> is_hws(s@[j]),
        decreases b,
    {
        b = b - 1;
    }
    proof {
        assert forall|j: int| b - from <= j < line.len() implies is_hws(line[j]) by {
            assert(line[j] == s@[from + j]);
        }
        if b == a {
            assert(line[a - from] == s@[a as int]);
            assert(false);
        }
        assert(line[b - 1 - from] == s@[b - 1]);
        lemma_trim_end_exact(line, b - from);
    }
    (a, b)
}

/// When position `k` holds `c` and nothing before it does, `find_char`
/// returns exactly `k`.
pub proof fn lemma_find_char_exact(s: Seq<char>, c: char, k: int)
    requires
        0 <= k < s.len(),
        s[k] == c,
        forall|j: int| 0 <= j < k ==> s[j] != c,
    ensures
        find_char(s, c) == k,
{
    lemma_find_char(s, c);
    let r = find_char(s, c);
    if r < 0 {
        assert(s[k] != c);
    } else if r < k {
        assert(s[r] != c);
    } else if r > k {
        assert(s[k] != c);
    }
}

} // verus!
