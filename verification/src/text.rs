//! Character-level model of the source text: token separators, decimal
//! literals, whitespace-splitting of a line into tokens, and splitting of a
//! whole file into lines.

use vstd::prelude::*;

verus! {

/// Characters that separate tokens within a line.
pub open spec fn is_space(c: char) -> bool {
    c == ' ' || c == '\t' || c == '\r'
}

/// Decimal digit characters.
pub open spec fn is_digit(c: char) -> bool {
    '0' <= c && c <= '9'
}

/// Numeric value of a digit character; zero for anything else.
pub open spec fn digit_val(c: char) -> nat {
    if is_digit(c) {
        (c as int - '0' as int) as nat
    } else {
        0
    }
}

/// Value of a decimal numeral read most-significant digit first.
pub open spec fn dec_val(s: Seq<char>) -> nat
    decreases s.len(),
{
    if s.len() == 0 {
        0
    } else {
        dec_val(s.drop_last()) * 10 + digit_val(s.last())
    }
}

/// A non-empty run of decimal digits.
pub open spec fn is_dec_token(s: Seq<char>) -> bool {
    s.len() >= 1 && forall|i: int| 0 <= i < s.len() ==> is_digit(s[i])
}

/// Position of the first token separator at or after index `i`, or `s.len()`
/// if the rest of the line is one token.
pub open spec fn token_end(s: Seq<char>, i: int) -> int
    decreases s.len() - i,
{
    if i < 0 || i >= s.len() {
        i
    } else if is_space(s[i]) {
        i
    } else {
        token_end(s, i + 1)
    }
}

pub proof fn lemma_token_end(s: Seq<char>, i: int)
    requires
        0 <= i <= s.len(),
    ensures
        i <= token_end(s, i) <= s.len(),
        forall|k: int| i <= k < token_end(s, i) ==> !is_space(s[k]),
        token_end(s, i) < s.len() ==> is_space(s[token_end(s, i)]),
    decreases s.len() - i,
{
    if i < s.len() && !is_space(s[i]) {
        lemma_token_end(s, i + 1);
    }
}

/// The whitespace-separated tokens of `s` from index `i` on.
pub open spec fn spec_tokens_from(s: Seq<char>, i: int) -> Seq<Seq<char>>
    decreases s.len() - i,
        via spec_tokens_from_decreases
{
    if i < 0 || i >= s.len() {
        Seq::empty()
    } else if is_space(s[i]) {
        spec_tokens_from(s, i + 1)
    } else {
        seq![s.subrange(i, token_end(s, i))] + spec_tokens_from(s, token_end(s, i))
    }
}

#[via_fn]
proof fn spec_tokens_from_decreases(s: Seq<char>, i: int) {
    if 0 <= i < s.len() && !is_space(s[i]) {
        lemma_token_end(s, i);
        if token_end(s, i) == i {
            assert(is_space(s[i]));
        }
    }
}

/// The whitespace-separated tokens of a line.
pub open spec fn spec_tokens(s: Seq<char>) -> Seq<Seq<char>> {
    spec_tokens_from(s, 0)
}

/// Every token is non-empty.
pub proof fn lemma_tokens_nonempty(s: Seq<char>, i: int)
    requires
        0 <= i <= s.len(),
    ensures
        forall|k: int| 0 <= k < spec_tokens_from(s, i).len() ==> spec_tokens_from(s, i)[k].len() >= 1,
    decreases s.len() - i,
{
    if i >= s.len() {
        assert(spec_tokens_from(s, i) =~= Seq::empty());
    } else {
        if is_space(s[i]) {
            lemma_tokens_nonempty(s, i + 1);
            assert(spec_tokens_from(s, i) == spec_tokens_from(s, i + 1));
        } else {
            lemma_token_end(s, i);
            if token_end(s, i) == i {
                assert(is_space(s[i]));
            }
            lemma_tokens_nonempty(s, token_end(s, i));
            let toks = spec_tokens_from(s, i);
            let rest = spec_tokens_from(s, token_end(s, i));
            assert(toks == seq![s.subrange(i, token_end(s, i))] + rest);
            assert(toks.len() == 1 + rest.len());
            assert forall|k: int| 0 <= k < toks.len() implies toks[k].len() >= 1 by {
                if k == 0 {
                    assert(toks[0] == s.subrange(i, token_end(s, i)));
                    assert(toks[0].len() == token_end(s, i) - i);
                } else {
                    assert(toks[k] == rest[k - 1]);
                }
            }
        }
    }
}

/// Position of the first line break at or after index `i`, or `s.len()`.
pub open spec fn line_end(s: Seq<char>, i: int) -> int
    decreases s.len() - i,
{
    if i < 0 || i >= s.len() {
        i
    } else if s[i] == '\n' {
        i
    } else {
        line_end(s, i + 1)
    }
}

pub proof fn lemma_line_end(s: Seq<char>, i: int)
    requires
        0 <= i <= s.len(),
    ensures
        i <= line_end(s, i) <= s.len(),
        forall|k: int| i <= k < line_end(s, i) ==> s[k] != '\n',
        line_end(s, i) < s.len() ==> s[line_end(s, i)] == '\n',
    decreases s.len() - i,
{
    if i < s.len() && s[i] != '\n' {
        lemma_line_end(s, i + 1);
    }
}

/// The lines of `s` from index `i` on, split on line breaks; a trailing line
/// break ends the last line rather than opening an empty one.
pub open spec fn spec_lines_from(s: Seq<char>, i: int) -> Seq<Seq<char>>
    decreases s.len() - i + 1,
        via spec_lines_from_decreases
{
    if i < 0 || i >= s.len() {
        Seq::empty()
    } else {
        seq![s.subrange(i, line_end(s, i))] + spec_lines_from(s, line_end(s, i) + 1)
    }
}

#[via_fn]
proof fn spec_lines_from_decreases(s: Seq<char>, i: int) {
    if 0 <= i < s.len() {
        lemma_line_end(s, i);
    }
}

/// The lines of a source file.
pub open spec fn spec_lines(s: Seq<char>) -> Seq<Seq<char>> {
    spec_lines_from(s, 0)
}

/// A scan that stops at the first separator (or the end) pins `token_end` down.
pub proof fn lemma_token_end_char(s: Seq<char>, i: int, j: int)
    requires
        0 <= i <= j <= s.len(),
        forall|k: int| i <= k < j ==> !is_space(s[k]),
        j < s.len() ==> is_space(s[j]),
    ensures
        token_end(s, i) == j,
    decreases j - i,
{
    if i < j {
        lemma_token_end_char(s, i + 1, j);
    }
}

/// A scan that stops at the first line break (or the end) pins `line_end` down.
pub proof fn lemma_line_end_char(s: Seq<char>, i: int, j: int)
    requires
        0 <= i <= j <= s.len(),
        forall|k: int| i <= k < j ==> s[k] != '\n',
        j < s.len() ==> s[j] == '\n',
    ensures
        line_end(s, i) == j,
    decreases j - i,
{
    if i < j {
        lemma_line_end_char(s, i + 1, j);
    }
}

/// A decimal numeral is at least as large as any of its prefixes.
pub proof fn lemma_dec_val_prefix(s: Seq<char>, k: int)
    requires
        0 <= k <= s.len(),
    ensures
        dec_val(s.take(k)) <= dec_val(s),
    decreases s.len() - k,
{
    if k < s.len() {
        assert(s.take(k + 1).drop_last() =~= s.take(k));
        assert(s.take(k + 1).last() == s[k]);
        assert(dec_val(s.take(k)) <= dec_val(s.take(k + 1)));
        lemma_dec_val_prefix(s, k + 1);
    } else {
        assert(s.take(k) =~= s);
    }
}

/// Whether `c` separates tokens.
pub fn is_space_char(c: char) -> (r: bool)
    ensures
        r == is_space(c),
{
    c == ' ' || c == '\t' || c == '\r'
}

/// Character-wise string equality, stated over the views.
pub fn str_eq(a: &str, b: &str) -> (r: bool)
    ensures
        r == (a@ == b@),
{
    let na = a.unicode_len();
    let nb = b.unicode_len();
    if na != nb {
        proof {
            if a@ == b@ {
                assert(a@.len() == b@.len());
            }
        }
        return false;
    }
    let mut i: usize = 0;
    while i < na
        invariant
            na == a@.len(),
            na == b@.len(),
            0 <= i <= na,
            forall|k: int| 0 <= k < i ==> a@[k] == b@[k],
        decreases na - i,
    {
        if a.get_char(i) != b.get_char(i) {
            proof {
                if a@ == b@ {
                    assert(a@[i as int] == b@[i as int]);
                }
            }
            return false;
        }
        i += 1;
    }
    proof {
        assert(a@ =~= b@);
    }
    true
}

/// Parses a decimal numeral, rejecting malformed text and any value that does
/// not fit the 16-bit immediate field.
pub fn parse_dec_bounded(s: &str) -> (r: Option<u32>)
    ensures
        match r {
            Some(v) => is_dec_token(s@) && dec_val(s@) <= 0xFFFF && v == dec_val(s@),
            None => !(is_dec_token(s@) && dec_val(s@) <= 0xFFFF),
        },
{
    let n = s.unicode_len();
    if n == 0 {
        return None;
    }
    let mut acc: u32 = 0;
    let mut i: usize = 0;
    while i < n
        invariant
            n == s@.len(),
            n >= 1,
            0 <= i <= n,
            acc <= 0xFFFF,
            acc == dec_val(s@.take(i as int)),
            forall|k: int| 0 <= k < i ==> is_digit(s@[k]),
        decreases n - i,
    {
        let c = s.get_char(i);
        let cv = c as u32;
        if cv < 48 || cv > 57 {
            assert(!is_digit(s@[i as int]));
            return None;
        }
        let d = cv - 48;
        proof {
            assert(is_digit(s@[i as int]));
            assert(d == digit_val(s@[i as int]));
            assert(s@.take(i as int + 1).drop_last() =~= s@.take(i as int));
            assert(s@.take(i as int + 1).last() == s@[i as int]);
        }
        let next = acc * 10 + d;
        if next > 0xFFFF {
            proof {
                lemma_dec_val_prefix(s@, i as int + 1);
            }
            return None;
        }
        acc = next;
        i += 1;
    }
    proof {
        assert(s@.take(n as int) =~= s@);
    }
    Some(acc)
}

/// Splits a line into its whitespace-separated tokens.
pub fn tokenize(s: &str) -> (r: Vec<String>)
    ensures
        r.deep_view() == spec_tokens(s@),
{
    let n = s.unicode_len();
    let mut out: Vec<String> = Vec::new();
    let mut i: usize = 0;
    while i < n
        invariant
            n == s@.len(),
            0 <= i <= n,
            out.deep_view() + spec_tokens_from(s@, i as int) == spec_tokens(s@),
        decreases n - i,
    {
        let c = s.get_char(i);
        if is_space_char(c) {
            proof {
                assert(spec_tokens_from(s@, i as int) == spec_tokens_from(s@, i as int + 1));
            }
            i += 1;
        } else {
            let mut j: usize = i + 1;
            loop
                invariant
                    n == s@.len(),
                    i < j <= n,
                    forall|k: int| i <= k < j ==> !is_space(s@[k]),
                ensures
                    i < j <= n,
                    forall|k: int| i <= k < j ==> !is_space(s@[k]),
                    j == n || is_space(s@[j as int]),
                decreases n - j,
            {
                if j == n {
                    break;
                }
                let cj = s.get_char(j);
                if is_space_char(cj) {
                    break;
                }
                j += 1;
            }
            proof {
                lemma_token_end_char(s@, i as int, j as int);
            }
            let tok = s.substring_char(i, j).to_owned();
            proof {
                let ghost a = out.deep_view();
                let ghost x = seq![tok@];
                let ghost rest = spec_tokens_from(s@, j as int);
                assert(spec_tokens_from(s@, i as int) == x + rest);
                assert((a + (x + rest)) =~= ((a + x) + rest));
            }
            let ghost old_deep = out.deep_view();
            out.push(tok);
            proof {
                assert(out.deep_view() =~= old_deep + seq![tok@]);
            }
            i = j;
        }
    }
    proof {
        assert(out.deep_view() + spec_tokens_from(s@, i as int) =~= out.deep_view());
    }
    out
}

/// Splits a source file into its lines.
pub fn split_lines(s: &str) -> (r: Vec<String>)
    ensures
        r.deep_view() == spec_lines(s@),
{
    let n = s.unicode_len();
    let mut out: Vec<String> = Vec::new();
    let mut i: usize = 0;
    while i < n
        invariant
            n == s@.len(),
            0 <= i <= n,
            out.deep_view() + spec_lines_from(s@, i as int) == spec_lines(s@),
        decreases n - i,
    {
        let mut j: usize = i;
        loop
            invariant
                n == s@.len(),
                i <= j <= n,
                forall|k: int| i <= k < j ==> s@[k] != '\n',
            ensures
                i <= j <= n,
                forall|k: int| i <= k < j ==> s@[k] != '\n',
                j == n || s@[j as int] == '\n',
            decreases n - j,
        {
            if j == n {
                break;
            }
            if s.get_char(j) == '\n' {
                break;
            }
            j += 1;
        }
        proof {
            lemma_line_end_char(s@, i as int, j as int);
        }
        let line = s.substring_char(i, j).to_owned();
        proof {
            let ghost a = out.deep_view();
            let ghost x = seq![line@];
            let ghost rest = spec_lines_from(s@, j as int + 1);
            assert(spec_lines_from(s@, i as int) == x + rest);
            assert((a + (x + rest)) =~= ((a + x) + rest));
        }
        let ghost old_deep = out.deep_view();
        out.push(line);
        proof {
            assert(out.deep_view() =~= old_deep + seq![line@]);
        }
        if j < n {
            i = j + 1;
        } else {
            proof {
                assert(spec_lines_from(s@, j as int + 1) =~= spec_lines_from(s@, n as int));
            }
            i = n;
        }
    }
    proof {
        assert(out.deep_view() + spec_lines_from(s@, i as int) =~= out.deep_view());
    }
    out
}

} // verus!
