//! Lenient parsing of a redaction specification.
//!
//! A specification is a comma-separated list of tokens. A token designates a
//! line index when it is an optional plus sign followed by one or more
//! decimal digits whose value fits in `usize`; every other token is silently
//! skipped, so that one malformed entry never aborts a run. The indices come
//! out in the order their tokens appear, duplicates kept.

use vstd::prelude::*;
use crate::digest::str_to_chars;
use crate::text::{spec_split, split_char};

verus! {

/// Whether `c` is a decimal digit.
pub open spec fn is_ascii_digit(c: char) -> bool {
    48 <= c as u32 && c as u32 <= 57
}

/// The value of a decimal digit.
pub open spec fn digit_value(c: char) -> int {
    c as u32 as int - 48
}

/// The value of a sequence of decimal digits, most significant first.
pub open spec fn dec_val(s: Seq<char>) -> int
    decreases s.len(),
{
    if s.len() == 0 {
        0
    } else {
        dec_val(s.drop_last()) * 10 + digit_value(s.last())
    }
}

/// The digits of a token, after an optional leading plus sign.
pub open spec fn token_body(t: Seq<char>) -> Seq<char> {
    if t.len() > 0 && t[0] == '+' {
        t.subrange(1, t.len() as int)
    } else {
        t
    }
}

/// Whether a token designates an index: a nonempty all-digit body whose
/// value fits in `usize`.
pub open spec fn token_valid(t: Seq<char>) -> bool {
    let b = token_body(t);
    b.len() > 0 && (forall|i: int| 0 <= i < b.len() ==> is_ascii_digit(b[i])) && dec_val(b)
        <= usize::MAX as int
}

/// The index a token designates, if any.
pub open spec fn spec_parse_token(t: Seq<char>) -> Option<usize> {
    if token_valid(t) {
        Some(dec_val(token_body(t)) as usize)
    } else {
        None
    }
}

proof fn lemma_dec_val_nonneg(s: Seq<char>)
    requires
        forall|i: int| 0 <= i < s.len() ==> is_ascii_digit(s[i]),
    ensures
        dec_val(s) >= 0,
    decreases s.len(),
{
    if s.len() > 0 {
        lemma_dec_val_nonneg(s.drop_last());
    }
}

proof fn lemma_dec_val_lower(s: Seq<char>, j: int)
    requires
        0 <= j <= s.len(),
        forall|i: int| j <= i < s.len() ==> is_ascii_digit(s[i]),
        dec_val(s.take(j)) >= 0,
    ensures
        dec_val(s) >= dec_val(s.take(j)),
    decreases s.len() - j,
{
    if j == s.len() {
        assert(s.take(j) =~= s);
    } else {
        assert(s.take(j + 1).drop_last() =~= s.take(j));
        assert(s.take(j + 1).last() == s[j]);
        assert(dec_val(s.take(j + 1)) == dec_val(s.take(j)) * 10 + digit_value(s[j]));
        assert(dec_val(s.take(j + 1)) >= dec_val(s.take(j)));
        lemma_dec_val_lower(s, j + 1);
    }
}

/// The index a token designates, if any: an optional plus sign, then one or
/// more decimal digits, value at most `usize::MAX`; anything else is `None`.
pub fn parse_token(t: &Vec<char>) -> (r: Option<usize>)
    ensures
        r == spec_parse_token(t@),
{
    let n = t.len();
    let start: usize = if n > 0 && t[0] == '+' {
        1
    } else {
        0
    };
    let ghost body = token_body(t@);
    proof {
        assert(body =~= t@.subrange(start as int, n as int));
    }
    if start >= n {
        return None;
    }
    let mut acc: usize = 0;
    let mut j: usize = start;
    proof {
        assert(body.take(0) =~= Seq::<char>::empty());
    }
    while j < n
        invariant
            start <= j <= n,
            n == t@.len(),
            start < n,
            body == token_body(t@),
            body =~= t@.subrange(start as int, n as int),
            forall|i: int| 0 <= i < j - start ==> is_ascii_digit(body[i]),
            acc as int == dec_val(body.take(j - start)),
        decreases n - j,
    {
        let c = t[j];
        proof {
            assert(body[j - start] == c);
        }
        let u = c as u32;
        if u < 48 || u > 57 {
            return None;
        }
        let d = (u - 48) as usize;
        let ghost jj = j - start;
        proof {
            assert(is_ascii_digit(c));
            assert(d as int == digit_value(c));
            assert(body.take(jj as int + 1).drop_last() =~= body.take(jj as int));
            assert(body.take(jj as int + 1).last() == c);
            assert(dec_val(body.take(jj as int + 1)) == acc as int * 10 + d as int);
        }
        if acc > (usize::MAX - d) / 10 {
            proof {
                let q = (usize::MAX - d) as int / 10;
                assert(q * 10 <= usize::MAX - d < (q + 1) * 10) by (nonlinear_arith)
                    requires
                        q == (usize::MAX - d) as int / 10,
                        0 <= d <= 9,
                ;
                assert(acc as int * 10 >= (q + 1) * 10) by (nonlinear_arith)
                    requires
                        acc as int >= q + 1,
                ;
                assert(acc as int * 10 + d as int > usize::MAX as int);
                if forall|i: int| 0 <= i < body.len() ==> is_ascii_digit(body[i]) {
                    lemma_dec_val_nonneg(body.take(jj as int));
                    lemma_dec_val_lower(body, jj as int + 1);
                    assert(dec_val(body) > usize::MAX as int);
                }
            }
            return None;
        }
        proof {
            let q = (usize::MAX - d) as int / 10;
            assert(q * 10 <= usize::MAX - d) by (nonlinear_arith)
                requires
                    q == (usize::MAX - d) as int / 10,
                    0 <= d <= 9,
            ;
            assert(acc as int * 10 <= q * 10) by (nonlinear_arith)
                requires
                    acc as int <= q,
            ;
        }
        acc = acc * 10 + d;
        j += 1;
    }
    proof {
        assert(body.take(n - start) =~= body);
        assert(token_valid(t@));
    }
    Some(acc)
}

/// The indices the tokens designate, in order, malformed tokens skipped.
pub open spec fn spec_parse_indices_of(tokens: Seq<Seq<char>>) -> Seq<usize>
    decreases tokens.len(),
{
    if tokens.len() == 0 {
        Seq::empty()
    } else {
        let rest = spec_parse_indices_of(tokens.subrange(1, tokens.len() as int));
        match spec_parse_token(tokens[0]) {
            Some(v) => seq![v] + rest,
            None => rest,
        }
    }
}

/// The indices a redaction specification designates: its comma-separated
/// tokens, each parsed leniently.
pub open spec fn spec_parse_indices(s: Seq<char>) -> Seq<usize> {
    spec_parse_indices_of(spec_split(s, ','))
}

/// Parse a comma-separated redaction specification, skipping every token
/// that does not designate an index.
pub fn parse_redaction_spec(s: &str) -> (r: Vec<usize>)
    ensures
        r@ == spec_parse_indices(s@),
{
    let chars = str_to_chars(s);
    let tokens = split_char(&chars, ',');
    let ghost tv = crate::text::char_views(tokens@);
    let mut out: Vec<usize> = Vec::new();
    let mut i: usize = 0;
    proof {
        assert(tv.subrange(0, tv.len() as int) =~~= tv);
        assert(out@ + spec_parse_indices_of(tv) =~= spec_parse_indices_of(tv));
    }
    while i < tokens.len()
        invariant
            i <= tokens@.len(),
            tv == crate::text::char_views(tokens@),
            spec_parse_indices(s@) == out@ + spec_parse_indices_of(
                tv.subrange(i as int, tv.len() as int),
            ),
        decreases tokens@.len() - i,
    {
        let ghost sub = tv.subrange(i as int, tv.len() as int);
        proof {
            assert(sub.len() > 0);
            assert(sub[0] == tv[i as int]);
            assert(tv[i as int] == tokens@[i as int]@);
            assert(sub.subrange(1, sub.len() as int) =~~= tv.subrange(
                i as int + 1,
                tv.len() as int,
            ));
        }
        match parse_token(&tokens[i]) {
            Some(v) => {
                proof {
                    assert(out@ + (seq![v] + spec_parse_indices_of(
                        sub.subrange(1, sub.len() as int),
                    )) =~= out@.push(v) + spec_parse_indices_of(sub.subrange(1, sub.len() as int)));
                }
                out.push(v);
            },
            None => {},
        }
        i += 1;
    }
    proof {
        assert(tv.subrange(tokens@.len() as int, tv.len() as int)
            =~~= Seq::<Seq<char>>::empty());
        assert(out@ + spec_parse_indices_of(Seq::<Seq<char>>::empty()) =~= out@);
    }
    out
}

} // verus!
