//! The redaction computation and the public commitment it produces.
//!
//! Redacting a document replaces every line whose index appears in the
//! requested index list by the fixed sentinel line; indices at or beyond the
//! line count have no effect. The commitment binds together the digest of
//! the full document, the digest of the redacted document, and the requested
//! indices echoed verbatim.

use vstd::prelude::*;
use crate::digest::{Digest, sha256_of, str_to_chars, text_digest};
use crate::text::{char_views, chars_to_string, join_lines, spec_join, spec_lines, split_lines};

verus! {

/// The sentinel line that stands in for a redacted line.
pub open spec fn sentinel() -> Seq<char> {
    seq!['*', '*', '*', 'R', 'E', 'D', 'A', 'C', 'T', 'E', 'D', '*', '*', '*']
}

/// The sentinel line as characters.
pub fn sentinel_chars() -> (r: Vec<char>)
    ensures
        r@ == sentinel(),
{
    let mut v: Vec<char> = Vec::new();
    v.push('*');
    v.push('*');
    v.push('*');
    v.push('R');
    v.push('E');
    v.push('D');
    v.push('A');
    v.push('C');
    v.push('T');
    v.push('E');
    v.push('D');
    v.push('*');
    v.push('*');
    v.push('*');
    proof {
        assert(v@ =~= sentinel());
    }
    v
}

/// The sentinel line contains no newline, so it is a single line wherever
/// it stands.
pub proof fn lemma_sentinel_newline_free()
    ensures
        !sentinel().contains('\n'),
{
    if sentinel().contains('\n') {
        let k = choose|k: int| 0 <= k < sentinel().len() && sentinel()[k] == '\n';
        assert(false);
    }
}

/// Whether some entry of `indices` equals `v`.
pub open spec fn index_requested(indices: Seq<usize>, v: int) -> bool {
    exists|j: int| 0 <= j < indices.len() && indices[j] as int == v
}

/// Whether some entry of `indices` equals `x`.
pub fn contains_index(indices: &Vec<usize>, x: usize) -> (r: bool)
    ensures
        r == index_requested(indices@, x as int),
{
    let mut j: usize = 0;
    while j < indices.len()
        invariant
            j <= indices@.len(),
            forall|k: int| 0 <= k < j ==> indices@[k] != x,
        decreases indices@.len() - j,
    {
        if indices[j] == x {
            return true;
        }
        j += 1;
    }
    false
}

/// The lines after redaction: each line whose index is requested becomes the
/// sentinel, every other line is unchanged.
pub open spec fn spec_redact(lines: Seq<Seq<char>>, indices: Seq<usize>) -> Seq<Seq<char>> {
    Seq::new(lines.len(), |i: int| if index_requested(indices, i) {
        sentinel()
    } else {
        lines[i]
    })
}

/// The redacted document: the lines of `content`, redacted by `indices`, and
/// rejoined with newlines.
pub open spec fn spec_redacted_content(content: Seq<char>, indices: Seq<usize>) -> Seq<char> {
    spec_join(spec_redact(spec_lines(content), indices))
}

fn redact_lines(lines: &Vec<Vec<char>>, indices: &Vec<usize>) -> (r: Vec<Vec<char>>)
    ensures
        char_views(r@) == spec_redact(char_views(lines@), indices@),
{
    let ghost target = spec_redact(char_views(lines@), indices@);
    let mut out: Vec<Vec<char>> = Vec::new();
    let mut i: usize = 0;
    proof {
        assert(char_views(out@) =~~= target.take(0));
    }
    while i < lines.len()
        invariant
            i <= lines@.len(),
            target == spec_redact(char_views(lines@), indices@),
            char_views(out@) == target.take(i as int),
        decreases lines@.len() - i,
    {
        let line = if contains_index(indices, i) {
            sentinel_chars()
        } else {
            crate::text::copy_chars(&lines[i])
        };
        proof {
            assert(char_views(lines@)[i as int] == lines@[i as int]@);
            assert(line@ == target[i as int]);
            assert(char_views(out@.push(line)) =~~= char_views(out@).push(line@));
            assert(target.take(i as int + 1) =~~= target.take(i as int).push(target[i as int]));
        }
        out.push(line);
        i += 1;
    }
    proof {
        assert(target.take(lines@.len() as int) =~~= target);
    }
    out
}

/// The redacted variant of `content`: every line whose index appears in
/// `indices` replaced by the sentinel, lines rejoined with newlines.
pub fn redacted_text(content: &str, indices: &Vec<usize>) -> (r: String)
    ensures
        r@ == spec_redacted_content(content@, indices@),
{
    let chars = str_to_chars(content);
    let lines = split_lines(&chars);
    let red = redact_lines(&lines, indices);
    let joined = join_lines(&red);
    chars_to_string(&joined)
}

/// The public output of one redaction run: the digest of the full document,
/// the digest of its redacted variant, and the requested line indices echoed
/// verbatim, out-of-range entries included.
#[derive(Clone, Debug, PartialEq, Eq)]
pub struct Commitment {
    pub full: Digest,
    pub redacted: Digest,
    pub indices: Vec<usize>,
}

fn copy_indices(v: &Vec<usize>) -> (r: Vec<usize>)
    ensures
        r@ == v@,
{
    let mut out: Vec<usize> = Vec::new();
    let mut i: usize = 0;
    while i < v.len()
        invariant
            i <= v@.len(),
            out@ == v@.take(i as int),
        decreases v@.len() - i,
    {
        out.push(v[i]);
        proof {
            assert(v@.take(i as int + 1) =~= v@.take(i as int).push(v@[i as int]));
        }
        i += 1;
    }
    proof {
        assert(v@.take(v@.len() as int) =~= v@);
    }
    out
}

/// The deterministic redaction computation: from the document text and the
/// requested indices to the commitment the run discloses.
pub fn compute_commitment(content: &str, indices: &Vec<usize>) -> (c: Commitment)
    ensures
        c.full@ == sha256_of(content@),
        c.redacted@ == sha256_of(spec_redacted_content(content@, indices@)),
        c.indices@ == indices@,
{
    let full = text_digest(content);
    let red = redacted_text(content, indices);
    let redacted = text_digest(red.as_str());
    Commitment { full, redacted, indices: copy_indices(indices) }
}

} // verus!
