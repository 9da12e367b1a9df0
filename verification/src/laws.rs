//! Laws of the redaction computation.
//!
//! Each proof function here states a property of the commitment that holds
//! for every document and every requested index list, over the same spec
//! functions the executable functions' contracts use.

use vstd::prelude::*;
use crate::digest::sha256_of;
use crate::redact::{
    index_requested, lemma_sentinel_newline_free, sentinel, spec_redact, spec_redacted_content,
};
use crate::text::{
    lemma_join_injective, lemma_join_split, lemma_lines_newline_free, spec_join, spec_lines,
    spec_split, strip_cr,
};

verus! {

/// Determinism: the commitment is a function of the document and the
/// requested indices alone, so equal inputs give equal digests and equal
/// echoed indices.
pub proof fn lemma_commitment_deterministic(
    d1: Seq<char>,
    s1: Seq<usize>,
    d2: Seq<char>,
    s2: Seq<usize>,
)
    requires
        d1 == d2,
        s1 == s2,
    ensures
        sha256_of(d1) == sha256_of(d2),
        sha256_of(spec_redacted_content(d1, s1)) == sha256_of(spec_redacted_content(d2, s2)),
{
}

/// The redacted document depends only on which indices are requested, never
/// on their order or multiplicity in the list.
pub proof fn lemma_redaction_set_dependence(d: Seq<char>, s1: Seq<usize>, s2: Seq<usize>)
    requires
        forall|v: int| index_requested(s1, v) <==> index_requested(s2, v),
    ensures
        spec_redacted_content(d, s1) == spec_redacted_content(d, s2),
{
    assert(spec_redact(spec_lines(d), s1) =~= spec_redact(spec_lines(d), s2));
}

/// Redaction idempotence: repeating an index already in the list leaves the
/// redacted document, and so its digest, unchanged.
pub proof fn lemma_duplicate_index(d: Seq<char>, s: Seq<usize>, i: usize)
    requires
        index_requested(s, i as int),
    ensures
        spec_redacted_content(d, s.push(i)) == spec_redacted_content(d, s),
{
    assert forall|v: int| index_requested(s.push(i), v) <==> index_requested(s, v) by {
        if index_requested(s.push(i), v) {
            let j = choose|j: int| 0 <= j < s.push(i).len() && s.push(i)[j] as int == v;
            if j < s.len() {
                assert(s[j] as int == v);
            } else {
                assert(v == i as int);
            }
        }
        if index_requested(s, v) {
            let j = choose|j: int| 0 <= j < s.len() && s[j] as int == v;
            assert(s.push(i)[j] as int == v);
        }
    }
    lemma_redaction_set_dependence(d, s.push(i), s);
}

/// Out-of-range tolerance: requesting an index at or beyond the line count
/// leaves the redacted document, and so its digest, unchanged.
pub proof fn lemma_out_of_range_index(d: Seq<char>, s: Seq<usize>, i: usize)
    requires
        i as int >= spec_lines(d).len(),
    ensures
        spec_redacted_content(d, s.push(i)) == spec_redacted_content(d, s),
{
    assert forall|j: int|
        0 <= j < spec_lines(d).len() implies (index_requested(s.push(i), j) <==> index_requested(
        s,
        j,
    )) by {
        if index_requested(s.push(i), j) {
            let k = choose|k: int| 0 <= k < s.push(i).len() && s.push(i)[k] as int == j;
            if k < s.len() {
                assert(s[k] as int == j);
            } else {
                assert(s.push(i)[k] == i);
            }
        }
        if index_requested(s, j) {
            let k = choose|k: int| 0 <= k < s.len() && s[k] as int == j;
            assert(s.push(i)[k] as int == j);
        }
    }
    assert(spec_redact(spec_lines(d), s.push(i)) =~= spec_redact(spec_lines(d), s));
}

/// Full-document sentinel: when every valid line index is requested, the
/// redacted document is the sentinel line repeated once per line, joined
/// with newlines.
pub proof fn lemma_full_redaction(d: Seq<char>, s: Seq<usize>)
    requires
        forall|j: int| 0 <= j < spec_lines(d).len() ==> index_requested(s, j),
    ensures
        spec_redacted_content(d, s) == spec_join(
            Seq::new(spec_lines(d).len(), |i: int| sentinel()),
        ),
{
    assert(spec_redact(spec_lines(d), s) =~= Seq::new(spec_lines(d).len(), |i: int| sentinel()));
}

/// When no requested index is below the line count — the list may also be
/// empty — redaction changes nothing: the redacted document is exactly the
/// lines rejoined.
pub proof fn lemma_no_effective_index(d: Seq<char>, s: Seq<usize>)
    requires
        forall|k: int| 0 <= k < s.len() ==> s[k] as int >= spec_lines(d).len(),
    ensures
        spec_redacted_content(d, s) == spec_join(spec_lines(d)),
{
    assert forall|j: int| 0 <= j < spec_lines(d).len() implies !index_requested(s, j) by {
        if index_requested(s, j) {
            let k = choose|k: int| 0 <= k < s.len() && s[k] as int == j;
        }
    }
    assert(spec_redact(spec_lines(d), s) =~= spec_lines(d));
}

/// Redaction leaves the lines unchanged exactly when every requested
/// in-range line is already the sentinel — in particular when no requested
/// index is in range at all.
pub proof fn lemma_redaction_identity_iff(d: Seq<char>, s: Seq<usize>)
    ensures
        spec_redact(spec_lines(d), s) == spec_lines(d) <==> (forall|j: int|
            0 <= j < spec_lines(d).len() && index_requested(s, j) ==> spec_lines(d)[j]
                == sentinel()),
{
    let lines = spec_lines(d);
    if forall|j: int|
        0 <= j < lines.len() && #[trigger] index_requested(s, j) ==> lines[j] == sentinel() {
        assert(spec_redact(lines, s) =~= lines);
    }
    if spec_redact(lines, s) == lines {
        assert forall|j: int|
            0 <= j < lines.len() && #[trigger] index_requested(s, j) implies lines[j]
            == sentinel() by {
            assert(spec_redact(lines, s)[j] == sentinel());
        }
    }
}

/// The redacted document equals the rejoined lines if and only if every
/// requested in-range line is already the sentinel — in particular whenever
/// the requested list is empty or entirely out of range. The digests then
/// agree too; the converse at the digest level would need the hash's
/// collision resistance and is not stated.
pub proof fn lemma_no_effect_content_iff(d: Seq<char>, s: Seq<usize>)
    ensures
        spec_redacted_content(d, s) == spec_join(spec_lines(d)) <==> (forall|j: int|
            0 <= j < spec_lines(d).len() && index_requested(s, j) ==> spec_lines(d)[j]
                == sentinel()),
{
    lemma_redaction_identity_iff(d, s);
    let lines = spec_lines(d);
    let red = spec_redact(lines, s);
    if spec_redacted_content(d, s) == spec_join(lines) {
        lemma_lines_newline_free(d);
        lemma_sentinel_newline_free();
        assert forall|i: int| 0 <= i < red.len() implies !(#[trigger] red[i]).contains('\n') by {
            if index_requested(s, i) {
                assert(red[i] == sentinel());
            } else {
                assert(red[i] == lines[i]);
            }
        }
        lemma_join_injective(red, lines);
    }
}

/// Rejoining the lines of a document restores the document exactly when the
/// document does not end in a newline (or is empty) and no line that a
/// newline follows ends in a carriage return.
pub proof fn lemma_lines_join_identity(d: Seq<char>)
    requires
        d.len() == 0 || spec_split(d, '\n').last().len() > 0,
        forall|i: int|
            0 <= i < spec_split(d, '\n').len() - 1 ==> strip_cr(spec_split(d, '\n')[i])
                == spec_split(d, '\n')[i],
    ensures
        spec_join(spec_lines(d)) == d,
{
    lemma_join_split(d);
    let ps = spec_split(d, '\n');
    if d.len() == 0 {
        assert(ps == seq![Seq::<char>::empty()]);
        assert(spec_lines(d) =~~= Seq::<Seq<char>>::empty());
        assert(spec_join(spec_lines(d)) =~= d);
    } else {
        assert(spec_lines(d) =~~= ps);
    }
}

/// Empty redaction equals identity: with no requested index below the line
/// count, the redacted digest equals the full digest whenever rejoining the
/// lines restores the document.
pub proof fn lemma_no_effect_digest(d: Seq<char>, s: Seq<usize>)
    requires
        forall|k: int| 0 <= k < s.len() ==> s[k] as int >= spec_lines(d).len(),
        spec_join(spec_lines(d)) == d,
    ensures
        sha256_of(spec_redacted_content(d, s)) == sha256_of(d),
{
    lemma_no_effective_index(d, s);
}

} // verus!
