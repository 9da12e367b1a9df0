//! A redaction-commitment protocol library.
//!
//! A holder of a text document commits publicly to two digests: one of the
//! full document, and one of a variant in which a requested set of line
//! indices has been replaced by a fixed sentinel line. The deterministic
//! redaction computation, the digest bookkeeping, and the host-side
//! consistency checks live here; a verifiable-computation engine and all
//! file and terminal I/O sit outside the library.

mod digest;
mod host;
mod laws;
mod parse;
mod redact;
mod text;

pub use digest::Digest;
pub use digest::hex_digit;
pub use digest::sha256_of;
pub use digest::spec_hex;
pub use digest::text_digest;
pub use host::ConsistencyError;
pub use host::check_commitment;
pub use host::host_cross_check;
pub use host::same_index_set;
pub use host::same_indices;
pub use laws::lemma_commitment_deterministic;
pub use laws::lemma_duplicate_index;
pub use laws::lemma_full_redaction;
pub use laws::lemma_lines_join_identity;
pub use laws::lemma_no_effect_content_iff;
pub use laws::lemma_no_effect_digest;
pub use laws::lemma_no_effective_index;
pub use laws::lemma_out_of_range_index;
pub use laws::lemma_redaction_identity_iff;
pub use laws::lemma_redaction_set_dependence;
pub use parse::dec_val;
pub use parse::digit_value;
pub use parse::is_ascii_digit;
pub use parse::parse_redaction_spec;
pub use parse::parse_token;
pub use parse::spec_parse_indices;
pub use parse::spec_parse_indices_of;
pub use parse::spec_parse_token;
pub use parse::token_body;
pub use parse::token_valid;
pub use redact::Commitment;
pub use redact::compute_commitment;
pub use redact::contains_index;
pub use redact::index_requested;
pub use redact::redacted_text;
pub use redact::sentinel;
pub use redact::sentinel_chars;
pub use redact::spec_redact;
pub use redact::spec_redacted_content;
pub use text::char_views;
pub use redact::lemma_sentinel_newline_free;
pub use text::lemma_join_injective;
pub use text::lemma_join_split;
pub use text::lemma_lines_newline_free;
pub use text::lemma_split_pieces_free;
pub use text::spec_join;
pub use text::spec_lines;
pub use text::spec_split;
pub use text::strip_cr;
