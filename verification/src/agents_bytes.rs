//! The laws of the managed block carried from the file's text to its bytes: the byte
//! order mark is kept, and a U+FEFF the text starts with is read back as one.
use vstd::prelude::*;
use vstd::utf8::{
    char_is_scalar, char_u32_cast, codepoint_width_3, decode_first_codepoint, encode_scalar,
    encode_utf8, encode_utf8_decode_utf8, encode_utf8_first_scalar, encode_utf8_valid_utf8,
    valid_utf8,
};

use crate::agents::{
    agents_newline, begin_marker, block_ranges, bom, crlf, encoded, end_marker, feff, has_bom,
    image_agents_block, is_empty_rules_file, lemma_markers, lf, payload, payload_text, rebuild,
    scan_blocks, updated_payload, updated_text,
};
use crate::agents_lines::{
    block_middle, lemma_block_in_place, lemma_block_middle, lemma_counts_markerless,
    lemma_ensured_shape, lemma_fixed_texts, lemma_kept_has_no_markers, lemma_markerless_counts,
    lemma_markerless_parts, lemma_markers_one_line, lemma_newline_kept, lemma_scan_without_markers,
    law_ensure_rules_text_is_idempotent, law_removal_is_idempotent,
};
use crate::platform::Os;
use crate::text::{contains, occurs_at};

verus! {

/// A text whose encoding starts with a byte order mark starts with the character U+FEFF,
/// encoded by those three bytes.
#[verifier::spinoff_prover]
pub proof fn lemma_leading_bom(u: Seq<char>)
    requires
        has_bom(encode_utf8(u)),
    ensures
        u.len() > 0,
        u[0] == '\u{feff}',
        encode_utf8(u).skip(3) == encode_utf8(u.drop_first()),
{
    if u.len() == 0 {
        assert(encode_utf8(u) =~= Seq::<u8>::empty());
    }
    encode_utf8_first_scalar(u);
    char_is_scalar(u[0]);
    let b = encode_utf8(u);
    let c = encode_scalar(u[0] as u32);
    assert(b =~= c + encode_utf8(u.drop_first()));
    assert(c.len() == 3);
    assert(b.skip(3) =~= encode_utf8(u.drop_first()));
    assert(decode_first_codepoint(b) == codepoint_width_3(0xefu8, 0xbbu8, 0xbfu8));
    assert(codepoint_width_3(0xefu8, 0xbbu8, 0xbfu8) == 0xfeffu32) by (bit_vector);
    char_u32_cast(u[0], 0xfeffu32);
    assert(u[0] == (0xfeffu32 as char));
    assert((0xfeffu32 as char) == '\u{feff}');
}

pub proof fn lemma_contains_past_first(u: Seq<char>, w: Seq<char>)
    requires
        u.len() > 0,
        w.len() > 0,
        u[0] != w[0],
    ensures
        contains(u, w) == contains(u.drop_first(), w),
{
    if contains(u, w) {
        let j = choose|j: int| occurs_at(u, w, j);
        if j == 0 {
            assert(u.subrange(0, w.len() as int)[0] == u[0]);
        }
        assert(u.drop_first().subrange(j - 1, j - 1 + w.len()) =~= u.subrange(j, j + w.len()));
        assert(occurs_at(u.drop_first(), w, j - 1));
    }
    if contains(u.drop_first(), w) {
        let j = choose|j: int| occurs_at(u.drop_first(), w, j);
        assert(u.drop_first().subrange(j, j + w.len()) =~= u.subrange(j + 1, j + 1 + w.len()));
        assert(occurs_at(u, w, j + 1));
    }
}

/// What the update reads of its own output: the text it wrote, less a leading U+FEFF
/// where the file had no byte order mark of its own.
#[verifier::spinoff_prover]
pub proof fn lemma_reread(bytes: Seq<u8>, u: Seq<char>)
    ensures
        valid_utf8(payload(encoded(bytes, u))),
        has_bom(bytes) || !has_bom(encode_utf8(u)) ==> payload_text(encoded(bytes, u)) == u
            && encoded(encoded(bytes, u), u) == encoded(bytes, u),
        !has_bom(bytes) && has_bom(encode_utf8(u)) ==> u.len() > 0 && u[0] == '\u{feff}'
            && payload_text(encoded(bytes, u)) == u.drop_first() && encoded(
            encoded(bytes, u),
            u.drop_first(),
        ) == encoded(bytes, u),
{
    broadcast use encode_utf8_valid_utf8, encode_utf8_decode_utf8;

    let e = encode_utf8(u);
    let out = encoded(bytes, u);
    if has_bom(bytes) {
        assert(out =~= bom() + e);
        assert(has_bom(out));
        assert(payload(out) =~= e);
    } else {
        assert(out =~= e);
        if has_bom(e) {
            lemma_leading_bom(u);
            assert(payload(out) == encode_utf8(u.drop_first()));
            assert(out =~= bom() + encode_utf8(u.drop_first()));
        }
    }
}

/// Ensuring the rules in a file twice gives the bytes of ensuring them once, with the one
/// exception of `law_ensure_rules_text_is_idempotent`.
#[verifier::spinoff_prover]
pub proof fn law_ensure_rules_is_idempotent(bytes: Seq<u8>, os: Os)
    requires
        updated_payload(bytes, true, os) is Some,
        !(block_ranges(payload_text(bytes)) == Some(Seq::<(int, int)>::empty()) && payload_text(
            bytes,
        ).len() > 0 && payload_text(bytes).last() == '\r' && agents_newline(payload_text(bytes), os)
            == lf()),
    ensures
        ({
            let out = encoded(bytes, updated_payload(bytes, true, os)->0);
            updated_payload(out, true, os) matches Some(u2) && encoded(out, u2) == out
        }),
{
    let t = payload_text(bytes);
    let nl = agents_newline(t, os);
    let u = updated_payload(bytes, true, os)->0;
    law_ensure_rules_text_is_idempotent(t, os);
    lemma_reread(bytes, u);
    if !has_bom(bytes) && has_bom(encode_utf8(u)) {
        assert(crlf() =~= seq!['\r', '\n']);
        assert(lf() =~= seq!['\n']);
        let (p, x, r) = lemma_ensured_shape(t, nl);
        lemma_newline_kept(t, os);
        lemma_fixed_texts();
        lemma_block_middle(nl);
        if p.len() == 0 {
            assert(u =~= image_agents_block(nl) + x + r);
            assert(image_agents_block(nl) =~= begin_marker() + nl + block_middle(nl) + end_marker());
            assert(u[0] == begin_marker()[0]);
        }
        let v = u.drop_first();
        let p2 = p.drop_first();
        assert(p =~= seq![p[0]] + p2);
        lemma_markerless_parts(seq![p[0]], p2);
        assert(v =~= p2 + image_agents_block(nl) + x + r);
        if p2.len() > 0 {
            assert(p2.last() == p.last());
        }
        lemma_block_in_place(p2, x, r, nl);
        lemma_contains_past_first(u, crlf());
        lemma_contains_past_first(u, lf());
        assert(agents_newline(v, os) == agents_newline(u, os));
    }
}

/// Removing the rules from a file twice gives the bytes of removing them once: a file
/// kept after the first removal is kept, unchanged, after the second.
#[verifier::spinoff_prover]
pub proof fn law_remove_rules_is_idempotent(bytes: Seq<u8>)
    requires
        updated_payload(bytes, false, Os::Other) is Some,
        !is_empty_rules_file(updated_payload(bytes, false, Os::Other)->0),
    ensures
        ({
            let out = encoded(bytes, updated_payload(bytes, false, Os::Other)->0);
            updated_payload(out, false, Os::Other) matches Some(u2) && !is_empty_rules_file(u2)
                && encoded(out, u2) == out
        }),
{
    let t = payload_text(bytes);
    let nl = agents_newline(t, Os::Other);
    let u = updated_payload(bytes, false, Os::Other)->0;
    lemma_reread(bytes, u);
    if has_bom(bytes) || !has_bom(encode_utf8(u)) {
        law_removal_is_idempotent(t, nl, agents_newline(u, Os::Other));
    } else {
        lemma_markers();
        lemma_markers_one_line();
        let rs = block_ranges(t)->0;
        assert(scan_blocks(t, 0, None) == Some(rs));
        lemma_kept_has_no_markers(t, 0, rs, nl);
        if rs.len() == 0 {
            assert(rebuild(t, rs, 0, 0, None, nl) =~= t);
        }
        assert(u == rebuild(t, rs, 0, 0, None, nl));
        lemma_counts_markerless(u);
        let v = u.drop_first();
        assert(u =~= seq![u[0]] + v);
        lemma_markerless_parts(seq![u[0]], v);
        lemma_markerless_counts(v, 0);
        lemma_scan_without_markers(v, 0);
        assert(updated_text(v, false, agents_newline(v, Os::Other)) == Some(v));
        assert(feff() =~= seq!['\u{feff}']);
        assert(crate::text::has_prefix(u, feff())) by {
            assert(u.subrange(0, 1) =~= feff());
        }
        assert(u.skip(1) =~= v);
    }
}

} // verus!
