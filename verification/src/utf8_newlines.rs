//! Where carriage returns and line feeds sit in the UTF-8 encoding of a text.
use vstd::prelude::*;
use vstd::utf8::{char_is_scalar, encode_scalar, encode_utf8};

use crate::newlines::{
    lemma_contains_past_prefix, lemma_lf_prefix, lemma_lone_cr_prefix, lemma_pair_prefix, lemma_plain_prefix,
    only_paired_newlines,
};

verus! {

/// The encoding of one character: `'\r'` and `'\n'` are the single bytes 13 and 10,
/// and no other character puts a 13 or a 10 anywhere in its encoding.
pub proof fn lemma_scalar_newline_bytes(c: char)
    ensures
        encode_scalar(c as u32).len() > 0,
        c == '\r' ==> encode_scalar(c as u32) == seq![13u8],
        c == '\n' ==> encode_scalar(c as u32) == seq![10u8],
        c != '\r' && c != '\n' ==> forall|k: int|
            0 <= k < encode_scalar(c as u32).len() ==> #[trigger] encode_scalar(c as u32)[k]
                != 13u8 && encode_scalar(c as u32)[k] != 10u8,
{
    let v = c as u32;
    char_is_scalar(c);
    let e = encode_scalar(v);
    if v <= 0x7f {
        assert((v & 0x7f) as u8 == v) by (bit_vector)
            requires
                v <= 0x7f,
        ;
        assert(e == seq![v as u8]);
    } else {
        assert(forall|x: u8| #![trigger (0x80u8 | x)] (0x80u8 | x) >= 0x80u8) by (bit_vector);
        assert(forall|x: u8| #![trigger (0xC0u8 | x)] (0xC0u8 | x) >= 0x80u8) by (bit_vector);
        assert(forall|x: u8| #![trigger (0xE0u8 | x)] (0xE0u8 | x) >= 0x80u8) by (bit_vector);
        assert(forall|x: u8| #![trigger (0xF0u8 | x)] (0xF0u8 | x) >= 0x80u8) by (bit_vector);
        assert forall|k: int| 0 <= k < e.len() implies e[k] >= 0x80u8 by {}
    }
}

/// A line feed occurs in the encoding of a text exactly when `'\n'` occurs in the text.
pub proof fn lemma_encoded_contains_lf(cs: Seq<char>)
    ensures
        encode_utf8(cs).contains(10u8) == cs.contains('\n'),
    decreases cs.len(),
{
    if cs.len() == 0 {
        assert(encode_utf8(cs) =~= Seq::<u8>::empty());
    } else {
        let c = cs[0];
        let r = cs.drop_first();
        let e = encode_scalar(c as u32);
        lemma_scalar_newline_bytes(c);
        lemma_encoded_contains_lf(r);
        assert(encode_utf8(cs) == e + encode_utf8(r));
        assert(cs =~= seq![c] + r);
        if c == '\n' {
            lemma_lf_prefix(encode_utf8(r), 13u8, 10u8);
            lemma_lf_prefix(r, '\r', '\n');
        } else {
            lemma_contains_past_prefix(seq![c], r, '\n');
            lemma_contains_past_prefix(e, encode_utf8(r), 10u8);
        }
    }
}

/// The first byte of the encoding of a nonempty text is a line feed exactly
/// when the text starts with `'\n'`.
pub proof fn lemma_encoded_first_byte(cs: Seq<char>)
    requires
        cs.len() > 0,
    ensures
        encode_utf8(cs).len() > 0,
        (encode_utf8(cs)[0] == 10u8) == (cs[0] == '\n'),
{
    let c = cs[0];
    lemma_scalar_newline_bytes(c);
    let e = encode_scalar(c as u32);
    assert(encode_utf8(cs) == e + encode_utf8(cs.drop_first()));
    assert(encode_utf8(cs)[0] == e[0]);
}

/// The pairing of newlines is the same read byte by byte in the encoding as read
/// character by character in the text.
pub proof fn lemma_encoded_pairing(cs: Seq<char>)
    ensures
        only_paired_newlines(encode_utf8(cs), 13u8, 10u8) == only_paired_newlines(cs, '\r', '\n'),
    decreases cs.len(),
{
    if cs.len() == 0 {
        assert(encode_utf8(cs) =~= Seq::<u8>::empty());
    } else {
        let c = cs[0];
        let r = cs.drop_first();
        let e = encode_scalar(c as u32);
        lemma_scalar_newline_bytes(c);
        assert(encode_utf8(cs) == e + encode_utf8(r));
        assert(cs =~= seq![c] + r);
        if c == '\r' {
            if r.len() > 0 && r[0] == '\n' {
                let r2 = r.drop_first();
                lemma_scalar_newline_bytes(r[0]);
                assert(encode_utf8(r) == seq![10u8] + encode_utf8(r2));
                assert(encode_utf8(cs) =~= seq![13u8, 10u8] + encode_utf8(r2));
                assert(cs =~= seq!['\r', '\n'] + r2);
                lemma_pair_prefix(encode_utf8(r2), 13u8, 10u8);
                lemma_pair_prefix(r2, '\r', '\n');
                lemma_encoded_pairing(r2);
            } else {
                if r.len() > 0 {
                    lemma_encoded_first_byte(r);
                } else {
                    assert(encode_utf8(r) =~= Seq::<u8>::empty());
                }
                lemma_lone_cr_prefix(encode_utf8(r), 13u8, 10u8);
                lemma_lone_cr_prefix(r, '\r', '\n');
            }
        } else if c == '\n' {
            lemma_lf_prefix(encode_utf8(r), 13u8, 10u8);
            lemma_lf_prefix(r, '\r', '\n');
        } else {
            lemma_plain_prefix(e, encode_utf8(r), 13u8, 10u8);
            lemma_plain_prefix(seq![c], r, '\r', '\n');
            lemma_encoded_pairing(r);
        }
    }
}

} // verus!
