//! `str`'s order is the byte-wise order of the texts' UTF-8 encodings;
//! UTF-8 keeps the order of code points, so that is the lexicographic
//! order on characters.
use vstd::prelude::*;
use vstd::utf8::*;
use crate::ordering::seq_lt;

verus! {

/// `a` sorts strictly before `b` byte by byte: the first differing byte
/// decides, and a proper prefix sorts first.
pub open spec fn bytes_lt(a: Seq<u8>, b: Seq<u8>) -> bool
    decreases a.len(),
{
    if a.len() == 0 {
        b.len() > 0
    } else if b.len() == 0 {
        false
    } else if a[0] != b[0] {
        a[0] < b[0]
    } else {
        bytes_lt(a.drop_first(), b.drop_first())
    }
}

/// A shared first part does not change the order.
proof fn lemma_bytes_lt_prefix(p: Seq<u8>, a: Seq<u8>, b: Seq<u8>)
    ensures
        bytes_lt(p + a, p + b) == bytes_lt(a, b),
    decreases p.len(),
{
    if p.len() > 0 {
        assert((p + a).drop_first() =~= p.drop_first() + a);
        assert((p + b).drop_first() =~= p.drop_first() + b);
        lemma_bytes_lt_prefix(p.drop_first(), a, b);
    } else {
        assert(p + a =~= a);
        assert(p + b =~= b);
    }
}

/// The byte order never holds both ways.
proof fn lemma_bytes_lt_asymmetric(a: Seq<u8>, b: Seq<u8>)
    ensures
        !(bytes_lt(a, b) && bytes_lt(b, a)),
    decreases a.len(),
{
    if a.len() > 0 && b.len() > 0 && a[0] == b[0] {
        lemma_bytes_lt_asymmetric(a.drop_first(), b.drop_first());
    }
}

/// A longer encoding starts with a greater leading byte.
proof fn lemma_lead_bytes(c1: u32, c2: u32)
    by (bit_vector)
    requires
        c1 <= 0x10FFFF,
        c2 <= 0x10FFFF,
    ensures
        c1 < c2 <= 0x7F ==> leading_byte_width_1(c1) < leading_byte_width_1(c2),
        c1 <= 0x7F && 0x80 <= c2 ==> leading_byte_width_1(c1) < leading_byte_width_2(c2) && leading_byte_width_1(c1) < leading_byte_width_3(c2) && leading_byte_width_1(c1) < leading_byte_width_4(c2),
        0x80 <= c1 <= 0x7FF && 0x800 <= c2 ==> leading_byte_width_2(c1) < leading_byte_width_3(c2) && leading_byte_width_2(c1) < leading_byte_width_4(c2),
        0x800 <= c1 <= 0xFFFF && 0x10000 <= c2 ==> leading_byte_width_3(c1) < leading_byte_width_4(c2),
{
}

/// Within one width, the bytes compare as the scalars do.
proof fn lemma_width_2_bytes(c1: u32, c2: u32)
    by (bit_vector)
    requires
        0x80 <= c1 < c2 <= 0x7FF,
    ensures
        leading_byte_width_2(c1) <= leading_byte_width_2(c2),
        leading_byte_width_2(c1) == leading_byte_width_2(c2) ==> last_continuation_byte(c1) < last_continuation_byte(c2),
{
}

proof fn lemma_width_3_bytes(c1: u32, c2: u32)
    by (bit_vector)
    requires
        0x800 <= c1 < c2 <= 0xFFFF,
    ensures
        leading_byte_width_3(c1) <= leading_byte_width_3(c2),
        leading_byte_width_3(c1) == leading_byte_width_3(c2) ==> second_last_continuation_byte(c1) <= second_last_continuation_byte(c2),
        leading_byte_width_3(c1) == leading_byte_width_3(c2) && second_last_continuation_byte(c1) == second_last_continuation_byte(c2) ==> last_continuation_byte(c1) < last_continuation_byte(c2),
{
}

proof fn lemma_width_4_bytes(c1: u32, c2: u32)
    by (bit_vector)
    requires
        0x10000 <= c1 < c2 <= 0x10FFFF,
    ensures
        leading_byte_width_4(c1) <= leading_byte_width_4(c2),
        leading_byte_width_4(c1) == leading_byte_width_4(c2) ==> third_last_continuation_byte(c1) <= third_last_continuation_byte(c2),
        leading_byte_width_4(c1) == leading_byte_width_4(c2) && third_last_continuation_byte(c1) == third_last_continuation_byte(c2) ==> second_last_continuation_byte(c1) <= second_last_continuation_byte(c2),
        leading_byte_width_4(c1) == leading_byte_width_4(c2) && third_last_continuation_byte(c1) == third_last_continuation_byte(c2) && second_last_continuation_byte(c1) == second_last_continuation_byte(c2) ==> last_continuation_byte(c1) < last_continuation_byte(c2),
{
}

/// The encoding of a smaller scalar sorts first, whatever follows each.
proof fn lemma_scalar_lt(c1: u32, c2: u32, x: Seq<u8>, y: Seq<u8>)
    requires
        is_scalar(c1),
        is_scalar(c2),
        c1 < c2,
    ensures
        bytes_lt(encode_scalar(c1) + x, encode_scalar(c2) + y),
{
    let a = encode_scalar(c1) + x;
    let b = encode_scalar(c2) + y;
    let (e1, e2) = (encode_scalar(c1), encode_scalar(c2));
    assert(e1.len() > 0 && e2.len() > 0);
    assert(a[0] == e1[0] && b[0] == e2[0]);
    lemma_lead_bytes(c1, c2);
    if has_width_1_encoding(c1) {
        assert(a[0] < b[0]);
    } else if has_width_2_encoding(c1) && !has_width_2_encoding(c2) {
        assert(a[0] < b[0]);
    } else if has_width_3_encoding(c1) && !has_width_3_encoding(c2) {
        assert(has_width_4_encoding(c2));
        assert(a[0] < b[0]);
    } else if has_width_2_encoding(c1) && has_width_2_encoding(c2) {
        lemma_width_2_bytes(c1, c2);
        if a[0] == b[0] {
            assert(a.drop_first()[0] == e1[1]);
            assert(b.drop_first()[0] == e2[1]);
            assert(bytes_lt(a.drop_first(), b.drop_first()));
        }
    } else if has_width_3_encoding(c1) && has_width_3_encoding(c2) {
        lemma_width_3_bytes(c1, c2);
        if a[0] == b[0] {
            let (a1, b1) = (a.drop_first(), b.drop_first());
            assert(a1[0] == e1[1] && b1[0] == e2[1]);
            if a1[0] == b1[0] {
                assert(a1.drop_first()[0] == e1[2]);
                assert(b1.drop_first()[0] == e2[2]);
                assert(bytes_lt(a1.drop_first(), b1.drop_first()));
            }
            assert(bytes_lt(a1, b1));
        }
    } else if has_width_4_encoding(c1) && has_width_4_encoding(c2) {
        lemma_width_4_bytes(c1, c2);
        if a[0] == b[0] {
            let (a1, b1) = (a.drop_first(), b.drop_first());
            assert(a1[0] == e1[1] && b1[0] == e2[1]);
            if a1[0] == b1[0] {
                let (a2, b2) = (a1.drop_first(), b1.drop_first());
                assert(a2[0] == e1[2] && b2[0] == e2[2]);
                if a2[0] == b2[0] {
                    assert(a2.drop_first()[0] == e1[3]);
                    assert(b2.drop_first()[0] == e2[3]);
                    assert(bytes_lt(a2.drop_first(), b2.drop_first()));
                }
                assert(bytes_lt(a2, b2));
            }
            assert(bytes_lt(a1, b1));
        }
    }
}

/// Law: the lexicographic order on characters is the byte-wise order of
/// their UTF-8 encodings, which is how `str`'s `Ord` compares.
pub proof fn lemma_char_order_is_byte_order(a: Seq<char>, b: Seq<char>)
    ensures
        seq_lt(a, b) == bytes_lt(encode_utf8(a), encode_utf8(b)),
        a == b <==> encode_utf8(a) == encode_utf8(b),
    decreases a.len(),
{
    broadcast use encode_utf8_decode_utf8;

    if a.len() > 0 {
        assert(encode_utf8(a) == encode_scalar(a[0] as u32) + encode_utf8(a.drop_first()));
        char_is_scalar(a[0]);
    }
    if b.len() > 0 {
        assert(encode_utf8(b) == encode_scalar(b[0] as u32) + encode_utf8(b.drop_first()));
        char_is_scalar(b[0]);
    }
    assert(decode_utf8(encode_utf8(a)) == a);
    assert(decode_utf8(encode_utf8(b)) == b);
    if a.len() == 0 || b.len() == 0 {
        if a.len() == 0 && b.len() == 0 {
            assert(a =~= b);
        }
    } else {
        let (ea, eb) = (encode_utf8(a.drop_first()), encode_utf8(b.drop_first()));
        let (ca, cb) = (a[0] as u32, b[0] as u32);
        char_u32_cast(a[0], ca);
        char_u32_cast(b[0], cb);
        assert((a[0] < b[0]) == (ca < cb));
        if a[0] == b[0] {
            lemma_char_order_is_byte_order(a.drop_first(), b.drop_first());
            lemma_bytes_lt_prefix(encode_scalar(ca), ea, eb);
            if a.drop_first() == b.drop_first() {
                assert(a =~= seq![a[0]] + a.drop_first());
                assert(b =~= seq![b[0]] + b.drop_first());
            }
        } else if ca < cb {
            lemma_scalar_lt(ca, cb, ea, eb);
            lemma_bytes_lt_asymmetric(encode_utf8(a), encode_utf8(b));
        } else {
            lemma_scalar_lt(cb, ca, eb, ea);
            lemma_bytes_lt_asymmetric(encode_utf8(a), encode_utf8(b));
        }
    }
}

} // verus!
