//! Byte-level record format shared by everything the store persists: fixed
//! little-endian integers, length-prefixed UTF-8 strings, and tagged options.
//! Every decoder is specified against a spec-level decoder, and every
//! spec decoder is proved to invert the spec encoder.

use vstd::bytes::*;
use vstd::prelude::*;
use vstd::slice::{slice_subrange, slice_to_vec};
use vstd::utf8::{decode_utf8, encode_utf8, valid_utf8};

verus! {

broadcast use vstd::utf8::encode_utf8_valid_utf8, vstd::utf8::encode_utf8_decode_utf8;

// ---------------------------------------------------------------------------
// spec decoders: each returns the decoded value and the position just past it
// ---------------------------------------------------------------------------

pub open spec fn dec_u8_at(s: Seq<u8>, pos: int) -> Option<(u8, int)> {
    if 0 <= pos && pos + 1 <= s.len() {
        Some((s[pos], pos + 1))
    } else {
        None
    }
}

pub open spec fn dec_u16_at(s: Seq<u8>, pos: int) -> Option<(u16, int)> {
    if 0 <= pos && pos + 2 <= s.len() {
        Some((spec_u16_from_le_bytes(s.subrange(pos, pos + 2)), pos + 2))
    } else {
        None
    }
}

pub open spec fn dec_u32_at(s: Seq<u8>, pos: int) -> Option<(u32, int)> {
    if 0 <= pos && pos + 4 <= s.len() {
        Some((spec_u32_from_le_bytes(s.subrange(pos, pos + 4)), pos + 4))
    } else {
        None
    }
}

pub open spec fn dec_u64_at(s: Seq<u8>, pos: int) -> Option<(u64, int)> {
    if 0 <= pos && pos + 8 <= s.len() {
        Some((spec_u64_from_le_bytes(s.subrange(pos, pos + 8)), pos + 8))
    } else {
        None
    }
}

pub open spec fn dec_u128_at(s: Seq<u8>, pos: int) -> Option<(u128, int)> {
    if 0 <= pos && pos + 16 <= s.len() {
        Some((spec_u128_from_le_bytes(s.subrange(pos, pos + 16)), pos + 16))
    } else {
        None
    }
}

/// A signed timestamp is stored through an explicit bijection with `u64`.
pub open spec fn i64_as_u64(x: i64) -> u64 {
    if x >= 0 {
        x as u64
    } else {
        (x + 0x1_0000_0000_0000_0000) as u64
    }
}

pub open spec fn u64_as_i64(v: u64) -> i64 {
    if v < 0x8000_0000_0000_0000 {
        v as i64
    } else {
        (v - 0x1_0000_0000_0000_0000) as i64
    }
}

pub open spec fn spec_enc_i64(x: i64) -> Seq<u8> {
    spec_u64_to_le_bytes(i64_as_u64(x))
}

pub open spec fn dec_i64_at(s: Seq<u8>, pos: int) -> Option<(i64, int)> {
    match dec_u64_at(s, pos) {
        Some((v, e)) => Some((u64_as_i64(v), e)),
        None => None,
    }
}

pub open spec fn spec_enc_str(t: Seq<char>) -> Seq<u8> {
    spec_u64_to_le_bytes(encode_utf8(t).len() as u64) + encode_utf8(t)
}

pub open spec fn dec_str_at(s: Seq<u8>, pos: int) -> Option<(Seq<char>, int)> {
    match dec_u64_at(s, pos) {
        Some((n, p)) => if p + n <= s.len() {
            if valid_utf8(s.subrange(p, p + n as int)) {
                Some((decode_utf8(s.subrange(p, p + n as int)), p + n as int))
            } else {
                None
            }
        } else {
            None
        },
        None => None,
    }
}

pub open spec fn spec_enc_opt_str(o: Option<Seq<char>>) -> Seq<u8> {
    match o {
        None => seq![0u8],
        Some(t) => seq![1u8] + spec_enc_str(t),
    }
}

pub open spec fn dec_opt_str_at(s: Seq<u8>, pos: int) -> Option<(Option<Seq<char>>, int)> {
    match dec_u8_at(s, pos) {
        Some((tag, p)) => if tag == 0 {
            Some((None, p))
        } else if tag == 1 {
            match dec_str_at(s, p) {
                Some((t, e)) => Some((Some(t), e)),
                None => None,
            }
        } else {
            None
        },
        None => None,
    }
}

pub open spec fn spec_enc_opt_u16(o: Option<u16>) -> Seq<u8> {
    match o {
        None => seq![0u8],
        Some(x) => seq![1u8] + spec_u16_to_le_bytes(x),
    }
}

pub open spec fn dec_opt_u16_at(s: Seq<u8>, pos: int) -> Option<(Option<u16>, int)> {
    match dec_u8_at(s, pos) {
        Some((tag, p)) => if tag == 0 {
            Some((None, p))
        } else if tag == 1 {
            match dec_u16_at(s, p) {
                Some((x, e)) => Some((Some(x), e)),
                None => None,
            }
        } else {
            None
        },
        None => None,
    }
}

pub open spec fn spec_enc_opt_u32(o: Option<u32>) -> Seq<u8> {
    match o {
        None => seq![0u8],
        Some(x) => seq![1u8] + spec_u32_to_le_bytes(x),
    }
}

pub open spec fn dec_opt_u32_at(s: Seq<u8>, pos: int) -> Option<(Option<u32>, int)> {
    match dec_u8_at(s, pos) {
        Some((tag, p)) => if tag == 0 {
            Some((None, p))
        } else if tag == 1 {
            match dec_u32_at(s, p) {
                Some((x, e)) => Some((Some(x), e)),
                None => None,
            }
        } else {
            None
        },
        None => None,
    }
}

// ---------------------------------------------------------------------------
// executable encoders: each appends the encoding of one value to a buffer
// ---------------------------------------------------------------------------

pub fn enc_u8(buf: &mut Vec<u8>, x: u8)
    ensures
        final(buf)@ == old(buf)@ + seq![x],
{
    buf.push(x);
}

pub fn enc_u16(buf: &mut Vec<u8>, x: u16)
    ensures
        final(buf)@ == old(buf)@ + spec_u16_to_le_bytes(x),
{
    let mut b = u16_to_le_bytes(x);
    buf.append(&mut b);
}

pub fn enc_u32(buf: &mut Vec<u8>, x: u32)
    ensures
        final(buf)@ == old(buf)@ + spec_u32_to_le_bytes(x),
{
    let mut b = u32_to_le_bytes(x);
    buf.append(&mut b);
}

pub fn enc_u64(buf: &mut Vec<u8>, x: u64)
    ensures
        final(buf)@ == old(buf)@ + spec_u64_to_le_bytes(x),
{
    let mut b = u64_to_le_bytes(x);
    buf.append(&mut b);
}

pub fn enc_u128(buf: &mut Vec<u8>, x: u128)
    ensures
        final(buf)@ == old(buf)@ + spec_u128_to_le_bytes(x),
{
    let mut b = u128_to_le_bytes(x);
    buf.append(&mut b);
}

pub fn enc_i64(buf: &mut Vec<u8>, x: i64)
    ensures
        final(buf)@ == old(buf)@ + spec_enc_i64(x),
{
    let v: u64 = if x >= 0 {
        x as u64
    } else {
        (((x as i128) + 0x1_0000_0000_0000_0000i128) as u64)
    };
    assert(v == i64_as_u64(x));
    enc_u64(buf, v);
}

pub fn enc_str(buf: &mut Vec<u8>, s: &str)
    ensures
        final(buf)@ == old(buf)@ + spec_enc_str(s@),
{
    let bytes: &[u8] = s.as_bytes();
    enc_u64(buf, bytes.len() as u64);
    let mut bv = slice_to_vec(bytes);
    buf.append(&mut bv);
}

pub fn enc_opt_str(buf: &mut Vec<u8>, o: &Option<String>)
    ensures
        final(buf)@ == old(buf)@ + spec_enc_opt_str(match o { Some(t) => Some(t@), None => None }),
{
    match o {
        None => enc_u8(buf, 0),
        Some(t) => {
            enc_u8(buf, 1);
            enc_str(buf, t.as_str());
        },
    }
}

pub fn enc_opt_u16(buf: &mut Vec<u8>, o: &Option<u16>)
    ensures
        final(buf)@ == old(buf)@ + spec_enc_opt_u16(*o),
{
    match o {
        None => enc_u8(buf, 0),
        Some(x) => {
            enc_u8(buf, 1);
            enc_u16(buf, *x);
        },
    }
}

pub fn enc_opt_u32(buf: &mut Vec<u8>, o: &Option<u32>)
    ensures
        final(buf)@ == old(buf)@ + spec_enc_opt_u32(*o),
{
    match o {
        None => enc_u8(buf, 0),
        Some(x) => {
            enc_u8(buf, 1);
            enc_u32(buf, *x);
        },
    }
}

// ---------------------------------------------------------------------------
// executable decoders, each proved against its spec decoder
// ---------------------------------------------------------------------------

/// Relies on core::str::from_utf8: it succeeds exactly on valid UTF-8 input,
/// and the resulting `str` views those same bytes.
#[verifier::external_type_specification]
#[verifier::external_body]
pub struct ExUtf8Error(core::str::Utf8Error);

pub assume_specification<'a>[ core::str::from_utf8 ](v: &'a [u8]) -> (r: Result<
    &'a str,
    core::str::Utf8Error,
>)
    ensures
        r is Ok <==> valid_utf8(v@),
        r matches Ok(s) ==> s@ == decode_utf8(v@) && encode_utf8(s@) == v@,
;

pub fn dec_u8(data: &Vec<u8>, pos: usize) -> (r: Option<(u8, usize)>)
    ensures
        r is None <==> dec_u8_at(data@, pos as int) is None,
        r matches Some((x, e)) ==> dec_u8_at(data@, pos as int) == Some((x, e as int)),
{
    if pos < data.len() {
        Some((data[pos], pos + 1))
    } else {
        None
    }
}

pub fn dec_u16(data: &Vec<u8>, pos: usize) -> (r: Option<(u16, usize)>)
    ensures
        r is None <==> dec_u16_at(data@, pos as int) is None,
        r matches Some((x, e)) ==> dec_u16_at(data@, pos as int) == Some((x, e as int)),
{
    if pos <= data.len() && data.len() - pos >= 2 {
        let s = slice_subrange(data.as_slice(), pos, pos + 2);
        Some((u16_from_le_bytes(s), pos + 2))
    } else {
        None
    }
}

pub fn dec_u32(data: &Vec<u8>, pos: usize) -> (r: Option<(u32, usize)>)
    ensures
        r is None <==> dec_u32_at(data@, pos as int) is None,
        r matches Some((x, e)) ==> dec_u32_at(data@, pos as int) == Some((x, e as int)),
{
    if pos <= data.len() && data.len() - pos >= 4 {
        let s = slice_subrange(data.as_slice(), pos, pos + 4);
        Some((u32_from_le_bytes(s), pos + 4))
    } else {
        None
    }
}

pub fn dec_u64(data: &Vec<u8>, pos: usize) -> (r: Option<(u64, usize)>)
    ensures
        r is None <==> dec_u64_at(data@, pos as int) is None,
        r matches Some((x, e)) ==> dec_u64_at(data@, pos as int) == Some((x, e as int)),
{
    if pos <= data.len() && data.len() - pos >= 8 {
        let s = slice_subrange(data.as_slice(), pos, pos + 8);
        Some((u64_from_le_bytes(s), pos + 8))
    } else {
        None
    }
}

pub fn dec_u128(data: &Vec<u8>, pos: usize) -> (r: Option<(u128, usize)>)
    ensures
        r is None <==> dec_u128_at(data@, pos as int) is None,
        r matches Some((x, e)) ==> dec_u128_at(data@, pos as int) == Some((x, e as int)),
{
    if pos <= data.len() && data.len() - pos >= 16 {
        let s = slice_subrange(data.as_slice(), pos, pos + 16);
        Some((u128_from_le_bytes(s), pos + 16))
    } else {
        None
    }
}

pub fn dec_i64(data: &Vec<u8>, pos: usize) -> (r: Option<(i64, usize)>)
    ensures
        r is None <==> dec_i64_at(data@, pos as int) is None,
        r matches Some((x, e)) ==> dec_i64_at(data@, pos as int) == Some((x, e as int)),
{
    match dec_u64(data, pos) {
        None => None,
        Some((v, e)) => {
            let x: i64 = if v < 0x8000_0000_0000_0000u64 {
                v as i64
            } else {
                (((v as i128) - 0x1_0000_0000_0000_0000i128) as i64)
            };
            assert(x == u64_as_i64(v));
            Some((x, e))
        },
    }
}

pub fn dec_str(data: &Vec<u8>, pos: usize) -> (r: Option<(String, usize)>)
    ensures
        r is None <==> dec_str_at(data@, pos as int) is None,
        r matches Some((x, e)) ==> dec_str_at(data@, pos as int) == Some((x@, e as int)),
{
    match dec_u64(data, pos) {
        None => None,
        Some((n, p)) => {
            if n <= (data.len() - p) as u64 {
                let nn: usize = n as usize;
                let bs = slice_subrange(data.as_slice(), p, p + nn);
                match core::str::from_utf8(bs) {
                    Ok(st) => Some((st.to_owned(), p + nn)),
                    Err(_) => None,
                }
            } else {
                None
            }
        },
    }
}

pub fn dec_opt_str(data: &Vec<u8>, pos: usize) -> (r: Option<(Option<String>, usize)>)
    ensures
        r is None <==> dec_opt_str_at(data@, pos as int) is None,
        r matches Some((x, e)) ==> dec_opt_str_at(data@, pos as int) == Some(
            (match x { Some(t) => Some(t@), None => None }, e as int),
        ),
{
    match dec_u8(data, pos) {
        None => None,
        Some((tag, p)) => {
            if tag == 0 {
                Some((None, p))
            } else if tag == 1 {
                match dec_str(data, p) {
                    Some((t, e)) => Some((Some(t), e)),
                    None => None,
                }
            } else {
                None
            }
        },
    }
}

pub fn dec_opt_u16(data: &Vec<u8>, pos: usize) -> (r: Option<(Option<u16>, usize)>)
    ensures
        r is None <==> dec_opt_u16_at(data@, pos as int) is None,
        r matches Some((x, e)) ==> dec_opt_u16_at(data@, pos as int) == Some((x, e as int)),
{
    match dec_u8(data, pos) {
        None => None,
        Some((tag, p)) => {
            if tag == 0 {
                Some((None, p))
            } else if tag == 1 {
                match dec_u16(data, p) {
                    Some((x, e)) => Some((Some(x), e)),
                    None => None,
                }
            } else {
                None
            }
        },
    }
}

pub fn dec_opt_u32(data: &Vec<u8>, pos: usize) -> (r: Option<(Option<u32>, usize)>)
    ensures
        r is None <==> dec_opt_u32_at(data@, pos as int) is None,
        r matches Some((x, e)) ==> dec_opt_u32_at(data@, pos as int) == Some((x, e as int)),
{
    match dec_u8(data, pos) {
        None => None,
        Some((tag, p)) => {
            if tag == 0 {
                Some((None, p))
            } else if tag == 1 {
                match dec_u32(data, p) {
                    Some((x, e)) => Some((Some(x), e)),
                    None => None,
                }
            } else {
                None
            }
        },
    }
}

// ---------------------------------------------------------------------------
// inversion lemmas: decoding at a position where an encoding sits yields it
// ---------------------------------------------------------------------------

pub proof fn lemma_concat_assoc<T>(a: Seq<T>, b: Seq<T>, c: Seq<T>)
    ensures
        (a + b) + c == a + (b + c),
{
    assert((a + b) + c =~= a + (b + c));
}

/// Splitting: if a concatenation of two encodings sits at `pos`, each part
/// sits at its own offset.
pub proof fn lemma_concat_split(s: Seq<u8>, pos: int, a: Seq<u8>, b: Seq<u8>)
    requires
        0 <= pos,
        pos + a.len() + b.len() <= s.len(),
        s.subrange(pos, pos + a.len() + b.len()) == a + b,
    ensures
        s.subrange(pos, pos + a.len() as int) == a,
        s.subrange(pos + a.len(), pos + a.len() + b.len()) == b,
{
    let w = s.subrange(pos, pos + a.len() + b.len());
    assert(s.subrange(pos, pos + a.len() as int) =~= a) by {
        assert forall|i: int| 0 <= i < a.len() implies s.subrange(pos, pos + a.len() as int)[i]
            == a[i] by {
            assert(s.subrange(pos, pos + a.len() as int)[i] == w[i]);
        }
    }
    assert(s.subrange(pos + a.len(), pos + a.len() + b.len()) =~= b) by {
        assert forall|i: int| 0 <= i < b.len() implies s.subrange(
            pos + a.len(),
            pos + a.len() + b.len(),
        )[i] == b[i] by {
            assert(s.subrange(pos + a.len(), pos + a.len() + b.len())[i] == w[a.len() + i]);
        }
    }
}

pub proof fn lemma_dec_u8_at(s: Seq<u8>, pos: int, x: u8)
    requires
        0 <= pos,
        pos + 1 <= s.len(),
        s.subrange(pos, pos + 1) == seq![x],
    ensures
        dec_u8_at(s, pos) == Some((x, pos + 1)),
{
    assert(s[pos] == s.subrange(pos, pos + 1)[0]);
}

pub proof fn lemma_dec_u16_at(s: Seq<u8>, pos: int, x: u16)
    requires
        0 <= pos,
        pos + 2 <= s.len(),
        s.subrange(pos, pos + 2) == spec_u16_to_le_bytes(x),
    ensures
        dec_u16_at(s, pos) == Some((x, pos + 2)),
{
    lemma_auto_spec_u16_to_from_le_bytes();
    assert(spec_u16_to_le_bytes(x).len() == 2);
}

pub proof fn lemma_dec_u32_at(s: Seq<u8>, pos: int, x: u32)
    requires
        0 <= pos,
        pos + 4 <= s.len(),
        s.subrange(pos, pos + 4) == spec_u32_to_le_bytes(x),
    ensures
        dec_u32_at(s, pos) == Some((x, pos + 4)),
{
    lemma_auto_spec_u32_to_from_le_bytes();
    assert(spec_u32_to_le_bytes(x).len() == 4);
}

pub proof fn lemma_dec_u64_at(s: Seq<u8>, pos: int, x: u64)
    requires
        0 <= pos,
        pos + 8 <= s.len(),
        s.subrange(pos, pos + 8) == spec_u64_to_le_bytes(x),
    ensures
        dec_u64_at(s, pos) == Some((x, pos + 8)),
{
    lemma_auto_spec_u64_to_from_le_bytes();
}

pub proof fn lemma_dec_u128_at(s: Seq<u8>, pos: int, x: u128)
    requires
        0 <= pos,
        pos + 16 <= s.len(),
        s.subrange(pos, pos + 16) == spec_u128_to_le_bytes(x),
    ensures
        dec_u128_at(s, pos) == Some((x, pos + 16)),
{
    lemma_auto_spec_u128_to_from_le_bytes();
    assert(spec_u128_to_le_bytes(x).len() == 16);
}

pub proof fn lemma_dec_i64_at(s: Seq<u8>, pos: int, x: i64)
    requires
        0 <= pos,
        pos + 8 <= s.len(),
        s.subrange(pos, pos + 8) == spec_enc_i64(x),
    ensures
        dec_i64_at(s, pos) == Some((x, pos + 8)),
{
    lemma_dec_u64_at(s, pos, i64_as_u64(x));
    assert(u64_as_i64(i64_as_u64(x)) == x);
}

pub proof fn lemma_dec_str_at(s: Seq<u8>, pos: int, t: Seq<char>)
    requires
        0 <= pos,
        pos + spec_enc_str(t).len() <= s.len(),
        s.subrange(pos, pos + spec_enc_str(t).len() as int) == spec_enc_str(t),
        encode_utf8(t).len() <= u64::MAX,
    ensures
        dec_str_at(s, pos) == Some((t, pos + spec_enc_str(t).len())),
{
    let bs = encode_utf8(t);
    let n: u64 = bs.len() as u64;
    let whole = spec_enc_str(t);
    lemma_auto_spec_u64_to_from_le_bytes();
    assert(whole.len() == 8 + bs.len());
    assert(s.subrange(pos, pos + 8) =~= spec_u64_to_le_bytes(n)) by {
        assert forall|i: int| 0 <= i < 8 implies s.subrange(pos, pos + 8)[i]
            == spec_u64_to_le_bytes(n)[i] by {
            assert(s.subrange(pos, pos + 8)[i] == s.subrange(pos, pos + whole.len() as int)[i]);
        }
    }
    lemma_dec_u64_at(s, pos, n);
    assert(s.subrange(pos + 8, pos + 8 + bs.len() as int) =~= bs) by {
        assert forall|i: int| 0 <= i < bs.len() implies s.subrange(
            pos + 8,
            pos + 8 + bs.len() as int,
        )[i] == bs[i] by {
            assert(s.subrange(pos + 8, pos + 8 + bs.len() as int)[i] == s.subrange(
                pos,
                pos + whole.len() as int,
            )[8 + i]);
        }
    }
}

pub proof fn lemma_dec_opt_str_at(s: Seq<u8>, pos: int, o: Option<Seq<char>>)
    requires
        0 <= pos,
        pos + spec_enc_opt_str(o).len() <= s.len(),
        s.subrange(pos, pos + spec_enc_opt_str(o).len() as int) == spec_enc_opt_str(o),
        o matches Some(t) ==> encode_utf8(t).len() <= u64::MAX,
    ensures
        dec_opt_str_at(s, pos) == Some((o, pos + spec_enc_opt_str(o).len())),
{
    let whole = spec_enc_opt_str(o);
    match o {
        None => {
            assert(s.subrange(pos, pos + 1) =~= seq![0u8]);
            lemma_dec_u8_at(s, pos, 0);
        },
        Some(t) => {
            assert(s.subrange(pos, pos + 1) =~= seq![1u8]) by {
                assert(s.subrange(pos, pos + 1)[0] == s.subrange(pos, pos + whole.len() as int)[0]);
            }
            lemma_dec_u8_at(s, pos, 1);
            let inner = spec_enc_str(t);
            assert(s.subrange(pos + 1, pos + 1 + inner.len() as int) =~= inner) by {
                assert forall|i: int| 0 <= i < inner.len() implies s.subrange(
                    pos + 1,
                    pos + 1 + inner.len() as int,
                )[i] == inner[i] by {
                    assert(s.subrange(pos + 1, pos + 1 + inner.len() as int)[i] == s.subrange(
                        pos,
                        pos + whole.len() as int,
                    )[1 + i]);
                }
            }
            lemma_dec_str_at(s, pos + 1, t);
        },
    }
}

pub proof fn lemma_dec_opt_u16_at(s: Seq<u8>, pos: int, o: Option<u16>)
    requires
        0 <= pos,
        pos + spec_enc_opt_u16(o).len() <= s.len(),
        s.subrange(pos, pos + spec_enc_opt_u16(o).len() as int) == spec_enc_opt_u16(o),
    ensures
        dec_opt_u16_at(s, pos) == Some((o, pos + spec_enc_opt_u16(o).len())),
{
    let whole = spec_enc_opt_u16(o);
    lemma_auto_spec_u16_to_from_le_bytes();
    match o {
        None => {
            assert(s.subrange(pos, pos + 1) =~= seq![0u8]);
            lemma_dec_u8_at(s, pos, 0);
        },
        Some(x) => {
            assert(s.subrange(pos, pos + 1) =~= seq![1u8]) by {
                assert(s.subrange(pos, pos + 1)[0] == s.subrange(pos, pos + whole.len() as int)[0]);
            }
            lemma_dec_u8_at(s, pos, 1);
            assert(s.subrange(pos + 1, pos + 3) =~= spec_u16_to_le_bytes(x)) by {
                assert forall|i: int| 0 <= i < 2 implies s.subrange(pos + 1, pos + 3)[i]
                    == spec_u16_to_le_bytes(x)[i] by {
                    assert(s.subrange(pos + 1, pos + 3)[i] == s.subrange(
                        pos,
                        pos + whole.len() as int,
                    )[1 + i]);
                }
            }
            lemma_dec_u16_at(s, pos + 1, x);
        },
    }
}

pub proof fn lemma_dec_opt_u32_at(s: Seq<u8>, pos: int, o: Option<u32>)
    requires
        0 <= pos,
        pos + spec_enc_opt_u32(o).len() <= s.len(),
        s.subrange(pos, pos + spec_enc_opt_u32(o).len() as int) == spec_enc_opt_u32(o),
    ensures
        dec_opt_u32_at(s, pos) == Some((o, pos + spec_enc_opt_u32(o).len())),
{
    let whole = spec_enc_opt_u32(o);
    lemma_auto_spec_u32_to_from_le_bytes();
    match o {
        None => {
            assert(s.subrange(pos, pos + 1) =~= seq![0u8]);
            lemma_dec_u8_at(s, pos, 0);
        },
        Some(x) => {
            assert(s.subrange(pos, pos + 1) =~= seq![1u8]) by {
                assert(s.subrange(pos, pos + 1)[0] == s.subrange(pos, pos + whole.len() as int)[0]);
            }
            lemma_dec_u8_at(s, pos, 1);
            assert(s.subrange(pos + 1, pos + 5) =~= spec_u32_to_le_bytes(x)) by {
                assert forall|i: int| 0 <= i < 4 implies s.subrange(pos + 1, pos + 5)[i]
                    == spec_u32_to_le_bytes(x)[i] by {
                    assert(s.subrange(pos + 1, pos + 5)[i] == s.subrange(
                        pos,
                        pos + whole.len() as int,
                    )[1 + i]);
                }
            }
            lemma_dec_u32_at(s, pos + 1, x);
        },
    }
}

// ---------------------------------------------------------------------------
// lists of strings: a count followed by each string in order
// ---------------------------------------------------------------------------

pub open spec fn spec_enc_strs(t: Seq<Seq<char>>) -> Seq<u8>
    decreases t.len(),
{
    if t.len() == 0 {
        Seq::empty()
    } else {
        spec_enc_str(t[0]) + spec_enc_strs(t.drop_first())
    }
}

pub open spec fn spec_enc_str_list(t: Seq<Seq<char>>) -> Seq<u8> {
    spec_u64_to_le_bytes(t.len() as u64) + spec_enc_strs(t)
}

pub open spec fn strs_encodable(t: Seq<Seq<char>>) -> bool {
    forall|j: int| 0 <= j < t.len() ==> encode_utf8(#[trigger] t[j]).len() <= u64::MAX
}

pub open spec fn dec_strs_at(s: Seq<u8>, pos: int, n: nat) -> Option<(Seq<Seq<char>>, int)>
    decreases n,
{
    if n == 0 {
        Some((Seq::empty(), pos))
    } else {
        match dec_str_at(s, pos) {
            Some((t0, p)) => match dec_strs_at(s, p, (n - 1) as nat) {
                Some((rest, e)) => Some((seq![t0] + rest, e)),
                None => None,
            },
            None => None,
        }
    }
}

pub open spec fn decoded_str_list(s: Seq<u8>) -> Option<Seq<Seq<char>>> {
    match dec_u64_at(s, 0) {
        Some((n, p)) => match dec_strs_at(s, p, n as nat) {
            Some((t, e)) => if e == s.len() {
                Some(t)
            } else {
                None
            },
            None => None,
        },
        None => None,
    }
}

/// Appending one more element extends the encoding of a prefix by the
/// encoding of that element.
pub proof fn lemma_enc_strs_take_snoc(t: Seq<Seq<char>>, i: int)
    requires
        0 <= i < t.len(),
    ensures
        spec_enc_strs(t.take(i + 1)) == spec_enc_strs(t.take(i)) + spec_enc_str(t[i]),
    decreases i,
{
    if i == 0 {
        assert(t.take(1).drop_first() =~= Seq::<Seq<char>>::empty());
        assert(t.take(0) =~= Seq::<Seq<char>>::empty());
        assert(t.take(1)[0] == t[0]);
        assert(spec_enc_strs(t.take(1)) =~= spec_enc_strs(t.take(0)) + spec_enc_str(t[0]));
    } else {
        let u = t.drop_first();
        assert(t.take(i + 1).drop_first() =~= u.take(i));
        assert(t.take(i).drop_first() =~= u.take(i - 1));
        assert(t.take(i + 1)[0] == t[0]);
        assert(t.take(i)[0] == t[0]);
        lemma_enc_strs_take_snoc(u, i - 1);
        assert(u[i - 1] == t[i]);
        assert(spec_enc_str(t[0]) + (spec_enc_strs(u.take(i - 1)) + spec_enc_str(t[i])) =~= (
        spec_enc_str(t[0]) + spec_enc_strs(u.take(i - 1))) + spec_enc_str(t[i]));
    }
}

pub proof fn lemma_dec_strs_at(s: Seq<u8>, pos: int, t: Seq<Seq<char>>)
    requires
        0 <= pos,
        pos + spec_enc_strs(t).len() <= s.len(),
        s.subrange(pos, pos + spec_enc_strs(t).len() as int) == spec_enc_strs(t),
        strs_encodable(t),
    ensures
        dec_strs_at(s, pos, t.len()) == Some((t, pos + spec_enc_strs(t).len())),
    decreases t.len(),
{
    if t.len() == 0 {
        assert(t =~= Seq::<Seq<char>>::empty());
    } else {
        let a = spec_enc_str(t[0]);
        let b = spec_enc_strs(t.drop_first());
        lemma_concat_split(s, pos, a, b);
        lemma_dec_str_at(s, pos, t[0]);
        assert forall|j: int| 0 <= j < t.drop_first().len() implies encode_utf8(
            #[trigger] t.drop_first()[j],
        ).len() <= u64::MAX by {
            assert(t.drop_first()[j] == t[j + 1]);
        }
        lemma_dec_strs_at(s, pos + a.len(), t.drop_first());
        assert(seq![t[0]] + t.drop_first() =~= t);
    }
}

pub proof fn lemma_str_list_round_trip(t: Seq<Seq<char>>)
    requires
        t.len() <= u64::MAX,
        strs_encodable(t),
    ensures
        decoded_str_list(spec_enc_str_list(t)) == Some(t),
{
    let s = spec_enc_str_list(t);
    let a = spec_u64_to_le_bytes(t.len() as u64);
    let b = spec_enc_strs(t);
    lemma_auto_spec_u64_to_from_le_bytes();
    assert(s.subrange(0, s.len() as int) =~= a + b);
    lemma_concat_split(s, 0, a, b);
    lemma_dec_u64_at(s, 0, t.len() as u64);
    lemma_dec_strs_at(s, 8, t);
}

/// Rejoining: pushing a decoded element onto an accumulator commutes with
/// prepending it to the remainder.
pub proof fn lemma_push_mid<T>(a: Seq<T>, x: T, b: Seq<T>)
    ensures
        a + (seq![x] + b) == a.push(x) + b,
{
    assert(a + (seq![x] + b) =~= a.push(x) + b);
}

pub fn encode_str_list(items: &Vec<String>) -> (r: Vec<u8>)
    ensures
        r@ == spec_enc_str_list(items.deep_view()),
{
    let ghost t = items.deep_view();
    let mut buf: Vec<u8> = Vec::new();
    enc_u64(&mut buf, items.len() as u64);
    let n = items.len();
    let mut i: usize = 0;
    while i < n
        invariant
            i <= n,
            n == items@.len(),
            t == items.deep_view(),
            buf@ == spec_u64_to_le_bytes(t.len() as u64) + spec_enc_strs(t.take(i as int)),
        decreases n - i,
    {
        let it: &String = &items[i];
        assert(it@ == t[i as int]);
        enc_str(&mut buf, it.as_str());
        proof {
            lemma_enc_strs_take_snoc(t, i as int);
            assert((spec_u64_to_le_bytes(t.len() as u64) + spec_enc_strs(t.take(i as int)))
                + spec_enc_str(t[i as int]) =~= spec_u64_to_le_bytes(t.len() as u64) + (
            spec_enc_strs(t.take(i as int)) + spec_enc_str(t[i as int])));
        }
        i = i + 1;
    }
    proof {
        assert(t.take(n as int) =~= t);
    }
    buf
}

pub fn decode_str_list(data: &Vec<u8>) -> (r: Option<Vec<String>>)
    ensures
        r is None <==> decoded_str_list(data@) is None,
        r matches Some(v) ==> decoded_str_list(data@) == Some(v.deep_view()),
{
    match dec_u64(data, 0) {
        None => None,
        Some((n, p0)) => {
            let mut out: Vec<String> = Vec::new();
            let mut pos: usize = p0;
            let mut i: u64 = 0;
            while i < n
                invariant
                    i <= n,
                    pos <= data@.len(),
                    out.deep_view().len() == i,
                    dec_u64_at(data@, 0) == Some((n, p0 as int)),
                    (match dec_strs_at(data@, pos as int, (n - i) as nat) {
                        Some((rest, e)) => dec_strs_at(data@, p0 as int, n as nat) == Some(
                            (out.deep_view() + rest, e),
                        ),
                        None => dec_strs_at(data@, p0 as int, n as nat) is None,
                    }),
                decreases n - i,
            {
                match dec_str(data, pos) {
                    None => {
                        return None;
                    },
                    Some((st, p2)) => {
                        proof {
                            let tail = dec_strs_at(data@, p2 as int, (n - i - 1) as nat);
                            if tail is Some {
                                lemma_push_mid(out.deep_view(), st@, (tail->0).0);
                            }
                        }
                        out.push(st);
                        pos = p2;
                        i = i + 1;
                    },
                }
            }
            assert(dec_strs_at(data@, pos as int, 0) == Some((Seq::<Seq<char>>::empty(), pos as int)));
            assert(out.deep_view() + Seq::<Seq<char>>::empty() =~= out.deep_view());
            if pos == data.len() {
                Some(out)
            } else {
                None
            }
        },
    }
}

} // verus!
