//! The plain-text PPM image format (`P3`).
//!
//! A header of three lines (`P3`, then `width height`, then the largest
//! channel value `255`) followed by one `R G B` line per pixel, in scanline
//! order starting at the top-left pixel.

use vstd::prelude::*;
use crate::decimal::{
    ascii_bytes, decimal, digits_value, is_digit, lemma_decimal_digits, lemma_parse_decimal_roundtrip,
    parse_unsigned, push_decimal,
};

verus! {

/// The header of an image of the given size.
pub open spec fn ppm_header(width: nat, height: nat) -> Seq<char> {
    seq!['P', '3', '\n'] + decimal(width) + seq![' '] + decimal(height) + seq![
        '\n',
        '2',
        '5',
        '5',
        '\n',
    ]
}

/// The line of one pixel: its three channels in decimal, separated by spaces.
pub open spec fn ppm_pixel_line(p: (u8, u8, u8)) -> Seq<char> {
    decimal(p.0 as nat) + seq![' '] + decimal(p.1 as nat) + seq![' '] + decimal(p.2 as nat) + seq![
        '\n',
    ]
}

/// The lines of the pixels, in order.
pub open spec fn ppm_body(pixels: Seq<(u8, u8, u8)>) -> Seq<char>
    decreases pixels.len(),
{
    if pixels.len() == 0 {
        Seq::empty()
    } else {
        ppm_body(pixels.drop_last()) + ppm_pixel_line(pixels.last())
    }
}

/// The text of an image.
pub open spec fn ppm_text(width: nat, height: nat, pixels: Seq<(u8, u8, u8)>) -> Seq<char> {
    ppm_header(width, height) + ppm_body(pixels)
}

proof fn lemma_ascii_bytes_append(a: Seq<char>, b: Seq<char>)
    ensures
        ascii_bytes(a + b) == ascii_bytes(a) + ascii_bytes(b),
{
    assert(ascii_bytes(a + b) =~= ascii_bytes(a) + ascii_bytes(b));
}

fn push_byte_of(out: &mut Vec<u8>, c: char, b: u8)
    requires
        c as u8 == b,
    ensures
        final(out)@ == old(out)@ + ascii_bytes(seq![c]),
{
    out.push(b);
    assert(ascii_bytes(seq![c]) =~= seq![b]);
}

fn push_pixel_line(out: &mut Vec<u8>, p: (u8, u8, u8))
    ensures
        final(out)@ == old(out)@ + ascii_bytes(ppm_pixel_line(p)),
{
    let ghost start = out@;
    push_decimal(out, p.0 as u64);
    push_byte_of(out, ' ', 32);
    push_decimal(out, p.1 as u64);
    push_byte_of(out, ' ', 32);
    push_decimal(out, p.2 as u64);
    push_byte_of(out, '\n', 10);
    proof {
        let d0 = decimal(p.0 as nat);
        let d1 = decimal(p.1 as nat);
        let d2 = decimal(p.2 as nat);
        let sp = seq![' '];
        let nl = seq!['\n'];
        lemma_ascii_bytes_append(d0, sp);
        lemma_ascii_bytes_append(d0 + sp, d1);
        lemma_ascii_bytes_append(d0 + sp + d1, sp);
        lemma_ascii_bytes_append(d0 + sp + d1 + sp, d2);
        lemma_ascii_bytes_append(d0 + sp + d1 + sp + d2, nl);
        assert(out@ =~= start + ascii_bytes(ppm_pixel_line(p)));
    }
}

/// The bytes of the PPM text of an image of the given size with the given
/// pixels, listed in scanline order. The pixels are written as given: the
/// list is not checked against the size.
pub fn encode_ppm(width: usize, height: usize, pixels: &[(u8, u8, u8)]) -> (out: Vec<u8>)
    ensures
        out@ == ascii_bytes(ppm_text(width as nat, height as nat, pixels@)),
{
    let mut out: Vec<u8> = Vec::new();
    push_byte_of(&mut out, 'P', 80);
    push_byte_of(&mut out, '3', 51);
    push_byte_of(&mut out, '\n', 10);
    push_decimal(&mut out, width as u64);
    push_byte_of(&mut out, ' ', 32);
    push_decimal(&mut out, height as u64);
    push_byte_of(&mut out, '\n', 10);
    push_byte_of(&mut out, '2', 50);
    push_byte_of(&mut out, '5', 53);
    push_byte_of(&mut out, '5', 53);
    push_byte_of(&mut out, '\n', 10);
    let ghost header = ppm_header(width as nat, height as nat);
    assert(out@ =~= ascii_bytes(header));
    let mut i: usize = 0;
    while i < pixels.len()
        invariant
            i <= pixels@.len(),
            out@ == ascii_bytes(header + ppm_body(pixels@.take(i as int))),
        decreases pixels@.len() - i,
    {
        push_pixel_line(&mut out, pixels[i]);
        proof {
            assert(pixels@.take(i + 1).drop_last() =~= pixels@.take(i as int));
            assert(pixels@.take(i + 1).last() == pixels@[i as int]);
            let body = ppm_body(pixels@.take(i as int));
            lemma_ascii_bytes_append(header + body, ppm_pixel_line(pixels@[i as int]));
            assert(header + ppm_body(pixels@.take(i + 1)) =~= (header + body) + ppm_pixel_line(
                pixels@[i as int],
            ));
        }
        i = i + 1;
    }
    assert(pixels@.take(pixels@.len() as int) =~= pixels@);
    out
}

/// Pixels are written one line each, in order: the body of two runs of
/// pixels is the body of the first followed by the body of the second.
pub proof fn lemma_ppm_body_append(a: Seq<(u8, u8, u8)>, b: Seq<(u8, u8, u8)>)
    ensures
        ppm_body(a + b) == ppm_body(a) + ppm_body(b),
    decreases b.len(),
{
    if b.len() == 0 {
        assert(a + b =~= a);
        assert(ppm_body(a) + ppm_body(b) =~= ppm_body(a));
    } else {
        lemma_ppm_body_append(a, b.drop_last());
        assert((a + b).drop_last() =~= a + b.drop_last());
        assert((a + b).last() == b.last());
        assert(ppm_body(a + b) =~= ppm_body(a) + ppm_body(b));
    }
}

/// The header reads back as the size it was written for: `P3` on its own
/// line, then the width, a space and the height on the second line, each
/// in decimal, then `255` on the third line.
pub proof fn lemma_ppm_header_reads_back(width: nat, height: nat)
    ensures
        ({
            let t = ppm_header(width, height);
            exists|k: int, m: int|
                3 < k < m < t.len() && t.subrange(0, 3) == seq!['P', '3', '\n'] && t[k] == ' '
                    && t[m] == '\n' && parse_unsigned(t.subrange(3, k), width) == Some(width)
                    && parse_unsigned(t.subrange(k + 1, m), height) == Some(height) && t.subrange(
                    m,
                    t.len() as int,
                ) == seq!['\n', '2', '5', '5', '\n']
        }),
{
    let t = ppm_header(width, height);
    let dw = decimal(width);
    let dh = decimal(height);
    lemma_decimal_digits(width);
    lemma_decimal_digits(height);
    lemma_parse_decimal_roundtrip(width, width);
    lemma_parse_decimal_roundtrip(height, height);
    let k: int = 3 + dw.len() as int;
    let m: int = k + 1 + dh.len() as int;
    assert(t.subrange(0, 3) =~= seq!['P', '3', '\n']);
    assert(t.subrange(3, k) =~= dw);
    assert(t[k] == ' ');
    assert(t.subrange(k + 1, m) =~= dh);
    assert(t[m] == '\n');
    assert(t.subrange(m, t.len() as int) =~= seq!['\n', '2', '5', '5', '\n']);
}

proof fn lemma_first_non_digit(p: Seq<char>, d1: Seq<char>, d2: Seq<char>, r1: Seq<char>, r2: Seq<char>)
    requires
        forall|i: int| 0 <= i < d1.len() ==> is_digit(#[trigger] d1[i]),
        forall|i: int| 0 <= i < d2.len() ==> is_digit(#[trigger] d2[i]),
        r1.len() > 0,
        r2.len() > 0,
        !is_digit(r1[0]),
        !is_digit(r2[0]),
        p + d1 + r1 == p + d2 + r2,
    ensures
        d1 == d2,
        r1 == r2,
{
    let t = p + d1 + r1;
    let u = p + d2 + r2;
    let a = p.len() as int;
    let b1 = d1.len() as int;
    let b2 = d2.len() as int;
    if b1 < b2 {
        assert(t[a + b1] == r1[0]);
        assert(u[a + b1] == d2[b1]);
    } else if b2 < b1 {
        assert(t[a + b2] == d1[b2]);
        assert(u[a + b2] == r2[0]);
    }
    assert(d1 =~= t.subrange(a, a + b1));
    assert(d2 =~= u.subrange(a, a + b2));
    assert(r1 =~= t.subrange(a + b1, t.len() as int));
    assert(r2 =~= u.subrange(a + b2, u.len() as int));
}

/// Different sizes give different headers; in particular the header of a
/// `w` by `h` image differs from that of an `h` by `w` one unless `w == h`.
pub proof fn lemma_ppm_header_injective(w1: nat, h1: nat, w2: nat, h2: nat)
    ensures
        ppm_header(w1, h1) == ppm_header(w2, h2) ==> w1 == w2 && h1 == h2,
{
    if ppm_header(w1, h1) == ppm_header(w2, h2) {
        lemma_decimal_digits(w1);
        lemma_decimal_digits(h1);
        lemma_decimal_digits(w2);
        lemma_decimal_digits(h2);
        let p = seq!['P', '3', '\n'];
        let tail = seq!['\n', '2', '5', '5', '\n'];
        let r1 = seq![' '] + decimal(h1) + tail;
        let r2 = seq![' '] + decimal(h2) + tail;
        assert(ppm_header(w1, h1) =~= p + decimal(w1) + r1);
        assert(ppm_header(w2, h2) =~= p + decimal(w2) + r2);
        lemma_first_non_digit(p, decimal(w1), decimal(w2), r1, r2);
        let q1 = p + decimal(w1) + seq![' '];
        assert(ppm_header(w1, h1) =~= q1 + decimal(h1) + tail);
        assert(ppm_header(w2, h2) =~= q1 + decimal(h2) + tail);
        lemma_first_non_digit(q1, decimal(h1), decimal(h2), tail, tail);
        assert(digits_value(decimal(w1)) == w1);
        assert(digits_value(decimal(h1)) == h1);
    }
}

/// The line of a pixel reads back as its channels: red, a space, green, a
/// space, blue, each in decimal, and a line break at the end.
pub proof fn lemma_ppm_pixel_line_reads_back(p: (u8, u8, u8))
    ensures
        ({
            let t = ppm_pixel_line(p);
            exists|k1: int, k2: int|
                #![trigger t[k1], t[k2]]
                0 < k1 < k2 < t.len() - 1 && t[k1] == ' ' && t[k2] == ' ' && t[t.len() - 1] == '\n'
                    && parse_unsigned(t.subrange(0, k1), 255) == Some(p.0 as nat)
                    && parse_unsigned(t.subrange(k1 + 1, k2), 255) == Some(p.1 as nat)
                    && parse_unsigned(t.subrange(k2 + 1, t.len() - 1), 255) == Some(p.2 as nat)
        }),
{
    let t = ppm_pixel_line(p);
    let d0 = decimal(p.0 as nat);
    let d1 = decimal(p.1 as nat);
    let d2 = decimal(p.2 as nat);
    lemma_decimal_digits(p.0 as nat);
    lemma_decimal_digits(p.1 as nat);
    lemma_decimal_digits(p.2 as nat);
    lemma_parse_decimal_roundtrip(p.0 as nat, 255);
    lemma_parse_decimal_roundtrip(p.1 as nat, 255);
    lemma_parse_decimal_roundtrip(p.2 as nat, 255);
    let k1: int = d0.len() as int;
    let k2: int = k1 + 1 + d1.len() as int;
    assert(t.subrange(0, k1) =~= d0);
    assert(t[k1] == ' ');
    assert(t.subrange(k1 + 1, k2) =~= d1);
    assert(t[k2] == ' ');
    assert(t.subrange(k2 + 1, t.len() - 1) =~= d2);
    assert(t[t.len() - 1] == '\n');
}

/// An image without pixels is just its header, and each further pixel adds
/// its own line at the end.
pub proof fn lemma_ppm_text_grows_by_lines(width: nat, height: nat, pixels: Seq<(u8, u8, u8)>, p: (u8, u8, u8))
    ensures
        ppm_text(width, height, Seq::empty()) == ppm_header(width, height),
        ppm_text(width, height, pixels.push(p)) == ppm_text(width, height, pixels) + ppm_pixel_line(p),
{
    assert(ppm_header(width, height) + Seq::<char>::empty() =~= ppm_header(width, height));
    assert(pixels.push(p).drop_last() =~= pixels);
    assert(ppm_text(width, height, pixels.push(p)) =~= ppm_text(width, height, pixels) + ppm_pixel_line(p));
}

} // verus!
