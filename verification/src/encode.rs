//! The packed-texture binary container: a fixed 80-byte little-endian header
//! followed by the image's pixels with channels reordered to BGRA, without
//! compression or mipmaps. [`encode_tex`] writes it, [`decode_tex`] reads it
//! back, and [`lemma_tex_round_trip`] states that the two are inverse.

use vstd::prelude::*;

use crate::pixel::{Pixel, PixelBuffer};

verus! {

/// The little-endian bytes of a 16-bit value.
pub open spec fn le16(v: int) -> Seq<u8> {
    seq![(v % 256) as u8, (v / 256 % 256) as u8]
}

/// The little-endian bytes of a 32-bit value.
pub open spec fn le32(v: int) -> Seq<u8> {
    seq![
        (v % 256) as u8,
        (v / 256 % 256) as u8,
        (v / 65536 % 256) as u8,
        (v / 16777216 % 256) as u8,
    ]
}

/// A sequence of `n` zero bytes.
pub open spec fn zero_bytes(n: int) -> Seq<u8> {
    Seq::new(n as nat, |i: int| 0u8)
}

/// The fixed 80-byte container header for a `w` x `h` image: two format tags,
/// the dimensions, a reserved word, a mip/array count of one, three reserved
/// words, the body offset 80, and zero padding up to that offset.
pub open spec fn header_bytes(w: int, h: int) -> Seq<u8> {
    le32(0x00800000) + le32(0x1450) + le16(w) + le16(h) + le16(0) + le16(1) + le32(0) + le32(1)
        + le32(2) + le32(80) + zero_bytes(48)
}

/// The body: every RGBA pixel stored as the four bytes B, G, R, A.
pub open spec fn body_bytes(s: Seq<Pixel>) -> Seq<u8>
    decreases s.len(),
{
    if s.len() == 0 {
        Seq::empty()
    } else {
        body_bytes(s.drop_last()) + seq![s.last().b, s.last().g, s.last().r, s.last().a]
    }
}

/// The whole container for a `w` x `h` image with the given pixels.
pub open spec fn tex_bytes(w: int, h: int, s: Seq<Pixel>) -> Seq<u8> {
    header_bytes(w, h) + body_bytes(s)
}

pub proof fn lemma_body_bytes_len(s: Seq<Pixel>)
    ensures
        body_bytes(s).len() == 4 * s.len(),
    decreases s.len(),
{
    if s.len() > 0 {
        lemma_body_bytes_len(s.drop_last());
    }
}

pub proof fn lemma_body_bytes_index(s: Seq<Pixel>, i: int)
    requires
        0 <= i < s.len(),
    ensures
        body_bytes(s)[4 * i] == s[i].b,
        body_bytes(s)[4 * i + 1] == s[i].g,
        body_bytes(s)[4 * i + 2] == s[i].r,
        body_bytes(s)[4 * i + 3] == s[i].a,
    decreases s.len(),
{
    lemma_body_bytes_len(s);
    lemma_body_bytes_len(s.drop_last());
    if i < s.len() - 1 {
        lemma_body_bytes_index(s.drop_last(), i);
    }
}

/// Append the little-endian bytes of a 16-bit value.
pub fn push_le16(out: &mut Vec<u8>, v: u16)
    ensures
        final(out)@ == old(out)@ + le16(v as int),
{
    out.push((v % 256) as u8);
    out.push((v / 256) as u8);
    proof {
        assert(final(out)@ =~= old(out)@ + le16(v as int));
    }
}

/// Append the little-endian bytes of a 32-bit value.
pub fn push_le32(out: &mut Vec<u8>, v: u32)
    ensures
        final(out)@ == old(out)@ + le32(v as int),
{
    out.push((v % 256) as u8);
    out.push((v / 256 % 256) as u8);
    out.push((v / 65536 % 256) as u8);
    out.push((v / 16777216 % 256) as u8);
    proof {
        assert(final(out)@ =~= old(out)@ + le32(v as int));
    }
}

/// Serialize a pixel buffer into its packed-texture container: the fixed
/// header followed by the BGRA body.
pub fn encode_tex(buf: &PixelBuffer) -> (r: Vec<u8>)
    requires
        buf.wf(),
        buf.width <= 0xFFFF,
        buf.height <= 0xFFFF,
    ensures
        r@ == tex_bytes(buf.width as int, buf.height as int, buf@),
{
    let mut out: Vec<u8> = Vec::new();
    push_le32(&mut out, 0x00800000);
    push_le32(&mut out, 0x1450);
    push_le16(&mut out, buf.width as u16);
    push_le16(&mut out, buf.height as u16);
    push_le16(&mut out, 0);
    push_le16(&mut out, 1);
    push_le32(&mut out, 0);
    push_le32(&mut out, 1);
    push_le32(&mut out, 2);
    push_le32(&mut out, 80);
    let mut z: usize = 0;
    while z < 48
        invariant
            z <= 48,
            out@ =~= header_bytes(buf.width as int, buf.height as int).take(32 + z as int),
        decreases 48 - z,
    {
        out.push(0);
        proof {
            assert(out@ =~= header_bytes(buf.width as int, buf.height as int).take(
                32 + z as int + 1,
            ));
        }
        z = z + 1;
    }
    proof {
        assert(out@ =~= header_bytes(buf.width as int, buf.height as int));
    }
    let n: usize = buf.pixels.len();
    let mut i: usize = 0;
    while i < n
        invariant
            buf.pixels@.len() == n,
            i <= n,
            out@ == header_bytes(buf.width as int, buf.height as int) + body_bytes(
                buf@.take(i as int),
            ),
        decreases n - i,
    {
        let p = buf.pixels[i];
        out.push(p.b);
        out.push(p.g);
        out.push(p.r);
        out.push(p.a);
        proof {
            assert(buf@.take(i as int + 1).drop_last() =~= buf@.take(i as int));
            assert(buf@.take(i as int + 1).last() == buf@[i as int]);
            assert(out@ =~= header_bytes(buf.width as int, buf.height as int) + body_bytes(
                buf@.take(i as int + 1),
            ));
        }
        i = i + 1;
    }
    proof {
        assert(buf@.take(n as int) =~= buf@);
    }
    out
}

/// The width recorded in a container's header.
pub open spec fn parsed_w(b: Seq<u8>) -> int {
    b[8] + 256 * b[9]
}

/// The height recorded in a container's header.
pub open spec fn parsed_h(b: Seq<u8>) -> int {
    b[10] + 256 * b[11]
}

/// The pixels of a container's BGRA body.
pub open spec fn parsed_body(b: Seq<u8>, n: int) -> Seq<Pixel> {
    Seq::new(
        n as nat,
        |i: int|
            Pixel {
                r: b[80 + 4 * i + 2],
                g: b[80 + 4 * i + 1],
                b: b[80 + 4 * i],
                a: b[80 + 4 * i + 3],
            },
    )
}

/// A well-formed container: the exact header this library's encoder writes for
/// the recorded dimensions, and a body of exactly one BGRA pixel per cell.
pub open spec fn tex_wf_bytes(b: Seq<u8>) -> bool {
    &&& b.len() >= 80
    &&& b.take(80) == header_bytes(parsed_w(b), parsed_h(b))
    &&& b.len() == 80 + 4 * (parsed_w(b) * parsed_h(b))
}

/// Parse a packed-texture container. Returns the image exactly when the bytes
/// are a well-formed container, and `None` otherwise.
pub fn decode_tex(bytes: &Vec<u8>) -> (r: Option<PixelBuffer>)
    ensures
        r is Some <==> tex_wf_bytes(bytes@),
        r is Some ==> {
            let b = r->Some_0;
            b.wf() && b.width == parsed_w(bytes@) && b.height == parsed_h(bytes@) && b@
                == parsed_body(bytes@, parsed_w(bytes@) * parsed_h(bytes@))
        },
{
    if bytes.len() < 80 {
        return None;
    }
    let w: u32 = (bytes[8] as u32) + 256 * (bytes[9] as u32);
    let h: u32 = (bytes[10] as u32) + 256 * (bytes[11] as u32);
    let mut expected: Vec<u8> = Vec::new();
    push_le32(&mut expected, 0x00800000);
    push_le32(&mut expected, 0x1450);
    push_le16(&mut expected, w as u16);
    push_le16(&mut expected, h as u16);
    push_le16(&mut expected, 0);
    push_le16(&mut expected, 1);
    push_le32(&mut expected, 0);
    push_le32(&mut expected, 1);
    push_le32(&mut expected, 2);
    push_le32(&mut expected, 80);
    let mut z: usize = 0;
    while z < 48
        invariant
            z <= 48,
            expected@ =~= header_bytes(w as int, h as int).take(32 + z as int),
        decreases 48 - z,
    {
        expected.push(0);
        proof {
            assert(expected@ =~= header_bytes(w as int, h as int).take(32 + z as int + 1));
        }
        z = z + 1;
    }
    proof {
        assert(expected@ =~= header_bytes(w as int, h as int));
    }
    let mut k: usize = 0;
    while k < 80
        invariant
            bytes@.len() >= 80,
            w as int == parsed_w(bytes@),
            h as int == parsed_h(bytes@),
            w <= 0xFFFF,
            h <= 0xFFFF,
            expected@ == header_bytes(w as int, h as int),
            expected@.len() == 80,
            k <= 80,
            forall|j: int| 0 <= j < k ==> bytes@[j] == expected@[j],
        decreases 80 - k,
    {
        if bytes[k] != expected[k] {
            proof {
                assert(w as int == parsed_w(bytes@));
                assert(h as int == parsed_h(bytes@));
                assert(bytes@.take(80)[k as int] == bytes@[k as int]);
                assert(bytes@.take(80) != header_bytes(parsed_w(bytes@), parsed_h(bytes@)));
            }
            return None;
        }
        k = k + 1;
    }
    proof {
        assert(w as int == parsed_w(bytes@));
        assert(h as int == parsed_h(bytes@));
        assert(bytes@.take(80) =~= header_bytes(parsed_w(bytes@), parsed_h(bytes@)));
    }
    proof {
        assert((w as u64) * (h as u64) <= 0xFFFF * 0xFFFF) by (nonlinear_arith)
            requires
                w <= 0xFFFF,
                h <= 0xFFFF,
        ;
    }
    let n: u64 = (w as u64) * (h as u64);
    if n > (usize::MAX as u64 - 80) / 4 {
        proof {
            vstd::std_specs::vec::axiom_spec_len(bytes);
        }
        return None;
    }
    let n: usize = n as usize;
    if bytes.len() != 80 + 4 * n {
        return None;
    }
    let mut pixels: Vec<Pixel> = Vec::new();
    let mut i: usize = 0;
    while i < n
        invariant
            bytes@.len() == 80 + 4 * n,
            i <= n,
            pixels@.len() == i,
            forall|j: int|
                0 <= j < i ==> pixels@[j] == (Pixel {
                    r: bytes@[80 + 4 * j + 2],
                    g: bytes@[80 + 4 * j + 1],
                    b: bytes@[80 + 4 * j],
                    a: bytes@[80 + 4 * j + 3],
                }),
        decreases n - i,
    {
        proof {
            vstd::std_specs::vec::axiom_spec_len(bytes);
        }
        let base: usize = 80 + 4 * i;
        pixels.push(
            Pixel { r: bytes[base + 2], g: bytes[base + 1], b: bytes[base], a: bytes[base + 3] },
        );
        i = i + 1;
    }
    let r = PixelBuffer { width: w, height: h, pixels };
    proof {
        assert(r@ =~= parsed_body(bytes@, parsed_w(bytes@) * parsed_h(bytes@)));
    }
    Some(r)
}

/// Law: the container round-trips. Encoding a `w` x `h` image and parsing the
/// bytes back recovers the same dimensions and pixels; together with
/// [`decode_tex`]'s contract, `decode_tex` returns `Some` of the encoded image.
pub proof fn lemma_tex_round_trip(w: int, h: int, s: Seq<Pixel>)
    requires
        0 <= w <= 0xFFFF,
        0 <= h <= 0xFFFF,
        s.len() == w * h,
    ensures
        tex_wf_bytes(tex_bytes(w, h, s)),
        parsed_w(tex_bytes(w, h, s)) == w,
        parsed_h(tex_bytes(w, h, s)) == h,
        parsed_body(tex_bytes(w, h, s), w * h) =~= s,
{
    let b = tex_bytes(w, h, s);
    lemma_body_bytes_len(s);
    assert(b[8] == w % 256 && b[9] == w / 256 % 256);
    assert(w % 256 + 256 * (w / 256 % 256) == w) by (nonlinear_arith)
        requires
            0 <= w <= 0xFFFF,
    ;
    assert(h % 256 + 256 * (h / 256 % 256) == h) by (nonlinear_arith)
        requires
            0 <= h <= 0xFFFF,
    ;
    assert(parsed_w(b) == w);
    assert(parsed_h(b) == h);
    assert(b.take(80) =~= header_bytes(w, h));
    assert forall|i: int| 0 <= i < s.len() implies parsed_body(b, w * h)[i] == s[i] by {
        lemma_body_bytes_index(s, i);
        assert(b[80 + 4 * i] == body_bytes(s)[4 * i]);
        assert(b[80 + 4 * i + 1] == body_bytes(s)[4 * i + 1]);
        assert(b[80 + 4 * i + 2] == body_bytes(s)[4 * i + 2]);
        assert(b[80 + 4 * i + 3] == body_bytes(s)[4 * i + 3]);
    }
}

} // verus!
