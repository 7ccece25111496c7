//! The plain-text image encoding: header "P3", the dimensions, the
//! maximum channel value, then one "R G B" line per pixel.

use vstd::prelude::*;

verus! {

/// The decimal digits of n in ASCII, most significant first.
pub open spec fn dec_s(n: nat) -> Seq<u8>
    decreases n,
{
    if n < 10 {
        seq![(48 + n) as u8]
    } else {
        dec_s(n / 10) + seq![(48 + n % 10) as u8]
    }
}

/// One image line: the three channels in decimal, space separated,
/// newline terminated.
pub open spec fn pixel_line_s(p: (u8, u8, u8)) -> Seq<u8> {
    dec_s(p.0 as nat) + seq![32u8] + dec_s(p.1 as nat) + seq![32u8] + dec_s(p.2 as nat)
        + seq![10u8]
}

/// The lines of the first n pixels, in order.
pub open spec fn pixel_lines_s(pixels: Seq<(u8, u8, u8)>, n: nat) -> Seq<u8>
    decreases n,
{
    if n == 0 {
        Seq::empty()
    } else {
        pixel_lines_s(pixels, (n - 1) as nat) + pixel_line_s(pixels[n - 1])
    }
}

/// The whole file: "P3", a line with the two dimensions, the maximum
/// channel value 255, then the pixel lines.
pub open spec fn p3_s(width: nat, height: nat, pixels: Seq<(u8, u8, u8)>) -> Seq<u8> {
    seq![80u8, 51u8, 10u8] + dec_s(width) + seq![32u8] + dec_s(height) + seq![10u8]
        + seq![50u8, 53u8, 53u8, 10u8] + pixel_lines_s(pixels, pixels.len())
}

/// Append the decimal digits of n.
fn push_dec(out: &mut Vec<u8>, n: u32)
    ensures
        final(out)@ == old(out)@ + dec_s(n as nat),
    decreases n,
{
    if n < 10 {
        out.push(48 + n as u8);
        assert(out@ =~= old(out)@ + dec_s(n as nat));
    } else {
        push_dec(out, n / 10);
        out.push(48 + (n % 10) as u8);
        assert(out@ =~= old(out)@ + dec_s(n as nat));
    }
}

/// Append one pixel line.
fn push_pixel_line(out: &mut Vec<u8>, p: (u8, u8, u8))
    ensures
        final(out)@ == old(out)@ + pixel_line_s(p),
{
    push_dec(out, p.0 as u32);
    out.push(32);
    push_dec(out, p.1 as u32);
    out.push(32);
    push_dec(out, p.2 as u32);
    out.push(10);
    assert(out@ =~= old(out)@ + pixel_line_s(p));
}

/// Encode a rendered pixel buffer as the bytes of the text image file.
pub fn encode_p3(width: u32, height: u32, pixels: &Vec<(u8, u8, u8)>) -> (out: Vec<u8>)
    ensures
        out@ == p3_s(width as nat, height as nat, pixels@),
{
    let mut out: Vec<u8> = Vec::new();
    out.push(80);
    out.push(51);
    out.push(10);
    push_dec(&mut out, width);
    out.push(32);
    push_dec(&mut out, height);
    out.push(10);
    out.push(50);
    out.push(53);
    out.push(53);
    out.push(10);
    let ghost header = out@;
    proof {
        assert(header =~= seq![80u8, 51u8, 10u8] + dec_s(width as nat) + seq![32u8] + dec_s(
            height as nat,
        ) + seq![10u8] + seq![50u8, 53u8, 53u8, 10u8]);
    }
    let mut k: usize = 0;
    while k < pixels.len()
        invariant
            k <= pixels@.len(),
            out@ == header + pixel_lines_s(pixels@, k as nat),
        decreases pixels@.len() - k,
    {
        push_pixel_line(&mut out, pixels[k]);
        proof {
            assert(out@ =~= header + pixel_lines_s(pixels@, (k + 1) as nat));
        }
        k = k + 1;
    }
    proof {
        assert(out@ =~= p3_s(width as nat, height as nat, pixels@));
    }
    out
}

} // verus!
