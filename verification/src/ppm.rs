//! Plain-text PPM output: the byte-exact image format, produced from a
//! rendered RGBA frame.

use vstd::arithmetic::div_mod::lemma_div_is_strictly_smaller;
use vstd::prelude::*;

verus! {

/// The decimal digits of `n`, as ASCII bytes.
pub open spec fn dec_m(n: nat) -> Seq<u8>
    decreases n,
{
    if n < 10 {
        seq![(48 + n) as u8]
    } else {
        dec_m(n / 10) + seq![(48 + n % 10) as u8]
    }
}

/// One pixel as text: red, green and blue, each followed by one space.
pub open spec fn triple_m(r: u8, g: u8, b: u8) -> Seq<u8> {
    dec_m(r as nat) + seq![32u8] + dec_m(g as nat) + seq![32u8] + dec_m(b as nat) + seq![32u8]
}

/// Row `row` of the frame from column `col` on, ended by a newline.
pub open spec fn row_m(frame: Seq<u8>, width: int, row: int, col: int) -> Seq<u8>
    decreases width - col,
{
    if col < 0 || col >= width {
        seq![10u8]
    } else {
        let base = 4 * (row * width + col);
        triple_m(frame[base], frame[base + 1], frame[base + 2]) + row_m(
            frame,
            width,
            row,
            col + 1,
        )
    }
}

/// All rows of the frame from `row` down.
pub open spec fn rows_m(frame: Seq<u8>, width: int, height: int, row: int) -> Seq<u8>
    decreases height - row,
{
    if row < 0 || row >= height {
        Seq::empty()
    } else {
        row_m(frame, width, row, 0) + rows_m(frame, width, height, row + 1)
    }
}

/// The header: the literal `P3`, the image size, and the channel maximum 255,
/// one line each.
pub open spec fn ppm_header_m(width: int, height: int) -> Seq<u8> {
    seq![80u8, 51u8, 10u8] + dec_m(width as nat) + seq![32u8] + dec_m(height as nat) + seq![
        10u8,
    ] + seq![50u8, 53u8, 53u8, 10u8]
}

/// The whole image: header, then one text line per pixel row.
pub open spec fn ppm_m(frame: Seq<u8>, width: int, height: int) -> Seq<u8> {
    ppm_header_m(width, height) + rows_m(frame, width, height, 0)
}

/// Append the decimal digits of `v`.
fn push_dec(out: &mut Vec<u8>, v: u32)
    ensures
        final(out)@ == old(out)@ + dec_m(v as nat),
    decreases v,
{
    if v < 10 {
        out.push(48 + v as u8);
        proof {
            assert(final(out)@ =~= old(out)@ + dec_m(v as nat));
        }
    } else {
        proof {
            lemma_div_is_strictly_smaller(v as int, 10);
        }
        let rest: u32 = v % 10;
        push_dec(out, v / 10);
        out.push(48 + rest as u8);
        proof {
            assert((v as nat) / 10 == (v / 10) as nat);
            assert((v as nat) % 10 == rest as nat);
            assert(final(out)@ =~= old(out)@ + dec_m(v as nat));
        }
    }
}

/// Serialize a rendered RGBA frame as a plain-text PPM image, byte for byte:
/// `P3`, the size line, `255`, then each pixel row as space-separated
/// channel values with a trailing space, one row per line.
pub fn ppm_from_frame(width: u32, height: u32, frame: &Vec<u8>) -> (out: Vec<u8>)
    requires
        1 <= width <= 4096,
        1 <= height <= 4096,
        frame.len() == 4 * width * height,
    ensures
        out@ == ppm_m(frame@, width as int, height as int),
{
    let ghost wd: int = width as int;
    let ghost ht: int = height as int;
    let mut out: Vec<u8> = Vec::new();
    out.push(80);
    out.push(51);
    out.push(10);
    push_dec(&mut out, width);
    out.push(32);
    push_dec(&mut out, height);
    out.push(10);
    out.push(50);
    out.push(53);
    out.push(53);
    out.push(10);
    proof {
        assert(out@ =~= ppm_header_m(wd, ht));
    }
    let mut row: u32 = 0;
    while row < height
        invariant
            row <= height,
            1 <= width <= 4096,
            1 <= height <= 4096,
            wd == width as int,
            ht == height as int,
            frame.len() == 4 * width * height,
            out@ + rows_m(frame@, wd, ht, row as int) =~= ppm_m(frame@, wd, ht),
        decreases height - row,
    {
        let mut col: u32 = 0;
        while col < width
            invariant
                row < height,
                col <= width,
                1 <= width <= 4096,
                1 <= height <= 4096,
                wd == width as int,
                ht == height as int,
                frame.len() == 4 * width * height,
                out@ + row_m(frame@, wd, row as int, col as int) + rows_m(
                    frame@,
                    wd,
                    ht,
                    row as int + 1,
                ) =~= ppm_m(frame@, wd, ht),
            decreases width - col,
        {
            proof {
                assert((row as int) * wd + col < wd * ht) by (nonlinear_arith)
                    requires
                        0 <= (row as int),
                        (row as int) < ht,
                        0 <= (col as int),
                        (col as int) < wd,
                        wd >= 1,
                ;
                assert(4 * ((row as int) * wd + col) + 3 < 4 * (wd * ht)) by (nonlinear_arith)
                    requires
                        (row as int) * wd + col < wd * ht,
                ;
                assert(4 * (wd * ht) == 4 * wd * ht) by (nonlinear_arith);
                assert(wd * ht <= 0x100_0000) by (nonlinear_arith)
                    requires
                        0 <= wd <= 4096,
                        0 <= ht <= 4096,
                ;
                assert((row * width + col) as int == (row as int) * wd + col)
                    by (nonlinear_arith)
                    requires
                        (row as int) <= 4096,
                        (col as int) <= 4096,
                        wd <= 4096,
                        wd == (width as int),
                ;
            }
            let base: usize = (4 * (row * width + col)) as usize;
            let ghost prev: Seq<u8> = out@;
            push_dec(&mut out, frame[base] as u32);
            out.push(32);
            push_dec(&mut out, frame[base + 1] as u32);
            out.push(32);
            push_dec(&mut out, frame[base + 2] as u32);
            out.push(32);
            proof {
                assert(out@ =~= prev + triple_m(
                    frame@[base as int],
                    frame@[base as int + 1],
                    frame@[base as int + 2],
                ));
                assert(out@ + row_m(frame@, wd, row as int, col as int + 1) + rows_m(
                    frame@,
                    wd,
                    ht,
                    row as int + 1,
                ) =~= ppm_m(frame@, wd, ht));
            }
            col = col + 1;
        }
        out.push(10);
        proof {
            assert(row_m(frame@, wd, row as int, wd) =~= seq![10u8]);
            assert(out@ + rows_m(frame@, wd, ht, row as int + 1) =~= ppm_m(frame@, wd, ht));
        }
        row = row + 1;
    }
    proof {
        assert(rows_m(frame@, wd, ht, ht) =~= Seq::<u8>::empty());
        assert(out@ =~= ppm_m(frame@, wd, ht));
    }
    out
}

} // verus!
