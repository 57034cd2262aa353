//! Colouring of Mandelbrot escape-time counts into an RGBA pixel buffer.
use vstd::prelude::*;

verus! {

/// The red channel for a point that escaped after `iteration` of `max_iterations`
/// steps: the escaped fraction scaled to 0..=255, rounded down.
pub open spec fn escape_shade(iteration: nat, max_iterations: nat) -> nat {
    iteration * 255 / max_iterations
}

/// The RGBA colour of a point whose orbit ran `iteration` steps: opaque black when it
/// never escaped, else `(c, c / 2, 255 - c, 255)` for `c` its escape shade.
pub open spec fn pixel_rgba(iteration: nat, max_iterations: nat) -> Seq<u8> {
    if iteration >= max_iterations {
        seq![0u8, 0u8, 0u8, 255u8]
    } else {
        let c = escape_shade(iteration, max_iterations);
        seq![c as u8, (c / 2) as u8, (255 - c) as u8, 255u8]
    }
}

/// The four RGBA bytes of a point whose orbit ran `iteration` steps out of at most
/// `max_iterations`.
pub fn escape_color(iteration: u32, max_iterations: u32) -> (r: [u8; 4])
    ensures
        r@ == pixel_rgba(iteration as nat, max_iterations as nat),
{
    if iteration >= max_iterations {
        [0u8, 0u8, 0u8, 255u8]
    } else {
        let scaled: u64 = iteration as u64 * 255;
        let shade: u64 = scaled / max_iterations as u64;
        assert(shade < 255) by (nonlinear_arith)
            requires
                scaled as int == iteration as int * 255,
                shade as int == scaled as int / max_iterations as int,
                iteration < max_iterations,
        ;
        let c = shade as u8;
        let r = [c, c / 2, 255 - c, 255u8];
        assert(r@ =~= pixel_rgba(iteration as nat, max_iterations as nat));
        r
    }
}

/// The RGBA buffer of a `width` x `height` image, row-major from the top-left, where
/// `counts[p]` is the escape-time count of pixel `p = py * width + px`. Pixel `p`
/// occupies bytes `4 * p .. 4 * p + 4`.
pub fn render_escape_counts(width: u32, height: u32, max_iterations: u32, counts: &Vec<u32>) -> (r:
    Vec<u8>)
    requires
        counts.len() == width * height,
        width * height * 4 <= usize::MAX,
    ensures
        r.len() == width * height * 4,
        forall|p: int|
            0 <= p < width * height ==> #[trigger] r@.subrange(4 * p, 4 * p + 4) == pixel_rgba(
                counts[p] as nat,
                max_iterations as nat,
            ),
{
    let total: usize = counts.len();
    let mut r: Vec<u8> = Vec::new();
    let mut p: usize = 0;
    while p < total
        invariant
            p <= total,
            total == counts.len(),
            total * 4 <= usize::MAX,
            r.len() == 4 * p,
            forall|q: int|
                0 <= q < p ==> #[trigger] r@.subrange(4 * q, 4 * q + 4) == pixel_rgba(
                    counts[q] as nat,
                    max_iterations as nat,
                ),
        decreases total - p,
    {
        let rgba = escape_color(counts[p], max_iterations);
        let ghost before = r@;
        r.push(rgba[0]);
        r.push(rgba[1]);
        r.push(rgba[2]);
        r.push(rgba[3]);
        proof {
            assert forall|q: int| 0 <= q < p + 1 implies #[trigger] r@.subrange(4 * q, 4 * q + 4)
                == pixel_rgba(counts[q] as nat, max_iterations as nat) by {
                if q < p {
                    assert(r@.subrange(4 * q, 4 * q + 4) =~= before.subrange(4 * q, 4 * q + 4));
                } else {
                    assert(r@.subrange(4 * q, 4 * q + 4) =~= rgba@);
                }
            }
        }
        p = p + 1;
    }
    r
}

} // verus!
