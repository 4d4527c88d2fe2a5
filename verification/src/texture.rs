//! The random texture that the reshade pass samples: one random byte per texel byte.

use vstd::prelude::*;
use rand::RngCore;

verus! {

/// Overwrites every byte with random ones from rand's `thread_rng().fill_bytes`, which
/// fills the whole slice and never changes its length.
#[verifier::external_body]
fn fill_random(data: &mut Vec<u8>)
    ensures
        final(data)@.len() == old(data)@.len(),
{
    rand::thread_rng().fill_bytes(data.as_mut_slice())
}

/// The bytes of a random texture of `format_size`-byte pixels, `aligned_width` pixels per
/// row, `height` rows and `depth` layers.
pub fn random_texture_data(format_size: usize, aligned_width: usize, height: usize, depth: usize) -> (data: Vec<u8>)
    requires
        format_size * aligned_width * height * depth <= usize::MAX,
    ensures
        data@.len() == format_size * aligned_width * height * depth,
{
    let len: usize = if height == 0 || depth == 0 {
        proof {
            assert(format_size * aligned_width * height * depth == 0) by (nonlinear_arith)
                requires
                    height == 0 || depth == 0,
            ;
        }
        0
    } else {
        proof {
            assert(format_size * aligned_width <= format_size * aligned_width * height
                && format_size * aligned_width * height <= format_size * aligned_width * height * depth) by (nonlinear_arith)
                requires
                    height >= 1,
                    depth >= 1,
            ;
        }
        let row_bytes = format_size * aligned_width;
        let layer_bytes = row_bytes * height;
        layer_bytes * depth
    };
    let mut data: Vec<u8> = vec![0; len];
    fill_random(&mut data);
    data
}

/// The bytes per row of the random texture, as the copy into the texture takes them (the
/// product truncated to 32 bits).
pub fn random_texture_bytes_per_row(format_size: usize, aligned_width: usize) -> (bytes: u32)
    requires
        format_size * aligned_width <= usize::MAX,
    ensures
        bytes == (format_size * aligned_width) as u32,
{
    (format_size * aligned_width) as u32
}

} // verus!
