//! Screen-buffer arithmetic of the Atari emulator environments.

use vstd::prelude::*;

verus! {

/// The dimensions of an emulator screen, in pixels.
#[derive(Clone, Copy, Debug, PartialEq, Eq, Structural)]
pub struct Screen {
    pub width: u32,
    pub height: u32,
}

/// Number of pixels on a `width` by `height` screen.
pub open spec fn pixel_count(width: nat, height: nat) -> nat {
    width * height
}

impl Screen {
    /// Size in bytes of the screen as 24-bit pixels: three bytes per pixel.
    pub fn rgb24_size(&self) -> (size: usize)
        requires
            pixel_count(self.width as nat, self.height as nat) * 3 <= usize::MAX,
        ensures
            size == pixel_count(self.width as nat, self.height as nat) * 3,
    {
        let w = self.width as usize;
        let h = self.height as usize;
        assert(w * h * 3 == pixel_count(self.width as nat, self.height as nat) * 3);
        assert(w * h <= w * h * 3) by (nonlinear_arith);
        w * h * 3
    }

    /// Size in bytes of the screen as 32-bit pixels: four bytes per pixel.
    pub fn rgb32_size(&self) -> (size: usize)
        requires
            pixel_count(self.width as nat, self.height as nat) * 4 <= usize::MAX,
        ensures
            size == pixel_count(self.width as nat, self.height as nat) * 4,
    {
        let w = self.width as usize;
        let h = self.height as usize;
        assert(w * h * 4 == pixel_count(self.width as nat, self.height as nat) * 4);
        assert(w * h <= w * h * 4) by (nonlinear_arith);
        w * h * 4
    }
}

/// A buffer of the screen's 32-bit size has room for one 32-bit pixel per screen
/// pixel, and the bytes from the first `buf.len() / 4` on are exactly the screen's
/// 24-bit size: the 24-bit image can be written there and then expanded in place.
pub proof fn rgb32_buffer_holds_rgb24(width: nat, height: nat)
    ensures
        (pixel_count(width, height) * 4) / 4 == pixel_count(width, height),
        pixel_count(width, height) * 4 - (pixel_count(width, height) * 4) / 4 == pixel_count(
            width,
            height,
        ) * 3,
{
}


/// The bytes that `expand_rgb24_to_rgb32` leaves in a buffer that held `old`.
///
/// With `n` the number of whole 4-byte pixels that fit in the buffer, the
/// 24-bit pixels stored from byte `n` on are spread out to 4 bytes each over the
/// first `4 * n` bytes, the fourth byte of each pixel being 0; bytes past `4 * n`
/// keep their value.
pub open spec fn rgb24_expanded(old: Seq<u8>) -> Seq<u8> {
    let n = old.len() / 4;
    Seq::new(
        old.len(),
        |j: int|
            if j < 4 * n {
                if j % 4 == 3 {
                    0u8
                } else {
                    old[n + 3 * (j / 4) + j % 4]
                }
            } else {
                old[j]
            },
    )
}

/// Turns the 24-bit pixels that lie from byte `buf.len() / 4` on into 32-bit
/// pixels at the front of the same buffer, in place: pixel `i` takes bytes
/// `4 * i .. 4 * i + 3` from bytes `n + 3 * i .. n + 3 * i + 3`, and byte
/// `4 * i + 3` becomes 0.
pub fn expand_rgb24_to_rgb32(buf: &mut [u8])
    ensures
        final(buf)@ == rgb24_expanded(old(buf)@),
{
    let n = buf.len() / 4;
    let ghost start = buf@;
    assert(start.len() == buf.len());
    let mut i: usize = 0;
    while i < n
        invariant
            n == start.len() / 4,
            start.len() <= usize::MAX,
            i <= n,
            buf@.len() == start.len(),
            forall|j: int| 0 <= j < 4 * i ==> #[trigger] buf@[j] == rgb24_expanded(start)[j],
            forall|j: int| 4 * i <= j < start.len() ==> #[trigger] buf@[j] == start[j],
        decreases n - i,
    {
        buf[i * 4 + 0] = buf[n + (i * 3) + 0];
        buf[i * 4 + 1] = buf[n + (i * 3) + 1];
        buf[i * 4 + 2] = buf[n + (i * 3) + 2];
        buf[i * 4 + 3] = 0;
        proof {
            assert forall|j: int| 4 * i <= j < 4 * i + 4 implies #[trigger] buf@[j]
                == rgb24_expanded(start)[j] by {
                assert(j / 4 == i as int);
                assert(j % 4 == j - 4 * i);
            }
        }
        i = i + 1;
    }
    assert(buf@ =~= rgb24_expanded(start));
}


/// Byte `k` of pixel `i` in a buffer of 4-byte pixels.
pub open spec fn rgb32_byte(buf: Seq<u8>, i: int, k: int) -> u8 {
    buf[4 * i + k]
}

/// Byte `k` of pixel `i` in an image of 3-byte pixels.
pub open spec fn rgb24_byte(image: Seq<u8>, i: int, k: int) -> u8 {
    image[3 * i + k]
}

/// Rendering a screen of `pixels` pixels as 32-bit pixels gives the screen's
/// 24-bit image pixel by pixel: when the 24-bit image stands in the buffer from
/// byte `pixels` on, as it is written there before the expansion, pixel `i` of
/// the expanded buffer holds the three bytes of pixel `i` of the image and a
/// zero fourth byte.
pub proof fn expanded_screen_matches_rgb24(buf: Seq<u8>, image: Seq<u8>, pixels: nat)
    requires
        buf.len() == 4 * pixels,
        image.len() == 3 * pixels,
        buf.subrange(pixels as int, 4 * pixels as int) == image,
    ensures
        forall|i: int, k: int|
            0 <= i < pixels && 0 <= k < 3 ==> #[trigger] rgb32_byte(rgb24_expanded(buf), i, k)
                == rgb24_byte(image, i, k),
        forall|i: int| 0 <= i < pixels ==> #[trigger] rgb32_byte(rgb24_expanded(buf), i, 3) == 0,
{
    assert forall|i: int, k: int| 0 <= i < pixels && 0 <= k < 4 implies {
        &&& (k < 3 ==> #[trigger] rgb32_byte(rgb24_expanded(buf), i, k) == rgb24_byte(image, i, k))
        &&& (k == 3 ==> rgb32_byte(rgb24_expanded(buf), i, k) == 0)
    } by {
        let j = 4 * i + k;
        assert(buf.len() / 4 == pixels);
        assert(j / 4 == i);
        assert(j % 4 == k);
        if k < 3 {
            assert(buf[pixels + 3 * i + k] == image[3 * i + k]);
        }
    }
}

} // verus!
