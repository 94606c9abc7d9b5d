use vstd::prelude::*;

verus! {

/// A color with one byte for each channel.
#[derive(Clone, Copy, PartialEq, Eq, Structural, PartialOrd, Ord, Debug, Default, Hash)]
pub struct ByteRgb {
    pub r: u8,
    pub g: u8,
    pub b: u8,
}

impl ByteRgb {
    /// The channels in the order red, green, blue.
    pub fn to_rgb_slice(self) -> (r: [u8; 3])
        ensures
            r@ == seq![self.r, self.g, self.b],
    {
        let r = [self.r, self.g, self.b];
        proof {
            assert(r@ =~= seq![self.r, self.g, self.b]);
        }
        r
    }

    /// The channels in the order red, green, blue, then `alpha`.
    pub fn to_rgba_slice(self, alpha: u8) -> (r: [u8; 4])
        ensures
            r@ == seq![self.r, self.g, self.b, alpha],
    {
        let r = [self.r, self.g, self.b, alpha];
        proof {
            assert(r@ =~= seq![self.r, self.g, self.b, alpha]);
        }
        r
    }
}

pub fn byte_rgb(r: u8, g: u8, b: u8) -> (c: ByteRgb)
    ensures
        c.r == r,
        c.g == g,
        c.b == b,
{
    ByteRgb { r, g, b }
}

} // verus!
