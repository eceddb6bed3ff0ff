use vstd::prelude::*;

verus! {

/// What an `RGBAImage` holds: its bytes, row by row, four per pixel
/// (red, green, blue, alpha), and its size in pixels.
pub struct ImageView {
    pub data: Seq<u8>,
    pub width: nat,
    pub height: nat,
}

impl ImageView {
    /// Number of pixels.
    pub open spec fn pixel_count(self) -> nat {
        self.width * self.height
    }

    /// Byte `c` (0 red, 1 green, 2 blue, 3 alpha) of pixel `p`, pixels
    /// numbered row by row.
    pub open spec fn channel(self, p: int, c: int) -> u8 {
        self.data[4 * p + c]
    }

    /// The byte buffer holds exactly four bytes for each pixel.
    pub open spec fn well_sized(self) -> bool {
        self.data.len() == 4 * (self.width * self.height)
    }
}

/// An image in RGBA layout: `width * height` pixels of four bytes each.
pub struct RGBAImage {
    data: Vec<u8>,
    width: usize,
    height: usize,
}

impl View for RGBAImage {
    type V = ImageView;

    closed spec fn view(&self) -> ImageView {
        ImageView { data: self.data@, width: self.width as nat, height: self.height as nat }
    }
}

impl RGBAImage {
    #[verifier::type_invariant]
    spec fn inv(&self) -> bool {
        self.data@.len() == 4 * (self.width * self.height)
    }

    /// Builds an image from its bytes and its size in pixels.
    pub fn new(data: Vec<u8>, width: usize, height: usize) -> (img: RGBAImage)
        requires
            data@.len() == 4 * (width * height),
        ensures
            img@.data == data@,
            img@.width == width,
            img@.height == height,
    {
        RGBAImage { data, width, height }
    }

    /// Width in pixels.
    pub fn width(&self) -> (w: usize)
        ensures
            w == self@.width,
    {
        self.width
    }

    /// Height in pixels.
    pub fn height(&self) -> (h: usize)
        ensures
            h == self@.height,
    {
        self.height
    }

    /// The bytes of the image, row by row, four per pixel.
    pub fn data(&self) -> (d: &Vec<u8>)
        ensures
            d@ == self@.data,
            self@.well_sized(),
    {
        proof {
            use_type_invariant(self);
        }
        &self.data
    }

    /// Gives back the bytes of the image.
    pub fn into_data(self) -> (d: Vec<u8>)
        ensures
            d@ == self@.data,
            self@.well_sized(),
    {
        proof {
            use_type_invariant(&self);
        }
        self.data
    }
}

} // verus!
