//! A sprite atlas: a decoded picture cut into a grid of equal cells.

use vstd::prelude::*;

verus! {

/// A decoded picture: `width` by `height` pixels, four bytes each (red,
/// green, blue, alpha), row by row.
pub struct Pixels {
    pub width: u32,
    pub height: u32,
    pub rgba: Vec<u8>,
}

/// A picture as plain values.
pub struct PixelsView {
    pub width: u32,
    pub height: u32,
    pub rgba: Seq<u8>,
}

impl View for Pixels {
    type V = PixelsView;

    open spec fn view(&self) -> PixelsView {
        PixelsView { width: self.width, height: self.height, rgba: self.rgba@ }
    }
}

impl PixelsView {
    /// The buffer holds four bytes for every pixel and no more.
    pub open spec fn complete(self) -> bool {
        self.rgba.len() == 4 * self.width * self.height
    }
}

impl Pixels {
    /// Whether the buffer holds four bytes for every pixel and no more.
    pub fn is_complete(&self) -> (r: bool)
        ensures
            r == self@.complete(),
    {
        let w: u64 = self.width as u64;
        let h: u64 = self.height as u64;
        assert(w * h <= 0xffff_ffff * 0xffff_ffff) by (nonlinear_arith)
            requires
                w <= 0xffff_ffff,
                h <= 0xffff_ffff,
        ;
        let cells: u64 = w * h;
        let bytes: u128 = 4 * (cells as u128);
        assert(4 * self.width * self.height == 4 * (self.width * self.height)) by (nonlinear_arith);
        self.rgba.len() as u128 == bytes
    }
}

/// A picture with the grid that cuts it into cells.
pub struct GAtlas {
    pub name: String,
    pub cols: u8,
    pub rows: u8,
    pub image: Pixels,
}

/// An atlas as plain values.
pub struct AtlasView {
    pub name: Seq<char>,
    pub cols: u8,
    pub rows: u8,
    pub image: PixelsView,
}

impl View for GAtlas {
    type V = AtlasView;

    open spec fn view(&self) -> AtlasView {
        AtlasView { name: self.name@, cols: self.cols, rows: self.rows, image: self.image@ }
    }
}

/// The atlas made of a decoded picture, if the picture was decoded and its
/// buffer is complete.
pub open spec fn atlas_of(
    name: Seq<char>,
    image: Option<PixelsView>,
    cols: u8,
    rows: u8,
) -> Option<AtlasView> {
    match image {
        Some(image) if image.complete() => Some(AtlasView { name, cols, rows, image }),
        _ => None,
    }
}

/// The view of an optional picture.
pub open spec fn pixels_view(image: Option<Pixels>) -> Option<PixelsView> {
    match image {
        Some(image) => Some(image@),
        None => None,
    }
}

impl GAtlas {
    /// The atlas called `name` over `image`, cut into `cols` columns and
    /// `rows` rows. There is none where no picture was decoded or where the
    /// buffer does not hold four bytes for each pixel.
    pub fn new(name: String, image: Option<Pixels>, cols: u8, rows: u8) -> (r: Option<GAtlas>)
        ensures
            match r {
                Some(atlas) => atlas_of(name@, pixels_view(image), cols, rows) == Some(atlas@),
                None => atlas_of(name@, pixels_view(image), cols, rows) is None,
            },
    {
        match image {
            Some(image) => {
                if image.is_complete() {
                    Some(GAtlas { name, cols, rows, image })
                } else {
                    None
                }
            },
            None => None,
        }
    }

    /// The column and the row of the cell with the given index, cells being
    /// counted row by row from the top left.
    pub fn cell(&self, index: u16) -> (r: (u16, u16))
        requires
            self.cols > 0,
        ensures
            r == cell_at(self.cols, index),
    {
        cell_of(self.cols, index)
    }
}

/// The column and the row of the cell `index` in a grid of `cols` columns.
pub open spec fn cell_at(cols: u8, index: u16) -> (u16, u16) {
    ((index % (cols as u16)) as u16, (index / (cols as u16)) as u16)
}

/// The column and the row of the cell with the given index in a grid of
/// `cols` columns, cells being counted row by row from the top left.
pub fn cell_of(cols: u8, index: u16) -> (r: (u16, u16))
    requires
        cols > 0,
    ensures
        r == cell_at(cols, index),
        r.0 < cols,
        index == r.1 * cols + r.0,
{
    let cols: u16 = cols as u16;
    let col: u16 = index % cols;
    let row: u16 = index / cols;
    assert(index == row * cols + col) by (nonlinear_arith)
        requires
            cols > 0,
            col == index % cols,
            row == index / cols,
    ;
    (col, row)
}

} // verus!
