//! The decode functions of the asset kinds that the library decodes itself:
//! text and atlases. Tile maps and sounds are decoded by functions that the
//! host hands to the store; the library holds and keeps what they make.

use crate::asset::{Load, LoadView};
use crate::atlas::{atlas_of, pixels_view, AtlasView, GAtlas, Pixels, PixelsView};
use crate::grid::{grid_of, infer_grid};
use kira::sound::static_sound::StaticSoundData;
use vstd::prelude::*;
use vstd::utf8::{decode_utf8, valid_utf8};

verus! {

/// A tile map as the `tiled` crate holds it. The library carries such maps
/// and never looks into one.
#[verifier::external_type_specification]
#[verifier::external_body]
pub struct ExTiledMap(tiled::Map);

/// A decoded sound as the `kira` crate holds it. The library carries such
/// sounds and never looks into one.
#[verifier::external_type_specification]
#[verifier::external_body]
pub struct ExStaticSoundData(StaticSoundData);

/// `std::str::from_utf8`: the text that `bytes` encode, where they are valid
/// UTF-8, and nothing where they are not.
#[verifier::external_body]
fn utf8_text(bytes: &[u8]) -> (r: Option<&str>)
    ensures
        r is Some <==> valid_utf8(bytes@),
        r matches Some(text) ==> text@ == decode_utf8(bytes@),
{
    match std::str::from_utf8(bytes) {
        Ok(text) => Some(text),
        Err(_) => None,
    }
}

/// `image::load_from_memory`, the picture then turned into eight-bit RGBA
/// (`into_rgba8`) and taken apart into its size and its buffer (`width`,
/// `height`, `into_raw`). Nothing is claimed of what comes back: which
/// formats are read, and how, is for the `image` crate and for the decoders
/// registered with it in the running process.
#[verifier::external_body]
fn decode_rgba(data: &[u8]) -> (r: Option<Pixels>) {
    match image::load_from_memory(data) {
        Ok(picture) => {
            let buffer = picture.into_rgba8();
            Some(Pixels { width: buffer.width(), height: buffer.height(), rgba: buffer.into_raw() })
        },
        Err(_) => None,
    }
}

/// Decodes a text asset: the bytes are taken as UTF-8, and rejected where
/// they are not valid UTF-8.
pub fn decode_text(load: Load) -> (r: Result<String, ()>)
    ensures
        match r {
            Ok(text) => valid_utf8(load.data@) && text@ == decode_utf8(load.data@),
            Err(_) => !valid_utf8(load.data@),
        },
{
    match utf8_text(load.data.as_slice()) {
        Some(text) => Ok(text.to_owned()),
        None => Err(()),
    }
}

/// The atlas that a load makes with the picture decoded from its bytes: the
/// picture cut by the grid that the load's path names, under the load's name.
pub open spec fn atlas_of_load(load: LoadView, image: Option<PixelsView>) -> Option<AtlasView> {
    atlas_of(load.name, image, grid_of(load.path).0, grid_of(load.path).1)
}

/// Makes the atlas of a load from the picture that was decoded from its
/// bytes, if one was: the grid is read off the file name of the path. There
/// is no atlas where no picture was decoded or where the picture's buffer
/// does not hold four bytes for each pixel.
pub fn atlas_from(load: Load, image: Option<Pixels>) -> (r: Result<GAtlas, ()>)
    ensures
        match r {
            Ok(atlas) => atlas_of_load(load@, pixels_view(image)) == Some(atlas@),
            Err(_) => atlas_of_load(load@, pixels_view(image)) is None,
        },
{
    let grid = infer_grid(load.path.as_str());
    match GAtlas::new(load.name, image, grid.0, grid.1) {
        Some(atlas) => Ok(atlas),
        None => Err(()),
    }
}

/// Decodes an atlas: the picture is decoded from the bytes, and the grid is
/// read off the file name of the path. Whether the bytes decode is for the
/// picture decoder; an atlas that comes out has the load's name, the grid of
/// its path and a complete picture, as [`atlas_from`] makes it.
pub fn decode_atlas(load: Load) -> (r: Result<GAtlas, ()>)
    ensures
        r matches Ok(atlas) ==> atlas@.name == load.name@ && atlas.cols == grid_of(load.path@).0
            && atlas.rows == grid_of(load.path@).1 && atlas@.image.complete(),
{
    let image = decode_rgba(load.data.as_slice());
    atlas_from(load, image)
}

} // verus!
