//! Collecting the textures of a texture array: each texture gets the index of its layer, and a texture larger than
//! the array's layers is refused.
use vstd::prelude::*;

verus! {

/// image's `DynamicImage`, carried through opaquely.
#[verifier::external_type_specification]
#[verifier::external_body]
pub struct ExDynamicImage(image::DynamicImage);

/// The width and the height of an image, in pixels, as `GenericImageView::dimensions` gives them: a function of
/// the image alone.
pub uninterp spec fn image_size(data: image::DynamicImage) -> (u32, u32);

/// Calls `GenericImageView::dimensions` on the image: its width and its height, in pixels, which are
/// [`image_size`] of the image.
#[verifier::external_body]
fn image_dimensions(data: &image::DynamicImage) -> (r: (u32, u32))
    ensures
        r == image_size(*data),
{
    image::GenericImageView::dimensions(data)
}

/// The index of a texture in a texture array: the layer that holds it.
#[derive(Copy, Clone, PartialEq, Eq, Structural, PartialOrd, Ord, Hash, Debug)]
pub struct TextureIdx(u16);

impl Default for TextureIdx {
    /// The index of the first layer.
    fn default() -> (r: Self)
        ensures
            r@ == 0,
    {
        TextureIdx(0)
    }
}

impl View for TextureIdx {
    type V = nat;

    closed spec fn view(&self) -> nat {
        self.0 as nat
    }
}

impl TextureIdx {
    /// The texture index `index`.
    pub fn new(index: u16) -> (r: Self)
        ensures
            r@ == index,
    {
        TextureIdx(index)
    }

    /// The number of this texture index.
    pub fn into_idx(self) -> (r: u16)
        ensures
            r == self@,
    {
        self.0
    }
}

/// Why a texture could not be added to a texture array.
#[derive(Copy, Clone, PartialEq, Eq, Structural, Debug)]
pub enum AddTextureError {
    /// The texture is `width` by `height` pixels, and the layers of the array are only `max_width` by `max_height`.
    IncorrectDimensionsFail { width: u32, height: u32, max_width: u32, max_height: u32 },
}

/// Collects the textures of a texture array whose layers are `width` by `height` pixels.
pub struct ArrayTextureDefBuilder {
    width: u32,
    height: u32,
    data: Vec<image::DynamicImage>,
}

impl ArrayTextureDefBuilder {
    /// The width of the layers.
    pub closed spec fn layer_width(&self) -> nat {
        self.width as nat
    }

    /// The height of the layers.
    pub closed spec fn layer_height(&self) -> nat {
        self.height as nat
    }

    /// The textures added so far, in the order of their layers.
    pub closed spec fn textures(&self) -> Seq<image::DynamicImage> {
        self.data@
    }

    /// A texture array of layers of `width` by `height` pixels, without textures.
    pub fn new(width: u32, height: u32) -> (r: Self)
        ensures
            r.layer_width() == width,
            r.layer_height() == height,
            r.textures().len() == 0,
    {
        Self { width, height, data: Vec::new() }
    }

    /// The number of textures added so far.
    pub fn texture_count(&self) -> (r: usize)
        ensures
            r == self.textures().len(),
    {
        self.data.len()
    }

    /// Adds the texture `data`, which is `width` by `height` pixels, as the next layer and returns the index of
    /// that layer; or refuses it, leaving the array as it was, when it is wider or higher than the layers.
    pub fn add_texture_of_size(&mut self, data: image::DynamicImage, width: u32, height: u32) -> (r: Result<
        TextureIdx,
        AddTextureError,
    >)
        requires
            old(self).textures().len() <= u16::MAX,
        ensures
            final(self).layer_width() == old(self).layer_width(),
            final(self).layer_height() == old(self).layer_height(),
            texture_added(
                old(self).textures(),
                old(self).layer_width(),
                old(self).layer_height(),
                data,
                width,
                height,
                r,
                final(self).textures(),
            ),
    {
        if self.width < width || self.height < height {
            return Err(
                AddTextureError::IncorrectDimensionsFail {
                    width,
                    height,
                    max_width: self.width,
                    max_height: self.height,
                },
            );
        }
        let idx = TextureIdx(self.data.len() as u16);
        self.data.push(data);
        Ok(idx)
    }

    /// Adds the texture `data` as the next layer and returns the index of that layer; or refuses it, leaving the
    /// array as it was, when it is wider or higher than the layers.
    pub fn add_texture(&mut self, data: image::DynamicImage) -> (r: Result<TextureIdx, AddTextureError>)
        requires
            old(self).textures().len() <= u16::MAX,
        ensures
            final(self).layer_width() == old(self).layer_width(),
            final(self).layer_height() == old(self).layer_height(),
            texture_added(
                old(self).textures(),
                old(self).layer_width(),
                old(self).layer_height(),
                data,
                image_size(data).0,
                image_size(data).1,
                r,
                final(self).textures(),
            ),
    {
        let (width, height) = image_dimensions(&data);
        self.add_texture_of_size(data, width, height)
    }
}

/// Adding the texture `data` of `width` by `height` pixels to the textures `before` of an array of layers of
/// `layer_width` by `layer_height` pixels returned `r` and left the textures `after`: a texture wider or higher
/// than the layers is refused with its size and the layers' size, and leaves the textures as they were; any other
/// is appended, and its index is the number of textures before it.
pub open spec fn texture_added(
    before: Seq<image::DynamicImage>,
    layer_width: nat,
    layer_height: nat,
    data: image::DynamicImage,
    width: u32,
    height: u32,
    r: Result<TextureIdx, AddTextureError>,
    after: Seq<image::DynamicImage>,
) -> bool {
    if layer_width < width || layer_height < height {
        &&& r == Err::<TextureIdx, AddTextureError>(
            AddTextureError::IncorrectDimensionsFail {
                width,
                height,
                max_width: layer_width as u32,
                max_height: layer_height as u32,
            },
        )
        &&& after == before
    } else {
        &&& r is Ok
        &&& r->Ok_0@ == before.len()
        &&& after == before.push(data)
    }
}

} // verus!
