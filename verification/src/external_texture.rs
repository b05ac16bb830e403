//! An element that paints a texture made outside the renderer.
//!
//! The view that the renderer samples is made by the texture's device, which the
//! caller reaches.
use vstd::prelude::*;

use crate::geometry::{DevicePixels, Size};

verus! {

/// How a texture fits within the bounds of the element that shows it.
#[derive(Clone, Copy, Debug, PartialEq, Eq, Structural)]
pub enum ObjectFit {
    /// Stretched to fill the bounds.
    Fill,
    /// As large as the bounds allow without being cut.
    Contain,
    /// As small as covers the bounds.
    Cover,
    /// Contained, but never enlarged.
    ScaleDown,
    /// At its own size.
    Unscaled,
}

/// A texture of `wgpu`.
#[verifier::external_type_specification]
#[verifier::external_body]
pub struct ExTexture(wgpu::Texture);

/// A view of a `wgpu` texture.
#[verifier::external_type_specification]
#[verifier::external_body]
pub struct ExTextureView(wgpu::TextureView);

/// The width and the height that a texture was made with, as
/// `wgpu::Texture::size` gives them.
pub uninterp spec fn texture_extent(texture: wgpu::Texture) -> (u32, u32);

/// `wgpu::Texture::size` reads the width and the height out of the descriptor
/// that the texture was made with, and these never change. The depth is left out.
#[verifier::external_body]
fn extent(texture: &wgpu::Texture) -> (extent: (u32, u32))
    ensures
        extent == texture_extent(*texture),
{
    let extent = texture.size();
    (extent.width, extent.height)
}

/// The number that 32 bits stand for when the highest is a sign.
pub open spec fn with_sign(number: u32) -> i32 {
    if number <= i32::MAX {
        number as i32
    } else {
        (number - 0x1_0000_0000) as i32
    }
}

/// The size of a texture in device pixels.
pub open spec fn size_of_extent(extent: (u32, u32)) -> Size {
    Size {
        width: DevicePixels(with_sign(extent.0)),
        height: DevicePixels(with_sign(extent.1)),
    }
}

/// An element that paints a texture.
pub struct ExternalTexture {
    handle: wgpu::TextureView,
    size: Size,
    object_fit: ObjectFit,
}

/// Makes an element that paints a texture, contained in the element's bounds.
/// `view` has the device make the view of the texture that is sampled.
pub fn external_texture<V: FnOnce(&wgpu::Texture) -> wgpu::TextureView>(
    texture: wgpu::Texture,
    view: V,
) -> (element: ExternalTexture)
    requires
        call_requires(view, (&texture,)),
    ensures
        call_ensures(view, (&texture,), element.spec_handle()),
        element.spec_size() == size_of_extent(texture_extent(texture)),
        element.spec_fit() == ObjectFit::Contain,
{
    let extent = extent(&texture);
    ExternalTexture::new(view(&texture), extent.0, extent.1)
}

impl ExternalTexture {
    /// What the renderer samples.
    pub closed spec fn spec_handle(&self) -> wgpu::TextureView {
        self.handle
    }

    /// The size of the texture.
    pub closed spec fn spec_size(&self) -> Size {
        self.size
    }

    /// How the texture fits.
    pub closed spec fn spec_fit(&self) -> ObjectFit {
        self.object_fit
    }

    /// Makes an element that paints what a view shows of a texture of the given
    /// extent.
    pub fn new(handle: wgpu::TextureView, width: u32, height: u32) -> (element: Self)
        ensures
            element.spec_handle() == handle,
            element.spec_size() == size_of_extent((width, height)),
            element.spec_fit() == ObjectFit::Contain,
    {
        proof {
            lemma_with_sign(width);
            lemma_with_sign(height);
        }
        ExternalTexture {
            handle,
            size: Size {
                width: DevicePixels(#[verifier::truncate] (width as i32)),
                height: DevicePixels(#[verifier::truncate] (height as i32)),
            },
            object_fit: ObjectFit::Contain,
        }
    }

    /// Sets how the texture fits within the element's bounds.
    pub fn object_fit(self, object_fit: ObjectFit) -> (element: Self)
        ensures
            element.spec_handle() == self.spec_handle(),
            element.spec_size() == self.spec_size(),
            element.spec_fit() == object_fit,
    {
        ExternalTexture { handle: self.handle, size: self.size, object_fit }
    }

    /// What the renderer samples.
    pub fn handle(&self) -> (handle: &wgpu::TextureView)
        ensures
            *handle == self.spec_handle(),
    {
        &self.handle
    }

    /// The size of the texture.
    pub fn size(&self) -> (size: Size)
        ensures
            size == self.spec_size(),
    {
        self.size
    }

    /// How the texture fits within the element's bounds.
    pub fn fit(&self) -> (fit: ObjectFit)
        ensures
            fit == self.spec_fit(),
    {
        self.object_fit
    }
}

proof fn lemma_with_sign(number: u32)
    ensures
        number as i32 == with_sign(number),
{
    assert(number <= 0x7fff_ffff ==> number as i32 == number) by (bit_vector);
    assert(number > 0x7fff_ffff ==> number as i32 == number - 0x1_0000_0000) by (bit_vector);
}

} // verus!
