//! Bookkeeping of the training preview texture: when it is made again, and
//! which uploaded images it accepts.
use vstd::prelude::*;

verus! {

/// Size of the preview texture and the generation of the image it holds.
#[derive(Clone, Copy, Debug, PartialEq, Eq, Structural)]
pub struct TrainingPreviewRenderTarget {
    pub width: u32,
    pub height: u32,
    pub has_texture: bool,
    pub last_generation: u64,
}

/// Why an image was not uploaded.
#[derive(Clone, Copy, Debug, PartialEq, Eq, Structural)]
pub enum PreviewUploadError {
    /// This generation was uploaded already.
    SameGeneration,
    /// There is no texture yet.
    NoTexture,
    /// The image is not the size of the texture.
    SizeMismatch,
    /// The data is not four bytes per pixel.
    ByteCountMismatch,
}

impl Default for TrainingPreviewRenderTarget {
    fn default() -> (r: Self)
        ensures
            r == (TrainingPreviewRenderTarget { width: 0, height: 0, has_texture: false, last_generation: 0 }),
    {
        TrainingPreviewRenderTarget { width: 0, height: 0, has_texture: false, last_generation: 0 }
    }
}

impl TrainingPreviewRenderTarget {
    /// Makes the texture `width` by `height` unless it is already; an empty
    /// size makes none. Returns whether a new texture is needed.
    pub fn ensure_texture(&mut self, width: u32, height: u32) -> (recreate: bool)
        ensures
            recreate == (!(old(self).has_texture && old(self).width == width && old(self).height == height)
                && width != 0 && height != 0),
            recreate ==> *final(self) == (TrainingPreviewRenderTarget {
                width,
                height,
                has_texture: true,
                ..*old(self)
            }),
            !recreate ==> *final(self) == *old(self),
    {
        if self.has_texture && self.width == width && self.height == height {
            return false;
        }
        if width == 0 || height == 0 {
            return false;
        }
        self.width = width;
        self.height = height;
        self.has_texture = true;
        true
    }

    /// Accepts an RGBA8 image of `byte_count` bytes for upload, and records its
    /// generation; the first failing check (in the order of the error variants)
    /// is reported and nothing changes.
    pub fn accept_upload(&mut self, byte_count: usize, width: u32, height: u32, generation: u64) -> (r: Result<(), PreviewUploadError>)
        ensures
            r == if generation == old(self).last_generation {
                Err::<(), PreviewUploadError>(PreviewUploadError::SameGeneration)
            } else if !old(self).has_texture {
                Err(PreviewUploadError::NoTexture)
            } else if old(self).width != width || old(self).height != height {
                Err(PreviewUploadError::SizeMismatch)
            } else if byte_count != 4 * (width as int) * (height as int) {
                Err(PreviewUploadError::ByteCountMismatch)
            } else {
                Ok(())
            },
            r is Ok ==> *final(self) == (TrainingPreviewRenderTarget { last_generation: generation, ..*old(self) }),
            r is Err ==> *final(self) == *old(self),
    {
        if generation == self.last_generation {
            return Err(PreviewUploadError::SameGeneration);
        }
        if !self.has_texture {
            return Err(PreviewUploadError::NoTexture);
        }
        if self.width != width || self.height != height {
            return Err(PreviewUploadError::SizeMismatch);
        }
        assert((width as int) * (height as int) <= 0xffff_ffff * 0xffff_ffff) by (nonlinear_arith)
            requires
                width <= 0xffff_ffffu32,
                height <= 0xffff_ffffu32,
        ;
        let pixels: u128 = (width as u128) * (height as u128);
        let expected: u128 = 4 * pixels;
        assert(expected == 4 * (width as int) * (height as int)) by (nonlinear_arith)
            requires
                expected == 4 * pixels,
                pixels == (width as int) * (height as int),
        ;
        if byte_count as u128 != expected {
            return Err(PreviewUploadError::ByteCountMismatch);
        }
        self.last_generation = generation;
        Ok(())
    }

    /// Whether the preview can be drawn.
    pub fn is_ready(&self) -> (r: bool)
        ensures
            r == self.has_texture,
    {
        self.has_texture
    }
}

} // verus!
