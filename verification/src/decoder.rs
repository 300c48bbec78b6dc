//! AVIF decoder: holds the input, walks its boxes and hands out images.

use vstd::prelude::*;
use crate::avif_image::{AvifImage, ColorRange, PixelFormat, ChromaSamplePosition, chroma_height, chroma_width};
use crate::bmff::parser::{box_walk, file_context, lemma_box_at_bounds, Parser};
use crate::error::{reported, DecodeError, Error, Failure, ParameterError, Result};
use vstd::slice::slice_to_vec;

verus! {

/// AVIF decoder source.
#[derive(Debug, Clone, Copy, PartialEq, Eq, Structural)]
pub enum DecoderSource {
    /// Automatically determine the source.
    Auto,
    /// Use the primary item.
    PrimaryItem,
    /// Use the tracks.
    Tracks,
}

/// AVIF decoder.
#[derive(Debug)]
pub struct Decoder {
    /// Maximum number of threads to use.
    pub max_threads: u32,
    /// Image size limit.
    pub image_size_limit: u32,
    /// Image dimension limit.
    pub image_dimension_limit: u32,
    /// Image count limit.
    pub image_count_limit: u32,
    /// Strict flags.
    pub strict_flags: u32,
    /// Requested source.
    pub requested_source: DecoderSource,
    /// Whether to ignore EXIF metadata.
    pub ignore_exif: bool,
    /// Whether to ignore XMP metadata.
    pub ignore_xmp: bool,
    /// Whether to allow progressive images.
    pub allow_progressive: bool,
    /// Whether to allow incremental decoding.
    pub allow_incremental: bool,
    /// Input data.
    data: Vec<u8>,
    /// Current image index.
    current_image_index: usize,
    /// Total number of images.
    image_count: usize,
}

/// Every box is passed over: a walk with this step only checks the box headers.
pub open spec fn pass_step(a: (), t: Seq<u8>, pl: Seq<u8>) -> core::result::Result<(), Failure> {
    Ok(a)
}

/// `pass_step` as a value.
pub open spec fn pass_step_fn() -> spec_fn((), Seq<u8>, Seq<u8>) -> core::result::Result<(), Failure> {
    |a: (), t: Seq<u8>, pl: Seq<u8>| pass_step(a, t, pl)
}

/// The boxes of `d` all have readable headers that fit; else the first
/// error, reported with the context of the file's parser.
pub open spec fn boxes_check(d: Seq<u8>) -> core::result::Result<(), Failure> {
    box_walk(d, 0, (), pass_step_fn(), file_context())
}

impl Decoder {
    /// The input data.
    pub closed spec fn input(&self) -> Seq<u8> {
        self.data@
    }

    /// How many images have been handed out.
    pub closed spec fn index(&self) -> int {
        self.current_image_index as int
    }

    /// How many images the input holds, as far as parsing has found.
    pub closed spec fn count(&self) -> int {
        self.image_count as int
    }

    /// The decoder's bookkeeping: at most one image is found, and no more are
    /// handed out than are found.
    pub closed spec fn wf(&self) -> bool {
        self.current_image_index <= self.image_count <= 1
    }

    /// The settings have their default values.
    pub closed spec fn has_default_settings(&self) -> bool {
        &&& self.max_threads == 1
        &&& self.image_size_limit == 16777216
        &&& self.image_dimension_limit == 32768
        &&& self.image_count_limit == 100000
        &&& self.strict_flags == 0
        &&& self.requested_source == DecoderSource::Auto
        &&& !self.ignore_exif
        &&& !self.ignore_xmp
        &&& !self.allow_progressive
        &&& !self.allow_incremental
    }

    /// The settings are those of `other`.
    pub closed spec fn same_settings(&self, other: &Decoder) -> bool {
        &&& self.max_threads == other.max_threads
        &&& self.image_size_limit == other.image_size_limit
        &&& self.image_dimension_limit == other.image_dimension_limit
        &&& self.image_count_limit == other.image_count_limit
        &&& self.strict_flags == other.strict_flags
        &&& self.requested_source == other.requested_source
        &&& self.ignore_exif == other.ignore_exif
        &&& self.ignore_xmp == other.ignore_xmp
        &&& self.allow_progressive == other.allow_progressive
        &&& self.allow_incremental == other.allow_incremental
    }

    /// Create a new decoder: default settings, no input, no images.
    pub fn new() -> (r: Self)
        ensures
            r.wf(),
            r.has_default_settings(),
            r.input().len() == 0,
            r.index() == 0,
            r.count() == 0,
    {
        Self {
            max_threads: 1,
            image_size_limit: 16777216,
            image_dimension_limit: 32768,
            image_count_limit: 100000,
            strict_flags: 0,
            requested_source: DecoderSource::Auto,
            ignore_exif: false,
            ignore_xmp: false,
            allow_progressive: false,
            allow_incremental: false,
            data: Vec::new(),
            current_image_index: 0,
            image_count: 0,
        }
    }

    /// Set the input data: a copy of `data`, with no images found or handed out yet.
    pub fn set_io_data(&mut self, data: &[u8]) -> (r: Result<()>)
        ensures
            r is Ok,
            final(self).wf(),
            final(self).same_settings(old(self)),
            final(self).input() == data@,
            final(self).index() == 0,
            final(self).count() == 0,
    {
        self.data = slice_to_vec(data);
        self.current_image_index = 0;
        self.image_count = 0;
        Ok(())
    }

    /// Parse the input data: refused without input; else every box header is
    /// read, and the first error stops the parse; then the input counts as one
    /// image.
    pub fn parse(&mut self) -> (r: Result<()>)
        ensures
            old(self).wf() ==> final(self).wf(),
            final(self).same_settings(old(self)),
            final(self).input() == old(self).input(),
            final(self).index() == old(self).index(),
            old(self).input().len() == 0 ==> (r matches Err(Error::InvalidParameter(ParameterError::NoInputData)))
                && final(self).count() == old(self).count(),
            old(self).input().len() > 0 ==> match boxes_check(old(self).input()) {
                Err(f) => (r matches Err(x) && reported(x, f)) && final(self).count() == old(self).count(),
                Ok(_) => r is Ok && final(self).count() == 1,
            },
    {
        if self.data.len() == 0 {
            return Err(Error::InvalidParameter(ParameterError::NoInputData));
        }
        let ghost d = self.data@;
        let mut parser = Parser::new(self.data.as_slice());
        while parser.has_more()
            invariant
                parser.inv(),
                parser.bytes() == d,
                d == old(self).input(),
                d.len() > 0,
                *self == *old(self),
                parser.context_text() == file_context(),
                boxes_check(d) == box_walk(d, parser.pos(), (), pass_step_fn(), file_context()),
            decreases d.len() - parser.pos(),
        {
            let ghost p = parser.pos();
            proof { lemma_box_at_bounds(d, p); }
            let _ = parser.next_box()?;
        }
        self.image_count = 1;
        Ok(())
    }

    /// Decode the next image: refused once every image has been handed out;
    /// else a 1 by 1 image of depth 8 in 4:2:0 with its colour planes allocated.
    pub fn next_image(&mut self) -> (r: Result<AvifImage>)
        ensures
            old(self).wf() ==> final(self).wf(),
            final(self).same_settings(old(self)),
            final(self).input() == old(self).input(),
            final(self).count() == old(self).count(),
            old(self).index() >= old(self).count() ==> (r matches Err(Error::Decode(DecodeError::NoMoreImages)))
                && final(self).index() == old(self).index(),
            old(self).index() < old(self).count() ==> final(self).index() == old(self).index() + 1 && (
            r matches Ok(img) && {
                &&& img.width == 1
                &&& img.height == 1
                &&& img.depth == 8
                &&& img.yuv_format == PixelFormat::Yuv420
                &&& img.yuv_range == ColorRange::Full
                &&& img.yuv_chroma_sample_position == ChromaSamplePosition::Unknown
                &&& AvifImage::allocated(img.y_plane, 1, 1, 8)
                &&& AvifImage::allocated(img.u_plane, 0, 0, 8)
                &&& AvifImage::allocated(img.v_plane, 0, 0, 8)
                &&& img.alpha_plane is None
                &&& !img.alpha_premultiplied
                &&& img.icc@.len() == 0
                &&& img.exif@.len() == 0
                &&& img.xmp@.len() == 0
            }),
    {
        if self.current_image_index >= self.image_count {
            return Err(Error::Decode(DecodeError::NoMoreImages));
        }
        self.current_image_index = self.current_image_index + 1;
        let mut image = AvifImage::new();
        image.width = 1;
        image.height = 1;
        image.depth = 8;
        image.allocate_planes(7)?;
        assert(chroma_width(PixelFormat::Yuv420, 1) == 0 && chroma_height(PixelFormat::Yuv420, 1) == 0);
        Ok(image)
    }

    /// Get the number of images.
    pub fn image_count(&self) -> (r: usize)
        ensures
            r == self.count(),
    {
        self.image_count
    }

    /// Get the current image index.
    pub fn current_image_index(&self) -> (r: usize)
        ensures
            r == self.index(),
    {
        self.current_image_index
    }
}

/// In a decoder that only the library's functions have changed, the index
/// never passes the image count (at most one); so once every image has been
/// handed out, `next_image` refuses every further call with `NoMoreImages`
/// and leaves the index where it is.
pub proof fn lemma_images_bounded(dec: &Decoder)
    requires
        dec.wf(),
    ensures
        0 <= dec.index() <= dec.count() <= 1,
{
}

impl Default for Decoder {
    fn default() -> (r: Self)
        ensures
            r.wf(),
            r.has_default_settings(),
            r.input().len() == 0,
            r.index() == 0,
            r.count() == 0,
    {
        Self::new()
    }
}

} // verus!
