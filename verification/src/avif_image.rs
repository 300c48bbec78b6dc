//! AVIF image representation: pixel format, planes and metadata.

use vstd::prelude::*;
use crate::error::{Error, ParameterError, Result};
use crate::io::zeros;
use crate::memory::RwData;

verus! {

/// AVIF pixel format.
#[derive(Debug, Clone, Copy, PartialEq, Eq, Structural)]
pub enum PixelFormat {
    /// YUV format with 4:4:4 chroma subsampling.
    Yuv444,
    /// YUV format with 4:2:2 chroma subsampling.
    Yuv422,
    /// YUV format with 4:2:0 chroma subsampling.
    Yuv420,
    /// Monochrome format.
    Monochrome,
}

/// AVIF color range.
#[derive(Debug, Clone, Copy, PartialEq, Eq, Structural)]
pub enum ColorRange {
    /// Limited range (16-235 for 8-bit).
    Limited,
    /// Full range (0-255 for 8-bit).
    Full,
}

/// AVIF chroma sample position.
#[derive(Debug, Clone, Copy, PartialEq, Eq, Structural)]
pub enum ChromaSamplePosition {
    /// Unknown chroma sample position.
    Unknown,
    /// Horizontally co-located with luma samples, vertically centered between luma samples.
    Vertical,
    /// Co-located with luma samples.
    Colocated,
}

/// AVIF image plane.
#[derive(Debug)]
pub struct Plane {
    /// Plane data.
    pub data: Vec<u8>,
    /// Plane row bytes.
    pub row_bytes: usize,
    /// Plane width.
    pub width: usize,
    /// Plane height.
    pub height: usize,
}

/// Bytes per sample at the given bit depth: two above 8 bits, else one.
pub open spec fn bytes_per_sample(depth: int) -> int {
    if depth > 8 { 2 } else { 1 }
}

/// A sample takes the fewest whole bytes that hold its bits: for depths 1 to 16,
/// `bytes_per_sample` bytes hold `depth` bits and one byte fewer would not.
pub proof fn lemma_sample_bytes(depth: int)
    requires
        1 <= depth <= 16,
    ensures
        depth <= 8 * bytes_per_sample(depth),
        8 * (bytes_per_sample(depth) - 1) < depth,
{
}

/// The number of bytes of a plane of the given size and depth.
pub open spec fn plane_bytes(width: int, height: int, depth: int) -> int {
    width * bytes_per_sample(depth) * height
}

/// A vector of `n` zero bytes.
fn zeroed(n: usize) -> (v: Vec<u8>)
    ensures
        v@ == zeros(n as nat),
{
    let mut v: Vec<u8> = Vec::new();
    while v.len() < n
        invariant
            v.len() <= n,
            v@ == zeros(v.len() as nat),
        decreases n - v.len(),
    {
        v.push(0);
        assert(v@ =~= zeros(v.len() as nat));
    }
    v
}

impl Plane {
    /// The plane is empty: no data and no size.
    pub open spec fn is_empty_plane(&self) -> bool {
        &&& self.data@.len() == 0
        &&& self.row_bytes == 0
        &&& self.width == 0
        &&& self.height == 0
    }

    /// The plane holds zeroed samples for this size and depth, one row after another.
    pub open spec fn is_allocated(&self, width: int, height: int, depth: int) -> bool {
        &&& self.width == width
        &&& self.height == height
        &&& self.row_bytes == width * bytes_per_sample(depth)
        &&& self.data@ == zeros((width * bytes_per_sample(depth) * height) as nat)
    }

    /// Create a new empty plane.
    pub fn new() -> (r: Self)
        ensures
            r.is_empty_plane(),
    {
        Self { data: Vec::new(), row_bytes: 0, width: 0, height: 0 }
    }

    /// Allocate plane data: zeroed samples of one byte up to depth 8, else two.
    pub fn allocate(&mut self, width: usize, height: usize, depth: usize) -> (r: Result<()>)
        requires
            width * bytes_per_sample(depth as int) <= usize::MAX,
            plane_bytes(width as int, height as int, depth as int) <= usize::MAX,
        ensures
            r is Ok,
            final(self).is_allocated(width as int, height as int, depth as int),
    {
        self.width = width;
        self.height = height;
        let bytes_per_pixel: usize = if depth > 8 { 2 } else { 1 };
        self.row_bytes = width * bytes_per_pixel;
        self.data = zeroed(self.row_bytes * height);
        Ok(())
    }
}

impl Default for Plane {
    fn default() -> (r: Self)
        ensures
            r.is_empty_plane(),
    {
        Self::new()
    }
}

/// AVIF image.
#[derive(Debug)]
pub struct AvifImage {
    /// Image width.
    pub width: u32,
    /// Image height.
    pub height: u32,
    /// Image depth.
    pub depth: u32,
    /// YUV format.
    pub yuv_format: PixelFormat,
    /// YUV range.
    pub yuv_range: ColorRange,
    /// YUV chroma sample position.
    pub yuv_chroma_sample_position: ChromaSamplePosition,
    /// Y plane.
    pub y_plane: Option<Plane>,
    /// U plane.
    pub u_plane: Option<Plane>,
    /// V plane.
    pub v_plane: Option<Plane>,
    /// Alpha plane.
    pub alpha_plane: Option<Plane>,
    /// Whether alpha is premultiplied.
    pub alpha_premultiplied: bool,
    /// ICC profile.
    pub icc: RwData,
    /// EXIF metadata.
    pub exif: RwData,
    /// XMP metadata.
    pub xmp: RwData,
}

/// A plane mask asks for the colour planes when one of its three low bits is set.
pub open spec fn wants_color(mask: u32) -> bool {
    mask % 8 != 0
}

/// A plane mask asks for the alpha plane when its bit of value 8 is set.
pub open spec fn wants_alpha(mask: u32) -> bool {
    (mask / 8) % 2 == 1
}

/// The width of the chroma planes: halved in 4:2:2 and 4:2:0.
pub open spec fn chroma_width(format: PixelFormat, width: int) -> int {
    match format {
        PixelFormat::Yuv422 | PixelFormat::Yuv420 => width / 2,
        _ => width,
    }
}

/// The height of the chroma planes: halved in 4:2:0.
pub open spec fn chroma_height(format: PixelFormat, height: int) -> int {
    match format {
        PixelFormat::Yuv420 => height / 2,
        _ => height,
    }
}

/// Chroma subsampling: in 4:4:4 the chroma planes are as wide and as high as the
/// image; in 4:2:2 they are half as wide, rounded down, and as high; in 4:2:0 half
/// as wide and half as high, both rounded down.
pub proof fn lemma_chroma_subsampling(width: int, height: int)
    requires
        0 <= width,
        0 <= height,
    ensures
        chroma_width(PixelFormat::Yuv444, width) == width,
        chroma_height(PixelFormat::Yuv444, height) == height,
        2 * chroma_width(PixelFormat::Yuv422, width) <= width < 2 * chroma_width(PixelFormat::Yuv422, width) + 2,
        chroma_height(PixelFormat::Yuv422, height) == height,
        2 * chroma_width(PixelFormat::Yuv420, width) <= width < 2 * chroma_width(PixelFormat::Yuv420, width) + 2,
        2 * chroma_height(PixelFormat::Yuv420, height) <= height < 2 * chroma_height(PixelFormat::Yuv420, height) + 2,
{
}

/// A plane of this size and depth can be allocated: its row and its data fit in a `usize`.
pub open spec fn plane_fits(width: int, height: int, depth: int) -> bool {
    width * bytes_per_sample(depth) <= usize::MAX && plane_bytes(width, height, depth) <= usize::MAX
}

/// A smaller plane fits when a larger one does.
proof fn lemma_smaller_plane_fits(w: int, h: int, w2: int, h2: int, depth: int)
    requires
        0 <= w2 <= w,
        0 <= h2 <= h,
        plane_fits(w, h, depth),
    ensures
        plane_fits(w2, h2, depth),
{
    let b = bytes_per_sample(depth);
    assert(w2 * b <= w * b) by (nonlinear_arith)
        requires 0 <= w2 <= w, 1 <= b;
    assert(w2 * b * h2 <= w * b * h) by (nonlinear_arith)
        requires 0 <= w2 <= w, 0 <= h2 <= h, 1 <= b;
}

impl AvifImage {
    /// The plane is present and allocated for this size and depth.
    pub open spec fn allocated(p: Option<Plane>, width: int, height: int, depth: int) -> bool {
        p matches Some(q) && q.is_allocated(width, height, depth)
    }

    /// Everything but the planes is as in `other`.
    pub open spec fn same_but_planes(&self, other: &AvifImage) -> bool {
        &&& self.width == other.width
        &&& self.height == other.height
        &&& self.depth == other.depth
        &&& self.yuv_format == other.yuv_format
        &&& self.yuv_range == other.yuv_range
        &&& self.yuv_chroma_sample_position == other.yuv_chroma_sample_position
        &&& self.alpha_premultiplied == other.alpha_premultiplied
        &&& self.icc@ == other.icc@
        &&& self.exif@ == other.exif@
        &&& self.xmp@ == other.xmp@
    }

    /// The image has these dimensions and format, full range, an unknown chroma
    /// sample position, no planes, no premultiplied alpha and no metadata.
    pub open spec fn is_fresh(&self, width: u32, height: u32, depth: u32, format: PixelFormat) -> bool {
        &&& self.width == width
        &&& self.height == height
        &&& self.depth == depth
        &&& self.yuv_format == format
        &&& self.yuv_range == ColorRange::Full
        &&& self.yuv_chroma_sample_position == ChromaSamplePosition::Unknown
        &&& self.y_plane is None
        &&& self.u_plane is None
        &&& self.v_plane is None
        &&& self.alpha_plane is None
        &&& !self.alpha_premultiplied
        &&& self.icc@.len() == 0
        &&& self.exif@.len() == 0
        &&& self.xmp@.len() == 0
    }

    /// Create a new empty image: 0 by 0, depth 8, 4:2:0.
    pub fn new() -> (r: Self)
        ensures
            r.is_fresh(0, 0, 8, PixelFormat::Yuv420),
    {
        Self {
            width: 0,
            height: 0,
            depth: 8,
            yuv_format: PixelFormat::Yuv420,
            yuv_range: ColorRange::Full,
            yuv_chroma_sample_position: ChromaSamplePosition::Unknown,
            y_plane: None,
            u_plane: None,
            v_plane: None,
            alpha_plane: None,
            alpha_premultiplied: false,
            icc: RwData::new(),
            exif: RwData::new(),
            xmp: RwData::new(),
        }
    }

    /// Create a new image with the given dimensions and format: refused when a
    /// dimension is zero, or the depth is outside 1 to 16.
    pub fn with_params(width: u32, height: u32, depth: u32, yuv_format: PixelFormat) -> (r: Result<Self>)
        ensures
            width == 0 || height == 0 ==> r matches Err(Error::InvalidParameter(ParameterError::ZeroDimensions)),
            width != 0 && height != 0 && (depth == 0 || depth > 16) ==> r matches Err(
                Error::InvalidParameter(ParameterError::DepthOutOfRange),
            ),
            width != 0 && height != 0 && 1 <= depth <= 16 ==> (r matches Ok(img) && img.is_fresh(
                width,
                height,
                depth,
                yuv_format,
            )),
    {
        if width == 0 || height == 0 {
            return Err(Error::InvalidParameter(ParameterError::ZeroDimensions));
        }
        if depth == 0 || depth > 16 {
            return Err(Error::InvalidParameter(ParameterError::DepthOutOfRange));
        }
        Ok(Self {
            width,
            height,
            depth,
            yuv_format,
            yuv_range: ColorRange::Full,
            yuv_chroma_sample_position: ChromaSamplePosition::Unknown,
            y_plane: None,
            u_plane: None,
            v_plane: None,
            alpha_plane: None,
            alpha_premultiplied: false,
            icc: RwData::new(),
            exif: RwData::new(),
            xmp: RwData::new(),
        })
    }

    /// Allocate planes for the image: the Y plane, and the U and V planes unless
    /// monochrome, when the mask asks for colour; the alpha plane when it asks
    /// for alpha. Planes that are not asked for are left as they were.
    pub fn allocate_planes(&mut self, planes_mask: u32) -> (r: Result<()>)
        requires
            wants_color(planes_mask) || wants_alpha(planes_mask) ==> plane_fits(
                old(self).width as int,
                old(self).height as int,
                old(self).depth as int,
            ),
        ensures
            r is Ok,
            final(self).same_but_planes(old(self)),
            ({
                let w = old(self).width as int;
                let h = old(self).height as int;
                let d = old(self).depth as int;
                let f = old(self).yuv_format;
                &&& wants_color(planes_mask) ==> Self::allocated(final(self).y_plane, w, h, d)
                &&& !wants_color(planes_mask) ==> final(self).y_plane == old(self).y_plane
                &&& wants_color(planes_mask) && f != PixelFormat::Monochrome ==> {
                    &&& Self::allocated(final(self).u_plane, chroma_width(f, w), chroma_height(f, h), d)
                    &&& Self::allocated(final(self).v_plane, chroma_width(f, w), chroma_height(f, h), d)
                }
                &&& !(wants_color(planes_mask) && f != PixelFormat::Monochrome) ==> {
                    &&& final(self).u_plane == old(self).u_plane
                    &&& final(self).v_plane == old(self).v_plane
                }
                &&& wants_alpha(planes_mask) ==> Self::allocated(final(self).alpha_plane, w, h, d)
                &&& !wants_alpha(planes_mask) ==> final(self).alpha_plane == old(self).alpha_plane
            }),
    {
        let has_color = planes_mask % 8 != 0;
        let has_alpha = (planes_mask / 8) % 2 == 1;
        let width = self.width as usize;
        let height = self.height as usize;
        let depth = self.depth as usize;
        if has_color {
            let mut y_plane = Plane::new();
            y_plane.allocate(width, height, depth)?;
            self.y_plane = Some(y_plane);
            let chroma = match self.yuv_format {
                PixelFormat::Yuv444 => Some((width, height)),
                PixelFormat::Yuv422 => Some((width / 2, height)),
                PixelFormat::Yuv420 => Some((width / 2, height / 2)),
                PixelFormat::Monochrome => None,
            };
            if let Some((uv_width, uv_height)) = chroma {
                proof {
                    lemma_smaller_plane_fits(width as int, height as int, uv_width as int, uv_height as int, depth as int);
                }
                let mut u_plane = Plane::new();
                u_plane.allocate(uv_width, uv_height, depth)?;
                self.u_plane = Some(u_plane);
                let mut v_plane = Plane::new();
                v_plane.allocate(uv_width, uv_height, depth)?;
                self.v_plane = Some(v_plane);
            }
        }
        if has_alpha {
            let mut alpha_plane = Plane::new();
            alpha_plane.allocate(width, height, depth)?;
            self.alpha_plane = Some(alpha_plane);
        }
        Ok(())
    }

    /// Set the ICC profile.
    pub fn set_icc_profile(&mut self, icc: &[u8]) -> (r: Result<()>)
        ensures
            r is Ok,
            final(self).icc@ == icc@,
            final(self).exif@ == old(self).exif@,
            final(self).xmp@ == old(self).xmp@,
    {
        self.icc = RwData::from_slice(icc);
        Ok(())
    }

    /// Set the EXIF metadata.
    pub fn set_exif(&mut self, exif: &[u8]) -> (r: Result<()>)
        ensures
            r is Ok,
            final(self).exif@ == exif@,
            final(self).icc@ == old(self).icc@,
            final(self).xmp@ == old(self).xmp@,
    {
        self.exif = RwData::from_slice(exif);
        Ok(())
    }

    /// Set the XMP metadata.
    pub fn set_xmp(&mut self, xmp: &[u8]) -> (r: Result<()>)
        ensures
            r is Ok,
            final(self).xmp@ == xmp@,
            final(self).icc@ == old(self).icc@,
            final(self).exif@ == old(self).exif@,
    {
        self.xmp = RwData::from_slice(xmp);
        Ok(())
    }
}

impl Default for AvifImage {
    fn default() -> (r: Self)
        ensures
            r.is_fresh(0, 0, 8, PixelFormat::Yuv420),
    {
        Self::new()
    }
}

} // verus!
