//! What is decided about the surface of a window: the format it is given,
//! and its size as the window changes.

use vstd::prelude::*;

verus! {

/// How many frames may wait for the display at most.
pub const FRAME_LATENCY: u32 = 2;

/// The size of a window in physical pixels.
#[derive(Debug, Clone, Copy, PartialEq, Eq, Structural)]
pub struct PhysicalSize {
    pub width: u32,
    pub height: u32,
}

impl PhysicalSize {
    pub fn new(width: u32, height: u32) -> (size: Self)
        ensures
            size == (PhysicalSize { width, height }),
    {
        PhysicalSize { width, height }
    }

    /// Whether a surface of this size has no pixel.
    pub open spec fn is_empty(self) -> bool {
        self.width == 0 || self.height == 0
    }
}

/// How the surface of a window is set up: the place of its format among
/// the formats that the surface offers, its size, and the frame latency.
#[derive(Debug, Clone, Copy, PartialEq, Eq, Structural)]
pub struct SurfaceConfiguration {
    pub format: usize,
    pub width: u32,
    pub height: u32,
    pub desired_maximum_frame_latency: u32,
}

/// Whether `index` is the format to take where `srgb` tells, for each format
/// that a surface offers, whether it is an sRGB format: the first sRGB
/// format, or the first format of all where none is sRGB.
pub open spec fn is_preferred_format(srgb: Seq<bool>, index: int) -> bool {
    &&& 0 <= index < srgb.len()
    &&& forall|earlier: int| 0 <= earlier < index ==> !srgb[earlier]
    &&& !srgb[index] ==> index == 0 && forall|other: int| 0 <= other < srgb.len() ==> !srgb[other]
}

/// At most one format is preferred.
pub proof fn lemma_preferred_format_is_unique(srgb: Seq<bool>, a: int, b: int)
    requires
        is_preferred_format(srgb, a),
        is_preferred_format(srgb, b),
    ensures
        a == b,
{
}

/// Picks the format of a surface among those it offers.
pub fn choose_surface_format(srgb: &Vec<bool>) -> (index: usize)
    requires
        srgb.len() > 0,
    ensures
        is_preferred_format(srgb@, index as int),
{
    let count: usize = srgb.len();
    let mut index: usize = 0;
    while index < count
        invariant
            count == srgb.len(),
            index <= count,
            forall|earlier: int| 0 <= earlier < index ==> !srgb@[earlier],
        decreases count - index,
    {
        if srgb[index] {
            return index;
        }
        index = index + 1;
    }
    0
}

#[verifier::external_type_specification]
#[verifier::external_body]
pub struct ExTextureFormat(wgpu::TextureFormat);

/// Whether `wgpu` calls a format an sRGB format.
pub uninterp spec fn format_is_srgb(format: wgpu::TextureFormat) -> bool;

/// `wgpu::TextureFormat::is_srgb`.
///
/// Trusted: the answer depends on the format alone, so it has the name
/// `format_is_srgb`. Which formats are sRGB formats is for `wgpu` to say and
/// is not claimed here.
#[verifier::external_body]
fn is_srgb(format: &wgpu::TextureFormat) -> (srgb: bool)
    ensures
        srgb == format_is_srgb(*format),
{
    format.is_srgb()
}

/// For each of `formats`, whether it is an sRGB format.
pub open spec fn srgb_flags(formats: Seq<wgpu::TextureFormat>) -> Seq<bool> {
    Seq::new(formats.len(), |i: int| format_is_srgb(formats[i]))
}

/// Picks the format of a surface among the formats it offers: the place of
/// the first that `wgpu` calls an sRGB format, or of the first of all.
pub fn preferred_surface_format(formats: &Vec<wgpu::TextureFormat>) -> (index: usize)
    requires
        formats.len() > 0,
    ensures
        is_preferred_format(srgb_flags(formats@), index as int),
{
    let count: usize = formats.len();
    let mut srgb: Vec<bool> = Vec::new();
    let mut next: usize = 0;
    while next < count
        invariant
            count == formats.len(),
            next <= count,
            srgb.len() == next,
            forall|i: int| 0 <= i < next ==> srgb@[i] == format_is_srgb(formats@[i]),
        decreases count - next,
    {
        srgb.push(is_srgb(&formats[next]));
        next = next + 1;
    }
    assert(srgb@ =~= srgb_flags(formats@));
    choose_surface_format(&srgb)
}

/// The surface of a window, as far as its setup goes.
#[derive(Debug)]
pub struct WgpuWindow {
    config: SurfaceConfiguration,
    size: PhysicalSize,
}

impl WgpuWindow {
    /// The setup of the surface.
    pub closed spec fn config(&self) -> SurfaceConfiguration {
        self.config
    }

    /// The size of the window as it was last taken over.
    pub closed spec fn size(&self) -> PhysicalSize {
        self.size
    }

    /// The surface of a new window of `window_size`, with the format at place
    /// `format` among those that the surface offers.
    pub fn with_format(window_size: PhysicalSize, format: usize) -> (window: Self)
        ensures
            window.config() == (SurfaceConfiguration {
                format,
                width: window_size.width,
                height: window_size.height,
                desired_maximum_frame_latency: FRAME_LATENCY,
            }),
            window.size() == window_size,
    {
        WgpuWindow {
            config: SurfaceConfiguration {
                format,
                width: window_size.width,
                height: window_size.height,
                desired_maximum_frame_latency: FRAME_LATENCY,
            },
            size: window_size,
        }
    }

    /// The surface of a new window of `window_size` that offers `formats`:
    /// it gets the preferred format among them.
    pub fn new(window_size: PhysicalSize, formats: &Vec<wgpu::TextureFormat>) -> (window: Self)
        requires
            formats.len() > 0,
        ensures
            is_preferred_format(srgb_flags(formats@), window.config().format as int),
            window.config().width == window_size.width,
            window.config().height == window_size.height,
            window.config().desired_maximum_frame_latency == FRAME_LATENCY,
            window.size() == window_size,
    {
        Self::with_format(window_size, preferred_surface_format(formats))
    }

    pub fn surface_config(&self) -> (config: &SurfaceConfiguration)
        ensures
            *config == self.config(),
    {
        &self.config
    }

    /// Takes over a new size of the window and says whether the surface is to
    /// be set up again. A size without pixels is passed over: nothing changes.
    pub fn resize(&mut self, new_size: PhysicalSize) -> (reconfigure: bool)
        ensures
            reconfigure == !new_size.is_empty(),
            reconfigure ==> final(self).size() == new_size && final(self).config() == (
            SurfaceConfiguration {
                width: new_size.width,
                height: new_size.height,
                ..old(self).config()
            }),
            !reconfigure ==> *final(self) == *old(self),
    {
        if new_size.width == 0 || new_size.height == 0 {
            return false;
        }
        self.size = new_size;
        self.config.width = new_size.width;
        self.config.height = new_size.height;
        true
    }
}

} // verus!
