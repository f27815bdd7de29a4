//! Interpretation of the capability record a driver reports for a
//! device/surface pair.

use vstd::prelude::*;

verus! {

/// A width and height in pixels.
#[derive(Clone, Copy, Debug, PartialEq, Eq, Structural)]
pub struct Extent2D {
    pub width: u32,
    pub height: u32,
}

/// The reserved format code that stands for "no format".
pub const FORMAT_UNDEFINED: u32 = 0;

/// The raw capability record exactly as the driver reports it.
#[derive(Clone, Copy, Debug)]
pub struct RawCapabilities {
    pub min_image_count: u32,
    /// A reported upper bound of 0 means the driver imposes no limit.
    pub max_image_count: u32,
    /// The all-ones sentinel in both dimensions means the platform does not
    /// fix the extent; the extent requested at configuration time is used.
    pub current_extent: Extent2D,
    pub min_image_extent: Extent2D,
    pub max_image_extent: Extent2D,
    pub max_image_array_layers: u32,
    pub supported_usage: u32,
    pub supported_composite_alpha: u32,
}

impl RawCapabilities {
    /// What a conforming driver guarantees of its own report: a nonzero
    /// upper image-count bound is never below the lower bound.
    pub open spec fn wf(self) -> bool {
        self.max_image_count == 0 || self.min_image_count <= self.max_image_count
    }
}

/// The interpreted capability record consumed by configuration.
#[derive(Clone, Copy, Debug, PartialEq, Eq, Structural)]
pub struct SurfaceCapabilities {
    pub min_image_count: u32,
    /// Never below `min_image_count`; `u32::MAX` when the driver reported
    /// "no limit".
    pub max_image_count: u32,
    /// `None` when the platform leaves the extent to the caller.
    pub current_extent: Option<Extent2D>,
    pub min_extent: Extent2D,
    pub max_extent: Extent2D,
    pub max_image_layers: u32,
    pub usage: u32,
    pub composite_alpha: u32,
}

/// A present mode the interpreted record can report.
#[derive(Clone, Copy, Debug, PartialEq, Eq, Structural)]
pub enum PresentMode {
    Immediate,
    Mailbox,
    Fifo,
    Relaxed,
    /// A mode code outside the table, carried verbatim rather than
    /// dropped: the driver's list is translated completely.
    Unrecognized(u32),
}

/// The complete translation table from a driver present-mode code.
pub open spec fn present_mode_of(code: u32) -> PresentMode {
    if code == 0 {
        PresentMode::Immediate
    } else if code == 1 {
        PresentMode::Mailbox
    } else if code == 2 {
        PresentMode::Fifo
    } else if code == 3 {
        PresentMode::Relaxed
    } else {
        PresentMode::Unrecognized(code)
    }
}

/// The format list with every code the translation table rejects dropped;
/// here the reserved undefined code is the one rejected.
pub open spec fn kept_formats(s: Seq<u32>) -> Seq<u32>
    decreases s.len(),
{
    if s.len() == 0 {
        Seq::empty()
    } else {
        let rest = kept_formats(s.drop_last());
        if s.last() != FORMAT_UNDEFINED {
            rest.push(s.last())
        } else {
            rest
        }
    }
}

/// Interpret the raw capability record.
///
/// An upper image-count bound of 0 is read as "unbounded" and becomes the
/// maximum representable count; the all-ones extent sentinel becomes
/// "extent not fixed by the platform". The reported image-count range
/// always satisfies `min <= max`.
pub fn interpret_capabilities(raw: &RawCapabilities) -> (caps: SurfaceCapabilities)
    requires
        raw.wf(),
    ensures
        caps.min_image_count == raw.min_image_count,
        caps.max_image_count == (if raw.max_image_count == 0 {
            u32::MAX
        } else {
            raw.max_image_count
        }),
        caps.min_image_count <= caps.max_image_count,
        caps.current_extent == (if raw.current_extent.width != u32::MAX
            && raw.current_extent.height != u32::MAX {
            Some(raw.current_extent)
        } else {
            None::<Extent2D>
        }),
        caps.min_extent == raw.min_image_extent,
        caps.max_extent == raw.max_image_extent,
        caps.max_image_layers == raw.max_image_array_layers,
        caps.usage == raw.supported_usage,
        caps.composite_alpha == raw.supported_composite_alpha,
{
    let max_image_count = if raw.max_image_count == 0 {
        u32::MAX
    } else {
        raw.max_image_count
    };
    let current_extent = if raw.current_extent.width != u32::MAX
        && raw.current_extent.height != u32::MAX {
        Some(raw.current_extent)
    } else {
        None
    };
    SurfaceCapabilities {
        min_image_count: raw.min_image_count,
        max_image_count,
        current_extent,
        min_extent: raw.min_image_extent,
        max_extent: raw.max_image_extent,
        max_image_layers: raw.max_image_array_layers,
        usage: raw.supported_usage,
        composite_alpha: raw.supported_composite_alpha,
    }
}

/// Interpret the format list the driver reports.
///
/// A list whose first entry is the undefined code means the surface has no
/// preferred format and any format is accepted, reported as `None`.
/// Otherwise the entries the translation table rejects are dropped.
pub fn interpret_formats(raw_formats: &Vec<u32>) -> (r: Option<Vec<u32>>)
    requires
        raw_formats@.len() >= 1,
    ensures
        (r is None) <==> raw_formats@[0] == FORMAT_UNDEFINED,
        (r matches Some(v) ==> v@ == kept_formats(raw_formats@)),
{
    if raw_formats[0] == FORMAT_UNDEFINED {
        return None;
    }
    let mut kept: Vec<u32> = Vec::new();
    let mut i: usize = 0;
    while i < raw_formats.len()
        invariant
            i <= raw_formats@.len(),
            kept@ == kept_formats(raw_formats@.take(i as int)),
        decreases raw_formats@.len() - i,
    {
        proof {
            assert(raw_formats@.take(i as int + 1).drop_last() =~= raw_formats@.take(i as int));
            assert(raw_formats@.take(i as int + 1).last() == raw_formats@[i as int]);
        }
        let f = raw_formats[i];
        if f != FORMAT_UNDEFINED {
            kept.push(f);
        }
        i = i + 1;
    }
    proof {
        assert(raw_formats@.take(raw_formats@.len() as int) =~= raw_formats@);
    }
    Some(kept)
}

/// Interpret the present-mode list the driver reports: a complete,
/// order-preserving translation, one entry per reported code, none
/// dropped or invented.
pub fn interpret_present_modes(raw_modes: &Vec<u32>) -> (r: Vec<PresentMode>)
    ensures
        r@.len() == raw_modes@.len(),
        forall|i: int|
            0 <= i < raw_modes@.len() ==> r@[i] == present_mode_of(#[trigger] raw_modes@[i]),
{
    let mut translated: Vec<PresentMode> = Vec::new();
    let mut i: usize = 0;
    while i < raw_modes.len()
        invariant
            i <= raw_modes@.len(),
            translated@.len() == i,
            forall|k: int|
                0 <= k < i ==> translated@[k] == present_mode_of(#[trigger] raw_modes@[k]),
        decreases raw_modes@.len() - i,
    {
        let code = raw_modes[i];
        if code == 0 {
            translated.push(PresentMode::Immediate);
        } else if code == 1 {
            translated.push(PresentMode::Mailbox);
        } else if code == 2 {
            translated.push(PresentMode::Fifo);
        } else if code == 3 {
            translated.push(PresentMode::Relaxed);
        } else {
            translated.push(PresentMode::Unrecognized(code));
        }
        i = i + 1;
    }
    translated
}

/// The capability query: interpret everything the driver reports for a
/// device/surface pair. Pure; the driver calls that produce the raw inputs
/// are the embedding program's.
pub fn compatibility(raw: &RawCapabilities, raw_formats: &Vec<u32>, raw_modes: &Vec<u32>) -> (r: (
    SurfaceCapabilities,
    Option<Vec<u32>>,
    Vec<PresentMode>,
))
    requires
        raw.wf(),
        raw_formats@.len() >= 1,
    ensures
        r.0.min_image_count == raw.min_image_count,
        r.0.max_image_count == (if raw.max_image_count == 0 {
            u32::MAX
        } else {
            raw.max_image_count
        }),
        r.0.min_image_count <= r.0.max_image_count,
        r.0.current_extent == (if raw.current_extent.width != u32::MAX
            && raw.current_extent.height != u32::MAX {
            Some(raw.current_extent)
        } else {
            None::<Extent2D>
        }),
        r.0.min_extent == raw.min_image_extent,
        r.0.max_extent == raw.max_image_extent,
        r.0.max_image_layers == raw.max_image_array_layers,
        r.0.usage == raw.supported_usage,
        r.0.composite_alpha == raw.supported_composite_alpha,
        (r.1 is None) <==> raw_formats@[0] == FORMAT_UNDEFINED,
        (r.1 matches Some(v) ==> v@ == kept_formats(raw_formats@)),
        r.2@.len() == raw_modes@.len(),
        forall|i: int|
            0 <= i < raw_modes@.len() ==> r.2@[i] == present_mode_of(#[trigger] raw_modes@[i]),
{
    let caps = interpret_capabilities(raw);
    let formats = interpret_formats(raw_formats);
    let modes = interpret_present_modes(raw_modes);
    (caps, formats, modes)
}

} // verus!
