//! The surface/swapchain state machine: configuration, image acquisition,
//! and deferred reclamation of retired view sets.

use vstd::prelude::*;

use crate::caps::Extent2D;
use crate::caps::SurfaceCapabilities;
use crate::error::AcquireError;
use crate::error::CreationError;
use crate::error::DriverError;
use crate::error::mapped_error;

verus! {

/// A host-waitable synchronization primitive, opaque beyond wait/reset.
#[derive(Clone, Copy, Debug, PartialEq, Eq, Structural)]
pub struct Fence {
    pub raw: u64,
}

/// A device-side synchronization primitive, opaque to this core.
#[derive(Clone, Copy, Debug, PartialEq, Eq, Structural)]
pub struct Semaphore {
    pub raw: u64,
}

/// A per-image view object, opaque beyond its handle and format.
#[derive(Clone, Copy, Debug, PartialEq, Eq, Structural)]
pub struct ImageView {
    pub raw: u64,
    pub format: u32,
}

/// The opaque platform surface handle together with its owning instance.
#[derive(Clone, Copy, Debug, PartialEq, Eq, Structural)]
pub struct RawSurface {
    pub handle: u64,
    pub instance: u64,
}

/// One driver-level chain of presentable images.
#[derive(Clone, Copy, Debug, PartialEq, Eq, Structural)]
pub struct Swapchain {
    pub raw: u64,
    pub extent: Extent2D,
    pub image_count: u32,
}

/// The shared, per-configuration sequence of image views.
///
/// `holders` counts the outstanding [`SurfaceImage`]s that reference this
/// set; the surface's own reference is not counted. A set is eligible for
/// destruction only once it is stale and `holders` is zero.
#[derive(Debug)]
pub struct ViewSet {
    /// Identifies the configuration this set was built for; unique within
    /// its surface.
    pub id: u64,
    /// The format every view of the set shares.
    pub format: u32,
    pub views: Vec<ImageView>,
    pub holders: u32,
}

impl ViewSet {
    /// One view per image, all sharing the set's format.
    pub open spec fn wf(self) -> bool {
        &&& self.views@.len() >= 1
        &&& self.views@.len() <= u32::MAX
        &&& forall|i: int|
            0 <= i < self.views@.len() ==> (#[trigger] self.views@[i]).format == self.format
    }
}

/// The active configuration: one swapchain plus its per-configuration
/// synchronization objects and view set.
#[derive(Debug)]
pub struct SurfaceSwapchain {
    pub swapchain: Swapchain,
    pub device: u64,
    pub fence: Fence,
    pub semaphore: Semaphore,
    pub views: ViewSet,
}

/// A retired configuration awaiting reclamation: the owning device, the
/// semaphore retired with the views, and the view set itself.
#[derive(Debug)]
pub struct StaleEntry {
    pub device: u64,
    pub semaphore: Semaphore,
    pub views: ViewSet,
}

/// True of a stale entry that an outstanding image still references.
pub open spec fn entry_live(e: StaleEntry) -> bool {
    e.views.holders > 0
}

/// The stale entries a sweep keeps, in order.
pub open spec fn live_entries(s: Seq<StaleEntry>) -> Seq<StaleEntry>
    decreases s.len(),
{
    if s.len() == 0 {
        Seq::empty()
    } else {
        let rest = live_entries(s.drop_last());
        if entry_live(s.last()) {
            rest.push(s.last())
        } else {
            rest
        }
    }
}

/// The stale entries a sweep removes and hands back for destruction, in
/// order.
pub open spec fn dead_entries(s: Seq<StaleEntry>) -> Seq<StaleEntry>
    decreases s.len(),
{
    if s.len() == 0 {
        Seq::empty()
    } else {
        let rest = dead_entries(s.drop_last());
        if entry_live(s.last()) {
            rest
        } else {
            rest.push(s.last())
        }
    }
}

/// The unit handed to the renderer: an index into the view set that was
/// active at acquisition time, plus that set's identity and the view
/// itself. It may outlive a reconfiguration.
#[derive(Clone, Copy, Debug, PartialEq, Eq, Structural)]
pub struct SurfaceImage {
    pub index: u32,
    pub set_id: u64,
    pub view: ImageView,
}

/// A presentation surface: at most one active configuration, plus the pool
/// of retired configurations awaiting reclamation.
#[derive(Debug)]
pub struct Surface {
    pub raw: RawSurface,
    pub swapchain: Option<SurfaceSwapchain>,
    pub stale_views: Vec<StaleEntry>,
    /// Generation counter for view-set identities; every set ever owned by
    /// this surface has an id below it.
    pub next_set_id: u64,
}

impl Surface {
    pub open spec fn is_configured(self) -> bool {
        self.swapchain is Some
    }

    pub open spec fn active(self) -> SurfaceSwapchain
        recommends
            self.is_configured(),
    {
        self.swapchain.unwrap()
    }

    /// The active configuration's view set carries this id.
    pub open spec fn active_matches(self, id: u64) -> bool {
        self.is_configured() && self.active().views.id == id
    }

    /// Some stale entry's view set carries this id.
    pub open spec fn stale_has(self, id: u64) -> bool {
        exists|j: int|
            0 <= j < self.stale_views@.len() && (#[trigger] self.stale_views@[j]).views.id == id
    }

    /// The index of the stale entry carrying this id (unique under `wf`).
    pub open spec fn stale_index_of(self, id: u64) -> int {
        choose|j: int|
            0 <= j < self.stale_views@.len() && (#[trigger] self.stale_views@[j]).views.id == id
    }

    /// The surface still owns a view set with this id, active or stale.
    pub open spec fn owns_set(self, id: u64) -> bool {
        self.active_matches(id) || self.stale_has(id)
    }

    pub open spec fn set_of(self, id: u64) -> ViewSet
        recommends
            self.owns_set(id),
    {
        if self.active_matches(id) {
            self.active().views
        } else {
            self.stale_views@[self.stale_index_of(id)].views
        }
    }

    /// How many outstanding images reference the set with this id.
    pub open spec fn holders_of(self, id: u64) -> u32 {
        self.set_of(id).holders
    }

    /// The views of the set with this id.
    pub open spec fn views_of(self, id: u64) -> Seq<ImageView> {
        self.set_of(id).views@
    }

    /// Structural invariant: every owned view set is well formed, set ids
    /// are pairwise distinct and below the generation counter, and the
    /// active image count equals its view count.
    pub open spec fn wf(self) -> bool {
        &&& (self.is_configured() ==> {
            &&& self.active().views.wf()
            &&& self.active().views.id < self.next_set_id
            &&& self.active().swapchain.image_count == self.active().views.views@.len()
        })
        &&& (forall|j: int|
            0 <= j < self.stale_views@.len() ==> (#[trigger] self.stale_views@[j]).views.wf())
        &&& (forall|j: int|
            0 <= j < self.stale_views@.len() ==> (#[trigger] self.stale_views@[j]).views.id
                < self.next_set_id)
        &&& (forall|j: int, k: int|
            0 <= j < self.stale_views@.len() && 0 <= k < self.stale_views@.len() && j != k
                ==> (#[trigger] self.stale_views@[j]).views.id
                != (#[trigger] self.stale_views@[k]).views.id)
        &&& (self.is_configured() ==> forall|j: int|
            0 <= j < self.stale_views@.len() ==> (#[trigger] self.stale_views@[j]).views.id
                != self.active().views.id)
    }

    /// An image is valid while the surface still owns its view set and the
    /// image's view is the one recorded at its index.
    pub open spec fn image_valid(self, img: SurfaceImage) -> bool {
        &&& self.owns_set(img.set_id)
        &&& (img.index as int) < self.views_of(img.set_id).len()
        &&& self.views_of(img.set_id)[img.index as int] == img.view
    }

    /// A fresh surface around a native handle: no active configuration, an
    /// empty stale pool.
    pub fn new(raw: RawSurface) -> (s: Surface)
        ensures
            s.wf(),
            s.raw == raw,
            !s.is_configured(),
            s.stale_views@ == Seq::<StaleEntry>::empty(),
            s.next_set_id == 0,
    {
        Surface { raw, swapchain: None, stale_views: Vec::new(), next_set_id: 0 }
    }

    /// The reclamation sweep: remove every stale entry whose view set no
    /// outstanding image references any more, and hand those entries back
    /// so the embedding program can destroy their semaphore and views.
    /// Entries that still have holders are left untouched for a later
    /// sweep; their order is kept.
    pub fn clear_stale_views(&mut self) -> (retired: Vec<StaleEntry>)
        requires
            old(self).wf(),
        ensures
            final(self).wf(),
            final(self).raw == old(self).raw,
            final(self).swapchain == old(self).swapchain,
            final(self).next_set_id == old(self).next_set_id,
            final(self).stale_views@ == live_entries(old(self).stale_views@),
            retired@ == dead_entries(old(self).stale_views@),
    {
        let ghost orig: Seq<StaleEntry> = self.stale_views@;
        let mut kept: Vec<StaleEntry> = Vec::new();
        let mut retired: Vec<StaleEntry> = Vec::new();
        let ghost mut processed: Seq<StaleEntry> = Seq::empty();
        while self.stale_views.len() > 0
            invariant
                self.raw == old(self).raw,
                self.swapchain == old(self).swapchain,
                self.next_set_id == old(self).next_set_id,
                orig == processed + self.stale_views@,
                kept@ == live_entries(processed),
                retired@ == dead_entries(processed),
            decreases self.stale_views@.len(),
        {
            let e = self.stale_views.remove(0);
            proof {
                assert(processed.push(e).drop_last() =~= processed);
                assert(orig =~= processed.push(e) + self.stale_views@);
            }
            if e.views.holders > 0 {
                kept.push(e);
            } else {
                retired.push(e);
            }
            proof {
                processed = processed.push(e);
            }
        }
        proof {
            assert(orig =~= processed);
        }
        self.stale_views = kept;
        proof {
            lemma_live_entries_distinct(orig);
            assert forall|j: int| 0 <= j < self.stale_views@.len() implies {
                &&& (#[trigger] self.stale_views@[j]).views.wf()
                &&& self.stale_views@[j].views.id < self.next_set_id
                &&& (self.is_configured() ==> self.stale_views@[j].views.id
                    != self.active().views.id)
            } by {
                lemma_live_entries_membership(orig, j);
                let i = choose|i: int|
                    0 <= i < orig.len() && orig[i] == #[trigger] live_entries(orig)[j];
                assert(old(self).stale_views@[i].views.wf());
            }
        }
        retired
    }

    /// First half of (re)configuration: retire the active configuration.
    ///
    /// The fence is acquire-scoped and never outlives its configuration; it
    /// is handed back for synchronous destruction. The semaphore and the
    /// view set move into the stale pool with their holder count intact,
    /// and the old swapchain handle is handed back as a reuse hint for
    /// creating the next chain. Afterwards no configuration is active --
    /// which is also the state left behind when the subsequent creation
    /// fails, so a failed reconfiguration must be retried from here.
    pub fn begin_reconfigure(&mut self) -> (plan: RetiredConfig)
        requires
            old(self).wf(),
        ensures
            final(self).wf(),
            !final(self).is_configured(),
            final(self).raw == old(self).raw,
            final(self).next_set_id == old(self).next_set_id,
            (match old(self).swapchain {
                Some(ssc) => {
                    &&& final(self).stale_views@ == old(self).stale_views@.push(
                        (StaleEntry {
                            device: ssc.device,
                            semaphore: ssc.semaphore,
                            views: ssc.views,
                        }),
                    )
                    &&& plan.fence_to_destroy == Some(ssc.fence)
                    &&& plan.old_swapchain == Some(ssc.swapchain.raw)
                },
                None => {
                    &&& final(self).stale_views@ == old(self).stale_views@
                    &&& plan.fence_to_destroy is None
                    &&& plan.old_swapchain is None
                },
            }),
    {
        match self.swapchain.take() {
            Some(ssc) => {
                let fence = ssc.fence;
                let old_swapchain = ssc.swapchain.raw;
                self.stale_views.push(
                    StaleEntry { device: ssc.device, semaphore: ssc.semaphore, views: ssc.views },
                );
                RetiredConfig {
                    fence_to_destroy: Some(fence),
                    old_swapchain: Some(old_swapchain),
                }
            },
            None => RetiredConfig { fence_to_destroy: None, old_swapchain: None },
        }
    }

    /// Second half of (re)configuration: install the chain the driver
    /// created. One view is built per image handle, eagerly, all sharing
    /// the requested format; the fresh fence starts unsignaled and the
    /// fresh semaphore is retired together with the view set later. The
    /// new view set starts with no outstanding holders and a set identity
    /// no earlier set of this surface ever carried.
    pub fn finish_reconfigure(
        &mut self,
        device: u64,
        swapchain_raw: u64,
        extent: Extent2D,
        format: u32,
        view_handles: Vec<u64>,
        fence: Fence,
        semaphore: Semaphore,
    )
        requires
            old(self).wf(),
            !old(self).is_configured(),
            1 <= view_handles@.len() <= u32::MAX,
            old(self).next_set_id < u64::MAX,
        ensures
            final(self).wf(),
            final(self).is_configured(),
            final(self).raw == old(self).raw,
            final(self).stale_views@ == old(self).stale_views@,
            final(self).next_set_id == old(self).next_set_id + 1,
            final(self).active().device == device,
            final(self).active().fence == fence,
            final(self).active().semaphore == semaphore,
            final(self).active().swapchain.raw == swapchain_raw,
            final(self).active().swapchain.extent == extent,
            final(self).active().swapchain.image_count == view_handles@.len(),
            final(self).active().views.id == old(self).next_set_id,
            final(self).active().views.format == format,
            final(self).active().views.holders == 0,
            final(self).active().views.views@.len() == view_handles@.len(),
            forall|i: int|
                0 <= i < view_handles@.len() ==> (#[trigger] final(self).active().views.views@[i])
                    == (ImageView { raw: view_handles@[i], format }),
    {
        let n = view_handles.len();
        let mut views: Vec<ImageView> = Vec::new();
        let mut i: usize = 0;
        while i < n
            invariant
                i <= n,
                n == view_handles@.len(),
                views@.len() == i,
                forall|k: int|
                    0 <= k < i ==> (#[trigger] views@[k]) == (ImageView {
                        raw: view_handles@[k],
                        format,
                    }),
            decreases n - i,
        {
            views.push(ImageView { raw: view_handles[i], format });
            i = i + 1;
        }
        let set_id = self.next_set_id;
        self.next_set_id = set_id + 1;
        self.swapchain = Some(
            SurfaceSwapchain {
                swapchain: Swapchain { raw: swapchain_raw, extent, image_count: n as u32 },
                device,
                fence,
                semaphore,
                views: ViewSet { id: set_id, format, views, holders: 0 },
            },
        );
    }
}

/// What a reconfiguration hands back for the embedding program to act on:
/// the retired fence to destroy synchronously, and the old swapchain
/// handle to pass to the driver as a reuse hint.
#[derive(Clone, Copy, Debug, PartialEq, Eq, Structural)]
pub struct RetiredConfig {
    pub fence_to_destroy: Option<Fence>,
    pub old_swapchain: Option<u64>,
}

/// A requested swapchain configuration.
#[derive(Clone, Copy, Debug, PartialEq, Eq, Structural)]
pub struct SwapchainConfig {
    pub format: u32,
    pub extent: Extent2D,
    pub image_count: u32,
    pub usage: u32,
}

/// The capability range admits the requested image count.
pub open spec fn count_supported(caps: SurfaceCapabilities, config: SwapchainConfig) -> bool {
    caps.min_image_count <= config.image_count <= caps.max_image_count
}

/// The capability range admits the requested extent, and the extent the
/// platform fixed, if any, is the one requested.
pub open spec fn extent_supported(caps: SurfaceCapabilities, config: SwapchainConfig) -> bool {
    &&& caps.min_extent.width <= config.extent.width <= caps.max_extent.width
    &&& caps.min_extent.height <= config.extent.height <= caps.max_extent.height
    &&& (caps.current_extent matches Some(ce) ==> config.extent == ce)
}

/// Check a configuration request against the capability query's report,
/// before asking the driver to create the chain.
pub fn validate_config(caps: &SurfaceCapabilities, config: &SwapchainConfig) -> (r: Result<
    (),
    CreationError,
>)
    ensures
        r == (if !count_supported(*caps, *config) {
            Err::<(), CreationError>(CreationError::UnsupportedImageCount)
        } else if !extent_supported(*caps, *config) {
            Err::<(), CreationError>(CreationError::UnsupportedExtent)
        } else {
            Ok::<(), CreationError>(())
        }),
{
    if config.image_count < caps.min_image_count || config.image_count > caps.max_image_count {
        return Err(CreationError::UnsupportedImageCount);
    }
    let extent_ok = config.extent.width >= caps.min_extent.width && config.extent.width
        <= caps.max_extent.width && config.extent.height >= caps.min_extent.height
        && config.extent.height <= caps.max_extent.height;
    let fixed_ok = match caps.current_extent {
        Some(ce) => config.extent.width == ce.width && config.extent.height == ce.height,
        None => true,
    };
    if !extent_ok || !fixed_ok {
        return Err(CreationError::UnsupportedExtent);
    }
    Ok(())
}

/// Success marker: the acquired image is usable, but the configuration is
/// no longer ideal and should be refreshed soon. Not an error.
#[derive(Clone, Copy, Debug, PartialEq, Eq, Structural)]
pub struct Suboptimal;

/// The driver's reply to a next-image request: the acquired index together
/// with the driver's suboptimal flag, or a failure status.
#[derive(Clone, Copy, Debug, PartialEq, Eq, Structural)]
pub enum NextImageOutcome {
    Acquired(u32, bool),
    Failed(DriverError),
}

/// The driver's reply to a fence wait.
#[derive(Clone, Copy, Debug, PartialEq, Eq, Structural)]
pub enum FenceWaitOutcome {
    Signaled,
    Failed(DriverError),
}

/// What the embedding program must ask the driver on acquire: a next-image
/// request against this swapchain, bounded by this timeout, signaling this
/// fence on completion.
#[derive(Clone, Copy, Debug, PartialEq, Eq, Structural)]
pub struct AcquireRequest {
    pub swapchain: u64,
    pub timeout_ns: u64,
    pub fence: Fence,
}

/// The typed outcome of the chain-level acquire for each driver reply.
pub open spec fn next_image_result(outcome: NextImageOutcome) -> Result<
    (u32, Option<Suboptimal>),
    AcquireError,
> {
    match outcome {
        NextImageOutcome::Acquired(index, subopt) => Ok(
            (index, if subopt {
                Some(Suboptimal)
            } else {
                None
            }),
        ),
        NextImageOutcome::Failed(e) => Err(mapped_error(e)),
    }
}

impl Swapchain {
    /// Decision half of the chain-level acquire: classify the driver's
    /// reply to a next-image request into the typed outcome, mapping every
    /// failure status through the complete translation table.
    pub fn classify_next_image(outcome: NextImageOutcome) -> (r: Result<
        (u32, Option<Suboptimal>),
        AcquireError,
    >)
        ensures
            r == next_image_result(outcome),
    {
        match outcome {
            NextImageOutcome::Acquired(index, subopt) => {
                if subopt {
                    Ok((index, Some(Suboptimal)))
                } else {
                    Ok((index, None))
                }
            },
            NextImageOutcome::Failed(e) => Err(crate::error::map_driver_error(e)),
        }
    }
}

/// The fence-wait budget left once the next-image request has consumed
/// `elapsed_ns` of wall-clock time, so that the wait phase never spends
/// more than what remains of the caller's timeout. The all-ones timeout
/// means "block indefinitely" and is preserved; otherwise the budget
/// shrinks by the elapsed time, saturating at zero. A zero timeout always
/// yields a zero budget: a poll never blocks.
///
/// Timeout accounting, by design: the next-image request itself is bounded
/// by the caller's full timeout, and the fence wait by this remaining
/// budget. Each phase is therefore individually bounded by the caller's
/// timeout; the elapsed time of the first phase is charged against the
/// second, and a driver that honors its own timeouts keeps the total
/// host-visible wait within the caller's budget.
pub fn remaining_budget(timeout_ns: u64, elapsed_ns: u64) -> (r: u64)
    ensures
        r <= timeout_ns,
        timeout_ns == u64::MAX ==> r == u64::MAX,
        timeout_ns < u64::MAX && elapsed_ns <= timeout_ns ==> r == timeout_ns - elapsed_ns,
        timeout_ns < u64::MAX && elapsed_ns > timeout_ns ==> r == 0,
{
    if timeout_ns == u64::MAX {
        u64::MAX
    } else if elapsed_ns >= timeout_ns {
        0
    } else {
        timeout_ns - elapsed_ns
    }
}

impl Surface {
    /// First phase of acquire: sweep the stale pool opportunistically,
    /// then say what to ask the driver. The entries the sweep freed are
    /// handed back for destruction; the request carries the active chain,
    /// the caller's full timeout and the configuration's fence.
    ///
    /// Acquire on an unconfigured surface is a programming error and is
    /// excluded by contract rather than given a silent meaning.
    pub fn start_acquire(&mut self, timeout_ns: u64) -> (r: (AcquireRequest, Vec<StaleEntry>))
        requires
            old(self).wf(),
            old(self).is_configured(),
        ensures
            final(self).wf(),
            final(self).raw == old(self).raw,
            final(self).swapchain == old(self).swapchain,
            final(self).next_set_id == old(self).next_set_id,
            final(self).stale_views@ == live_entries(old(self).stale_views@),
            r.1@ == dead_entries(old(self).stale_views@),
            r.0.swapchain == old(self).active().swapchain.raw,
            r.0.timeout_ns == timeout_ns,
            r.0.fence == old(self).active().fence,
    {
        let retired = self.clear_stale_views();
        let (swapchain, fence) = match &self.swapchain {
            Some(ssc) => (ssc.swapchain.raw, ssc.fence),
            // unreachable: the contract requires an active configuration
            None => (0, Fence { raw: 0 }),
        };
        (AcquireRequest { swapchain, timeout_ns, fence }, retired)
    }

    /// Final phase of acquire, after the driver's fence wait came back.
    ///
    /// On a signaled fence the image at the driver's index is handed out:
    /// it references the view set active now, that set's holder count goes
    /// up by one, and the driver's suboptimal flag is passed through. The
    /// fence is reset by the embedding program for reuse. On a failed wait
    /// the status is mapped through the translation table and the surface
    /// is left exactly as it was, the active configuration included.
    pub fn complete_acquire(&mut self, index: u32, suboptimal: bool, wait: FenceWaitOutcome) -> (r:
        Result<(SurfaceImage, Option<Suboptimal>), AcquireError>)
        requires
            old(self).wf(),
            old(self).is_configured(),
            wait is Signaled ==> index < old(self).active().swapchain.image_count,
            wait is Signaled ==> old(self).active().views.holders < u32::MAX,
        ensures
            final(self).wf(),
            (match wait {
                FenceWaitOutcome::Signaled => {
                    &&& (match r {
                        Ok((img, sub)) => {
                            &&& img.index == index
                            &&& img.index < final(self).active().swapchain.image_count
                            &&& img.set_id == old(self).active().views.id
                            &&& img.view == old(self).active().views.views@[index as int]
                            &&& sub == (if suboptimal {
                                Some(Suboptimal)
                            } else {
                                None::<Suboptimal>
                            })
                            &&& final(self).image_valid(img)
                        },
                        Err(_) => false,
                    })
                    &&& final(self).raw == old(self).raw
                    &&& final(self).next_set_id == old(self).next_set_id
                    &&& final(self).stale_views@ == old(self).stale_views@
                    &&& final(self).is_configured()
                    &&& final(self).active().swapchain == old(self).active().swapchain
                    &&& final(self).active().device == old(self).active().device
                    &&& final(self).active().fence == old(self).active().fence
                    &&& final(self).active().semaphore == old(self).active().semaphore
                    &&& final(self).active().views.id == old(self).active().views.id
                    &&& final(self).active().views.format == old(self).active().views.format
                    &&& final(self).active().views.views@ == old(self).active().views.views@
                    &&& final(self).active().views.holders == old(self).active().views.holders + 1
                },
                FenceWaitOutcome::Failed(e) => {
                    &&& r == Err::<(SurfaceImage, Option<Suboptimal>), AcquireError>(
                        mapped_error(e),
                    )
                    &&& *final(self) == *old(self)
                },
            }),
    {
        match wait {
            FenceWaitOutcome::Failed(e) => Err(crate::error::map_driver_error(e)),
            FenceWaitOutcome::Signaled => {
                match &mut self.swapchain {
                    Some(ssc) => {
                        ssc.views.holders = ssc.views.holders + 1;
                        let view = ssc.views.views[index as usize];
                        let img = SurfaceImage { index, set_id: ssc.views.id, view };
                        let sub = if suboptimal {
                            Some(Suboptimal)
                        } else {
                            None
                        };
                        Ok((img, sub))
                    },
                    // unreachable: the contract requires an active configuration
                    None => Err(AcquireError::NotReady),
                }
            },
        }
    }
}

/// Everything a hard teardown hands back for destruction: the native
/// surface handle (released exactly once, by consuming the surface), the
/// active configuration if any, and every stale entry unconditionally --
/// the caller must have ensured no GPU work references them any more.
#[derive(Debug)]
pub struct TeardownPlan {
    pub surface: RawSurface,
    pub active: Option<SurfaceSwapchain>,
    pub stale: Vec<StaleEntry>,
}

impl Surface {
    /// Release one outstanding image: the holder count of exactly the
    /// image's view set goes down by one; every other set is untouched.
    /// Returns false, changing nothing, when the surface no longer owns a
    /// set with the image's identity or no holder is recorded for it.
    pub fn release_image(&mut self, image: SurfaceImage) -> (found: bool)
        requires
            old(self).wf(),
        ensures
            final(self).wf(),
            found == (old(self).owns_set(image.set_id) && old(self).holders_of(image.set_id) > 0),
            !found ==> *final(self) == *old(self),
            found ==> {
                &&& final(self).raw == old(self).raw
                &&& final(self).next_set_id == old(self).next_set_id
                &&& final(self).is_configured() == old(self).is_configured()
                &&& final(self).holders_of(image.set_id) + 1 == old(self).holders_of(image.set_id)
                &&& final(self).views_of(image.set_id) == old(self).views_of(image.set_id)
                &&& (forall|id: u64| #[trigger]
                    final(self).owns_set(id) == old(self).owns_set(id))
                &&& (forall|id: u64|
                    old(self).owns_set(id) && id != image.set_id ==> #[trigger] final(self).set_of(
                        id,
                    ) == old(self).set_of(id))
            },
    {
        let set_id = image.set_id;
        let mut in_active = false;
        if let Some(ssc) = &self.swapchain {
            if ssc.views.id == set_id {
                in_active = true;
            }
        }
        if in_active {
            match &mut self.swapchain {
                Some(ssc) => {
                    if ssc.views.holders > 0 {
                        ssc.views.holders = ssc.views.holders - 1;
                        return true;
                    } else {
                        return false;
                    }
                },
                None => {
                    return false;
                },
            }
        }
        let n = self.stale_views.len();
        let mut j: usize = 0;
        let mut pos: usize = n;
        while j < n
            invariant
                *self == *old(self),
                old(self).wf(),
                !old(self).active_matches(image.set_id),
                set_id == image.set_id,
                n == self.stale_views@.len(),
                j <= n,
                pos == n || (pos < n && self.stale_views@[pos as int].views.id == image.set_id),
                pos == n ==> forall|k: int|
                    0 <= k < j ==> (#[trigger] self.stale_views@[k]).views.id != image.set_id,
            decreases n - j,
        {
            if pos == n && self.stale_views[j].views.id == set_id {
                pos = j;
            }
            j = j + 1;
        }
        if pos == n {
            proof {
                if old(self).stale_has(set_id) {
                    let k = old(self).stale_index_of(set_id);
                    assert(0 <= k < n && old(self).stale_views@[k].views.id == set_id);
                }
            }
            return false;
        }
        let h = self.stale_views[pos].views.holders;
        proof {
            lemma_stale_index(*old(self), set_id, pos as int);
        }
        if h == 0 {
            return false;
        }
        let mut e = self.stale_views.remove(pos);
        e.views.holders = h - 1;
        self.stale_views.insert(pos, e);
        proof {
            let pre = *old(self);
            let post = *self;
            let p = pos as int;
            assert(post.stale_views@ =~= pre.stale_views@.update(
                p,
                (StaleEntry {
                    device: pre.stale_views@[p].device,
                    semaphore: pre.stale_views@[p].semaphore,
                    views: ViewSet {
                        id: pre.stale_views@[p].views.id,
                        format: pre.stale_views@[p].views.format,
                        views: pre.stale_views@[p].views.views,
                        holders: (h - 1) as u32,
                    },
                }),
            ));
            assert(forall|i: int|
                0 <= i < post.stale_views@.len() ==> (#[trigger] post.stale_views@[i]).views.id
                    == pre.stale_views@[i].views.id);
            assert(forall|i: int|
                0 <= i < post.stale_views@.len() && i != p ==> (#[trigger] post.stale_views@[i])
                    == pre.stale_views@[i]);
            assert(post.wf());
            lemma_stale_index(post, set_id, p);
            assert(post.holders_of(set_id) + 1 == pre.holders_of(set_id));
            assert(post.views_of(set_id) =~= pre.views_of(set_id));
            assert forall|id: u64| #[trigger]
                post.owns_set(id) == pre.owns_set(id) by {
                if pre.stale_has(id) {
                    let k = pre.stale_index_of(id);
                    assert(post.stale_views@[k].views.id == id);
                    assert(post.stale_has(id));
                }
                if post.stale_has(id) {
                    let k = post.stale_index_of(id);
                    assert(pre.stale_views@[k].views.id == id);
                    assert(pre.stale_has(id));
                }
            }
            assert forall|id: u64|
                pre.owns_set(id) && id != set_id implies #[trigger] post.set_of(id) == pre.set_of(
                id,
            ) by {
                if pre.active_matches(id) {
                    assert(post.set_of(id) == pre.set_of(id));
                } else {
                    let k = pre.stale_index_of(id);
                    assert(0 <= k < pre.stale_views@.len() && pre.stale_views@[k].views.id == id);
                    assert(k != p);
                    lemma_stale_index(pre, id, k);
                    lemma_stale_index(post, id, k);
                }
            }
        }
        true
    }

    /// Hard teardown: consume the surface and hand back everything the
    /// embedding program must destroy. The native handle is released
    /// exactly once because the surface is consumed; stale entries are
    /// handed back whatever their holder counts, since a teardown cannot
    /// wait on them.
    pub fn destroy(self) -> (plan: TeardownPlan)
        ensures
            plan.surface == self.raw,
            plan.active == self.swapchain,
            plan.stale@ == self.stale_views@,
    {
        TeardownPlan { surface: self.raw, active: self.swapchain, stale: self.stale_views }
    }
}

/// The stale entry carrying a given id is unique under `wf`.
proof fn lemma_stale_index(s: Surface, id: u64, j: int)
    requires
        s.wf(),
        0 <= j < s.stale_views@.len(),
        s.stale_views@[j].views.id == id,
    ensures
        s.stale_has(id),
        s.stale_index_of(id) == j,
{
    assert(s.stale_has(id));
    let k = s.stale_index_of(id);
    if k != j {
        assert(s.stale_views@[k].views.id != s.stale_views@[j].views.id);
    }
}

/// LAW: an image whose view set still records a holder survives a
/// reclamation sweep untouched -- the set, its views and its holder count
/// are all preserved. Sweeps are the only way this library frees a view
/// set short of a hard teardown, so an image acquired before a
/// reconfiguration stays valid until it is released and a later sweep
/// runs. The sweep transition is given here exactly as
/// [`Surface::clear_stale_views`] ensures it.
pub proof fn lemma_sweep_preserves_held_image(pre: Surface, post: Surface, img: SurfaceImage)
    requires
        pre.wf(),
        post.wf(),
        post.swapchain == pre.swapchain,
        post.stale_views@ == live_entries(pre.stale_views@),
        pre.image_valid(img),
        pre.holders_of(img.set_id) > 0,
    ensures
        post.image_valid(img),
        post.holders_of(img.set_id) == pre.holders_of(img.set_id),
{
    let id = img.set_id;
    if pre.active_matches(id) {
        assert(post.active_matches(id));
    } else {
        assert(pre.stale_has(id));
        let j = pre.stale_index_of(id);
        assert(0 <= j < pre.stale_views@.len() && pre.stale_views@[j].views.id == id);
        let e = pre.stale_views@[j];
        assert(e.views == pre.set_of(id));
        assert(entry_live(e));
        lemma_live_entries_keeps(pre.stale_views@, j);
        assert(exists|i: int|
            0 <= i < post.stale_views@.len() && post.stale_views@[i] == e);
        let k = choose|i: int| 0 <= i < post.stale_views@.len() && post.stale_views@[i] == e;
        assert(post.stale_views@[k].views.id == id);
        lemma_stale_index(post, id, k);
        assert(!post.active_matches(id));
        assert(post.set_of(id) == e.views);
    }
}

/// LAW: retiring the active configuration preserves every held image.
/// The retirement transition is given here exactly as
/// [`Surface::begin_reconfigure`] ensures it for a configured surface: the
/// active view set moves to the end of the stale pool with its holder
/// count intact, so an image acquired under the old configuration stays
/// valid through the reconfiguration.
pub proof fn lemma_retire_preserves_held_image(pre: Surface, post: Surface, img: SurfaceImage)
    requires
        pre.wf(),
        post.wf(),
        pre.is_configured(),
        !post.is_configured(),
        post.stale_views@ == pre.stale_views@.push(
            (StaleEntry {
                device: pre.active().device,
                semaphore: pre.active().semaphore,
                views: pre.active().views,
            }),
        ),
        pre.image_valid(img),
    ensures
        post.image_valid(img),
        post.holders_of(img.set_id) == pre.holders_of(img.set_id),
{
    let id = img.set_id;
    let n = pre.stale_views@.len() as int;
    if pre.active_matches(id) {
        assert(post.stale_views@[n].views.id == id);
        lemma_stale_index(post, id, n);
        assert(post.set_of(id) == pre.active().views);
    } else {
        let j = pre.stale_index_of(id);
        assert(0 <= j < n && pre.stale_views@[j].views.id == id);
        assert(post.stale_views@[j] == pre.stale_views@[j]);
        lemma_stale_index(post, id, j);
        lemma_stale_index(pre, id, j);
    }
}

/// LAW: installing a new configuration preserves every held image. The
/// installation transition is given here exactly as
/// [`Surface::finish_reconfigure`] ensures it: the stale pool is untouched
/// and the new view set carries an identity no earlier set of the surface
/// ever carried, so no held image can be captured by the new set.
pub proof fn lemma_install_preserves_held_image(pre: Surface, post: Surface, img: SurfaceImage)
    requires
        pre.wf(),
        post.wf(),
        !pre.is_configured(),
        post.is_configured(),
        post.stale_views@ == pre.stale_views@,
        pre.image_valid(img),
    ensures
        post.image_valid(img),
        post.holders_of(img.set_id) == pre.holders_of(img.set_id),
{
    let id = img.set_id;
    let j = pre.stale_index_of(id);
    assert(0 <= j < pre.stale_views@.len() && pre.stale_views@[j].views.id == id);
    lemma_stale_index(pre, id, j);
    lemma_stale_index(post, id, j);
    assert(!post.active_matches(id));
    assert(post.set_of(id) == pre.set_of(id));
}

/// LAW: a stale view set with no outstanding holder does not survive a
/// reclamation sweep. Acquisition sweeps first, so once an image is
/// released, the next acquire call removes the retired set it referenced;
/// the stale pool cannot grow without bound under steady-state use. The
/// sweep transition is given here exactly as
/// [`Surface::clear_stale_views`] ensures it.
pub proof fn lemma_sweep_destroys_unreferenced(pre: Surface, post: Surface, id: u64)
    requires
        pre.wf(),
        post.stale_views@ == live_entries(pre.stale_views@),
        pre.stale_has(id),
        !pre.active_matches(id),
        pre.holders_of(id) == 0,
    ensures
        !post.stale_has(id),
{
    let j = pre.stale_index_of(id);
    assert(0 <= j < pre.stale_views@.len() && pre.stale_views@[j].views.id == id);
    assert(pre.stale_views@[j].views.holders == 0);
    if post.stale_has(id) {
        let k = post.stale_index_of(id);
        assert(0 <= k < post.stale_views@.len() && post.stale_views@[k].views.id == id);
        lemma_live_entries_pred(pre.stale_views@, k);
        lemma_live_entries_membership(pre.stale_views@, k);
        let i = choose|i: int|
            0 <= i < pre.stale_views@.len() && pre.stale_views@[i] == live_entries(
                pre.stale_views@,
            )[k];
        assert(pre.stale_views@[i].views.id == id);
        assert(pre.stale_views@[i].views.holders > 0);
        if i != j {
            assert(pre.stale_views@[i].views.id != pre.stale_views@[j].views.id);
        }
        assert(false);
    }
}

/// Every entry a sweep keeps still has a holder.
pub proof fn lemma_live_entries_pred(s: Seq<StaleEntry>, k: int)
    requires
        0 <= k < live_entries(s).len(),
    ensures
        entry_live(live_entries(s)[k]),
    decreases s.len(),
{
    if s.len() > 0 {
        if k < live_entries(s.drop_last()).len() {
            lemma_live_entries_pred(s.drop_last(), k);
        }
    }
}

/// Every entry a sweep keeps stood in the pool before the sweep.
pub proof fn lemma_live_entries_membership(s: Seq<StaleEntry>, k: int)
    requires
        0 <= k < live_entries(s).len(),
    ensures
        exists|i: int| 0 <= i < s.len() && s[i] == #[trigger] live_entries(s)[k],
    decreases s.len(),
{
    if s.len() > 0 {
        if k < live_entries(s.drop_last()).len() {
            lemma_live_entries_membership(s.drop_last(), k);
            let i = choose|i: int|
                0 <= i < s.drop_last().len() && s.drop_last()[i] == #[trigger] live_entries(
                    s.drop_last(),
                )[k];
            assert(s[i] == live_entries(s)[k]);
        } else {
            assert(s[s.len() - 1] == live_entries(s)[k]);
        }
    }
}

/// An entry that still has a holder survives the sweep.
pub proof fn lemma_live_entries_keeps(s: Seq<StaleEntry>, i: int)
    requires
        0 <= i < s.len(),
        entry_live(s[i]),
    ensures
        live_entries(s).contains(s[i]),
    decreases s.len(),
{
    if s.len() > 0 {
        if i < s.len() - 1 {
            lemma_live_entries_keeps(s.drop_last(), i);
            let k = choose|k: int|
                0 <= k < live_entries(s.drop_last()).len() && live_entries(s.drop_last())[k]
                    == s.drop_last()[i];
            if entry_live(s.last()) {
                assert(live_entries(s)[k] == s[i]);
            } else {
                assert(live_entries(s)[k] == s[i]);
            }
        } else {
            assert(live_entries(s).last() == s[i]);
        }
    }
}

/// A sweep keeps pairwise-distinct set ids pairwise distinct.
pub proof fn lemma_live_entries_distinct(s: Seq<StaleEntry>)
    requires
        forall|j: int, k: int|
            0 <= j < s.len() && 0 <= k < s.len() && j != k ==> (#[trigger] s[j]).views.id
                != (#[trigger] s[k]).views.id,
    ensures
        forall|j: int, k: int|
            0 <= j < live_entries(s).len() && 0 <= k < live_entries(s).len() && j != k
                ==> (#[trigger] live_entries(s)[j]).views.id != (#[trigger] live_entries(
                s,
            )[k]).views.id,
    decreases s.len(),
{
    if s.len() > 0 {
        let t = s.drop_last();
        lemma_live_entries_distinct(t);
        assert forall|j: int, k: int|
            0 <= j < live_entries(s).len() && 0 <= k < live_entries(s).len() && j != k
            implies (#[trigger] live_entries(s)[j]).views.id != (#[trigger] live_entries(
            s,
        )[k]).views.id by {
            let n = live_entries(t).len() as int;
            if j < n && k < n {
                assert(live_entries(s)[j] == live_entries(t)[j]);
                assert(live_entries(s)[k] == live_entries(t)[k]);
            } else if j < n {
                lemma_live_entries_membership(t, j);
                let i = choose|i: int|
                    0 <= i < t.len() && t[i] == #[trigger] live_entries(t)[j];
                assert(s[i] == live_entries(s)[j]);
                assert(live_entries(s)[k] == s.last());
            } else {
                lemma_live_entries_membership(t, k);
                let i = choose|i: int|
                    0 <= i < t.len() && t[i] == #[trigger] live_entries(t)[k];
                assert(s[i] == live_entries(s)[k]);
                assert(live_entries(s)[j] == s.last());
            }
        }
    }
}

} // verus!
