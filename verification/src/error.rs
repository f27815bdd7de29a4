//! Driver status codes and their translation into typed outcomes.

use vstd::prelude::*;

verus! {

/// A failure status reported by the presentation driver for an
/// image-acquisition request or a fence wait.
#[derive(Clone, Copy, Debug, PartialEq, Eq, Structural)]
pub enum DriverError {
    NotReady,
    Timeout,
    OutOfDateKhr,
    SurfaceLostKhr,
    OutOfHostMemory,
    OutOfDeviceMemory,
    DeviceLost,
    /// A status code outside the set the driver is documented to return,
    /// carried verbatim. Treated as fatal, never recovered silently.
    Unrecognized(i32),
}

/// Which memory pool the driver reported as exhausted.
#[derive(Clone, Copy, Debug, PartialEq, Eq, Structural)]
pub enum OutOfMemory {
    Host,
    Device,
}

/// Typed outcome of a failed acquire operation.
#[derive(Clone, Copy, Debug, PartialEq, Eq, Structural)]
pub enum AcquireError {
    /// A non-blocking call had no image ready; retrying is safe.
    NotReady,
    /// The wait budget ran out before an image became ready; retrying is safe.
    Timeout,
    /// The configuration is no longer valid; the caller must reconfigure
    /// before acquiring again.
    OutOfDate,
    /// The platform surface itself is gone; only recreating the surface helps.
    SurfaceLost,
    /// Host or device memory was exhausted; surfaced to the caller, not retried.
    OutOfMemory(OutOfMemory),
    /// The device is lost and must be recreated.
    DeviceLost,
    /// The driver returned a status the translation table does not know;
    /// fatal by design, not a best-effort recovery.
    Unrecognized(i32),
}

/// Typed outcome of a failed swapchain (re)configuration.
#[derive(Clone, Copy, Debug, PartialEq, Eq, Structural)]
pub enum CreationError {
    /// The requested image count lies outside the capability range.
    UnsupportedImageCount,
    /// The requested extent lies outside the capability range.
    UnsupportedExtent,
    /// The driver rejected the creation request with this status.
    Driver(DriverError),
}

/// The complete translation table from a driver status to an acquire outcome.
pub open spec fn mapped_error(e: DriverError) -> AcquireError {
    match e {
        DriverError::NotReady => AcquireError::NotReady,
        DriverError::Timeout => AcquireError::Timeout,
        DriverError::OutOfDateKhr => AcquireError::OutOfDate,
        DriverError::SurfaceLostKhr => AcquireError::SurfaceLost,
        DriverError::OutOfHostMemory => AcquireError::OutOfMemory(OutOfMemory::Host),
        DriverError::OutOfDeviceMemory => AcquireError::OutOfMemory(OutOfMemory::Device),
        DriverError::DeviceLost => AcquireError::DeviceLost,
        DriverError::Unrecognized(code) => AcquireError::Unrecognized(code),
    }
}

/// Translate a driver status into the outcome handed to the caller.
///
/// Total over the status enumeration: an unrecognized code reaches the
/// explicit fatal branch instead of falling through silently.
pub fn map_driver_error(e: DriverError) -> (r: AcquireError)
    ensures
        r == mapped_error(e),
{
    match e {
        DriverError::NotReady => AcquireError::NotReady,
        DriverError::Timeout => AcquireError::Timeout,
        DriverError::OutOfDateKhr => AcquireError::OutOfDate,
        DriverError::SurfaceLostKhr => AcquireError::SurfaceLost,
        DriverError::OutOfHostMemory => AcquireError::OutOfMemory(OutOfMemory::Host),
        DriverError::OutOfDeviceMemory => AcquireError::OutOfMemory(OutOfMemory::Device),
        DriverError::DeviceLost => AcquireError::DeviceLost,
        DriverError::Unrecognized(code) => AcquireError::Unrecognized(code),
    }
}

} // verus!
