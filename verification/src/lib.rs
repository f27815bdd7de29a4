//! Presentation-surface and swapchain lifecycle management.
//!
//! This library is the decision core of a presentation layer: it binds an
//! abstract rendering surface to a driver-level chain of presentable images,
//! hands individual images out for rendering, and reclaims retired chain
//! resources (views, semaphores) only once no outstanding image refers to
//! them any more.
//!
//! The driver and the platform window system are external collaborators.
//! Every call into them is performed by the embedding program; this library
//! receives the driver's replies as plain values, makes every decision of
//! the protocol, and states those decisions in verified contracts:
//!
//! * [`caps`] interprets the raw capability record a driver reports,
//! * [`error`] translates driver status codes into typed outcomes, and
//! * [`surface`] owns the configure / acquire / reclaim state machine.

pub mod caps;
pub mod error;
pub mod surface;
