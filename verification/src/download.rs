//! Progress reporting around a reader.
//!
//! The network and file readers themselves, and the asynchronous plumbing
//! that feeds them, live with the consumer of this library; what stands
//! here is the pairing of a reader with the terminal progress bar that
//! tracks it.

use vstd::prelude::*;

verus! {

/// A terminal progress bar rendered to standard output, held opaquely.
///
/// `pbr`'s `ProgressBar` is generic over a writer bound by `std::io::Write`,
/// which Verus refuses to declare as an outside type, so the bar is kept in
/// this opaque holder instead.
#[verifier::external_body]
pub struct ProgressHandle {
    bar: pbr::ProgressBar<std::io::Stdout>,
}

impl ProgressHandle {
    /// Relies on pbr's `ProgressBar::new`: a fresh bar for `total` units,
    /// rendered to standard output.
    #[verifier::external_body]
    fn new(total: u64) -> ProgressHandle {
        ProgressHandle { bar: pbr::ProgressBar::new(total) }
    }
}

/// Relies on pbr's `ProgressBar::finish`: completes the bar's rendering on
/// standard output.
#[verifier::external_body]
fn progress_finish(handle: &mut ProgressHandle) {
    handle.bar.finish();
}

/// Holds a reader, tracks read progress and draws a progress bar.
pub struct FetchProgress<R> {
    /// The wrapped reader.
    pub inner: R,
    /// The bar that renders progress.
    pub progress_bar: ProgressHandle,
}

impl<R> FetchProgress<R> {
    /// Pairs a reader with a fresh progress bar sized for `total` units.
    pub fn new(inner: R, total: u64) -> (r: FetchProgress<R>)
        ensures
            r.inner == inner,
    {
        FetchProgress { inner, progress_bar: ProgressHandle::new(total) }
    }

    /// Completes the progress bar's rendering.
    pub fn finish(&mut self) {
        progress_finish(&mut self.progress_bar);
    }
}

} // verus!
