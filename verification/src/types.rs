//! The record kept for one tracked on-screen window.

use vstd::prelude::*;

verus! {

use crate::hash::{metro64, metro_of};

/// One tracked on-screen window, as captured on a single tick.
///
/// `id` is the capture provider's stable identifier, `title` a display label
/// used only for the UI, `jpeg` the encoded image bytes, `jpeg_metrohash`
/// the fingerprint of those bytes (the sole change-detection key), and `z`
/// the stacking position within the tick (0 = frontmost, display only).
pub struct Window {
    pub id: u32,
    pub title: String,
    pub jpeg: Vec<u8>,
    pub jpeg_metrohash: u64,
    pub z: usize,
}

impl Window {
    /// Well-formed: the fingerprint is the hash of the encoded image bytes.
    pub open spec fn wf(self) -> bool {
        self.jpeg_metrohash == metro_of(self.jpeg@)
    }

    /// Build the record for one captured window, fingerprinting its bytes.
    pub fn new(id: u32, title: String, jpeg: Vec<u8>, z: usize) -> (w: Window)
        ensures
            w.id == id,
            w.title == title,
            w.jpeg == jpeg,
            w.z == z,
            w.wf(),
    {
        let jpeg_metrohash = metro64(&jpeg);
        Window { id, title, jpeg, jpeg_metrohash, z }
    }
}

} // verus!
