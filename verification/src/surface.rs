//! Bookkeeping for the host's window surface.
//!
//! The rendering host owns its device, queue and surface objects; this type
//! keeps the library-side record of them: the handles it was given, handed
//! back on request unchanged, and the drawable size, which is never allowed
//! to collapse below one pixel in either direction. Acquiring and presenting
//! actual textures stays in the host.

use vstd::prelude::*;

verus! {

/// The host's surface record: its device and queue handles and the current
/// drawable size, each dimension at least one pixel.
pub struct WgpuWindowSurface<Device, Queue> {
    pub device: Device,
    pub queue: Queue,
    pub width: u32,
    pub height: u32,
}

impl<Device, Queue> WgpuWindowSurface<Device, Queue> {
    pub open spec fn wf(self) -> bool {
        self.width >= 1 && self.height >= 1
    }

    pub open spec fn spec_width(self) -> u32 {
        self.width
    }

    pub open spec fn spec_height(self) -> u32 {
        self.height
    }

    pub open spec fn spec_device(self) -> Device {
        self.device
    }

    pub open spec fn spec_queue(self) -> Queue {
        self.queue
    }

    /// Record the host's handles and an initial size (clamped to a pixel).
    pub fn new(device: Device, queue: Queue, width: u32, height: u32) -> (s: WgpuWindowSurface<
        Device, Queue>)
        ensures
            s.wf(),
            s.spec_device() == device,
            s.spec_queue() == queue,
            s.spec_width() == (if width >= 1 { width } else { 1u32 }),
            s.spec_height() == (if height >= 1 { height } else { 1u32 }),
    {
        WgpuWindowSurface {
            device,
            queue,
            width: if width >= 1 { width } else { 1 },
            height: if height >= 1 { height } else { 1 },
        }
    }

    /// Record a new drawable size; a zero dimension is clamped to one pixel
    /// so the surface configuration stays valid.
    pub fn resize(&mut self, width: u32, height: u32)
        ensures
            final(self).spec_width() == (if width >= 1 { width } else { 1u32 }),
            final(self).spec_height() == (if height >= 1 { height } else { 1u32 }),
            final(self).spec_device() == old(self).spec_device(),
            final(self).spec_queue() == old(self).spec_queue(),
            final(self).wf(),
    {
        self.width = if width >= 1 { width } else { 1 };
        self.height = if height >= 1 { height } else { 1 };
    }

    /// The size the host must acquire its next surface texture at.
    pub fn get_surface_texture(&self) -> (size: (u32, u32))
        requires
            self.wf(),
        ensures
            size.0 == self.spec_width(),
            size.1 == self.spec_height(),
            size.0 >= 1 && size.1 >= 1,
    {
        (self.width, self.height)
    }

    /// The device handle the host stored here.
    pub fn get_device(&self) -> (d: &Device)
        ensures
            *d == self.spec_device(),
    {
        &self.device
    }

    /// The queue handle the host stored here.
    pub fn get_queue(&self) -> (q: &Queue)
        ensures
            *q == self.spec_queue(),
    {
        &self.queue
    }
}

} // verus!
