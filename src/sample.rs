use vstd::prelude::*;

use crate::packet::CameraCmdFrameHeader;

verus! {

/// One decoded unit of stream payload, as handed to the caller.
#[derive(Debug)]
pub struct BambuSample {
    pub itrack: i32,
    pub size: u32,
    pub flags: i32,
    pub buffer: Vec<u8>,
    pub decode_time: u64,
}

impl BambuSample {
    /// The declared size is the length of the buffer.
    pub open spec fn wf(&self) -> bool {
        self.size as int == self.buffer@.len()
    }

    /// A sample that holds nothing.
    pub fn empty() -> (r: BambuSample)
        ensures
            r.wf(),
            r.size == 0,
            r.buffer@.len() == 0,
            r.itrack == 0,
            r.flags == 0,
            r.decode_time == 0,
    {
        BambuSample { itrack: 0, size: 0, flags: 0, buffer: Vec::new(), decode_time: 0 }
    }

    /// Hands a complete frame payload over: the buffer is the payload itself
    /// and the size its length; track id and flags come from the header.
    /// A payload is at most as long as a frame header can declare.
    pub fn set_buffer(&mut self, header: CameraCmdFrameHeader, data: Vec<u8>)
        requires
            data@.len() <= u32::MAX,
        ensures
            final(self).wf(),
            final(self).buffer@ == data@,
            final(self).size as int == data@.len(),
            final(self).itrack == header.itrack,
            final(self).flags == header.flags,
            final(self).decode_time == 0,
    {
        self.itrack = header.itrack;
        self.flags = header.flags;
        self.size = data.len() as u32;
        self.buffer = data;
        self.decode_time = 0;
    }

    /// Releases the buffer that was handed over last. A sample of size zero
    /// holds nothing that was handed over and is left as it is.
    pub fn destroy_buffer(&mut self)
        ensures
            old(self).size == 0 ==> *final(self) == *old(self),
            old(self).size != 0 ==> {
                &&& final(self).wf()
                &&& final(self).size == 0
                &&& final(self).buffer@.len() == 0
                &&& final(self).itrack == old(self).itrack
                &&& final(self).flags == old(self).flags
                &&& final(self).decode_time == old(self).decode_time
            },
    {
        if self.size == 0 {
            return;
        }
        self.buffer = Vec::new();
        self.size = 0;
    }
}

} // verus!
