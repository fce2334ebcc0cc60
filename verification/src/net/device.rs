//! The packet buffer between the network driver and the protocol stack:
//! one received frame at a time, and the length of frames to send.
use vstd::prelude::*;

verus! {

/// Largest payload of a frame.
pub const MTU: usize = 1500;

/// Largest frame: the payload with room for header and checksum.
pub const MAX_FRAME: usize = 1518;

/// The received frame waiting for the stack: the first `rx_len` bytes of
/// `rx_buf` (none when `rx_len` is 0).
pub struct NetState {
    rx_buf: Vec<u8>,
    rx_len: usize,
}

impl NetState {
    /// The buffer holds a whole frame and the length fits in it.
    pub closed spec fn wf(&self) -> bool {
        self.rx_buf@.len() == MAX_FRAME && self.rx_len <= MAX_FRAME
    }

    /// The waiting frame; empty when there is none.
    pub closed spec fn pending(&self) -> Seq<u8> {
        self.rx_buf@.subrange(0, self.rx_len as int)
    }

    /// No frame waiting.
    pub fn new() -> (r: Self)
        ensures
            r.wf(),
            r.pending() == Seq::<u8>::empty(),
    {
        let mut buf: Vec<u8> = Vec::new();
        let mut i: usize = 0;
        while i < MAX_FRAME
            invariant
                i <= MAX_FRAME,
                buf@.len() == i,
            decreases MAX_FRAME - i,
        {
            buf.push(0);
            i = i + 1;
        }
        NetState { rx_buf: buf, rx_len: 0 }
    }

    /// Whether a frame is waiting.
    pub fn has_packet(&self) -> (r: bool)
        requires
            self.wf(),
        ensures
            r == (self.pending().len() > 0),
    {
        self.rx_len > 0
    }
}

/// The network device as the stack sees it: its MAC address.
pub struct NetDevice {
    mac: [u8; 6],
}

impl NetDevice {
    /// A device with MAC address `mac`.
    pub fn new(mac: [u8; 6]) -> (r: Self)
        ensures
            r.mac_addr_spec() == mac@,
    {
        NetDevice { mac }
    }

    /// The MAC address.
    pub closed spec fn mac_addr_spec(&self) -> Seq<u8> {
        self.mac@
    }

    /// The MAC address.
    pub fn mac_addr(&self) -> (r: [u8; 6])
        ensures
            r@ == self.mac_addr_spec(),
    {
        self.mac
    }

    /// Store the frame the driver received (`received`), unless a frame is
    /// still waiting, which is never overwritten. The driver is asked only
    /// when `state` has no frame (see `NetState::has_packet`).
    pub fn receive_packet(&mut self, state: &mut NetState, received: Option<&[u8]>)
        requires
            old(state).wf(),
            received matches Some(p) ==> p@.len() <= MAX_FRAME,
        ensures
            final(state).wf(),
            final(self).mac_addr_spec() == old(self).mac_addr_spec(),
            final(state).pending() == if old(state).pending().len() > 0 {
                old(state).pending()
            } else {
                match received {
                    Some(p) => p@,
                    None => Seq::<u8>::empty(),
                }
            },
    {
        if state.rx_len > 0 {
            return;
        }
        match received {
            Some(p) => {
                let len = p.len();
                let mut i: usize = 0;
                while i < len
                    invariant
                        i <= len,
                        len == p@.len(),
                        len <= MAX_FRAME,
                        state.rx_buf@.len() == MAX_FRAME,
                        forall|j: int| 0 <= j < i ==> state.rx_buf@[j] == p@[j],
                    decreases len - i,
                {
                    state.rx_buf.set(i, p[i]);
                    i = i + 1;
                }
                state.rx_len = len;
                assert(state.pending() =~= p@);
            },
            None => {
                assert(state.pending() =~= Seq::<u8>::empty());
            },
        }
    }

    /// Whether the stack can receive: a frame is waiting.
    pub fn receive(&self, state: &NetState) -> (r: bool)
        requires
            state.wf(),
        ensures
            r == (state.pending().len() > 0),
    {
        state.has_packet()
    }
}

/// Hands the waiting frame to the stack.
pub struct VirtRxToken;

impl VirtRxToken {
    /// The waiting frame (empty when none), which is then consumed.
    pub fn consume(self, state: &mut NetState) -> (r: Vec<u8>)
        requires
            old(state).wf(),
        ensures
            final(state).wf(),
            r@ == old(state).pending(),
            final(state).pending() == Seq::<u8>::empty(),
    {
        let mut out: Vec<u8> = Vec::new();
        let mut i: usize = 0;
        while i < state.rx_len
            invariant
                state.wf(),
                state == old(state),
                i <= state.rx_len,
                out@ == state.rx_buf@.subrange(0, i as int),
            decreases state.rx_len - i,
        {
            out.push(state.rx_buf[i]);
            i = i + 1;
        }
        state.rx_len = 0;
        assert(state.pending() =~= Seq::<u8>::empty());
        out
    }
}

/// Takes a frame from the stack to send.
pub struct VirtTxToken;

impl VirtTxToken {
    /// How many bytes of a frame of `len` bytes are sent: at most a whole
    /// frame.
    pub fn frame_len(&self, len: usize) -> (r: usize)
        ensures
            r == if len < MAX_FRAME {
                len
            } else {
                MAX_FRAME
            },
    {
        if len < MAX_FRAME {
            len
        } else {
            MAX_FRAME
        }
    }
}

} // verus!
