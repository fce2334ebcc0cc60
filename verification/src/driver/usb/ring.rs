//! xHCI ring bookkeeping: the producer rings (command, EP0 control,
//! interrupt IN) with their Link TRB and cycle bit, the event ring
//! consumer, and what an event asks of the driver.  The rings are held as
//! TRB arrays; copying them to and from DMA memory and ringing doorbells is
//! the caller's part.
use vstd::prelude::*;

use crate::driver::tty::{Tty, TtyEffect};
use crate::driver::usb::hid::{feed_to_tty, hid_to_ascii, key_ascii, shift_held, KeyState, HID_USAGE_CAPSLOCK};
use crate::driver::usb::xhci::{
    control_word, Trb, TRB_CC_SHORT_PACKET, TRB_CC_SUCCESS, TRB_CYCLE_BIT,
    TRB_LINK, TRB_PORT_STATUS_CHANGE, TRB_TRANSFER_EVENT,
};

verus! {

/// TRBs per ring segment; the last one is the Link TRB.
pub const RING_SIZE: usize = 256;
/// Bytes per TRB.
pub const TRB_BYTES: u64 = 16;
/// Event Handler Busy bit of ERDP, written as 1 to acknowledge.
pub const ERDP_EHB: u32 = 0x8;

/// `control` with its cycle bit set to `cycle`.
pub open spec fn with_cycle(control: u32, cycle: bool) -> u32 {
    (control & !TRB_CYCLE_BIT) | (if cycle { TRB_CYCLE_BIT } else { 0 })
}

fn set_cycle(control: u32, cycle: bool) -> (r: u32)
    ensures
        r == with_cycle(control, cycle),
{
    (control & !TRB_CYCLE_BIT) | if cycle { TRB_CYCLE_BIT } else { 0 }
}

/// A producer ring: TRB slots 0..255 and the Link TRB in the last slot,
/// the next slot to write and the producer cycle state.
pub struct ProducerRing {
    pub trbs: Vec<Trb>,
    pub index: usize,
    pub cycle: bool,
}

/// The ring after `trb` is enqueued with cycle bit `cycle`: on reaching the
/// Link TRB the Link TRB takes the cycle bit, the ring wraps to slot 0 and
/// the producer cycle state flips; the TRB keeps the cycle bit it was given.
pub open spec fn enqueue_spec(trbs: Seq<Trb>, index: int, ring_cycle: bool, trb: Trb, cycle: bool) -> (
    Seq<Trb>,
    int,
    bool,
    int,
) {
    let t = Trb { control: with_cycle(trb.control, cycle), ..trb };
    if index == RING_SIZE - 1 {
        let link = trbs[RING_SIZE - 1];
        let trbs1 = trbs.update(RING_SIZE - 1, Trb { control: with_cycle(link.control, cycle), ..link });
        (trbs1.update(0, t), 1, !ring_cycle, 0)
    } else {
        (trbs.update(index, t), index + 1, ring_cycle, index)
    }
}

impl ProducerRing {
    pub open spec fn wf(&self) -> bool {
        self.trbs@.len() == RING_SIZE && self.index < RING_SIZE
    }

    /// An empty ring at physical address `base`: zeroed TRBs, a Link TRB
    /// back to `base` with the cycle bit set, producer cycle state 1.
    pub fn new(base: u64) -> (r: Self)
        ensures
            r.wf(),
            r.index == 0,
            r.cycle,
            r.trbs@ == Seq::new(RING_SIZE as nat, |i: int| Trb { parameter: 0, status: 0, control: 0 }).update(
                RING_SIZE - 1,
                Trb { parameter: base, status: 0, control: control_word(TRB_LINK, TRB_CYCLE_BIT) },
            ),
    {
        let mut trbs: Vec<Trb> = Vec::new();
        while trbs.len() < RING_SIZE - 1
            invariant
                trbs.len() <= RING_SIZE - 1,
                trbs@ == Seq::new(trbs.len() as nat, |i: int| Trb { parameter: 0, status: 0, control: 0 }),
            decreases RING_SIZE - 1 - trbs.len(),
        {
            trbs.push(Trb::zero());
            assert(trbs@ =~= Seq::new(trbs.len() as nat, |i: int| Trb { parameter: 0, status: 0, control: 0 }));
        }
        trbs.push(Trb { parameter: base, status: 0, control: Trb::control(TRB_LINK, TRB_CYCLE_BIT) });
        assert(trbs@ =~= Seq::new(RING_SIZE as nat, |i: int| Trb { parameter: 0, status: 0, control: 0 }).update(
            RING_SIZE - 1,
            Trb { parameter: base, status: 0, control: control_word(TRB_LINK, TRB_CYCLE_BIT) },
        ));
        ProducerRing { trbs, index: 0, cycle: true }
    }

    /// Writes `trb` with cycle bit `cycle` into the next slot; returns the
    /// slot it went to.
    pub fn enqueue(&mut self, trb: Trb, cycle: bool) -> (r: usize)
        requires
            old(self).wf(),
        ensures
            final(self).wf(),
            ({
                let (trbs, index, ring_cycle, slot) = enqueue_spec(
                    old(self).trbs@,
                    old(self).index as int,
                    old(self).cycle,
                    trb,
                    cycle,
                );
                &&& final(self).trbs@ == trbs
                &&& final(self).index == index
                &&& final(self).cycle == ring_cycle
                &&& r == slot
            }),
    {
        let t = Trb { control: set_cycle(trb.control, cycle), ..trb };
        if self.index == RING_SIZE - 1 {
            let link = self.trbs[RING_SIZE - 1];
            let new_link = Trb { control: set_cycle(link.control, cycle), ..link };
            self.trbs.set(RING_SIZE - 1, new_link);
            self.index = 0;
            self.cycle = !self.cycle;
        }
        let slot = self.index;
        self.trbs.set(slot, t);
        self.index = slot + 1;
        slot
    }

    /// The slot the next TRB goes to (past the Link TRB: slot 0).
    pub fn next_slot(&self) -> (r: usize)
        requires
            self.wf(),
        ensures
            r == (if self.index == RING_SIZE - 1 { 0 } else { self.index as int }),
    {
        if self.index == RING_SIZE - 1 { 0 } else { self.index }
    }
}

/// Physical address of TRB slot `slot` of a ring at `base`.
pub fn trb_address(base: u64, slot: usize) -> (r: u64)
    requires
        slot < RING_SIZE,
        base + 4096 <= u64::MAX,
    ensures
        r == base + 16 * slot,
{
    base + TRB_BYTES * slot as u64
}

/// The consumer side of the event ring: the next slot to read and the
/// consumer cycle state.  An event is there when its cycle bit equals the
/// consumer cycle state.
pub struct EventRing {
    pub index: usize,
    pub cycle: bool,
}

/// The slot reached after `k` events consumed from slot `i0` (at most one
/// lap).
pub open spec fn slot_after(i0: int, k: int) -> int {
    if i0 + k >= RING_SIZE { i0 + k - RING_SIZE } else { i0 + k }
}

/// The cycle state after `k` events consumed from slot `i0` with state `c0`.
pub open spec fn cycle_after(i0: int, c0: bool, k: int) -> bool {
    if i0 + k >= RING_SIZE { !c0 } else { c0 }
}

pub open spec fn trb_cycle(t: Trb) -> bool {
    t.control & TRB_CYCLE_BIT != 0
}

impl EventRing {
    pub open spec fn wf(&self) -> bool {
        self.index < RING_SIZE
    }

    pub fn new() -> (r: Self)
        ensures
            r.wf(),
            r.index == 0,
            r.cycle,
    {
        EventRing { index: 0, cycle: true }
    }

    /// The event in the next slot, if the controller has written one.
    pub fn pending(&self, events: &[Trb]) -> (r: Option<Trb>)
        requires
            self.wf(),
            events@.len() == RING_SIZE,
        ensures
            r == (if trb_cycle(events@[self.index as int]) == self.cycle {
                Some(events@[self.index as int])
            } else {
                None
            }),
    {
        let e = events[self.index];
        if e.cycle() == self.cycle { Some(e) } else { None }
    }

    /// One event consumed: the next slot, wrapping with a flip of the
    /// cycle state.
    pub fn advance(&mut self)
        requires
            old(self).wf(),
        ensures
            final(self).wf(),
            old(self).index + 1 < RING_SIZE ==> final(self).index == old(self).index + 1 && final(self).cycle
                == old(self).cycle,
            old(self).index + 1 >= RING_SIZE ==> final(self).index == 0 && final(self).cycle == !old(self).cycle,
    {
        self.index = self.index + 1;
        if self.index >= RING_SIZE {
            self.index = 0;
            self.cycle = !self.cycle;
        }
    }

    /// ERDP low and high words after consuming: the slot address with the
    /// Event Handler Busy bit set in the low word.
    pub fn erdp(&self, base: u64) -> (r: (u32, u32))
        requires
            self.wf(),
            base + 4096 <= u64::MAX,
        ensures
            r.0 == ((base + 16 * self.index) as u32) | ERDP_EHB,
            r.1 == ((base + 16 * self.index) as u64 >> 32u64) as u32,
    {
        let a = trb_address(base, self.index);
        (a as u32 | ERDP_EHB, (a >> 32u64) as u32)
    }

    /// Takes every event the controller has written, in order, up to the
    /// first slot whose cycle bit does not match.
    pub fn drain(&mut self, events: &[Trb]) -> (r: Vec<Trb>)
        requires
            old(self).wf(),
            events@.len() == RING_SIZE,
        ensures
            final(self).wf(),
            r@.len() <= RING_SIZE,
            final(self).index == slot_after(old(self).index as int, r@.len() as int),
            final(self).cycle == cycle_after(old(self).index as int, old(self).cycle, r@.len() as int),
            drained(events@, old(self).index as int, old(self).cycle, r@),
            trb_cycle(events@[final(self).index as int]) != final(self).cycle,
    {
        let ghost i0 = self.index as int;
        let ghost c0 = self.cycle;
        let mut out: Vec<Trb> = Vec::new();
        loop
            invariant
                self.wf(),
                events@.len() == RING_SIZE,
                out@.len() <= RING_SIZE,
                0 <= i0 < RING_SIZE,
                self.index == slot_after(i0, out@.len() as int),
                self.cycle == cycle_after(i0, c0, out@.len() as int),
                out@.len() > 0 ==> trb_cycle(events@[i0]) == c0,
                drained(events@, i0, c0, out@),
            ensures
                self.wf(),
                out@.len() <= RING_SIZE,
                self.index == slot_after(i0, out@.len() as int),
                self.cycle == cycle_after(i0, c0, out@.len() as int),
                drained(events@, i0, c0, out@),
                trb_cycle(events@[self.index as int]) != self.cycle,
            decreases RING_SIZE - out@.len(),
        {
            let e = events[self.index];
            if e.cycle() != self.cycle {
                break;
            }
            if out.len() == RING_SIZE {
                assert(self.index == i0);
                assert(self.cycle == !c0);
                assert(false);
            }
            proof {
                lemma_drained_push(events@, i0, c0, out@, e);
            }
            out.push(e);
            self.advance();
        }
        out
    }
}

/// `out` is what was consumed from slot `i0` with cycle state `c0`: the
/// events of the slots in turn, each with the cycle bit expected there.
pub open spec fn drained(events: Seq<Trb>, i0: int, c0: bool, out: Seq<Trb>) -> bool {
    forall|j: int|
        #![trigger out[j]]
        0 <= j < out.len() ==> {
            let slot = slot_after(i0, j);
            &&& out[j] == events[slot]
            &&& trb_cycle(events[slot]) == cycle_after(i0, c0, j)
        }
}

proof fn lemma_drained_push(events: Seq<Trb>, i0: int, c0: bool, out: Seq<Trb>, e: Trb)
    requires
        drained(events, i0, c0, out),
        e == events[slot_after(i0, out.len() as int)],
        trb_cycle(e) == cycle_after(i0, c0, out.len() as int),
    ensures
        drained(events, i0, c0, out.push(e)),
{
    let o = out.push(e);
    assert forall|j: int| #![trigger o[j]] 0 <= j < o.len() implies {
        let slot = slot_after(i0, j);
        &&& o[j] == events[slot]
        &&& trb_cycle(events[slot]) == cycle_after(i0, c0, j)
    } by {
        if j < out.len() {
            assert(o[j] == out[j]);
        }
    }
}

/// What the driver does for an event.
#[derive(Clone, Copy, Debug, PartialEq, Eq, Structural)]
pub enum EventAction {
    /// A transfer on the keyboard endpoint finished: read the report if it
    /// succeeded, then queue the next transfer.
    KeyboardTransfer { deliver: bool },
    /// A root port changed: look at the root ports.
    PortChange,
    /// Nothing to do here (command completions are taken by the waiter).
    Ignore,
}

/// The action for event `e` when the keyboard sits at `keyboard`
/// (slot, endpoint DCI).
pub open spec fn event_action(e: Trb, keyboard: Option<(u8, u8)>) -> EventAction {
    let ty = (e.control >> 10u32) & 0x3F;
    if ty == TRB_TRANSFER_EVENT {
        match keyboard {
            Some((slot, dci)) => {
                if ((e.control >> 24u32) & 0xFF) as u8 == slot && ((e.control >> 16u32) & 0x1F) as u8 == dci {
                    let cc = (e.status >> 24u32) & 0xFF;
                    EventAction::KeyboardTransfer { deliver: cc == TRB_CC_SUCCESS || cc == TRB_CC_SHORT_PACKET }
                } else {
                    EventAction::Ignore
                }
            },
            None => EventAction::Ignore,
        }
    } else if ty == TRB_PORT_STATUS_CHANGE {
        EventAction::PortChange
    } else {
        EventAction::Ignore
    }
}

pub fn process_event(e: Trb, keyboard: Option<(u8, u8)>) -> (r: EventAction)
    ensures
        r == event_action(e, keyboard),
{
    let ty = e.trb_type();
    if ty == TRB_TRANSFER_EVENT {
        match keyboard {
            Some((slot, dci)) => {
                if e.slot_id() == slot && e.endpoint_id() == dci {
                    let cc = e.completion_code();
                    EventAction::KeyboardTransfer { deliver: cc == TRB_CC_SUCCESS || cc == TRB_CC_SHORT_PACKET }
                } else {
                    EventAction::Ignore
                }
            },
            None => EventAction::Ignore,
        }
    } else if ty == TRB_PORT_STATUS_CHANGE {
        EventAction::PortChange
    } else {
        EventAction::Ignore
    }
}

/// The bytes that the first `n` key slots of a boot keyboard report give
/// (modifier byte 0, key usages from byte 2), and the CapsLock state after
/// them.  Empty slots are skipped, CapsLock toggles, keys without a byte
/// give nothing.
pub open spec fn report_keys(caps: bool, report: Seq<u8>, n: int) -> (Seq<u8>, bool)
    decreases n,
{
    if n <= 0 {
        (Seq::empty(), caps)
    } else {
        let (out, c) = report_keys(caps, report, n - 1);
        let code = report[2 + n - 1];
        if code == 0 {
            (out, c)
        } else if code == HID_USAGE_CAPSLOCK {
            (out, !c)
        } else {
            let a = key_ascii(code, shift_held(report[0]), c);
            if a != 0 { (out.push(a), c) } else { (out, c) }
        }
    }
}

/// The bytes of an 8-byte boot keyboard report, in key slot order.
pub fn report_bytes(keys: &mut KeyState, report: &[u8]) -> (r: Vec<u8>)
    requires
        report@.len() >= 8,
    ensures
        (r@, final(keys).caps) == report_keys(old(keys).caps, report@, 6),
{
    let modifier = report[0];
    let mut out: Vec<u8> = Vec::new();
    let mut i: usize = 0;
    while i < 6
        invariant
            i <= 6,
            report@.len() >= 8,
            modifier == report@[0],
            (out@, keys.caps) == report_keys(old(keys).caps, report@, i as int),
        decreases 6 - i,
    {
        let code = report[2 + i];
        if code != 0 {
            let ascii = hid_to_ascii(keys, code, modifier);
            if ascii != 0 {
                out.push(ascii);
            }
        }
        i = i + 1;
    }
    out
}

/// Feeds the bytes of a boot keyboard report to the TTY; the effect of
/// each byte, in order.
pub fn feed_report_bytes(keys: &mut KeyState, tty: &mut Tty, report: &[u8]) -> (r: Vec<TtyEffect>)
    requires
        report@.len() >= 8,
        old(tty).wf(),
    ensures
        final(tty).wf(),
        final(keys).caps == report_keys(old(keys).caps, report@, 6).1,
        r@.len() == report_keys(old(keys).caps, report@, 6).0.len(),
{
    let bytes = report_bytes(keys, report);
    let mut effects: Vec<TtyEffect> = Vec::new();
    let mut i: usize = 0;
    while i < bytes.len()
        invariant
            i <= bytes.len(),
            effects@.len() == i,
            tty.wf(),
        decreases bytes.len() - i,
    {
        effects.push(feed_to_tty(tty, bytes[i]));
        i = i + 1;
    }
    effects
}

} // verus!
