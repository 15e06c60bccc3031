//! What the filters keep of each robot and of the ball between two ticks:
//! the last state made of it and a bounded window of raw detections.

use vstd::prelude::*;
use ringbuffer::ConstGenericRingBuffer;
use ringbuffer::RingBuffer;
use ringbuffer::RingBufferExt;
use ringbuffer::RingBufferRead;
use ringbuffer::RingBufferWrite;
use crate::math::Vec2;
use crate::math::Vec3;

verus! {

/// Number of raw detections that a window holds at most.
pub const WINDOW_CAPACITY: usize = 50;

/// One raw detection of a robot or of the ball by one camera.
#[derive(Clone, Copy, Debug, PartialEq, Eq, Structural)]
pub struct Detection {
    /// Identifier of the robot; 0 for the ball.
    pub id: u8,
    pub camera_id: u32,
    pub frame_number: u32,
    /// Capture time.
    pub t_capture: i64,
    /// Where the thing was seen; robots are seen on the ground.
    pub position: Vec3,
    /// Which way the robot faced.
    pub heading: Vec2,
}

/// `ringbuffer::ConstGenericRingBuffer`: the type is taken over as it is,
/// without its fields.
#[verifier::external_type_specification]
#[verifier::external_body]
#[verifier::reject_recursive_types(T)]
pub struct ExConstGenericRingBuffer<T, const CAP: usize>(ConstGenericRingBuffer<T, CAP>);

/// The detections that a window holds, from the oldest to the newest.
pub uninterp spec fn window_contents(window: ConstGenericRingBuffer<Detection, 50>) -> Seq<
    Detection,
>;

/// Number of detections that were pushed into a window since it was made or
/// last cleared.
pub uninterp spec fn window_written(window: ConstGenericRingBuffer<Detection, 50>) -> nat;

/// What a full or not yet full window holds after one more detection: the
/// oldest one leaves where there are fifty already.
pub open spec fn spec_pushed(contents: Seq<Detection>, detection: Detection) -> Seq<Detection> {
    if contents.len() < WINDOW_CAPACITY {
        contents.push(detection)
    } else {
        contents.skip(1).push(detection)
    }
}

/// `ConstGenericRingBuffer::new`: the buffer starts empty, with its write
/// position at zero.
#[verifier::external_body]
fn window_new() -> (window: ConstGenericRingBuffer<Detection, 50>)
    ensures
        window_contents(window) == Seq::<Detection>::empty(),
        window_written(window) == 0,
{
    ConstGenericRingBuffer::new()
}

/// `RingBufferWrite::push`: the value goes in behind the others, and the
/// oldest leaves first where the buffer is full. The write position of the
/// buffer counts every push and must not run over.
#[verifier::external_body]
fn window_push(window: &mut ConstGenericRingBuffer<Detection, 50>, detection: Detection)
    requires
        window_written(*old(window)) < usize::MAX,
    ensures
        window_contents(*final(window)) == spec_pushed(window_contents(*old(window)), detection),
        window_written(*final(window)) == window_written(*old(window)) + 1,
{
    window.push(detection)
}

/// `RingBufferRead::drain` with `Iterator::collect`: every value is taken
/// out and handed back, from the oldest to the newest. The write position
/// stays.
#[verifier::external_body]
fn window_drain(window: &mut ConstGenericRingBuffer<Detection, 50>) -> (all: Vec<Detection>)
    ensures
        window_contents(*final(window)) == Seq::<Detection>::empty(),
        window_written(*final(window)) == window_written(*old(window)),
        all@ == window_contents(*old(window)),
{
    window.drain().collect()
}

/// `RingBufferExt::clear`: the buffer is emptied and its write position goes
/// back to zero.
#[verifier::external_body]
fn window_clear(window: &mut ConstGenericRingBuffer<Detection, 50>)
    ensures
        window_contents(*final(window)) == Seq::<Detection>::empty(),
        window_written(*final(window)) == 0,
{
    window.clear()
}

/// `RingBuffer::len`: the number of values in the buffer.
#[verifier::external_body]
fn window_len(window: &ConstGenericRingBuffer<Detection, 50>) -> (n: usize)
    ensures
        n == window_contents(*window).len(),
{
    window.len()
}

/// A thing that is followed from tick to tick: its last state, the raw
/// detections that have come in since, and the time of its last update.
pub struct TrackedEntity<T> {
    pub(crate) packets: ConstGenericRingBuffer<Detection, 50>,
    pub(crate) written: usize,
    pub(crate) data: T,
    pub(crate) last_update: i64,
}

impl<T> TrackedEntity<T> {
    /// The raw detections in the window, from the oldest to the newest.
    pub open(crate) spec fn spec_packets(&self) -> Seq<Detection> {
        window_contents(self.packets)
    }

    /// Number of detections that the window has counted since it was made or
    /// last renewed.
    pub open(crate) spec fn spec_written(&self) -> usize {
        self.written
    }

    /// The last state made of the thing.
    pub open(crate) spec fn spec_data(&self) -> T {
        self.data
    }

    /// When the state was last made anew.
    pub open(crate) spec fn spec_last_update(&self) -> i64 {
        self.last_update
    }

    /// The window never holds more than fifty detections, and the count of
    /// what was written into it is right.
    pub open(crate) spec fn wf(&self) -> bool {
        &&& self.spec_packets().len() <= WINDOW_CAPACITY
        &&& self.written == window_written(self.packets)
    }

    /// A thing in the state `data`, with an empty window.
    pub fn new(data: T, now: i64) -> (r: TrackedEntity<T>)
        ensures
            r.wf(),
            r.spec_packets() == Seq::<Detection>::empty(),
            r.spec_data() == data,
            r.spec_last_update() == now,
    {
        TrackedEntity { packets: window_new(), written: 0, data, last_update: now }
    }

    /// The last state made of the thing.
    pub fn data(&self) -> (r: &T)
        ensures
            *r == self.spec_data(),
    {
        &self.data
    }

    /// When the state was last made anew.
    pub fn last_update(&self) -> (r: i64)
        ensures
            r == self.spec_last_update(),
    {
        self.last_update
    }

    /// Makes the state anew.
    pub fn set_data(&mut self, data: T, now: i64)
        ensures
            final(self).spec_data() == data,
            final(self).spec_last_update() == now,
            final(self).spec_packets() == old(self).spec_packets(),
            old(self).wf() ==> final(self).wf(),
    {
        self.data = data;
        self.last_update = now;
    }

    /// Number of raw detections in the window.
    pub fn packets_len(&self) -> (n: usize)
        ensures
            n == self.spec_packets().len(),
    {
        window_len(&self.packets)
    }

    /// Makes room in the count of what was written: the window is emptied,
    /// cleared and filled again with what it held, so that it holds the same
    /// detections and has counted only these.
    pub fn renew(&mut self)
        requires
            old(self).wf(),
        ensures
            final(self).wf(),
            final(self).spec_packets() == old(self).spec_packets(),
            final(self).spec_data() == old(self).spec_data(),
            final(self).spec_last_update() == old(self).spec_last_update(),
            final(self).spec_written() <= WINDOW_CAPACITY,
    {
        let held = window_drain(&mut self.packets);
        window_clear(&mut self.packets);
        self.written = 0;
        let mut i: usize = 0;
        while i < held.len()
            invariant
                0 <= i <= held.len(),
                held@.len() <= WINDOW_CAPACITY,
                self.written == i,
                self.written == window_written(self.packets),
                window_contents(self.packets) == held@.take(i as int),
                self.data == old(self).data,
                self.last_update == old(self).last_update,
            decreases held.len() - i,
        {
            window_push(&mut self.packets, held[i]);
            self.written = self.written + 1;
            assert(held@.take(i as int + 1) =~= held@.take(i as int).push(held@[i as int]));
            i += 1;
        }
        assert(held@.take(held.len() as int) =~= held@);
    }

    /// Puts one raw detection into the window; the oldest leaves where the
    /// window is full.
    pub fn handle_packet(&mut self, packet: Detection)
        requires
            old(self).wf(),
        ensures
            final(self).wf(),
            final(self).spec_packets() == spec_pushed(old(self).spec_packets(), packet),
            final(self).spec_packets().len() <= WINDOW_CAPACITY,
            final(self).spec_data() == old(self).spec_data(),
            final(self).spec_last_update() == old(self).spec_last_update(),
    {
        if self.written == usize::MAX {
            self.renew();
        }
        window_push(&mut self.packets, packet);
        self.written = self.written + 1;
    }

    /// What the window holds after the first `upto` of `packets` were put in.
    pub open spec fn spec_handled(contents: Seq<Detection>, packets: Seq<Detection>, upto: int) -> Seq<
        Detection,
    >
        decreases upto,
    {
        if upto <= 0 {
            contents
        } else {
            spec_pushed(Self::spec_handled(contents, packets, upto - 1), packets[upto - 1])
        }
    }

    /// Puts raw detections into the window, in order.
    pub fn handle_packets(&mut self, packets: &Vec<Detection>)
        requires
            old(self).wf(),
        ensures
            final(self).wf(),
            final(self).spec_packets() == Self::spec_handled(
                old(self).spec_packets(),
                packets@,
                packets@.len() as int,
            ),
            final(self).spec_data() == old(self).spec_data(),
            final(self).spec_last_update() == old(self).spec_last_update(),
    {
        let mut i: usize = 0;
        while i < packets.len()
            invariant
                0 <= i <= packets.len(),
                self.wf(),
                self.spec_packets() == Self::spec_handled(
                    old(self).spec_packets(),
                    packets@,
                    i as int,
                ),
                self.data == old(self).data,
                self.last_update == old(self).last_update,
            decreases packets.len() - i,
        {
            self.handle_packet(packets[i]);
            i += 1;
        }
    }

    /// Empties the window and hands back the newest detection that it held.
    pub fn take_last_packet(&mut self) -> (last: Option<Detection>)
        requires
            old(self).wf(),
        ensures
            final(self).wf(),
            final(self).spec_packets() == Seq::<Detection>::empty(),
            final(self).spec_data() == old(self).spec_data(),
            final(self).spec_last_update() == old(self).spec_last_update(),
            last == if old(self).spec_packets().len() > 0 {
                Some(old(self).spec_packets().last())
            } else {
                None
            },
    {
        let held = window_drain(&mut self.packets);
        let n = held.len();
        if n > 0 {
            Some(held[n - 1])
        } else {
            None
        }
    }
}

} // verus!
