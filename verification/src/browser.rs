//! Host-neutral state at the browser boundary.

use std::collections::VecDeque;
use vstd::prelude::*;
use crate::bytes;

verus! {

pub const CONSOLE_INPUT_CAPACITY: usize = 1024;

#[derive(Clone, Copy, Debug, PartialEq, Eq, Structural)]
pub struct TerminalSize {
    pub columns: u16,
    pub rows: u16,
}

#[derive(Clone, Copy, Debug, PartialEq, Eq, Structural)]
pub struct KeyEvent {
    pub pressed: bool,
    pub code: u16,
}

#[derive(Clone, Copy, Debug, PartialEq, Eq, Structural)]
pub struct PointerEvent {
    pub x: u32,
    pub y: u32,
    pub wheel: i32,
    pub buttons: u32,
}

#[derive(Clone, Debug, PartialEq, Eq)]
pub enum BrowserEvent {
    Key(KeyEvent),
    Pointer(PointerEvent),
    NetworkPacket(Vec<u8>),
    NetworkCarrier(bool),
}

/// The model of an event.
pub enum EventModel {
    Key(KeyEvent),
    Pointer(PointerEvent),
    NetworkPacket(Seq<u8>),
    NetworkCarrier(bool),
}

impl View for BrowserEvent {
    type V = EventModel;

    open spec fn view(&self) -> EventModel {
        match self {
            BrowserEvent::Key(event) => EventModel::Key(*event),
            BrowserEvent::Pointer(event) => EventModel::Pointer(*event),
            BrowserEvent::NetworkPacket(packet) => EventModel::NetworkPacket(packet@),
            BrowserEvent::NetworkCarrier(up) => EventModel::NetworkCarrier(*up),
        }
    }
}

/// The models of a list of events.
pub open spec fn event_models(events: Seq<BrowserEvent>) -> Seq<EventModel> {
    events.map_values(|event: BrowserEvent| event@)
}

/// Input from the page that waits for the machine.
#[derive(Debug)]
pub struct BrowserController {
    pub console: VecDeque<u8>,
    pub resize: Option<TerminalSize>,
    pub events: VecDeque<BrowserEvent>,
    pub pointer_x: u32,
    pub pointer_y: u32,
    pub pointer_buttons: u32,
    pub network_carrier: bool,
}

/// The model of the waiting input.
#[verifier::ext_equal]
pub struct ControllerModel {
    pub console: Seq<u8>,
    pub resize: Option<TerminalSize>,
    pub events: Seq<EventModel>,
    pub pointer_x: u32,
    pub pointer_y: u32,
    pub pointer_buttons: u32,
    pub network_carrier: bool,
}

impl View for BrowserController {
    type V = ControllerModel;

    open spec fn view(&self) -> ControllerModel {
        ControllerModel {
            console: self.console@,
            resize: self.resize,
            events: event_models(self.events@),
            pointer_x: self.pointer_x,
            pointer_y: self.pointer_y,
            pointer_buttons: self.pointer_buttons,
            network_carrier: self.network_carrier,
        }
    }
}

impl ControllerModel {
    pub open spec fn initial() -> ControllerModel {
        ControllerModel {
            console: Seq::empty(),
            resize: None,
            events: Seq::empty(),
            pointer_x: 0,
            pointer_y: 0,
            pointer_buttons: 0,
            network_carrier: false,
        }
    }

    /// How many of `len` bytes the console queue has room for.
    pub open spec fn accepts(self, len: nat) -> nat {
        let room = if self.console.len() < CONSOLE_INPUT_CAPACITY {
            (CONSOLE_INPUT_CAPACITY - self.console.len()) as nat
        } else {
            0
        };
        if len < room {
            len
        } else {
            room
        }
    }

    /// How many of at most `len` bytes the console queue can give.
    pub open spec fn gives(self, len: nat) -> nat {
        if len < self.console.len() {
            len
        } else {
            self.console.len()
        }
    }

    pub open spec fn with_event(self, event: EventModel) -> ControllerModel {
        ControllerModel { events: self.events.push(event), ..self }
    }

    pub open spec fn pointed(self, x: u32, y: u32, buttons: u32) -> ControllerModel {
        ControllerModel { pointer_x: x, pointer_y: y, pointer_buttons: buttons, ..self }.with_event(
            EventModel::Pointer(PointerEvent { x, y, wheel: 0, buttons }),
        )
    }

    pub open spec fn turned(self, wheel: i32) -> ControllerModel {
        self.with_event(
            EventModel::Pointer(
                PointerEvent {
                    x: self.pointer_x,
                    y: self.pointer_y,
                    wheel,
                    buttons: self.pointer_buttons,
                },
            ),
        )
    }
}

impl Default for BrowserController {
    fn default() -> (r: Self)
        ensures
            r@ == ControllerModel::initial(),
    {
        let r = BrowserController {
            console: VecDeque::new(),
            resize: None,
            events: VecDeque::new(),
            pointer_x: 0,
            pointer_y: 0,
            pointer_buttons: 0,
            network_carrier: false,
        };
        assert(r@ =~= ControllerModel::initial());
        r
    }
}

impl BrowserController {
    /// Queues as much terminal input as the fixed browser FIFO can hold.
    pub fn queue_console(&mut self, data: &[u8]) -> (r: usize)
        ensures
            r == old(self)@.accepts(data@.len()),
            final(self)@ == (ControllerModel {
                console: old(self)@.console + data@.take(r as int),
                ..old(self)@
            }),
    {
        let room: usize = if self.console.len() < CONSOLE_INPUT_CAPACITY {
            CONSOLE_INPUT_CAPACITY - self.console.len()
        } else {
            0
        };
        let accepted: usize = if data.len() < room {
            data.len()
        } else {
            room
        };
        let mut i: usize = 0;
        assert(self.console@ =~= old(self)@.console + data@.take(0));
        while i < accepted
            invariant
                i <= accepted <= data@.len(),
                self.console@ == old(self)@.console + data@.take(i as int),
                self@ == (ControllerModel { console: self.console@, ..old(self)@ }),
            decreases accepted - i,
        {
            self.console.push_back(data[i]);
            assert(data@.take(i + 1) =~= data@.take(i as int).push(data@[i as int]));
            assert(self.console@ =~= old(self)@.console + data@.take(i + 1));
            i = i + 1;
        }
        accepted
    }

    /// Removes queued terminal bytes into `output`.
    pub fn read_console(&mut self, output: &mut [u8]) -> (r: usize)
        ensures
            r == old(self)@.gives(old(output)@.len()),
            final(output)@ == bytes::spliced(old(output)@, 0, old(self)@.console.take(r as int)),
            final(self)@ == (ControllerModel {
                console: old(self)@.console.skip(r as int),
                ..old(self)@
            }),
    {
        let count: usize = if output.len() < self.console.len() {
            output.len()
        } else {
            self.console.len()
        };
        let mut i: usize = 0;
        let ghost queued = self.console@;
        assert(self.console@ =~= queued.skip(0));
        assert(output@ =~= bytes::spliced(output@, 0, queued.take(0)));
        while i < count
            invariant
                i <= count <= queued.len(),
                count <= output@.len(),
                output@.len() == old(output)@.len(),
                queued == old(self)@.console,
                self.console@ == queued.skip(i as int),
                output@ == bytes::spliced(old(output)@, 0, queued.take(i as int)),
                self@ == (ControllerModel { console: self.console@, ..old(self)@ }),
            decreases count - i,
        {
            match self.console.pop_front() {
                Some(byte) => {
                    output[i] = byte;
                    assert(queued.skip(i as int)[0] == queued[i as int]);
                },
                None => {},
            }
            assert(self.console@ =~= queued.skip(i + 1));
            assert(output@ =~= bytes::spliced(old(output)@, 0, queued.take(i + 1)));
            i = i + 1;
        }
        count
    }

    /// Records the latest terminal dimensions.
    pub fn resize(&mut self, columns: u16, rows: u16)
        ensures
            final(self)@ == (ControllerModel {
                resize: Some(TerminalSize { columns, rows }),
                ..old(self)@
            }),
    {
        self.resize = Some(TerminalSize { columns, rows });
    }

    /// Takes a pending terminal resize.
    pub fn take_resize(&mut self) -> (r: Option<TerminalSize>)
        ensures
            r == old(self)@.resize,
            final(self)@ == (ControllerModel { resize: None, ..old(self)@ }),
    {
        let size: Option<TerminalSize> = self.resize;
        self.resize = None;
        size
    }

    fn push(&mut self, event: BrowserEvent)
        ensures
            final(self)@ == old(self)@.with_event(event@),
    {
        self.events.push_back(event);
        assert(event_models(self.events@) =~= old(self)@.events.push(event@));
    }

    /// Queues a keyboard transition.
    pub fn key_event(&mut self, pressed: bool, code: u16)
        ensures
            final(self)@ == old(self)@.with_event(EventModel::Key(KeyEvent { pressed, code })),
    {
        self.push(BrowserEvent::Key(KeyEvent { pressed, code }));
    }

    /// Queues a pointer position and button state.
    pub fn pointer_event(&mut self, x: u32, y: u32, buttons: u32)
        ensures
            final(self)@ == old(self)@.pointed(x, y, buttons),
    {
        self.pointer_x = x;
        self.pointer_y = y;
        self.pointer_buttons = buttons;
        self.push(BrowserEvent::Pointer(PointerEvent { x, y, wheel: 0, buttons }));
    }

    /// Queues a wheel movement at the last pointer position.
    pub fn wheel_event(&mut self, wheel: i32)
        ensures
            final(self)@ == old(self)@.turned(wheel),
    {
        let x: u32 = self.pointer_x;
        let y: u32 = self.pointer_y;
        let buttons: u32 = self.pointer_buttons;
        self.push(BrowserEvent::Pointer(PointerEvent { x, y, wheel, buttons }));
    }

    /// Queues one packet received from the browser network backend.
    pub fn network_packet(&mut self, packet: &[u8])
        ensures
            final(self)@ == old(self)@.with_event(EventModel::NetworkPacket(packet@)),
    {
        let data: Vec<u8> = bytes::copy_range(packet, 0, packet.len());
        assert(data@ =~= packet@);
        self.push(BrowserEvent::NetworkPacket(data));
    }

    /// Records and queues a browser network carrier transition.
    pub fn network_carrier(&mut self, up: bool)
        ensures
            final(self)@ == (ControllerModel {
                network_carrier: up,
                ..old(self)@
            }).with_event(EventModel::NetworkCarrier(up)),
    {
        self.network_carrier = up;
        self.push(BrowserEvent::NetworkCarrier(up));
    }

    #[must_use]
    pub fn carrier_is_up(&self) -> (r: bool)
        ensures
            r == self@.network_carrier,
    {
        self.network_carrier
    }

    /// Removes the oldest pending browser event.
    pub fn next_event(&mut self) -> (r: Option<BrowserEvent>)
        ensures
            match r {
                Some(event) => old(self)@.events.len() > 0 && event@ == old(self)@.events[0]
                    && final(self)@ == (ControllerModel {
                    events: old(self)@.events.skip(1),
                    ..old(self)@
                }),
                None => old(self)@.events.len() == 0 && final(self)@ == old(self)@,
            },
    {
        let event: Option<BrowserEvent> = self.events.pop_front();
        assert(event is Some ==> event_models(self.events@) =~= old(self)@.events.skip(1));
        assert(event is None ==> event_models(self.events@) =~= old(self)@.events);
        event
    }
}

/// What is typed comes out in the order in which it went in, and the queue
/// never holds more than its capacity.
pub proof fn law_console_input_in_order(c: ControllerModel, data: Seq<u8>, len: nat)
    requires
        c.console.len() <= CONSOLE_INPUT_CAPACITY,
    ensures
        ({
            let n = c.accepts(data.len());
            let after = ControllerModel { console: c.console + data.take(n as int), ..c };
            let g = after.gives(len);
            &&& after.console.len() <= CONSOLE_INPUT_CAPACITY
            &&& after.console.take(g as int) + after.console.skip(g as int) == c.console
                + data.take(n as int)
            &&& n == data.len() || after.console.len() == CONSOLE_INPUT_CAPACITY
        }),
{
    let n = c.accepts(data.len());
    let after = ControllerModel { console: c.console + data.take(n as int), ..c };
    let g = after.gives(len);
    assert(after.console.take(g as int) + after.console.skip(g as int) =~= after.console);
}

#[derive(Clone, Copy, Debug, PartialEq, Eq, Structural)]
pub struct RunPolicy {
    pub block_cycles: u32,
    pub yield_cycles: u32,
    pub maximum_delay_ms: u32,
}

impl Default for RunPolicy {
    fn default() -> (r: Self)
        ensures
            r == (RunPolicy {
                block_cycles: 200_000,
                yield_cycles: 3_000_000,
                maximum_delay_ms: 10,
            }),
    {
        RunPolicy { block_cycles: 200_000, yield_cycles: 3_000_000, maximum_delay_ms: 10 }
    }
}

impl RunPolicy {
    /// The number of blocks in a slice, rounded up; a block is never empty.
    pub open spec fn blocks(self) -> int {
        let block: int = if self.block_cycles == 0 {
            1
        } else {
            self.block_cycles as int
        };
        (self.yield_cycles + block - 1) / block
    }

    #[must_use]
    pub fn blocks_per_slice(self) -> (r: u32)
        ensures
            r == self.blocks(),
    {
        let block: u64 = if self.block_cycles == 0 {
            1
        } else {
            self.block_cycles as u64
        };
        let count: u64 = (self.yield_cycles as u64 + block - 1) / block;
        proof {
            let y = self.yield_cycles as int;
            let b = block as int;
            assert((y + b - 1) / b <= u32::MAX) by (nonlinear_arith)
                requires
                    0 <= y <= u32::MAX,
                    b >= 1,
            ;
        }
        count as u32
    }

    #[must_use]
    pub fn scheduled_delay(self, requested_delay_ms: u32) -> (r: u32)
        ensures
            r == (if requested_delay_ms < self.maximum_delay_ms {
                requested_delay_ms
            } else {
                self.maximum_delay_ms
            }),
    {
        if requested_delay_ms < self.maximum_delay_ms {
            requested_delay_ms
        } else {
            self.maximum_delay_ms
        }
    }
}

} // verus!
