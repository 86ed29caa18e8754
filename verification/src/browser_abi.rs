//! What the calls of the raw WebAssembly adapter do, on plain values.

use vstd::prelude::*;
use crate::browser::{BrowserController, ControllerModel, EventModel, KeyEvent, TerminalSize};
use crate::browser_runtime::{BrowserRuntime, RuntimeModel, RuntimeStart, StateModel};
use crate::entropy::{EntropyError, EntropySource};
use crate::machine::FramebufferUpdate;
use crate::running::{HostAction, HostActionModel};
use crate::text;

verus! {

/// A start that the page has asked for.
#[derive(Clone, Debug, PartialEq, Eq)]
pub struct StartRequest {
    pub config_url: String,
    pub ram_mib: u32,
    pub command_line: String,
    pub password: String,
    pub width: u32,
    pub height: u32,
    pub has_network: bool,
}

/// The model of a start that the page has asked for.
#[verifier::ext_equal]
pub struct RequestedStart {
    pub config_url: Seq<char>,
    pub ram_mib: u32,
    pub command_line: Seq<char>,
    pub password: Seq<char>,
    pub width: u32,
    pub height: u32,
    pub has_network: bool,
}

impl View for StartRequest {
    type V = RequestedStart;

    open spec fn view(&self) -> RequestedStart {
        RequestedStart {
            config_url: self.config_url@,
            ram_mib: self.ram_mib,
            command_line: self.command_line@,
            password: self.password@,
            width: self.width,
            height: self.height,
            has_network: self.has_network,
        }
    }
}

/// A time in milliseconds from its two halves.
pub fn milliseconds_from_parts(low: u32, high: u32) -> (r: u64)
    ensures
        r == high * 0x1_0000_0000 + low,
{
    high as u64 * 0x1_0000_0000 + low as u64
}

/// The number of an action for the adapter.
pub open spec fn action_code(action: Option<HostActionModel>) -> u32 {
    match action {
        None => 0,
        Some(HostActionModel::Request { .. }) => 1,
        Some(HostActionModel::Started) => 2,
        Some(HostActionModel::Console(_)) => 3,
        Some(HostActionModel::Network(_)) => 4,
        Some(HostActionModel::Framebuffer(_)) => 6,
        Some(HostActionModel::NineP(_)) => 7,
    }
}

/// The calls' state: input of the page, the machine, and the action that the
/// adapter is looking at.
pub struct BrowserAbi<E: EntropySource> {
    pub controller: BrowserController,
    pub start: Option<StartRequest>,
    pub runtime: BrowserRuntime<E>,
    pub action: Option<HostAction>,
}

/// The model of the calls' state.
#[verifier::ext_equal]
pub struct AbiModel<E: EntropySource> {
    pub controller: ControllerModel,
    pub start: Option<RequestedStart>,
    pub runtime: RuntimeModel<E>,
    pub action: Option<HostActionModel>,
}

impl<E: EntropySource> View for BrowserAbi<E> {
    type V = AbiModel<E>;

    open spec fn view(&self) -> AbiModel<E> {
        AbiModel {
            controller: self.controller@,
            start: match self.start {
                Some(start) => Some(start@),
                None => None,
            },
            runtime: self.runtime@,
            action: match self.action {
                Some(action) => Some(action@),
                None => None,
            },
        }
    }
}

impl<E: EntropySource> AbiModel<E> {
    pub open spec fn valid(self) -> bool {
        self.runtime.valid()
    }

    pub open spec fn initial() -> AbiModel<E> {
        AbiModel {
            controller: ControllerModel::initial(),
            start: None,
            runtime: RuntimeModel::initial(),
            action: None,
        }
    }

    pub open spec fn with_controller(self, controller: ControllerModel) -> AbiModel<E> {
        AbiModel { controller, ..self }
    }

    /// A start with a location and some memory; one while a machine is there is
    /// remembered but refused.
    pub open spec fn started(self, request: RequestedStart) -> (i32, AbiModel<E>) {
        if request.config_url.len() == 0 || request.ram_mib == 0 {
            (-1i32, self)
        } else {
            let asked = AbiModel { start: Some(request), ..self };
            if self.runtime.state is VmInactive {
                (
                    0,
                    AbiModel {
                        runtime: RuntimeModel {
                            state: StateModel::Config {
                                start: crate::browser_runtime::StartModel {
                                    config_url: request.config_url,
                                    ram_mib: request.ram_mib,
                                    command_line: request.command_line,
                                    width: request.width,
                                    height: request.height,
                                    has_network: request.has_network,
                                },
                                request_id: self.runtime.out.next_request_id,
                            },
                            out: self.runtime.out.requested(request.config_url),
                            ..self.runtime
                        },
                        ..asked
                    },
                )
            } else {
                (-1i32, asked)
            }
        }
    }
}

impl<E: EntropySource> Default for BrowserAbi<E> {
    fn default() -> (r: Self)
        ensures
            r@ == AbiModel::<E>::initial(),
            r@.valid(),
    {
        BrowserAbi {
            controller: BrowserController::default(),
            start: None,
            runtime: BrowserRuntime::default(),
            action: None,
        }
    }
}

impl<E: EntropySource> BrowserAbi<E> {
    /// Starts a machine; zero if that can go on.
    pub fn start(&mut self, request: StartRequest) -> (r: i32)
        requires
            old(self)@.valid(),
        ensures
            (r, final(self)@) == old(self)@.started(request@),
            final(self)@.valid(),
    {
        let letters: Vec<char> = text::chars_of(request.config_url.as_str());
        if letters.len() == 0 || request.ram_mib == 0 {
            return -1;
        }
        let start: RuntimeStart = RuntimeStart {
            config_url: request.config_url.as_str().to_owned(),
            ram_mib: request.ram_mib,
            command_line: request.command_line.as_str().to_owned(),
            width: request.width,
            height: request.height,
            has_network: request.has_network,
        };
        self.start = Some(request);
        match self.runtime.start(start) {
            Ok(()) => 0,
            Err(_) => -1,
        }
    }

    /// Takes the last start that was asked for.
    #[must_use]
    pub fn take_start_request(&mut self) -> (r: Option<StartRequest>)
        ensures
            match r {
                Some(request) => old(self)@.start == Some(request@),
                None => old(self)@.start is None,
            },
            final(self)@ == (AbiModel { start: None, ..old(self)@ }),
            old(self)@.valid() ==> final(self)@.valid(),
    {
        let mut start: Option<StartRequest> = None;
        std::mem::swap(&mut start, &mut self.start);
        start
    }

    /// The input of the page.
    pub fn with_controller(&mut self) -> (r: &mut BrowserController)
        ensures
            *r == old(self).controller,
            *final(self) == (BrowserAbi { controller: *final(r), ..*old(self) }),
    {
        &mut self.controller
    }

    /// Queues console input and returns how much of it was taken.
    pub fn console_input(&mut self, data: &[u8]) -> (r: u32)
        ensures
            r == old(self)@.controller.accepts(data@.len()),
            final(self)@ == old(self)@.with_controller(
                ControllerModel {
                    console: old(self)@.controller.console + data@.take(r as int),
                    ..old(self)@.controller
                },
            ),
            old(self)@.valid() ==> final(self)@.valid(),
    {
        let count: usize = self.controller.queue_console(data);
        count as u32
    }

    /// Queues a new size of the terminal, if it fits.
    pub fn console_resize(&mut self, columns: u32, rows: u32) -> (r: i32)
        ensures
            r == (if columns > 0xffff || rows > 0xffff {
                -1i32
            } else {
                0
            }),
            final(self)@ == (if r == 0 {
                old(self)@.with_controller(
                    ControllerModel {
                        resize: Some(TerminalSize { columns: columns as u16, rows: rows as u16 }),
                        ..old(self)@.controller
                    },
                )
            } else {
                old(self)@
            }),
            old(self)@.valid() ==> final(self)@.valid(),
    {
        if columns > 0xffff || rows > 0xffff {
            return -1;
        }
        self.controller.resize(columns as u16, rows as u16);
        0
    }

    /// Queues a key transition, if its code fits.
    pub fn key_event(&mut self, pressed: u32, code: u32) -> (r: i32)
        ensures
            r == (if code > 0xffff {
                -1i32
            } else {
                0
            }),
            final(self)@ == (if r == 0 {
                old(self)@.with_controller(
                    old(self)@.controller.with_event(
                        EventModel::Key(KeyEvent { pressed: pressed != 0, code: code as u16 }),
                    ),
                )
            } else {
                old(self)@
            }),
            old(self)@.valid() ==> final(self)@.valid(),
    {
        if code > 0xffff {
            return -1;
        }
        self.controller.key_event(pressed != 0, code as u16);
        0
    }

    /// Moves on to the next action and returns its number.
    pub fn next_action(&mut self) -> (r: u32)
        ensures
            final(self)@.action == (if old(self)@.runtime.out.actions.len() > 0 {
                Some(old(self)@.runtime.out.actions[0])
            } else {
                None
            }),
            r == action_code(final(self)@.action),
            final(self)@ == (AbiModel {
                action: final(self)@.action,
                runtime: final(self)@.runtime,
                ..old(self)@
            }),
            final(self)@.runtime == (if old(self)@.runtime.out.actions.len() > 0 {
                RuntimeModel {
                    out: crate::running::OutboxModel {
                        actions: old(self)@.runtime.out.actions.skip(1),
                        ..old(self)@.runtime.out
                    },
                    ..old(self)@.runtime
                }
            } else {
                old(self)@.runtime
            }),
            old(self)@.valid() ==> final(self)@.valid(),
    {
        self.action = self.runtime.next_action();
        match &self.action {
            None => 0,
            Some(HostAction::Request(_)) => 1,
            Some(HostAction::Started) => 2,
            Some(HostAction::Console(_)) => 3,
            Some(HostAction::Network(_)) => 4,
            Some(HostAction::Framebuffer(_)) => 6,
            Some(HostAction::NineP(_)) => 7,
        }
    }

    /// The number of the request that the action is about.
    #[must_use]
    pub fn action_value(&self) -> (r: u32)
        ensures
            r == (match self@.action {
                Some(HostActionModel::Request { id, .. }) => id,
                _ => 0,
            }),
    {
        match &self.action {
            Some(HostAction::Request(request)) => request.id,
            _ => 0,
        }
    }

    /// The part of the display that the action is about.
    #[must_use]
    pub fn framebuffer_action(&self) -> (r: Option<FramebufferUpdate>)
        ensures
            r == (match self@.action {
                Some(HostActionModel::Framebuffer(update)) => Some(update),
                _ => None,
            }),
    {
        match &self.action {
            Some(HostAction::Framebuffer(update)) => Some(*update),
            _ => None,
        }
    }

    /// Supplies the answer to an HTTP request; zero if that can go on.
    pub fn http_complete(
        &mut self,
        id: u32,
        status: u32,
        data: Vec<u8>,
        entropy: Result<(E, E), EntropyError>,
    ) -> (r: i32)
        requires
            old(self)@.valid(),
        ensures
            status > 0xffff ==> r == -1 && final(self)@ == old(self)@,
            status <= 0xffff ==> {
                let (result, runtime) = old(self)@.runtime.answered(
                    id,
                    status as u16,
                    data@,
                    crate::browser_runtime::sources(entropy),
                );
                &&& r == (if result is Ok {
                    0i32
                } else {
                    -1i32
                })
                &&& final(self)@ == (AbiModel { runtime, ..old(self)@ })
            },
            final(self)@.valid(),
    {
        if status > 0xffff {
            return -1;
        }
        match self.runtime.complete_http(id, status as u16, data, entropy) {
            Ok(()) => 0,
            Err(_) => -1,
        }
    }
}

} // verus!
