//! The lifecycle controller: the state that a process keeps about its
//! pipelines, its status and its shutdown, and the decisions of the
//! shutdown protocol.

pub mod kvs;

use vstd::prelude::*;
use crate::error::PipelineError;

verus! {

/// The signal that a shutdown sends while none was set: the interrupt
/// signal, which is number 2 wherever there are signals.
pub const DEFAULT_SHUTDOWN_SIGNAL: i32 = 2;

/// The capacity of the attribute store that the controller keeps.
pub const MAX_TTL_KVS_CAPACITY: u64 = 100_000;

/// What the status endpoint reports.
#[derive(Clone, Copy, Debug, PartialEq, Eq, Structural)]
pub enum PipelineStatus {
    Running,
    Stopped,
    Shutdown,
}

impl PipelineStatus {
    /// The name of the status on the wire.
    pub open spec fn name(self) -> Seq<char> {
        match self {
            PipelineStatus::Running => "running"@,
            PipelineStatus::Stopped => "stopped"@,
            PipelineStatus::Shutdown => "shutdown"@,
        }
    }

    /// The name of the status on the wire.
    pub fn as_str(&self) -> (r: &'static str)
        ensures
            r@ == self.name(),
    {
        match self {
            PipelineStatus::Running => "running",
            PipelineStatus::Stopped => "stopped",
            PipelineStatus::Shutdown => "shutdown",
        }
    }
}

/// How a shutdown request wants the process to learn of it.
#[derive(Clone, Copy, Debug, PartialEq, Eq, Structural)]
pub enum ShutdownMode {
    /// `graceful`: the status changes, and the process is left to notice.
    Notify,
    /// `signal`: the status changes, and the process gets the shutdown
    /// signal.
    Signal,
}

impl ShutdownMode {
    /// The mode that the word in the request path names, if it names one.
    pub fn from_name(name: &str) -> (r: Option<ShutdownMode>)
        ensures
            r == (if name@ == "graceful"@ {
                Some(ShutdownMode::Notify)
            } else if name@ == "signal"@ {
                Some(ShutdownMode::Signal)
            } else {
                None
            }),
    {
        let word = name.to_string();
        if word == "graceful".to_string() {
            Some(ShutdownMode::Notify)
        } else if word == "signal".to_string() {
            Some(ShutdownMode::Signal)
        } else {
            None
        }
    }
}

/// Whether the web server was started, and whether it was stopped since.
#[derive(Clone, Copy, Debug, PartialEq, Eq, Structural)]
pub enum ServerState {
    NotStarted,
    Running,
    Stopped,
}

/// What the shutdown endpoint answers, and what is left to do.
#[derive(Clone, Copy, Debug, PartialEq, Eq, Structural)]
pub enum ShutdownReply {
    /// No shutdown token is set: the endpoint is disabled.
    NotSupported,
    /// The token of the request is not the shutdown token.
    Unauthorized,
    /// A shutdown was accepted before.
    AlreadyShutDown,
    /// The shutdown is accepted, and nothing is left to do.
    Accepted,
    /// The shutdown is accepted, and the signal is still to be sent to the
    /// process.
    AcceptedWithSignal { pid: i32, signal: i32 },
}

impl ShutdownReply {
    /// The HTTP status code of the answer.
    pub open spec fn code(self) -> u16 {
        match self {
            ShutdownReply::Unauthorized => 401,
            ShutdownReply::Accepted => 200,
            ShutdownReply::AcceptedWithSignal { .. } => 200,
            _ => 500,
        }
    }

    /// The HTTP status code of the answer.
    pub fn status_code(&self) -> (r: u16)
        ensures
            r == self.code(),
    {
        match self {
            ShutdownReply::Unauthorized => 401,
            ShutdownReply::Accepted => 200,
            ShutdownReply::AcceptedWithSignal { .. } => 200,
            _ => 500,
        }
    }
}

/// `Signal::try_from` of the `nix` crate: whether the number is a signal of
/// this platform. Nothing is claimed of the result, which differs from
/// platform to platform.
#[verifier::external_body]
fn signal_is_known(signal: i32) -> bool {
    nix::sys::signal::Signal::try_from(signal).is_ok()
}

/// The state of the lifecycle controller.
pub struct WsData {
    pipelines: Vec<usize>,
    status: PipelineStatus,
    shutdown_token: Option<String>,
    shutdown_status: Option<bool>,
    shutdown_signal: Option<i32>,
    pid: i32,
    server: ServerState,
}

/// What a [`WsData`] holds.
pub struct WsDataView {
    /// The handles of the registered pipelines, in the order of their
    /// registration.
    pub pipelines: Seq<usize>,
    pub status: PipelineStatus,
    pub shutdown_token: Option<Seq<char>>,
    pub shutdown_status: Option<bool>,
    pub shutdown_signal: Option<i32>,
    pub pid: i32,
    pub server: ServerState,
}

impl WsDataView {
    /// The signal that a shutdown sends.
    pub open spec fn signal(self) -> i32 {
        match self.shutdown_signal {
            Some(signal) => signal,
            None => DEFAULT_SHUTDOWN_SIGNAL,
        }
    }

    /// The state after the shutdown token was set to `token`: the token is
    /// taken where none was set, and nothing changes where one was.
    pub open spec fn with_token(self, token: Seq<char>) -> WsDataView {
        match self.shutdown_token {
            None => WsDataView { shutdown_token: Some(token), ..self },
            Some(_) => self,
        }
    }

    /// The answer to a shutdown request with the token and the mode.
    pub open spec fn reply(self, token: Seq<char>, mode: ShutdownMode) -> ShutdownReply {
        if self.shutdown_token is None {
            ShutdownReply::NotSupported
        } else if self.shutdown_token != Some(token) {
            ShutdownReply::Unauthorized
        } else if self.shutdown_status is Some {
            ShutdownReply::AlreadyShutDown
        } else if mode == ShutdownMode::Signal {
            ShutdownReply::AcceptedWithSignal { pid: self.pid, signal: self.signal() }
        } else {
            ShutdownReply::Accepted
        }
    }

    /// The state after a shutdown request with the token and the mode: the
    /// first request with the right token latches the shutdown and sets the
    /// status to `Shutdown`; every other request changes nothing.
    pub open spec fn after_request(self, token: Seq<char>, mode: ShutdownMode) -> WsDataView {
        match self.reply(token, mode) {
            ShutdownReply::NotSupported => self,
            ShutdownReply::Unauthorized => self,
            ShutdownReply::AlreadyShutDown => self,
            _ => WsDataView {
                shutdown_status: Some(true),
                status: PipelineStatus::Shutdown,
                ..self
            },
        }
    }
}

impl View for WsData {
    type V = WsDataView;

    closed spec fn view(&self) -> WsDataView {
        WsDataView {
            pipelines: self.pipelines@,
            status: self.status,
            shutdown_token: match self.shutdown_token {
                Some(token) => Some(token@),
                None => None,
            },
            shutdown_status: self.shutdown_status,
            shutdown_signal: self.shutdown_signal,
            pid: self.pid,
            server: self.server,
        }
    }
}

impl WsData {
    /// The state of a process that has done nothing yet: no pipelines,
    /// stopped, nothing set, no server.
    pub fn new() -> (r: Self)
        ensures
            r@ == (WsDataView {
                pipelines: Seq::empty(),
                status: PipelineStatus::Stopped,
                shutdown_token: None,
                shutdown_status: None,
                shutdown_signal: None,
                pid: 0,
                server: ServerState::NotStarted,
            }),
    {
        WsData {
            pipelines: Vec::new(),
            status: PipelineStatus::Stopped,
            shutdown_token: None,
            shutdown_status: None,
            shutdown_signal: None,
            pid: 0,
            server: ServerState::NotStarted,
        }
    }

    /// Sets the status, whatever it was and whether or not the web server
    /// was started. Nothing else changes, and the call never fails.
    pub fn set_status(&mut self, s: PipelineStatus) -> (r: Result<(), PipelineError>)
        ensures
            r is Ok,
            final(self)@ == (WsDataView { status: s, ..old(self)@ }),
    {
        self.status = s;
        Ok(())
    }

    /// Sets the shutdown token if none was set, and says whether the token
    /// in force is the one given. A second token changes nothing, whether
    /// it is the first one again or another.
    pub fn set_shutdown_token(&mut self, token: String) -> (r: bool)
        ensures
            final(self)@ == old(self)@.with_token(token@),
            r == (final(self)@.shutdown_token == Some(token@)),
    {
        match &self.shutdown_token {
            Some(first) => *first == token,
            None => {
                self.shutdown_token = Some(token);
                true
            },
        }
    }
}

/// Once a shutdown token is set, setting a token again changes nothing,
/// whether it is the same token or another.
pub proof fn lemma_shutdown_token_is_set_once(v: WsDataView, first: Seq<char>, second: Seq<char>)
    ensures
        v.with_token(first).with_token(second) == v.with_token(first),
        v.with_token(first).with_token(first) == v.with_token(first),
        v.shutdown_token is None ==> v.with_token(first).shutdown_token == Some(first),
{
}

/// Adds the pipeline of the handle to the registry, and says whether the
/// handle was not registered before. A handle can be registered more than
/// once.
pub fn register_pipeline(data: &mut WsData, pipeline: usize) -> (r: bool)
    ensures
        final(data)@ == (WsDataView { pipelines: old(data)@.pipelines.push(pipeline), ..old(data)@ }),
        r == !old(data)@.pipelines.contains(pipeline),
{
    let mut known = false;
    let mut i: usize = 0;
    while i < data.pipelines.len()
        invariant
            i <= data.pipelines.len(),
            *data == *old(data),
            known == data.pipelines@.take(i as int).contains(pipeline),
        decreases data.pipelines.len() - i,
    {
        let ghost before = data.pipelines@.take(i as int);
        if data.pipelines[i] == pipeline {
            known = true;
        }
        proof {
            let now = data.pipelines@.take(i as int + 1);
            assert(now =~= before.push(data.pipelines@[i as int]));
            if before.contains(pipeline) {
                let k = choose|k: int| 0 <= k < before.len() && before[k] == pipeline;
                assert(now[k] == pipeline);
            }
            if data.pipelines@[i as int] == pipeline {
                assert(now[i as int] == pipeline);
            }
        }
        i += 1;
    }
    assert(data.pipelines@.take(i as int) =~= data.pipelines@);
    data.pipelines.push(pipeline);
    !known
}

/// The handles without those equal to `pipeline`, in their order.
pub open spec fn without(handles: Seq<usize>, pipeline: usize) -> Seq<usize>
    decreases handles.len(),
{
    if handles.len() == 0 {
        Seq::empty()
    } else if handles.last() == pipeline {
        without(handles.drop_last(), pipeline)
    } else {
        without(handles.drop_last(), pipeline).push(handles.last())
    }
}

/// Takes every registration of the handle out of the registry, and says
/// whether there was one.
pub fn unregister_pipeline(data: &mut WsData, pipeline: usize) -> (r: bool)
    ensures
        final(data)@ == (WsDataView {
            pipelines: without(old(data)@.pipelines, pipeline),
            ..old(data)@
        }),
        r == (final(data)@.pipelines.len() != old(data)@.pipelines.len()),
{
    let ghost all = data.pipelines@;
    let mut kept: Vec<usize> = Vec::new();
    let mut i: usize = 0;
    while i < data.pipelines.len()
        invariant
            i <= data.pipelines.len(),
            *data == *old(data),
            all == data.pipelines@,
            kept@ == without(all.take(i as int), pipeline),
        decreases data.pipelines.len() - i,
    {
        proof {
            assert(all.take(i as int + 1).drop_last() =~= all.take(i as int));
            assert(all.take(i as int + 1).last() == all[i as int]);
        }
        if data.pipelines[i] != pipeline {
            kept.push(data.pipelines[i]);
        }
        i += 1;
    }
    assert(all.take(i as int) =~= all);
    let changed = kept.len() != data.pipelines.len();
    data.pipelines = kept;
    changed
}

/// The handles of the registered pipelines, in the order of their
/// registration.
pub fn get_registered_pipelines(data: &WsData) -> (r: Vec<usize>)
    ensures
        r@ == data@.pipelines,
{
    data.pipelines.clone()
}

/// Sets the status, whatever it was and whether or not the web server was
/// started. Nothing else changes, and the call never fails.
pub fn set_status(data: &mut WsData, s: PipelineStatus) -> (r: Result<(), PipelineError>)
    ensures
        r is Ok,
        final(data)@ == (WsDataView { status: s, ..old(data)@ }),
{
    data.set_status(s)
}

/// The status.
pub fn get_status(data: &WsData) -> (r: PipelineStatus)
    ensures
        r == data@.status,
{
    data.status
}

/// Sets the shutdown token if none was set, and says whether the token in
/// force is the one given. A second token changes nothing, whether it is the
/// first one again or another.
pub fn set_shutdown_token(data: &mut WsData, token: String) -> (r: bool)
    ensures
        final(data)@ == old(data)@.with_token(token@),
        r == (final(data)@.shutdown_token == Some(token@)),
{
    data.set_shutdown_token(token)
}

/// The shutdown token, if one was set.
pub fn get_shutdown_token(data: &WsData) -> (r: Option<String>)
    ensures
        match r {
            Some(token) => data@.shutdown_token == Some(token@),
            None => data@.shutdown_token is None,
        },
{
    match &data.shutdown_token {
        Some(token) => Some(token.clone()),
        None => None,
    }
}

/// Whether a shutdown was accepted.
pub fn is_shutdown_set(data: &WsData) -> (r: bool)
    ensures
        r == (data@.shutdown_status == Some(true)),
{
    match data.shutdown_status {
        Some(set) => set,
        None => false,
    }
}

/// Latches the shutdown. It can be latched once.
pub fn shutdown(data: &mut WsData) -> (r: Result<(), PipelineError>)
    ensures
        match r {
            Ok(_) => old(data)@.shutdown_status is None && final(data)@ == (WsDataView {
                shutdown_status: Some(true),
                ..old(data)@
            }),
            Err(e) => e == PipelineError::AlreadySet && old(data)@.shutdown_status is Some
                && final(data)@ == old(data)@,
        },
{
    if data.shutdown_status.is_some() {
        return Err(PipelineError::AlreadySet);
    }
    data.shutdown_status = Some(true);
    Ok(())
}

/// The signal that a shutdown sends.
pub fn get_shutdown_signal(data: &WsData) -> (r: i32)
    ensures
        r == data@.signal(),
{
    match data.shutdown_signal {
        Some(signal) => signal,
        None => DEFAULT_SHUTDOWN_SIGNAL,
    }
}

/// Sets the shutdown signal to a number of which it is known whether the
/// platform has such a signal. The signal can be set once, and only to a
/// signal of the platform.
pub fn apply_shutdown_signal(data: &mut WsData, signal: i32, known: bool) -> (r: Result<
    (),
    PipelineError,
>)
    ensures
        r == (if !known {
            Err::<(), PipelineError>(PipelineError::InvalidSignal)
        } else if old(data)@.shutdown_signal is Some {
            Err::<(), PipelineError>(PipelineError::AlreadySet)
        } else {
            Ok::<(), PipelineError>(())
        }),
        final(data)@ == (if r is Ok {
            WsDataView { shutdown_signal: Some(signal), ..old(data)@ }
        } else {
            old(data)@
        }),
{
    if !known {
        return Err(PipelineError::InvalidSignal);
    }
    if data.shutdown_signal.is_some() {
        return Err(PipelineError::AlreadySet);
    }
    data.shutdown_signal = Some(signal);
    Ok(())
}

/// Sets the shutdown signal. The signal can be set once, and only to a
/// signal of the platform: which numbers are signals is the platform's to
/// say.
pub fn set_shutdown_signal(data: &mut WsData, signal: i32) -> (r: Result<(), PipelineError>)
    ensures
        match r {
            Ok(_) => old(data)@.shutdown_signal is None && final(data)@ == (WsDataView {
                shutdown_signal: Some(signal),
                ..old(data)@
            }),
            Err(e) => final(data)@ == old(data)@ && (e == PipelineError::InvalidSignal || (e
                == PipelineError::AlreadySet && old(data)@.shutdown_signal is Some)),
        },
{
    let known = signal_is_known(signal);
    apply_shutdown_signal(data, signal, known)
}

/// Answers a shutdown request. Without a shutdown token the endpoint is
/// disabled; a wrong token is turned away. The right token latches the
/// shutdown, once, and sets the status to `Shutdown`; in the signal mode the
/// answer names the process and the signal that is to be sent to it.
pub fn shutdown_handler(data: &mut WsData, token: &str, mode: ShutdownMode) -> (r: ShutdownReply)
    ensures
        r == old(data)@.reply(token@, mode),
        final(data)@ == old(data)@.after_request(token@, mode),
{
    let given = token.to_string();
    match get_shutdown_token(data) {
        None => {
            return ShutdownReply::NotSupported;
        },
        Some(expected) => {
            if expected != given {
                return ShutdownReply::Unauthorized;
            }
        },
    }
    if shutdown(data).is_err() {
        return ShutdownReply::AlreadyShutDown;
    }
    let _ = set_status(data, PipelineStatus::Shutdown);
    match mode {
        ShutdownMode::Signal => ShutdownReply::AcceptedWithSignal {
            pid: data.pid,
            signal: get_shutdown_signal(data),
        },
        ShutdownMode::Notify => ShutdownReply::Accepted,
    }
}

/// Records the process id and, where the web server was never started,
/// that it is running now. Says whether the server is still to be started:
/// it is started once.
pub fn init_webserver(data: &mut WsData, pid: i32) -> (r: bool)
    ensures
        r == (old(data)@.server == ServerState::NotStarted),
        final(data)@ == (WsDataView {
            pid,
            server: if r {
                ServerState::Running
            } else {
                old(data)@.server
            },
            ..old(data)@
        }),
{
    data.pid = pid;
    if data.server == ServerState::NotStarted {
        data.server = ServerState::Running;
        true
    } else {
        false
    }
}

/// Records that the web server was stopped. The server must have been
/// started.
pub fn stop_webserver(data: &mut WsData)
    requires
        old(data)@.server != ServerState::NotStarted,
    ensures
        final(data)@ == (WsDataView { server: ServerState::Stopped, ..old(data)@ }),
{
    data.server = ServerState::Stopped;
}

/// Whether the web server was started.
pub fn is_webserver_started(data: &WsData) -> (r: bool)
    ensures
        r == (data@.server != ServerState::NotStarted),
{
    data.server != ServerState::NotStarted
}

} // verus!
