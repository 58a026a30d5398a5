//! The decisions of an SSH session: whether to trust a host key, how a
//! connection attempt ends, when a remote command is over, and which local
//! ports are forwarded.
//!
//! The transport itself (sockets, channels, timers) belongs to the caller.
//! It reports what happened; the functions here say what to do about it.

use vstd::prelude::*;
use vstd::std_specs::iter::IteratorSpec;
use std::collections::HashMap;
use crate::ssh::SshAuth;
use crate::ssh::SshConfig;
use crate::text::chars_of;
use crate::text::is_space;
use crate::text::is_space_char;
use crate::text::string_of;

verus! {

broadcast use vstd::std_specs::hash::group_hash_axioms;

/// Seconds allowed for connecting and negotiating.
pub const CONNECT_TIMEOUT_SECS: u64 = 10;

/// Seconds allowed for the disconnect handshake before the transport is
/// dropped without it.
pub const DISCONNECT_TIMEOUT_SECS: u64 = 5;

/// Milliseconds allowed for a remote command as a whole.
pub const EXEC_TIMEOUT_MS: u64 = 60000;

/// Milliseconds allowed for the next message of a remote command.
pub const EXEC_MESSAGE_TIMEOUT_MS: u64 = 10000;

/// Seconds allowed for setting up a port forward.
pub const FORWARD_SETUP_TIMEOUT_SECS: u64 = 10;

/// Seconds allowed for the detection of services as a whole.
pub const DETECT_TIMEOUT_SECS: u64 = 30;

/// Size of the buffer through which a forwarded connection is copied.
pub const COPY_BUFFER_LEN: usize = 8192;

/// Why an operation of the session failed.
#[derive(Clone, Copy, Debug, PartialEq, Eq, Structural)]
pub enum SshError {
    /// The host did not answer in time.
    ConnectTimeout,
    /// The host's key differs from the one known for it.
    HostKeyMismatch,
    /// The host refused the credentials.
    AuthFailed,
    /// The authentication method is not supported.
    Unsupported,
    /// The session has no transport.
    NotConnected,
    /// The local port is forwarded already.
    AlreadyForwarded,
    /// The local port could not be bound.
    BindFailed,
    /// The local port is not forwarded.
    NotFound,
    /// The transport reported an error.
    Transport,
}

impl SshError {
    /// A short description of the failure.
    pub fn message(&self) -> (s: &'static str)
        ensures
            s@ == match *self {
                SshError::ConnectTimeout => "SSH connect timed out after 10s"@,
                SshError::HostKeyMismatch => "Host key mismatch"@,
                SshError::AuthFailed => "SSH authentication failed"@,
                SshError::Unsupported => "SSH agent authentication is not supported"@,
                SshError::NotConnected => "Not connected"@,
                SshError::AlreadyForwarded => "Port already forwarded"@,
                SshError::BindFailed => "Could not bind local port"@,
                SshError::NotFound => "No forward on port"@,
                SshError::Transport => "SSH transport error"@,
            },
    {
        match self {
            SshError::ConnectTimeout => "SSH connect timed out after 10s",
            SshError::HostKeyMismatch => "Host key mismatch",
            SshError::AuthFailed => "SSH authentication failed",
            SshError::Unsupported => "SSH agent authentication is not supported",
            SshError::NotConnected => "Not connected",
            SshError::AlreadyForwarded => "Port already forwarded",
            SshError::BindFailed => "Could not bind local port",
            SshError::NotFound => "No forward on port",
            SshError::Transport => "SSH transport error",
        }
    }
}

/// What the store of known hosts says of a host and the key it presents.
#[derive(Clone, Copy, Debug, PartialEq, Eq, Structural)]
pub enum KnownHost {
    /// The host is known, with this key.
    Matches,
    /// The host is known, with another key.
    Mismatches,
    /// The host is not known.
    Unknown,
}

/// What to do about the key that a host presents.
#[derive(Clone, Copy, Debug, PartialEq, Eq, Structural)]
pub enum HostKeyAction {
    /// Go on.
    Accept,
    /// Store the key for the host, then go on; a failure to store it is
    /// no reason to stop.
    LearnAndAccept,
    /// Stop: the key has changed, which may be an attack.
    Refuse,
}

/// Decides about the key of a host: trust on first use, never on a change.
pub fn check_server_key(known: KnownHost) -> (action: HostKeyAction)
    ensures
        action == match known {
            KnownHost::Matches => HostKeyAction::Accept,
            KnownHost::Mismatches => HostKeyAction::Refuse,
            KnownHost::Unknown => HostKeyAction::LearnAndAccept,
        },
{
    match known {
        KnownHost::Matches => HostKeyAction::Accept,
        KnownHost::Mismatches => HostKeyAction::Refuse,
        KnownHost::Unknown => HostKeyAction::LearnAndAccept,
    }
}

impl HostKeyAction {
    /// The answer to the transport: whether the key is accepted, or the
    /// error that ends the connection attempt.
    pub fn answer(&self) -> (r: Result<bool, SshError>)
        ensures
            r == match *self {
                HostKeyAction::Accept => Ok::<bool, SshError>(true),
                HostKeyAction::LearnAndAccept => Ok::<bool, SshError>(true),
                HostKeyAction::Refuse => Err::<bool, SshError>(SshError::HostKeyMismatch),
            },
    {
        match self {
            HostKeyAction::Accept => Ok(true),
            HostKeyAction::LearnAndAccept => Ok(true),
            HostKeyAction::Refuse => Err(SshError::HostKeyMismatch),
        }
    }
}

/// How the attempt to reach the host and negotiate ended.
#[derive(Clone, Copy, Debug, PartialEq, Eq, Structural)]
pub enum HandshakeOutcome {
    Established,
    TimedOut,
    /// The host key was refused.
    KeyRefused,
    Failed,
}

/// The way to authenticate that a configuration asks for.
#[derive(Clone, Copy, Debug, PartialEq, Eq, Structural)]
pub enum AuthMethod {
    Password,
    PublicKey,
}

/// How the authentication ended.
#[derive(Clone, Copy, Debug, PartialEq, Eq, Structural)]
pub enum AuthOutcome {
    Success,
    Failure,
    /// The key could not be loaded, or the transport failed.
    Errored,
}

/// What the handshake means for the connection attempt: a timeout, a
/// refused host key and any other failure each end it with their error.
pub open spec fn handshake_verdict(outcome: HandshakeOutcome) -> Result<(), SshError> {
    match outcome {
        HandshakeOutcome::Established => Ok(()),
        HandshakeOutcome::TimedOut => Err(SshError::ConnectTimeout),
        HandshakeOutcome::KeyRefused => Err(SshError::HostKeyMismatch),
        HandshakeOutcome::Failed => Err(SshError::Transport),
    }
}

/// The way to authenticate that a configuration asks for; the agent is
/// not supported.
pub open spec fn method_of(auth: SshAuth) -> Result<AuthMethod, SshError> {
    match auth {
        SshAuth::Password(_) => Ok(AuthMethod::Password),
        SshAuth::KeyFile { .. } => Ok(AuthMethod::PublicKey),
        SshAuth::Agent => Err(SshError::Unsupported),
    }
}

/// What the authentication means for the connection attempt.
pub open spec fn auth_verdict(outcome: AuthOutcome) -> Result<(), SshError> {
    match outcome {
        AuthOutcome::Success => Ok(()),
        AuthOutcome::Failure => Err(SshError::AuthFailed),
        AuthOutcome::Errored => Err(SshError::Transport),
    }
}

/// How a connection attempt ends: with the first failure of handshake,
/// choice of method and authentication, or with success.
pub open spec fn connect_verdict(
    handshake: HandshakeOutcome,
    auth: SshAuth,
    outcome: AuthOutcome,
) -> Result<(), SshError> {
    match handshake_verdict(handshake) {
        Err(e) => Err(e),
        Ok(_) => match method_of(auth) {
            Err(e) => Err(e),
            Ok(_) => auth_verdict(outcome),
        },
    }
}

/// Says what the handshake means for the connection attempt.
pub fn handshake_result(outcome: HandshakeOutcome) -> (r: Result<(), SshError>)
    ensures
        r == handshake_verdict(outcome),
{
    match outcome {
        HandshakeOutcome::Established => Ok(()),
        HandshakeOutcome::TimedOut => Err(SshError::ConnectTimeout),
        HandshakeOutcome::KeyRefused => Err(SshError::HostKeyMismatch),
        HandshakeOutcome::Failed => Err(SshError::Transport),
    }
}

/// Chooses the way to authenticate, or refuses a method that is not
/// supported.
pub fn auth_method(auth: &SshAuth) -> (r: Result<AuthMethod, SshError>)
    ensures
        r == method_of(*auth),
{
    match auth {
        SshAuth::Password(_) => Ok(AuthMethod::Password),
        SshAuth::KeyFile { .. } => Ok(AuthMethod::PublicKey),
        SshAuth::Agent => Err(SshError::Unsupported),
    }
}

/// Says what the authentication means for the connection attempt.
pub fn auth_result(outcome: AuthOutcome) -> (r: Result<(), SshError>)
    ensures
        r == auth_verdict(outcome),
{
    match outcome {
        AuthOutcome::Success => Ok(()),
        AuthOutcome::Failure => Err(SshError::AuthFailed),
        AuthOutcome::Errored => Err(SshError::Transport),
    }
}

/// `tokio::sync::watch::Sender`, the sending half of a channel that holds
/// one value and tells its receivers when the value changes.
#[verifier::external_type_specification]
#[verifier::external_body]
#[verifier::reject_recursive_types(T)]
pub struct ExWatchSender<T>(tokio::sync::watch::Sender<T>);

/// `tokio::sync::watch::Receiver`, the receiving half of such a channel.
#[verifier::external_type_specification]
#[verifier::external_body]
#[verifier::reject_recursive_types(T)]
pub struct ExWatchReceiver<T>(tokio::sync::watch::Receiver<T>);

/// Calls `tokio::sync::watch::channel` with the value `false`: a cancel
/// signal that has not been given.
#[verifier::external_body]
fn cancel_signal() -> (pair: (tokio::sync::watch::Sender<bool>, tokio::sync::watch::Receiver<bool>))
{
    tokio::sync::watch::channel(false)
}

/// Calls `tokio::sync::watch::Sender::send` with the value `true`, which
/// the receivers that are left then see. That none is left is no failure.
#[verifier::external_body]
fn latch(signal: &tokio::sync::watch::Sender<bool>)
{
    let _ = signal.send(true);
}

/// Whether a forward of a local port can be started: the port must not be
/// forwarded already, the session must be connected, and the listener must
/// have been bound.
pub open spec fn forward_verdict(forwarded: bool, connected: bool, bound: bool) -> Result<
    (),
    SshError,
> {
    if forwarded {
        Err(SshError::AlreadyForwarded)
    } else if !connected {
        Err(SshError::NotConnected)
    } else if !bound {
        Err(SshError::BindFailed)
    } else {
        Ok(())
    }
}

/// A result without what it holds on success.
pub open spec fn outcome_of<T>(r: Result<T, SshError>) -> Result<(), SshError> {
    match r {
        Ok(_) => Ok(()),
        Err(e) => Err(e),
    }
}

/// An SSH session without its transport: its configuration, whether it is
/// connected, and for every local port that it forwards the sending half
/// of the cancel signal of that forward.
pub struct SshSession {
    pub config: SshConfig,
    pub connected: bool,
    /// The cancel signal of every forward, by local port.
    pub forwards: HashMap<u16, tokio::sync::watch::Sender<bool>>,
}

impl SshSession {
    /// The local ports that are forwarded.
    pub open spec fn ports(&self) -> Set<u16> {
        self.forwards@.dom()
    }

    /// A session for the configuration, not connected, forwarding nothing.
    pub fn new(config: SshConfig) -> (session: Self)
        ensures
            session.config == config,
            !session.connected,
            session.forwards@ == Map::<u16, tokio::sync::watch::Sender<bool>>::empty(),
    {
        SshSession { config, connected: false, forwards: HashMap::new() }
    }

    /// Whether the session has a transport.
    pub fn is_connected(&self) -> (connected: bool)
        ensures
            connected == self.connected,
    {
        self.connected
    }

    /// Whether an operation that needs the transport can go on: without a
    /// transport it is refused.
    pub fn require_connected(&self) -> (r: Result<(), SshError>)
        ensures
            r == (if self.connected {
                Ok::<(), SshError>(())
            } else {
                Err::<(), SshError>(SshError::NotConnected)
            }),
    {
        if self.connected {
            Ok(())
        } else {
            Err(SshError::NotConnected)
        }
    }

    /// Takes note of how a connection attempt ended: the session is
    /// connected exactly where both the handshake and the authentication
    /// succeeded. The first failure is the error.
    pub fn connect(&mut self, handshake: HandshakeOutcome, auth: AuthOutcome) -> (r: Result<
        (),
        SshError,
    >)
        ensures
            final(self).config == old(self).config,
            final(self).forwards == old(self).forwards,
            r == connect_verdict(handshake, old(self).config.auth, auth),
            final(self).connected == (if r is Ok {
                true
            } else {
                old(self).connected
            }),
    {
        match handshake_result(handshake) {
            Err(e) => Err(e),
            Ok(_) => match auth_method(&self.config.auth) {
                Err(e) => Err(e),
                Ok(_) => match auth_result(auth) {
                    Err(e) => Err(e),
                    Ok(_) => {
                        self.connected = true;
                        Ok(())
                    },
                },
            },
        }
    }

    /// Gives the transport up. Returns whether there was one, so that the
    /// disconnect handshake is due; forwards are kept.
    pub fn disconnect(&mut self) -> (had_transport: bool)
        ensures
            had_transport == old(self).connected,
            !final(self).connected,
            final(self).config == old(self).config,
            final(self).forwards == old(self).forwards,
    {
        let had_transport = self.connected;
        self.connected = false;
        had_transport
    }

    /// Whether a forward of the local port can be started, before the
    /// listener is bound: the port must not be forwarded already, and the
    /// session must be connected.
    pub fn can_forward(&self, local_port: u16) -> (r: Result<(), SshError>)
        ensures
            r == forward_verdict(self.forwards@.contains_key(local_port), self.connected, true),
    {
        if self.forwards.contains_key(&local_port) {
            Err(SshError::AlreadyForwarded)
        } else if !self.connected {
            Err(SshError::NotConnected)
        } else {
            Ok(())
        }
    }

    /// Starts forwarding a local port, given whether the listener could be
    /// bound. On success a new cancel signal is stored under the port, the
    /// signals of the other forwards stay as they are, and the receiving
    /// half of the new signal is returned for the tasks of the forward to
    /// watch. On failure nothing changes.
    pub fn start_port_forward(&mut self, local_port: u16, bound: bool) -> (r: Result<
        tokio::sync::watch::Receiver<bool>,
        SshError,
    >)
        ensures
            final(self).config == old(self).config,
            final(self).connected == old(self).connected,
            outcome_of(r) == forward_verdict(
                old(self).forwards@.contains_key(local_port),
                old(self).connected,
                bound,
            ),
            r is Ok ==> final(self).forwards@.contains_key(local_port) && final(self).forwards@
                == old(self).forwards@.insert(local_port, final(self).forwards@[local_port]),
            r is Ok ==> final(self).ports() == old(self).ports().insert(local_port),
            r is Err ==> final(self).forwards@ == old(self).forwards@,
    {
        match self.can_forward(local_port) {
            Err(e) => Err(e),
            Ok(_) => {
                if !bound {
                    return Err(SshError::BindFailed);
                }
                let pair = cancel_signal();
                self.forwards.insert(local_port, pair.0);
                assert(final(self).forwards@.dom() =~= old(self).forwards@.dom().insert(local_port));
                Ok(pair.1)
            },
        }
    }

    /// Stops forwarding a local port: the signal stored under the port, and
    /// no other, is taken out and given. A port that was not forwarded is
    /// an error, and nothing changes.
    pub fn stop_port_forward(&mut self, local_port: u16) -> (r: Result<(), SshError>)
        ensures
            final(self).config == old(self).config,
            final(self).connected == old(self).connected,
            r == (if old(self).forwards@.contains_key(local_port) {
                Ok::<(), SshError>(())
            } else {
                Err::<(), SshError>(SshError::NotFound)
            }),
            final(self).forwards@ == old(self).forwards@.remove(local_port),
            !final(self).ports().contains(local_port),
            final(self).ports() == old(self).ports().remove(local_port),
    {
        match self.forwards.remove(&local_port) {
            Some(signal) => {
                latch(&signal);
                Ok(())
            },
            None => Err(SshError::NotFound),
        }
    }

    /// Stops every forward: the cancel signal of each is given, and no
    /// port is forwarded any more. Returns the ports that were forwarded,
    /// each once.
    pub fn stop_all_forwards(&mut self) -> (stopped: Vec<u16>)
        ensures
            stopped@.to_set() == old(self).ports(),
            stopped@.no_duplicates(),
            final(self).forwards@ == Map::<u16, tokio::sync::watch::Sender<bool>>::empty(),
            final(self).config == old(self).config,
            final(self).connected == old(self).connected,
    {
        let stopped = self.active_forwards();
        for signal in it: self.forwards.values() {
            latch(signal);
        }
        self.forwards.clear();
        stopped
    }

    /// The local ports that are forwarded, each once.
    pub fn active_forwards(&self) -> (ports: Vec<u16>)
        ensures
            ports@.to_set() == self.ports(),
            ports@.no_duplicates(),
    {
        let mut ports: Vec<u16> = Vec::new();
        let ghost all = self.forwards.keys().remaining();
        assert(all.unref().to_set() == self.forwards@.dom());
        for port in it: self.forwards.keys()
            invariant
                ports@.len() == it.index(),
                it.seq() == all,
                forall|i: int| 0 <= i < ports@.len() ==> ports@[i] == *all[i],
        {
            ports.push(*port);
        }
        assert(ports@ =~= all.unref());
        ports
    }
}

/// After a forward of a port was started with success, the port is among
/// the active forwards; once it was stopped, it is not.
pub proof fn lemma_forward_then_stop(before: Set<u16>, port: u16)
    ensures
        before.insert(port).contains(port),
        !before.insert(port).remove(port).contains(port),
{
}

/// What happened while a remote command ran.
#[derive(Debug)]
pub enum ChannelEvent {
    /// Output of the command.
    Data(Vec<u8>),
    /// Output of the command on another stream (standard error).
    ExtendedData(Vec<u8>),
    /// The command ended with this status.
    ExitStatus(u32),
    /// The command will send no more output.
    Eof,
    /// The channel was closed.
    Close,
    /// Some other message.
    Other,
    /// The channel ended without a message.
    Ended,
    /// No message came within the time allowed.
    TimedOut,
}

/// What is known of a remote command while it runs.
#[derive(Debug)]
pub struct ExecState {
    /// The output so far, of both streams in the order of arrival.
    pub output: Vec<u8>,
    /// The exit status, once it has arrived.
    pub exit_status: Option<u32>,
    /// Whether the end of the output has been announced.
    pub got_eof: bool,
}

/// The state of a command as a value.
pub struct ExecView {
    pub output: Seq<u8>,
    pub exit_status: Option<u32>,
    pub got_eof: bool,
}

/// The state after an event, and whether the command is over.
///
/// Output of either stream is appended. The command is over when both the
/// exit status and the end of the output have arrived, in either order;
/// when the channel is closed or ends; and when no message comes in time.
pub open spec fn exec_after(state: ExecView, event: ChannelEvent) -> (ExecView, bool) {
    match event {
        ChannelEvent::Data(bytes) => (ExecView { output: state.output + bytes@, ..state }, false),
        ChannelEvent::ExtendedData(bytes) => (
            ExecView { output: state.output + bytes@, ..state },
            false,
        ),
        ChannelEvent::ExitStatus(status) => (
            ExecView { exit_status: Some(status), ..state },
            state.got_eof,
        ),
        ChannelEvent::Eof => (ExecView { got_eof: true, ..state }, state.exit_status is Some),
        ChannelEvent::Close => (state, true),
        ChannelEvent::Other => (state, false),
        ChannelEvent::Ended => (state, true),
        ChannelEvent::TimedOut => (state, true),
    }
}

/// The time to wait for the next message, given what is left of the time
/// allowed for the whole command: the smaller of the two limits, and
/// `None` where no time is left.
pub fn message_timeout(remaining_ms: u64) -> (timeout: Option<u64>)
    ensures
        timeout == (if remaining_ms == 0 {
            None::<u64>
        } else if remaining_ms < EXEC_MESSAGE_TIMEOUT_MS {
            Some(remaining_ms)
        } else {
            Some(EXEC_MESSAGE_TIMEOUT_MS)
        }),
{
    if remaining_ms == 0 {
        None
    } else if remaining_ms < EXEC_MESSAGE_TIMEOUT_MS {
        Some(remaining_ms)
    } else {
        Some(EXEC_MESSAGE_TIMEOUT_MS)
    }
}

/// What `String::from_utf8_lossy` makes of the bytes: their text, with
/// the replacement character in place of what is not UTF-8.
pub uninterp spec fn utf8_lossy(bytes: Seq<u8>) -> Seq<char>;

/// Calls `String::from_utf8_lossy` and takes the result as a `String`.
#[verifier::external_body]
fn decode_lossy(bytes: &Vec<u8>) -> (text: String)
    ensures
        text@ == utf8_lossy(bytes@),
{
    String::from_utf8_lossy(bytes).into_owned()
}

/// Where the text without the white space at its start begins.
pub open spec fn trim_start_at(s: Seq<char>, from: int) -> int
    decreases s.len() - from,
{
    if from < 0 || from >= s.len() || !is_space(s[from]) {
        from
    } else {
        trim_start_at(s, from + 1)
    }
}

/// Where the text without the white space at its end stops, not before
/// `floor`.
pub open spec fn trim_end_at(s: Seq<char>, floor: int, to: int) -> int
    decreases to - floor,
{
    if to <= floor || to > s.len() || !is_space(s[to - 1]) {
        to
    } else {
        trim_end_at(s, floor, to - 1)
    }
}

/// The text without the white space at its start and at its end.
pub open spec fn trimmed(s: Seq<char>) -> Seq<char> {
    let start = trim_start_at(s, 0);
    s.subrange(start, trim_end_at(s, start, s.len() as int))
}

/// Trims the white space off both ends of a text.
pub fn trim(text: &str) -> (out: String)
    ensures
        out@ == trimmed(text@),
{
    let chars = chars_of(text);
    let mut start: usize = 0;
    while start < chars.len() && is_space_char(chars[start])
        invariant
            start <= chars@.len(),
            trim_start_at(chars@, 0) == trim_start_at(chars@, start as int),
        decreases chars@.len() - start,
    {
        start += 1;
    }
    let mut end: usize = chars.len();
    while end > start && is_space_char(chars[end - 1])
        invariant
            start <= end <= chars@.len(),
            trim_end_at(chars@, start as int, chars@.len() as int) == trim_end_at(
                chars@,
                start as int,
                end as int,
            ),
        decreases end,
    {
        end -= 1;
    }
    string_of(&chars, start, end)
}

/// What a remote command is reported to have given: its exit status, or
/// -1 where none arrived, and its output as text, trimmed.
pub open spec fn exec_report(state: ExecView) -> (i32, Seq<char>) {
    (
        match state.exit_status {
            Some(status) => status as i32,
            None => -1i32,
        },
        trimmed(utf8_lossy(state.output)),
    )
}

impl ExecState {
    /// The state as a value.
    pub open spec fn view(&self) -> ExecView {
        ExecView { output: self.output@, exit_status: self.exit_status, got_eof: self.got_eof }
    }

    /// The state of a command that has just been started.
    pub fn new() -> (state: Self)
        ensures
            state@ == (ExecView { output: Seq::empty(), exit_status: None, got_eof: false }),
    {
        ExecState { output: Vec::new(), exit_status: None, got_eof: false }
    }

    /// Takes an event into the state and tells whether the command is
    /// over.
    pub fn step(&mut self, event: ChannelEvent) -> (done: bool)
        ensures
            (final(self)@, done) == exec_after(old(self)@, event),
    {
        match event {
            ChannelEvent::Data(bytes) => {
                let mut bytes = bytes;
                self.output.append(&mut bytes);
                false
            },
            ChannelEvent::ExtendedData(bytes) => {
                let mut bytes = bytes;
                self.output.append(&mut bytes);
                false
            },
            ChannelEvent::ExitStatus(status) => {
                self.exit_status = Some(status);
                self.got_eof
            },
            ChannelEvent::Eof => {
                self.got_eof = true;
                self.exit_status.is_some()
            },
            ChannelEvent::Close => true,
            ChannelEvent::Other => false,
            ChannelEvent::Ended => true,
            ChannelEvent::TimedOut => true,
        }
    }

    /// The report of the command: exit code and trimmed output.
    pub fn finish(&self) -> (report: (i32, String))
        ensures
            (report.0, report.1@) == exec_report(self@),
    {
        let code: i32 = match self.exit_status {
            Some(status) => status as i32,
            None => -1,
        };
        let text = decode_lossy(&self.output);
        (code, trim(text.as_str()))
    }
}

/// What the task that accepts connections on a forwarded port sees.
#[derive(Clone, Copy, Debug, PartialEq, Eq, Structural)]
pub enum AcceptEvent {
    /// The cancel signal changed: whether its sender is gone, and the
    /// value that it holds.
    CancelChanged { sender_gone: bool, cancelled: bool },
    /// A connection came in.
    Accepted,
    /// Accepting failed.
    AcceptFailed,
}

/// What the accepting task does next.
#[derive(Clone, Copy, Debug, PartialEq, Eq, Structural)]
pub enum AcceptAction {
    /// End the task.
    Stop,
    /// Hand the connection to a task of its own, then go on accepting.
    Serve,
    /// Go on accepting.
    Continue,
}

/// Whether a change of the cancel signal means that the forward is
/// cancelled: the signal says so, or nobody is left to say so.
pub open spec fn is_cancelled(sender_gone: bool, cancelled: bool) -> bool {
    sender_gone || cancelled
}

/// Decides what the accepting task does about an event.
pub fn accept_step(event: AcceptEvent) -> (action: AcceptAction)
    ensures
        action == match event {
            AcceptEvent::CancelChanged { sender_gone, cancelled } => if is_cancelled(
                sender_gone,
                cancelled,
            ) {
                AcceptAction::Stop
            } else {
                AcceptAction::Continue
            },
            AcceptEvent::Accepted => AcceptAction::Serve,
            AcceptEvent::AcceptFailed => AcceptAction::Continue,
        },
{
    match event {
        AcceptEvent::CancelChanged { sender_gone, cancelled } => if sender_gone || cancelled {
            AcceptAction::Stop
        } else {
            AcceptAction::Continue
        },
        AcceptEvent::Accepted => AcceptAction::Serve,
        AcceptEvent::AcceptFailed => AcceptAction::Continue,
    }
}

/// What the task that copies one forwarded connection sees.
#[derive(Clone, Copy, Debug, PartialEq, Eq, Structural)]
pub enum CopyEvent {
    /// The cancel signal changed.
    CancelChanged { sender_gone: bool, cancelled: bool },
    /// The local side was read: so many bytes, or `None` for an error.
    TcpRead(Option<usize>),
    /// The bytes read were sent into the channel, or could not be.
    ChannelSent(bool),
    /// The channel delivered data.
    ChannelData,
    /// The data was written to the local side, or could not be.
    TcpWritten(bool),
    /// The channel announced the end of its data.
    ChannelEof,
    /// The channel ended.
    ChannelEnded,
    /// The channel delivered some other message.
    ChannelOther,
}

/// What the copying task does next.
#[derive(Clone, Copy, Debug, PartialEq, Eq, Structural)]
pub enum CopyAction {
    /// End the task.
    Stop,
    /// Wait for the next event.
    Continue,
    /// Send the first so many bytes of the buffer into the channel.
    SendToChannel(usize),
    /// Write the data to the local side.
    WriteToTcp,
}

/// Decides what the copying task does about an event: it ends on
/// cancellation, at the end of either side and on any error, and passes
/// on what it reads.
pub fn copy_step(event: CopyEvent) -> (action: CopyAction)
    ensures
        action == match event {
            CopyEvent::CancelChanged { sender_gone, cancelled } => if is_cancelled(
                sender_gone,
                cancelled,
            ) {
                CopyAction::Stop
            } else {
                CopyAction::Continue
            },
            CopyEvent::TcpRead(Some(n)) => if n == 0 {
                CopyAction::Stop
            } else {
                CopyAction::SendToChannel(n)
            },
            CopyEvent::TcpRead(None) => CopyAction::Stop,
            CopyEvent::ChannelSent(ok) => if ok {
                CopyAction::Continue
            } else {
                CopyAction::Stop
            },
            CopyEvent::ChannelData => CopyAction::WriteToTcp,
            CopyEvent::TcpWritten(ok) => if ok {
                CopyAction::Continue
            } else {
                CopyAction::Stop
            },
            CopyEvent::ChannelEof => CopyAction::Stop,
            CopyEvent::ChannelEnded => CopyAction::Stop,
            CopyEvent::ChannelOther => CopyAction::Continue,
        },
{
    match event {
        CopyEvent::CancelChanged { sender_gone, cancelled } => if sender_gone || cancelled {
            CopyAction::Stop
        } else {
            CopyAction::Continue
        },
        CopyEvent::TcpRead(Some(n)) => if n == 0 {
            CopyAction::Stop
        } else {
            CopyAction::SendToChannel(n)
        },
        CopyEvent::TcpRead(None) => CopyAction::Stop,
        CopyEvent::ChannelSent(ok) => if ok {
            CopyAction::Continue
        } else {
            CopyAction::Stop
        },
        CopyEvent::ChannelData => CopyAction::WriteToTcp,
        CopyEvent::TcpWritten(ok) => if ok {
            CopyAction::Continue
        } else {
            CopyAction::Stop
        },
        CopyEvent::ChannelEof => CopyAction::Stop,
        CopyEvent::ChannelEnded => CopyAction::Stop,
        CopyEvent::ChannelOther => CopyAction::Continue,
    }
}

/// The kind of terminal that is asked for with a remote shell.
pub fn shell_terminal() -> (term: &'static str)
    ensures
        term@ == "xterm-256color"@,
{
    "xterm-256color"
}

/// The reason given to the host when the session is ended.
pub fn disconnect_reason() -> (reason: &'static str)
    ensures
        reason@ == "User disconnect"@,
{
    "User disconnect"
}

/// How the attempt to run a remote command ended, as the host of the
/// library sees it.
#[derive(Debug)]
pub enum ExecOutcome {
    /// The command was run: its exit code and its output.
    Completed(i32, String),
    /// The command could not be run, for this reason.
    Failed(String),
    /// The time allowed for the command ran out.
    TimedOut,
}

/// What is reported of a remote command: its own exit code and output
/// where it was run; otherwise exit code -1 and, in place of the output,
/// the word `Error: ` and the reason.
pub open spec fn reported(outcome: ExecOutcome) -> (i32, Seq<char>) {
    match outcome {
        ExecOutcome::Completed(code, output) => (code, output@),
        ExecOutcome::Failed(reason) => (-1i32, "Error: "@ + reason@),
        ExecOutcome::TimedOut => (-1i32, "Error: command timed out after 60s"@),
    }
}

/// Makes the report of a remote command for the host.
pub fn exec_report_for(outcome: ExecOutcome) -> (report: (i32, String))
    ensures
        (report.0, report.1@) == reported(outcome),
{
    match outcome {
        ExecOutcome::Completed(code, output) => (code, output),
        ExecOutcome::Failed(reason) => {
            let mut text = String::from_str("Error: ");
            text.append(reason.as_str());
            (-1, text)
        },
        ExecOutcome::TimedOut => (-1, String::from_str("Error: command timed out after 60s")),
    }
}

} // verus!
