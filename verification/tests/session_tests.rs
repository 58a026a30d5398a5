use pier_core::ssh::session::{
    disconnect_reason, exec_report_for, shell_terminal, ExecOutcome, accept_step, auth_method, auth_result, check_server_key, copy_step, handshake_result,
    message_timeout, trim, AcceptAction, AcceptEvent, AuthMethod, AuthOutcome, ChannelEvent,
    CopyAction, CopyEvent, ExecState, HandshakeOutcome, HostKeyAction, KnownHost, SshError,
    SshSession, EXEC_MESSAGE_TIMEOUT_MS, EXEC_TIMEOUT_MS,
};
use pier_core::ssh::{SshAuth, SshConfig};

fn config(auth: SshAuth) -> SshConfig {
    SshConfig { host: "example.org".to_string(), port: 2222, username: "me".to_string(), auth }
}

fn sorted(mut ports: Vec<u16>) -> Vec<u16> {
    ports.sort();
    ports
}

fn connected() -> SshSession {
    let mut session = SshSession::new(config(SshAuth::Password("pw".to_string())));
    assert_eq!(session.connect(HandshakeOutcome::Established, AuthOutcome::Success), Ok(()));
    session
}

#[test]
fn default_config() {
    let c = SshConfig::default();
    assert_eq!(c.host, "localhost");
    assert_eq!(c.port, 22);
    assert_eq!(c.username, "root");
    assert!(matches!(c.auth, SshAuth::Agent));
}

#[test]
fn auth_by_code() {
    assert!(matches!(SshAuth::from_code(0, "pw".to_string()), Some(SshAuth::Password(p)) if p == "pw"));
    assert!(matches!(
        SshAuth::from_code(1, "/k".to_string()),
        Some(SshAuth::KeyFile { path, passphrase: None }) if path == "/k"
    ));
    assert!(SshAuth::from_code(2, "x".to_string()).is_none());
    assert!(SshAuth::from_code(-1, "x".to_string()).is_none());
}

#[test]
fn host_keys_are_trusted_on_first_use_only() {
    assert_eq!(check_server_key(KnownHost::Matches), HostKeyAction::Accept);
    assert_eq!(check_server_key(KnownHost::Unknown), HostKeyAction::LearnAndAccept);
    assert_eq!(check_server_key(KnownHost::Mismatches), HostKeyAction::Refuse);
    assert_eq!(HostKeyAction::Accept.answer(), Ok(true));
    assert_eq!(HostKeyAction::LearnAndAccept.answer(), Ok(true));
    assert_eq!(HostKeyAction::Refuse.answer(), Err(SshError::HostKeyMismatch));
}

#[test]
fn connect_outcomes() {
    assert_eq!(handshake_result(HandshakeOutcome::Established), Ok(()));
    assert_eq!(handshake_result(HandshakeOutcome::TimedOut), Err(SshError::ConnectTimeout));
    assert_eq!(handshake_result(HandshakeOutcome::KeyRefused), Err(SshError::HostKeyMismatch));
    assert_eq!(handshake_result(HandshakeOutcome::Failed), Err(SshError::Transport));
    assert_eq!(auth_method(&SshAuth::Password("x".into())), Ok(AuthMethod::Password));
    assert_eq!(
        auth_method(&SshAuth::KeyFile { path: "p".into(), passphrase: Some("s".into()) }),
        Ok(AuthMethod::PublicKey)
    );
    assert_eq!(auth_method(&SshAuth::Agent), Err(SshError::Unsupported));
    assert_eq!(auth_result(AuthOutcome::Success), Ok(()));
    assert_eq!(auth_result(AuthOutcome::Failure), Err(SshError::AuthFailed));
    assert_eq!(auth_result(AuthOutcome::Errored), Err(SshError::Transport));
}

#[test]
fn session_is_connected_only_after_success() {
    let mut s = SshSession::new(config(SshAuth::Password("pw".into())));
    assert!(!s.is_connected());
    assert_eq!(
        s.connect(HandshakeOutcome::TimedOut, AuthOutcome::Success),
        Err(SshError::ConnectTimeout)
    );
    assert!(!s.is_connected());
    assert_eq!(
        s.connect(HandshakeOutcome::Established, AuthOutcome::Failure),
        Err(SshError::AuthFailed)
    );
    assert!(!s.is_connected());
    assert_eq!(s.connect(HandshakeOutcome::Established, AuthOutcome::Success), Ok(()));
    assert!(s.is_connected());
    assert!(s.disconnect());
    assert!(!s.is_connected());
    assert!(!s.disconnect());

    let mut agent = SshSession::new(config(SshAuth::Agent));
    assert_eq!(
        agent.connect(HandshakeOutcome::Established, AuthOutcome::Success),
        Err(SshError::Unsupported)
    );
    assert!(!agent.is_connected());
}

#[test]
fn forward_is_listed_until_it_is_stopped() {
    let mut s = connected();
    assert!(s.active_forwards().is_empty());
    assert_eq!(s.can_forward(12345), Ok(()));
    assert_eq!(s.start_port_forward(12345, true).map(|_| ()), Ok(()));
    assert_eq!(s.active_forwards(), vec![12345]);
    assert_eq!(s.start_port_forward(8080, true).map(|_| ()), Ok(()));
    assert!(s.active_forwards().contains(&12345));
    assert!(s.active_forwards().contains(&8080));
    assert_eq!(s.stop_port_forward(12345), Ok(()));
    assert!(!s.active_forwards().contains(&12345));
    assert_eq!(s.active_forwards(), vec![8080]);
    assert_eq!(s.stop_port_forward(12345), Err(SshError::NotFound));
    assert_eq!(s.active_forwards(), vec![8080]);
}

#[test]
fn forward_failures_change_nothing() {
    let mut s = connected();
    assert_eq!(s.start_port_forward(80, false).map(|_| ()), Err(SshError::BindFailed));
    assert!(s.active_forwards().is_empty());
    assert_eq!(s.start_port_forward(80, true).map(|_| ()), Ok(()));
    assert_eq!(s.can_forward(80), Err(SshError::AlreadyForwarded));
    assert_eq!(s.start_port_forward(80, true).map(|_| ()), Err(SshError::AlreadyForwarded));
    assert_eq!(s.start_port_forward(80, false).map(|_| ()), Err(SshError::AlreadyForwarded));
    assert_eq!(s.active_forwards(), vec![80]);

    let mut offline = SshSession::new(config(SshAuth::Agent));
    assert_eq!(offline.can_forward(80), Err(SshError::NotConnected));
    assert_eq!(offline.start_port_forward(80, true).map(|_| ()), Err(SshError::NotConnected));
    assert!(offline.active_forwards().is_empty());
    assert_eq!(offline.stop_port_forward(80), Err(SshError::NotFound));
}

#[test]
fn stopping_all_forwards_returns_them() {
    let mut s = connected();
    for port in [1u16, 2, 3] {
        assert_eq!(s.start_port_forward(port, true).map(|_| ()), Ok(()));
    }
    assert_eq!(sorted(s.stop_all_forwards()), vec![1, 2, 3]);
    assert!(s.active_forwards().is_empty());
    assert!(s.stop_all_forwards().is_empty());
    assert!(s.is_connected());
}

#[test]
fn exec_is_over_when_status_and_eof_have_arrived() {
    let mut state = ExecState::new();
    assert!(!state.step(ChannelEvent::Data(b" out".to_vec())));
    assert!(!state.step(ChannelEvent::ExitStatus(3)));
    assert!(!state.step(ChannelEvent::ExtendedData(b"err \n".to_vec())));
    assert!(!state.step(ChannelEvent::Other));
    assert!(state.step(ChannelEvent::Eof));
    assert_eq!(state.finish(), (3, "outerr".to_string()));

    let mut state = ExecState::new();
    assert!(!state.step(ChannelEvent::Eof));
    assert!(state.step(ChannelEvent::ExitStatus(0)));
    assert_eq!(state.finish(), (0, String::new()));
}

#[test]
fn exec_without_status_reports_minus_one() {
    for event in [ChannelEvent::Close, ChannelEvent::Ended, ChannelEvent::TimedOut] {
        let mut state = ExecState::new();
        assert!(!state.step(ChannelEvent::Data(b"partial".to_vec())));
        assert!(state.step(event));
        assert_eq!(state.finish(), (-1, "partial".to_string()));
    }
}

#[test]
fn exec_status_of_all_ones_counts_as_arrived() {
    let mut state = ExecState::new();
    assert!(!state.step(ChannelEvent::ExitStatus(u32::MAX)));
    assert!(state.step(ChannelEvent::Eof));
    assert_eq!(state.finish().0, -1);
}

#[test]
fn exec_output_is_decoded_leniently() {
    let mut state = ExecState::new();
    state.step(ChannelEvent::Data(vec![b'a', 0xff, b'b']));
    assert_eq!(state.finish().1, "a\u{fffd}b");
}

#[test]
fn message_timeout_is_the_smaller_limit() {
    assert_eq!(message_timeout(0), None);
    assert_eq!(message_timeout(1), Some(1));
    assert_eq!(message_timeout(9999), Some(9999));
    assert_eq!(message_timeout(10000), Some(10000));
    assert_eq!(message_timeout(EXEC_TIMEOUT_MS), Some(EXEC_MESSAGE_TIMEOUT_MS));
    assert_eq!(EXEC_TIMEOUT_MS, 60000);
    assert_eq!(EXEC_MESSAGE_TIMEOUT_MS, 10000);
}

#[test]
fn trim_takes_white_space_off_both_ends() {
    assert_eq!(trim("  a b \t\r\n"), "a b");
    assert_eq!(trim(""), "");
    assert_eq!(trim(" \n "), "");
    assert_eq!(trim("x"), "x");
    assert_eq!(trim("\u{a0}\u{3000}x\u{2003}"), "x");
    for s in ["  a b \t\r\n", "", " \n ", "\u{b}x\u{c}", "\u{85}y\u{1680}", "\u{200b}z"] {
        assert_eq!(trim(s), s.trim());
    }
}

#[test]
fn accept_loop() {
    assert_eq!(accept_step(AcceptEvent::Accepted), AcceptAction::Serve);
    assert_eq!(accept_step(AcceptEvent::AcceptFailed), AcceptAction::Continue);
    assert_eq!(
        accept_step(AcceptEvent::CancelChanged { sender_gone: false, cancelled: true }),
        AcceptAction::Stop
    );
    assert_eq!(
        accept_step(AcceptEvent::CancelChanged { sender_gone: true, cancelled: false }),
        AcceptAction::Stop
    );
    assert_eq!(
        accept_step(AcceptEvent::CancelChanged { sender_gone: false, cancelled: false }),
        AcceptAction::Continue
    );
}

#[test]
fn copy_loop() {
    assert_eq!(copy_step(CopyEvent::TcpRead(Some(4))), CopyAction::SendToChannel(4));
    assert_eq!(copy_step(CopyEvent::TcpRead(Some(0))), CopyAction::Stop);
    assert_eq!(copy_step(CopyEvent::TcpRead(None)), CopyAction::Stop);
    assert_eq!(copy_step(CopyEvent::ChannelSent(true)), CopyAction::Continue);
    assert_eq!(copy_step(CopyEvent::ChannelSent(false)), CopyAction::Stop);
    assert_eq!(copy_step(CopyEvent::ChannelData), CopyAction::WriteToTcp);
    assert_eq!(copy_step(CopyEvent::TcpWritten(true)), CopyAction::Continue);
    assert_eq!(copy_step(CopyEvent::TcpWritten(false)), CopyAction::Stop);
    assert_eq!(copy_step(CopyEvent::ChannelEof), CopyAction::Stop);
    assert_eq!(copy_step(CopyEvent::ChannelEnded), CopyAction::Stop);
    assert_eq!(copy_step(CopyEvent::ChannelOther), CopyAction::Continue);
    assert_eq!(
        copy_step(CopyEvent::CancelChanged { sender_gone: false, cancelled: true }),
        CopyAction::Stop
    );
    assert_eq!(
        copy_step(CopyEvent::CancelChanged { sender_gone: false, cancelled: false }),
        CopyAction::Continue
    );
}

#[test]
fn error_texts() {
    assert_eq!(SshError::ConnectTimeout.message(), "SSH connect timed out after 10s");
    assert_eq!(SshError::AuthFailed.message(), "SSH authentication failed");
    assert_eq!(SshError::NotConnected.message(), "Not connected");
    assert_eq!(SshError::Unsupported.message(), "SSH agent authentication is not supported");
}

#[test]
fn exec_on_a_dead_connection_reports_the_timeout() {
    assert_eq!(
        exec_report_for(ExecOutcome::TimedOut),
        (-1, "Error: command timed out after 60s".to_string())
    );
    assert_eq!(
        exec_report_for(ExecOutcome::Failed("Not connected".to_string())),
        (-1, "Error: Not connected".to_string())
    );
    assert_eq!(
        exec_report_for(ExecOutcome::Completed(2, "out".to_string())),
        (2, "out".to_string())
    );
}

#[test]
fn words_of_the_protocol() {
    assert_eq!(shell_terminal(), "xterm-256color");
    assert_eq!(disconnect_reason(), "User disconnect");
}

#[test]
fn stopping_a_forward_gives_its_cancel_signal() {
    let mut s = connected();
    let first = s.start_port_forward(12345, true).unwrap();
    let second = s.start_port_forward(12346, true).unwrap();
    let third = s.start_port_forward(12347, true).unwrap();
    assert!(!*first.borrow());
    assert!(!first.has_changed().unwrap());
    assert_eq!(s.stop_port_forward(12346), Ok(()));
    assert!(*second.borrow());
    assert!(!*first.borrow());
    assert!(!first.has_changed().unwrap());
    assert!(!*third.borrow());
    assert_eq!(sorted(s.active_forwards()), vec![12345, 12347]);
    assert_eq!(sorted(s.stop_all_forwards()), vec![12345, 12347]);
    assert!(*first.borrow());
    assert!(*third.borrow());
    // With the session gone nobody is left to cancel.
    let mut other = connected();
    let orphan = other.start_port_forward(1, true).unwrap();
    drop(other);
    assert!(orphan.has_changed().is_err());
}

#[test]
fn stopping_a_forward_that_nobody_watches() {
    let mut s = connected();
    drop(s.start_port_forward(9, true).unwrap());
    assert_eq!(s.stop_port_forward(9), Ok(()));
    assert!(s.active_forwards().is_empty());
}

#[test]
fn commands_need_a_transport() {
    let mut s = SshSession::new(config(SshAuth::Password("pw".into())));
    assert_eq!(s.require_connected(), Err(SshError::NotConnected));
    assert_eq!(s.connect(HandshakeOutcome::Established, AuthOutcome::Success), Ok(()));
    assert_eq!(s.require_connected(), Ok(()));
    s.disconnect();
    assert_eq!(s.require_connected(), Err(SshError::NotConnected));
}
