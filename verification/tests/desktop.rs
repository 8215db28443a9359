use aion2_tunnel::crypto::{open, seal, TunnelKey};
use aion2_tunnel::deploy::{
    find_relay_binary, remote_sha256, DeployAction, DeployConfig, DeployEvent, DeployPhase,
    Deployment, BINARY_PATH, CHECK_COMMAND, ENABLE_COMMAND, FIREWALL_COMMAND, JOURNAL_COMMAND,
    KEY_PATH, MKDIR_COMMAND, RELOAD_COMMAND, RESTART_COMMAND, SERVICE_PATH, SHOW_KEY_COMMAND,
    START_COMMAND, STOP_COMMAND, SYSTEMD_SERVICE,
};
use aion2_tunnel::hex::{is_hex_key, sha256_hex};
use aion2_tunnel::profiles::{
    delete_profile, load_profiles, save_profile, set_active_profile, Profile, ProfileStore,
};
use aion2_tunnel::protocol::{ConnId, TunnelMessage};
use aion2_tunnel::status::{
    build_status, get_status, handle_relay_msg, log_entry, run_tunnel_step, start_proxy,
    stop_proxy, LogLine, Pinger, ProxyState, ProxyStats, RelayConfig, TunnelEvent,
};

fn key() -> TunnelKey {
    TunnelKey::from_bytes(&[0x33; 32])
}

fn conn() -> ConnId {
    ConnId::new([10, 200, 0, 2], 1000, [210, 242, 1, 1], 80)
}

#[test]
fn statuses() {
    let none = get_status(None, 99);
    assert_eq!(none.state, "disconnected");
    assert_eq!(none.uptime_secs, 0);
    assert_eq!(none.rtt_ms, None);
    let mut stats = ProxyStats::new();
    let fresh = get_status(Some(&stats), 5);
    assert_eq!(fresh.state, "connecting");
    assert_eq!(fresh.uptime_secs, 5);
    assert_eq!(fresh.rtt_ms, None);
    stats.connected = true;
    stats.rtt_ms = 12;
    stats.bytes_tx = 1;
    stats.bytes_rx = 2;
    stats.active_connections = 0x1_0000_0003;
    let status = build_status(&stats, 6);
    assert_eq!(status.state, "connected");
    assert_eq!(status.rtt_ms, Some(12));
    assert_eq!(status.bytes_tx, 1);
    assert_eq!(status.bytes_rx, 2);
    assert_eq!(status.active_connections, 3);
}

fn note(stats: &mut ProxyStats, msg: TunnelMessage) -> (String, String) {
    match handle_relay_msg(stats, msg, 1_030) {
        Some(line) => (line.level.to_string(), line.message),
        None => (String::new(), String::new()),
    }
}

#[test]
fn messages_are_counted_and_logged() {
    let mut stats = ProxyStats::new();
    let pong = TunnelMessage::Pong { seq: 7, client_timestamp_ms: 1_000 };
    assert_eq!(note(&mut stats, pong), ("info".into(), "Pong seq=7 rtt=30ms".into()));
    assert!(stats.connected);
    assert_eq!(stats.rtt_ms, 30);
    let text = conn().to_text();
    assert_eq!(
        note(&mut stats, TunnelMessage::Connected(conn())),
        ("info".into(), format!("Connection established: {text}"))
    );
    assert_eq!(stats.active_connections, 1);
    let failed = TunnelMessage::ConnectFailed { conn: conn(), reason: "no".into() };
    assert_eq!(note(&mut stats, failed), ("error".into(), format!("Connect failed {text}: no")));
    assert_eq!(
        note(&mut stats, TunnelMessage::Shutdown(conn())),
        ("info".into(), format!("Connection closed: {text}"))
    );
    assert_eq!(stats.active_connections, 0);
    assert_eq!(
        note(&mut stats, TunnelMessage::Reset(conn())),
        ("warn".into(), format!("Connection reset: {text}"))
    );
    assert_eq!(stats.active_connections, u64::MAX);
    let data = TunnelMessage::Data { conn: conn(), payload: vec![0; 9] };
    assert_eq!(note(&mut stats, data), (String::new(), String::new()));
    assert_eq!(stats.bytes_rx, 9);
    assert_eq!(note(&mut stats, TunnelMessage::Connect(conn())), (String::new(), String::new()));
}

#[test]
fn messages_add_up() {
    let mut stats = ProxyStats::new();
    stats.active_connections = 1;
    let msgs = vec![
        TunnelMessage::Connected(conn()),
        TunnelMessage::Data { conn: conn(), payload: vec![0; 5] },
        TunnelMessage::ConnectFailed { conn: conn(), reason: "no".into() },
        TunnelMessage::Connected(conn()),
        TunnelMessage::Shutdown(conn()),
        TunnelMessage::Ping { seq: 1, timestamp_ms: 1 },
        TunnelMessage::Data { conn: conn(), payload: vec![0; 7] },
        TunnelMessage::Connect(conn()),
        TunnelMessage::Reset(conn()),
    ];
    for msg in msgs {
        note(&mut stats, msg);
    }
    assert_eq!(stats.active_connections, 1);
    assert_eq!(stats.bytes_rx, 12);
    assert_eq!(stats.bytes_tx, 0);
    assert!(!stats.connected);
    assert_eq!(stats.rtt_ms, 0);
}

#[test]
fn the_tunnel_goes_on_while_datagrams_come() {
    let mut stats = ProxyStats::new();
    let pong = TunnelMessage::Pong { seq: 1, client_timestamp_ms: 5 };
    let packet = seal(&key(), &pong).unwrap();
    let len = packet.len() as u64;
    let (line, on) = run_tunnel_step(&mut stats, &key(), TunnelEvent::Received(packet), 6);
    assert!(on);
    assert_eq!(line.unwrap().message, "Pong seq=1 rtt=1ms");
    assert_eq!(stats.bytes_rx, len);
    let (line, on) = run_tunnel_step(&mut stats, &key(), TunnelEvent::Received(vec![0; 50]), 6);
    assert!(on);
    let line = line.unwrap();
    assert_eq!(line.level, "warn");
    assert_eq!(line.message, "Decrypt failed: decryption failed: aead::Error");
    assert!(stats.connected);
    let mut odd = key().key_id.to_vec();
    key().encrypt_into(&[8, 0, 0, 0], &mut odd).unwrap();
    let odd_len = odd.len() as u64;
    let (line, _) = run_tunnel_step(&mut stats, &key(), TunnelEvent::Received(odd), 6);
    assert_eq!(
        line.unwrap().message,
        "Decrypt failed: invalid value: integer `8`, expected variant index 0 <= i < 8"
    );
    let (line, on) =
        run_tunnel_step(&mut stats, &key(), TunnelEvent::RecvFailed("gone".into()), 6);
    assert!(!on);
    assert_eq!(line.unwrap().message, "Recv error: gone");
    assert!(!stats.connected);
    let (line, on) = run_tunnel_step(&mut stats, &key(), TunnelEvent::Cancelled, 6);
    assert!(!on);
    assert_eq!(line.unwrap().message, "Tunnel shutting down");
    assert_eq!(stats.bytes_rx, len + 50 + odd_len);
}

#[test]
fn pings_count_as_sent() {
    let mut stats = ProxyStats::new();
    let mut pinger = Pinger { seq: 4 };
    let packet = pinger.next(&mut stats, &key(), 9).unwrap();
    assert_eq!(pinger.seq, 5);
    assert_eq!(stats.bytes_tx, 64);
    assert_eq!(packet.len(), 64);
    assert!(matches!(
        open(&key(), &packet).unwrap(),
        TunnelMessage::Ping { seq: 4, timestamp_ms: 9 }
    ));
}

#[test]
fn one_session_at_a_time() {
    let mut state = ProxyState::new();
    assert!(stop_proxy(&mut state).is_none());
    let config = RelayConfig { relay_addr: "1.2.3.4:443".into(), key_hex: format!(" {}\n", "33".repeat(32)) };
    let (k, stats, line) = start_proxy(&mut state, 1, &config, Ok("1.2.3.4:443".into())).ok().unwrap();
    assert_eq!(k.key_id, key().key_id);
    assert_eq!(stats, ProxyStats::new());
    assert_eq!(line.level, "info");
    assert_eq!(line.message, "Connecting to relay 1.2.3.4:443...");
    assert_eq!(state.running, Some(1));
    assert_eq!(state.take_running(), Some(1));
    assert!(start_proxy(&mut state, 2, &config, Ok("1.2.3.4:443".into())).is_ok());
    let (session, line) = stop_proxy(&mut state).unwrap();
    assert_eq!(session, 2);
    assert_eq!(line.message, "Proxy stopped");
    assert!(stop_proxy(&mut state).is_none());
}

#[test]
fn bad_configurations_do_not_start() {
    let mut state = ProxyState::new();
    let config = RelayConfig { relay_addr: "nowhere".into(), key_hex: "abc".into() };
    assert_eq!(
        start_proxy(&mut state, 1, &config, Err("invalid socket address syntax".into())).err().unwrap(),
        "Invalid relay address: invalid socket address syntax"
    );
    assert_eq!(
        start_proxy(&mut state, 1, &config, Ok("1.2.3.4:443".into())).err().unwrap(),
        "Key must be 64 hex chars (32 bytes), got 3"
    );
    assert_eq!(state.running, None);
}

#[test]
fn log_lines_get_the_time() {
    let entry = log_entry(3_600, LogLine { level: "warn", message: "m".into() });
    assert_eq!(entry.timestamp, "01:00:00");
    assert_eq!(entry.level, "warn");
    assert_eq!(entry.message, "m");
}

fn profile(name: &str, addr: &str) -> Profile {
    Profile {
        name: name.into(),
        relay_addr: addr.into(),
        key_hex: String::new(),
        vps_host: None,
        ssh_port: Some(22),
        ssh_user: None,
    }
}

fn names(store: &ProfileStore) -> Vec<String> {
    store.profiles.iter().map(|p| format!("{}@{}", p.name, p.relay_addr)).collect()
}

#[test]
fn profiles_are_saved_by_name() {
    let mut store = ProfileStore::new();
    save_profile(&mut store, profile("a", "1"));
    save_profile(&mut store, profile("b", "2"));
    save_profile(&mut store, profile("c", "3"));
    save_profile(&mut store, profile("b", "4"));
    assert_eq!(names(&store), vec!["a@1", "b@4", "c@3"]);
    delete_profile(&mut store, "a".into());
    delete_profile(&mut store, "x".into());
    assert_eq!(names(&store), vec!["b@4", "c@3"]);
}

#[test]
fn the_active_profile_is_a_saved_one() {
    let mut store = ProfileStore::new();
    save_profile(&mut store, profile("a", "1"));
    save_profile(&mut store, profile("b", "2"));
    assert_eq!(
        set_active_profile(&mut store, "z".into()).unwrap_err(),
        "Profile 'z' not found"
    );
    assert_eq!(store.active, None);
    set_active_profile(&mut store, "b".into()).unwrap();
    assert!(set_active_profile(&mut store, "z".into()).is_err());
    delete_profile(&mut store, "a".into());
    assert_eq!(store.active.as_deref(), Some("b"));
    delete_profile(&mut store, "b".into());
    assert_eq!(store.active, None);
    let (profiles, active) = load_profiles(store);
    assert!(profiles.is_empty());
    assert!(active.is_none());
}

#[test]
fn every_profile_of_a_name_is_deleted() {
    let mut store = ProfileStore {
        profiles: vec![profile("a", "1"), profile("b", "2"), profile("a", "3")],
        active: Some("a".into()),
    };
    save_profile(&mut store, profile("a", "9"));
    assert_eq!(names(&store), vec!["a@9", "b@2", "a@3"]);
    delete_profile(&mut store, "a".into());
    assert_eq!(names(&store), vec!["b@2"]);
    assert_eq!(store.active, None);
}

fn config() -> DeployConfig {
    DeployConfig { host: "h.example".into(), port: None, user: "root".into(), password: "pw".into() }
}

fn exec(action: &DeployAction) -> String {
    match action {
        DeployAction::Exec(command) => command.clone(),
        _ => panic!("no command"),
    }
}

fn output(exit: i32, printed: &str) -> DeployEvent {
    DeployEvent::Output(Ok((exit, printed.into())))
}

/// An installation that waits for the digest of the installed program.
fn begun() -> Deployment {
    let (mut d, notes, action) = Deployment::start(config());
    assert_eq!(notes, vec!["Reading relay binary..."]);
    assert!(matches!(action, DeployAction::ReadBinary));
    let (notes, action) = d.step(DeployEvent::Binary(Ok(vec![1, 2, 3])));
    assert_eq!(notes, vec!["Binary loaded (3 bytes)", "Connecting to h.example:22..."]);
    match action {
        DeployAction::Connect { host, port, user, password } => {
            assert_eq!(host, "h.example");
            assert_eq!(port, 22);
            assert_eq!(user, "root");
            assert_eq!(password, "pw");
        }
        _ => panic!("no connection"),
    }
    let (notes, action) = d.step(DeployEvent::Connected(Ok(())));
    assert_eq!(notes, vec!["SSH connected", "Checking relay binary..."]);
    assert_eq!(
        exec(&action),
        "sha256sum /usr/local/bin/aion2-relay 2>/dev/null | cut -d' ' -f1"
    );
    d
}

#[test]
fn an_installed_relay_is_left_alone() {
    let mut d = begun();
    let (notes, action) = d.step(output(0, &format!("{}\n", sha256_hex(&[1, 2, 3]))));
    assert_eq!(notes, vec!["Binary unchanged, skipping upload", "Setting up directories..."]);
    assert_eq!(exec(&action), MKDIR_COMMAND);
    let (_, action) = d.step(output(0, ""));
    assert_eq!(exec(&action), SHOW_KEY_COMMAND);
    let key = "ab".repeat(32);
    let (notes, action) = d.step(output(0, &format!("{key}\n")));
    assert_eq!(notes, vec!["Reusing existing key", "Checking systemd service..."]);
    assert_eq!(
        exec(&action),
        "sha256sum /etc/systemd/system/aion2-relay.service 2>/dev/null | cut -d' ' -f1"
    );
    let (notes, action) = d.step(output(0, &sha256_hex(SYSTEMD_SERVICE.as_bytes())));
    assert_eq!(notes, vec!["Service file unchanged, skipping", "Configuring firewall..."]);
    assert_eq!(exec(&action), FIREWALL_COMMAND);
    let (_, action) = d.step(DeployEvent::Output(Err("lost".into())));
    assert_eq!(exec(&action), ENABLE_COMMAND);
    let (notes, action) = d.step(output(0, ""));
    assert_eq!(notes, vec!["Ensuring service is running..."]);
    assert_eq!(exec(&action), START_COMMAND);
    let (_, action) = d.step(output(1, ""));
    assert!(matches!(action, DeployAction::Pause));
    let (_, action) = d.step(DeployEvent::Paused);
    assert_eq!(exec(&action), CHECK_COMMAND);
    let (notes, action) = d.step(output(0, "active\n"));
    assert_eq!(notes, vec!["Relay deployed successfully at h.example:443"]);
    match action {
        DeployAction::Finished(result) => {
            assert_eq!(result.key_hex, key);
            assert_eq!(result.relay_addr, "h.example:443");
        }
        _ => panic!("not finished"),
    }
    assert_eq!(d.phase, DeployPhase::Done);
}

#[test]
fn a_new_relay_is_installed() {
    let mut d = begun();
    let (notes, action) = d.step(output(1, ""));
    assert_eq!(notes, vec!["Stopping existing service..."]);
    assert_eq!(exec(&action), STOP_COMMAND);
    let (notes, action) = d.step(DeployEvent::Output(Err("ignored".into())));
    assert_eq!(notes, vec!["Uploading relay binary..."]);
    assert!(matches!(
        action,
        DeployAction::Upload { data, path: BINARY_PATH, mode: 0o755 } if data == vec![1, 2, 3]
    ));
    let (notes, action) = d.step(DeployEvent::Uploaded(Ok(())));
    assert_eq!(notes, vec!["Binary uploaded", "Setting up directories..."]);
    assert_eq!(exec(&action), MKDIR_COMMAND);
    d.step(output(0, ""));
    let (notes, action) = d.step(output(0, ""));
    assert_eq!(notes, vec!["Generating tunnel key..."]);
    let sent = match action {
        DeployAction::Upload { data, path: KEY_PATH, mode: 0o600 } => String::from_utf8(data).unwrap(),
        _ => panic!("no key"),
    };
    assert!(is_hex_key(&sent));
    let (notes, _) = d.step(DeployEvent::Uploaded(Ok(())));
    assert_eq!(notes, vec!["Key uploaded", "Checking systemd service..."]);
    let (notes, action) = d.step(output(0, &"0".repeat(64)));
    assert_eq!(notes, vec!["Installing systemd service..."]);
    assert!(matches!(
        action,
        DeployAction::Upload { data, path: SERVICE_PATH, mode: 0o644 } if data == SYSTEMD_SERVICE.as_bytes()
    ));
    let (_, action) = d.step(DeployEvent::Uploaded(Ok(())));
    assert_eq!(exec(&action), RELOAD_COMMAND);
    let (notes, action) = d.step(output(0, ""));
    assert_eq!(notes, vec!["Configuring firewall..."]);
    assert_eq!(exec(&action), FIREWALL_COMMAND);
    d.step(output(0, ""));
    let (notes, action) = d.step(output(0, ""));
    assert_eq!(notes, vec!["Restarting relay service (config changed)..."]);
    assert_eq!(exec(&action), RESTART_COMMAND);
    d.step(output(0, ""));
    d.step(DeployEvent::Paused);
    let (_, action) = d.step(output(0, "active"));
    assert!(matches!(action, DeployAction::Finished(r) if r.key_hex == sent));
}

#[test]
fn a_given_key_is_the_one_that_is_sent() {
    let mut d = begun();
    d.phase = DeployPhase::ReadingKey;
    let (_, action) = d.step_with_key(output(0, "short"), "k".into());
    assert!(matches!(action, DeployAction::Upload { data, .. } if data == b"k"));
    assert_eq!(d.key_hex, "k");
}

#[test]
fn a_dead_service_is_told_with_its_log() {
    let mut d = begun();
    d.phase = DeployPhase::Checking;
    let (_, action) = d.step(output(3, "inactive\n"));
    assert_eq!(exec(&action), JOURNAL_COMMAND);
    let (_, action) = d.step(output(0, "line 1\nline 2\n"));
    assert!(matches!(
        action,
        DeployAction::Failed(text)
            if text == "Service not active (status: inactive). Journal:\nline 1\nline 2"
    ));
}

#[test]
fn failures_end_an_installation() {
    let (mut d, _, _) = Deployment::start(config());
    let (notes, action) = d.step(DeployEvent::Binary(Err("no file".into())));
    assert!(notes.is_empty());
    assert!(matches!(action, DeployAction::Failed(text) if text == "no file"));
    let mut d = begun();
    d.phase = DeployPhase::MakingDirs;
    let (_, action) = d.step(DeployEvent::Output(Err("lost".into())));
    assert!(matches!(action, DeployAction::Failed(text) if text == "lost"));
    let mut d = begun();
    d.phase = DeployPhase::SendingKey;
    let (_, action) = d.step(DeployEvent::Uploaded(Err("full".into())));
    assert!(matches!(action, DeployAction::Failed(text) if text == "full"));
}

#[test]
fn remote_digests() {
    let digest = "0f".repeat(32);
    assert_eq!(remote_sha256(&Ok((0, format!(" {digest}\n")))), Some(digest.clone()));
    assert_eq!(remote_sha256(&Ok((1, digest.clone()))), None);
    assert_eq!(remote_sha256(&Ok((0, digest[1..].to_string()))), None);
    assert_eq!(remote_sha256(&Ok((0, "g".repeat(64)))), None);
    assert_eq!(remote_sha256(&Err("lost".into())), None);
}

#[test]
fn the_built_program_goes_before_the_bundled_one() {
    assert_eq!(find_relay_binary(Some(vec![1]), Some(vec![2]), None).unwrap(), vec![1]);
    assert_eq!(find_relay_binary(None, Some(vec![2]), None).unwrap(), vec![2]);
    assert_eq!(
        find_relay_binary(None, None, Some("/w/relay".into())).unwrap_err(),
        "Linux relay binary not found.\nRun: cargo zigbuild --release --target x86_64-unknown-linux-musl -p aion2-relay\nExpected at: /w/relay"
    );
    assert!(find_relay_binary(None, None, None)
        .unwrap_err()
        .ends_with("<workspace>/target/x86_64-unknown-linux-musl/release/aion2-relay"));
}
