use aion2_tunnel::protocol::ConnId;
use aion2_tunnel::routing::{adapter_args, game_routes, is_game_ip, route_args};
use aion2_tunnel::tun::{ends_too_early, handle_tun_packet, is_for_tunnel, TunAction};

#[test]
fn test_game_ip_detection() {
    assert!(is_game_ip([210, 242, 123, 135]));
    assert!(is_game_ip([210, 242, 186, 61]));
    assert!(is_game_ip([216, 107, 253, 9]));
    assert!(is_game_ip([216, 107, 244, 75]));

    assert!(!is_game_ip([8, 8, 8, 8]));
    assert!(!is_game_ip([192, 168, 1, 1]));
    assert!(!is_game_ip([210, 241, 0, 1]));
}

#[test]
fn neighbours_of_game_ranges_are_not_in_them() {
    assert!(is_game_ip([210, 242, 0, 0]));
    assert!(is_game_ip([210, 242, 255, 255]));
    assert!(!is_game_ip([210, 243, 0, 0]));
    assert!(!is_game_ip([216, 107, 243, 255]));
    assert!(!is_game_ip([216, 107, 245, 0]));
    assert!(!is_game_ip([216, 107, 252, 255]));
    assert!(!is_game_ip([216, 107, 254, 0]));
}

#[test]
fn routes_cover_what_the_tunnel_takes() {
    let routes = game_routes();
    assert_eq!(routes.len(), 3);
    for ip in [[210, 242, 9, 9], [216, 107, 244, 1], [216, 107, 253, 1], [216, 107, 254, 1], [1, 1, 1, 1]] {
        let covered = routes.iter().any(|r| (0..4).all(|i| ip[i] & r.mask[i] == r.network[i]));
        assert_eq!(covered, is_game_ip(ip));
    }
}

#[test]
fn routes_and_addresses_as_commands() {
    assert_eq!(
        route_args(&game_routes()[0]),
        vec!["add", "210.242.0.0", "mask", "255.255.0.0", "10.200.0.1", "metric", "5"]
    );
    assert_eq!(
        adapter_args("10.200.0.2", "255.255.255.0"),
        vec![
            "interface",
            "ip",
            "set",
            "address",
            "name=Aion2Proxy",
            "source=static",
            "addr=10.200.0.2",
            "mask=255.255.255.0"
        ]
    );
}

fn packet(flags: u8, payload: &[u8]) -> Vec<u8> {
    let mut p = vec![0u8; 40];
    p[0] = 0x45;
    p[9] = 6;
    p[12..16].copy_from_slice(&[10, 200, 0, 2]);
    p[16..20].copy_from_slice(&[210, 242, 1, 2]);
    p[20..22].copy_from_slice(&0x1234u16.to_be_bytes());
    p[22..24].copy_from_slice(&13328u16.to_be_bytes());
    p[32] = 0x50;
    p[33] = flags;
    p.extend_from_slice(payload);
    p
}

fn conn() -> ConnId {
    ConnId::new([10, 200, 0, 2], 0x1234, [210, 242, 1, 2], 13328)
}

#[test]
fn flags_decide() {
    assert!(matches!(handle_tun_packet(&packet(0x02, &[])), TunAction::Open(c) if c == conn()));
    assert!(matches!(handle_tun_packet(&packet(0x12, &[1])), TunAction::Open(c) if c == conn()));
    assert!(matches!(handle_tun_packet(&packet(0x04, &[])), TunAction::Reset(c) if c == conn()));
    assert!(matches!(handle_tun_packet(&packet(0x06, &[])), TunAction::Reset(c) if c == conn()));
    assert!(matches!(handle_tun_packet(&packet(0x05, &[])), TunAction::Reset(c) if c == conn()));
    assert!(matches!(handle_tun_packet(&packet(0x11, &[1])), TunAction::Shutdown(c) if c == conn()));
    assert!(matches!(handle_tun_packet(&packet(0x10, &[])), TunAction::Ignore));
    match handle_tun_packet(&packet(0x18, &[1, 2, 3])) {
        TunAction::Send { conn: c, payload } => {
            assert_eq!(c, conn());
            assert_eq!(payload, vec![1, 2, 3]);
        }
        _ => panic!("no payload"),
    }
}

#[test]
fn options_are_not_payload() {
    // Six words of TCP header: four bytes of options.
    let mut p = packet(0x18, &[9, 9, 9, 9, 1, 2]);
    p[32] = 0x60;
    assert!(matches!(handle_tun_packet(&p), TunAction::Send { payload, .. } if payload == vec![1, 2]));
    // Six words of IP header.
    let mut q = packet(0x18, &[1, 2]);
    q[0] = 0x46;
    for _ in 0..4 {
        q.insert(20, 0);
    }
    assert!(matches!(handle_tun_packet(&q), TunAction::Send { conn: c, payload } if c == conn() && payload == vec![1, 2]));
}

#[test]
fn only_tcp_counts() {
    let mut p = packet(0x02, &[]);
    p[9] = 17;
    assert!(matches!(handle_tun_packet(&p), TunAction::Ignore));
    assert!(matches!(handle_tun_packet(&packet(0x02, &[])[..39]), TunAction::Ignore));
    assert!(matches!(handle_tun_packet(&[0x45; 19]), TunAction::Ignore));
    let mut q = packet(0x18, &[]);
    q[32] = 0x60;
    assert!(ends_too_early(&q));
    assert!(!ends_too_early(&packet(0x18, &[])));
}

#[test]
fn only_game_traffic_is_for_the_tunnel() {
    assert!(is_for_tunnel(&packet(0x02, &[])));
    let mut p = packet(0x02, &[]);
    p[0] = 0x65;
    assert!(!is_for_tunnel(&p));
    let mut q = packet(0x02, &[]);
    q[16] = 8;
    assert!(!is_for_tunnel(&q));
    assert!(!is_for_tunnel(&packet(0x02, &[])[..19]));
}
