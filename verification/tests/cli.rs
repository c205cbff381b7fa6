use vpngate2socks::cli::{Arguments, Command};

#[test]
fn no_subcommand_runs_the_control_plane() {
    assert!(matches!(Arguments { command: None }.role(), Command::Serve));
    assert!(matches!(Arguments { command: Some(Command::Netd) }.role(), Command::Netd));
    let worker = Arguments { command: Some(Command::Worker { socket: "/run/w.sock".to_owned(), require_tun: true }) };
    assert!(matches!(worker.role(), Command::Worker { socket, require_tun: true } if socket == "/run/w.sock"));
}
