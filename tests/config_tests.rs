use tunnel_hub::cli::{Args, Commands};
use tunnel_hub::config::Options;

#[test]
fn defaults_apply_when_unset() {
    let o = Options::from_settings(None, None, None, None);
    assert_eq!(o.http_server.port, 8890);
    assert_eq!(o.host, "127.0.0.1");
    assert_eq!(o.hub.ws_uri, "ws://127.0.0.1:8890/ws");
    assert_eq!(o.hub.proxy_response_uri, "http://127.0.0.1:8890/api/proxy/response");
}

#[test]
fn given_settings_win() {
    let o = Options::from_settings(
        Some("9000".to_string()),
        Some("0.0.0.0".to_string()),
        Some("ws://hub:1/ws".to_string()),
        Some("http://hub:1/r".to_string()),
    );
    assert_eq!(o.http_server.port, 9000);
    assert_eq!(o.host, "0.0.0.0");
    assert_eq!(o.hub.ws_uri, "ws://hub:1/ws");
    assert_eq!(o.hub.proxy_response_uri, "http://hub:1/r");
}

#[test]
fn unusable_port_falls_back() {
    assert_eq!(Options::from_settings(Some("http".to_string()), None, None, None).http_server.port, 8890);
    assert_eq!(Options::from_settings(Some("70000".to_string()), None, None, None).http_server.port, 8890);
    assert_eq!(Options::from_settings(Some("65535".to_string()), None, None, None).http_server.port, 65535);
}

#[test]
fn args_hold_a_subcommand() {
    let a = Args { command: Some(Commands::Hub) };
    assert!(a.command == Some(Commands::Hub));
    assert!(Args { command: None }.command.is_none());
}
