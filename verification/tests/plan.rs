use irc_socket::{parse_address, plan_connect, ConnectPlan, SocketError};
use irc_socket::session::READ_BUFFER_SIZE;

fn plan_for(address: &str) -> ConnectPlan {
    let (use_tls, host, port) = parse_address(address).expect("parsing an address never fails");
    plan_connect(use_tls, host, port)
}

#[test]
fn secure_address_is_dialled_and_secured_for_its_host() {
    assert_eq!(
        plan_for("ircs://chat.example.com"),
        ConnectPlan {
            host: "chat.example.com".to_string(),
            port: 6697,
            target: "chat.example.com:6697".to_string(),
            tls_domain: Some("chat.example.com".to_string()),
        }
    );
}

#[test]
fn plain_address_is_dialled_without_tls() {
    assert_eq!(
        plan_for("irc://chat.example.com:6660"),
        ConnectPlan {
            host: "chat.example.com".to_string(),
            port: 6660,
            target: "chat.example.com:6660".to_string(),
            tls_domain: None,
        }
    );
    assert_eq!(plan_for("chat.example.com").target, "chat.example.com:6667");
    assert_eq!(plan_for("chat.example.com").tls_domain, None);
}

#[test]
fn fallback_host_is_dialled_on_the_default_port() {
    let plan = plan_for("chat.example.com:notaport");
    assert_eq!(plan.host, "chat.example.com:notaport");
    assert_eq!(plan.port, 6667);
    assert_eq!(plan.target, "chat.example.com:notaport:6667");
}

#[test]
fn failed_dial_names_host_and_port() {
    let plan = plan_for("ircs://irc.example.org:7000");
    let failed = plan.dial_failed("connection refused".to_string());
    assert_eq!(
        failed,
        SocketError::DialFailed {
            host: "irc.example.org".to_string(),
            port: 7000,
            cause: "connection refused".to_string(),
        }
    );
    assert_eq!(failed.message(), "Failed to connect to irc.example.org:7000: connection refused");
}

#[test]
fn read_buffer_holds_four_kibibytes() {
    assert_eq!(READ_BUFFER_SIZE, 4096);
}
