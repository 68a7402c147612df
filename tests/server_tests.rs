use easy_esp::address::Address;
use easy_esp::commands::{ConnCMD, ServerCMD};
use easy_esp::message::create_json_message;
use easy_esp::server::{Server, ServerPhase};

fn a(port: u16) -> Address {
    Address::V4(0x7f000001, port)
}

fn listening() -> Server<u32> {
    let mut s = Server::new(a(5555));
    assert!(s.listen());
    s
}

#[test]
fn new_server_is_idle_and_refuses_connections() {
    let mut s: Server<u32> = Server::new(a(5555));
    assert_eq!(s.get_addr(), a(5555));
    assert_eq!(s.phase(), ServerPhase::Idle);
    assert!(!s.accepts());
    assert_eq!(s.add_conn(a(1), 10), Err(10));
    assert_eq!(s.conn_count(), 0);
}

#[test]
fn listen_only_from_idle() {
    let mut s = listening();
    assert_eq!(s.phase(), ServerPhase::Listening);
    assert!(!s.listen());
    assert_eq!(s.phase(), ServerPhase::Listening);
}

#[test]
fn duplicate_address_is_refused() {
    let mut s = listening();
    assert_eq!(s.add_conn(a(1), 10), Ok(()));
    assert_eq!(s.add_conn(a(1), 11), Err(11));
    assert_eq!(s.conn_count(), 1);
    assert_eq!(s.handle_of(a(1)), Some(&10));
}

#[test]
fn send_all_reaches_each_registered_once() {
    let mut s = listening();
    s.add_conn(a(1), 10).unwrap();
    s.add_conn(a(2), 20).unwrap();
    s.add_conn(a(3), 30).unwrap();
    let ds = s.dispatch(ServerCMD::SendAll(create_json_message("hi".to_string(), 200, None)));
    assert_eq!(ds.len(), 3);
    let targets: Vec<Address> = ds.iter().map(|d| d.target).collect();
    assert_eq!(targets, vec![a(1), a(2), a(3)]);
    for d in &ds {
        assert!(matches!(&d.cmd, ConnCMD::Send(m) if m.body == "hi"));
    }
    s.add_conn(a(4), 40).unwrap();
    assert!(ds.iter().all(|d| d.target != a(4)));
}

#[test]
fn send_all_with_no_connection_delivers_nothing() {
    let s = listening();
    assert!(s.send_all(&create_json_message("x".to_string(), 200, None)).is_empty());
}

#[test]
fn kick_targets_one_connection() {
    let mut s = listening();
    s.add_conn(a(1), 10).unwrap();
    s.add_conn(a(2), 20).unwrap();
    let ds = s.dispatch(ServerCMD::Kick(a(2)));
    assert_eq!(ds.len(), 1);
    assert_eq!(ds[0].target, a(2));
    assert!(matches!(ds[0].cmd, ConnCMD::Kick));
    assert_eq!(s.conn_count(), 2);
    assert_eq!(s.remove_conn(a(2)), Some(20));
    assert_eq!(s.conn_count(), 1);
    assert!(s.is_registered(a(1)));
    assert!(!s.is_registered(a(2)));
}

#[test]
fn kick_of_unknown_address_delivers_nothing() {
    let mut s = listening();
    s.add_conn(a(1), 10).unwrap();
    assert!(s.dispatch(ServerCMD::Kick(a(9))).is_empty());
    assert_eq!(s.remove_conn(a(9)), None);
    assert_eq!(s.conn_count(), 1);
}

#[test]
fn shutdown_kicks_everyone_and_stops_admitting() {
    let mut s = listening();
    s.add_conn(a(1), 10).unwrap();
    s.add_conn(a(2), 20).unwrap();
    let ds = s.dispatch(ServerCMD::ShutDown(0));
    assert_eq!(s.phase(), ServerPhase::ShuttingDown);
    assert_eq!(ds.len(), 2);
    assert!(ds.iter().all(|d| matches!(d.cmd, ConnCMD::Kick)));
    assert_eq!(s.add_conn(a(3), 30), Err(30));
}

#[test]
fn shutdown_can_keep_admitting_when_configured() {
    let mut s: Server<u32> = Server::new(a(5555)).with_accept_while_shutting_down(true);
    s.listen();
    s.dispatch(ServerCMD::ShutDown(1));
    assert!(s.accepts());
    assert_eq!(s.add_conn(a(3), 30), Ok(()));
}

#[test]
fn remove_keeps_order_of_the_rest() {
    let mut s = listening();
    s.add_conn(a(1), 10).unwrap();
    s.add_conn(a(2), 20).unwrap();
    s.add_conn(a(3), 30).unwrap();
    assert_eq!(s.remove_conn(a(2)), Some(20));
    let ds = s.dispatch(ServerCMD::ShutDown(0));
    let targets: Vec<Address> = ds.iter().map(|d| d.target).collect();
    assert_eq!(targets, vec![a(1), a(3)]);
    assert_eq!(a(3).port(), 3);
}
