use easy_esp::address::Address;
use easy_esp::commands::{ConnCMD, ServerCMD};
use easy_esp::conn::{Conn, ConnAction, ConnEvent, Phase};
use easy_esp::handler::{HandlerJob, HandlerReply};
use easy_esp::message::{create_json_message, Message};

fn addr() -> Address {
    Address::V4(0x7f000001, 4000)
}

fn msg(body: &str) -> Message {
    create_json_message(body.to_string(), 200, None)
}

fn active_conn() -> Conn {
    let (mut c, _) = Conn::new(addr());
    c.step(ConnEvent::Reply(HandlerReply::Connected(None)));
    c
}

fn is_disconnect_call(acts: &[ConnAction]) -> bool {
    acts.len() == 1 && matches!(&acts[0], ConnAction::Call(HandlerJob::Disconnect(a)) if *a == addr())
}

#[test]
fn new_conn_asks_for_connect_first() {
    let (c, job) = Conn::new(addr());
    assert_eq!(c.phase(), Phase::Connecting);
    assert_eq!(c.get_addr(), addr());
    assert!(matches!(job, HandlerJob::Connect(a) if a == addr()));
}

#[test]
fn connect_reply_forwards_command_and_activates() {
    let (mut c, _) = Conn::new(addr());
    let acts = c.step(ConnEvent::Reply(HandlerReply::Connected(Some(ServerCMD::SendAll(msg("joined"))))));
    assert_eq!(c.phase(), Phase::Active);
    assert_eq!(acts.len(), 1);
    assert!(matches!(&acts[0], ConnAction::Forward(ServerCMD::SendAll(m)) if m.body == "joined"));
}

#[test]
fn envelope_goes_to_handler_then_response_is_written() {
    let mut c = active_conn();
    let acts = c.step(ConnEvent::Envelope(msg("ping")));
    assert_eq!(c.phase(), Phase::Busy);
    assert!(matches!(&acts[0], ConnAction::Call(HandlerJob::Request(m, o)) if m.body == "ping" && *o == addr()));
    let acts = c.step(ConnEvent::Reply(HandlerReply::Responded(msg("pong"), Some(ServerCMD::ShutDown(3)))));
    assert_eq!(c.phase(), Phase::Active);
    assert_eq!(acts.len(), 2);
    assert!(matches!(&acts[0], ConnAction::Write(m) if m.body == "pong"));
    assert!(matches!(&acts[1], ConnAction::Forward(ServerCMD::ShutDown(3))));
}

#[test]
fn malformed_frame_changes_nothing() {
    let mut c = active_conn();
    let acts = c.step(ConnEvent::Malformed);
    assert!(acts.is_empty());
    assert_eq!(c.phase(), Phase::Active);
    let acts = c.step(ConnEvent::Envelope(msg("after")));
    assert!(matches!(&acts[0], ConnAction::Call(HandlerJob::Request(m, _)) if m.body == "after"));
}

#[test]
fn send_command_writes_envelope() {
    let mut c = active_conn();
    let acts = c.step(ConnEvent::Command(ConnCMD::Send(msg("news"))));
    assert_eq!(c.phase(), Phase::Active);
    assert!(matches!(&acts[0], ConnAction::Write(m) if m.body == "news"));
}

#[test]
fn every_exit_path_calls_disconnect_once() {
    let exits = vec![
        ConnEvent::Command(ConnCMD::Kick),
        ConnEvent::PeerClosed,
        ConnEvent::ReadFailed,
        ConnEvent::WriteFailed,
    ];
    for ev in exits {
        let mut c = active_conn();
        let acts = c.step(ev);
        assert_eq!(c.phase(), Phase::Terminating);
        assert!(is_disconnect_call(&acts));
        assert!(c.step(ConnEvent::PeerClosed).is_empty());
        assert!(c.step(ConnEvent::Command(ConnCMD::Kick)).is_empty());
        let acts = c.step(ConnEvent::Reply(HandlerReply::Disconnected(None)));
        assert!(c.is_closed());
        assert_eq!(acts.len(), 1);
        assert!(matches!(acts[0], ConnAction::Release));
        assert!(c.step(ConnEvent::ReadFailed).is_empty());
    }
}

#[test]
fn disconnect_reply_forwards_before_release() {
    let mut c = active_conn();
    c.step(ConnEvent::PeerClosed);
    let acts = c.step(ConnEvent::Reply(HandlerReply::Disconnected(Some(ServerCMD::Kick(addr())))));
    assert_eq!(acts.len(), 2);
    assert!(matches!(&acts[0], ConnAction::Forward(ServerCMD::Kick(a)) if *a == addr()));
    assert!(matches!(acts[1], ConnAction::Release));
}

#[test]
fn events_out_of_phase_are_ignored() {
    let (mut c, _) = Conn::new(addr());
    assert!(c.step(ConnEvent::Envelope(msg("early"))).is_empty());
    assert_eq!(c.phase(), Phase::Connecting);
    c.step(ConnEvent::Reply(HandlerReply::Connected(None)));
    assert!(c.step(ConnEvent::Reply(HandlerReply::Disconnected(None))).is_empty());
    assert_eq!(c.phase(), Phase::Active);
}

#[test]
fn requests_follow_envelopes_in_order() {
    let mut c = active_conn();
    let mut handled = Vec::new();
    let incoming = vec![Some("a"), None, Some("b"), None, None, Some("c")];
    for item in incoming {
        let ev = match item {
            Some(b) => ConnEvent::Envelope(msg(b)),
            None => ConnEvent::Malformed,
        };
        for act in c.step(ev) {
            if let ConnAction::Call(HandlerJob::Request(m, _)) = act {
                handled.push(m.body.clone());
                c.step(ConnEvent::Reply(HandlerReply::Responded(msg("ok"), None)));
            }
        }
    }
    assert_eq!(handled, vec!["a".to_string(), "b".to_string(), "c".to_string()]);
}
