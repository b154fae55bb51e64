use std::sync::Arc;
use syner::server::{client_source, parse_command, ClientInfoSource, Command, InvalidHeader};
use syner::shared::{BoxPtr, Ptr, SendT};

#[test]
fn console_commands() {
    for s in ["?", "h", "help"] {
        assert_eq!(parse_command(s), Command::Help);
    }
    for s in ["q", "quit", "exit", "stop"] {
        assert_eq!(parse_command(s), Command::Quit);
    }
    assert_eq!(parse_command("r"), Command::Reload);
    assert_eq!(parse_command("reload"), Command::Reload);
    assert_eq!(parse_command("reload "), Command::Unknown);
    assert_eq!(parse_command(""), Command::Unknown);
}

#[test]
fn client_source_priority() {
    assert_eq!(client_source(true, true, true), Some(ClientInfoSource::XForwardedFor));
    assert_eq!(client_source(false, true, true), Some(ClientInfoSource::XRealIp));
    assert_eq!(client_source(false, false, true), Some(ClientInfoSource::RemoteAddr));
    assert_eq!(client_source(false, false, false), None);
}

#[test]
fn invalid_header_message() {
    let e = InvalidHeader { name: "range" };
    assert_eq!(e.message(), "Invalid request header \"range\"");
}

#[test]
fn shared_handles_see_the_value() {
    let owner = BoxPtr::new(vec![1, 2, 3]);
    let p = owner.ptr();
    let q = p.share();
    assert_eq!(p.as_ref(), &vec![1, 2, 3]);
    assert_eq!(q.as_ref(), owner.as_ref());
    let direct = Ptr::new(Arc::new(7u8));
    assert_eq!(*direct.as_ref(), 7);
    let s = SendT(5u32);
    assert_eq!(s.0, 5);
}
