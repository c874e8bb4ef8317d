use uevent::{ActionType, Error, UEvent};

fn env_str<'a>(ev: &'a UEvent, key: &str) -> Option<&'a str> {
    ev.env.get(key).map(|v| v.as_str())
}

fn check_tty_event(data: &[u8], action: ActionType, token: &str, seq: u64, seq_text: &str) {
    let ev = UEvent::from_netlink_packet(data).unwrap();
    assert_eq!(ev.action, action);
    assert_eq!(ev.devpath, "/devices/platform/serial8250/tty/ttyS6");
    assert_eq!(ev.subsystem, "tty");
    assert_eq!(ev.seq, seq);
    assert_eq!(env_str(&ev, "ACTION"), Some(token));
    assert_eq!(
        env_str(&ev, "DEVPATH"),
        Some("/devices/platform/serial8250/tty/ttyS6")
    );
    assert_eq!(env_str(&ev, "SUBSYSTEM"), Some("tty"));
    assert_eq!(env_str(&ev, "SYNTH_UUID"), Some("0"));
    assert_eq!(env_str(&ev, "MAJOR"), Some("4"));
    assert_eq!(env_str(&ev, "MINOR"), Some("70"));
    assert_eq!(env_str(&ev, "DEVNAME"), Some("ttyS6"));
    assert_eq!(env_str(&ev, "SEQNUM"), Some(seq_text));
    assert_eq!(ev.env.len(), 8);
}

#[test]
fn add_uevent() {
    const DATA: &[u8] = b"add@/devices/platform/serial8250/tty/ttyS6\0\
                          ACTION=add\0\
                          DEVPATH=/devices/platform/serial8250/tty/ttyS6\0\
                          SUBSYSTEM=tty\0\
                          SYNTH_UUID=0\0\
                          MAJOR=4\0\
                          MINOR=70\0\
                          DEVNAME=ttyS6\0\
                          SEQNUM=3469";
    check_tty_event(DATA, ActionType::Add, "add", 3469, "3469");
}

#[test]
fn remove_uevent() {
    const DATA: &[u8] = b"remove@/devices/platform/serial8250/tty/ttyS6\0\
                          ACTION=remove\0\
                          DEVPATH=/devices/platform/serial8250/tty/ttyS6\0\
                          SUBSYSTEM=tty\0\
                          SYNTH_UUID=0\0\
                          MAJOR=4\0\
                          MINOR=70\0\
                          DEVNAME=ttyS6\0\
                          SEQNUM=3471";
    check_tty_event(DATA, ActionType::Remove, "remove", 3471, "3471");
}

#[test]
fn change_uevent() {
    const DATA: &[u8] = b"change@/devices/platform/serial8250/tty/ttyS6\0\
                          ACTION=change\0\
                          DEVPATH=/devices/platform/serial8250/tty/ttyS6\0\
                          SUBSYSTEM=tty\0\
                          SYNTH_UUID=0\0\
                          MAJOR=4\0\
                          MINOR=70\0\
                          DEVNAME=ttyS6\0\
                          SEQNUM=3472";
    check_tty_event(DATA, ActionType::Change, "change", 3472, "3472");
}

#[test]
fn move_uevent() {
    const DATA: &[u8] = b"move@/devices/platform/serial8250/tty/ttyS6\0\
                          ACTION=move\0\
                          DEVPATH=/devices/platform/serial8250/tty/ttyS6\0\
                          SUBSYSTEM=tty\0\
                          SYNTH_UUID=0\0\
                          MAJOR=4\0\
                          MINOR=70\0\
                          DEVNAME=ttyS6\0\
                          SEQNUM=3473";
    check_tty_event(DATA, ActionType::Move, "move", 3473, "3473");
}

#[test]
fn online_uevent() {
    const DATA: &[u8] = b"online@/devices/platform/serial8250/tty/ttyS6\0\
                          ACTION=online\0\
                          DEVPATH=/devices/platform/serial8250/tty/ttyS6\0\
                          SUBSYSTEM=tty\0\
                          SYNTH_UUID=0\0\
                          MAJOR=4\0\
                          MINOR=70\0\
                          DEVNAME=ttyS6\0\
                          SEQNUM=3474";
    check_tty_event(DATA, ActionType::Online, "online", 3474, "3474");
}

#[test]
fn offline_uevent() {
    const DATA: &[u8] = b"offline@/devices/platform/serial8250/tty/ttyS6\0\
                          ACTION=offline\0\
                          DEVPATH=/devices/platform/serial8250/tty/ttyS6\0\
                          SUBSYSTEM=tty\0\
                          SYNTH_UUID=0\0\
                          MAJOR=4\0\
                          MINOR=70\0\
                          DEVNAME=ttyS6\0\
                          SEQNUM=3475";
    check_tty_event(DATA, ActionType::Offline, "offline", 3475, "3475");
}

#[test]
fn bind_uevent() {
    const DATA: &[u8] = b"bind@/devices/platform/serial8250/tty/ttyS6\0\
                          ACTION=bind\0\
                          DEVPATH=/devices/platform/serial8250/tty/ttyS6\0\
                          SUBSYSTEM=tty\0\
                          SYNTH_UUID=0\0\
                          MAJOR=4\0\
                          MINOR=70\0\
                          DEVNAME=ttyS6\0\
                          SEQNUM=3476";
    check_tty_event(DATA, ActionType::Bind, "bind", 3476, "3476");
}

#[test]
fn unbind_uevent() {
    const DATA: &[u8] = b"unbind@/devices/platform/serial8250/tty/ttyS6\0\
                          ACTION=unbind\0\
                          DEVPATH=/devices/platform/serial8250/tty/ttyS6\0\
                          SUBSYSTEM=tty\0\
                          SYNTH_UUID=0\0\
                          MAJOR=4\0\
                          MINOR=70\0\
                          DEVNAME=ttyS6\0\
                          SEQNUM=3477";
    check_tty_event(DATA, ActionType::Unbind, "unbind", 3477, "3477");
}

#[test]
fn invalid_event() {
    const DATA: &[u8] = b"hello@/devices/platform/serial8250/tty/ttyS6\0\
                          ACTION=hello\0\
                          DEVPATH=/devices/platform/serial8250/tty/ttyS6\0\
                          SUBSYSTEM=tty\0\
                          SEQNUM=3477";
    assert!(UEvent::from_netlink_packet(DATA).is_err());
}

#[test]
fn missing_action() {
    const DATA: &[u8] = b"add@/devices/platform/serial8250/tty/ttyS6\0\
                          DEVPATH=/devices/platform/serial8250/tty/ttyS6\0\
                          SUBSYSTEM=tty\0\
                          SEQNUM=3477";
    assert!(UEvent::from_netlink_packet(DATA).is_err());
}

#[test]
fn missing_devpath() {
    const DATA: &[u8] = b"add@/devices/platform/serial8250/tty/ttyS6\0\
                          ACTION=unbind\0\
                          SUBSYSTEM=tty\0\
                          SEQNUM=3477";
    assert!(UEvent::from_netlink_packet(DATA).is_err());
}

#[test]
fn missing_subsystem() {
    const DATA: &[u8] = b"add@/devices/platform/serial8250/tty/ttyS6\0\
                          ACTION=unbind\0\
                          DEVPATH=/devices/platform/serial8250/tty/ttyS6\0\
                          SEQNUM=3477";
    assert!(UEvent::from_netlink_packet(DATA).is_err());
}

#[test]
fn missing_seqnum() {
    const DATA: &[u8] = b"add@/devices/platform/serial8250/tty/ttyS6\0\
                          ACTION=unbind\0\
                          DEVPATH=/devices/platform/serial8250/tty/ttyS6\0\
                          SUBSYSTEM=tty";
    assert!(UEvent::from_netlink_packet(DATA).is_err());
}

#[test]
fn small_packet_full_record() {
    let ev =
        UEvent::from_netlink_packet(b"add@/d/x\0ACTION=add\0DEVPATH=/d/x\0SUBSYSTEM=tty\0SEQNUM=7")
            .unwrap();
    assert_eq!(ev.action, ActionType::Add);
    assert_eq!(ev.devpath, "/d/x");
    assert_eq!(ev.subsystem, "tty");
    assert_eq!(ev.seq, 7);
    assert_eq!(env_str(&ev, "ACTION"), Some("add"));
    assert_eq!(env_str(&ev, "DEVPATH"), Some("/d/x"));
    assert_eq!(env_str(&ev, "SUBSYSTEM"), Some("tty"));
    assert_eq!(env_str(&ev, "SEQNUM"), Some("7"));
    assert_eq!(ev.env.len(), 4);
}

#[test]
fn not_utf8_packet() {
    let r = UEvent::from_netlink_packet(b"\xff\xfeACTION=add\0DEVPATH=/d\0SUBSYSTEM=x\0SEQNUM=1");
    assert!(matches!(r, Err(Error::NotUtf8)));
}

#[test]
fn unexpected_action_token_kept() {
    let r = UEvent::from_netlink_packet(b"ACTION=hello\0DEVPATH=/d\0SUBSYSTEM=x\0SEQNUM=1");
    match r {
        Err(Error::UnexpectedAction(t)) => assert_eq!(t, "hello"),
        _ => panic!("expected an unexpected-action error"),
    }
}

#[test]
fn action_is_case_sensitive() {
    let r = UEvent::from_netlink_packet(b"ACTION=Add\0DEVPATH=/d\0SUBSYSTEM=x\0SEQNUM=1");
    assert!(matches!(r, Err(Error::UnexpectedAction(_))));
}

#[test]
fn missing_field_errors_are_distinct() {
    assert!(matches!(
        UEvent::from_netlink_packet(b"DEVPATH=/d\0SUBSYSTEM=x\0SEQNUM=1"),
        Err(Error::ActionNotFound)
    ));
    assert!(matches!(
        UEvent::from_netlink_packet(b"ACTION=add\0SUBSYSTEM=x\0SEQNUM=1"),
        Err(Error::DevPathNotFound)
    ));
    assert!(matches!(
        UEvent::from_netlink_packet(b"ACTION=add\0DEVPATH=/d\0SEQNUM=1"),
        Err(Error::SubsystemNotFound)
    ));
    assert!(matches!(
        UEvent::from_netlink_packet(b"ACTION=add\0DEVPATH=/d\0SUBSYSTEM=x"),
        Err(Error::SeqMissing)
    ));
}

#[test]
fn invalid_seqnum_value_kept() {
    let r = UEvent::from_netlink_packet(b"ACTION=add\0DEVPATH=/d\0SUBSYSTEM=x\0SEQNUM=12ab");
    match r {
        Err(Error::InvalidSeqNum(t)) => assert_eq!(t, "12ab"),
        _ => panic!("expected an invalid-seqnum error"),
    }
}

#[test]
fn seqnum_overflow_rejected() {
    let r = UEvent::from_netlink_packet(
        b"ACTION=add\0DEVPATH=/d\0SUBSYSTEM=x\0SEQNUM=18446744073709551616",
    );
    assert!(matches!(r, Err(Error::InvalidSeqNum(_))));
}

#[test]
fn seqnum_largest_value() {
    let ev = UEvent::from_netlink_packet(
        b"ACTION=add\0DEVPATH=/d\0SUBSYSTEM=x\0SEQNUM=18446744073709551615",
    )
    .unwrap();
    assert_eq!(ev.seq, u64::MAX);
}

#[test]
fn seqnum_leading_plus_accepted() {
    let ev = UEvent::from_netlink_packet(b"ACTION=add\0DEVPATH=/d\0SUBSYSTEM=x\0SEQNUM=+7")
        .unwrap();
    assert_eq!(ev.seq, 7);
}

#[test]
fn duplicate_key_last_wins() {
    let ev = UEvent::from_netlink_packet(
        b"ACTION=add\0DEVPATH=/d\0SUBSYSTEM=x\0SEQNUM=1\0ACTION=remove\0SEQNUM=2",
    )
    .unwrap();
    assert_eq!(ev.action, ActionType::Remove);
    assert_eq!(ev.seq, 2);
    assert_eq!(env_str(&ev, "ACTION"), Some("remove"));
    assert_eq!(env_str(&ev, "SEQNUM"), Some("2"));
    assert_eq!(ev.env.len(), 4);
}

#[test]
fn value_may_contain_equals() {
    let ev = UEvent::from_netlink_packet(b"ACTION=add\0DEVPATH=/d\0SUBSYSTEM=x\0SEQNUM=1\0A=b=c")
        .unwrap();
    assert_eq!(env_str(&ev, "A"), Some("b=c"));
}

#[test]
fn empty_subsystem_value_allowed() {
    let ev = UEvent::from_netlink_packet(b"ACTION=add\0DEVPATH=/d\0SUBSYSTEM=\0SEQNUM=1").unwrap();
    assert_eq!(ev.subsystem, "");
    assert_eq!(env_str(&ev, "SUBSYSTEM"), Some(""));
}

#[test]
fn header_without_equals_ignored() {
    let ev = UEvent::from_netlink_packet(
        b"bind@/devices/x\0ACTION=add\0DEVPATH=/d\0SUBSYSTEM=x\0SEQNUM=1",
    )
    .unwrap();
    assert_eq!(ev.action, ActionType::Add);
    assert_eq!(ev.env.len(), 4);
}
