use uevent::{ActionType, Error, UEvent};

#[test]
fn snapshot_synthesizes_add_with_seq_zero() {
    let ev = UEvent::from_sysfs_snapshot(
        "ACTION=remove\nSEQNUM=99\nMAJOR=4\nMINOR=70\n",
        "../../class/tty",
        "/sys/devices/x",
        "/sys",
    )
    .unwrap();
    assert_eq!(ev.action, ActionType::Add);
    assert_eq!(ev.seq, 0);
    assert_eq!(ev.devpath, "/devices/x");
    assert_eq!(ev.subsystem, "tty");
    assert_eq!(ev.env.get("ACTION").map(|v| v.as_str()), Some("remove"));
    assert_eq!(ev.env.get("SEQNUM").map(|v| v.as_str()), Some("99"));
    assert_eq!(ev.env.get("MAJOR").map(|v| v.as_str()), Some("4"));
    assert_eq!(ev.env.get("MINOR").map(|v| v.as_str()), Some("70"));
    assert_eq!(ev.env.len(), 4);
}

#[test]
fn snapshot_without_action_or_seqnum() {
    let ev = UEvent::from_sysfs_snapshot(
        "DEVTYPE=disk\n",
        "/sys/class/block",
        "/sys/devices/virtual/block/loop0",
        "/sys",
    )
    .unwrap();
    assert_eq!(ev.action, ActionType::Add);
    assert_eq!(ev.seq, 0);
    assert_eq!(ev.devpath, "/devices/virtual/block/loop0");
    assert_eq!(ev.subsystem, "block");
    assert_eq!(ev.env.get("DEVTYPE").map(|v| v.as_str()), Some("disk"));
    assert_eq!(ev.env.len(), 1);
}

#[test]
fn snapshot_outside_mountpoint() {
    let r = UEvent::from_sysfs_snapshot("A=1\n", "../class/tty", "/proc/devices/x", "/sys");
    assert!(matches!(r, Err(Error::NotInsideMountpoint)));
}

#[test]
fn snapshot_component_prefix_not_text_prefix() {
    let r = UEvent::from_sysfs_snapshot("A=1\n", "../class/tty", "/sysfs/devices/x", "/sys");
    assert!(matches!(r, Err(Error::NotInsideMountpoint)));
}

#[test]
fn snapshot_relative_mountpoint_rejected() {
    let r = UEvent::from_sysfs_snapshot("A=1\n", "../class/tty", "/sys/devices/x", "sys");
    assert!(matches!(r, Err(Error::NotInsideMountpoint)));
}

#[test]
fn snapshot_mountpoint_trailing_slash() {
    let ev = UEvent::from_sysfs_snapshot("A=1\n", "tty", "/sys/devices/x", "/sys/").unwrap();
    assert_eq!(ev.devpath, "/devices/x");
}

#[test]
fn snapshot_directory_equal_to_mountpoint() {
    let ev = UEvent::from_sysfs_snapshot("A=1\n", "tty", "/sys", "/sys").unwrap();
    assert_eq!(ev.devpath, "/");
}

#[test]
fn snapshot_empty_mountpoint_keeps_path() {
    let ev = UEvent::from_sysfs_snapshot("A=1\n", "tty", "/sys/devices/x", "").unwrap();
    assert_eq!(ev.devpath, "/sys/devices/x");
}

#[test]
fn snapshot_root_mountpoint() {
    let ev = UEvent::from_sysfs_snapshot("A=1\n", "tty", "/sys/devices/x", "/").unwrap();
    assert_eq!(ev.devpath, "/sys/devices/x");
}

#[test]
fn snapshot_subsystem_from_bare_name() {
    let ev = UEvent::from_sysfs_snapshot("A=1\n", "tty", "/sys/devices/x", "/sys").unwrap();
    assert_eq!(ev.subsystem, "tty");
}

#[test]
fn snapshot_subsystem_link_trailing_slash() {
    let ev =
        UEvent::from_sysfs_snapshot("A=1\n", "/sys/class/tty/", "/sys/devices/x", "/sys").unwrap();
    assert_eq!(ev.subsystem, "tty");
}

#[test]
fn snapshot_subsystem_link_without_name() {
    let r = UEvent::from_sysfs_snapshot("A=1\n", "..", "/sys/devices/x", "/sys");
    assert!(matches!(r, Err(Error::SubsystemNotFound)));
}

#[test]
fn snapshot_bad_action_in_file_still_fails() {
    let r = UEvent::from_sysfs_snapshot("ACTION=hello\n", "tty", "/sys/devices/x", "/sys");
    match r {
        Err(Error::UnexpectedAction(t)) => assert_eq!(t, "hello"),
        _ => panic!("expected an unexpected-action error"),
    }
}

#[test]
fn snapshot_bad_seqnum_in_file_still_fails() {
    let r = UEvent::from_sysfs_snapshot("SEQNUM=zz\n", "tty", "/sys/devices/x", "/sys");
    assert!(matches!(r, Err(Error::InvalidSeqNum(_))));
}

#[test]
fn snapshot_crlf_lines() {
    let ev = UEvent::from_sysfs_snapshot("A=1\r\nB=2\r\n", "tty", "/sys/devices/x", "/sys")
        .unwrap();
    assert_eq!(ev.env.get("A").map(|v| v.as_str()), Some("1"));
    assert_eq!(ev.env.get("B").map(|v| v.as_str()), Some("2"));
    assert_eq!(ev.env.len(), 2);
}

#[test]
fn snapshot_empty_uevent_file() {
    let ev = UEvent::from_sysfs_snapshot("", "tty", "/sys/devices/x", "/sys").unwrap();
    assert_eq!(ev.env.len(), 0);
    assert_eq!(ev.action, ActionType::Add);
    assert_eq!(ev.seq, 0);
}
