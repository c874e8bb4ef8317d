//! The validated uevent record and its two decoders.

use vstd::prelude::*;
use vstd::utf8::decode_utf8;
use vstd::utf8::valid_utf8;

use crate::action::ActionType;
use crate::env::EnvMap;
use crate::error::Error;
use crate::error::ErrorView;
use crate::path::file_name_of;
use crate::path::file_name_str;
use crate::path::strip_prefix;
use crate::path::strip_prefix_str;
use crate::record::parse_uevent_iter;
use crate::record::scan_lines;
use crate::record::MaybeUEvent;
use crate::text::lines_of;
use crate::text::split_by;
use crate::text::split_lines;
use crate::text::split_str;

verus! {

/// Linux kernel userspace event
///
/// A record is only ever constructed fully populated: there is no
/// partially-valid public event.
#[derive(Debug, Clone, PartialEq, Eq)]
pub struct UEvent {
    /// Action happening
    pub action: ActionType,
    /// Complete Kernel Object path
    pub devpath: String,
    /// SubSystem originating the event
    pub subsystem: String,
    /// Arguments
    pub env: EnvMap,
    /// Sequence number
    pub seq: u64,
}

/// The mathematical shape of a validated record.
pub struct EventView {
    pub action: ActionType,
    pub devpath: Seq<char>,
    pub subsystem: Seq<char>,
    pub env: Map<Seq<char>, Seq<char>>,
    pub seq: u64,
}

impl View for UEvent {
    type V = EventView;

    open spec fn view(&self) -> EventView {
        EventView {
            action: self.action,
            devpath: self.devpath@,
            subsystem: self.subsystem@,
            env: self.env@,
            seq: self.seq,
        }
    }
}

/// The record the text of a netlink packet decodes to, or its specific
/// error: the text is split on NUL into lines, the lines are scanned,
/// and each of the four recognized fields must have been seen, each
/// absence being its own error.
pub open spec fn netlink_event(chars: Seq<char>) -> Result<EventView, ErrorView> {
    match scan_lines(split_by(chars, '\0')) {
        Err(e) => Err(e),
        Ok(p) => {
            if p.action is None {
                Err(ErrorView::ActionNotFound)
            } else if p.devpath is None {
                Err(ErrorView::DevPathNotFound)
            } else if p.subsystem is None {
                Err(ErrorView::SubsystemNotFound)
            } else if p.seq is None {
                Err(ErrorView::SeqMissing)
            } else {
                Ok(
                    EventView {
                        action: p.action->0,
                        devpath: p.devpath->0,
                        subsystem: p.subsystem->0,
                        env: p.env,
                        seq: p.seq->0,
                    },
                )
            }
        },
    }
}

/// The record a sysfs snapshot decodes to, or its specific error.
///
/// The lines of the `uevent` file are scanned only for their generic
/// environment; the recognized slots of that scan are discarded, so
/// `ACTION` and `SEQNUM` need not be present (though a malformed value
/// still fails the scan).  The action is forced to `Add` and the
/// sequence number to `0`: a static snapshot is read as if the device
/// had just been observed appearing, and no kernel sequence number is
/// recoverable from it.  The devpath is the canonical directory
/// re-rooted under `/` once its mountpoint prefix is stripped, and the
/// subsystem is the final name of the `subsystem` link's target.
pub open spec fn sysfs_event(
    uevent_text: Seq<char>,
    subsystem_link: Seq<char>,
    canonical_dir: Seq<char>,
    mountpoint: Seq<char>,
) -> Result<EventView, ErrorView> {
    match scan_lines(lines_of(uevent_text)) {
        Err(e) => Err(e),
        Ok(p) => match strip_prefix(canonical_dir, mountpoint) {
            None => Err(ErrorView::NotInsideMountpoint),
            Some(dev) => match file_name_of(subsystem_link) {
                None => Err(ErrorView::SubsystemNotFound),
                Some(name) => Ok(
                    EventView {
                        action: ActionType::Add,
                        devpath: dev,
                        subsystem: name,
                        env: p.env,
                        seq: 0,
                    },
                ),
            },
        },
    }
}

/// Relies on std::str::from_utf8: it returns the string reading of the
/// bytes exactly when they are valid UTF-8.
#[verifier::external_body]
fn utf8_str(bytes: &[u8]) -> (r: Option<&str>)
    ensures
        r is Some <==> valid_utf8(bytes@),
        r matches Some(s) ==> s@ == decode_utf8(bytes@),
{
    std::str::from_utf8(bytes).ok()
}

impl UEvent {
    /// Decode a netlink packet as received from the NETLINK_KOBJECT_UEVENT
    /// broadcast.
    ///
    /// The packet must be valid UTF-8 text; its decoded text is then held
    /// to [`netlink_event`].  Either a fully valid record comes back or
    /// one specific error; there is no partial result.
    pub fn from_netlink_packet(pkt: &[u8]) -> (r: Result<UEvent, Error>)
        ensures
            match r {
                Ok(ev) => {
                    &&& valid_utf8(pkt@)
                    &&& ev.env.wf()
                    &&& netlink_event(decode_utf8(pkt@)) == Ok::<EventView, ErrorView>(ev@)
                },
                Err(e) => {
                    if valid_utf8(pkt@) {
                        netlink_event(decode_utf8(pkt@)) == Err::<EventView, ErrorView>(e@)
                    } else {
                        e@ == ErrorView::NotUtf8
                    }
                },
            },
    {
        let text = match utf8_str(pkt) {
            Some(t) => t,
            None => {
                return Err(Error::NotUtf8);
            },
        };
        let lines = split_str(text, '\0');
        let partial: MaybeUEvent = match parse_uevent_iter(&lines) {
            Ok(p) => p,
            Err(e) => {
                return Err(e);
            },
        };
        let action = match partial.action {
            Some(a) => a,
            None => {
                return Err(Error::ActionNotFound);
            },
        };
        let devpath = match partial.devpath {
            Some(d) => d,
            None => {
                return Err(Error::DevPathNotFound);
            },
        };
        let subsystem = match partial.subsystem {
            Some(s) => s,
            None => {
                return Err(Error::SubsystemNotFound);
            },
        };
        let seq = match partial.seq {
            Some(n) => n,
            None => {
                return Err(Error::SeqMissing);
            },
        };
        Ok(UEvent { action, devpath, subsystem, env: partial.env, seq })
    }

    /// Decode a sysfs snapshot of one device directory as an `Add` event.
    ///
    /// The caller hands over what it read: the text of the directory's
    /// `uevent` file, the target of its `subsystem` symbolic link, the
    /// canonicalized directory itself, and the mountpoint it must lie
    /// under.  The result is held to [`sysfs_event`].
    pub fn from_sysfs_snapshot(
        uevent_text: &str,
        subsystem_link: &str,
        canonical_dir: &str,
        mountpoint: &str,
    ) -> (r: Result<UEvent, Error>)
        ensures
            match r {
                Ok(ev) => {
                    &&& ev.env.wf()
                    &&& sysfs_event(uevent_text@, subsystem_link@, canonical_dir@, mountpoint@)
                        == Ok::<EventView, ErrorView>(ev@)
                },
                Err(e) => sysfs_event(uevent_text@, subsystem_link@, canonical_dir@, mountpoint@)
                    == Err::<EventView, ErrorView>(e@),
            },
    {
        let lines = split_lines(uevent_text);
        let partial: MaybeUEvent = match parse_uevent_iter(&lines) {
            Ok(p) => p,
            Err(e) => {
                return Err(e);
            },
        };
        let devpath = match strip_prefix_str(canonical_dir, mountpoint) {
            Some(d) => d,
            None => {
                return Err(Error::NotInsideMountpoint);
            },
        };
        let subsystem = match file_name_str(subsystem_link) {
            Some(name) => name,
            None => {
                return Err(Error::SubsystemNotFound);
            },
        };
        Ok(UEvent { action: ActionType::Add, devpath, subsystem, env: partial.env, seq: 0 })
    }
}

} // verus!
