//! The decoding laws: what a successfully decoded record is guaranteed
//! to hold, stated and proved once for every input.

use vstd::prelude::*;

use crate::action::action_of;
use crate::action::ActionType;
use crate::error::ErrorView;
use crate::event::netlink_event;
use crate::event::sysfs_event;
use crate::event::EventView;
use crate::path::file_name_of;
use crate::path::strip_prefix;
use crate::record::empty_partial;
use crate::record::scan_line;
use crate::record::scan_lines;
use crate::record::scan_lines_from;
use crate::record::PartialView;
use crate::text::key_value_of;
use crate::text::lines_of;
use crate::text::parse_u64;
use crate::text::split_by;

verus! {

/// The key of a `KEY=VALUE` line, when the line has one.
pub open spec fn line_key(line: Seq<char>) -> Option<Seq<char>> {
    match key_value_of(line) {
        Some(kv) => Some(kv.0),
        None => None,
    }
}

/// The value of the last line carrying key `k`, in scan order.
pub open spec fn last_value_of(lines: Seq<Seq<char>>, k: Seq<char>) -> Option<Seq<char>>
    decreases lines.len(),
{
    if lines.len() == 0 {
        None
    } else if line_key(lines.last()) == Some(k) {
        Some((key_value_of(lines.last())->0).1)
    } else {
        last_value_of(lines.drop_last(), k)
    }
}

/// `last_value_of` read off the front instead of the back: the first line
/// only matters when no later line carries the key.
proof fn lemma_last_value_uncons(s: Seq<Seq<char>>, k: Seq<char>)
    requires
        s.len() > 0,
    ensures
        last_value_of(s, k) == (if last_value_of(s.drop_first(), k) is Some {
            last_value_of(s.drop_first(), k)
        } else if line_key(s.first()) == Some(k) {
            Some((key_value_of(s.first())->0).1)
        } else {
            None
        }),
    decreases s.len(),
{
    if s.len() == 1 {
        assert(s.drop_first() =~= Seq::<Seq<char>>::empty());
        assert(s.last() == s.first());
    } else {
        if line_key(s.last()) == Some(k) {
            assert(s.drop_first().last() == s.last());
        } else {
            lemma_last_value_uncons(s.drop_last(), k);
            assert(s.drop_last().first() == s.first());
            assert(s.drop_last().drop_first() =~= s.drop_first().drop_last());
            assert(s.drop_first().last() == s.last());
        }
    }
}

/// The environment a successful scan builds, described per key.
proof fn lemma_scan_env_key(lines: Seq<Seq<char>>, i: int, p: PartialView, k: Seq<char>)
    requires
        0 <= i <= lines.len(),
    ensures
        scan_lines_from(lines, i, p) matches Ok(q) ==> {
            let tail = lines.skip(i);
            &&& (q.env.contains_key(k) <==> (p.env.contains_key(k) || last_value_of(tail, k)
                is Some))
            &&& (q.env.contains_key(k) ==> q.env[k] == (match last_value_of(tail, k) {
                Some(v) => v,
                None => p.env[k],
            }))
        },
    decreases lines.len() - i,
{
    if i == lines.len() {
        assert(lines.skip(i) =~= Seq::<Seq<char>>::empty());
    } else {
        let tail = lines.skip(i);
        let tail1 = lines.skip(i + 1);
        assert(tail.first() == lines[i]);
        assert(tail.drop_first() =~= tail1);
        match scan_line(p, lines[i]) {
            Ok(m) => {
                lemma_scan_env_key(lines, i + 1, m, k);
                lemma_last_value_uncons(tail, k);
            },
            Err(e) => {},
        }
    }
}

/// The recognized slots a successful scan fills, each tied to the last
/// line carrying its key.
proof fn lemma_scan_slots(lines: Seq<Seq<char>>, i: int, p: PartialView)
    requires
        0 <= i <= lines.len(),
    ensures
        scan_lines_from(lines, i, p) matches Ok(q) ==> {
            let tail = lines.skip(i);
            &&& q.action == (match last_value_of(tail, "ACTION"@) {
                Some(v) => action_of(v),
                None => p.action,
            })
            &&& (last_value_of(tail, "ACTION"@) matches Some(v) ==> action_of(v) is Some)
            &&& q.devpath == (match last_value_of(tail, "DEVPATH"@) {
                Some(v) => Some(v),
                None => p.devpath,
            })
            &&& q.subsystem == (match last_value_of(tail, "SUBSYSTEM"@) {
                Some(v) => Some(v),
                None => p.subsystem,
            })
            &&& q.seq == (match last_value_of(tail, "SEQNUM"@) {
                Some(v) => parse_u64(v),
                None => p.seq,
            })
            &&& (last_value_of(tail, "SEQNUM"@) matches Some(v) ==> parse_u64(v) is Some)
        },
    decreases lines.len() - i,
{
    reveal_strlit("ACTION");
    reveal_strlit("DEVPATH");
    reveal_strlit("SUBSYSTEM");
    reveal_strlit("SEQNUM");
    assert("ACTION"@.len() == 6 && "DEVPATH"@.len() == 7 && "SUBSYSTEM"@.len() == 9
        && "SEQNUM"@.len() == 6);
    assert("ACTION"@[0] == 'A' && "SEQNUM"@[0] == 'S');
    if i == lines.len() {
        assert(lines.skip(i) =~= Seq::<Seq<char>>::empty());
    } else {
        let tail = lines.skip(i);
        let tail1 = lines.skip(i + 1);
        assert(tail.first() == lines[i]);
        assert(tail.drop_first() =~= tail1);
        match scan_line(p, lines[i]) {
            Ok(m) => {
                lemma_scan_slots(lines, i + 1, m);
                lemma_last_value_uncons(tail, "ACTION"@);
                lemma_last_value_uncons(tail, "DEVPATH"@);
                lemma_last_value_uncons(tail, "SUBSYSTEM"@);
                lemma_last_value_uncons(tail, "SEQNUM"@);
            },
            Err(e) => {},
        }
    }
}

/// Law: exactly the eight lowercase lifecycle tokens name an action, each
/// its own variant; every other token names none.
pub proof fn lemma_action_vocabulary(t: Seq<char>)
    ensures
        action_of(t) == Some(ActionType::Add) <==> t == "add"@,
        action_of(t) == Some(ActionType::Remove) <==> t == "remove"@,
        action_of(t) == Some(ActionType::Change) <==> t == "change"@,
        action_of(t) == Some(ActionType::Move) <==> t == "move"@,
        action_of(t) == Some(ActionType::Online) <==> t == "online"@,
        action_of(t) == Some(ActionType::Offline) <==> t == "offline"@,
        action_of(t) == Some(ActionType::Bind) <==> t == "bind"@,
        action_of(t) == Some(ActionType::Unbind) <==> t == "unbind"@,
        action_of(t) is None <==> (t != "add"@ && t != "remove"@ && t != "change"@ && t != "move"@
            && t != "online"@ && t != "offline"@ && t != "bind"@ && t != "unbind"@),
{
    reveal_strlit("add");
    reveal_strlit("remove");
    reveal_strlit("change");
    reveal_strlit("move");
    reveal_strlit("online");
    reveal_strlit("offline");
    reveal_strlit("bind");
    reveal_strlit("unbind");
    assert("add"@.len() == 3 && "remove"@.len() == 6 && "change"@.len() == 6 && "move"@.len() == 4
        && "online"@.len() == 6 && "offline"@.len() == 7 && "bind"@.len() == 4
        && "unbind"@.len() == 6);
    assert("remove"@[0] == 'r' && "change"@[0] == 'c' && "online"@[0] == 'o' && "unbind"@[0] == 'u'
        && "move"@[0] == 'm' && "bind"@[0] == 'b');
}

/// Law: round-trip of the environment.  A decoded netlink record's
/// environment holds a key exactly when some `KEY=VALUE` segment of the
/// packet carries it, and then maps it to the value of the last such
/// segment, preserved verbatim.
pub proof fn lemma_netlink_env_roundtrip(chars: Seq<char>, k: Seq<char>)
    ensures
        netlink_event(chars) matches Ok(ev) ==> {
            let lines = split_by(chars, '\0');
            &&& (ev.env.contains_key(k) <==> last_value_of(lines, k) is Some)
            &&& (last_value_of(lines, k) matches Some(v) ==> ev.env[k] == v)
        },
{
    let lines = split_by(chars, '\0');
    lemma_scan_env_key(lines, 0, empty_partial(), k);
    assert(lines.skip(0) =~= lines);
}

/// Law: a decoded netlink record's recognized fields are exactly what
/// the packet's last `ACTION`, `DEVPATH`, `SUBSYSTEM` and `SEQNUM`
/// segments say: the action classified from its token, the devpath and
/// subsystem verbatim, and the sequence number read as decimal.
pub proof fn lemma_netlink_fields(chars: Seq<char>)
    ensures
        netlink_event(chars) matches Ok(ev) ==> {
            let lines = split_by(chars, '\0');
            &&& last_value_of(lines, "ACTION"@) matches Some(t) && action_of(t) == Some(ev.action)
            &&& last_value_of(lines, "DEVPATH"@) == Some(ev.devpath)
            &&& last_value_of(lines, "SUBSYSTEM"@) == Some(ev.subsystem)
            &&& last_value_of(lines, "SEQNUM"@) matches Some(s) && parse_u64(s) == Some(ev.seq)
        },
{
    let lines = split_by(chars, '\0');
    lemma_scan_slots(lines, 0, empty_partial());
    assert(lines.skip(0) =~= lines);
}

/// Law: when the scan itself succeeds, netlink decoding succeeds exactly
/// when all four recognized keys appear in the packet; omitting any one
/// fails with that field's own error, reported in the order action,
/// devpath, subsystem, sequence number.
pub proof fn lemma_netlink_required(chars: Seq<char>)
    ensures
        scan_lines(split_by(chars, '\0')) matches Ok(p) ==> {
            let lines = split_by(chars, '\0');
            let has_action = last_value_of(lines, "ACTION"@) is Some;
            let has_devpath = last_value_of(lines, "DEVPATH"@) is Some;
            let has_subsystem = last_value_of(lines, "SUBSYSTEM"@) is Some;
            let has_seq = last_value_of(lines, "SEQNUM"@) is Some;
            &&& (netlink_event(chars) is Ok <==> has_action && has_devpath && has_subsystem
                && has_seq)
            &&& (!has_action ==> netlink_event(chars) == Err::<EventView, ErrorView>(
                ErrorView::ActionNotFound,
            ))
            &&& (has_action && !has_devpath ==> netlink_event(chars) == Err::<
                EventView,
                ErrorView,
            >(ErrorView::DevPathNotFound))
            &&& (has_action && has_devpath && !has_subsystem ==> netlink_event(chars) == Err::<
                EventView,
                ErrorView,
            >(ErrorView::SubsystemNotFound))
            &&& (has_action && has_devpath && has_subsystem && !has_seq ==> netlink_event(chars)
                == Err::<EventView, ErrorView>(ErrorView::SeqMissing))
        },
{
    let lines = split_by(chars, '\0');
    lemma_scan_slots(lines, 0, empty_partial());
    assert(lines.skip(0) =~= lines);
}

/// Law: a sysfs snapshot only ever decodes to a synthesized `Add` record
/// with sequence number zero, whatever `ACTION` or `SEQNUM` the `uevent`
/// file carried; its devpath is the canonical directory stripped of the
/// mountpoint and re-rooted, its subsystem the link target's final name.
/// A canonical directory outside the mountpoint is its own error.
pub proof fn lemma_sysfs_synthesized(
    uevent_text: Seq<char>,
    subsystem_link: Seq<char>,
    canonical_dir: Seq<char>,
    mountpoint: Seq<char>,
)
    ensures
        sysfs_event(uevent_text, subsystem_link, canonical_dir, mountpoint) matches Ok(ev) ==> {
            &&& ev.action == ActionType::Add
            &&& ev.seq == 0
            &&& strip_prefix(canonical_dir, mountpoint) == Some(ev.devpath)
            &&& file_name_of(subsystem_link) == Some(ev.subsystem)
        },
        scan_lines(lines_of(uevent_text)) is Ok && strip_prefix(canonical_dir, mountpoint)
            is None ==> sysfs_event(uevent_text, subsystem_link, canonical_dir, mountpoint)
            == Err::<EventView, ErrorView>(ErrorView::NotInsideMountpoint),
{
}

} // verus!
