//! The tolerant first pass: scanning `KEY=VALUE` lines into a partial
//! record.
//!
//! The scan accepts any producible sequence of lines.  A line without `=`
//! is ignored; a recognized key fills its typed slot; every key, known or
//! not, lands in the generic environment, a later line overwriting an
//! earlier one with the same key.  A malformed recognized value stops the
//! whole scan with its specific error; no partially-filled record escapes
//! on failure.

use vstd::prelude::*;

use crate::action::action_of;
use crate::action::ActionType;
use crate::env::EnvMap;
use crate::error::Error;
use crate::error::ErrorView;
use crate::text::key_value_of;
use crate::text::parse_u64;
use crate::text::parse_u64_str;
use crate::text::split_key_value;
use crate::text::str_eq;

verus! {

/// The mathematical shape of a partial record: each recognized field
/// optionally present, plus the generic environment.
pub struct PartialView {
    pub action: Option<ActionType>,
    pub devpath: Option<Seq<char>>,
    pub subsystem: Option<Seq<char>>,
    pub env: Map<Seq<char>, Seq<char>>,
    pub seq: Option<u64>,
}

/// The partial record before any line was seen.
pub open spec fn empty_partial() -> PartialView {
    PartialView {
        action: None,
        devpath: None,
        subsystem: None,
        env: Map::empty(),
        seq: None,
    }
}

/// One line folded into a partial record, or the error that stops the
/// scan.
pub open spec fn scan_line(p: PartialView, line: Seq<char>) -> Result<PartialView, ErrorView> {
    match key_value_of(line) {
        None => Ok(p),
        Some((key, value)) => {
            if key == "ACTION"@ {
                match action_of(value) {
                    Some(a) => Ok(
                        PartialView { action: Some(a), env: p.env.insert(key, value), ..p },
                    ),
                    None => Err(ErrorView::UnexpectedAction(value)),
                }
            } else if key == "DEVPATH"@ {
                Ok(PartialView { devpath: Some(value), env: p.env.insert(key, value), ..p })
            } else if key == "SUBSYSTEM"@ {
                Ok(PartialView { subsystem: Some(value), env: p.env.insert(key, value), ..p })
            } else if key == "SEQNUM"@ {
                match parse_u64(value) {
                    Some(n) => Ok(PartialView { seq: Some(n), env: p.env.insert(key, value), ..p }),
                    None => Err(ErrorView::InvalidSeqNum(value)),
                }
            } else {
                Ok(PartialView { env: p.env.insert(key, value), ..p })
            }
        },
    }
}

/// The lines from index `i` on folded into `p`, stopping at the first
/// failing line.
pub open spec fn scan_lines_from(lines: Seq<Seq<char>>, i: int, p: PartialView) -> Result<
    PartialView,
    ErrorView,
>
    decreases lines.len() - i,
{
    if 0 <= i < lines.len() {
        match scan_line(p, lines[i]) {
            Ok(q) => scan_lines_from(lines, i + 1, q),
            Err(e) => Err(e),
        }
    } else {
        Ok(p)
    }
}

/// A whole sequence of lines scanned from the empty record.
pub open spec fn scan_lines(lines: Seq<Seq<char>>) -> Result<PartialView, ErrorView> {
    scan_lines_from(lines, 0, empty_partial())
}

/// A partially-decoded uevent, private to the decoding stage: every
/// recognized field is absent until a line supplies it.
pub(crate) struct MaybeUEvent {
    pub action: Option<ActionType>,
    pub devpath: Option<String>,
    pub subsystem: Option<String>,
    pub env: EnvMap,
    pub seq: Option<u64>,
}

/// The mathematical shape of a partial record.
pub(crate) open spec fn partial_view(p: &MaybeUEvent) -> PartialView {
    PartialView {
        action: p.action,
        devpath: match p.devpath {
            Some(d) => Some(d@),
            None => None,
        },
        subsystem: match p.subsystem {
            Some(s) => Some(s@),
            None => None,
        },
        env: p.env@,
        seq: p.seq,
    }
}

/// Scan text lines into a partial record; recognized fields fill their
/// slots, every `KEY=VALUE` pair lands in the environment, and the first
/// malformed recognized value aborts the scan with its error.
pub(crate) fn parse_uevent_iter(lines: &Vec<String>) -> (r: Result<MaybeUEvent, Error>)
    ensures
        match r {
            Ok(p) => p.env.wf() && scan_lines(lines.deep_view()) == Ok::<PartialView, ErrorView>(partial_view(&p)),
            Err(e) => scan_lines(lines.deep_view()) == Err::<PartialView, ErrorView>(e@),
        },
{
    let ghost ls = lines.deep_view();
    let mut cur = MaybeUEvent {
        action: None,
        devpath: None,
        subsystem: None,
        env: EnvMap::new(),
        seq: None,
    };
    proof {
        assert(partial_view(&cur) =~= empty_partial());
    }
    let mut i: usize = 0;
    while i < lines.len()
        invariant
            0 <= i <= lines.len(),
            ls == lines.deep_view(),
            cur.env.wf(),
            scan_lines(ls) == scan_lines_from(ls, i as int, partial_view(&cur)),
        decreases lines.len() - i,
    {
        let ghost prev = partial_view(&cur);
        let line: &String = &lines[i];
        proof {
            assert(ls[i as int] == line@);
        }
        match split_key_value(line.as_str()) {
            None => {
                proof {
                    assert(scan_line(prev, ls[i as int]) == Ok::<PartialView, ErrorView>(prev));
                }
            },
            Some((key, value)) => {
                let ghost kv = (key@, value@);
                if str_eq(key.as_str(), "ACTION") {
                    match ActionType::parse(value.as_str()) {
                        Ok(a) => {
                            cur.action = Some(a);
                            cur.env.insert(key, value);
                            proof {
                                assert(scan_line(prev, ls[i as int]) == Ok::<
                                    PartialView,
                                    ErrorView,
                                >(partial_view(&cur)));
                            }
                        },
                        Err(e) => {
                            proof {
                                assert(scan_line(prev, ls[i as int]) == Err::<
                                    PartialView,
                                    ErrorView,
                                >(e@));
                            }
                            return Err(e);
                        },
                    }
                } else if str_eq(key.as_str(), "DEVPATH") {
                    cur.devpath = Some(value.clone());
                    cur.env.insert(key, value);
                    proof {
                        assert(scan_line(prev, ls[i as int]) == Ok::<PartialView, ErrorView>(
                            partial_view(&cur),
                        ));
                    }
                } else if str_eq(key.as_str(), "SUBSYSTEM") {
                    cur.subsystem = Some(value.clone());
                    cur.env.insert(key, value);
                    proof {
                        assert(scan_line(prev, ls[i as int]) == Ok::<PartialView, ErrorView>(
                            partial_view(&cur),
                        ));
                    }
                } else if str_eq(key.as_str(), "SEQNUM") {
                    match parse_u64_str(value.as_str()) {
                        Some(n) => {
                            cur.seq = Some(n);
                            cur.env.insert(key, value);
                            proof {
                                assert(scan_line(prev, ls[i as int]) == Ok::<
                                    PartialView,
                                    ErrorView,
                                >(partial_view(&cur)));
                            }
                        },
                        None => {
                            let e = Error::InvalidSeqNum(value);
                            proof {
                                assert(scan_line(prev, ls[i as int]) == Err::<
                                    PartialView,
                                    ErrorView,
                                >(e@));
                            }
                            return Err(e);
                        },
                    }
                } else {
                    cur.env.insert(key, value);
                    proof {
                        assert(scan_line(prev, ls[i as int]) == Ok::<PartialView, ErrorView>(
                            partial_view(&cur),
                        ));
                    }
                }
            },
        }
        i = i + 1;
    }
    Ok(cur)
}

} // verus!
