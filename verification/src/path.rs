//! A plain-text model of slash-separated paths.
//!
//! The sysfs decoder needs three things of a path: whether it is
//! absolute, its normal components, and its final named component.  This
//! module defines them over character sequences, the way path components
//! are usually read: the components are the non-empty segments between
//! `/` separators with `.` segments dropped, so doubled separators,
//! trailing separators and `.` do not count; `..` is kept as an ordinary
//! component, never resolved (the decoder is handed directories that are
//! already canonical).

use vstd::prelude::*;
use vstd::string::StrSliceExecFns;
use vstd::string::StringExecFns;

use crate::text::split_by;
use crate::text::split_str;
use crate::text::str_eq;

verus! {

/// True when `s` begins with a `/`.
pub open spec fn is_abs(s: Seq<char>) -> bool {
    s.len() > 0 && s[0] == '/'
}

/// The segments of `parts` that name something: the non-empty ones other
/// than `.`.
pub open spec fn named_segments(parts: Seq<Seq<char>>) -> Seq<Seq<char>>
    decreases parts.len(),
{
    if parts.len() == 0 {
        Seq::empty()
    } else {
        named_segments(parts.drop_last()) + (if parts.last().len() > 0 && parts.last() != "."@ {
            seq![parts.last()]
        } else {
            Seq::<Seq<char>>::empty()
        })
    }
}

/// The normal components of a slash-separated path.
pub open spec fn path_components(s: Seq<char>) -> Seq<Seq<char>> {
    named_segments(split_by(s, '/'))
}

/// The final named component of a path: the last normal component, when
/// there is one and it is not `..`.
pub open spec fn file_name_of(s: Seq<char>) -> Option<Seq<char>> {
    let cs = path_components(s);
    if cs.len() > 0 && cs.last() != ".."@ {
        Some(cs.last())
    } else {
        None
    }
}

/// True when `a` begins `b` elementwise.
pub open spec fn is_seq_prefix(a: Seq<Seq<char>>, b: Seq<Seq<char>>) -> bool {
    a.len() <= b.len() && forall|i: int| 0 <= i < a.len() ==> a[i] == b[i]
}

/// The components joined, each preceded by a `/`.
pub open spec fn joined_under_root(cs: Seq<Seq<char>>) -> Seq<char>
    decreases cs.len(),
{
    if cs.len() == 0 {
        Seq::empty()
    } else {
        joined_under_root(cs.drop_last()) + seq!['/'] + cs.last()
    }
}

/// The components re-rooted at `/`: a bare `/` when there are none, else
/// `/first/.../last`.
pub open spec fn rooted(cs: Seq<Seq<char>>) -> Seq<char> {
    if cs.len() == 0 {
        seq!['/']
    } else {
        joined_under_root(cs)
    }
}

/// The devpath of `path` relative to `mountpoint`.
///
/// Defined when `mountpoint` is the empty text, or when both paths name
/// the same kind of root (absolute or not) and every component of
/// `mountpoint` begins `path`; the components of `path` left after the
/// prefix are then re-rooted at `/`.  Otherwise `path` does not lie under
/// `mountpoint`.
pub open spec fn strip_prefix(path: Seq<char>, mountpoint: Seq<char>) -> Option<Seq<char>> {
    if mountpoint.len() == 0 {
        Some(rooted(path_components(path)))
    } else if is_abs(mountpoint) == is_abs(path) && is_seq_prefix(
        path_components(mountpoint),
        path_components(path),
    ) {
        Some(rooted(path_components(path).skip(path_components(mountpoint).len() as int)))
    } else {
        None
    }
}

/// The normal components of `s`, as owned strings.
fn components_of(s: &str) -> (r: Vec<String>)
    ensures
        r.deep_view() == path_components(s@),
{
    let parts = split_str(s, '/');
    let ghost ps = parts.deep_view();
    let mut out: Vec<String> = Vec::new();
    let mut i: usize = 0;
    proof {
        assert(ps.take(0) =~= Seq::<Seq<char>>::empty());
        assert(out.deep_view() =~= named_segments(ps.take(0)));
    }
    while i < parts.len()
        invariant
            0 <= i <= parts.len(),
            ps == parts.deep_view(),
            out.deep_view() == named_segments(ps.take(i as int)),
        decreases parts.len() - i,
    {
        let ghost prev = out.deep_view();
        let p: &String = &parts[i];
        if p.as_str().unicode_len() > 0 && !str_eq(p.as_str(), ".") {
            out.push(p.clone());
            proof {
                assert(out.deep_view() =~= prev.push(p@));
            }
        }
        proof {
            assert(ps.take(i + 1).drop_last() =~= ps.take(i as int));
            assert(ps.take(i + 1).last() == ps[i as int]);
            if ps[i as int].len() > 0 && ps[i as int] != "."@ {
                assert(out.deep_view() =~= named_segments(ps.take(i as int)) + seq![ps[i as int]]);
            } else {
                assert(out.deep_view() =~= named_segments(ps.take(i as int))
                    + Seq::<Seq<char>>::empty());
            }
        }
        i = i + 1;
    }
    proof {
        assert(ps.take(parts.len() as int) =~= ps);
    }
    out
}

/// The final named component of `s`.
pub fn file_name_str(s: &str) -> (r: Option<String>)
    ensures
        match r {
            Some(name) => file_name_of(s@) == Some(name@),
            None => file_name_of(s@) is None,
        },
{
    let cs = components_of(s);
    if cs.len() == 0 {
        return None;
    }
    let last: &String = &cs[cs.len() - 1];
    if str_eq(last.as_str(), "..") {
        None
    } else {
        Some(last.clone())
    }
}

/// The components of `cs` from index `from` on, re-rooted at `/`.
fn rooted_str(cs: &Vec<String>, from: usize) -> (r: String)
    requires
        from <= cs.len(),
    ensures
        r@ == rooted(cs.deep_view().skip(from as int)),
{
    let ghost tail = cs.deep_view().skip(from as int);
    if from == cs.len() {
        let r = "/".to_owned();
        proof {
            reveal_strlit("/");
            assert(tail.len() == 0);
            assert(r@ =~= rooted(tail));
        }
        return r;
    }
    let mut r = String::new();
    let mut i: usize = from;
    proof {
        assert(tail.take(0) =~= Seq::<Seq<char>>::empty());
        assert(r@ =~= joined_under_root(tail.take(0)));
    }
    while i < cs.len()
        invariant
            from <= i <= cs.len(),
            tail == cs.deep_view().skip(from as int),
            r@ == joined_under_root(tail.take(i - from)),
        decreases cs.len() - i,
    {
        let ghost prev = r@;
        r.append("/");
        r.append(cs[i].as_str());
        proof {
            reveal_strlit("/");
            assert(tail.take(i - from + 1).drop_last() =~= tail.take(i - from));
            assert(tail.take(i - from + 1).last() == cs.deep_view()[i as int]);
            assert("/"@ =~= seq!['/']);
            assert(r@ == joined_under_root(tail.take(i - from + 1)));
        }
        i = i + 1;
    }
    proof {
        assert(tail.take(cs.len() - from) =~= tail);
    }
    r
}

/// True when `s` begins with a `/`.
fn is_abs_str(s: &str) -> (r: bool)
    ensures
        r == is_abs(s@),
{
    s.unicode_len() > 0 && s.get_char(0) == '/'
}

/// The devpath of `path` relative to `mountpoint`, when `path` lies under
/// it.
pub fn strip_prefix_str(path: &str, mountpoint: &str) -> (r: Option<String>)
    ensures
        match r {
            Some(d) => strip_prefix(path@, mountpoint@) == Some(d@),
            None => strip_prefix(path@, mountpoint@) is None,
        },
{
    let pc = components_of(path);
    if mountpoint.unicode_len() == 0 {
        let ghost whole = pc.deep_view();
        proof {
            assert(whole.skip(0) =~= whole);
        }
        return Some(rooted_str(&pc, 0));
    }
    if is_abs_str(mountpoint) != is_abs_str(path) {
        return None;
    }
    let mc = components_of(mountpoint);
    if mc.len() > pc.len() {
        return None;
    }
    let mut i: usize = 0;
    while i < mc.len()
        invariant
            0 <= i <= mc.len() <= pc.len(),
            mountpoint@.len() != 0,
            is_abs(mountpoint@) == is_abs(path@),
            mc.deep_view() == path_components(mountpoint@),
            pc.deep_view() == path_components(path@),
            forall|j: int| 0 <= j < i ==> mc.deep_view()[j] == pc.deep_view()[j],
        decreases mc.len() - i,
    {
        if !str_eq(mc[i].as_str(), pc[i].as_str()) {
            proof {
                assert(mc.deep_view()[i as int] == mc@[i as int]@);
                assert(pc.deep_view()[i as int] == pc@[i as int]@);
                assert(!is_seq_prefix(path_components(mountpoint@), path_components(path@)));
            }
            return None;
        }
        i = i + 1;
    }
    Some(rooted_str(&pc, mc.len()))
}

} // verus!
