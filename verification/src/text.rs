//! Verified text utilities: character-exact equality, splitting on a
//! separator, line splitting, and decimal parsing.
//!
//! Every executable function here is specified against a recursive spec
//! function over `Seq<char>`; the decoders' contracts are stated in terms
//! of those spec functions.

use vstd::prelude::*;
use vstd::string::StrSliceExecFns;

verus! {

/// Index of the first occurrence of `sep` in `s`, or -1 when absent.
pub open spec fn first_index_of(s: Seq<char>, sep: char) -> int
    decreases s.len(),
{
    if s.len() == 0 {
        -1
    } else if s[0] == sep {
        0
    } else {
        let rest = first_index_of(s.skip(1), sep);
        if rest < 0 {
            -1
        } else {
            rest + 1
        }
    }
}

pub proof fn lemma_first_index_of(s: Seq<char>, sep: char)
    ensures
        first_index_of(s, sep) >= 0 <==> s.contains(sep),
        first_index_of(s, sep) >= 0 ==> {
            let i = first_index_of(s, sep);
            &&& i < s.len()
            &&& s[i] == sep
            &&& forall|j: int| 0 <= j < i ==> s[j] != sep
        },
        first_index_of(s, sep) < 0 ==> forall|j: int| 0 <= j < s.len() ==> s[j] != sep,
    decreases s.len(),
{
    if s.len() == 0 {
        assert(!s.contains(sep));
    } else if s[0] == sep {
        assert(s.contains(sep));
    } else {
        lemma_first_index_of(s.skip(1), sep);
        let rest = first_index_of(s.skip(1), sep);
        if rest >= 0 {
            assert(s[rest + 1] == s.skip(1)[rest]);
            assert(forall|j: int| 0 <= j < rest + 1 ==> s[j] != sep) by {
                assert(forall|j: int| 1 <= j < rest + 1 ==> s[j] == s.skip(1)[j - 1]);
            }
            assert(s.contains(sep));
        } else {
            assert(forall|j: int| 0 <= j < s.len() ==> s[j] != sep) by {
                assert(forall|j: int| 1 <= j < s.len() ==> s[j] == s.skip(1)[j - 1]);
            }
            if s.contains(sep) {
                let w = choose|w: int| 0 <= w < s.len() && s[w] == sep;
                assert(false);
            }
        }
    }
}

/// The pieces of `s` between occurrences of `sep`, in order.
///
/// As with splitting on a character in ordinary Rust: the result always has
/// one more piece than there are separators, so an empty input gives one
/// empty piece, and adjacent or trailing separators give empty pieces.
pub open spec fn split_by(s: Seq<char>, sep: char) -> Seq<Seq<char>>
    decreases s.len(),
    via split_by_decreases
{
    let i = first_index_of(s, sep);
    if i < 0 {
        seq![s]
    } else {
        seq![s.take(i)] + split_by(s.skip(i + 1), sep)
    }
}

#[via_fn]
proof fn split_by_decreases(s: Seq<char>, sep: char) {
    lemma_first_index_of(s, sep);
}

/// Character-exact equality of two string slices.
pub fn str_eq(a: &str, b: &str) -> (r: bool)
    ensures
        r == (a@ == b@),
{
    let an = a.unicode_len();
    let bn = b.unicode_len();
    if an != bn {
        return false;
    }
    let mut i: usize = 0;
    while i < an
        invariant
            0 <= i <= an,
            an == a@.len(),
            an == b@.len(),
            forall|j: int| 0 <= j < i ==> a@[j] == b@[j],
        decreases an - i,
    {
        if a.get_char(i) != b.get_char(i) {
            return false;
        }
        i = i + 1;
    }
    proof {
        assert(a@ =~= b@);
    }
    true
}

/// Index of the first occurrence of `sep` at or after `from` in `s`.
fn find_from(s: &str, n: usize, sep: char, from: usize) -> (r: Option<usize>)
    requires
        n == s@.len(),
        from <= n,
    ensures
        match r {
            Some(i) => {
                &&& from <= i < n
                &&& s@[i as int] == sep
                &&& forall|j: int| from <= j < i ==> s@[j] != sep
            },
            None => forall|j: int| from <= j < n ==> s@[j] != sep,
        },
{
    let mut i: usize = from;
    while i < n
        invariant
            from <= i <= n,
            n == s@.len(),
            forall|j: int| from <= j < i ==> s@[j] != sep,
        decreases n - i,
    {
        if s.get_char(i) == sep {
            return Some(i);
        }
        i = i + 1;
    }
    None
}

proof fn lemma_first_index_from(s: Seq<char>, sep: char, i: int)
    requires
        0 <= i < s.len(),
        s[i] == sep,
        forall|j: int| 0 <= j < i ==> s[j] != sep,
    ensures
        first_index_of(s, sep) == i,
    decreases s.len(),
{
    if i > 0 {
        assert(forall|j: int| 0 <= j < i - 1 ==> s.skip(1)[j] == s[j + 1]);
        assert(s.skip(1)[i - 1] == sep);
        lemma_first_index_from(s.skip(1), sep, i - 1);
    }
}

proof fn lemma_first_index_none(s: Seq<char>, sep: char)
    requires
        forall|j: int| 0 <= j < s.len() ==> s[j] != sep,
    ensures
        first_index_of(s, sep) < 0,
{
    lemma_first_index_of(s, sep);
    if first_index_of(s, sep) >= 0 {
        assert(s[first_index_of(s, sep)] == sep);
    }
}

/// Split `s` on every occurrence of `sep`.
pub fn split_str(s: &str, sep: char) -> (r: Vec<String>)
    ensures
        r.deep_view() == split_by(s@, sep),
        r.len() >= 1,
{
    let n = s.unicode_len();
    let mut parts: Vec<String> = Vec::new();
    let mut start: usize = 0;
    proof {
        assert(parts.deep_view() =~= Seq::<Seq<char>>::empty());
        assert(s@.skip(0) =~= s@);
        assert(Seq::<Seq<char>>::empty() + split_by(s@, sep) =~= split_by(s@, sep));
    }
    loop
        invariant
            0 <= start <= n,
            n == s@.len(),
            split_by(s@, sep) == parts.deep_view() + split_by(s@.skip(start as int), sep),
        decreases n - start,
    {
        let ghost rest = s@.skip(start as int);
        let ghost prev = parts.deep_view();
        match find_from(s, n, sep, start) {
            Some(i) => {
                let piece = s.substring_char(start, i).to_owned();
                parts.push(piece);
                proof {
                    assert(forall|j: int| 0 <= j < i - start ==> rest[j] == s@[start + j]);
                    assert(rest[i - start] == s@[i as int]);
                    lemma_first_index_from(rest, sep, i - start);
                    assert(rest.take(i - start) =~= s@.subrange(start as int, i as int));
                    assert(rest.skip(i - start + 1) =~= s@.skip(i + 1));
                    assert(split_by(rest, sep) == seq![piece@] + split_by(s@.skip(i + 1), sep));
                    assert(parts.deep_view() =~= prev.push(piece@));
                    assert(parts.deep_view() + split_by(s@.skip(i + 1), sep) =~= prev + split_by(
                        rest,
                        sep,
                    ));
                }
                start = i + 1;
            },
            None => {
                let piece = s.substring_char(start, n).to_owned();
                parts.push(piece);
                proof {
                    lemma_first_index_none(rest, sep);
                    assert(rest =~= s@.subrange(start as int, n as int));
                    assert(split_by(rest, sep) == seq![piece@]);
                    assert(parts.deep_view() =~= prev.push(piece@));
                    assert(split_by(s@, sep) =~= parts.deep_view());
                }
                return parts;
            },
        }
    }
}

/// The key and value of a `KEY=VALUE` line: the text before the first `=`
/// and everything after it (a value may itself contain `=`).  A line
/// without `=` has none.
pub open spec fn key_value_of(line: Seq<char>) -> Option<(Seq<char>, Seq<char>)> {
    let i = first_index_of(line, '=');
    if i < 0 {
        None
    } else {
        Some((line.take(i), line.skip(i + 1)))
    }
}

/// Split a line on its first `=` into key and value.
pub fn split_key_value(line: &str) -> (r: Option<(String, String)>)
    ensures
        match r {
            Some(kv) => key_value_of(line@) == Some((kv.0@, kv.1@)),
            None => key_value_of(line@) is None,
        },
{
    let n = line.unicode_len();
    match find_from(line, n, '=', 0) {
        Some(i) => {
            let key = line.substring_char(0, i).to_owned();
            let value = line.substring_char(i + 1, n).to_owned();
            proof {
                lemma_first_index_from(line@, '=', i as int);
                assert(line@.take(i as int) =~= line@.subrange(0, i as int));
                assert(line@.skip(i + 1) =~= line@.subrange(i + 1, n as int));
            }
            Some((key, value))
        },
        None => {
            proof {
                lemma_first_index_none(line@, '=');
            }
            None
        },
    }
}

/// One line with a single trailing carriage return removed.
pub open spec fn strip_cr(l: Seq<char>) -> Seq<char> {
    if l.len() > 0 && l.last() == '\r' {
        l.drop_last()
    } else {
        l
    }
}

/// The lines of `s`, as iterating the lines of a string yields them: the
/// pieces between `\n` separators, where a final `\n` ends the last line
/// rather than opening an empty one, and each piece loses one trailing
/// `\r`.
pub open spec fn lines_of(s: Seq<char>) -> Seq<Seq<char>> {
    if s.len() == 0 {
        Seq::empty()
    } else {
        let base = if s.last() == '\n' {
            split_by(s.drop_last(), '\n')
        } else {
            split_by(s, '\n')
        };
        base.map_values(|l: Seq<char>| strip_cr(l))
    }
}

/// Split `s` into its lines.
pub fn split_lines(s: &str) -> (r: Vec<String>)
    ensures
        r.deep_view() == lines_of(s@),
{
    let n = s.unicode_len();
    if n == 0 {
        let out: Vec<String> = Vec::new();
        proof {
            assert(out.deep_view() =~= lines_of(s@));
        }
        return out;
    }
    let body: &str = if s.get_char(n - 1) == '\n' {
        s.substring_char(0, n - 1)
    } else {
        s
    };
    proof {
        if s@.last() == '\n' {
            assert(body@ =~= s@.drop_last());
        }
    }
    let parts = split_str(body, '\n');
    let ghost base = split_by(body@, '\n');
    let mut out: Vec<String> = Vec::new();
    let mut idx: usize = 0;
    while idx < parts.len()
        invariant
            0 <= idx <= parts.len(),
            parts.deep_view() == base,
            out.len() == idx,
            forall|k: int| 0 <= k < idx ==> out.deep_view()[k] == strip_cr(#[trigger] base[k]),
        decreases parts.len() - idx,
    {
        let ghost prev = out.deep_view();
        let p: &String = &parts[idx];
        let m = p.as_str().unicode_len();
        if m > 0 && p.as_str().get_char(m - 1) == '\r' {
            let stripped = p.as_str().substring_char(0, m - 1).to_owned();
            proof {
                assert(stripped@ =~= p@.drop_last());
            }
            out.push(stripped);
        } else {
            out.push(p.clone());
        }
        proof {
            assert(out.deep_view()[idx as int] == strip_cr(base[idx as int]));
            assert(forall|k: int| 0 <= k < idx ==> out.deep_view()[k] == prev[k]);
        }
        idx = idx + 1;
    }
    proof {
        assert(out.deep_view() =~= base.map_values(|l: Seq<char>| strip_cr(l)));
    }
    out
}

/// True when `c` is an ASCII decimal digit.
pub open spec fn is_digit(c: char) -> bool {
    48 <= c as u32 <= 57
}

/// True when every character of `s` is an ASCII decimal digit.
pub open spec fn all_digits(s: Seq<char>) -> bool {
    forall|i: int| 0 <= i < s.len() ==> is_digit(#[trigger] s[i])
}

/// The value of `digits` read as a decimal number.
pub open spec fn dec_value(digits: Seq<char>) -> int
    decreases digits.len(),
{
    if digits.len() == 0 {
        0
    } else {
        dec_value(digits.drop_last()) * 10 + (digits.last() as u32 - 48)
    }
}

/// `s` read as an unsigned 64-bit decimal number, as `str::parse::<u64>`
/// reads it: an optional leading `+`, then at least one ASCII digit, and a
/// value that fits in 64 bits; anything else is `None`.
pub open spec fn parse_u64(s: Seq<char>) -> Option<u64> {
    let body = if s.len() > 0 && s[0] == '+' {
        s.skip(1)
    } else {
        s
    };
    if body.len() > 0 && all_digits(body) && dec_value(body) <= u64::MAX {
        Some(dec_value(body) as u64)
    } else {
        None
    }
}

proof fn lemma_dec_value_nonneg(digits: Seq<char>)
    requires
        all_digits(digits),
    ensures
        dec_value(digits) >= 0,
    decreases digits.len(),
{
    if digits.len() > 0 {
        assert(all_digits(digits.drop_last()));
        lemma_dec_value_nonneg(digits.drop_last());
    }
}

/// A prefix of a digit string never exceeds the whole string in value.
proof fn lemma_dec_value_monotone(digits: Seq<char>, j: int)
    requires
        all_digits(digits),
        0 <= j <= digits.len(),
    ensures
        dec_value(digits.take(j)) <= dec_value(digits),
    decreases digits.len() - j,
{
    if j < digits.len() {
        let t = digits.take(j + 1);
        assert(t.drop_last() =~= digits.take(j));
        assert(all_digits(digits.take(j)));
        lemma_dec_value_nonneg(digits.take(j));
        assert(dec_value(t) == dec_value(digits.take(j)) * 10 + (digits[j] as u32 - 48));
        lemma_dec_value_monotone(digits, j + 1);
    } else {
        assert(digits.take(j) =~= digits);
    }
}

/// `s` read as an unsigned 64-bit decimal number.
pub fn parse_u64_str(s: &str) -> (r: Option<u64>)
    ensures
        r == parse_u64(s@),
{
    let n = s.unicode_len();
    let mut i: usize = 0;
    if n > 0 && s.get_char(0) == '+' {
        i = 1;
    }
    let ghost body = if s@.len() > 0 && s@[0] == '+' {
        s@.skip(1)
    } else {
        s@
    };
    assert(forall|k: int| 0 <= k < body.len() ==> body[k] == s@[k + i]);
    if i == n {
        return None;
    }
    let mut acc: u64 = 0;
    let mut j: usize = i;
    proof {
        assert(body.take(0) =~= Seq::<char>::empty());
    }
    while j < n
        invariant
            i <= j <= n,
            n == s@.len(),
            i == 1 ==> n > 0 && s@[0] == '+',
            i == 0 ==> !(n > 0 && s@[0] == '+'),
            body == (if s@.len() > 0 && s@[0] == '+' {
                s@.skip(1)
            } else {
                s@
            }),
            body.len() == n - i,
            forall|k: int| 0 <= k < body.len() ==> body[k] == s@[k + i],
            all_digits(body.take(j - i)),
            acc == dec_value(body.take(j - i)),
        decreases n - j,
    {
        let c = s.get_char(j);
        let code = c as u32;
        if code < 48 || code > 57 {
            proof {
                assert(body[j - i] == s@[j as int]);
                assert(!is_digit(body[j - i]));
            }
            return None;
        }
        let d = (code - 48) as u64;
        let ghost taken = body.take(j - i + 1);
        proof {
            assert(taken.drop_last() =~= body.take(j - i));
            assert(taken.last() == s@[j as int]);
            assert(dec_value(taken) == acc * 10 + d);
            assert(all_digits(taken));
        }
        let step = match acc.checked_mul(10) {
            Some(m) => m.checked_add(d),
            None => None,
        };
        match step {
            Some(v) => {
                acc = v;
            },
            None => {
                proof {
                    assert(dec_value(taken) > u64::MAX);
                    if all_digits(body) {
                        lemma_dec_value_monotone(body, j - i + 1);
                    }
                }
                return None;
            },
        }
        j = j + 1;
    }
    proof {
        assert(body.take(n - i) =~= body);
    }
    Some(acc)
}

} // verus!
