//! Release versions: which texts are accepted as a version, how two versions
//! compare, and the addresses and installer arguments of an update.
use vstd::prelude::*;

use crate::profile::{join_path, joined_path, Platform, Profile};
use crate::text::{
    alphanumeric, ascii_lower, ascii_lowercase, chars_of, contains_chars, contains_seq, count_leading,
    digit, is_alphanumeric, is_digit, lemma_count_leading_is, string_of, strip_leading,
    strip_leading_char, strip_trailing, strip_trailing_char, sub_chars, trim, trim_chars,
    lemma_count_leading_bounds, lemma_split_by_nonempty, same_chars, split_by, opt_view, strings_view,
};

verus! {

// ---------------------------------------------------------------------------
// Accepting a version text
// ---------------------------------------------------------------------------
/// A character that may appear in an accepted version.
pub open spec fn is_version_char(c: char) -> bool {
    is_alphanumeric(c) || c == '.' || c == '-' || c == '_'
}

/// A version text with white space trimmed and any leading `v`s removed.
pub open spec fn normalized_version(v: Seq<char>) -> Seq<char> {
    strip_leading(trim(v), 'v')
}

/// Every accepted character is ASCII, so the text's length in characters is
/// its length in bytes; longer than 64, or naming `doctype` in any case, is
/// refused.
pub open spec fn acceptable_version(n: Seq<char>) -> bool {
    &&& n.len() <= 64
    &&& forall|i: int| 0 <= i < n.len() ==> #[trigger] is_version_char(n[i])
    &&& !contains_seq(ascii_lower(n), "doctype"@)
}

pub open spec fn spec_sanitize_version(v: Seq<char>) -> Result<Seq<char>, Seq<char>> {
    let n = normalized_version(v);
    if n.len() == 0 {
        Err("Update version was empty."@)
    } else if !acceptable_version(n) {
        Err("Invalid update version: "@ + n)
    } else {
        Ok(n)
    }
}

/// Any plain version text is accepted unchanged: one to 64 ASCII letters of
/// either case, digits, `.`, `-` or `_`, not starting with `v` and not naming
/// `doctype` in any case.
pub proof fn lemma_plain_versions_are_accepted(v: Seq<char>)
    requires
        0 < v.len() <= 64,
        forall|i: int|
            0 <= i < v.len() ==> {
                let c = #[trigger] v[i];
                ||| ('0' <= c && c <= '9')
                ||| ('a' <= c && c <= 'z')
                ||| ('A' <= c && c <= 'Z')
                ||| c == '.'
                ||| c == '-'
                ||| c == '_'
            },
        v[0] != 'v',
        !contains_seq(ascii_lower(v), "doctype"@),
    ensures
        spec_sanitize_version(v) == Ok::<Seq<char>, Seq<char>>(v),
{
    assert(!crate::text::is_space(v[0]));
    assert(!crate::text::is_space(v.last())) by {
        assert(v.last() == v[v.len() - 1]);
    }
    assert(count_leading(v, crate::text::space_pred()) == 0);
    assert(v.skip(0) =~= v);
    assert(crate::text::trim_start(v) == v);
    assert(crate::text::count_trailing(v, crate::text::space_pred()) == 0);
    assert(v.take(v.len() as int) =~= v);
    assert(trim(v) == v);
    assert(count_leading(v, crate::text::is_char('v')) == 0);
    assert(normalized_version(v) == v);
    assert forall|i: int| 0 <= i < v.len() implies #[trigger] is_version_char(v[i]) by {
        let c = v[i];
    }
}

/// What is accepted is a plain version: one to 64 ASCII letters of either
/// case, digits, `.`, `-` or `_`, not starting with `v` and not naming
/// `doctype` in any case.
pub proof fn lemma_accepted_versions_are_plain(v: Seq<char>)
    ensures
        spec_sanitize_version(v) matches Ok(n) ==> {
            &&& 0 < n.len() <= 64
            &&& n[0] != 'v'
            &&& !contains_seq(ascii_lower(n), "doctype"@)
            &&& forall|i: int|
                0 <= i < n.len() ==> {
                    let c = #[trigger] n[i];
                    ||| ('0' <= c && c <= '9')
                    ||| ('a' <= c && c <= 'z')
                    ||| ('A' <= c && c <= 'Z')
                    ||| c == '.'
                    ||| c == '-'
                    ||| c == '_'
                }
        },
{
    let t = trim(v);
    lemma_count_leading_bounds(t, crate::text::is_char('v'));
    let n = normalized_version(v);
    let k = count_leading(t, crate::text::is_char('v')) as int;
    if n.len() > 0 {
        assert(n[0] == t[k]);
        assert(!(crate::text::is_char('v'))(t[k]));
        assert(n[0] != 'v');
    }
    if acceptable_version(n) {
        assert forall|i: int| 0 <= i < n.len() implies {
            let c = #[trigger] n[i];
            ||| ('0' <= c && c <= '9')
            ||| ('a' <= c && c <= 'z')
            ||| ('A' <= c && c <= 'Z')
            ||| c == '.'
            ||| c == '-'
            ||| c == '_'
        } by {
            assert(is_version_char(n[i]));
        }
    }
}

/// A leading `v` is dropped: `v` followed by a plain version is accepted as
/// that version.
pub proof fn lemma_leading_v_is_dropped(v: Seq<char>)
    requires
        0 < v.len() <= 64,
        forall|i: int|
            0 <= i < v.len() ==> {
                let c = #[trigger] v[i];
                ||| ('0' <= c && c <= '9')
                ||| ('a' <= c && c <= 'z')
                ||| ('A' <= c && c <= 'Z')
                ||| c == '.'
                ||| c == '-'
                ||| c == '_'
            },
        v[0] != 'v',
        !contains_seq(ascii_lower(v), "doctype"@),
    ensures
        spec_sanitize_version(seq!['v'] + v) == Ok::<Seq<char>, Seq<char>>(v),
{
    let w = seq!['v'] + v;
    assert(w[0] == 'v');
    assert(!crate::text::is_space(w[0]));
    assert(w.last() == v[v.len() - 1]);
    assert(!crate::text::is_space(w.last()));
    assert(count_leading(w, crate::text::space_pred()) == 0);
    assert(w.skip(0) =~= w);
    assert(crate::text::count_trailing(w, crate::text::space_pred()) == 0);
    assert(w.take(w.len() as int) =~= w);
    assert(trim(w) == w);
    assert(w.drop_first() =~= v);
    assert(count_leading(v, crate::text::is_char('v')) == 0);
    assert(count_leading(w, crate::text::is_char('v')) == 1);
    assert(w.skip(1) =~= v);
    assert(normalized_version(w) == v);
    assert forall|i: int| 0 <= i < v.len() implies #[trigger] is_version_char(v[i]) by {
        let c = v[i];
    }
}

pub open spec fn result_view(r: Result<String, String>) -> Result<Seq<char>, Seq<char>> {
    match r {
        Ok(s) => Ok(s@),
        Err(e) => Err(e@),
    }
}

fn all_version_chars(n: &[char]) -> (r: bool)
    ensures
        r == forall|i: int| 0 <= i < n@.len() ==> #[trigger] is_version_char(n@[i]),
{
    let mut i: usize = 0;
    while i < n.len()
        invariant
            i <= n@.len(),
            forall|k: int| 0 <= k < i ==> #[trigger] is_version_char(n@[k]),
        decreases n@.len() - i,
    {
        let c = n[i];
        if !(alphanumeric(c) || c == '.' || c == '-' || c == '_') {
            assert(!is_version_char(n@[i as int]));
            return false;
        }
        i = i + 1;
    }
    true
}

/// Trims a version text, drops leading `v`s and refuses anything that is not
/// a plain version (empty, over 64 characters, markup, other characters).
pub fn sanitize_version(version: &str) -> (r: Result<String, String>)
    ensures
        result_view(r) == spec_sanitize_version(version@),
{
    let chars = chars_of(version);
    let trimmed = trim_chars(chars.as_slice());
    let n = strip_leading_char(trimmed.as_slice(), 'v');
    if n.len() == 0 {
        return Err(String::from_str("Update version was empty."));
    }
    let doctype = chars_of("doctype");
    let lowered = ascii_lowercase(n.as_slice());
    if n.len() > 64 || !all_version_chars(n.as_slice()) || contains_chars(
        lowered.as_slice(),
        doctype.as_slice(),
    ) {
        let mut message = String::from_str("Invalid update version: ");
        let text = string_of(n.as_slice());
        message.append(text.as_str());
        return Err(message);
    }
    Ok(string_of(n.as_slice()))
}

// ---------------------------------------------------------------------------
// Reading a numeric version
// ---------------------------------------------------------------------------
/// The value of a text of decimal digits.
pub open spec fn digits_value(s: Seq<char>) -> nat
    decreases s.len(),
{
    if s.len() == 0 {
        0
    } else {
        digits_value(s.drop_last()) * 10 + ((s.last() as u32) - 48) as nat
    }
}

/// `u64::from_str`: an optional `+` and then one or more digits whose value
/// fits in 64 bits.
pub open spec fn spec_parse_u64(s: Seq<char>) -> Option<u64> {
    let d = unsigned_digits(s);
    if d.len() > 0 && all_digits(d) && digits_value(d) <= u64::MAX {
        Some(digits_value(d) as u64)
    } else {
        None
    }
}

/// The text without one leading `+`.
pub open spec fn unsigned_digits(s: Seq<char>) -> Seq<char> {
    if s.len() > 0 && s[0] == '+' {
        s.drop_first()
    } else {
        s
    }
}

pub open spec fn all_digits(d: Seq<char>) -> bool {
    forall|i: int| 0 <= i < d.len() ==> #[trigger] is_digit(d[i])
}

/// The text before the first `-` (the whole text when there is none).
pub open spec fn numeric_prefix(v: Seq<char>) -> Seq<char> {
    v.take(count_leading(v, not_dash_pred()) as int)
}

pub open spec fn not_dash_pred() -> spec_fn(char) -> bool {
    |c: char| c != '-'
}

/// Each piece parsed as a number; `None` when a piece is empty or not a number.
pub open spec fn parse_parts(parts: Seq<Seq<char>>) -> Option<Seq<u64>>
    decreases parts.len(),
{
    if parts.len() == 0 {
        Some(Seq::<u64>::empty())
    } else {
        match (parse_parts(parts.drop_last()), spec_parse_u64(parts.last())) {
            (Some(done), Some(x)) => Some(done.push(x)),
            _ => None,
        }
    }
}

pub open spec fn dot_pred() -> spec_fn(char) -> bool {
    |c: char| c == '.'
}

/// The dotted numbers before any `-` suffix, as `1.2.3-beta` gives `[1, 2, 3]`.
pub open spec fn spec_parse_numeric_version(v: Seq<char>) -> Option<Seq<u64>> {
    let prefix = numeric_prefix(v);
    if prefix.len() == 0 {
        None
    } else {
        parse_parts(split_by(prefix, dot_pred()))
    }
}

proof fn lemma_digits_value_step(s: Seq<char>, i: int)
    requires
        0 <= i < s.len(),
    ensures
        digits_value(s.take(i + 1)) == digits_value(s.take(i)) * 10 + ((s[i] as u32) - 48) as nat,
{
    assert(s.take(i + 1).drop_last() =~= s.take(i));
}

/// `str::parse::<u64>` on a piece of a version.
fn parse_u64_chars(s: &[char]) -> (r: Option<u64>)
    ensures
        r == spec_parse_u64(s@),
{
    let start: usize = if s.len() > 0 && s[0] == '+' {
        1
    } else {
        0
    };
    let ghost d = unsigned_digits(s@);
    assert(d =~= s@.skip(start as int));
    if start == s.len() {
        return None;
    }
    let mut value: u64 = 0;
    let mut i: usize = start;
    while i < s.len()
        invariant
            start <= i <= s@.len(),
            d == s@.skip(start as int),
            d == unsigned_digits(s@),
            forall|k: int| 0 <= k < i - start ==> #[trigger] is_digit(d[k]),
            value == digits_value(d.take(i - start)),
        decreases s@.len() - i,
    {
        let c = s[i];
        assert(d[i - start] == s@[i as int]);
        if !digit(c) {
            assert(!is_digit(d[i - start]));
            assert(!all_digits(d));
            return None;
        }
        proof {
            lemma_digits_value_step(d, i - start);
        }
        let dv = ((c as u32) - 48) as u64;
        if value > (u64::MAX - dv) / 10 {
            proof {
                let m = (u64::MAX - dv) as int;
                assert(value * 10 + dv > u64::MAX) by (nonlinear_arith)
                    requires
                        value > m / 10,
                        m == u64::MAX - dv,
                        0 <= dv <= 9,
                ;
                if all_digits(d) {
                    lemma_digits_prefix_monotone(d, (i - start + 1) as int);
                }
            }
            return None;
        }
        value = value * 10 + dv;
        i = i + 1;
    }
    assert(d.take(d.len() as int) =~= d);
    Some(value)
}

proof fn lemma_digits_prefix_monotone(d: Seq<char>, k: int)
    requires
        0 <= k <= d.len(),
        all_digits(d),
    ensures
        digits_value(d.take(k)) <= digits_value(d),
    decreases d.len() - k,
{
    if k < d.len() {
        lemma_digits_prefix_monotone(d, k + 1);
        lemma_digits_value_step(d, k);
    } else {
        assert(d.take(k) =~= d);
    }
}

/// The dotted numbers of a version before any `-` suffix; `None` when that
/// part is empty or has an empty or non-numeric piece.
pub fn parse_numeric_version(version: &str) -> (r: Option<Vec<u64>>)
    ensures
        match r {
            Some(v) => spec_parse_numeric_version(version@) == Some(v@),
            None => spec_parse_numeric_version(version@) is None,
        },
{
    let chars = chars_of(version);
    let ghost v = chars@;
    // the text before the first '-'
    let mut end: usize = 0;
    while end < chars.len() && chars[end] != '-'
        invariant
            end <= chars@.len(),
            forall|k: int| 0 <= k < end ==> chars@[k] != '-',
        decreases chars@.len() - end,
    {
        end = end + 1;
    }
    proof {
        lemma_count_leading_is(v, not_dash_pred(), end as int);
    }
    let prefix = sub_chars(chars.as_slice(), 0, end);
    assert(prefix@ =~= numeric_prefix(version@));
    if end == 0 {
        return None;
    }
    let ghost pre = prefix@;
    let mut parts: Vec<u64> = Vec::new();
    let mut piece_start: usize = 0;
    let mut i: usize = 0;
    // invariant: split of pre.take(i) = completed pieces + current piece
    while i < prefix.len()
        invariant
            piece_start <= i <= prefix@.len(),
            pre == prefix@,
            pre == numeric_prefix(version@),
            pre.len() > 0,
            split_by(pre.take(i as int), dot_pred()).len() >= 1,
            split_by(pre.take(i as int), dot_pred()).last() == pre.subrange(
                piece_start as int,
                i as int,
            ),
            parse_parts(split_by(pre.take(i as int), dot_pred()).drop_last()) == Some(parts@),
        decreases prefix@.len() - i,
    {
        let ghost before = split_by(pre.take(i as int), dot_pred());
        assert(pre.take(i + 1).drop_last() =~= pre.take(i as int));
        if prefix[i] == '.' {
            let piece = sub_chars(prefix.as_slice(), piece_start, i);
            match parse_u64_chars(piece.as_slice()) {
                Some(x) => {
                    parts.push(x);
                    proof {
                        let after = split_by(pre.take(i + 1), dot_pred());
                        assert(after == before.push(Seq::<char>::empty()));
                        assert(after.drop_last() =~= before);
                        assert(before.drop_last().push(before.last()) =~= before);
                    }
                },
                None => {
                    proof {
                        lemma_parse_parts_prefix_fails(pre, i as int, piece@);
                    }
                    return None;
                },
            }
            piece_start = i + 1;
        } else {
            proof {
                let after = split_by(pre.take(i + 1), dot_pred());
                assert(after.drop_last() =~= before.drop_last());
                assert(pre.subrange(piece_start as int, i + 1) =~= pre.subrange(
                    piece_start as int,
                    i as int,
                ).push(pre[i as int]));
            }
        }
        i = i + 1;
    }
    assert(pre.take(pre.len() as int) =~= pre);
    let last_piece = sub_chars(prefix.as_slice(), piece_start, prefix.len());
    match parse_u64_chars(last_piece.as_slice()) {
        Some(x) => {
            parts.push(x);
            proof {
                let all = split_by(pre, dot_pred());
                assert(all.drop_last().push(all.last()) =~= all);
            }
            Some(parts)
        },
        None => {
            proof {
                let all = split_by(pre, dot_pred());
                assert(all.drop_last().push(all.last()) =~= all);
            }
            None
        },
    }
}

/// When the piece that a `.` ends does not parse, the whole prefix does not.
proof fn lemma_parse_parts_prefix_fails(pre: Seq<char>, i: int, piece: Seq<char>)
    requires
        0 <= i < pre.len(),
        pre[i] == '.',
        split_by(pre.take(i), dot_pred()).len() >= 1,
        split_by(pre.take(i), dot_pred()).last() == piece,
        spec_parse_u64(piece) is None,
    ensures
        parse_parts(split_by(pre, dot_pred())) is None,
{
    let before = split_by(pre.take(i), dot_pred());
    assert(pre.take(i + 1).drop_last() =~= pre.take(i));
    assert(parse_parts(before) is None);
    lemma_split_extends(pre, i + 1);
    lemma_parse_parts_prefix_none(split_by(pre, dot_pred()), before);
}

/// Splitting a longer text keeps every completed piece of a shorter prefix.
proof fn lemma_split_extends(s: Seq<char>, k: int)
    requires
        0 <= k <= s.len(),
    ensures
        split_by(s.take(k), dot_pred()).len() <= split_by(s, dot_pred()).len(),
        split_by(s.take(k), dot_pred()).drop_last() =~= split_by(s, dot_pred()).take(
            split_by(s.take(k), dot_pred()).len() - 1,
        ),
        k >= 1 && s[k - 1] == '.' ==> split_by(s.take(k), dot_pred()).last() == Seq::<
            char,
        >::empty() && split_by(s.take(k - 1), dot_pred()) =~= split_by(s, dot_pred()).take(
            split_by(s.take(k), dot_pred()).len() - 1,
        ),
    decreases s.len() - k,
{
    lemma_split_by_nonempty(s.take(k), dot_pred());
    lemma_split_by_nonempty(s, dot_pred());
    if k == s.len() {
        assert(s.take(k) =~= s);
        if k >= 1 && s[k - 1] == '.' {
            assert(s.take(k).drop_last() =~= s.take(k - 1));
            let a = split_by(s.take(k - 1), dot_pred());
            assert(split_by(s.take(k), dot_pred()) == a.push(Seq::<char>::empty()));
            assert(a.push(Seq::<char>::empty()).take(a.len() as int) =~= a);
        }
    } else {
        lemma_split_extends(s, k + 1);
        let a = split_by(s.take(k), dot_pred());
        let b = split_by(s.take(k + 1), dot_pred());
        assert(s.take(k + 1).drop_last() =~= s.take(k));
        if s[k] == '.' {
            assert(b == a.push(Seq::<char>::empty()));
            assert(b.drop_last() =~= a);
        } else {
            assert(b == a.update(a.len() - 1, a.last().push(s[k])));
            assert(b.drop_last() =~= a.drop_last());
        }
        if k >= 1 && s[k - 1] == '.' {
            assert(s.take(k).drop_last() =~= s.take(k - 1));
            let c = split_by(s.take(k - 1), dot_pred());
            assert(a == c.push(Seq::<char>::empty()));
            assert(a.drop_last() =~= c);
        }
    }
}

/// If some prefix of the pieces fails to parse, all of them fail.
proof fn lemma_parse_parts_prefix_none(all: Seq<Seq<char>>, pre: Seq<Seq<char>>)
    requires
        pre.len() <= all.len(),
        pre =~= all.take(pre.len() as int),
        parse_parts(pre) is None,
    ensures
        parse_parts(all) is None,
    decreases all.len(),
{
    if pre.len() < all.len() {
        assert(all.drop_last().take(pre.len() as int) =~= pre);
        lemma_parse_parts_prefix_none(all.drop_last(), pre);
    } else {
        assert(pre =~= all);
    }
}

// ---------------------------------------------------------------------------
// Comparing versions
// ---------------------------------------------------------------------------
/// The `i`-th number of a version, 0 past its end.
pub open spec fn part_at(v: Seq<u64>, i: int) -> u64 {
    if 0 <= i < v.len() {
        v[i]
    } else {
        0
    }
}

/// `latest` is greater than `current` in the first place where they differ,
/// missing places counting as 0.
pub open spec fn parts_newer(latest: Seq<u64>, current: Seq<u64>) -> bool {
    exists|i: int|
        #![trigger part_at(latest, i)]
        0 <= i && (i < latest.len() || i < current.len()) && part_at(latest, i) > part_at(current, i)
            && forall|j: int| 0 <= j < i ==> part_at(latest, j) == part_at(current, j)
}

/// Whether `latest` is a higher version than `current`, place by place.
pub fn compare_version_parts(latest: &[u64], current: &[u64]) -> (r: bool)
    ensures
        r == parts_newer(latest@, current@),
{
    let max_len = if latest.len() > current.len() {
        latest.len()
    } else {
        current.len()
    };
    let mut index: usize = 0;
    while index < max_len
        invariant
            index <= max_len,
            max_len == latest@.len() || max_len == current@.len(),
            max_len >= latest@.len() && max_len >= current@.len(),
            forall|j: int| 0 <= j < index ==> part_at(latest@, j) == part_at(current@, j),
        decreases max_len - index,
    {
        let latest_part = if index < latest.len() {
            latest[index]
        } else {
            0
        };
        let current_part = if index < current.len() {
            current[index]
        } else {
            0
        };
        assert(latest_part == part_at(latest@, index as int));
        assert(current_part == part_at(current@, index as int));
        if latest_part > current_part {
            return true;
        }
        if latest_part < current_part {
            assert forall|i: int|
                0 <= i && (i < latest@.len() || i < current@.len()) && part_at(latest@, i)
                    > part_at(current@, i) implies !(forall|j: int|
                0 <= j < i ==> part_at(latest@, j) == part_at(current@, j)) by {
                assert(i >= index);
                if i > index {
                    assert(part_at(latest@, index as int) != part_at(current@, index as int));
                }
            }
            return false;
        }
        index = index + 1;
    }
    false
}

pub open spec fn spec_is_newer_version(latest: Seq<char>, current: Seq<char>) -> bool {
    let l = normalized_version(latest);
    let c = normalized_version(current);
    match (spec_parse_numeric_version(l), spec_parse_numeric_version(c)) {
        (Some(lp), Some(cp)) => parts_newer(lp, cp),
        _ => l != c,
    }
}

/// Whether `latest` names a newer release than `current`. Both are trimmed and
/// lose their leading `v`s; numeric versions compare place by place, any other
/// text counts as newer when it differs.
pub fn is_newer_version(latest: &str, current: &str) -> (r: bool)
    ensures
        r == spec_is_newer_version(latest@, current@),
{
    let lc = chars_of(latest);
    let cc = chars_of(current);
    let lt = trim_chars(lc.as_slice());
    let ct = trim_chars(cc.as_slice());
    let l = strip_leading_char(lt.as_slice(), 'v');
    let c = strip_leading_char(ct.as_slice(), 'v');
    let ls = string_of(l.as_slice());
    let cs = string_of(c.as_slice());
    match (parse_numeric_version(ls.as_str()), parse_numeric_version(cs.as_str())) {
        (Some(lp), Some(cp)) => compare_version_parts(lp.as_slice(), cp.as_slice()),
        _ => !same_chars(l.as_slice(), c.as_slice()),
    }
}



proof fn lemma_first_difference(a: Seq<u64>, b: Seq<u64>, k: int)
    requires
        0 <= k,
        forall|j: int| 0 <= j < k ==> part_at(a, j) == part_at(b, j),
    ensures
        (forall|j: int| 0 <= j ==> #[trigger] part_at(a, j) == part_at(b, j)) || parts_newer(a, b)
            || parts_newer(b, a),
    decreases (if a.len() > b.len() {
        a.len()
    } else {
        b.len()
    }) - k,
{
    let m: int = if a.len() > b.len() {
        a.len() as int
    } else {
        b.len() as int
    };
    if k >= m {
        assert forall|j: int| 0 <= j implies #[trigger] part_at(a, j) == part_at(b, j) by {
            if j >= k {
                assert(part_at(a, j) == 0 && part_at(b, j) == 0);
            }
        }
    } else if part_at(a, k) == part_at(b, k) {
        lemma_first_difference(a, b, k + 1);
    } else if part_at(a, k) > part_at(b, k) {
        assert(parts_newer(a, b));
    } else {
        assert(parts_newer(b, a));
    }
}

/// Numeric versions are ordered place by place, missing places counting as
/// 0: of two such versions one is newer than the other, or they agree in every
/// place and neither is newer.
pub proof fn lemma_numeric_versions_are_ordered(a: Seq<char>, b: Seq<char>)
    requires
        spec_parse_numeric_version(normalized_version(a)) is Some,
        spec_parse_numeric_version(normalized_version(b)) is Some,
    ensures
        ({
            let pa = spec_parse_numeric_version(normalized_version(a))->Some_0;
            let pb = spec_parse_numeric_version(normalized_version(b))->Some_0;
            let same = forall|j: int| 0 <= j ==> #[trigger] part_at(pa, j) == part_at(pb, j);
            &&& spec_is_newer_version(a, b) || spec_is_newer_version(b, a) || same
            &&& same ==> !spec_is_newer_version(a, b) && !spec_is_newer_version(b, a)
        }),
{
    let pa = spec_parse_numeric_version(normalized_version(a))->Some_0;
    let pb = spec_parse_numeric_version(normalized_version(b))->Some_0;
    lemma_first_difference(pa, pb, 0);
    if forall|j: int| 0 <= j ==> #[trigger] part_at(pa, j) == part_at(pb, j) {
        if parts_newer(pa, pb) {
            let i = choose|i: int|
                #![trigger part_at(pa, i)]
                0 <= i && (i < pa.len() || i < pb.len()) && part_at(pa, i) > part_at(pb, i)
                    && forall|j: int| 0 <= j < i ==> part_at(pa, j) == part_at(pb, j);
            assert(part_at(pa, i) == part_at(pb, i));
        }
        if parts_newer(pb, pa) {
            let i = choose|i: int|
                #![trigger part_at(pb, i)]
                0 <= i && (i < pb.len() || i < pa.len()) && part_at(pb, i) > part_at(pa, i)
                    && forall|j: int| 0 <= j < i ==> part_at(pb, j) == part_at(pa, j);
            assert(part_at(pa, i) == part_at(pb, i));
        }
    }
}

// ---------------------------------------------------------------------------
// Laws of the comparison and of the cleaning
// ---------------------------------------------------------------------------
/// No version is newer than itself.
pub proof fn lemma_not_newer_than_itself(v: Seq<char>)
    ensures
        !spec_is_newer_version(v, v),
{
    let n = normalized_version(v);
    match spec_parse_numeric_version(n) {
        Some(p) => {
            if parts_newer(p, p) {
                let i = choose|i: int|
                    #![trigger part_at(p, i)]
                    0 <= i && (i < p.len() || i < p.len()) && part_at(p, i) > part_at(p, i)
                        && forall|j: int| 0 <= j < i ==> part_at(p, j) == part_at(p, j);
                assert(false);
            }
        },
        None => {},
    }
}

/// Between two numeric versions, at most one is newer than the other.
pub proof fn lemma_newer_is_asymmetric(a: Seq<char>, b: Seq<char>)
    requires
        spec_parse_numeric_version(normalized_version(a)) is Some,
        spec_parse_numeric_version(normalized_version(b)) is Some,
        spec_is_newer_version(a, b),
    ensures
        !spec_is_newer_version(b, a),
{
    let pa = spec_parse_numeric_version(normalized_version(a))->Some_0;
    let pb = spec_parse_numeric_version(normalized_version(b))->Some_0;
    let i = choose|i: int|
        #![trigger part_at(pa, i)]
        0 <= i && (i < pa.len() || i < pb.len()) && part_at(pa, i) > part_at(pb, i) && forall|
            j: int,
        | 0 <= j < i ==> part_at(pa, j) == part_at(pb, j);
    if parts_newer(pb, pa) {
        let k = choose|k: int|
            #![trigger part_at(pb, k)]
            0 <= k && (k < pb.len() || k < pa.len()) && part_at(pb, k) > part_at(pa, k)
                && forall|j: int| 0 <= j < k ==> part_at(pb, j) == part_at(pa, j);
        if i < k {
            assert(part_at(pb, i) == part_at(pa, i));
        } else if k < i {
            assert(part_at(pa, k) == part_at(pb, k));
        }
        assert(false);
    }
}

proof fn lemma_version_text_untouched(n: Seq<char>)
    requires
        n.len() > 0,
        n[0] != 'v',
        forall|i: int| 0 <= i < n.len() ==> #[trigger] is_version_char(n[i]),
    ensures
        normalized_version(n) == n,
{
    assert(is_version_char(n[0]));
    assert(is_version_char(n[n.len() - 1]));
    lemma_count_leading_is(n, crate::text::space_pred(), 0);
    assert(n.skip(0) =~= n);
    crate::text::lemma_count_trailing_is(n, crate::text::space_pred(), 0);
    assert(n.take(n.len() as int) =~= n);
    assert(trim(n) == n);
    lemma_count_leading_is(n, crate::text::is_char('v'), 0);
}

/// Cleaning an accepted version again gives it back unchanged.
pub proof fn lemma_sanitize_version_idempotent(v: Seq<char>)
    requires
        spec_sanitize_version(v) is Ok,
    ensures
        spec_sanitize_version(spec_sanitize_version(v)->Ok_0) == spec_sanitize_version(v),
{
    let t = trim(v);
    let n = normalized_version(v);
    lemma_count_leading_bounds(t, crate::text::is_char('v'));
    let c = count_leading(t, crate::text::is_char('v'));
    assert(n[0] == t[c as int]);
    lemma_version_text_untouched(n);
}

// ---------------------------------------------------------------------------
// Checking for and installing an update
// ---------------------------------------------------------------------------
pub const DEFAULT_DOWNLOADS_ROOT_URL: &'static str = "https://downloads.yanklog.com";

pub const DEFAULT_LINUX_INSTALL_SCRIPT_URL: &'static str = "https://downloads.yanklog.com/install.sh";

pub const DEFAULT_MACOS_INSTALL_SCRIPT_URL: &'static str = "https://downloads.yanklog.com/install-macos.sh";

pub open spec fn platform_dir(platform: Platform) -> Seq<char> {
    match platform {
        Platform::Linux => "linux"@,
        Platform::MacOS => "macos"@,
    }
}

pub open spec fn spec_downloads_base_url(
    platform: Platform,
    platform_base: Option<Seq<char>>,
    root: Option<Seq<char>>,
) -> Seq<char> {
    match platform_base {
        Some(base) => strip_trailing(base, '/'),
        None => {
            let r = match root {
                Some(r) => r,
                None => DEFAULT_DOWNLOADS_ROOT_URL@,
            };
            strip_trailing(r, '/') + "/"@ + platform_dir(platform)
        },
    }
}

/// Where a platform's downloads live: the platform's own base address when one
/// is set, else the root address (or the default one) with the platform's
/// directory; trailing slashes are dropped.
pub fn downloads_base_url(
    platform: Platform,
    platform_base: Option<String>,
    root: Option<String>,
) -> (r: String)
    ensures
        r@ == spec_downloads_base_url(platform, opt_view(platform_base), opt_view(root)),
{
    match platform_base {
        Some(base) => {
            let chars = chars_of(base.as_str());
            let stripped = strip_trailing_char(chars.as_slice(), '/');
            string_of(stripped.as_slice())
        },
        None => {
            let root_text = match root {
                Some(r) => r,
                None => String::from_str(DEFAULT_DOWNLOADS_ROOT_URL),
            };
            let chars = chars_of(root_text.as_str());
            let stripped = strip_trailing_char(chars.as_slice(), '/');
            let mut out = string_of(stripped.as_slice());
            out.append("/");
            match platform {
                Platform::Linux => out.append("linux"),
                Platform::MacOS => out.append("macos"),
            }
            out
        },
    }
}

pub open spec fn spec_latest_version_url(platform: Platform, base: Seq<char>) -> Seq<char> {
    match platform {
        Platform::Linux => base + "/latest-version.txt"@,
        Platform::MacOS => base + "/latest-macos-version.txt"@,
    }
}

/// The address of the text file that names a platform's latest release.
pub fn latest_version_url(platform: Platform, base: &str) -> (r: String)
    ensures
        r@ == spec_latest_version_url(platform, base@),
{
    let mut out = String::from_str(base);
    match platform {
        Platform::Linux => out.append("/latest-version.txt"),
        Platform::MacOS => out.append("/latest-macos-version.txt"),
    }
    out
}

/// Where to look for the latest version, or `None` when no check is made
/// (development builds, or checks turned off).
pub fn update_check_url(
    profile: &Profile,
    checks_disabled: bool,
    platform_base: Option<String>,
    root: Option<String>,
) -> (r: Option<String>)
    ensures
        (profile.dev || checks_disabled) ==> r is None,
        !(profile.dev || checks_disabled) ==> (r matches Some(u) && u@ == spec_latest_version_url(
            profile.platform,
            spec_downloads_base_url(profile.platform, opt_view(platform_base), opt_view(root)),
        )),
{
    if profile.dev || checks_disabled {
        return None;
    }
    let base = downloads_base_url(profile.platform, platform_base, root);
    Some(latest_version_url(profile.platform, base.as_str()))
}

pub open spec fn spec_newer_release(downloaded: Seq<char>, current: Seq<char>) -> Result<
    Option<Seq<char>>,
    Seq<char>,
> {
    match spec_sanitize_version(downloaded) {
        Err(e) => Err(e),
        Ok(latest) => if spec_is_newer_version(latest, current) {
            Ok(Some(latest))
        } else {
            Ok(None)
        },
    }
}

pub open spec fn opt_result_view(r: Result<Option<String>, String>) -> Result<
    Option<Seq<char>>,
    Seq<char>,
> {
    match r {
        Ok(Some(s)) => Ok(Some(s@)),
        Ok(None) => Ok(None),
        Err(e) => Err(e@),
    }
}

/// What a downloaded "latest version" text means for the running version:
/// the cleaned latest version when it is newer, `None` when it is not, or the
/// reason the text is not a version.
pub fn newer_release(downloaded: &str, current_version: &str) -> (r: Result<
    Option<String>,
    String,
>)
    ensures
        opt_result_view(r) == spec_newer_release(downloaded@, current_version@),
{
    let latest = match sanitize_version(downloaded) {
        Ok(v) => v,
        Err(e) => return Err(e),
    };
    if is_newer_version(latest.as_str(), current_version) {
        Ok(Some(latest))
    } else {
        Ok(None)
    }
}

pub open spec fn spec_installer_url(platform: Platform, installer_override: Option<Seq<char>>) -> Seq<
    char,
> {
    match installer_override {
        Some(u) => u,
        None => match platform {
            Platform::Linux => DEFAULT_LINUX_INSTALL_SCRIPT_URL@,
            Platform::MacOS => DEFAULT_MACOS_INSTALL_SCRIPT_URL@,
        },
    }
}

/// What an install request asks for: the cleaned version and the installer
/// script's address; development builds are refused.
pub fn prepare_install(
    profile: &Profile,
    version: &str,
    installer_override: Option<String>,
) -> (r: Result<(String, String), String>)
    ensures
        profile.dev ==> (r matches Err(e) && e@ == "Updates are disabled for yanklog dev builds."@),
        !profile.dev ==> match spec_sanitize_version(version@) {
            Err(msg) => (r matches Err(e) && e@ == msg),
            Ok(v) => (r matches Ok((rv, url)) && rv@ == v && url@ == spec_installer_url(
                profile.platform,
                opt_view(installer_override),
            )),
        },
{
    if profile.dev {
        return Err(String::from_str("Updates are disabled for yanklog dev builds."));
    }
    let version = match sanitize_version(version) {
        Ok(v) => v,
        Err(e) => return Err(e),
    };
    let url = match installer_override {
        Some(u) => u,
        None => match profile.platform {
            Platform::Linux => String::from_str(DEFAULT_LINUX_INSTALL_SCRIPT_URL),
            Platform::MacOS => String::from_str(DEFAULT_MACOS_INSTALL_SCRIPT_URL),
        },
    };
    Ok((version, url))
}

pub open spec fn spec_installer_arguments(platform: Platform, version: Seq<char>, dir: Seq<char>) -> Seq<
    Seq<char>,
> {
    seq![
        "-s"@,
        "--"@,
        "--version"@,
        version,
        "--dir"@,
        dir,
        match platform {
            Platform::Linux => "--no-path-update"@,
            Platform::MacOS => "--no-launch"@,
        },
    ]
}

/// The arguments given to `sh` to run the installer script from its input.
pub fn installer_arguments(platform: Platform, version: &str, install_dir: &str) -> (r: Vec<
    String,
>)
    ensures
        strings_view(r@) == spec_installer_arguments(platform, version@, install_dir@),
{
    let mut args: Vec<String> = Vec::new();
    args.push(String::from_str("-s"));
    args.push(String::from_str("--"));
    args.push(String::from_str("--version"));
    args.push(String::from_str(version));
    args.push(String::from_str("--dir"));
    args.push(String::from_str(install_dir));
    match platform {
        Platform::Linux => args.push(String::from_str("--no-path-update")),
        Platform::MacOS => args.push(String::from_str("--no-launch")),
    }
    assert(strings_view(args@) =~= spec_installer_arguments(platform, version@, install_dir@));
    args
}

pub open spec fn spec_installer_outcome(
    success: bool,
    stdout: Seq<char>,
    stderr: Seq<char>,
    status: Seq<char>,
) -> Result<Seq<char>, Seq<char>> {
    let out = trim(stdout);
    let err = trim(stderr);
    if success {
        Ok(out)
    } else if err.len() > 0 {
        Err(err)
    } else if out.len() > 0 {
        Err(out)
    } else {
        Err("Installer exited with status "@ + status)
    }
}

/// The result of a finished installer run: its trimmed output on success,
/// else its trimmed error output, its output, or its exit status.
pub fn installer_outcome(success: bool, stdout: &str, stderr: &str, status: &str) -> (r: Result<
    String,
    String,
>)
    ensures
        result_view(r) == spec_installer_outcome(success, stdout@, stderr@, status@),
{
    let oc = chars_of(stdout);
    let ec = chars_of(stderr);
    let out = trim_chars(oc.as_slice());
    let err = trim_chars(ec.as_slice());
    if success {
        return Ok(string_of(out.as_slice()));
    }
    if err.len() > 0 {
        Err(string_of(err.as_slice()))
    } else if out.len() > 0 {
        Err(string_of(out.as_slice()))
    } else {
        let mut message = String::from_str("Installer exited with status ");
        message.append(status);
        Err(message)
    }
}

pub open spec fn spec_install_dir(
    platform: Platform,
    appimage_dir: Option<Seq<char>>,
    app_bundle_dir: Option<Seq<char>>,
    exe_dir: Option<Seq<char>>,
    home: Option<Seq<char>>,
) -> Seq<char> {
    match appimage_dir {
        Some(dir) => dir,
        None => match platform {
            Platform::MacOS => match app_bundle_dir {
                Some(dir) => dir,
                None => match home {
                    Some(h) => joined_path(h, "Applications"@),
                    None => "~/Applications"@,
                },
            },
            Platform::Linux => match exe_dir {
                Some(dir) => dir,
                None => match home {
                    Some(h) => joined_path(h, ".local/bin"@),
                    None => "~/.local/bin"@,
                },
            },
        },
    }
}

/// Where an update is installed: the AppImage's directory when the app runs
/// from one; on macOS the directory holding the running `.app` bundle, else
/// `Applications` in the home directory; on Linux the running program's
/// directory, else `.local/bin` in the home directory. The arguments are the
/// directories that the environment gives, where it gives them.
pub fn choose_install_dir(
    platform: Platform,
    appimage_dir: Option<String>,
    app_bundle_dir: Option<String>,
    exe_dir: Option<String>,
    home: Option<String>,
) -> (r: String)
    ensures
        r@ == spec_install_dir(
            platform,
            opt_view(appimage_dir),
            opt_view(app_bundle_dir),
            opt_view(exe_dir),
            opt_view(home),
        ),
{
    if let Some(dir) = appimage_dir {
        return dir;
    }
    match platform {
        Platform::MacOS => match app_bundle_dir {
            Some(dir) => dir,
            None => match home {
                Some(h) => join_path(h.as_str(), "Applications"),
                None => String::from_str("~/Applications"),
            },
        },
        Platform::Linux => match exe_dir {
            Some(dir) => dir,
            None => match home {
                Some(h) => join_path(h.as_str(), ".local/bin"),
                None => String::from_str("~/.local/bin"),
            },
        },
    }
}

} // verus!
