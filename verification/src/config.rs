//! The user's settings, their defaults, and the rules that use them: which
//! clipboard texts are kept out of the history and how a text is previewed.
use vstd::prelude::*;

use crate::text::{
    ascii_lower, ascii_lowercase, chars_of, contains_chars, contains_seq, count_leading,
    count_trailing, is_space, lemma_count_leading_bounds, lemma_count_leading_is,
    lemma_count_trailing_bounds, lemma_count_trailing_is, lemma_split_by_nonempty, same_chars,
    space_pred, split_by, string_of, trim, trim_chars, unicode_lowercase, to_lowercase, space,
    digit, upper, lower, punctuation, contains_char, is_digit, is_upper, is_lower, is_punctuation, strings_view,
};

verus! {

// ---------------------------------------------------------------------------
// Settings
// ---------------------------------------------------------------------------
/// Quick picker settings. The picker's opacity is a floating-point number; it
/// is kept here as the bits of that `f64` (`f64::to_bits`), which the desktop
/// front end turns back into the number.
#[derive(Debug, Clone)]
pub struct Keybindings {
    pub quick_pick: String,
    pub quick_pick_items: usize,
    pub quick_pick_opacity_bits: u64,
}

#[derive(Debug, Clone, Copy, PartialEq, Eq, Structural)]
pub struct Retention {
    pub max_age_days: u32,
}

#[derive(Debug, Clone)]
pub struct Privacy {
    pub ignore_secret_like: bool,
    pub ignore_one_time_codes: bool,
    pub min_text_length: usize,
    pub max_text_length: usize,
    pub ignored_patterns: Vec<String>,
}

#[derive(Debug, Clone, Copy, PartialEq, Eq, Structural)]
pub enum ThemePreference {
    System,
    Light,
    Dark,
}

#[derive(Debug, Clone)]
pub struct Config {
    pub max_history_size: usize,
    pub poll_interval_ms: u64,
    pub max_preview_length: usize,
    pub window_width: i32,
    pub window_height: i32,
    pub launch_at_startup: bool,
    pub keybindings: Keybindings,
    pub retention: Retention,
    pub privacy: Privacy,
    pub theme: ThemePreference,
}

/// The bits of the `f64` 0.95, the default quick picker opacity.
pub const DEFAULT_QUICK_PICK_OPACITY_BITS: u64 = 0x3FEE_6666_6666_6666u64;

fn default_quick_pick() -> (r: String)
    ensures
        r@ == "Ctrl+Shift+V"@,
{
    String::from_str("Ctrl+Shift+V")
}

fn default_quick_pick_items() -> (r: usize)
    ensures
        r == 10,
{
    10
}

fn default_quick_pick_opacity_bits() -> (r: u64)
    ensures
        r == DEFAULT_QUICK_PICK_OPACITY_BITS,
{
    DEFAULT_QUICK_PICK_OPACITY_BITS
}

fn default_ignore_secret_like() -> (r: bool)
    ensures
        r,
{
    true
}

fn default_min_text_length() -> (r: usize)
    ensures
        r == 1,
{
    1
}

fn default_max_history_size() -> (r: usize)
    ensures
        r == 1000,
{
    1000
}

fn default_poll_interval_ms() -> (r: u64)
    ensures
        r == 500,
{
    500
}

fn default_max_preview_length() -> (r: usize)
    ensures
        r == 300,
{
    300
}

fn default_window_width() -> (r: i32)
    ensures
        r == 500,
{
    500
}

fn default_window_height() -> (r: i32)
    ensures
        r == 600,
{
    600
}

pub open spec fn is_default_keybindings(k: Keybindings) -> bool {
    &&& k.quick_pick@ == "Ctrl+Shift+V"@
    &&& k.quick_pick_items == 10
    &&& k.quick_pick_opacity_bits == DEFAULT_QUICK_PICK_OPACITY_BITS
}

pub open spec fn is_default_privacy(p: Privacy) -> bool {
    &&& p.ignore_secret_like
    &&& !p.ignore_one_time_codes
    &&& p.min_text_length == 1
    &&& p.max_text_length == 0
    &&& p.ignored_patterns@.len() == 0
}

pub open spec fn is_default_config(c: Config) -> bool {
    &&& c.max_history_size == 1000
    &&& c.poll_interval_ms == 500
    &&& c.max_preview_length == 300
    &&& c.window_width == 500
    &&& c.window_height == 600
    &&& !c.launch_at_startup
    &&& is_default_keybindings(c.keybindings)
    &&& c.retention.max_age_days == 0
    &&& is_default_privacy(c.privacy)
    &&& c.theme == ThemePreference::System
}

impl Default for Keybindings {
    fn default() -> (r: Self)
        ensures
            is_default_keybindings(r),
    {
        Self {
            quick_pick: default_quick_pick(),
            quick_pick_items: default_quick_pick_items(),
            quick_pick_opacity_bits: default_quick_pick_opacity_bits(),
        }
    }
}

impl Default for Retention {
    fn default() -> (r: Self)
        ensures
            r.max_age_days == 0,
    {
        Self { max_age_days: 0 }
    }
}

impl Default for Privacy {
    fn default() -> (r: Self)
        ensures
            is_default_privacy(r),
    {
        Self {
            ignore_secret_like: default_ignore_secret_like(),
            ignore_one_time_codes: false,
            min_text_length: default_min_text_length(),
            max_text_length: 0,
            ignored_patterns: Vec::new(),
        }
    }
}

impl Default for ThemePreference {
    fn default() -> (r: Self)
        ensures
            r == ThemePreference::System,
    {
        ThemePreference::System
    }
}

impl Default for Config {
    fn default() -> (r: Self)
        ensures
            is_default_config(r),
    {
        Self {
            max_history_size: default_max_history_size(),
            poll_interval_ms: default_poll_interval_ms(),
            max_preview_length: default_max_preview_length(),
            window_width: default_window_width(),
            window_height: default_window_height(),
            launch_at_startup: false,
            keybindings: Keybindings::default(),
            retention: Retention::default(),
            privacy: Privacy::default(),
            theme: ThemePreference::default(),
        }
    }
}

// ---------------------------------------------------------------------------
// Theme names
// ---------------------------------------------------------------------------
pub open spec fn theme_name(t: ThemePreference) -> Seq<char> {
    match t {
        ThemePreference::System => "system"@,
        ThemePreference::Light => "light"@,
        ThemePreference::Dark => "dark"@,
    }
}

/// A theme from its name: trimmed and compared without regard to ASCII case;
/// anything but `light` and `dark` means the system theme.
pub open spec fn theme_from_name(s: Seq<char>) -> ThemePreference {
    let n = ascii_lower(trim(s));
    if n == "light"@ {
        ThemePreference::Light
    } else if n == "dark"@ {
        ThemePreference::Dark
    } else {
        ThemePreference::System
    }
}

impl ThemePreference {
    pub fn as_str(self) -> (r: &'static str)
        ensures
            r@ == theme_name(self),
    {
        match self {
            Self::System => "system",
            Self::Light => "light",
            Self::Dark => "dark",
        }
    }

    /// The theme that a name stands for.
    pub fn from_name(value: &str) -> (r: Self)
        ensures
            r == theme_from_name(value@),
    {
        let chars = chars_of(value);
        let trimmed = trim_chars(chars.as_slice());
        let lowered = ascii_lowercase(trimmed.as_slice());
        let light = chars_of("light");
        let dark = chars_of("dark");
        if same_chars(lowered.as_slice(), light.as_slice()) {
            Self::Light
        } else if same_chars(lowered.as_slice(), dark.as_slice()) {
            Self::Dark
        } else {
            Self::System
        }
    }
}

impl<'a> From<&'a str> for ThemePreference {
    fn from(value: &'a str) -> (r: Self) {
        Self::from_name(value)
    }
}

impl<'a> vstd::std_specs::convert::FromSpecImpl<&'a str> for ThemePreference {
    open spec fn obeys_from_spec() -> bool {
        true
    }

    open spec fn from_spec(v: &'a str) -> Self {
        theme_from_name(v@)
    }
}

/// A trimmed text of lower-case ASCII letters is its own name.
proof fn lemma_plain_name(n: Seq<char>)
    requires
        n.len() > 0,
        forall|i: int| 0 <= i < n.len() ==> #[trigger] n[i] >= 'a' && n[i] <= 'z',
    ensures
        ascii_lower(trim(n)) == n,
{
    assert(n[0] >= 'a');
    assert(n[n.len() - 1] >= 'a');
    lemma_count_leading_is(n, space_pred(), 0);
    assert(n.skip(0) =~= n);
    lemma_count_trailing_is(n, space_pred(), 0);
    assert(n.take(n.len() as int) =~= n);
    assert(ascii_lower(n) =~= n);
}

/// Reading a theme's own name gives the theme back.
pub proof fn lemma_theme_name_round_trip(t: ThemePreference)
    ensures
        theme_from_name(theme_name(t)) == t,
{
    reveal_strlit("system");
    reveal_strlit("light");
    reveal_strlit("dark");
    lemma_plain_name(theme_name(t));
    if t == ThemePreference::System {
        assert("system"@ != "light"@) by {
            assert("system"@[0] != "light"@[0]);
        }
        assert("system"@ != "dark"@) by {
            assert("system"@[0] != "dark"@[0]);
        }
    }
    if t == ThemePreference::Dark {
        assert("dark"@ != "light"@) by {
            assert("dark"@[0] != "light"@[0]);
        }
    }
}

// ---------------------------------------------------------------------------
// Previews
// ---------------------------------------------------------------------------
/// A text on one line: each line feed becomes a space and carriage returns go.
pub open spec fn one_line(s: Seq<char>) -> Seq<char>
    decreases s.len(),
{
    if s.len() == 0 {
        Seq::<char>::empty()
    } else {
        let prev = one_line(s.drop_last());
        if s.last() == '\n' {
            prev.push(' ')
        } else if s.last() == '\r' {
            prev
        } else {
            prev.push(s.last())
        }
    }
}

/// The one-line text, cut to `max` characters followed by `...` when longer.
pub open spec fn spec_truncate_preview(text: Seq<char>, max: nat) -> Seq<char> {
    let flat = one_line(text);
    if flat.len() > max {
        flat.take(max as int) + "..."@
    } else {
        flat
    }
}

proof fn lemma_one_line_has_no_breaks(s: Seq<char>)
    ensures
        !one_line(s).contains('\n'),
        !one_line(s).contains('\r'),
        one_line(s).len() <= s.len(),
    decreases s.len(),
{
    if s.len() > 0 {
        lemma_one_line_has_no_breaks(s.drop_last());
        let prev = one_line(s.drop_last());
        assert forall|c: char| (c == '\n' || c == '\r') implies !one_line(s).contains(c) by {
            if one_line(s).contains(c) {
                let k = choose|k: int| 0 <= k < one_line(s).len() && one_line(s)[k] == c;
                if k < prev.len() {
                    assert(prev[k] == c);
                }
            }
        }
    }
}

/// A preview of `text` on one line, at most `max_chars` characters and `...`.
pub fn truncate_preview(text: &str, max_chars: usize) -> (r: String)
    ensures
        r@ == spec_truncate_preview(text@, max_chars as nat),
        !r@.contains('\n'),
        !r@.contains('\r'),
{
    let chars = chars_of(text);
    let mut flat: Vec<char> = Vec::new();
    let mut i: usize = 0;
    while i < chars.len()
        invariant
            i <= chars@.len(),
            flat@ == one_line(chars@.take(i as int)),
        decreases chars@.len() - i,
    {
        let c = chars[i];
        assert(chars@.take(i + 1).drop_last() =~= chars@.take(i as int));
        if c == '\n' {
            flat.push(' ');
        } else if c != '\r' {
            flat.push(c);
        }
        i = i + 1;
    }
    assert(chars@.take(chars@.len() as int) =~= chars@);
    proof {
        lemma_one_line_has_no_breaks(text@);
        reveal_strlit("...");
    }
    if flat.len() > max_chars {
        let mut out = string_of(crate::text::sub_chars(flat.as_slice(), 0, max_chars).as_slice());
        let ghost head = out@;
        out.append("...");
        proof {
            assert(!out@.contains('\n')) by {
                if out@.contains('\n') {
                    let k = choose|k: int| 0 <= k < out@.len() && out@[k] == '\n';
                    if k < head.len() {
                        assert(flat@[k] == '\n');
                    }
                }
            }
            assert(!out@.contains('\r')) by {
                if out@.contains('\r') {
                    let k = choose|k: int| 0 <= k < out@.len() && out@[k] == '\r';
                    if k < head.len() {
                        assert(flat@[k] == '\r');
                    }
                }
            }
        }
        out
    } else {
        string_of(flat.as_slice())
    }
}

// ---------------------------------------------------------------------------
// Ignored patterns
// ---------------------------------------------------------------------------
/// `items` joined with `sep` between neighbours (`[T]::join`).
pub open spec fn join_with(items: Seq<Seq<char>>, sep: Seq<char>) -> Seq<char>
    decreases items.len(),
{
    if items.len() == 0 {
        Seq::<char>::empty()
    } else if items.len() == 1 {
        items[0]
    } else {
        join_with(items.drop_last(), sep) + sep + items.last()
    }
}

pub open spec fn is_pattern_separator(c: char) -> bool {
    c == ',' || c == '\n'
}

pub open spec fn separator_pred() -> spec_fn(char) -> bool {
    |c: char| is_pattern_separator(c)
}

/// The trimmed pieces that are not empty, in order.
pub open spec fn kept_pieces(pieces: Seq<Seq<char>>) -> Seq<Seq<char>>
    decreases pieces.len(),
{
    if pieces.len() == 0 {
        Seq::<Seq<char>>::empty()
    } else {
        let prev = kept_pieces(pieces.drop_last());
        let t = trim(pieces.last());
        if t.len() > 0 {
            prev.push(t)
        } else {
            prev
        }
    }
}

/// The patterns that a comma- or line-separated text names.
pub open spec fn patterns_from_text(text: Seq<char>) -> Seq<Seq<char>> {
    kept_pieces(split_by(text, separator_pred()))
}

/// A pattern as the settings hold one: not empty, no white space at either
/// end, and no separator inside.
pub open spec fn is_clean_pattern(p: Seq<char>) -> bool {
    &&& p.len() > 0
    &&& !is_space(p[0])
    &&& !is_space(p.last())
    &&& forall|i: int| 0 <= i < p.len() ==> !is_pattern_separator(#[trigger] p[i])
}

proof fn lemma_trim_of_clean(p: Seq<char>, pad: nat)
    requires
        is_clean_pattern(p),
        pad <= 1,
    ensures
        trim((if pad == 1 {
            seq![' ']
        } else {
            Seq::<char>::empty()
        }) + p) == p,
{
    let q = (if pad == 1 {
        seq![' ']
    } else {
        Seq::<char>::empty()
    }) + p;
    assert(q[pad as int] == p[0]);
    assert forall|k: int| 0 <= k < pad implies #[trigger] space_pred()(q[k]) by {
        assert(q[k] == ' ');
    }
    lemma_count_leading_is(q, space_pred(), pad as int);
    let t = q.skip(pad as int);
    assert(t =~= p);
    lemma_count_trailing_is(p, space_pred(), 0);
    assert(p.take(p.len() as int) =~= p);
}

/// Pieces split from a text with no separator: the first pieces of the prefix
/// stay, and the text joins the last one.
proof fn lemma_split_append_plain(x: Seq<char>, y: Seq<char>)
    requires
        forall|i: int| 0 <= i < y.len() ==> !is_pattern_separator(#[trigger] y[i]),
    ensures
        split_by(x + y, separator_pred()).len() == split_by(x, separator_pred()).len(),
        split_by(x + y, separator_pred()).drop_last() == split_by(x, separator_pred()).drop_last(),
        split_by(x + y, separator_pred()).last() == split_by(x, separator_pred()).last() + y,
    decreases y.len(),
{
    lemma_split_by_nonempty(x, separator_pred());
    if y.len() == 0 {
        assert(x + y =~= x);
        assert(split_by(x, separator_pred()).last() + y =~= split_by(x, separator_pred()).last());
    } else {
        let y0 = y.drop_last();
        assert forall|i: int| 0 <= i < y0.len() implies !is_pattern_separator(#[trigger] y0[i]) by {
            assert(y0[i] == y[i]);
        }
        lemma_split_append_plain(x, y0);
        assert((x + y).drop_last() =~= x + y0);
        assert((x + y).last() == y.last());
        assert(!is_pattern_separator(y[y.len() - 1]));
        let prev = split_by(x + y0, separator_pred());
        lemma_split_by_nonempty(x + y0, separator_pred());
        let now = split_by(x + y, separator_pred());
        assert(now == prev.update(prev.len() - 1, prev.last().push(y.last())));
        assert(now.drop_last() =~= prev.drop_last());
        assert(now.last() =~= split_by(x, separator_pred()).last() + y);
    }
}

proof fn lemma_kept_pieces_push(pieces: Seq<Seq<char>>, last: Seq<char>)
    ensures
        kept_pieces(pieces.push(last)) == (if trim(last).len() > 0 {
            kept_pieces(pieces).push(trim(last))
        } else {
            kept_pieces(pieces)
        }),
{
    assert(pieces.push(last).drop_last() =~= pieces);
}

/// Joining clean patterns with `, ` and reading the text back gives the same
/// patterns.
pub proof fn lemma_patterns_text_round_trip(patterns: Seq<Seq<char>>)
    requires
        forall|i: int| 0 <= i < patterns.len() ==> is_clean_pattern(#[trigger] patterns[i]),
    ensures
        patterns_from_text(join_with(patterns, ", "@)) == patterns,
    decreases patterns.len(),
{
    reveal_strlit(", ");
    if patterns.len() == 0 {
        assert(kept_pieces(seq![Seq::<char>::empty()]) =~= Seq::<Seq<char>>::empty()) by {
            lemma_kept_pieces_push(Seq::<Seq<char>>::empty(), Seq::<char>::empty());
            lemma_count_leading_is(Seq::<char>::empty(), space_pred(), 0);
            assert(Seq::<Seq<char>>::empty().push(Seq::<char>::empty()) =~= seq![
                Seq::<char>::empty(),
            ]);
        }
    } else if patterns.len() == 1 {
        let p = patterns[0];
        assert(is_clean_pattern(p));
        lemma_split_append_plain(Seq::<char>::empty(), p);
        assert(Seq::<char>::empty() + p =~= p);
        let pieces = split_by(p, separator_pred());
        assert(split_by(Seq::<char>::empty(), separator_pred()) =~= seq![Seq::<char>::empty()]);
        assert(pieces =~= seq![p]);
        assert(seq![p] =~= Seq::<Seq<char>>::empty().push(p));
        lemma_kept_pieces_push(Seq::<Seq<char>>::empty(), p);
        lemma_trim_of_clean(p, 0);
        assert(Seq::<char>::empty() + p =~= p);
        assert(Seq::<Seq<char>>::empty().push(p) =~= patterns);
    } else {
        let rest = patterns.drop_last();
        let p = patterns.last();
        assert forall|i: int| 0 <= i < rest.len() implies is_clean_pattern(#[trigger] rest[i]) by {
            assert(rest[i] == patterns[i]);
        }
        lemma_patterns_text_round_trip(rest);
        let x = join_with(rest, ", "@);
        let padded = seq![' '] + p;
        assert(is_clean_pattern(patterns[patterns.len() - 1]));
        assert forall|i: int| 0 <= i < padded.len() implies !is_pattern_separator(
            #[trigger] padded[i],
        ) by {
            if i > 0 {
                assert(padded[i] == p[i - 1]);
            }
        }
        let xc = x.push(',');
        assert(join_with(patterns, ", "@) =~= xc + padded);
        assert(xc.drop_last() =~= x);
        let before = split_by(x, separator_pred());
        lemma_split_by_nonempty(x, separator_pred());
        assert(split_by(xc, separator_pred()) == before.push(Seq::<char>::empty()));
        lemma_split_append_plain(xc, padded);
        let all = split_by(xc + padded, separator_pred());
        assert(all.drop_last() =~= before);
        assert(all.last() =~= padded);
        assert(all =~= before.push(padded));
        lemma_kept_pieces_push(before, padded);
        lemma_trim_of_clean(p, 1);
        assert(kept_pieces(before).push(p) =~= patterns);
    }
}

/// Splitting never yields a piece that holds a separator.
proof fn lemma_pieces_have_no_separator(s: Seq<char>)
    ensures
        forall|k: int, i: int|
            0 <= k < split_by(s, separator_pred()).len() && 0 <= i < split_by(
                s,
                separator_pred(),
            )[k].len() ==> !is_pattern_separator(#[trigger] split_by(s, separator_pred())[k][i]),
    decreases s.len(),
{
    lemma_split_by_nonempty(s, separator_pred());
    if s.len() > 0 {
        lemma_pieces_have_no_separator(s.drop_last());
        lemma_split_by_nonempty(s.drop_last(), separator_pred());
        let prev = split_by(s.drop_last(), separator_pred());
        let now = split_by(s, separator_pred());
        assert forall|k: int, i: int|
            0 <= k < now.len() && 0 <= i < now[k].len() implies !is_pattern_separator(
            #[trigger] now[k][i],
        ) by {
            if k < prev.len() && !(k == prev.len() - 1 && !is_pattern_separator(s.last())) {
                assert(now[k] == prev[k]);
            } else if k == prev.len() - 1 {
                if i < prev[k].len() {
                    assert(now[k][i] == prev[k][i]);
                }
            }
        }
    }
}

/// Trimming a separator-free piece gives a clean pattern or nothing.
proof fn lemma_trimmed_piece_is_clean(piece: Seq<char>)
    requires
        forall|i: int| 0 <= i < piece.len() ==> !is_pattern_separator(#[trigger] piece[i]),
        trim(piece).len() > 0,
    ensures
        is_clean_pattern(trim(piece)),
{
    let a = count_leading(piece, space_pred());
    lemma_count_leading_bounds(piece, space_pred());
    let t0 = piece.skip(a as int);
    let b = count_trailing(t0, space_pred());
    lemma_count_trailing_bounds(t0, space_pred());
    let t = trim(piece);
    assert(t == t0.take(t0.len() - b));
    assert(t[0] == t0[0]);
    assert(t0[0] == piece[a as int]);
    assert(t.last() == t0[t0.len() - b - 1]);
    assert forall|i: int| 0 <= i < t.len() implies !is_pattern_separator(#[trigger] t[i]) by {
        assert(t[i] == piece[i + a]);
    }
}

pub open spec fn keeps_all_but_patterns(before: Config, after: Config) -> bool {
    &&& after.max_history_size == before.max_history_size
    &&& after.poll_interval_ms == before.poll_interval_ms
    &&& after.max_preview_length == before.max_preview_length
    &&& after.window_width == before.window_width
    &&& after.window_height == before.window_height
    &&& after.launch_at_startup == before.launch_at_startup
    &&& after.keybindings == before.keybindings
    &&& after.retention == before.retention
    &&& after.theme == before.theme
    &&& after.privacy.ignore_secret_like == before.privacy.ignore_secret_like
    &&& after.privacy.ignore_one_time_codes == before.privacy.ignore_one_time_codes
    &&& after.privacy.min_text_length == before.privacy.min_text_length
    &&& after.privacy.max_text_length == before.privacy.max_text_length
}

impl Config {
    /// A one-line preview no longer than the configured preview length.
    pub fn truncate_for_preview(&self, text: &str) -> (r: String)
        ensures
            r@ == spec_truncate_preview(text@, self.max_preview_length as nat),
            !r@.contains('\n'),
            !r@.contains('\r'),
    {
        truncate_preview(text, self.max_preview_length)
    }

    /// The ignored patterns as one text, separated by `, `.
    pub fn ignored_patterns_text(&self) -> (r: String)
        ensures
            r@ == join_with(strings_view(self.privacy.ignored_patterns@), ", "@),
    {
        let pats = &self.privacy.ignored_patterns;
        let mut out = String::new();
        let mut i: usize = 0;
        let ghost all = strings_view(pats@);
        while i < pats.len()
            invariant
                i <= pats@.len(),
                all == strings_view(pats@),
                out@ == join_with(all.take(i as int), ", "@),
            decreases pats@.len() - i,
        {
            if i > 0 {
                out.append(", ");
            }
            out.append(pats[i].as_str());
            assert(all.take(i + 1).drop_last() =~= all.take(i as int));
            i = i + 1;
        }
        assert(all.take(pats@.len() as int) =~= all);
        out
    }

    /// Replaces the ignored patterns by those that a comma- or line-separated
    /// text names: each piece trimmed, empty pieces dropped.
    pub fn set_ignored_patterns_text(&mut self, patterns: &str)
        ensures
            strings_view(final(self).privacy.ignored_patterns@) == patterns_from_text(patterns@),
            forall|i: int|
                0 <= i < final(self).privacy.ignored_patterns@.len() ==> is_clean_pattern(
                    #[trigger] final(self).privacy.ignored_patterns@[i]@,
                ),
            keeps_all_but_patterns(*old(self), *final(self)),
    {
        let chars = chars_of(patterns);
        let ghost s = chars@;
        let mut out: Vec<String> = Vec::new();
        let mut piece: Vec<char> = Vec::new();
        let mut i: usize = 0;
        proof {
            lemma_pieces_have_no_separator(s);
        }
        while i < chars.len()
            invariant
                i <= s.len(),
                s == chars@,
                split_by(s.take(i as int), separator_pred()).len() >= 1,
                split_by(s.take(i as int), separator_pred()).last() == piece@,
                strings_view(out@) == kept_pieces(
                    split_by(s.take(i as int), separator_pred()).drop_last(),
                ),
                forall|k: int| 0 <= k < piece@.len() ==> !is_pattern_separator(#[trigger] piece@[k]),
                forall|k: int|
                    0 <= k < out@.len() ==> is_clean_pattern(#[trigger] out@[k]@),
            decreases s.len() - i,
        {
            let c = chars[i];
            let ghost before = split_by(s.take(i as int), separator_pred());
            assert(s.take(i + 1).drop_last() =~= s.take(i as int));
            if c == ',' || c == '\n' {
                let t = trim_chars(piece.as_slice());
                proof {
                    lemma_kept_pieces_push(before.drop_last(), before.last());
                    assert(before.drop_last().push(before.last()) =~= before);
                    let after = split_by(s.take(i + 1), separator_pred());
                    assert(after == before.push(Seq::<char>::empty()));
                    assert(after.drop_last() =~= before);
                }
                if t.len() > 0 {
                    proof {
                        lemma_trimmed_piece_is_clean(piece@);
                    }
                    let text = string_of(t.as_slice());
                    out.push(text);
                    assert(strings_view(out@) =~= strings_view(out@.drop_last()).push(text@));
                }
                piece = Vec::new();
            } else {
                piece.push(c);
                proof {
                    let after = split_by(s.take(i + 1), separator_pred());
                    assert(after.drop_last() =~= before.drop_last());
                    assert(after.last() =~= piece@);
                }
            }
            i = i + 1;
        }
        assert(s.take(s.len() as int) =~= s);
        let t = trim_chars(piece.as_slice());
        proof {
            let all = split_by(s, separator_pred());
            lemma_kept_pieces_push(all.drop_last(), all.last());
            assert(all.drop_last().push(all.last()) =~= all);
        }
        if t.len() > 0 {
            proof {
                lemma_trimmed_piece_is_clean(piece@);
            }
            let text = string_of(t.as_slice());
            out.push(text);
            assert(strings_view(out@) =~= strings_view(out@.drop_last()).push(text@));
        }
        self.privacy.ignored_patterns = out;
    }
}

/// Reading back the text of the ignored patterns changes nothing: setting the
/// patterns from `ignored_patterns_text` gives the same list whenever the list
/// was itself set from a text.
pub proof fn lemma_ignored_patterns_text_round_trip(config: Config)
    requires
        forall|i: int|
            0 <= i < config.privacy.ignored_patterns@.len() ==> is_clean_pattern(
                #[trigger] config.privacy.ignored_patterns@[i]@,
            ),
    ensures
        patterns_from_text(join_with(strings_view(config.privacy.ignored_patterns@), ", "@))
            == strings_view(config.privacy.ignored_patterns@),
{
    let v = strings_view(config.privacy.ignored_patterns@);
    assert forall|i: int| 0 <= i < v.len() implies is_clean_pattern(#[trigger] v[i]) by {
        assert(v[i] == config.privacy.ignored_patterns@[i]@);
    }
    lemma_patterns_text_round_trip(v);
}

// ---------------------------------------------------------------------------
// Texts kept out of the history
// ---------------------------------------------------------------------------
/// How many characters of `s` are not white space.
pub open spec fn non_space_count(s: Seq<char>) -> nat
    decreases s.len(),
{
    if s.len() == 0 {
        0
    } else {
        non_space_count(s.drop_last()) + if is_space(s.last()) {
            0nat
        } else {
            1nat
        }
    }
}

/// Six or eight digits, white space aside (a one-time code).
pub open spec fn spec_looks_like_one_time_code(s: Seq<char>) -> bool {
    &&& (non_space_count(s) == 6 || non_space_count(s) == 8)
    &&& forall|i: int| 0 <= i < s.len() && !is_space(s[i]) ==> #[trigger] is_digit(s[i])
}

fn looks_like_one_time_code(text: &[char]) -> (r: bool)
    ensures
        r == spec_looks_like_one_time_code(text@),
{
    let mut count: usize = 0;
    let mut all_digits = true;
    let mut i: usize = 0;
    while i < text.len()
        invariant
            i <= text@.len(),
            count == non_space_count(text@.take(i as int)),
            count <= i,
            all_digits == forall|k: int|
                0 <= k < i && !is_space(text@[k]) ==> #[trigger] is_digit(text@[k]),
        decreases text@.len() - i,
    {
        let c = text[i];
        assert(text@.take(i + 1).drop_last() =~= text@.take(i as int));
        if !space(c) {
            count = count + 1;
            if !digit(c) {
                all_digits = false;
            }
        }
        i = i + 1;
    }
    assert(text@.take(text@.len() as int) =~= text@);
    (count == 6 || count == 8) && all_digits
}

/// The number of line feeds in `s`.
pub open spec fn newline_count(s: Seq<char>) -> nat
    decreases s.len(),
{
    if s.len() == 0 {
        0
    } else {
        newline_count(s.drop_last()) + if s.last() == '\n' {
            1nat
        } else {
            0nat
        }
    }
}

proof fn lemma_newline_count_bound(s: Seq<char>)
    ensures
        newline_count(s) <= s.len(),
    decreases s.len(),
{
    if s.len() > 0 {
        lemma_newline_count_bound(s.drop_last());
    }
}

/// `str::lines().count()`: one line per line feed, and one more for text
/// after the last line feed.
pub open spec fn line_count(s: Seq<char>) -> nat {
    newline_count(s) + if s.len() > 0 && s.last() != '\n' {
        1nat
    } else {
        0nat
    }
}

pub open spec fn has_secret_marker(lowered: Seq<char>) -> bool {
    ||| contains_seq(lowered, "password="@)
    ||| contains_seq(lowered, "passwd="@)
    ||| contains_seq(lowered, "token="@)
    ||| contains_seq(lowered, "secret="@)
    ||| contains_seq(lowered, "api_key="@)
    ||| contains_seq(lowered, "apikey="@)
    ||| contains_seq(lowered, "access_key="@)
    ||| contains_seq(lowered, "private_key"@)
    ||| contains_seq(lowered, "bearer "@)
}

pub open spec fn is_symbol(c: char) -> bool {
    is_punctuation(c) && c != '-' && c != '_'
}

pub open spec fn flag(b: bool) -> nat {
    if b {
        1
    } else {
        0
    }
}

/// How many of upper case, lower case, digits and symbols occur in `s`.
pub open spec fn char_class_count(s: Seq<char>) -> nat {
    flag(exists|i: int| 0 <= i < s.len() && #[trigger] is_upper(s[i])) + flag(
        exists|i: int| 0 <= i < s.len() && #[trigger] is_lower(s[i]),
    ) + flag(exists|i: int| 0 <= i < s.len() && #[trigger] is_digit(s[i])) + flag(
        exists|i: int| 0 <= i < s.len() && #[trigger] is_symbol(s[i]),
    )
}

/// A credential marker (`token=`, `password=`, ...) in any case, or a single
/// word of 16 or more characters on at most three lines that mixes at least
/// three of upper case, lower case, digits and symbols.
pub open spec fn spec_looks_like_secret(s: Seq<char>) -> bool {
    if has_secret_marker(unicode_lowercase(s)) {
        true
    } else if line_count(s) > 3 || s.len() < 16 || s.contains(' ') {
        false
    } else {
        char_class_count(s) >= 3
    }
}

fn marker_in(lowered: &[char], marker: &str) -> (r: bool)
    ensures
        r == contains_seq(lowered@, marker@),
{
    let m = chars_of(marker);
    contains_chars(lowered, m.as_slice())
}

fn looks_like_secret(text: &[char]) -> (r: bool)
    ensures
        r == spec_looks_like_secret(text@),
{
    let lowered = to_lowercase(text);
    let l = lowered.as_slice();
    if marker_in(l, "password=") || marker_in(l, "passwd=") || marker_in(l, "token=")
        || marker_in(l, "secret=") || marker_in(l, "api_key=") || marker_in(l, "apikey=")
        || marker_in(l, "access_key=") || marker_in(l, "private_key") || marker_in(
        l,
        "bearer ",
    ) {
        return true;
    }
    let mut newlines: usize = 0;
    let mut has_upper = false;
    let mut has_lower = false;
    let mut has_digit = false;
    let mut has_symbol = false;
    let mut i: usize = 0;
    while i < text.len()
        invariant
            i <= text@.len(),
            newlines == newline_count(text@.take(i as int)),
            newlines <= i,
            has_upper == exists|k: int| 0 <= k < i && #[trigger] is_upper(text@[k]),
            has_lower == exists|k: int| 0 <= k < i && #[trigger] is_lower(text@[k]),
            has_digit == exists|k: int| 0 <= k < i && #[trigger] is_digit(text@[k]),
            has_symbol == exists|k: int| 0 <= k < i && #[trigger] is_symbol(text@[k]),
        decreases text@.len() - i,
    {
        let c = text[i];
        assert(text@.take(i + 1).drop_last() =~= text@.take(i as int));
        if c == '\n' {
            newlines = newlines + 1;
        }
        if upper(c) {
            has_upper = true;
        }
        if lower(c) {
            has_lower = true;
        }
        if digit(c) {
            has_digit = true;
        }
        let symbol = punctuation(c) && c != '-' && c != '_';
        assert(symbol == is_symbol(text@[i as int]));
        if symbol {
            has_symbol = true;
        }
        i = i + 1;
    }
    assert(text@.take(text@.len() as int) =~= text@);
    proof {
        if text@.len() > 0 {
            lemma_newline_count_bound(text@.drop_last());
        }
    }
    let lines = if text.len() > 0 && text[text.len() - 1] != '\n' {
        newlines + 1
    } else {
        newlines
    };
    if lines > 3 || text.len() < 16 || contains_char(text, ' ') {
        return false;
    }
    let count = (if has_upper {
        1usize
    } else {
        0
    }) + (if has_lower {
        1usize
    } else {
        0
    }) + (if has_digit {
        1usize
    } else {
        0
    }) + (if has_symbol {
        1usize
    } else {
        0
    });
    count >= 3
}

/// `pattern` is not blank and its lower-cased form occurs in `lowered`.
pub open spec fn pattern_matches(lowered: Seq<char>, pattern: Seq<char>) -> bool {
    trim(pattern).len() > 0 && contains_seq(lowered, unicode_lowercase(pattern))
}

/// Whether a clipboard text is kept out of the history under these privacy
/// settings: blank texts; texts (trimmed) shorter than the minimum or longer
/// than the maximum length (0 meaning no limit); texts that contain an
/// ignored pattern, in any case; one-time codes and secret-like texts when
/// those filters are on.
pub open spec fn spec_should_ignore(p: Privacy, text: Seq<char>) -> bool {
    let t = trim(text);
    let n = t.len();
    if n == 0 {
        true
    } else if p.min_text_length > 0 && n < p.min_text_length {
        true
    } else if p.max_text_length > 0 && n > p.max_text_length {
        true
    } else if exists|i: int|
        0 <= i < p.ignored_patterns@.len() && pattern_matches(
            unicode_lowercase(t),
            #[trigger] p.ignored_patterns@[i]@,
        ) {
        true
    } else if p.ignore_one_time_codes && spec_looks_like_one_time_code(t) {
        true
    } else {
        p.ignore_secret_like && spec_looks_like_secret(t)
    }
}

impl Config {
    /// Whether a clipboard text is kept out of the history.
    pub fn should_ignore_clipboard(&self, text: &str) -> (r: bool)
        ensures
            r == spec_should_ignore(self.privacy, text@),
            trim(text@).len() == 0 ==> r,
    {
        let chars = chars_of(text);
        let trimmed = trim_chars(chars.as_slice());
        if trimmed.len() == 0 {
            return true;
        }
        let n = trimmed.len();
        if self.privacy.min_text_length > 0 && n < self.privacy.min_text_length {
            return true;
        }
        if self.privacy.max_text_length > 0 && n > self.privacy.max_text_length {
            return true;
        }
        let lowered = to_lowercase(trimmed.as_slice());
        let pats = &self.privacy.ignored_patterns;
        let mut i: usize = 0;
        while i < pats.len()
            invariant
                i <= pats@.len(),
                pats@ == self.privacy.ignored_patterns@,
                lowered@ == unicode_lowercase(trim(text@)),
                forall|k: int|
                    0 <= k < i ==> !pattern_matches(lowered@, #[trigger] pats@[k]@),
            decreases pats@.len() - i,
        {
            let pc = chars_of(pats[i].as_str());
            let pt = trim_chars(pc.as_slice());
            if pt.len() > 0 {
                let pl = to_lowercase(pc.as_slice());
                if contains_chars(lowered.as_slice(), pl.as_slice()) {
                    assert(pattern_matches(lowered@, pats@[i as int]@));
                    assert(lowered@ == unicode_lowercase(trim(text@)));
                    assert(exists|k: int|
                        0 <= k < self.privacy.ignored_patterns@.len() && pattern_matches(
                            unicode_lowercase(trim(text@)),
                            #[trigger] self.privacy.ignored_patterns@[k]@,
                        ));
                    return true;
                }
            }
            i = i + 1;
        }
        if self.privacy.ignore_one_time_codes && looks_like_one_time_code(trimmed.as_slice()) {
            return true;
        }
        self.privacy.ignore_secret_like && looks_like_secret(trimmed.as_slice())
    }
}

// ---------------------------------------------------------------------------
// Laws of previews and of the privacy filter
// ---------------------------------------------------------------------------
proof fn lemma_one_line_filters(
    s: Seq<char>,
    keep: spec_fn(char) -> bool,
    shown: spec_fn(char) -> char,
)
    requires
        forall|c: char| #[trigger] keep(c) == (c != '\r'),
        forall|c: char| #[trigger] shown(c) == (if c == '\n' { ' ' } else { c }),
    ensures
        one_line(s) == s.filter(keep).map_values(shown),
    decreases s.len(),
{
    reveal_with_fuel(Seq::filter, 1);
    if s.len() == 0 {
        assert(s.filter(keep).map_values(shown) =~= Seq::<char>::empty());
    } else {
        lemma_one_line_filters(s.drop_last(), keep, shown);
        let rest = s.drop_last().filter(keep);
        if keep(s.last()) {
            assert(rest.push(s.last()).map_values(shown) =~= rest.map_values(shown).push(
                shown(s.last()),
            ));
        }
    }
}

proof fn lemma_one_line_of_single_line(s: Seq<char>)
    requires
        !s.contains('\n'),
        !s.contains('\r'),
    ensures
        one_line(s) == s,
    decreases s.len(),
{
    if s.len() > 0 {
        assert(!s.drop_last().contains('\n')) by {
            if s.drop_last().contains('\n') {
                let k = choose|k: int| 0 <= k < s.drop_last().len() && s.drop_last()[k] == '\n';
                assert(s[k] == '\n');
            }
        }
        assert(!s.drop_last().contains('\r')) by {
            if s.drop_last().contains('\r') {
                let k = choose|k: int| 0 <= k < s.drop_last().len() && s.drop_last()[k] == '\r';
                assert(s[k] == '\r');
            }
        }
        lemma_one_line_of_single_line(s.drop_last());
        assert(s.last() != '\n' && s.last() != '\r') by {
            assert(s[s.len() - 1] == s.last());
        }
        assert(s.drop_last().push(s.last()) =~= s);
    }
}

/// A preview keeps every character of the text but line breaks: each `\n`
/// becomes a space and each `\r` is dropped, in order; past `max`
/// characters it is cut and `...` follows. A text on one line that fits is its
/// own preview.
pub proof fn lemma_preview_keeps_other_characters(text: Seq<char>, max: nat)
    ensures
        ({
            let flat = text.filter(|c: char| c != '\r').map_values(
                |c: char|
                    if c == '\n' {
                        ' '
                    } else {
                        c
                    },
            );
            spec_truncate_preview(text, max) == if flat.len() > max {
                flat.take(max as int) + "..."@
            } else {
                flat
            }
        }),
        !text.contains('\n') && !text.contains('\r') && text.len() <= max
            ==> spec_truncate_preview(text, max) == text,
{
    lemma_one_line_filters(
        text,
        |c: char| c != '\r',
        |c: char|
            if c == '\n' {
                ' '
            } else {
                c
            },
    );
    if !text.contains('\n') && !text.contains('\r') {
        lemma_one_line_of_single_line(text);
    }
}

/// With the secret filter on, a text is kept out of the history when, trimmed
/// and lower-cased, it contains any of the credential markers `password=`,
/// `passwd=`, `token=`, `secret=`, `api_key=`, `apikey=`, `access_key=`,
/// `private_key` or `bearer `.
pub proof fn lemma_credential_markers_are_ignored(p: Privacy, text: Seq<char>)
    requires
        p.ignore_secret_like,
    ensures
        contains_seq(unicode_lowercase(trim(text)), "password="@) ==> spec_should_ignore(p, text),
        contains_seq(unicode_lowercase(trim(text)), "passwd="@) ==> spec_should_ignore(p, text),
        contains_seq(unicode_lowercase(trim(text)), "token="@) ==> spec_should_ignore(p, text),
        contains_seq(unicode_lowercase(trim(text)), "secret="@) ==> spec_should_ignore(p, text),
        contains_seq(unicode_lowercase(trim(text)), "api_key="@) ==> spec_should_ignore(p, text),
        contains_seq(unicode_lowercase(trim(text)), "apikey="@) ==> spec_should_ignore(p, text),
        contains_seq(unicode_lowercase(trim(text)), "access_key="@) ==> spec_should_ignore(
            p,
            text,
        ),
        contains_seq(unicode_lowercase(trim(text)), "private_key"@) ==> spec_should_ignore(
            p,
            text,
        ),
        contains_seq(unicode_lowercase(trim(text)), "bearer "@) ==> spec_should_ignore(p, text),
{
}

proof fn lemma_no_line_feed_count(s: Seq<char>)
    requires
        !s.contains('\n'),
    ensures
        newline_count(s) == 0,
    decreases s.len(),
{
    if s.len() > 0 {
        assert(!s.drop_last().contains('\n')) by {
            if s.drop_last().contains('\n') {
                let k = choose|k: int| 0 <= k < s.drop_last().len() && s.drop_last()[k] == '\n';
                assert(s[k] == '\n');
            }
        }
        lemma_no_line_feed_count(s.drop_last());
        assert(s[s.len() - 1] == s.last());
    }
}

/// Texts shorter than a set minimum or longer than a set maximum (counted in
/// characters, white space at the ends aside) are kept out of the history.
pub proof fn lemma_length_limits_are_applied(p: Privacy, text: Seq<char>)
    ensures
        p.min_text_length > 0 && trim(text).len() < p.min_text_length ==> spec_should_ignore(
            p,
            text,
        ),
        p.max_text_length > 0 && trim(text).len() > p.max_text_length ==> spec_should_ignore(
            p,
            text,
        ),
{
}

/// A text that contains one of the ignored patterns, in any case, is kept out
/// of the history; blank patterns match nothing.
pub proof fn lemma_ignored_patterns_are_applied(p: Privacy, text: Seq<char>, i: int)
    requires
        0 <= i < p.ignored_patterns@.len(),
        trim(p.ignored_patterns@[i]@).len() > 0,
        contains_seq(
            unicode_lowercase(trim(text)),
            unicode_lowercase(p.ignored_patterns@[i]@),
        ),
    ensures
        spec_should_ignore(p, text),
{
    assert(pattern_matches(unicode_lowercase(trim(text)), p.ignored_patterns@[i]@));
}

/// With the secret filter on, one word of 16 characters or more on one line
/// that mixes ASCII upper-case letters, lower-case letters and digits, or
/// either case of letters with symbols (ASCII punctuation but `-` and `_`), is
/// kept out of the history.
pub proof fn lemma_mixed_long_words_are_ignored(p: Privacy, text: Seq<char>)
    requires
        p.ignore_secret_like,
        trim(text).len() >= 16,
        !trim(text).contains(' '),
        !trim(text).contains('\n'),
        exists|i: int| 0 <= i < trim(text).len() && 'A' <= #[trigger] trim(text)[i] <= 'Z',
        exists|i: int| 0 <= i < trim(text).len() && 'a' <= #[trigger] trim(text)[i] <= 'z',
        (exists|i: int| 0 <= i < trim(text).len() && '0' <= #[trigger] trim(text)[i] <= '9')
            || (exists|i: int|
            0 <= i < trim(text).len() && {
                let c = #[trigger] trim(text)[i];
                ||| ('!' <= c && c <= ',')
                ||| c == '.'
                ||| c == '/'
                ||| (':' <= c && c <= '@')
                ||| ('[' <= c && c <= '^')
                ||| c == '`'
                ||| ('{' <= c && c <= '~')
            }),
    ensures
        spec_should_ignore(p, text),
{
    let t = trim(text);
    lemma_no_line_feed_count(t);
    let iu = choose|i: int| 0 <= i < t.len() && 'A' <= #[trigger] t[i] <= 'Z';
    assert(is_upper(t[iu]));
    let il = choose|i: int| 0 <= i < t.len() && 'a' <= #[trigger] t[i] <= 'z';
    assert(is_lower(t[il]));
    if exists|i: int| 0 <= i < t.len() && '0' <= #[trigger] t[i] <= '9' {
        let id = choose|i: int| 0 <= i < t.len() && '0' <= #[trigger] t[i] <= '9';
        assert(is_digit(t[id]));
    } else {
        let is = choose|i: int|
            0 <= i < t.len() && {
                let c = #[trigger] t[i];
                ||| ('!' <= c && c <= ',')
                ||| c == '.'
                ||| c == '/'
                ||| (':' <= c && c <= '@')
                ||| ('[' <= c && c <= '^')
                ||| c == '`'
                ||| ('{' <= c && c <= '~')
            };
        assert(is_symbol(t[is]));
    }
}

/// With no filter set, every text that is not blank is kept in the history.
pub proof fn lemma_unfiltered_texts_are_kept(p: Privacy, text: Seq<char>)
    requires
        trim(text).len() > 0,
        p.min_text_length == 0,
        p.max_text_length == 0,
        p.ignored_patterns@.len() == 0,
        !p.ignore_one_time_codes,
        !p.ignore_secret_like,
    ensures
        !spec_should_ignore(p, text),
{
}

proof fn lemma_digits_filter(
    s: Seq<char>,
    keep: spec_fn(char) -> bool,
)
    requires
        forall|c: char| #[trigger] keep(c) == !is_space(c),
    ensures
        s.filter(keep).len() == non_space_count(s),
        (forall|i: int| 0 <= i < s.filter(keep).len() ==> '0' <= #[trigger] s.filter(keep)[i] <= '9')
            ==> forall|i: int| 0 <= i < s.len() && !is_space(s[i]) ==> #[trigger] is_digit(s[i]),
    decreases s.len(),
{
    reveal_with_fuel(Seq::filter, 1);
    if s.len() > 0 {
        let rest = s.drop_last();
        lemma_digits_filter(rest, keep);
        let f = s.filter(keep);
        if forall|i: int| 0 <= i < f.len() ==> '0' <= #[trigger] f[i] <= '9' {
            if keep(s.last()) {
                assert forall|i: int| 0 <= i < rest.filter(keep).len() implies '0'
                    <= #[trigger] rest.filter(keep)[i] <= '9' by {
                    assert(f[i] == rest.filter(keep)[i]);
                }
                assert(f[f.len() - 1] == s.last());
            }
            assert forall|i: int| 0 <= i < s.len() && !is_space(s[i]) implies #[trigger] is_digit(
                s[i],
            ) by {
                if i < s.len() - 1 {
                    assert(s[i] == rest[i]);
                    if !keep(s.last()) {
                        assert(f == rest.filter(keep));
                    } else {
                        assert forall|j: int| 0 <= j < rest.filter(keep).len() implies '0'
                            <= #[trigger] rest.filter(keep)[j] <= '9' by {
                            assert(f[j] == rest.filter(keep)[j]);
                        }
                    }
                } else {
                    assert(s[i] == s.last());
                    assert(f[f.len() - 1] == s.last());
                }
            }
        }
    }
}

/// With the one-time-code filter on, a text whose characters other than white
/// space (at the ends or inside) are exactly six or eight ASCII digits is
/// kept out of the history.
pub proof fn lemma_one_time_codes_are_ignored(p: Privacy, text: Seq<char>)
    requires
        p.ignore_one_time_codes,
        ({
            let code = trim(text).filter(|c: char| !is_space(c));
            &&& (code.len() == 6 || code.len() == 8)
            &&& forall|i: int| 0 <= i < code.len() ==> '0' <= #[trigger] code[i] <= '9'
        }),
    ensures
        spec_should_ignore(p, text),
{
    lemma_digits_filter(trim(text), |c: char| !is_space(c));
}

proof fn lemma_kept_pieces_are_clean(pieces: Seq<Seq<char>>)
    requires
        forall|k: int, i: int|
            0 <= k < pieces.len() && 0 <= i < pieces[k].len() ==> !is_pattern_separator(
                #[trigger] pieces[k][i],
            ),
    ensures
        forall|k: int| 0 <= k < kept_pieces(pieces).len() ==> is_clean_pattern(
            #[trigger] kept_pieces(pieces)[k],
        ),
    decreases pieces.len(),
{
    if pieces.len() > 0 {
        let rest = pieces.drop_last();
        assert forall|k: int, i: int| 0 <= k < rest.len() && 0 <= i < rest[k].len() implies !is_pattern_separator(
            #[trigger] rest[k][i],
        ) by {
            assert(rest[k] == pieces[k]);
        }
        lemma_kept_pieces_are_clean(rest);
        let last = pieces.last();
        assert(last == pieces[pieces.len() - 1]);
        if trim(last).len() > 0 {
            assert forall|i: int| 0 <= i < last.len() implies !is_pattern_separator(#[trigger] last[i]) by {
                assert(pieces[pieces.len() - 1][i] == last[i]);
            }
            lemma_trimmed_piece_is_clean(last);
        }
        let prev = kept_pieces(rest);
        assert forall|k: int| 0 <= k < kept_pieces(pieces).len() implies is_clean_pattern(
            #[trigger] kept_pieces(pieces)[k],
        ) by {
            if k < prev.len() {
                assert(kept_pieces(pieces)[k] == prev[k]);
            } else {
                assert(kept_pieces(pieces)[k] == trim(last));
            }
        }
    }
}

/// The ignored patterns read from a text are its pieces between commas and
/// line feeds: none is empty, none holds a `,` or a line feed, and none
/// starts or ends with white space.
pub proof fn lemma_patterns_are_separated_pieces(text: Seq<char>)
    ensures
        forall|k: int|
            0 <= k < patterns_from_text(text).len() ==> {
                let p = #[trigger] patterns_from_text(text)[k];
                &&& p.len() > 0
                &&& !is_space(p[0])
                &&& !is_space(p.last())
                &&& forall|i: int| 0 <= i < p.len() ==> #[trigger] p[i] != ',' && p[i] != '\n'
            },
{
    lemma_pieces_have_no_separator(text);
    lemma_kept_pieces_are_clean(split_by(text, separator_pred()));
    assert forall|k: int| 0 <= k < patterns_from_text(text).len() implies {
        let p = #[trigger] patterns_from_text(text)[k];
        &&& p.len() > 0
        &&& !is_space(p[0])
        &&& !is_space(p.last())
        &&& forall|i: int| 0 <= i < p.len() ==> #[trigger] p[i] != ',' && p[i] != '\n'
    } by {
        let p = patterns_from_text(text)[k];
        assert(is_clean_pattern(p));
        assert forall|i: int| 0 <= i < p.len() implies #[trigger] p[i] != ',' && p[i] != '\n' by {
            assert(!is_pattern_separator(p[i]));
        }
    }
}

} // verus!
