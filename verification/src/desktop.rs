//! The desktop front end's own rules: quoting commands, the autostart entry,
//! the theme selector, the quick picker's selection and the tray icon's shape.
use vstd::prelude::*;

use crate::config::ThemePreference;
use crate::text::{alphanumeric, chars_of, is_alphanumeric, push_char};
use crate::timestamp::{format_timestamp, is_shown_time};

verus! {

// ---------------------------------------------------------------------------
// Theme selector
// ---------------------------------------------------------------------------
pub open spec fn spec_theme_index(t: ThemePreference) -> u32 {
    match t {
        ThemePreference::System => 0,
        ThemePreference::Light => 1,
        ThemePreference::Dark => 2,
    }
}

pub open spec fn spec_theme_from_index(i: u32) -> ThemePreference {
    if i == 1 {
        ThemePreference::Light
    } else if i == 2 {
        ThemePreference::Dark
    } else {
        ThemePreference::System
    }
}

/// The position of a theme in the selector: System, Light, Dark.
pub fn theme_index(value: ThemePreference) -> (r: u32)
    ensures
        r == spec_theme_index(value),
{
    match value {
        ThemePreference::System => 0,
        ThemePreference::Light => 1,
        ThemePreference::Dark => 2,
    }
}

/// The theme at a position of the selector; unknown positions mean System.
pub fn theme_from_index(index: u32) -> (r: ThemePreference)
    ensures
        r == spec_theme_from_index(index),
{
    match index {
        1 => ThemePreference::Light,
        2 => ThemePreference::Dark,
        _ => ThemePreference::System,
    }
}

/// Choosing a theme's position in the selector gives the theme back.
pub proof fn lemma_theme_index_round_trip(t: ThemePreference)
    ensures
        spec_theme_from_index(spec_theme_index(t)) == t,
{
}

// ---------------------------------------------------------------------------
// Quoting
// ---------------------------------------------------------------------------
/// Each `\` doubled and each `"` preceded by `\`.
pub open spec fn exec_escaped(s: Seq<char>) -> Seq<char>
    decreases s.len(),
{
    if s.len() == 0 {
        Seq::<char>::empty()
    } else {
        let prev = exec_escaped(s.drop_last());
        let c = s.last();
        if c == '\\' {
            prev + seq!['\\', '\\']
        } else if c == '"' {
            prev + seq!['\\', '"']
        } else {
            prev.push(c)
        }
    }
}

/// How a desktop entry reads the inside of a quoted argument: `\` takes the
/// next character as it is, and a bare `"` (which would end the argument) or
/// a `\` at the end makes it unreadable.
pub open spec fn exec_unescaped(s: Seq<char>) -> Option<Seq<char>>
    decreases s.len(),
{
    if s.len() == 0 {
        Some(Seq::<char>::empty())
    } else if s[0] == '\\' {
        if s.len() < 2 {
            None
        } else {
            match exec_unescaped(s.skip(2)) {
                Some(rest) => Some(seq![s[1]] + rest),
                None => None,
            }
        }
    } else if s[0] == '"' {
        None
    } else {
        match exec_unescaped(s.skip(1)) {
            Some(rest) => Some(seq![s[0]] + rest),
            None => None,
        }
    }
}

proof fn lemma_exec_escaped_concat(a: Seq<char>, b: Seq<char>)
    ensures
        exec_escaped(a + b) == exec_escaped(a) + exec_escaped(b),
    decreases b.len(),
{
    if b.len() == 0 {
        assert(a + b =~= a);
        assert(exec_escaped(a) + exec_escaped(b) =~= exec_escaped(a));
    } else {
        lemma_exec_escaped_concat(a, b.drop_last());
        assert((a + b).drop_last() =~= a + b.drop_last());
        assert((a + b).last() == b.last());
        let c = b.last();
        if c == '\\' {
            assert(exec_escaped(a) + exec_escaped(b.drop_last()) + seq!['\\', '\\'] =~= exec_escaped(a)
                + (exec_escaped(b.drop_last()) + seq!['\\', '\\']));
        } else if c == '"' {
            assert(exec_escaped(a) + exec_escaped(b.drop_last()) + seq!['\\', '"'] =~= exec_escaped(a)
                + (exec_escaped(b.drop_last()) + seq!['\\', '"']));
        } else {
            assert((exec_escaped(a) + exec_escaped(b.drop_last())).push(c) =~= exec_escaped(a)
                + exec_escaped(b.drop_last()).push(c));
        }
    }
}

/// Quoting for a desktop entry loses nothing: reading the quoted argument
/// back gives the path, whatever backslashes and double quotes it holds.
pub proof fn lemma_exec_quote_reads_back(path: Seq<char>)
    ensures
        spec_desktop_exec_quote(path) == seq!['"'] + exec_escaped(path) + seq!['"'],
        exec_unescaped(exec_escaped(path)) == Some(path),
    decreases path.len(),
{
    if path.len() > 0 {
        let c = path[0];
        let rest = path.skip(1);
        assert(path =~= seq![c] + rest);
        lemma_exec_escaped_concat(seq![c], rest);
        lemma_exec_quote_reads_back(rest);
        let e = exec_escaped(rest);
        assert(seq![c].drop_last() =~= Seq::<char>::empty());
        assert(seq![c].last() == c);
        assert(exec_escaped(Seq::<char>::empty()) =~= Seq::<char>::empty());
        if c == '\\' {
            let s = seq!['\\', '\\'] + e;
            assert(exec_escaped(seq![c]) =~= seq!['\\', '\\']);
            assert(s.skip(2) =~= e);
            assert(s[0] == '\\' && s[1] == '\\');
            assert(exec_unescaped(s) == Some(seq![c] + rest));
        } else if c == '"' {
            let s = seq!['\\', '"'] + e;
            assert(exec_escaped(seq![c]) =~= seq!['\\', '"']);
            assert(s.skip(2) =~= e);
            assert(s[0] == '\\' && s[1] == '"');
            assert(exec_unescaped(s) == Some(seq![c] + rest));
        } else {
            let s = seq![c] + e;
            assert(exec_escaped(seq![c]) =~= seq![c]);
            assert(s.skip(1) =~= e);
            assert(s[0] == c);
            assert(exec_unescaped(s) == Some(seq![c] + rest));
        }
    } else {
        assert(exec_escaped(path) =~= Seq::<char>::empty());
    }
}

/// A path quoted for the `Exec` key of a desktop entry.
pub open spec fn spec_desktop_exec_quote(path: Seq<char>) -> Seq<char> {
    seq!['"'] + exec_escaped(path) + seq!['"']
}

/// Quotes a path for the `Exec` key of a desktop entry.
pub fn desktop_exec_quote(path: &str) -> (r: String)
    ensures
        r@ == spec_desktop_exec_quote(path@),
{
    let chars = chars_of(path);
    let mut out = String::new();
    push_char(&mut out, '"');
    let mut i: usize = 0;
    while i < chars.len()
        invariant
            i <= chars@.len(),
            out@ == seq!['"'] + exec_escaped(chars@.take(i as int)),
        decreases chars@.len() - i,
    {
        let c = chars[i];
        assert(chars@.take(i + 1).drop_last() =~= chars@.take(i as int));
        if c == '\\' {
            push_char(&mut out, '\\');
            push_char(&mut out, '\\');
        } else if c == '"' {
            push_char(&mut out, '\\');
            push_char(&mut out, '"');
        } else {
            push_char(&mut out, c);
        }
        i = i + 1;
        assert(out@ =~= seq!['"'] + exec_escaped(chars@.take(i as int)));
    }
    push_char(&mut out, '"');
    assert(chars@.take(chars@.len() as int) =~= chars@);
    out
}

/// A character that needs no quoting for the shell.
pub open spec fn is_shell_safe(c: char) -> bool {
    is_alphanumeric(c) || c == '/' || c == '.' || c == '_' || c == '-'
}

/// Each `'` written as `'"'"'`.
pub open spec fn single_quote_escaped(s: Seq<char>) -> Seq<char>
    decreases s.len(),
{
    if s.len() == 0 {
        Seq::<char>::empty()
    } else {
        let prev = single_quote_escaped(s.drop_last());
        if s.last() == '\'' {
            prev + seq!['\'', '"', '\'', '"', '\'']
        } else {
            prev.push(s.last())
        }
    }
}

/// How a shell reads the inside of a single-quoted word: every character as
/// it is, where `'"'"'` (close the quotes, a quoted `'`, open them again)
/// stands for `'`; any other `'` would end the quotes early.
pub open spec fn single_quote_unescaped(s: Seq<char>) -> Option<Seq<char>>
    decreases s.len(),
{
    if s.len() == 0 {
        Some(Seq::<char>::empty())
    } else if s[0] == '\'' {
        if s.len() >= 5 && s.take(5) == seq!['\'', '"', '\'', '"', '\''] {
            match single_quote_unescaped(s.skip(5)) {
                Some(rest) => Some(seq!['\''] + rest),
                None => None,
            }
        } else {
            None
        }
    } else {
        match single_quote_unescaped(s.skip(1)) {
            Some(rest) => Some(seq![s[0]] + rest),
            None => None,
        }
    }
}

proof fn lemma_single_quote_escaped_concat(a: Seq<char>, b: Seq<char>)
    ensures
        single_quote_escaped(a + b) == single_quote_escaped(a) + single_quote_escaped(b),
    decreases b.len(),
{
    if b.len() == 0 {
        assert(a + b =~= a);
        assert(single_quote_escaped(a) + single_quote_escaped(b) =~= single_quote_escaped(a));
    } else {
        lemma_single_quote_escaped_concat(a, b.drop_last());
        assert((a + b).drop_last() =~= a + b.drop_last());
        assert((a + b).last() == b.last());
        let c = b.last();
        if c == '\'' {
            let q = seq!['\'', '"', '\'', '"', '\''];
            assert(single_quote_escaped(a) + single_quote_escaped(b.drop_last()) + q
                =~= single_quote_escaped(a) + (single_quote_escaped(b.drop_last()) + q));
        } else {
            assert((single_quote_escaped(a) + single_quote_escaped(b.drop_last())).push(c)
                =~= single_quote_escaped(a) + single_quote_escaped(b.drop_last()).push(c));
        }
    }
}

/// Quoting for a shell loses nothing: the shell reads the single-quoted part
/// back as the value, whatever quotes it holds.
pub proof fn lemma_shell_quote_reads_back(value: Seq<char>)
    ensures
        single_quote_unescaped(single_quote_escaped(value)) == Some(value),
    decreases value.len(),
{
    if value.len() > 0 {
        let c = value[0];
        let rest = value.skip(1);
        assert(value =~= seq![c] + rest);
        lemma_single_quote_escaped_concat(seq![c], rest);
        lemma_shell_quote_reads_back(rest);
        let e = single_quote_escaped(rest);
        assert(seq![c].drop_last() =~= Seq::<char>::empty());
        assert(seq![c].last() == c);
        assert(single_quote_escaped(Seq::<char>::empty()) =~= Seq::<char>::empty());
        if c == '\'' {
            let q = seq!['\'', '"', '\'', '"', '\''];
            let s = q + e;
            assert(single_quote_escaped(seq![c]) =~= q);
            assert(s.take(5) =~= q);
            assert(s.skip(5) =~= e);
            assert(single_quote_unescaped(s) == Some(seq![c] + rest));
        } else {
            let s = seq![c] + e;
            assert(single_quote_escaped(seq![c]) =~= seq![c]);
            assert(s.skip(1) =~= e);
            assert(s[0] == c);
            assert(single_quote_unescaped(s) == Some(seq![c] + rest));
        }
    } else {
        assert(single_quote_escaped(value) =~= Seq::<char>::empty());
    }
}

/// Values made only of ASCII letters, digits, `/`, `.`, `_` and `-` are shown
/// as they are; any other value is shown in single quotes.
pub proof fn lemma_shell_quote_only_when_needed(value: Seq<char>)
    ensures
        (forall|i: int|
            0 <= i < value.len() ==> {
                let c = #[trigger] value[i];
                ||| ('0' <= c && c <= '9')
                ||| ('a' <= c && c <= 'z')
                ||| ('A' <= c && c <= 'Z')
                ||| c == '/'
                ||| c == '.'
                ||| c == '_'
                ||| c == '-'
            }) ==> spec_shell_quote(value) == value,
        (exists|i: int|
            0 <= i < value.len() && {
                let c = #[trigger] value[i];
                !(('0' <= c && c <= '9') || ('a' <= c && c <= 'z') || ('A' <= c && c <= 'Z') || c
                    == '/' || c == '.' || c == '_' || c == '-')
            }) ==> spec_shell_quote(value) == seq!['\''] + single_quote_escaped(value) + seq![
            '\'',
        ],
{
    if exists|i: int|
        0 <= i < value.len() && {
            let c = #[trigger] value[i];
            !(('0' <= c && c <= '9') || ('a' <= c && c <= 'z') || ('A' <= c && c <= 'Z') || c
                == '/' || c == '.' || c == '_' || c == '-')
        } {
        let i = choose|i: int|
            0 <= i < value.len() && {
                let c = #[trigger] value[i];
                !(('0' <= c && c <= '9') || ('a' <= c && c <= 'z') || ('A' <= c && c <= 'Z') || c
                    == '/' || c == '.' || c == '_' || c == '-')
            };
        assert(!is_shell_safe(value[i]));
    } else {
        assert forall|i: int| 0 <= i < value.len() implies #[trigger] is_shell_safe(value[i]) by {
            let c = value[i];
        }
    }
}

/// A value as shown for pasting into a shell: unchanged when every character
/// is safe, else in single quotes.
pub open spec fn spec_shell_quote(value: Seq<char>) -> Seq<char> {
    if forall|i: int| 0 <= i < value.len() ==> #[trigger] is_shell_safe(value[i]) {
        value
    } else {
        seq!['\''] + single_quote_escaped(value) + seq!['\'']
    }
}

/// Quotes a value for display as part of a shell command.
pub fn shell_quote_for_display(value: &str) -> (r: String)
    ensures
        r@ == spec_shell_quote(value@),
{
    let chars = chars_of(value);
    let mut safe = true;
    let mut out = String::new();
    push_char(&mut out, '\'');
    let mut i: usize = 0;
    while i < chars.len()
        invariant
            i <= chars@.len(),
            chars@ == value@,
            safe == forall|k: int| 0 <= k < i ==> #[trigger] is_shell_safe(chars@[k]),
            out@ == seq!['\''] + single_quote_escaped(chars@.take(i as int)),
        decreases chars@.len() - i,
    {
        let c = chars[i];
        assert(chars@.take(i + 1).drop_last() =~= chars@.take(i as int));
        let ok = alphanumeric(c) || c == '/' || c == '.' || c == '_' || c == '-';
        assert(ok == is_shell_safe(chars@[i as int]));
        if !ok {
            safe = false;
        }
        if c == '\'' {
            push_char(&mut out, '\'');
            push_char(&mut out, '"');
            push_char(&mut out, '\'');
            push_char(&mut out, '"');
            push_char(&mut out, '\'');
        } else {
            push_char(&mut out, c);
        }
        i = i + 1;
        assert(out@ =~= seq!['\''] + single_quote_escaped(chars@.take(i as int)));
    }
    assert(chars@.take(chars@.len() as int) =~= chars@);
    if safe {
        return String::from_str(value);
    }
    push_char(&mut out, '\'');
    out
}

pub open spec fn spec_quick_picker_command(path: Seq<char>, dev: bool) -> Seq<char> {
    let command = spec_shell_quote(path) + " --pick"@;
    if dev {
        "env YANKLOG_DEV_MODE=1 YANKLOG_DISABLE_UPDATE_CHECK=1 "@ + command
    } else {
        command
    }
}

/// The command that opens the quick picker, for a launcher path; development
/// builds run with their environment variables.
pub fn quick_picker_command_text(command_path: &str, dev: bool) -> (r: String)
    ensures
        r@ == spec_quick_picker_command(command_path@, dev),
{
    let mut command = shell_quote_for_display(command_path);
    command.append(" --pick");
    if dev {
        let mut prefixed = String::from_str("env YANKLOG_DEV_MODE=1 YANKLOG_DISABLE_UPDATE_CHECK=1 ");
        prefixed.append(command.as_str());
        prefixed
    } else {
        command
    }
}

// ---------------------------------------------------------------------------
// Starting at login
// ---------------------------------------------------------------------------
pub open spec fn spec_autostart_file_name(dev: bool) -> Seq<char> {
    if dev {
        "com.yanklog.dev.autostart.desktop"@
    } else {
        "com.yanklog.app.autostart.desktop"@
    }
}

/// The name of the autostart desktop file of a build.
pub fn autostart_file_name(dev: bool) -> (r: &'static str)
    ensures
        r@ == spec_autostart_file_name(dev),
{
    if dev {
        "com.yanklog.dev.autostart.desktop"
    } else {
        "com.yanklog.app.autostart.desktop"
    }
}

pub open spec fn spec_autostart_entry(name: Seq<char>, exec: Seq<char>) -> Seq<char> {
    "[Desktop Entry]\nType=Application\nName="@ + name + "\nComment=Start "@ + name
        + " at login\nExec="@ + exec
        + " --background\nIcon=yanklog\nTerminal=false\nX-GNOME-Autostart-enabled=true\nNoDisplay=true\n"@
}

/// The desktop entry that starts the app, hidden, at login.
pub fn autostart_entry(name: &str, exec: &str) -> (r: String)
    ensures
        r@ == spec_autostart_entry(name@, exec@),
{
    let mut out = String::from_str("[Desktop Entry]\nType=Application\nName=");
    out.append(name);
    out.append("\nComment=Start ");
    out.append(name);
    out.append(" at login\nExec=");
    out.append(exec);
    out.append(
        " --background\nIcon=yanklog\nTerminal=false\nX-GNOME-Autostart-enabled=true\nNoDisplay=true\n",
    );
    out
}

// ---------------------------------------------------------------------------
// History rows
// ---------------------------------------------------------------------------
pub open spec fn pinned_suffix(is_favorite: bool) -> Seq<char> {
    if is_favorite {
        " · pinned"@
    } else {
        ""@
    }
}

/// The line under a history entry: its time, and whether it is pinned.
pub fn entry_meta_text(timestamp: &str, is_favorite: bool) -> (r: String)
    ensures
        exists|shown: Seq<char>|
            #[trigger] is_shown_time(timestamp@, shown) && r@ == shown + pinned_suffix(is_favorite),
{
    let mut out = format_timestamp(timestamp);
    let ghost shown = out@;
    if is_favorite {
        out.append(" · pinned");
    } else {
        out.append("");
    }
    assert(is_shown_time(timestamp@, shown));
    out
}

// ---------------------------------------------------------------------------
// Quick picker selection
// ---------------------------------------------------------------------------
pub open spec fn clamp(v: int, lo: int, hi: int) -> int {
    if v < lo {
        lo
    } else if v > hi {
        hi
    } else {
        v
    }
}

pub open spec fn selected_or_first(selected: Option<i32>) -> int {
    match selected {
        Some(i) => i as int,
        None => 0,
    }
}

/// The row to select after moving `delta` rows from the selected one (the
/// first when none is), kept within the list; `None` for an empty list.
pub open spec fn spec_next_selection(selected: Option<i32>, item_count: nat, delta: int) -> Option<
    int,
> {
    if item_count == 0 {
        None
    } else {
        let last = item_count - 1;
        let current = clamp(selected_or_first(selected), 0, last);
        Some(clamp(current + delta, 0, last))
    }
}

/// The row to select when the quick picker's selection moves by `delta`.
pub fn next_selection_index(selected: Option<i32>, item_count: usize, delta: i32) -> (r: Option<
    i32,
>)
    requires
        item_count <= i32::MAX as usize + 1,
        item_count > 0 ==> i32::MIN <= clamp(selected_or_first(selected), 0, item_count - 1) + delta
            <= i32::MAX,
    ensures
        match spec_next_selection(selected, item_count as nat, delta as int) {
            None => r is None,
            Some(i) => r == Some(i as i32),
        },
{
    if item_count == 0 {
        return None;
    }
    let last = (item_count - 1) as i32;
    let start = match selected {
        Some(i) => i,
        None => 0,
    };
    let current = if start < 0 {
        0
    } else if start > last {
        last
    } else {
        start
    };
    let moved = current + delta;
    let next = if moved < 0 {
        0
    } else if moved > last {
        last
    } else {
        moved
    };
    Some(next)
}

// ---------------------------------------------------------------------------
// Tray icon shape
// ---------------------------------------------------------------------------
/// A rectangle of icon pixels.
#[derive(Debug, Clone, Copy, PartialEq, Eq, Structural)]
pub struct IconRect {
    pub x: i32,
    pub y: i32,
    pub width: i32,
    pub height: i32,
}

pub open spec fn in_rect(x: int, y: int, r: IconRect) -> bool {
    r.x <= x < r.x + r.width && r.y <= y < r.y + r.height
}

/// The corner radius used: not negative, and at most half the width and
/// height (each less one).
pub open spec fn effective_radius(r: IconRect, radius: int) -> int {
    let a = if radius < 0 {
        0
    } else {
        radius
    };
    let b = if a > (r.width - 1) / 2 {
        (r.width - 1) / 2
    } else {
        a
    };
    if b > (r.height - 1) / 2 {
        (r.height - 1) / 2
    } else {
        b
    }
}

/// Horizontal distance from `x` to the rectangle's inner part (0 inside it).
pub open spec fn corner_dx(x: int, r: IconRect, rad: int) -> int {
    x - clamp(x, r.x + rad, r.x + r.width - rad - 1)
}

pub open spec fn corner_dy(y: int, r: IconRect, rad: int) -> int {
    y - clamp(y, r.y + rad, r.y + r.height - rad - 1)
}

/// Whether pixel `(x, y)` lies in the rectangle with rounded corners.
pub open spec fn spec_inside_rounded_rect(x: int, y: int, r: IconRect, radius: int) -> bool {
    if !in_rect(x, y, r) || r.width <= 0 || r.height <= 0 {
        false
    } else {
        let rad = effective_radius(r, radius);
        rad == 0 || corner_dx(x, r, rad) * corner_dx(x, r, rad) + corner_dy(y, r, rad) * corner_dy(
            y,
            r,
            rad,
        ) <= rad * rad
    }
}

/// The sums that the test computes stay within `i32`.
pub open spec fn rounded_rect_test_fits(x: int, y: int, r: IconRect, radius: int) -> bool {
    &&& (x >= r.x && y >= r.y ==> i32::MIN <= r.x + r.width <= i32::MAX)
    &&& (x >= r.x && y >= r.y && x < r.x + r.width ==> i32::MIN <= r.y + r.height <= i32::MAX)
    &&& (in_rect(x, y, r) && r.width > 0 && r.height > 0 && effective_radius(r, radius) > 0 ==> {
        let rad = effective_radius(r, radius);
        corner_dx(x, r, rad) * corner_dx(x, r, rad) + corner_dy(y, r, rad) * corner_dy(y, r, rad)
            <= i32::MAX && rad * rad <= i32::MAX
    })
}

/// Whether pixel `(x, y)` lies in `rect` with corners rounded by `radius`.
pub fn is_inside_rounded_rect(x: i32, y: i32, rect: IconRect, radius: i32) -> (r: bool)
    requires
        rounded_rect_test_fits(x as int, y as int, rect, radius as int),
    ensures
        r == spec_inside_rounded_rect(x as int, y as int, rect, radius as int),
{
    if x < rect.x || y < rect.y || x >= rect.x + rect.width || y >= rect.y + rect.height {
        return false;
    }
    if rect.width <= 0 || rect.height <= 0 {
        return false;
    }
    let half_width = (rect.width - 1) / 2;
    let half_height = (rect.height - 1) / 2;
    let a = if radius < 0 {
        0
    } else {
        radius
    };
    let b = if a > half_width {
        half_width
    } else {
        a
    };
    let rad = if b > half_height {
        half_height
    } else {
        b
    };
    assert(rad == effective_radius(rect, radius as int));
    if rad == 0 {
        return true;
    }
    let left = rect.x + rad;
    let right = rect.x + rect.width - rad - 1;
    let top = rect.y + rad;
    let bottom = rect.y + rect.height - rad - 1;
    let corner_x = if x < left {
        left
    } else if x > right {
        right
    } else {
        x
    };
    let corner_y = if y < top {
        top
    } else if y > bottom {
        bottom
    } else {
        y
    };
    let dx = x - corner_x;
    let dy = y - corner_y;
    assert(dx == corner_dx(x as int, rect, rad as int));
    assert(dy == corner_dy(y as int, rect, rad as int));
    assert(0 <= dx * dx) by (nonlinear_arith);
    assert(0 <= dy * dy) by (nonlinear_arith);
    dx * dx + dy * dy <= rad * rad
}

/// The quick picker's selection stays on a row of the list, and moves by
/// `delta` rows from the selected one whenever that row exists.
pub proof fn lemma_selection_stays_in_list(selected: Option<i32>, item_count: nat, delta: int)
    ensures
        item_count == 0 ==> spec_next_selection(selected, item_count, delta) is None,
        item_count > 0 ==> (spec_next_selection(selected, item_count, delta) matches Some(i) && 0
            <= i < item_count),
        (selected matches Some(s) && 0 <= s < item_count && 0 <= s + delta < item_count) ==> (
        spec_next_selection(selected, item_count, delta) == Some(selected->Some_0 + delta)),
        (selected is None && 0 <= delta < item_count) ==> spec_next_selection(
            selected,
            item_count,
            delta,
        ) == Some(delta),
{
}

/// Pixels outside the rectangle are never inside it; pixels within the
/// rectangle are inside when the radius is 0 or less, or when they lie away
/// from the corners (no farther in than the radius from neither pair of
/// sides).
pub proof fn lemma_rounded_rect_covers(x: int, y: int, r: IconRect, radius: int)
    ensures
        !(r.x <= x < r.x + r.width && r.y <= y < r.y + r.height) ==> !spec_inside_rounded_rect(
            x,
            y,
            r,
            radius,
        ),
        (r.x <= x < r.x + r.width && r.y <= y < r.y + r.height && radius <= 0)
            ==> spec_inside_rounded_rect(x, y, r, radius),
        (r.x <= x < r.x + r.width && r.y <= y < r.y + r.height && 0 <= radius && r.x + radius <= x
            <= r.x + r.width - 1 - radius) ==> spec_inside_rounded_rect(x, y, r, radius),
        (r.x <= x < r.x + r.width && r.y <= y < r.y + r.height && 0 <= radius && r.y + radius <= y
            <= r.y + r.height - 1 - radius) ==> spec_inside_rounded_rect(x, y, r, radius),
{
    if r.x <= x < r.x + r.width && r.y <= y < r.y + r.height && 0 <= radius {
        let rad = effective_radius(r, radius);
        if r.x + radius <= x <= r.x + r.width - 1 - radius {
            assert(corner_dx(x, r, rad) == 0);
            let dy = corner_dy(y, r, rad);
            assert(-rad <= dy <= rad);
            assert(dy * dy <= rad * rad) by (nonlinear_arith)
                requires
                    -rad <= dy <= rad,
            ;
        }
        if r.y + radius <= y <= r.y + r.height - 1 - radius {
            assert(corner_dy(y, r, rad) == 0);
            let dx = corner_dx(x, r, rad);
            assert(-rad <= dx <= rad);
            assert(dx * dx <= rad * rad) by (nonlinear_arith)
                requires
                    -rad <= dx <= rad,
            ;
            let dy0 = corner_dy(y, r, rad);
            assert(dy0 * dy0 == 0) by (nonlinear_arith)
                requires
                    dy0 == 0,
            ;
            assert(corner_dx(x, r, rad) * corner_dx(x, r, rad) + corner_dy(y, r, rad) * corner_dy(
                y,
                r,
                rad,
            ) <= rad * rad);
        }
    }
}

} // verus!
