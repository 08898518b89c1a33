//! Settings that survive a restart, kept as `key = value` lines. A dozen
//! scalars do not need a serialiser.

use vstd::prelude::*;
use crate::types::Color;
use crate::pgn::{is_ws, strip, strip_chars, strip_end, strip_start};
use crate::text::{chars_are, decimal, digit_char, digit_value, drop_cr, first_index, lemma_lines_of_line, lines, push_decimal, push_str, split_lines, string_of};
use crate::uci::{all_digits, digits_value, i32_text, parse_i32, parse_u32, parse_u64, u32_text, u64_text};

verus! {

/// The colour schemes of the board.
#[derive(Clone, Copy, Debug, PartialEq, Eq, Structural)]
pub enum ThemeVariant {
    ClassicMonochrome,
    WarmMinimal,
    ModernDark,
}

impl ThemeVariant {
    pub open spec fn name_text(self) -> Seq<char> {
        match self {
            ThemeVariant::ClassicMonochrome => "Classic Monochrome"@,
            ThemeVariant::WarmMinimal => "Warm Minimal"@,
            ThemeVariant::ModernDark => "Modern Dark"@,
        }
    }

    /// The name shown in the theme menu.
    pub fn name(&self) -> (s: &'static str)
        ensures
            s@ == self.name_text(),
    {
        match self {
            ThemeVariant::ClassicMonochrome => "Classic Monochrome",
            ThemeVariant::WarmMinimal => "Warm Minimal",
            ThemeVariant::ModernDark => "Modern Dark",
        }
    }

    /// Every theme, in menu order.
    pub fn all() -> (r: [ThemeVariant; 3])
        ensures
            r@ == seq![ThemeVariant::ClassicMonochrome, ThemeVariant::WarmMinimal, ThemeVariant::ModernDark],
    {
        [ThemeVariant::ClassicMonochrome, ThemeVariant::WarmMinimal, ThemeVariant::ModernDark]
    }

    pub open spec fn key_text(self) -> Seq<char> {
        match self {
            ThemeVariant::ClassicMonochrome => "classic-monochrome"@,
            ThemeVariant::WarmMinimal => "warm-minimal"@,
            ThemeVariant::ModernDark => "modern-dark"@,
        }
    }

    /// The name the settings file stores.
    pub fn key(self) -> (s: &'static str)
        ensures
            s@ == self.key_text(),
    {
        match self {
            ThemeVariant::ClassicMonochrome => "classic-monochrome",
            ThemeVariant::WarmMinimal => "warm-minimal",
            ThemeVariant::ModernDark => "modern-dark",
        }
    }
}

/// The theme whose stored name is `key`.
pub open spec fn theme_from_key_spec(key: Seq<char>) -> Option<ThemeVariant> {
    if key == ThemeVariant::ClassicMonochrome.key_text() {
        Some(ThemeVariant::ClassicMonochrome)
    } else if key == ThemeVariant::WarmMinimal.key_text() {
        Some(ThemeVariant::WarmMinimal)
    } else if key == ThemeVariant::ModernDark.key_text() {
        Some(ThemeVariant::ModernDark)
    } else {
        None
    }
}

/// The theme whose stored name is `key`, the first in menu order.
pub fn theme_from_key(key: &Vec<char>) -> (t: Option<ThemeVariant>)
    ensures
        t == theme_from_key_spec(key@),
{
    if chars_are(key, ThemeVariant::ClassicMonochrome.key()) {
        Some(ThemeVariant::ClassicMonochrome)
    } else if chars_are(key, ThemeVariant::WarmMinimal.key()) {
        Some(ThemeVariant::WarmMinimal)
    } else if chars_are(key, ThemeVariant::ModernDark.key()) {
        Some(ThemeVariant::ModernDark)
    } else {
        None
    }
}

/// Engine operating mode.
#[derive(Clone, Copy, Debug, PartialEq, Eq, Structural)]
pub enum EngineMode {
    /// Fixed search depth.
    Depth,
    /// Time-limited search.
    TimeLimit,
}

/// Style for displaying captured pieces.
#[derive(Clone, Copy, Debug, PartialEq, Eq, Structural)]
pub enum CapturedPiecesStyle {
    /// Show only the advantage (Lichess style).
    Lichess,
    /// Show all captured pieces for both sides (Chess.com style).
    ChessCom,
}

/// Everything the user can set that is not part of a game.
#[derive(Clone, Copy, Debug, PartialEq, Eq, Structural)]
pub struct Settings {
    pub theme: ThemeVariant,
    pub engine_mode: EngineMode,
    pub engine_depth: u32,
    pub engine_movetime: u64,
    pub engine_skill_level: i32,
    pub show_eval_bar: bool,
    pub captured_display_style: CapturedPiecesStyle,
    pub computer_color: Color,
}

/// The settings of a fresh start.
pub open spec fn default_settings() -> Settings {
    Settings {
        theme: ThemeVariant::ClassicMonochrome,
        engine_mode: EngineMode::Depth,
        engine_depth: 20,
        engine_movetime: 1000,
        engine_skill_level: 20,
        show_eval_bar: true,
        captured_display_style: CapturedPiecesStyle::Lichess,
        computer_color: Color::Black,
    }
}

impl Default for Settings {
    fn default() -> (s: Settings)
        ensures
            s == default_settings(),
    {
        Settings {
            theme: ThemeVariant::ClassicMonochrome,
            engine_mode: EngineMode::Depth,
            engine_depth: 20,
            engine_movetime: 1000,
            engine_skill_level: 20,
            show_eval_bar: true,
            captured_display_style: CapturedPiecesStyle::Lichess,
            computer_color: Color::Black,
        }
    }
}

/// `level` held within 0 to 20.
pub open spec fn clamp_skill(level: i32) -> i32 {
    if level < 0 { 0 } else if level > 20 { 20 } else { level }
}

/// The settings after one `key = value` line: a known key with a value that
/// reads sets its field; anything else changes nothing.
pub open spec fn settings_line(st: Settings, line: Seq<char>) -> Settings {
    match first_index(line, '=') {
        None => st,
        Some(i) => settings_entry(st, strip(line.take(i as int), false), strip(line.skip(i + 1 as int), false)),
    }
}

/// The settings after the entry `key` = `value`, both trimmed.
#[verifier::opaque]
pub open spec fn settings_entry(st: Settings, key: Seq<char>, value: Seq<char>) -> Settings {
    if key == "theme"@ {
        match theme_from_key_spec(value) {
            Some(t) => Settings { theme: t, ..st },
            None => st,
        }
    } else if key == "engine_mode"@ {
        if value == "depth"@ {
            Settings { engine_mode: EngineMode::Depth, ..st }
        } else if value == "time"@ {
            Settings { engine_mode: EngineMode::TimeLimit, ..st }
        } else {
            st
        }
    } else if key == "engine_depth"@ {
        match u32_text(value) {
            Some(d) => Settings { engine_depth: d, ..st },
            None => st,
        }
    } else if key == "engine_movetime"@ {
        match u64_text(value) {
            Some(t) => Settings { engine_movetime: t, ..st },
            None => st,
        }
    } else if key == "skill_level"@ {
        match i32_text(value) {
            Some(l) => Settings { engine_skill_level: clamp_skill(l), ..st },
            None => st,
        }
    } else if key == "show_eval_bar"@ {
        if value == "true"@ {
            Settings { show_eval_bar: true, ..st }
        } else if value == "false"@ {
            Settings { show_eval_bar: false, ..st }
        } else {
            st
        }
    } else if key == "captured_style"@ {
        if value == "lichess"@ {
            Settings { captured_display_style: CapturedPiecesStyle::Lichess, ..st }
        } else if value == "chesscom"@ {
            Settings { captured_display_style: CapturedPiecesStyle::ChessCom, ..st }
        } else {
            st
        }
    } else if key == "computer_color"@ {
        if value == "white"@ {
            Settings { computer_color: Color::White, ..st }
        } else if value == "black"@ {
            Settings { computer_color: Color::Black, ..st }
        } else {
            st
        }
    } else {
        st
    }
}

/// The settings after the first `n` lines, from the defaults.
pub open spec fn settings_after(ls: Seq<Seq<char>>, n: nat) -> Settings
    decreases n,
{
    if n == 0 || n > ls.len() {
        default_settings()
    } else {
        settings_line(settings_after(ls, (n - 1) as nat), ls[n - 1])
    }
}

/// What `Settings::parse` reads from `text`.
pub open spec fn parse_spec(text: Seq<char>) -> Settings {
    settings_after(lines(text), lines(text).len())
}

/// `n` in decimal with a minus sign when negative.
pub open spec fn signed_decimal(n: int) -> Seq<char> {
    if n < 0 { seq!['-'] + decimal((-n) as nat) } else { decimal(n as nat) }
}

pub open spec fn mode_text(m: EngineMode) -> Seq<char> {
    match m {
        EngineMode::Depth => "depth"@,
        EngineMode::TimeLimit => "time"@,
    }
}

pub open spec fn bool_text(b: bool) -> Seq<char> {
    if b { "true"@ } else { "false"@ }
}

pub open spec fn style_text(s: CapturedPiecesStyle) -> Seq<char> {
    match s {
        CapturedPiecesStyle::Lichess => "lichess"@,
        CapturedPiecesStyle::ChessCom => "chesscom"@,
    }
}

pub open spec fn color_text(c: Color) -> Seq<char> {
    match c {
        Color::White => "white"@,
        Color::Black => "black"@,
    }
}

/// One line of the settings file.
pub open spec fn entry(key: Seq<char>, value: Seq<char>) -> Seq<char> {
    key + " = "@ + value + seq!['\n']
}

/// The settings file for `s`.
pub open spec fn settings_text(s: Settings) -> Seq<char> {
    entry("theme"@, s.theme.key_text()) + entry("engine_mode"@, mode_text(s.engine_mode))
        + entry("engine_depth"@, decimal(s.engine_depth as nat)) + entry("engine_movetime"@, decimal(s.engine_movetime as nat))
        + entry("skill_level"@, signed_decimal(s.engine_skill_level as int)) + entry("show_eval_bar"@, bool_text(s.show_eval_bar))
        + entry("captured_style"@, style_text(s.captured_display_style)) + entry("computer_color"@, color_text(s.computer_color))
}

/// Appends one `key = value` line.
fn push_entry(out: &mut Vec<char>, key: &str, value: &str)
    ensures
        final(out)@ == old(out)@ + entry(key@, value@),
{
    push_str(out, key);
    push_str(out, " = ");
    push_str(out, value);
    out.push('\n');
    proof {
        assert(final(out)@ =~= old(out)@ + entry(key@, value@));
    }
}

/// Appends one `key = n` line.
fn push_number_entry(out: &mut Vec<char>, key: &str, n: u64)
    ensures
        final(out)@ == old(out)@ + entry(key@, decimal(n as nat)),
{
    push_str(out, key);
    push_str(out, " = ");
    push_decimal(out, n);
    out.push('\n');
    proof {
        assert(final(out)@ =~= old(out)@ + entry(key@, decimal(n as nat)));
    }
}

impl Settings {
    /// The settings as `key = value` lines.
    pub fn to_text(&self) -> (s: String)
        ensures
            s@ == settings_text(*self),
    {
        let mut out: Vec<char> = Vec::new();
        push_entry(&mut out, "theme", self.theme.key());
        let mode = match self.engine_mode {
            EngineMode::Depth => "depth",
            EngineMode::TimeLimit => "time",
        };
        push_entry(&mut out, "engine_mode", mode);
        push_number_entry(&mut out, "engine_depth", self.engine_depth as u64);
        push_number_entry(&mut out, "engine_movetime", self.engine_movetime);
        let ghost before_skill = out@;
        push_str(&mut out, "skill_level");
        push_str(&mut out, " = ");
        if self.engine_skill_level < 0 {
            out.push('-');
            push_decimal(&mut out, (0 - (self.engine_skill_level as i64)) as u64);
        } else {
            push_decimal(&mut out, self.engine_skill_level as u64);
        }
        out.push('\n');
        proof {
            assert(out@ =~= before_skill + entry("skill_level"@, signed_decimal(self.engine_skill_level as int)));
        }
        push_entry(&mut out, "show_eval_bar", if self.show_eval_bar { "true" } else { "false" });
        let style = match self.captured_display_style {
            CapturedPiecesStyle::Lichess => "lichess",
            CapturedPiecesStyle::ChessCom => "chesscom",
        };
        push_entry(&mut out, "captured_style", style);
        let color = match self.computer_color {
            Color::White => "white",
            Color::Black => "black",
        };
        push_entry(&mut out, "computer_color", color);
        proof {
            assert(out@ =~= settings_text(*self));
        }
        string_of(out.as_slice())
    }
}

/// The characters of `s` from `lo` to `hi`.
fn slice_chars(s: &Vec<char>, lo: usize, hi: usize) -> (out: Vec<char>)
    requires
        lo <= hi <= s@.len(),
    ensures
        out@ == s@.subrange(lo as int, hi as int),
{
    let mut out: Vec<char> = Vec::new();
    let mut k: usize = lo;
    while k < hi
        invariant
            lo <= k <= hi <= s@.len(),
            out@ == s@.subrange(lo as int, k as int),
        decreases hi - k,
    {
        out.push(s[k]);
        k = k + 1;
        proof {
            assert(out@ =~= s@.subrange(lo as int, k as int));
        }
    }
    out
}

/// The index of the first `c` in `s`.
fn find_char(s: &Vec<char>, c: char) -> (r: Option<usize>)
    ensures
        match first_index(s@, c) {
            Some(i) => r == Some(i as usize) && i < s@.len(),
            None => r is None,
        },
        r matches Some(k) ==> k < s@.len(),
{
    let mut i: usize = 0;
    proof {
        assert(s@.skip(0) =~= s@);
    }
    while i < s.len()
        invariant
            i <= s@.len(),
            first_index(s@, c) == (match first_index(s@.skip(i as int), c) {
                Some(j) => Some((j + i) as nat),
                None => None::<nat>,
            }),
        decreases s.len() - i,
    {
        let ghost rest = s@.skip(i as int);
        proof {
            assert(rest.drop_first() =~= s@.skip(i + 1));
        }
        if s[i] == c {
            return Some(i);
        }
        i = i + 1;
    }
    proof {
        assert(s@.skip(i as int).len() == 0);
    }
    None
}

proof fn lemma_first_index_bound(s: Seq<char>, c: char)
    ensures
        first_index(s, c) matches Some(i) ==> i < s.len() && s[i as int] == c,
    decreases s.len(),
{
    if s.len() > 0 && s[0] != c {
        lemma_first_index_bound(s.drop_first(), c);
    }
}

/// The settings after one line of the settings file.
fn apply_line(st: Settings, line: &Vec<char>) -> (r: Settings)
    ensures
        r == settings_line(st, line@),
{
    proof {
        lemma_first_index_bound(line@, '=');
        reveal(settings_entry);
    }
    let found = find_char(line, '=');
    let eq: usize = match found {
        None => return st,
        Some(i) => i,
    };
    let n = line.len();
    assert(eq < n);
    let key = strip_chars(&slice_chars(line, 0, eq), false);
    let value = strip_chars(&slice_chars(line, eq + 1, n), false);
    proof {
        assert(line@.subrange(0, eq as int) =~= line@.take(eq as int));
        assert(line@.subrange(eq + 1, line@.len() as int) =~= line@.skip(eq + 1));
    }
    let mut out = st;
    if chars_are(&key, "theme") {
        if let Some(t) = theme_from_key(&value) {
            out.theme = t;
        }
    } else if chars_are(&key, "engine_mode") {
        if chars_are(&value, "depth") {
            out.engine_mode = EngineMode::Depth;
        } else if chars_are(&value, "time") {
            out.engine_mode = EngineMode::TimeLimit;
        }
    } else if chars_are(&key, "engine_depth") {
        if let Some(d) = parse_u32(&value) {
            out.engine_depth = d;
        }
    } else if chars_are(&key, "engine_movetime") {
        if let Some(t) = parse_u64(&value) {
            out.engine_movetime = t;
        }
    } else if chars_are(&key, "skill_level") {
        if let Some(l) = parse_i32(&value) {
            out.engine_skill_level = if l < 0 { 0 } else if l > 20 { 20 } else { l };
        }
    } else if chars_are(&key, "show_eval_bar") {
        if chars_are(&value, "true") {
            out.show_eval_bar = true;
        } else if chars_are(&value, "false") {
            out.show_eval_bar = false;
        }
    } else if chars_are(&key, "captured_style") {
        if chars_are(&value, "lichess") {
            out.captured_display_style = CapturedPiecesStyle::Lichess;
        } else if chars_are(&value, "chesscom") {
            out.captured_display_style = CapturedPiecesStyle::ChessCom;
        }
    } else if chars_are(&key, "computer_color") {
        if chars_are(&value, "white") {
            out.computer_color = Color::White;
        } else if chars_are(&value, "black") {
            out.computer_color = Color::Black;
        }
    }
    out
}

impl Settings {
    /// Read `key = value` lines; unknown keys and unreadable values keep
    /// their defaults.
    pub fn parse(text: &str) -> (s: Settings)
        ensures
            s == parse_spec(text@),
    {
        let ls = split_lines(text);
        let ghost lv = lines(text@);
        let mut st = Settings::default();
        let mut i: usize = 0;
        while i < ls.len()
            invariant
                ls@.map_values(|l: Vec<char>| l@) == lv,
                i <= ls@.len(),
                st == settings_after(lv, i as nat),
            decreases ls.len() - i,
        {
            proof {
                assert(lv[i as int] == ls@[i as int]@);
            }
            st = apply_line(st, &ls[i]);
            i = i + 1;
        }
        st
    }
}

/// A value as the settings file writes it: not empty, no whitespace at
/// either end, no line break in it.
pub open spec fn plain(s: Seq<char>) -> bool {
    &&& s.len() > 0
    &&& !is_ws(s[0])
    &&& !is_ws(s.last())
    &&& s.last() != '\r'
    &&& forall|i: int| 0 <= i < s.len() ==> s[i] != '\n'
}

/// A key as the settings file writes it: plain, and without `=`.
pub open spec fn plain_key(s: Seq<char>) -> bool {
    &&& plain(s)
    &&& forall|i: int| 0 <= i < s.len() ==> s[i] != '='
}

proof fn lemma_digit(d: nat)
    requires
        d < 10,
    ensures
        digit_value(digit_char(d)) == Some(d),
        '0' <= digit_char(d) <= '9',
{
}

/// The decimal digits of `n` read back as `n`.
proof fn lemma_decimal(n: nat)
    ensures
        decimal(n).len() >= 1,
        all_digits(decimal(n)),
        digits_value(decimal(n)) == n,
        forall|i: int| 0 <= i < decimal(n).len() ==> '0' <= #[trigger] decimal(n)[i] <= '9',
    decreases n,
{
    if n < 10 {
        lemma_digit(n);
        assert(decimal(n).drop_last() =~= Seq::<char>::empty());
        assert(decimal(n).last() == digit_char(n));
        assert(digits_value(decimal(n)) == digits_value(Seq::<char>::empty()) * 10 + n);
    } else {
        lemma_decimal(n / 10);
        lemma_digit(n % 10);
        let s = decimal(n);
        assert(s.drop_last() =~= decimal(n / 10));
        assert(s.last() == digit_char(n % 10));
        assert(digits_value(s) == digits_value(decimal(n / 10)) * 10 + n % 10);
        assert((n / 10) * 10 + n % 10 == n);
        assert(all_digits(s)) by {
            assert forall|i: int| 0 <= i < s.len() implies (#[trigger] digit_value(s[i])) is Some by {
                if i < s.len() - 1 {
                    assert(s[i] == decimal(n / 10)[i]);
                }
            }
        }
        assert forall|i: int| 0 <= i < s.len() implies '0' <= #[trigger] s[i] <= '9' by {
            if i < s.len() - 1 {
                assert(s[i] == decimal(n / 10)[i]);
            }
        }
    }
}

proof fn lemma_decimal_plain(n: nat)
    ensures
        plain(decimal(n)),
        u64_text(decimal(n)) == (if n <= u64::MAX { Some(n as u64) } else { None::<u64> }),
        u32_text(decimal(n)) == (if n <= u32::MAX { Some(n as u32) } else { None::<u32> }),
{
    lemma_decimal(n);
    let s = decimal(n);
    assert('0' <= s[0] <= '9');
    assert('0' <= s.last() <= '9');
}

proof fn lemma_signed_decimal(n: i32)
    ensures
        plain(signed_decimal(n as int)),
        i32_text(signed_decimal(n as int)) == Some(n),
{
    if n < 0 {
        let m = (-n) as nat;
        lemma_decimal(m);
        let s = signed_decimal(n as int);
        assert(s.drop_first() =~= decimal(m));
        assert('0' <= decimal(m).last() <= '9');
        assert(s.last() == decimal(m).last());
        assert forall|i: int| 0 <= i < s.len() implies s[i] != '\n' by {
            if i > 0 {
                assert(s[i] == decimal(m)[i - 1]);
            }
        }
    } else {
        lemma_decimal_plain(n as nat);
        lemma_decimal(n as nat);
        assert('0' <= decimal(n as nat)[0] <= '9');
    }
}

/// The line of `key = value`: its first `=` follows the key and a space,
/// and trimming either side of it gives back the key and the value.
proof fn lemma_entry(key: Seq<char>, value: Seq<char>)
    requires
        plain_key(key),
        plain(value),
    ensures
        ({
            let line = key + " = "@ + value;
            &&& entry(key, value) == line + seq!['\n']
            &&& forall|i: int| 0 <= i < line.len() ==> line[i] != '\n'
            &&& drop_cr(line) == line
            &&& first_index(line, '=') == Some(key.len() + 1)
            &&& strip(line.take(key.len() + 1 as int), false) == key
            &&& strip(line.skip(key.len() + 2 as int), false) == value
        }),
{
    reveal_strlit(" = ");
    let line = key + " = "@ + value;
    assert(entry(key, value) =~= line + seq!['\n']);
    assert forall|i: int| 0 <= i < line.len() implies line[i] != '\n' by {
        if i >= key.len() + 3 {
            assert(line[i] == value[i - key.len() - 3]);
        }
    }
    assert(line.last() == value.last());
    crate::text::lemma_first_index_at(line, '=', key.len() + 1 as int);
    let k1 = line.take(key.len() + 1 as int);
    assert(k1 =~= key.push(' '));
    assert(k1.drop_last() =~= key);
    assert(strip_end(k1, false) == strip_end(key, false));
    assert(strip(k1, false) == key);
    let v1 = line.skip(key.len() + 2 as int);
    assert(v1 =~= seq![' '] + value);
    assert(v1.last() == value.last());
    assert(strip_end(v1, false) == v1);
    assert(v1.drop_first() =~= value);
    assert(strip_start(v1, false) == strip_start(value, false));
}

/// The keys the settings file uses are plain.
proof fn lemma_plain_keys()
    ensures
        plain_key("theme"@),
        plain_key("engine_mode"@),
        plain_key("engine_depth"@),
        plain_key("engine_movetime"@),
        plain_key("skill_level"@),
        plain_key("show_eval_bar"@),
        plain_key("captured_style"@),
        plain_key("computer_color"@),
{
    reveal_strlit("theme");
    reveal_strlit("engine_mode");
    reveal_strlit("engine_depth");
    reveal_strlit("engine_movetime");
    reveal_strlit("skill_level");
    reveal_strlit("show_eval_bar");
    reveal_strlit("captured_style");
    reveal_strlit("computer_color");
}

/// The word values the settings file uses are plain.
proof fn lemma_plain_words()
    ensures
        plain("classic-monochrome"@),
        plain("warm-minimal"@),
        plain("modern-dark"@),
        plain("depth"@),
        plain("time"@),
        plain("true"@),
        plain("false"@),
        plain("lichess"@),
        plain("chesscom"@),
        plain("white"@),
        plain("black"@),
{
    reveal_strlit("classic-monochrome");
    reveal_strlit("warm-minimal");
    reveal_strlit("modern-dark");
    reveal_strlit("depth");
    reveal_strlit("time");
    reveal_strlit("true");
    reveal_strlit("false");
    reveal_strlit("lichess");
    reveal_strlit("chesscom");
    reveal_strlit("white");
    reveal_strlit("black");
}

/// A `key = value` line read back gives the entry it wrote.
proof fn lemma_settings_line(st: Settings, key: Seq<char>, value: Seq<char>)
    requires
        plain_key(key),
        plain(value),
    ensures
        settings_line(st, key + " = "@ + value) == settings_entry(st, key, value),
{
    lemma_entry(key, value);
}

proof fn lemma_theme_entry(st: Settings, t: ThemeVariant)
    ensures
        settings_entry(st, "theme"@, t.key_text()) == (Settings { theme: t, ..st }),
{
    reveal(settings_entry);
    reveal_strlit("theme");
    reveal_strlit("classic-monochrome");
    reveal_strlit("warm-minimal");
    reveal_strlit("modern-dark");
    assert("classic-monochrome"@.len() == 18);
    assert("warm-minimal"@.len() == 12);
    assert("modern-dark"@.len() == 11);
    assert(theme_from_key_spec(t.key_text()) == Some(t));
}

proof fn lemma_mode_entry(st: Settings, m: EngineMode)
    ensures
        settings_entry(st, "engine_mode"@, mode_text(m)) == (Settings { engine_mode: m, ..st }),
{
    reveal(settings_entry);
    reveal_strlit("theme");
    reveal_strlit("engine_mode");
    reveal_strlit("depth");
    reveal_strlit("time");
    assert("theme"@.len() == 5);
    assert("theme"@[0] == 't');
    assert("engine_mode"@.len() == 11);
    assert("engine_mode"@[0] == 'e');
    assert("depth"@.len() == 5);
    assert("depth"@[0] == 'd');
    assert("time"@.len() == 4);
    assert("time"@[0] == 't');
}

proof fn lemma_depth_entry(st: Settings, d: u32)
    ensures
        settings_entry(st, "engine_depth"@, decimal(d as nat)) == (Settings { engine_depth: d, ..st }),
{
    reveal(settings_entry);
    reveal_strlit("theme");
    reveal_strlit("engine_mode");
    reveal_strlit("engine_depth");
    assert("theme"@.len() == 5);
    assert("theme"@[0] == 't');
    assert("engine_mode"@.len() == 11);
    assert("engine_mode"@[0] == 'e');
    assert("engine_depth"@.len() == 12);
    assert("engine_depth"@[0] == 'e');
    lemma_decimal_plain(d as nat);
}

proof fn lemma_movetime_entry(st: Settings, t: u64)
    ensures
        settings_entry(st, "engine_movetime"@, decimal(t as nat)) == (Settings { engine_movetime: t, ..st }),
{
    reveal(settings_entry);
    reveal_strlit("theme");
    reveal_strlit("engine_mode");
    reveal_strlit("engine_depth");
    reveal_strlit("engine_movetime");
    assert("theme"@.len() == 5);
    assert("theme"@[0] == 't');
    assert("engine_mode"@.len() == 11);
    assert("engine_mode"@[0] == 'e');
    assert("engine_depth"@.len() == 12);
    assert("engine_depth"@[0] == 'e');
    assert("engine_movetime"@.len() == 15);
    assert("engine_movetime"@[0] == 'e');
    lemma_decimal_plain(t as nat);
}

proof fn lemma_skill_entry(st: Settings, l: i32)
    ensures
        settings_entry(st, "skill_level"@, signed_decimal(l as int)) == (Settings { engine_skill_level: clamp_skill(l), ..st }),
{
    reveal(settings_entry);
    reveal_strlit("theme");
    reveal_strlit("engine_mode");
    reveal_strlit("engine_depth");
    reveal_strlit("engine_movetime");
    reveal_strlit("skill_level");
    assert("theme"@.len() == 5);
    assert("theme"@[0] == 't');
    assert("engine_mode"@.len() == 11);
    assert("engine_mode"@[0] == 'e');
    assert("engine_depth"@.len() == 12);
    assert("engine_depth"@[0] == 'e');
    assert("engine_movetime"@.len() == 15);
    assert("engine_movetime"@[0] == 'e');
    assert("skill_level"@.len() == 11);
    assert("skill_level"@[0] == 's');
    lemma_signed_decimal(l);
}

proof fn lemma_eval_bar_entry(st: Settings, b: bool)
    ensures
        settings_entry(st, "show_eval_bar"@, bool_text(b)) == (Settings { show_eval_bar: b, ..st }),
{
    reveal(settings_entry);
    reveal_strlit("theme");
    reveal_strlit("engine_mode");
    reveal_strlit("engine_depth");
    reveal_strlit("engine_movetime");
    reveal_strlit("skill_level");
    reveal_strlit("show_eval_bar");
    reveal_strlit("true");
    reveal_strlit("false");
    assert("theme"@.len() == 5);
    assert("theme"@[0] == 't');
    assert("engine_mode"@.len() == 11);
    assert("engine_mode"@[0] == 'e');
    assert("engine_depth"@.len() == 12);
    assert("engine_depth"@[0] == 'e');
    assert("engine_movetime"@.len() == 15);
    assert("engine_movetime"@[0] == 'e');
    assert("skill_level"@.len() == 11);
    assert("skill_level"@[0] == 's');
    assert("show_eval_bar"@.len() == 13);
    assert("show_eval_bar"@[0] == 's');
    assert("true"@.len() == 4);
    assert("true"@[0] == 't');
    assert("false"@.len() == 5);
    assert("false"@[0] == 'f');
}

proof fn lemma_style_entry(st: Settings, c: CapturedPiecesStyle)
    ensures
        settings_entry(st, "captured_style"@, style_text(c)) == (Settings { captured_display_style: c, ..st }),
{
    reveal(settings_entry);
    reveal_strlit("theme");
    reveal_strlit("engine_mode");
    reveal_strlit("engine_depth");
    reveal_strlit("engine_movetime");
    reveal_strlit("skill_level");
    reveal_strlit("show_eval_bar");
    reveal_strlit("captured_style");
    reveal_strlit("lichess");
    reveal_strlit("chesscom");
    assert("theme"@.len() == 5);
    assert("theme"@[0] == 't');
    assert("engine_mode"@.len() == 11);
    assert("engine_mode"@[0] == 'e');
    assert("engine_depth"@.len() == 12);
    assert("engine_depth"@[0] == 'e');
    assert("engine_movetime"@.len() == 15);
    assert("engine_movetime"@[0] == 'e');
    assert("skill_level"@.len() == 11);
    assert("skill_level"@[0] == 's');
    assert("show_eval_bar"@.len() == 13);
    assert("show_eval_bar"@[0] == 's');
    assert("captured_style"@.len() == 14);
    assert("captured_style"@[0] == 'c');
    assert("lichess"@.len() == 7);
    assert("lichess"@[0] == 'l');
    assert("chesscom"@.len() == 8);
    assert("chesscom"@[0] == 'c');
}

proof fn lemma_color_entry(st: Settings, c: Color)
    ensures
        settings_entry(st, "computer_color"@, color_text(c)) == (Settings { computer_color: c, ..st }),
{
    reveal(settings_entry);
    reveal_strlit("theme");
    reveal_strlit("engine_mode");
    reveal_strlit("engine_depth");
    reveal_strlit("engine_movetime");
    reveal_strlit("skill_level");
    reveal_strlit("show_eval_bar");
    reveal_strlit("captured_style");
    reveal_strlit("computer_color");
    reveal_strlit("white");
    reveal_strlit("black");
    assert("theme"@.len() == 5);
    assert("theme"@[0] == 't');
    assert("engine_mode"@.len() == 11);
    assert("engine_mode"@[0] == 'e');
    assert("engine_depth"@.len() == 12);
    assert("engine_depth"@[0] == 'e');
    assert("engine_movetime"@.len() == 15);
    assert("engine_movetime"@[0] == 'e');
    assert("skill_level"@.len() == 11);
    assert("skill_level"@[0] == 's');
    assert("show_eval_bar"@.len() == 13);
    assert("show_eval_bar"@[0] == 's');
    assert("captured_style"@.len() == 14);
    assert("captured_style"@[0] == 'c');
    assert("computer_color"@.len() == 14);
    assert("computer_color"@[0] == 'c');
    assert("white"@.len() == 5);
    assert("white"@[0] == 'w');
    assert("black"@.len() == 5);
    assert("black"@[0] == 'b');
    assert("captured_style"@[1] == 'a');
    assert("computer_color"@[1] == 'o');
}

/// The keys and values of the settings file for `s`, in order.
pub open spec fn settings_entries(s: Settings) -> Seq<(Seq<char>, Seq<char>)> {
    seq![
        ("theme"@, s.theme.key_text()),
        ("engine_mode"@, mode_text(s.engine_mode)),
        ("engine_depth"@, decimal(s.engine_depth as nat)),
        ("engine_movetime"@, decimal(s.engine_movetime as nat)),
        ("skill_level"@, signed_decimal(s.engine_skill_level as int)),
        ("show_eval_bar"@, bool_text(s.show_eval_bar)),
        ("captured_style"@, style_text(s.captured_display_style)),
        ("computer_color"@, color_text(s.computer_color)),
    ]
}

/// The lines of the entries from the `i`-th on.
pub open spec fn entry_lines(es: Seq<(Seq<char>, Seq<char>)>, i: nat) -> Seq<Seq<char>>
    decreases es.len() - i,
{
    if i >= es.len() {
        seq![]
    } else {
        seq![es[i as int].0 + " = "@ + es[i as int].1] + entry_lines(es, i + 1)
    }
}

/// The text of the entries from the `i`-th on.
pub open spec fn entries_text(es: Seq<(Seq<char>, Seq<char>)>, i: nat) -> Seq<char>
    decreases es.len() - i,
{
    if i >= es.len() {
        seq![]
    } else {
        entry(es[i as int].0, es[i as int].1) + entries_text(es, i + 1)
    }
}

proof fn lemma_entries_plain(s: Settings)
    ensures
        forall|i: int| 0 <= i < 8 ==> plain_key(#[trigger] settings_entries(s)[i].0) && plain(settings_entries(s)[i].1),
        settings_entries(s).len() == 8,
{
    lemma_plain_keys();
    lemma_plain_words();
    lemma_decimal_plain(s.engine_depth as nat);
    lemma_decimal_plain(s.engine_movetime as nat);
    lemma_signed_decimal(s.engine_skill_level);
}

/// Written entries read back as their lines.
proof fn lemma_entries_lines(es: Seq<(Seq<char>, Seq<char>)>, i: nat)
    requires
        forall|j: int| 0 <= j < es.len() ==> plain_key(#[trigger] es[j].0) && plain(es[j].1),
    ensures
        lines(entries_text(es, i)) == entry_lines(es, i),
    decreases es.len() - i,
{
    if i < es.len() {
        let (k, v) = es[i as int];
        lemma_entries_lines(es, i + 1);
        lemma_entry(k, v);
        let line = k + " = "@ + v;
        assert(entries_text(es, i) =~= line + seq!['\n'] + entries_text(es, i + 1));
        lemma_lines_of_line(line, entries_text(es, i + 1));
    }
}

proof fn lemma_text_is_entries(s: Settings)
    ensures
        settings_text(s) == entries_text(settings_entries(s), 0),
{
    let es = settings_entries(s);
    reveal_with_fuel(entries_text, 9);
    assert(settings_text(s) =~= entries_text(es, 0));
}

/// The line of entry `i`.
pub open spec fn line_of(es: Seq<(Seq<char>, Seq<char>)>, i: int) -> Seq<char> {
    es[i].0 + " = "@ + es[i].1
}

proof fn lemma_eight_lines(es: Seq<(Seq<char>, Seq<char>)>)
    requires
        es.len() == 8,
    ensures
        entry_lines(es, 0) == seq![line_of(es, 0), line_of(es, 1), line_of(es, 2), line_of(es, 3),
            line_of(es, 4), line_of(es, 5), line_of(es, 6), line_of(es, 7)],
{
    reveal_with_fuel(entry_lines, 9);
    assert(entry_lines(es, 0) =~= seq![line_of(es, 0), line_of(es, 1), line_of(es, 2), line_of(es, 3),
        line_of(es, 4), line_of(es, 5), line_of(es, 6), line_of(es, 7)]);
}

/// The settings after the lines of the eight entries, one entry at a time.
proof fn lemma_read_eight(es: Seq<(Seq<char>, Seq<char>)>, ls: Seq<Seq<char>>)
    requires
        es.len() == 8,
        ls == seq![line_of(es, 0), line_of(es, 1), line_of(es, 2), line_of(es, 3),
            line_of(es, 4), line_of(es, 5), line_of(es, 6), line_of(es, 7)],
        forall|j: int| 0 <= j < es.len() ==> plain_key(#[trigger] es[j].0) && plain(es[j].1),
    ensures
        settings_after(ls, 8) == settings_entry(settings_entry(settings_entry(settings_entry(settings_entry(
            settings_entry(settings_entry(settings_entry(default_settings(), es[0].0, es[0].1), es[1].0, es[1].1),
            es[2].0, es[2].1), es[3].0, es[3].1), es[4].0, es[4].1), es[5].0, es[5].1), es[6].0, es[6].1),
            es[7].0, es[7].1),
{
    lemma_settings_line(settings_after(ls, 0), es[0].0, es[0].1);
    assert(settings_after(ls, 1) == settings_entry(settings_after(ls, 0), es[0].0, es[0].1));
    lemma_settings_line(settings_after(ls, 1), es[1].0, es[1].1);
    assert(settings_after(ls, 2) == settings_entry(settings_after(ls, 1), es[1].0, es[1].1));
    lemma_settings_line(settings_after(ls, 2), es[2].0, es[2].1);
    assert(settings_after(ls, 3) == settings_entry(settings_after(ls, 2), es[2].0, es[2].1));
    lemma_settings_line(settings_after(ls, 3), es[3].0, es[3].1);
    assert(settings_after(ls, 4) == settings_entry(settings_after(ls, 3), es[3].0, es[3].1));
    lemma_settings_line(settings_after(ls, 4), es[4].0, es[4].1);
    assert(settings_after(ls, 5) == settings_entry(settings_after(ls, 4), es[4].0, es[4].1));
    lemma_settings_line(settings_after(ls, 5), es[5].0, es[5].1);
    assert(settings_after(ls, 6) == settings_entry(settings_after(ls, 5), es[5].0, es[5].1));
    lemma_settings_line(settings_after(ls, 6), es[6].0, es[6].1);
    assert(settings_after(ls, 7) == settings_entry(settings_after(ls, 6), es[6].0, es[6].1));
    lemma_settings_line(settings_after(ls, 7), es[7].0, es[7].1);
    assert(settings_after(ls, 8) == settings_entry(settings_after(ls, 7), es[7].0, es[7].1));
}

/// Settings written out and read back are the settings, the skill level held
/// within 0 to 20 as reading it always does.
pub proof fn law_settings_round_trip(s: Settings)
    ensures
        parse_spec(settings_text(s)) == (Settings { engine_skill_level: clamp_skill(s.engine_skill_level), ..s }),
{
    let es = settings_entries(s);
    lemma_entries_plain(s);
    lemma_text_is_entries(s);
    lemma_entries_lines(es, 0);
    lemma_eight_lines(es);
    let ls = entry_lines(es, 0);
    lemma_read_eight(es, ls);
    let d = default_settings();
    let s1 = Settings { theme: s.theme, ..d };
    let s2 = Settings { engine_mode: s.engine_mode, ..s1 };
    let s3 = Settings { engine_depth: s.engine_depth, ..s2 };
    let s4 = Settings { engine_movetime: s.engine_movetime, ..s3 };
    let s5 = Settings { engine_skill_level: clamp_skill(s.engine_skill_level), ..s4 };
    let s6 = Settings { show_eval_bar: s.show_eval_bar, ..s5 };
    let s7 = Settings { captured_display_style: s.captured_display_style, ..s6 };
    lemma_theme_entry(d, s.theme);
    lemma_mode_entry(s1, s.engine_mode);
    lemma_depth_entry(s2, s.engine_depth);
    lemma_movetime_entry(s3, s.engine_movetime);
    lemma_skill_entry(s4, s.engine_skill_level);
    lemma_eval_bar_entry(s5, s.show_eval_bar);
    lemma_style_entry(s6, s.captured_display_style);
    lemma_color_entry(s7, s.computer_color);
}

} // verus!
