//! Colours: the accent, the light and dark variants, the presets.

use vstd::prelude::*;

use crate::render::out::Color;
use crate::text;
use crate::text::{chars_of, find_text, same_text, slice_text, split};

verus! {

/// The accent colour that is used until another is chosen.
pub const DEFAULT_ACCENT: u8 = 147;

/// The colours in use.
#[derive(Clone, Copy, Debug, PartialEq, Eq, Structural)]
pub struct Theme {
    pub accent: u8,
    /// Colour of the task label; zero stands for the accent.
    pub slug: u8,
    /// Whether the terminal has a light background.
    pub light: bool,
}

/// The theme at start-up: default accent on a dark background.
pub open spec fn default_theme() -> Theme {
    Theme { accent: DEFAULT_ACCENT, slug: 0, light: false }
}

impl Default for Theme {
    fn default() -> (r: Theme)
        ensures
            r == default_theme(),
    {
        Theme { accent: DEFAULT_ACCENT, slug: 0, light: false }
    }
}

impl Theme {
    pub open spec fn accent_color(self) -> Color {
        Color::AnsiValue(self.accent)
    }

    /// The task label's colour: the accent unless one was chosen.
    pub open spec fn slug_hue(self) -> Color {
        if self.slug == 0 {
            self.accent_color()
        } else {
            Color::AnsiValue(self.slug)
        }
    }

    /// `light` on a light background, `dark` on a dark one.
    pub open spec fn pick(self, light: Color, dark: Color) -> Color {
        if self.light {
            light
        } else {
            dark
        }
    }

    pub open spec fn tool_pending_color(self) -> Color {
        self.pick(Color::AnsiValue(250), Color::DarkGrey)
    }

    pub open spec fn user_bg_color(self) -> Color {
        self.pick(Color::AnsiValue(254), Color::AnsiValue(236))
    }

    pub open spec fn code_block_bg_color(self) -> Color {
        self.pick(Color::AnsiValue(255), Color::AnsiValue(233))
    }

    pub open spec fn bar_color(self) -> Color {
        self.pick(Color::AnsiValue(252), Color::AnsiValue(237))
    }

    pub open spec fn selection_bg_color(self) -> Color {
        self.pick(Color::AnsiValue(189), Color::AnsiValue(238))
    }

    pub open spec fn reason_off_color(self) -> Color {
        self.pick(Color::AnsiValue(250), Color::DarkGrey)
    }
}

// Palette entries with a fixed meaning.
pub const APPLY: u8 = 141;

pub const HEADING: u8 = 214;

pub const MUTED: u8 = 244;

pub const REASON_LOW: u8 = 75;

pub const REASON_MED: u8 = 214;

pub const REASON_HIGH: u8 = 203;

pub const REASON_MAX: u8 = 196;

pub const PLAN: u8 = 79;

pub const YOLO: u8 = 204;

pub const EXEC: u8 = 197;

pub const SUCCESS: u8 = 114;

pub const ERROR: Color = Color::Red;

pub const AGENT: u8 = 75;

/// The accent colour.
pub fn accent(theme: &Theme) -> (r: Color)
    ensures
        r == theme.accent_color(),
{
    Color::AnsiValue(theme.accent)
}

/// Chooses the accent.
pub fn set_accent(theme: &mut Theme, value: u8)
    ensures
        *final(theme) == (Theme { accent: value, ..*old(theme) }),
{
    theme.accent = value;
}

/// The palette entry of the accent.
pub fn accent_value(theme: &Theme) -> (r: u8)
    ensures
        r == theme.accent,
{
    theme.accent
}

/// The colour of the task label.
pub fn slug_color(theme: &Theme) -> (r: Color)
    ensures
        r == theme.slug_hue(),
{
    if theme.slug == 0 {
        accent(theme)
    } else {
        Color::AnsiValue(theme.slug)
    }
}

/// Chooses the colour of the task label; zero goes back to the accent.
pub fn set_slug_color(theme: &mut Theme, value: u8)
    ensures
        *final(theme) == (Theme { slug: value, ..*old(theme) }),
{
    theme.slug = value;
}

/// The palette entry chosen for the task label, zero for the accent.
pub fn slug_color_value(theme: &Theme) -> (r: u8)
    ensures
        r == theme.slug,
{
    theme.slug
}

/// Whether the background is light.
pub fn is_light(theme: &Theme) -> (r: bool)
    ensures
        r == theme.light,
{
    theme.light
}

/// Says whether the background is light.
pub fn set_light(theme: &mut Theme, light: bool)
    ensures
        *final(theme) == (Theme { light, ..*old(theme) }),
{
    theme.light = light;
}

fn pick(theme: &Theme, light: Color, dark: Color) -> (r: Color)
    ensures
        r == theme.pick(light, dark),
{
    if theme.light {
        light
    } else {
        dark
    }
}

pub fn tool_pending(theme: &Theme) -> (r: Color)
    ensures
        r == theme.tool_pending_color(),
{
    pick(theme, Color::AnsiValue(250), Color::DarkGrey)
}

pub fn user_bg(theme: &Theme) -> (r: Color)
    ensures
        r == theme.user_bg_color(),
{
    pick(theme, Color::AnsiValue(254), Color::AnsiValue(236))
}

pub fn code_block_bg(theme: &Theme) -> (r: Color)
    ensures
        r == theme.code_block_bg_color(),
{
    pick(theme, Color::AnsiValue(255), Color::AnsiValue(233))
}

pub fn bar(theme: &Theme) -> (r: Color)
    ensures
        r == theme.bar_color(),
{
    pick(theme, Color::AnsiValue(252), Color::AnsiValue(237))
}

pub fn selection_bg(theme: &Theme) -> (r: Color)
    ensures
        r == theme.selection_bg_color(),
{
    pick(theme, Color::AnsiValue(189), Color::AnsiValue(238))
}

pub fn reason_off(theme: &Theme) -> (r: Color)
    ensures
        r == theme.reason_off_color(),
{
    pick(theme, Color::AnsiValue(250), Color::DarkGrey)
}

/// The colour of secondary text.
pub fn muted() -> (r: Color)
    ensures
        r == Color::AnsiValue(MUTED),
{
    Color::AnsiValue(MUTED)
}

/// One preset: its name, what it looks like, and its palette entry.
pub struct Preset {
    pub name: &'static str,
    pub detail: &'static str,
    pub value: u8,
}

/// The palette entry of the preset called `name`.
pub open spec fn preset_value(name: Seq<char>) -> Option<u8> {
    if name == "lavender"@ {
        Some(DEFAULT_ACCENT)
    } else if name == "sky"@ {
        Some(117)
    } else if name == "blue"@ {
        Some(69)
    } else if name == "mint"@ {
        Some(115)
    } else if name == "rose"@ {
        Some(211)
    } else if name == "peach"@ {
        Some(209)
    } else if name == "lilac"@ {
        Some(183)
    } else if name == "gold"@ {
        Some(220)
    } else if name == "ember"@ {
        Some(208)
    } else if name == "ice"@ {
        Some(159)
    } else if name == "sage"@ {
        Some(108)
    } else if name == "coral"@ {
        Some(210)
    } else if name == "silver"@ {
        Some(244)
    } else {
        None
    }
}

/// The presets, in the order in which they are offered.
pub fn presets() -> (r: Vec<Preset>)
    ensures
        r@.len() == 13,
        r@[0].value == DEFAULT_ACCENT,
        r@[1].value == 117,
        r@[2].value == 69,
        r@[3].value == 115,
        r@[4].value == 211,
        r@[5].value == 209,
        r@[6].value == 183,
        r@[7].value == 220,
        r@[8].value == 208,
        r@[9].value == 159,
        r@[10].value == 108,
        r@[11].value == 210,
        r@[12].value == 244,
        r@[0].name@ == "lavender"@,
        r@[1].name@ == "sky"@,
        r@[2].name@ == "blue"@,
        r@[3].name@ == "mint"@,
        r@[4].name@ == "rose"@,
        r@[5].name@ == "peach"@,
        r@[6].name@ == "lilac"@,
        r@[7].name@ == "gold"@,
        r@[8].name@ == "ember"@,
        r@[9].name@ == "ice"@,
        r@[10].name@ == "sage"@,
        r@[11].name@ == "coral"@,
        r@[12].name@ == "silver"@,
        r@[0].detail@ == "default"@,
        r@[1].detail@ == "light blue"@,
        r@[2].detail@ == "classic blue"@,
        r@[3].detail@ == "soft green"@,
        r@[4].detail@ == "soft pink"@,
        r@[5].detail@ == "warm coral"@,
        r@[6].detail@ == "purple"@,
        r@[7].detail@ == "warm yellow"@,
        r@[8].detail@ == "deep orange"@,
        r@[9].detail@ == "cool white-blue"@,
        r@[10].detail@ == "muted green"@,
        r@[11].detail@ == "salmon pink"@,
        r@[12].detail@ == "grey"@,
{
    vec![
        Preset { name: "lavender", detail: "default", value: DEFAULT_ACCENT },
        Preset { name: "sky", detail: "light blue", value: 117 },
        Preset { name: "blue", detail: "classic blue", value: 69 },
        Preset { name: "mint", detail: "soft green", value: 115 },
        Preset { name: "rose", detail: "soft pink", value: 211 },
        Preset { name: "peach", detail: "warm coral", value: 209 },
        Preset { name: "lilac", detail: "purple", value: 183 },
        Preset { name: "gold", detail: "warm yellow", value: 220 },
        Preset { name: "ember", detail: "deep orange", value: 208 },
        Preset { name: "ice", detail: "cool white-blue", value: 159 },
        Preset { name: "sage", detail: "muted green", value: 108 },
        Preset { name: "coral", detail: "salmon pink", value: 210 },
        Preset { name: "silver", detail: "grey", value: 244 },
    ]
}

/// The palette entry of a preset.
pub fn preset_by_name(name: &str) -> (r: Option<u8>)
    ensures
        r == preset_value(name@),
{
    if same_text(name, "lavender") {
        Some(DEFAULT_ACCENT)
    } else if same_text(name, "sky") {
        Some(117)
    } else if same_text(name, "blue") {
        Some(69)
    } else if same_text(name, "mint") {
        Some(115)
    } else if same_text(name, "rose") {
        Some(211)
    } else if same_text(name, "peach") {
        Some(209)
    } else if same_text(name, "lilac") {
        Some(183)
    } else if same_text(name, "gold") {
        Some(220)
    } else if same_text(name, "ember") {
        Some(208)
    } else if same_text(name, "ice") {
        Some(159)
    } else if same_text(name, "sage") {
        Some(108)
    } else if same_text(name, "coral") {
        Some(210)
    } else if same_text(name, "silver") {
        Some(244)
    } else {
        None
    }
}

// ── Numbers in text ──────────────────────────────────────────────────────

/// The value of a digit in base 16, if the character is one.
pub open spec fn hex_value(c: char) -> Option<int> {
    if '0' <= c && c <= '9' {
        Some(c as int - 48)
    } else if 'a' <= c && c <= 'f' {
        Some(c as int - 87)
    } else if 'A' <= c && c <= 'F' {
        Some(c as int - 55)
    } else {
        None
    }
}

/// The number that the digits of `s` write in base `radix`, if all are
/// digits of that base.
pub open spec fn digits_value(s: Seq<char>, radix: int) -> Option<int>
    decreases s.len(),
{
    if s.len() == 0 {
        Some(0)
    } else {
        match (digits_value(s.drop_last(), radix), hex_value(s.last())) {
            (Some(v), Some(d)) => if d < radix {
                Some(v * radix + d)
            } else {
                None
            },
            _ => None,
        }
    }
}

/// The byte that `s` writes in base `radix`: digits, with a plus sign before
/// them or not, and a value below 256.
pub open spec fn byte_value(s: Seq<char>, radix: int) -> Option<u8> {
    let digits = if s.len() > 0 && s[0] == '+' {
        s.skip(1)
    } else {
        s
    };
    if digits.len() == 0 {
        None
    } else {
        match digits_value(digits, radix) {
            Some(v) => if v < 256 {
                Some(v as u8)
            } else {
                None
            },
            None => None,
        }
    }
}

fn hex_digit(c: char) -> (r: Option<u32>)
    ensures
        match r {
            Some(v) => hex_value(c) == Some(v as int) && v < 16,
            None => hex_value(c) is None,
        },
{
    if '0' <= c && c <= '9' {
        Some(c as u32 - 48)
    } else if 'a' <= c && c <= 'f' {
        Some(c as u32 - 87)
    } else if 'A' <= c && c <= 'F' {
        Some(c as u32 - 55)
    } else {
        None
    }
}

proof fn lemma_digits_grow(s: Seq<char>, n: int, radix: int)
    requires
        0 <= n <= s.len(),
        radix >= 2,
        digits_value(s, radix) is Some,
    ensures
        digits_value(s.take(n), radix) is Some,
        0 <= digits_value(s.take(n), radix)->0 <= digits_value(s, radix)->0,
    decreases s.len(),
{
    if n == s.len() {
        assert(s.take(n) =~= s);
        if s.len() > 0 {
            lemma_digits_grow(s.drop_last(), n - 1, radix);
            let v = digits_value(s.drop_last(), radix)->0;
            assert(s.drop_last().take(n - 1) =~= s.drop_last());
            assert(0 <= v * radix) by (nonlinear_arith)
                requires
                    v >= 0,
                    radix >= 2,
            ;
        }
    } else {
        lemma_digits_grow(s.drop_last(), n, radix);
        assert(s.drop_last().take(n) =~= s.take(n));
        let v = digits_value(s.drop_last(), radix)->0;
        lemma_digits_grow(s.drop_last(), s.len() - 1, radix);
        assert(s.drop_last().take(s.len() - 1) =~= s.drop_last());
        assert(v <= v * radix) by (nonlinear_arith)
            requires
                v >= 0,
                radix >= 2,
        ;
    }
}

/// Reads a byte in base `radix`, as `u8::from_str_radix` does.
pub fn parse_byte(s: &str, radix: u32) -> (r: Option<u8>)
    requires
        2 <= radix <= 16,
    ensures
        r == byte_value(s@, radix as int),
{
    let chars = chars_of(s);
    let from: usize = if chars.len() > 0 && chars[0] == '+' {
        1
    } else {
        0
    };
    if from >= chars.len() {
        return None;
    }
    let ghost digits = s@.skip(from as int);
    assert(from == 0 ==> digits =~= s@);
    let mut value: u32 = 0;
    let mut i: usize = from;
    assert(digits.take(0) =~= seq![]);
    while i < chars.len()
        invariant
            2 <= radix <= 16,
            chars@ == s@,
            from <= i <= chars@.len(),
            digits == s@.skip(from as int),
            value < 256,
            digits_value(digits.take(i - from), radix as int) == Some(value as int),
            byte_value(s@, radix as int) == (match digits_value(digits, radix as int) {
                Some(v) => if v < 256 {
                    Some(v as u8)
                } else {
                    None
                },
                None => None,
            }),
        decreases chars@.len() - i,
    {
        let ghost part = digits.take(i + 1 - from);
        proof {
            assert(part.drop_last() =~= digits.take(i - from));
            assert(part.last() == chars@[i as int]);
            if digits_value(digits, radix as int) is Some {
                lemma_digits_grow(digits, i + 1 - from, radix as int);
            }
        }
        match hex_digit(chars[i]) {
            Some(d) => {
                if d >= radix {
                    return None;
                }
                assert(value * radix <= 255 * 16) by (nonlinear_arith)
                    requires
                        value < 256,
                        radix <= 16,
                ;
                value = value * radix + d;
                if value > 255 {
                    return None;
                }
            },
            None => {
                return None;
            },
        }
        i = i + 1;
    }
    assert(digits.take(digits.len() as int) =~= digits);
    Some(value as u8)
}

// ── Background detection ─────────────────────────────────────────────────

/// Whether the terminal's `COLORFGBG` value names a light background: the
/// last of two or three fields is 7 or from 9 to 15.  Nothing when there are
/// other fields or the last one is no byte.
pub open spec fn colorfgbg_light(val: Seq<char>) -> Option<bool> {
    let parts = text::split_on(val, ';');
    if parts.len() == 2 || parts.len() == 3 {
        match byte_value(parts.last(), 10) {
            Some(code) => Some(code == 7 || 9 <= code <= 15),
            None => None,
        }
    } else {
        None
    }
}

/// Reads the terminal's `COLORFGBG` value.
pub fn colorfgbg_is_light(val: &str) -> (r: Option<bool>)
    ensures
        r == colorfgbg_light(val@),
{
    let parts = split(val, ';');
    if parts.len() != 2 && parts.len() != 3 {
        assert(text::texts(parts@).len() == parts@.len());
        return None;
    }
    let last: usize = parts.len() - 1;
    assert(text::texts(parts@).last() == parts@[last as int]@);
    match parse_byte(parts[last].as_str(), 10) {
        Some(code) => Some(code == 7 || (9 <= code && code <= 15)),
        None => None,
    }
}

/// Whether the background is light: by the terminal's own answer if it gave
/// one, else by the `COLORFGBG` value if there is one.
pub open spec fn light_background(osc: Option<bool>, colorfgbg: Option<Seq<char>>) -> Option<bool> {
    match osc {
        Some(light) => Some(light),
        None => match colorfgbg {
            Some(val) => colorfgbg_light(val),
            None => None,
        },
    }
}

/// The view of an optional text.
pub open spec fn opt_text(s: Option<&str>) -> Option<Seq<char>> {
    match s {
        Some(t) => Some(t@),
        None => None,
    }
}

/// Decides between the terminal's answer and the `COLORFGBG` value.
pub fn detect_light_background(osc: Option<bool>, colorfgbg: Option<&str>) -> (r: Option<bool>)
    ensures
        r == light_background(osc, opt_text(colorfgbg)),
{
    if let Some(light) = osc {
        return Some(light);
    }
    match colorfgbg {
        Some(val) => colorfgbg_is_light(val),
        None => None,
    }
}

/// Notes whether the background is light; when nothing tells, the theme
/// stays as it is.
pub fn detect_background(theme: &mut Theme, osc: Option<bool>, colorfgbg: Option<&str>)
    ensures
        *final(theme) == (match light_background(osc, opt_text(colorfgbg)) {
            Some(light) => Theme { light, ..*old(theme) },
            None => *old(theme),
        }),
{
    if let Some(light) = detect_light_background(osc, colorfgbg) {
        set_light(theme, light);
    }
}

/// The leading characters of `s` that are hexadecimal digits.
pub open spec fn hex_prefix(s: Seq<char>) -> Seq<char>
    decreases s.len(),
{
    if s.len() > 0 && hex_value(s[0]) is Some {
        seq![s[0]] + hex_prefix(s.skip(1))
    } else {
        seq![]
    }
}

/// The byte in the first two characters of `s`.
pub open spec fn leading_byte(s: Seq<char>) -> Option<u8> {
    if s.len() < 2 {
        None
    } else {
        byte_value(s.take(2), 16)
    }
}

/// Red, green and blue of an answer to the OSC 11 query: behind `rgb:` three
/// fields separated by slashes, of each the first two hexadecimal digits.
pub open spec fn osc11_rgb(response: Seq<char>) -> Option<(u8, u8, u8)> {
    let at = text::find_from(response, "rgb:"@, 0);
    if at > response.len() {
        None
    } else {
        let parts = text::split_on(response.skip(at + 4), '/');
        if parts.len() < 3 {
            None
        } else {
            match (
                leading_byte(parts[0]),
                leading_byte(parts[1]),
                leading_byte(hex_prefix(parts[2])),
            ) {
                (Some(r), Some(g), Some(b)) => Some((r, g, b)),
                _ => None,
            }
        }
    }
}

fn parse_leading_byte(s: &str) -> (r: Option<u8>)
    ensures
        r == leading_byte(s@),
{
    let chars = chars_of(s);
    if chars.len() < 2 {
        return None;
    }
    let two = slice_text(&chars, 0, 2);
    assert(chars@.subrange(0, 2) =~= s@.take(2));
    parse_byte(two.as_str(), 16)
}

fn take_hex(s: &str) -> (r: String)
    ensures
        r@ == hex_prefix(s@),
{
    let chars = chars_of(s);
    let mut t = String::new();
    let mut i: usize = 0;
    assert(s@.skip(0) =~= s@);
    assert(t@ + hex_prefix(s@.skip(0)) =~= hex_prefix(s@));
    while i < chars.len()
        invariant
            chars@ == s@,
            i <= chars@.len(),
            t@ + hex_prefix(s@.skip(i as int)) == hex_prefix(s@),
        decreases chars@.len() - i,
    {
        match hex_digit(chars[i]) {
            Some(_) => {},
            None => {
                assert(t@ + hex_prefix(s@.skip(i as int)) =~= t@);
                return t;
            },
        }
        let ghost before = t@;
        t.push(chars[i]);
        assert(s@.skip(i as int).skip(1) =~= s@.skip(i + 1));
        assert(t@ + hex_prefix(s@.skip(i + 1)) =~= before + hex_prefix(s@.skip(i as int)));
        i = i + 1;
    }
    assert(t@ + hex_prefix(s@.skip(i as int)) =~= t@);
    t
}

/// Reads the background colour out of an answer to the OSC 11 query.
pub fn parse_osc11_response(response: &str) -> (r: Option<(u8, u8, u8)>)
    ensures
        r == osc11_rgb(response@),
{
    let chars = chars_of(response);
    let mark = chars_of("rgb:");
    match find_text(&chars, &mark, 0) {
        None => None,
        Some(at) => {
            proof {
                reveal_strlit("rgb:");
            }
            let total: usize = chars.len();
            let raw = slice_text(&chars, at + 4, total);
            assert(raw@ =~= response@.skip(at + 4));
            let parts = split(raw.as_str(), '/');
            assert(text::texts(parts@).len() == parts@.len());
            if parts.len() < 3 {
                return None;
            }
            assert(text::texts(parts@)[0] == parts@[0]@);
            assert(text::texts(parts@)[1] == parts@[1]@);
            assert(text::texts(parts@)[2] == parts@[2]@);
            let blue = take_hex(parts[2].as_str());
            match (
                parse_leading_byte(parts[0].as_str()),
                parse_leading_byte(parts[1].as_str()),
                parse_leading_byte(blue.as_str()),
            ) {
                (Some(r), Some(g), Some(b)) => Some((r, g, b)),
                _ => None,
            }
        },
    }
}

proof fn lemma_split_behind(a: Seq<char>, c: char, b: Seq<char>)
    requires
        !a.contains(c),
    ensures
        text::split_on(a.push(c) + b, c) == seq![a] + text::split_on(b, c),
{
    let s = a.push(c) + b;
    let n = a.len() as int;
    lemma_char_at(s, c, 0, n);
    assert(s.subrange(0, n) =~= a);
    lemma_split_skip(s, c, n + 1);
    assert(s.skip(n + 1) =~= b);
}

proof fn lemma_char_at(s: Seq<char>, c: char, from: int, at: int)
    requires
        0 <= from <= at < s.len(),
        s[at] == c,
        forall|i: int| from <= i < at ==> s[i] != c,
    ensures
        text::char_from(s, c, from) == at,
    decreases at - from,
{
    if from < at {
        lemma_char_at(s, c, from + 1, at);
    }
}

proof fn lemma_char_skip(s: Seq<char>, c: char, k: int, from: int)
    requires
        0 <= k <= from <= s.len(),
    ensures
        text::char_from(s, c, from) == k + text::char_from(s.skip(k), c, from - k),
    decreases s.len() - from,
{
    if from < s.len() {
        assert(s.skip(k)[from - k] == s[from]);
        if s[from] != c {
            lemma_char_skip(s, c, k, from + 1);
        }
    }
}

proof fn lemma_split_skip(s: Seq<char>, c: char, k: int)
    requires
        0 <= k <= s.len(),
    ensures
        text::split_from(s, c, k) == text::split_on(s.skip(k), c),
{
    lemma_split_shift(s, c, k, k);
}

proof fn lemma_split_shift(s: Seq<char>, c: char, k: int, from: int)
    requires
        0 <= k <= from <= s.len(),
    ensures
        text::split_from(s, c, from) == text::split_from(s.skip(k), c, from - k),
    decreases s.len() - from,
{
    let u = s.skip(k);
    let end = text::char_from(s, c, from);
    text::lemma_char_from(s, c, from);
    lemma_char_skip(s, c, k, from);
    if end >= s.len() {
        assert(s.skip(from) =~= u.skip(from - k));
    } else {
        assert(s.subrange(from, end) =~= u.subrange(from - k, end - k));
        lemma_split_shift(s, c, k, end + 1);
    }
}

/// The value of a hexadecimal digit.
pub open spec fn nibble(c: char) -> int {
    if '0' <= c <= '9' {
        c as int - '0' as int
    } else if 'a' <= c <= 'f' {
        c as int - 'a' as int + 10
    } else {
        c as int - 'A' as int + 10
    }
}

/// Whether a text is two or more hexadecimal digits.
pub open spec fn hex_field(s: Seq<char>) -> bool {
    &&& s.len() >= 2
    &&& forall|i: int|
        0 <= i < s.len() ==> '0' <= #[trigger] s[i] <= '9' || 'a' <= s[i] <= 'f' || 'A' <= s[i]
            <= 'F'
}

proof fn lemma_leading(s: Seq<char>)
    requires
        hex_field(s),
    ensures
        leading_byte(s) is Some,
        leading_byte(s)->0 == 16 * nibble(s[0]) + nibble(s[1]),
        !s.contains('/'),
        hex_prefix(s) == s,
{
    let t = s.take(2);
    assert(s[0] == t[0] && s[1] == t[1]);
    let none = Seq::<char>::empty();
    assert(t.drop_last() =~= seq![s[0]]);
    assert(seq![s[0]].drop_last() =~= none);
    assert(digits_value(none, 16) == Some(0int));
    assert(digits_value(seq![s[0]], 16) == Some(nibble(s[0])));
    assert(digits_value(t, 16) == Some(nibble(s[0]) * 16 + nibble(s[1])));
    assert(s[0] != '+');
    if s.contains('/') {
        let i = choose|i: int| 0 <= i < s.len() && s[i] == '/';
        assert('0' <= s[i] <= '9' || 'a' <= s[i] <= 'f' || 'A' <= s[i] <= 'F');
    }
    lemma_all_hex(s);
}

proof fn lemma_all_hex(s: Seq<char>)
    requires
        forall|i: int|
            0 <= i < s.len() ==> '0' <= #[trigger] s[i] <= '9' || 'a' <= s[i] <= 'f' || 'A' <= s[i]
                <= 'F',
    ensures
        hex_prefix(s) == s,
    decreases s.len(),
{
    if s.len() > 0 {
        let u = s.skip(1);
        assert forall|i: int| 0 <= i < u.len() implies '0' <= #[trigger] u[i] <= '9' || 'a' <= u[i]
            <= 'f' || 'A' <= u[i] <= 'F' by {
            assert(u[i] == s[i + 1]);
        }
        lemma_all_hex(u);
        assert('0' <= s[0] <= '9' || 'a' <= s[0] <= 'f' || 'A' <= s[0] <= 'F');
        assert(seq![s[0]] + u =~= s);
    }
}

/// The colour in the terminal's answer is read off the first two digits of
/// each of its three fields: red, green and blue.
pub proof fn law_background_colour_is_read(r: Seq<char>, g: Seq<char>, b: Seq<char>)
    requires
        hex_field(r),
        hex_field(g),
        hex_field(b),
    ensures
        ({
            let c = osc11_rgb("rgb:"@ + r + "/"@ + g + "/"@ + b);
            c matches Some((x, y, z)) && x == 16 * nibble(r[0]) + nibble(r[1]) && y == 16 * nibble(
                g[0],
            ) + nibble(g[1]) && z == 16 * nibble(b[0]) + nibble(b[1])
        }),
{
    let s = "rgb:"@ + r + "/"@ + g + "/"@ + b;
    reveal_strlit("rgb:");
    reveal_strlit("/");
    assert(s.subrange(0, 4) =~= "rgb:"@);
    assert(text::stands_at(s, "rgb:"@, 0));
    assert(text::find_from(s, "rgb:"@, 0) == 0);
    let t = r.push('/') + (g.push('/') + b);
    assert(s.skip(4) =~= t);
    lemma_leading(r);
    lemma_leading(g);
    lemma_leading(b);
    lemma_split_behind(r, '/', g.push('/') + b);
    lemma_split_behind(g, '/', b);
    text::lemma_char_from(b, '/', 0);
    let end = text::char_from(b, '/', 0);
    if end < b.len() {
        assert(b.contains(b[end]));
    }
    assert(b.skip(0) =~= b);
    let parts = text::split_on(t, '/');
    assert(text::split_on(b, '/') =~= seq![b]);
    assert(parts =~= seq![r] + (seq![g] + seq![b]));
    assert(parts[0] == r && parts[1] == g && parts[2] == b);
}

/// The terminal's own answer decides over `COLORFGBG`, whose last field
/// names a light background when it is 7 or from 9 to 15.
pub proof fn law_background_is_decided(light: bool, fg: Seq<char>, bg: nat)
    requires
        bg < 256,
        !fg.contains(';'),
    ensures
        light_background(Some(light), Some(fg + ";"@ + text::dec(bg))) == Some(light),
        light_background(None, Some(fg + ";"@ + text::dec(bg))) == Some(
            bg == 7 || bg == 9 || bg == 10 || bg == 11 || bg == 12 || bg == 13 || bg == 14 || bg
                == 15,
        ),
        light_background(None, None) is None,
{
    let d = text::dec(bg);
    reveal_strlit(";");
    assert(fg + ";"@ + d =~= fg.push(';') + d);
    text::law_number_reads_back(bg);
    if d.contains(';') {
        let i = choose|i: int| 0 <= i < d.len() && d[i] == ';';
        assert('0' <= d[i] <= '9');
    }
    lemma_split_behind(fg, ';', d);
    text::lemma_char_from(d, ';', 0);
    let end = text::char_from(d, ';', 0);
    if end < d.len() {
        assert(d.contains(d[end]));
    }
    assert(d.skip(0) =~= d);
    assert(text::split_on(d, ';') =~= seq![d]);
    let parts = text::split_on(fg + ";"@ + d, ';');
    assert(parts =~= seq![fg, d]);
    lemma_digits_value(bg);
    assert('0' <= d[0] <= '9');
}

proof fn lemma_digits_value(n: nat)
    ensures
        digits_value(text::dec(n), 10) == Some(n as int),
    decreases n,
{
    let d = text::dec(n);
    if n < 10 {
        assert(d.drop_last() =~= seq![]);
        assert(digits_value(d.drop_last(), 10) == Some(0int));
    } else {
        lemma_digits_value(n / 10);
        assert(d.drop_last() =~= text::dec(n / 10));
    }
}

} // verus!
