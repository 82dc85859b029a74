use vstd::prelude::*;
use syntect::highlighting::Theme as SyntectTheme;
use crate::style::Color;

verus! {

#[verifier::external_type_specification]
#[verifier::external_body]
pub struct ExSyntectTheme(SyntectTheme);

/// syntect's `Theme::clone`, which `derive(Clone)` writes there: the copy is the same theme,
/// field for field.
pub assume_specification[<SyntectTheme as Clone>::clone](original: &SyntectTheme) -> (copy:
    SyntectTheme)
    ensures
        copy == *original,
;

/// Where the field of `s` that starts at `from` ends: the next `';'`, or the end of `s`.
pub open spec fn field_end(s: Seq<char>, from: int) -> int
    decreases s.len() - from,
{
    if from >= s.len() {
        s.len() as int
    } else if s[from] == ';' {
        from
    } else {
        field_end(s, from + 1)
    }
}

/// The second `';'`-separated field of `s`, if it has one.
pub open spec fn second_field(s: Seq<char>) -> Option<Seq<char>> {
    let first_end = field_end(s, 0);
    if first_end >= s.len() {
        None
    } else {
        Some(s.subrange(first_end + 1, field_end(s, first_end + 1)))
    }
}

/// Whether a `COLORFGBG` value (`foreground;background`) names a light background: its
/// background field is `7` (white). Without a value, or without a background field, the
/// terminal is taken to be dark.
pub open spec fn light_background(colorfgbg: Option<Seq<char>>) -> bool {
    match colorfgbg {
        Some(v) => second_field(v) == Some(seq!['7']),
        None => false,
    }
}

/// Tells from the value of `COLORFGBG`, if the variable is set, whether the terminal has a
/// light background.
pub fn terminal_has_light_background(colorfgbg: Option<&str>) -> (light: bool)
    ensures
        light == light_background(match colorfgbg {
            Some(v) => Some(v@),
            None => None,
        }),
{
    match colorfgbg {
        None => false,
        Some(v) => {
            let n = v.unicode_len();
            let first_end = find_field_end(v, 0);
            if first_end >= n {
                return false;
            }
            let second_end = find_field_end(v, first_end + 1);
            if second_end - first_end != 2 {
                proof {
                    if second_field(v@) == Some(seq!['7']) {
                        assert(v@.subrange(first_end + 1, second_end as int).len() == 1);
                    }
                }
                return false;
            }
            let light = v.get_char(first_end + 1) == '7';
            proof {
                if light {
                    assert(v@.subrange(first_end + 1, second_end as int) =~= seq!['7']);
                } else {
                    assert(v@.subrange(first_end + 1, second_end as int)[0] == v@[first_end + 1]);
                }
            }
            light
        },
    }
}

/// Where the field of `s` that starts at `from` ends.
fn find_field_end(s: &str, from: usize) -> (end: usize)
    requires
        from <= s@.len(),
    ensures
        end == field_end(s@, from as int),
        from <= end <= s@.len(),
{
    let n = s.unicode_len();
    let mut i = from;
    while i < n
        invariant
            from <= i <= n,
            n == s@.len(),
            field_end(s@, from as int) == field_end(s@, i as int),
        decreases n - i,
    {
        if s.get_char(i) == ';' {
            return i;
        }
        i = i + 1;
    }
    i
}

/// The theme named `name` in syntect's default theme set (`ThemeSet::load_defaults`, which
/// reads the theme dump built into syntect).
pub uninterp spec fn default_theme(name: Seq<char>) -> SyntectTheme;

/// Loads syntect's default themes (`ThemeSet::load_defaults`) and returns a clone of the one
/// named `name`: the contract claims that the result is the default set's theme of that name.
/// The `requires` keeps to names the default set holds, for which the lookup does not panic.
#[verifier::external_body]
fn load_default_theme(name: &str) -> (theme: SyntectTheme)
    requires
        name@ == "Solarized (light)"@ || name@ == "Solarized (dark)"@,
    ensures
        theme == default_theme(name@),
{
    syntect::highlighting::ThemeSet::load_defaults().themes[name].clone()
}

/// The syntect theme for code on a terminal with a light background or not: Solarized light,
/// or Solarized dark.
pub open spec fn code_theme(light_background: bool) -> SyntectTheme {
    default_theme(
        if light_background {
            "Solarized (light)"@
        } else {
            "Solarized (dark)"@
        },
    )
}

/// The syntect theme for code: Solarized light on a light terminal, Solarized dark otherwise.
pub fn default_syntect_theme(light_background: bool) -> (theme: SyntectTheme)
    ensures
        theme == code_theme(light_background),
{
    if light_background {
        load_default_theme("Solarized (light)")
    } else {
        load_default_theme("Solarized (dark)")
    }
}

/// The colors the viewer draws with, and the syntect theme for code.
#[derive(Clone, Debug)]
pub struct ThemeColors {
    pub heading_h1: Color,
    pub heading_h2: Color,
    pub heading_h3: Color,
    pub inline_code_fg: Color,
    pub inline_code_bg: Color,
    pub border: Color,
    pub table_header: Color,
    pub list_bullet: Color,
    pub image_placeholder: Color,
    /// Syntect theme for code block syntax highlighting.
    pub syntect_theme: SyntectTheme,
}

/// The color themes the viewer offers.
#[derive(Clone, Copy, Debug, PartialEq, Eq, Structural)]
pub enum Theme {
    /// Terminal-native colors from the user's palette.
    Index,
    /// Dracula theme with fixed RGB colors.
    Dracula,
    /// Solarized Dark theme with fixed RGB colors.
    SolarizedDark,
}

impl Default for Theme {
    fn default() -> (t: Theme)
        ensures
            t == Theme::Index,
    {
        Theme::Index
    }
}

impl ThemeColors {
    /// The nine colors of a theme, in field order.
    pub open spec fn has_palette(&self, theme: Theme) -> bool {
        match theme {
            Theme::Index => {
                &&& self.heading_h1 == Color::Indexed(5)
                &&& self.heading_h2 == Color::Indexed(4)
                &&& self.heading_h3 == Color::Indexed(6)
                &&& self.inline_code_fg == Color::Indexed(7)
                &&& self.inline_code_bg == Color::Indexed(8)
                &&& self.border == Color::Indexed(8)
                &&& self.table_header == Color::Indexed(5)
                &&& self.list_bullet == Color::Indexed(5)
                &&& self.image_placeholder == Color::Indexed(6)
            },
            Theme::Dracula => {
                &&& self.heading_h1 == Color::Rgb(255, 121, 198)
                &&& self.heading_h2 == Color::Rgb(189, 147, 249)
                &&& self.heading_h3 == Color::Rgb(139, 233, 253)
                &&& self.inline_code_fg == Color::Rgb(207, 207, 194)
                &&& self.inline_code_bg == Color::Rgb(68, 71, 90)
                &&& self.border == Color::Rgb(98, 114, 164)
                &&& self.table_header == Color::Rgb(255, 121, 198)
                &&& self.list_bullet == Color::Rgb(255, 121, 198)
                &&& self.image_placeholder == Color::Rgb(98, 114, 164)
            },
            Theme::SolarizedDark => {
                &&& self.heading_h1 == Color::Rgb(220, 50, 47)
                &&& self.heading_h2 == Color::Rgb(211, 54, 130)
                &&& self.heading_h3 == Color::Rgb(42, 161, 152)
                &&& self.inline_code_fg == Color::Rgb(238, 232, 213)
                &&& self.inline_code_bg == Color::Rgb(70, 75, 90)
                &&& self.border == Color::Rgb(101, 123, 131)
                &&& self.table_header == Color::Rgb(211, 54, 130)
                &&& self.list_bullet == Color::Rgb(211, 54, 130)
                &&& self.image_placeholder == Color::Rgb(101, 185, 202)
            },
        }
    }

    /// The heading color for a level: H1, H2, and the H3 color for levels 3 to 6.
    pub fn heading_color(&self, level: u8) -> (c: Color)
        ensures
            c == (if level == 1 {
                self.heading_h1
            } else if level == 2 {
                self.heading_h2
            } else {
                self.heading_h3
            }),
    {
        match level {
            1 => self.heading_h1,
            2 => self.heading_h2,
            _ => self.heading_h3,
        }
    }

    /// The colors of a theme, with the syntect theme that suits the terminal's background.
    pub fn from_theme(theme: Theme, light_background: bool) -> (colors: Self)
        ensures
            colors.has_palette(theme),
            colors.syntect_theme == code_theme(light_background),
    {
        let syntect_theme = default_syntect_theme(light_background);
        match theme {
            Theme::Index => Self::index_colors(syntect_theme),
            Theme::Dracula => Self::dracula_colors(syntect_theme),
            Theme::SolarizedDark => Self::solarized_dark_colors(syntect_theme),
        }
    }

    /// Terminal-native colors, which follow the user's terminal palette.
    fn index_colors(syntect_theme: SyntectTheme) -> (colors: Self)
        ensures
            colors.has_palette(Theme::Index),
            colors.syntect_theme == syntect_theme,
    {
        Self {
            heading_h1: Color::Indexed(5),
            heading_h2: Color::Indexed(4),
            heading_h3: Color::Indexed(6),
            inline_code_fg: Color::Indexed(7),
            inline_code_bg: Color::Indexed(8),
            border: Color::Indexed(8),
            table_header: Color::Indexed(5),
            list_bullet: Color::Indexed(5),
            image_placeholder: Color::Indexed(6),
            syntect_theme,
        }
    }

    /// The Dracula colors.
    fn dracula_colors(syntect_theme: SyntectTheme) -> (colors: Self)
        ensures
            colors.has_palette(Theme::Dracula),
            colors.syntect_theme == syntect_theme,
    {
        Self {
            heading_h1: Color::Rgb(255, 121, 198),
            heading_h2: Color::Rgb(189, 147, 249),
            heading_h3: Color::Rgb(139, 233, 253),
            inline_code_fg: Color::Rgb(207, 207, 194),
            inline_code_bg: Color::Rgb(68, 71, 90),
            border: Color::Rgb(98, 114, 164),
            table_header: Color::Rgb(255, 121, 198),
            list_bullet: Color::Rgb(255, 121, 198),
            image_placeholder: Color::Rgb(98, 114, 164),
            syntect_theme,
        }
    }

    /// The Solarized Dark colors.
    fn solarized_dark_colors(syntect_theme: SyntectTheme) -> (colors: Self)
        ensures
            colors.has_palette(Theme::SolarizedDark),
            colors.syntect_theme == syntect_theme,
    {
        Self {
            heading_h1: Color::Rgb(220, 50, 47),
            heading_h2: Color::Rgb(211, 54, 130),
            heading_h3: Color::Rgb(42, 161, 152),
            inline_code_fg: Color::Rgb(238, 232, 213),
            inline_code_bg: Color::Rgb(70, 75, 90),
            border: Color::Rgb(101, 123, 131),
            table_header: Color::Rgb(211, 54, 130),
            list_bullet: Color::Rgb(211, 54, 130),
            image_placeholder: Color::Rgb(101, 185, 202),
            syntect_theme,
        }
    }
}

} // verus!
