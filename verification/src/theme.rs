//! The colours the terminal interface draws with, and the file that overrides them.
use vstd::prelude::*;
use vstd::string::*;

use crate::config::{debug_form, debug_string};
use crate::shell::{hex_digit, hex_value};
use crate::text::{
    all_digits, ascii_lower, chars_of, concat2, concat3, eq_ignoring_case, parse_word, same_ignoring_case,
    str_eq, to_ascii_lower, trim, trimmed, word_number,
};

verus! {

// ─── Colours ──────────────────────────────────────────────────────────────────

/// A colour: one that the terminal's scheme decides, an exact one, or an index into
/// its palette.
#[derive(Debug, Clone, Copy, PartialEq, Eq, Structural)]
pub enum Color {
    Reset,
    Black,
    Red,
    Green,
    Yellow,
    Blue,
    Magenta,
    Cyan,
    Gray,
    DarkGray,
    LightRed,
    LightGreen,
    LightYellow,
    LightBlue,
    LightMagenta,
    LightCyan,
    White,
    Rgb(u8, u8, u8),
    Indexed(u8),
}

/// The palette, by what each colour is for.
#[derive(Debug, Clone, Copy, PartialEq, Eq, Structural)]
pub struct Theme {
    /// Primary text.
    pub text: Color,
    /// Labels, hints, disabled rows.
    pub dim: Color,
    /// The focused thing.
    pub accent: Color,
    /// Pane borders at rest.
    pub border: Color,
    /// The border of the pane that has focus.
    pub border_focus: Color,
    /// Text on a coloured badge.
    pub badge_text: Color,
    /// The band under the cursor line.
    pub cursor_line: Color,
    /// The band under a selection, a step louder.
    pub selection: Color,
    /// Placeholders, and the profiles that fill them in.
    pub variable: Color,
    /// Folders of the request tree.
    pub folder: Color,
    /// The background of a selected row.
    pub row_selected: Color,
    /// Ink on a selected row.
    pub row_selected_text: Color,
    /// 2xx, and `POST`.
    pub success: Color,
    /// 3xx, and `GET`.
    pub info: Color,
    /// 4xx, and `PUT` and `PATCH`.
    pub warning: Color,
    /// 5xx, `DELETE`, and anything that failed.
    pub error: Color,
    pub json_key: Color,
    pub json_string: Color,
    pub json_number: Color,
    pub json_bool: Color,
    pub json_null: Color,
    pub json_punct: Color,
}

/// The palette for a dark terminal: named colours, which follow the terminal's own
/// scheme, but for the two bands.
pub open spec fn dark_theme() -> Theme {
    Theme {
        text: Color::White,
        dim: Color::DarkGray,
        accent: Color::Yellow,
        border: Color::DarkGray,
        border_focus: Color::Cyan,
        badge_text: Color::Black,
        cursor_line: Color::Indexed(237),
        selection: Color::Indexed(240),
        variable: Color::Magenta,
        folder: Color::Blue,
        row_selected: Color::Blue,
        row_selected_text: Color::White,
        success: Color::Green,
        info: Color::Cyan,
        warning: Color::Yellow,
        error: Color::Red,
        json_key: Color::Yellow,
        json_string: Color::Green,
        json_number: Color::Cyan,
        json_bool: Color::Magenta,
        json_null: Color::Red,
        json_punct: Color::DarkGray,
    }
}

/// The palette for a light terminal: exact colours throughout.
pub open spec fn light_theme() -> Theme {
    Theme {
        text: Color::Rgb(28, 28, 28),
        dim: Color::Rgb(108, 108, 108),
        accent: Color::Rgb(175, 95, 0),
        border: Color::Rgb(158, 158, 158),
        border_focus: Color::Rgb(0, 95, 135),
        badge_text: Color::Rgb(255, 255, 255),
        cursor_line: Color::Rgb(218, 218, 218),
        selection: Color::Rgb(188, 188, 188),
        variable: Color::Rgb(135, 0, 175),
        folder: Color::Rgb(0, 95, 175),
        row_selected: Color::Rgb(0, 95, 175),
        row_selected_text: Color::Rgb(255, 255, 255),
        success: Color::Rgb(0, 95, 0),
        info: Color::Rgb(0, 95, 135),
        warning: Color::Rgb(175, 95, 0),
        error: Color::Rgb(175, 0, 0),
        json_key: Color::Rgb(175, 95, 0),
        json_string: Color::Rgb(0, 95, 0),
        json_number: Color::Rgb(0, 95, 135),
        json_bool: Color::Rgb(135, 0, 175),
        json_null: Color::Rgb(175, 0, 0),
        json_punct: Color::Rgb(118, 118, 118),
    }
}

/// The built-in palette of that name, whatever its case.
pub open spec fn built_in(name: Seq<char>) -> Option<Theme> {
    if same_ignoring_case("dark"@, name) {
        Some(dark_theme())
    } else if same_ignoring_case("light"@, name) {
        Some(light_theme())
    } else {
        None
    }
}

impl Default for Theme {
    /// The dark palette.
    fn default() -> (r: Theme)
        ensures
            r == dark_theme(),
    {
        Theme::dark()
    }
}

impl Theme {
    /// The palette for a dark terminal.
    pub fn dark() -> (r: Theme)
        ensures
            r == dark_theme(),
    {
        Theme {
            text: Color::White,
            dim: Color::DarkGray,
            accent: Color::Yellow,
            border: Color::DarkGray,
            border_focus: Color::Cyan,
            badge_text: Color::Black,
            cursor_line: Color::Indexed(237),
            selection: Color::Indexed(240),
            variable: Color::Magenta,
            folder: Color::Blue,
            row_selected: Color::Blue,
            row_selected_text: Color::White,
            success: Color::Green,
            info: Color::Cyan,
            warning: Color::Yellow,
            error: Color::Red,
            json_key: Color::Yellow,
            json_string: Color::Green,
            json_number: Color::Cyan,
            json_bool: Color::Magenta,
            json_null: Color::Red,
            json_punct: Color::DarkGray,
        }
    }

    /// The palette for a light terminal.
    pub fn light() -> (r: Theme)
        ensures
            r == light_theme(),
    {
        Theme {
            text: Color::Rgb(28, 28, 28),
            dim: Color::Rgb(108, 108, 108),
            accent: Color::Rgb(175, 95, 0),
            border: Color::Rgb(158, 158, 158),
            border_focus: Color::Rgb(0, 95, 135),
            badge_text: Color::Rgb(255, 255, 255),
            cursor_line: Color::Rgb(218, 218, 218),
            selection: Color::Rgb(188, 188, 188),
            variable: Color::Rgb(135, 0, 175),
            folder: Color::Rgb(0, 95, 175),
            row_selected: Color::Rgb(0, 95, 175),
            row_selected_text: Color::Rgb(255, 255, 255),
            success: Color::Rgb(0, 95, 0),
            info: Color::Rgb(0, 95, 135),
            warning: Color::Rgb(175, 95, 0),
            error: Color::Rgb(175, 0, 0),
            json_key: Color::Rgb(175, 95, 0),
            json_string: Color::Rgb(0, 95, 0),
            json_number: Color::Rgb(0, 95, 135),
            json_bool: Color::Rgb(135, 0, 175),
            json_null: Color::Rgb(175, 0, 0),
            json_punct: Color::Rgb(118, 118, 118),
        }
    }

    /// The built-in palette of that name.
    pub fn by_name(name: &str) -> (r: Option<Theme>)
        ensures
            r == built_in(name@),
    {
        if eq_ignoring_case("dark", name) {
            Some(Theme::dark())
        } else if eq_ignoring_case("light", name) {
            Some(Theme::light())
        } else {
            None
        }
    }
}

// ─── Reading colours ──────────────────────────────────────────────────────────

/// Why a colour is refused; with the colour as written.
#[derive(Debug, PartialEq, Eq)]
pub enum ColorError {
    NotHex(String),
    OutOfRange(String),
    Unknown(String),
}

/// The same, over text.
pub ghost enum ColorFault {
    NotHex(Seq<char>),
    OutOfRange(Seq<char>),
    Unknown(Seq<char>),
}

impl View for ColorError {
    type V = ColorFault;

    open spec fn view(&self) -> ColorFault {
        match self {
            ColorError::NotHex(s) => ColorFault::NotHex(s@),
            ColorError::OutOfRange(s) => ColorFault::OutOfRange(s@),
            ColorError::Unknown(s) => ColorFault::Unknown(s@),
        }
    }
}

/// The sentence that reports a refused colour.
pub open spec fn color_fault_text(f: ColorFault) -> Seq<char> {
    match f {
        ColorFault::NotHex(s) => debug_form(s) + " is not a #rrggbb color"@,
        ColorFault::OutOfRange(s) => debug_form(s)
            + " is out of range; palette indices are 0-255"@,
        ColorFault::Unknown(s) => debug_form(s)
            + " is not a color; use #rrggbb, an ANSI name like \"yellow\" or \"bright yellow\", or a palette index 0-255"@,
    }
}

impl ColorError {
    /// The sentence that reports this error.
    pub fn message(&self) -> (r: String)
        ensures
            r@ == color_fault_text(self@),
    {
        match self {
            ColorError::NotHex(s) => concat2(
                debug_string(s.as_str()).as_str(),
                " is not a #rrggbb color",
            ),
            ColorError::OutOfRange(s) => concat2(
                debug_string(s.as_str()).as_str(),
                " is out of range; palette indices are 0-255",
            ),
            ColorError::Unknown(s) => concat2(
                debug_string(s.as_str()).as_str(),
                " is not a color; use #rrggbb, an ANSI name like \"yellow\" or \"bright yellow\", or a palette index 0-255",
            ),
        }
    }
}

/// Six hexadecimal digits.
pub open spec fn six_hex(s: Seq<char>) -> bool {
    s.len() == 6 && forall|i: int| 0 <= i < 6 ==> hex_digit(#[trigger] s[i]) is Some
}

/// Two hexadecimal digits as a byte.
pub open spec fn hex_byte(s: Seq<char>, i: int) -> u8 {
    (hex_digit(s[i])->0 * 16 + hex_digit(s[i + 1])->0) as u8
}

/// A colour's name as it is compared: in lower case, without spaces, hyphens and
/// underscores.
pub open spec fn bare_name(s: Seq<char>) -> Seq<char>
    decreases s.len(),
{
    if s.len() == 0 {
        s
    } else {
        let c = ascii_lower(s.last());
        let front = bare_name(s.drop_last());
        if c == ' ' || c == '-' || c == '_' {
            front
        } else {
            front.push(c)
        }
    }
}

/// The colour of a name.
pub open spec fn named_color(n: Seq<char>) -> Option<Color> {
    if n == "black"@ {
        Some(Color::Black)
    } else if n == "red"@ {
        Some(Color::Red)
    } else if n == "green"@ {
        Some(Color::Green)
    } else if n == "yellow"@ {
        Some(Color::Yellow)
    } else if n == "blue"@ {
        Some(Color::Blue)
    } else if n == "magenta"@ {
        Some(Color::Magenta)
    } else if n == "cyan"@ {
        Some(Color::Cyan)
    } else if n == "gray"@ {
        Some(Color::Gray)
    } else if n == "grey"@ {
        Some(Color::Gray)
    } else if n == "darkgray"@ {
        Some(Color::DarkGray)
    } else if n == "darkgrey"@ {
        Some(Color::DarkGray)
    } else if n == "brightblack"@ {
        Some(Color::DarkGray)
    } else if n == "brightred"@ {
        Some(Color::LightRed)
    } else if n == "lightred"@ {
        Some(Color::LightRed)
    } else if n == "brightgreen"@ {
        Some(Color::LightGreen)
    } else if n == "lightgreen"@ {
        Some(Color::LightGreen)
    } else if n == "brightyellow"@ {
        Some(Color::LightYellow)
    } else if n == "lightyellow"@ {
        Some(Color::LightYellow)
    } else if n == "brightblue"@ {
        Some(Color::LightBlue)
    } else if n == "lightblue"@ {
        Some(Color::LightBlue)
    } else if n == "brightmagenta"@ {
        Some(Color::LightMagenta)
    } else if n == "lightmagenta"@ {
        Some(Color::LightMagenta)
    } else if n == "brightcyan"@ {
        Some(Color::LightCyan)
    } else if n == "lightcyan"@ {
        Some(Color::LightCyan)
    } else if n == "white"@ {
        Some(Color::White)
    } else if n == "brightwhite"@ {
        Some(Color::White)
    } else {
        None
    }
}

/// A colour as it is written: `#rrggbb`, a palette index, or a name.
pub open spec fn color_read(spec: Seq<char>) -> Result<Color, ColorFault> {
    let s = trimmed(spec);
    if s.len() > 0 && s[0] == '#' {
        let hex = s.skip(1);
        if six_hex(hex) {
            Ok(Color::Rgb(hex_byte(hex, 0), hex_byte(hex, 2), hex_byte(hex, 4)))
        } else {
            Err(ColorFault::NotHex(spec))
        }
    } else if all_digits(s) {
        match word_number(s) {
            Some(n) if n <= 255 => Ok(Color::Indexed(n as u8)),
            _ => Err(ColorFault::OutOfRange(spec)),
        }
    } else {
        match named_color(bare_name(s)) {
            Some(c) => Ok(c),
            None => Err(ColorFault::Unknown(spec)),
        }
    }
}

fn read_hex(v: &Vec<char>) -> (r: Option<Color>)
    requires
        v.len() > 0,
    ensures
        ({
            let hex = v@.skip(1);
            if six_hex(hex) {
                r == Some(Color::Rgb(hex_byte(hex, 0), hex_byte(hex, 2), hex_byte(hex, 4)))
            } else {
                r is None
            }
        }),
{
    let ghost hex = v@.skip(1);
    if v.len() != 7 {
        return None;
    }
    let mut digits: Vec<u8> = Vec::new();
    let mut i: usize = 1;
    while i < 7
        invariant
            1 <= i <= 7,
            v.len() == 7,
            hex == v@.skip(1),
            digits.len() == i - 1,
            forall|k: int|
                0 <= k < i - 1 ==> hex_digit(#[trigger] hex[k]) == Some(digits@[k])
                    && digits@[k] < 16,
        decreases 7 - i,
    {
        proof {
            assert(hex[i - 1] == v@[i as int]);
        }
        match hex_value(v[i]) {
            Some(d) => {
                digits.push(d);
            },
            None => {
                return None;
            },
        }
        i = i + 1;
    }
    proof {
        assert(hex_digit(hex[0]) is Some && hex_digit(hex[1]) is Some && hex_digit(hex[2]) is Some
            && hex_digit(hex[3]) is Some && hex_digit(hex[4]) is Some && hex_digit(hex[5]) is Some);
    }
    Some(
        Color::Rgb(
            digits[0] * 16 + digits[1],
            digits[2] * 16 + digits[3],
            digits[4] * 16 + digits[5],
        ),
    )
}

fn to_bare_name(s: &str) -> (r: String)
    ensures
        r@ == bare_name(s@),
{
    let v = chars_of(s);
    let mut r = String::new();
    let mut i: usize = 0;
    proof {
        assert(v@.take(0) =~= Seq::empty());
        assert(r@ =~= bare_name(v@.take(0)));
    }
    while i < v.len()
        invariant
            i <= v.len(),
            v@ == s@,
            r@ == bare_name(v@.take(i as int)),
        decreases v.len() - i,
    {
        proof {
            assert(v@.take(i + 1).drop_last() =~= v@.take(i as int));
        }
        let c = to_ascii_lower(v[i]);
        if c != ' ' && c != '-' && c != '_' {
            r.push(c);
        }
        i = i + 1;
    }
    proof {
        assert(v@.take(v@.len() as int) =~= v@);
    }
    r
}

fn find_name(n: &str) -> (r: Option<Color>)
    ensures
        r == named_color(n@),
{
    if str_eq(n, "black") {
        Some(Color::Black)
    } else if str_eq(n, "red") {
        Some(Color::Red)
    } else if str_eq(n, "green") {
        Some(Color::Green)
    } else if str_eq(n, "yellow") {
        Some(Color::Yellow)
    } else if str_eq(n, "blue") {
        Some(Color::Blue)
    } else if str_eq(n, "magenta") {
        Some(Color::Magenta)
    } else if str_eq(n, "cyan") {
        Some(Color::Cyan)
    } else if str_eq(n, "gray") {
        Some(Color::Gray)
    } else if str_eq(n, "grey") {
        Some(Color::Gray)
    } else if str_eq(n, "darkgray") {
        Some(Color::DarkGray)
    } else if str_eq(n, "darkgrey") {
        Some(Color::DarkGray)
    } else if str_eq(n, "brightblack") {
        Some(Color::DarkGray)
    } else if str_eq(n, "brightred") {
        Some(Color::LightRed)
    } else if str_eq(n, "lightred") {
        Some(Color::LightRed)
    } else if str_eq(n, "brightgreen") {
        Some(Color::LightGreen)
    } else if str_eq(n, "lightgreen") {
        Some(Color::LightGreen)
    } else if str_eq(n, "brightyellow") {
        Some(Color::LightYellow)
    } else if str_eq(n, "lightyellow") {
        Some(Color::LightYellow)
    } else if str_eq(n, "brightblue") {
        Some(Color::LightBlue)
    } else if str_eq(n, "lightblue") {
        Some(Color::LightBlue)
    } else if str_eq(n, "brightmagenta") {
        Some(Color::LightMagenta)
    } else if str_eq(n, "lightmagenta") {
        Some(Color::LightMagenta)
    } else if str_eq(n, "brightcyan") {
        Some(Color::LightCyan)
    } else if str_eq(n, "lightcyan") {
        Some(Color::LightCyan)
    } else if str_eq(n, "white") {
        Some(Color::White)
    } else if str_eq(n, "brightwhite") {
        Some(Color::White)
    } else {
        None
    }
}

fn only_digits(v: &Vec<char>) -> (r: bool)
    ensures
        r == all_digits(v@),
{
    let mut i: usize = 0;
    while i < v.len()
        invariant
            i <= v.len(),
            forall|k: int| 0 <= k < i ==> '0' <= #[trigger] v@[k] <= '9',
        decreases v.len() - i,
    {
        if v[i] < '0' || v[i] > '9' {
            return false;
        }
        i = i + 1;
    }
    true
}

/// Reads a colour: `#rrggbb`, a palette index, or a name. Anything else is refused.
pub fn parse_color(spec: &str) -> (r: Result<Color, ColorError>)
    ensures
        match color_read(spec@) {
            Ok(c) => r == Ok::<Color, ColorError>(c),
            Err(f) => r matches Err(e) && e@ == f,
        },
{
    let s = trim(spec);
    let v = chars_of(s.as_str());
    if v.len() > 0 && v[0] == '#' {
        return match read_hex(&v) {
            Some(c) => Ok(c),
            None => Err(ColorError::NotHex(spec.to_owned())),
        };
    }
    if only_digits(&v) {
        match parse_word(s.as_str()) {
            Some(n) => {
                if n <= 255 {
                    return Ok(Color::Indexed(n as u8));
                }
            },
            None => {},
        }
        return Err(ColorError::OutOfRange(spec.to_owned()));
    }
    match find_name(to_bare_name(s.as_str()).as_str()) {
        Some(c) => Ok(c),
        None => Err(ColorError::Unknown(spec.to_owned())),
    }
}

// ─── The file ─────────────────────────────────────────────────────────────────

/// The overrides as written: a colour for each role, or none.
#[derive(Debug, PartialEq, Eq)]
pub struct ColorsFile {
    pub text: Option<String>,
    pub dim: Option<String>,
    pub accent: Option<String>,
    pub border: Option<String>,
    pub border_focus: Option<String>,
    pub badge_text: Option<String>,
    pub cursor_line: Option<String>,
    pub selection: Option<String>,
    pub variable: Option<String>,
    pub folder: Option<String>,
    pub row_selected: Option<String>,
    pub row_selected_text: Option<String>,
    pub success: Option<String>,
    pub info: Option<String>,
    pub warning: Option<String>,
    pub error: Option<String>,
    pub json_key: Option<String>,
    pub json_string: Option<String>,
    pub json_number: Option<String>,
    pub json_bool: Option<String>,
    pub json_null: Option<String>,
    pub json_punct: Option<String>,
}

/// The `[theme]` table as written.
#[derive(Debug, PartialEq, Eq)]
pub struct ThemeFile {
    /// A built-in to start from.
    pub name: Option<String>,
    pub colors: ColorsFile,
}

impl Default for ColorsFile {
    /// No override.
    fn default() -> (r: ColorsFile)
        ensures
            r.text is None,
            r.dim is None,
            r.accent is None,
            r.border is None,
            r.border_focus is None,
            r.badge_text is None,
            r.cursor_line is None,
            r.selection is None,
            r.variable is None,
            r.folder is None,
            r.row_selected is None,
            r.row_selected_text is None,
            r.success is None,
            r.info is None,
            r.warning is None,
            r.error is None,
            r.json_key is None,
            r.json_string is None,
            r.json_number is None,
            r.json_bool is None,
            r.json_null is None,
            r.json_punct is None,
    {
        ColorsFile {
            text: None,
            dim: None,
            accent: None,
            border: None,
            border_focus: None,
            badge_text: None,
            cursor_line: None,
            selection: None,
            variable: None,
            folder: None,
            row_selected: None,
            row_selected_text: None,
            success: None,
            info: None,
            warning: None,
            error: None,
            json_key: None,
            json_string: None,
            json_number: None,
            json_bool: None,
            json_null: None,
            json_punct: None,
        }
    }
}

impl Default for ThemeFile {
    /// Nothing said.
    fn default() -> (r: ThemeFile)
        ensures
            r.name is None,
            r.colors.text is None,
            r.colors.dim is None,
            r.colors.accent is None,
            r.colors.border is None,
            r.colors.border_focus is None,
            r.colors.badge_text is None,
            r.colors.cursor_line is None,
            r.colors.selection is None,
            r.colors.variable is None,
            r.colors.folder is None,
            r.colors.row_selected is None,
            r.colors.row_selected_text is None,
            r.colors.success is None,
            r.colors.info is None,
            r.colors.warning is None,
            r.colors.error is None,
            r.colors.json_key is None,
            r.colors.json_string is None,
            r.colors.json_number is None,
            r.colors.json_bool is None,
            r.colors.json_null is None,
            r.colors.json_punct is None,
            overrides(r.colors, dark_theme()) == Ok::<Theme, ThemeFault>(dark_theme()),
    {
        ThemeFile { name: None, colors: ColorsFile::default() }
    }
}

/// Why a theme is refused.
#[derive(Debug, PartialEq, Eq)]
pub enum ThemeError {
    UnknownName(String),
    /// The role whose colour is refused, and why.
    BadColor(&'static str, ColorError),
}

/// The same, over text.
pub ghost enum ThemeFault {
    UnknownName(Seq<char>),
    BadColor(Seq<char>, ColorFault),
}

impl View for ThemeError {
    type V = ThemeFault;

    open spec fn view(&self) -> ThemeFault {
        match self {
            ThemeError::UnknownName(s) => ThemeFault::UnknownName(s@),
            ThemeError::BadColor(role, e) => ThemeFault::BadColor(role@, e@),
        }
    }
}

impl ThemeError {
    /// The sentence that reports this error.
    pub fn message(&self) -> (r: String)
        ensures
            r@ == match self@ {
                ThemeFault::UnknownName(s) => "theme.name must be one of dark, light (got "@
                    + debug_form(s)
                    + "); any role can still be overridden under [theme.colors]"@,
                ThemeFault::BadColor(role, f) => "theme.colors."@ + role + ": "@
                    + color_fault_text(f),
            },
    {
        match self {
            ThemeError::UnknownName(s) => concat3(
                "theme.name must be one of dark, light (got ",
                debug_string(s.as_str()).as_str(),
                "); any role can still be overridden under [theme.colors]",
            ),
            ThemeError::BadColor(role, e) => {
                let head = concat3("theme.colors.", role, ": ");
                concat2(head.as_str(), e.message().as_str())
            },
        }
    }
}

/// An override that is refused.
pub open spec fn refused(spec: Option<String>) -> bool {
    spec is Some && color_read(spec->0@) is Err
}

/// A role's colour: the override, or the one it had.
pub open spec fn chosen(spec: Option<String>, held: Color) -> Color {
    match spec {
        Some(s) => color_read(s@)->Ok_0,
        None => held,
    }
}

/// The fault of a refused override.
pub open spec fn fault_of(role: Seq<char>, spec: Option<String>) -> Option<ThemeFault> {
    Some(ThemeFault::BadColor(role, color_read(spec->0@)->Err_0))
}

/// The first override that is refused, in the order of the roles.
pub open spec fn first_fault(f: ColorsFile) -> Option<ThemeFault> {
    if refused(f.text) {
        fault_of("text"@, f.text)
    } else if refused(f.dim) {
        fault_of("dim"@, f.dim)
    } else if refused(f.accent) {
        fault_of("accent"@, f.accent)
    } else if refused(f.border) {
        fault_of("border"@, f.border)
    } else if refused(f.border_focus) {
        fault_of("border_focus"@, f.border_focus)
    } else if refused(f.badge_text) {
        fault_of("badge_text"@, f.badge_text)
    } else if refused(f.cursor_line) {
        fault_of("cursor_line"@, f.cursor_line)
    } else if refused(f.selection) {
        fault_of("selection"@, f.selection)
    } else if refused(f.variable) {
        fault_of("variable"@, f.variable)
    } else if refused(f.folder) {
        fault_of("folder"@, f.folder)
    } else if refused(f.row_selected) {
        fault_of("row_selected"@, f.row_selected)
    } else if refused(f.row_selected_text) {
        fault_of("row_selected_text"@, f.row_selected_text)
    } else if refused(f.success) {
        fault_of("success"@, f.success)
    } else if refused(f.info) {
        fault_of("info"@, f.info)
    } else if refused(f.warning) {
        fault_of("warning"@, f.warning)
    } else if refused(f.error) {
        fault_of("error"@, f.error)
    } else if refused(f.json_key) {
        fault_of("json_key"@, f.json_key)
    } else if refused(f.json_string) {
        fault_of("json_string"@, f.json_string)
    } else if refused(f.json_number) {
        fault_of("json_number"@, f.json_number)
    } else if refused(f.json_bool) {
        fault_of("json_bool"@, f.json_bool)
    } else if refused(f.json_null) {
        fault_of("json_null"@, f.json_null)
    } else if refused(f.json_punct) {
        fault_of("json_punct"@, f.json_punct)
    } else {
        None
    }
}

/// A palette with the overrides on top.
pub open spec fn overrides(f: ColorsFile, base: Theme) -> Result<Theme, ThemeFault> {
    match first_fault(f) {
        Some(fault) => Err(fault),
        None => Ok(
            Theme {
                text: chosen(f.text, base.text),
                dim: chosen(f.dim, base.dim),
                accent: chosen(f.accent, base.accent),
                border: chosen(f.border, base.border),
                border_focus: chosen(f.border_focus, base.border_focus),
                badge_text: chosen(f.badge_text, base.badge_text),
                cursor_line: chosen(f.cursor_line, base.cursor_line),
                selection: chosen(f.selection, base.selection),
                variable: chosen(f.variable, base.variable),
                folder: chosen(f.folder, base.folder),
                row_selected: chosen(f.row_selected, base.row_selected),
                row_selected_text: chosen(f.row_selected_text, base.row_selected_text),
                success: chosen(f.success, base.success),
                info: chosen(f.info, base.info),
                warning: chosen(f.warning, base.warning),
                error: chosen(f.error, base.error),
                json_key: chosen(f.json_key, base.json_key),
                json_string: chosen(f.json_string, base.json_string),
                json_number: chosen(f.json_number, base.json_number),
                json_bool: chosen(f.json_bool, base.json_bool),
                json_null: chosen(f.json_null, base.json_null),
                json_punct: chosen(f.json_punct, base.json_punct),
            },
        ),
    }
}

/// The palette that a `[theme]` table means: a built-in, then the overrides.
pub open spec fn theme_of(file: ThemeFile) -> Result<Theme, ThemeFault> {
    match file.name {
        None => overrides(file.colors, dark_theme()),
        Some(name) => match built_in(name@) {
            None => Err(ThemeFault::UnknownName(name@)),
            Some(base) => overrides(file.colors, base),
        },
    }
}

fn pick(spec: &Option<String>, role: &'static str, held: Color) -> (r: Result<Color, ThemeError>)
    ensures
        refused(*spec) ==> (r matches Err(e) && Some(e@) == fault_of(role@, *spec)),
        !refused(*spec) ==> r == Ok::<Color, ThemeError>(chosen(*spec, held)),
{
    match spec {
        None => Ok(held),
        Some(s) => match parse_color(s.as_str()) {
            Ok(c) => Ok(c),
            Err(e) => Err(ThemeError::BadColor(role, e)),
        },
    }
}

impl ColorsFile {
    /// The palette with the overrides on top.
    pub fn apply(&self, base: Theme) -> (r: Result<Theme, ThemeError>)
        ensures
            match overrides(*self, base) {
                Ok(t) => r == Ok::<Theme, ThemeError>(t),
                Err(f) => r matches Err(e) && e@ == f,
            },
    {
        let text = match pick(&self.text, "text", base.text) {
            Ok(c) => c,
            Err(e) => {
                return Err(e);
            },
        };
        let dim = match pick(&self.dim, "dim", base.dim) {
            Ok(c) => c,
            Err(e) => {
                return Err(e);
            },
        };
        let accent = match pick(&self.accent, "accent", base.accent) {
            Ok(c) => c,
            Err(e) => {
                return Err(e);
            },
        };
        let border = match pick(&self.border, "border", base.border) {
            Ok(c) => c,
            Err(e) => {
                return Err(e);
            },
        };
        let border_focus = match pick(&self.border_focus, "border_focus", base.border_focus) {
            Ok(c) => c,
            Err(e) => {
                return Err(e);
            },
        };
        let badge_text = match pick(&self.badge_text, "badge_text", base.badge_text) {
            Ok(c) => c,
            Err(e) => {
                return Err(e);
            },
        };
        let cursor_line = match pick(&self.cursor_line, "cursor_line", base.cursor_line) {
            Ok(c) => c,
            Err(e) => {
                return Err(e);
            },
        };
        let selection = match pick(&self.selection, "selection", base.selection) {
            Ok(c) => c,
            Err(e) => {
                return Err(e);
            },
        };
        let variable = match pick(&self.variable, "variable", base.variable) {
            Ok(c) => c,
            Err(e) => {
                return Err(e);
            },
        };
        let folder = match pick(&self.folder, "folder", base.folder) {
            Ok(c) => c,
            Err(e) => {
                return Err(e);
            },
        };
        let row_selected = match pick(&self.row_selected, "row_selected", base.row_selected) {
            Ok(c) => c,
            Err(e) => {
                return Err(e);
            },
        };
        let row_selected_text = match pick(&self.row_selected_text, "row_selected_text", base.row_selected_text) {
            Ok(c) => c,
            Err(e) => {
                return Err(e);
            },
        };
        let success = match pick(&self.success, "success", base.success) {
            Ok(c) => c,
            Err(e) => {
                return Err(e);
            },
        };
        let info = match pick(&self.info, "info", base.info) {
            Ok(c) => c,
            Err(e) => {
                return Err(e);
            },
        };
        let warning = match pick(&self.warning, "warning", base.warning) {
            Ok(c) => c,
            Err(e) => {
                return Err(e);
            },
        };
        let error = match pick(&self.error, "error", base.error) {
            Ok(c) => c,
            Err(e) => {
                return Err(e);
            },
        };
        let json_key = match pick(&self.json_key, "json_key", base.json_key) {
            Ok(c) => c,
            Err(e) => {
                return Err(e);
            },
        };
        let json_string = match pick(&self.json_string, "json_string", base.json_string) {
            Ok(c) => c,
            Err(e) => {
                return Err(e);
            },
        };
        let json_number = match pick(&self.json_number, "json_number", base.json_number) {
            Ok(c) => c,
            Err(e) => {
                return Err(e);
            },
        };
        let json_bool = match pick(&self.json_bool, "json_bool", base.json_bool) {
            Ok(c) => c,
            Err(e) => {
                return Err(e);
            },
        };
        let json_null = match pick(&self.json_null, "json_null", base.json_null) {
            Ok(c) => c,
            Err(e) => {
                return Err(e);
            },
        };
        let json_punct = match pick(&self.json_punct, "json_punct", base.json_punct) {
            Ok(c) => c,
            Err(e) => {
                return Err(e);
            },
        };
        Ok(
            Theme {
                text,
                dim,
                accent,
                border,
                border_focus,
                badge_text,
                cursor_line,
                selection,
                variable,
                folder,
                row_selected,
                row_selected_text,
                success,
                info,
                warning,
                error,
                json_key,
                json_string,
                json_number,
                json_bool,
                json_null,
                json_punct,
            },
        )
    }
}

impl Theme {
    /// The palette that a `[theme]` table means.
    pub fn from_file(file: &ThemeFile) -> (r: Result<Theme, ThemeError>)
        ensures
            match theme_of(*file) {
                Ok(t) => r == Ok::<Theme, ThemeError>(t),
                Err(f) => r matches Err(e) && e@ == f,
            },
    {
        let base = match &file.name {
            None => Theme::dark(),
            Some(name) => match Theme::by_name(name.as_str()) {
                Some(t) => t,
                None => {
                    return Err(ThemeError::UnknownName(name.clone()));
                },
            },
        };
        file.colors.apply(base)
    }
}

// ─── Emphasis ─────────────────────────────────────────────────────────────────

/// A channel moved by 45 % toward black or toward white, rounded down.
pub open spec fn moved(c: u8, toward_black: bool) -> u8 {
    if toward_black {
        (55 * c as int / 100) as u8
    } else {
        ((11475 + 55 * c as int) / 100) as u8
    }
}

/// The emphasized twin of a colour, for ink on a band: an exact colour moves away
/// from the band's lightness, a named one and one of the first eight indices becomes
/// its bright twin, and any other stays.
pub open spec fn emphasized(color: Color, band: Color) -> Color {
    match color {
        Color::Rgb(r, g, b) => Color::Rgb(
            moved(r, light(band)),
            moved(g, light(band)),
            moved(b, light(band)),
        ),
        Color::Indexed(i) => if i <= 7 {
            Color::Indexed((i + 8) as u8)
        } else {
            color
        },
        Color::Black => Color::DarkGray,
        Color::Red => Color::LightRed,
        Color::Green => Color::LightGreen,
        Color::Yellow => Color::LightYellow,
        Color::Blue => Color::LightBlue,
        Color::Magenta => Color::LightMagenta,
        Color::Cyan => Color::LightCyan,
        Color::DarkGray => Color::White,
        Color::Gray => Color::White,
        other => other,
    }
}

fn move_channel(c: u8, toward_black: bool) -> (r: u8)
    ensures
        r == moved(c, toward_black),
{
    if toward_black {
        (55 * c as u32 / 100) as u8
    } else {
        ((11475 + 55 * c as u32) / 100) as u8
    }
}

/// The emphasized twin of a colour, for ink about to be drawn on a band.
pub fn emphasize(color: Color, band: Color) -> (r: Color)
    ensures
        r == emphasized(color, band),
{
    match color {
        Color::Rgb(r, g, b) => {
            let toward_black = is_light(band);
            Color::Rgb(
                move_channel(r, toward_black),
                move_channel(g, toward_black),
                move_channel(b, toward_black),
            )
        },
        Color::Indexed(i) => {
            if i <= 7 {
                Color::Indexed(i + 8)
            } else {
                color
            }
        },
        Color::Black => Color::DarkGray,
        Color::Red => Color::LightRed,
        Color::Green => Color::LightGreen,
        Color::Yellow => Color::LightYellow,
        Color::Blue => Color::LightBlue,
        Color::Magenta => Color::LightMagenta,
        Color::Cyan => Color::LightCyan,
        Color::DarkGray => Color::White,
        Color::Gray => Color::White,
        other => other,
    }
}

/// The linear light of each channel value, in billionths.
pub const LINEAR: [u32; 256] = [
    0, 303527, 607054, 910581, 1214108, 1517635, 1821162, 2124689,
    2428216, 2731743, 3035270, 3346536, 3676507, 4024717, 4391442, 4776953,
    5181517, 5605392, 6048833, 6512091, 6995410, 7499032, 8023193, 8568126,
    9134059, 9721217, 10329823, 10960094, 11612245, 12286488, 12983032, 13702083,
    14443844, 15208514, 15996293, 16807376, 17641954, 18500220, 19382361, 20288563,
    21219010, 22173885, 23153366, 24157632, 25186860, 26241222, 27320892, 28426040,
    29556834, 30713444, 31896033, 33104767, 34339807, 35601315, 36889450, 38204372,
    39546235, 40915197, 42311411, 43735029, 45186204, 46665086, 48171824, 49706566,
    51269458, 52860647, 54480276, 56128490, 57805430, 59511238, 61246054, 63010018,
    64803267, 66625939, 68478170, 70360096, 72271851, 74213568, 76185381, 78187422,
    80219820, 82282707, 84376212, 86500462, 88655586, 90841711, 93058963, 95307467,
    97587347, 99898728, 102241733, 104616484, 107023103, 109461711, 111932428, 114435374,
    116970668, 119538428, 122138772, 124771818, 127437680, 130136477, 132868322, 135633330,
    138431615, 141263291, 144128471, 147027266, 149959790, 152926152, 155926464, 158960835,
    162029376, 165132195, 168269400, 171441101, 174647404, 177888416, 181164244, 184474995,
    187820772, 191201683, 194617830, 198069320, 201556254, 205078736, 208636870, 212230757,
    215860500, 219526200, 223227957, 226965874, 230740049, 234550582, 238397574, 242281122,
    246201327, 250158285, 254152094, 258182853, 262250658, 266355605, 270497791, 274677312,
    278894263, 283148740, 287440838, 291770650, 296138271, 300543794, 304987314, 309468923,
    313988713, 318546778, 323143209, 327778098, 332451536, 337163615, 341914425, 346704056,
    351532600, 356400144, 361306780, 366252596, 371237680, 376262123, 381326011, 386429434,
    391572478, 396755231, 401977780, 407240212, 412542613, 417885071, 423267670, 428690497,
    434153636, 439657174, 445201195, 450785783, 456411023, 462077000, 467783796, 473531496,
    479320183, 485149940, 491020850, 496932995, 502886458, 508881321, 514917665, 520995573,
    527115126, 533276404, 539479489, 545724461, 552011402, 558340390, 564711506, 571124829,
    577580440, 584078418, 590618841, 597201788, 603827339, 610495571, 617206562, 623960392,
    630757136, 637596874, 644479682, 651405637, 658374817, 665387298, 672443157, 679542470,
    686685312, 693871761, 701101892, 708375780, 715693501, 723055129, 730460740, 737910409,
    745404210, 752942217, 760524505, 768151147, 775822218, 783537792, 791297940, 799102738,
    806952258, 814846572, 822785754, 830769877, 838799012, 846873232, 854992608, 863157213,
    871367119, 879622397, 887923118, 896269353, 904661174, 913098652, 921581856, 930110858,
    938685728, 947306537, 955973353, 964686248, 973445290, 982250550, 991102097, 1000000000,
];

/// Light enough to want dark ink: an exact colour by its relative luminance. What the
/// terminal draws for any other colour is not known, and it is taken to be dark.
pub open spec fn light(color: Color) -> bool {
    match color {
        Color::Rgb(r, g, b) => 2126 * LINEAR[r as int] + 7152 * LINEAR[g as int] + 722 * LINEAR[b as int]
            > 1790000000000,
        _ => false,
    }
}

/// Whether a colour is light enough to want dark ink on it.
pub fn is_light(color: Color) -> (r: bool)
    ensures
        r == light(color),
{
    match color {
        Color::Rgb(r, g, b) => {
            let table = LINEAR;
            let red: u64 = table[r as usize] as u64;
            let green: u64 = table[g as usize] as u64;
            let blue: u64 = table[b as usize] as u64;
            2126 * red + 7152 * green + 722 * blue > 1790000000000
        },
        _ => false,
    }
}

// ─── Laws ─────────────────────────────────────────────────────────────────────

/// Emphasis moves exact ink away from its band: darker on a light one, lighter on a
/// dark one.
pub proof fn law_emphasis_moves_away_from_the_band(r: u8, g: u8, b: u8, band: Color)
    ensures
        emphasized(Color::Rgb(r, g, b), band) matches Color::Rgb(x, y, z) && if light(band) {
            x <= r && y <= g && z <= b
        } else {
            x >= r && y >= g && z >= b
        },
{
}

/// Black aside, emphasizing a colour that is not an exact one twice comes to the same
/// as doing so once.
pub proof fn law_emphasis_of_a_name_is_settled(color: Color, band: Color)
    requires
        !(color is Rgb),
    ensures
        color != Color::Black ==> emphasized(emphasized(color, band), band) == emphasized(
            color,
            band,
        ),
{
}

} // verus!
