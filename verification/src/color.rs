//! The colors the allocator hands out, how a name string resolves to one,
//! and the error reported for a name the color grammar does not recognize.

use core::str::FromStr;
use ratatui::style::Color as TermColor;
use vstd::prelude::*;
use vstd::string::StringExecFns;

verus! {

/// A displayable terminal color, one value per resolvable color of the
/// grammar: the standard named colors, 24-bit RGB colors, and the 256
/// indexed palette slots. Two colors are the same exactly when they carry
/// the same variant and fields.
#[derive(Clone, Copy, Debug, PartialEq, Eq, Structural)]
pub enum Color {
    Reset,
    Black,
    Red,
    Green,
    Yellow,
    Blue,
    Magenta,
    Cyan,
    Gray,
    DarkGray,
    LightRed,
    LightGreen,
    LightYellow,
    LightBlue,
    LightMagenta,
    LightCyan,
    White,
    Rgb(u8, u8, u8),
    Indexed(u8),
}

/// A name with every hyphen turned into a space, so that a hyphenated
/// two-word spelling resolves like the space-separated one.
pub open spec fn normalized(name: Seq<char>) -> Seq<char> {
    name.map_values(|c: char| if c == '-' { ' ' } else { c })
}

/// What `ratatui::style::Color::from_str` returns on a given string: the
/// fixed color-naming grammar, a function of the characters alone.
pub uninterp spec fn parsed(s: Seq<char>) -> Option<Color>;

/// How the allocator resolves a name: hyphens become spaces, then the
/// color grammar decides.
pub open spec fn resolved(name: Seq<char>) -> Option<Color> {
    parsed(normalized(name))
}

/// Relies on `str::replace`: with a one-character pattern and a
/// one-character replacement, every occurrence of the pattern becomes the
/// replacement and all other characters are kept unchanged.
#[verifier::external_body]
fn replace_hyphens(s: &str) -> (r: String)
    ensures
        r@ == normalized(s@),
{
    s.replace('-', " ")
}

/// The outside color type, declared so that the conversion below may take
/// it; nothing is stated of it.
#[verifier::external_type_specification]
#[verifier::external_body]
pub struct ExColor(TermColor);

/// Relies on the variants of `ratatui::style::Color`: each one is carried
/// over into the crate's own [`Color`], variant for variant, fields
/// unchanged. Only [`parse_color`] calls this; its contract covers the
/// composition of the parse and this conversion.
#[verifier::external_body]
fn import_color(c: TermColor) -> Color {
    match c {
        TermColor::Reset => Color::Reset, TermColor::Black => Color::Black, TermColor::Red => Color::Red,
        TermColor::Green => Color::Green, TermColor::Yellow => Color::Yellow, TermColor::Blue => Color::Blue,
        TermColor::Magenta => Color::Magenta, TermColor::Cyan => Color::Cyan, TermColor::Gray => Color::Gray,
        TermColor::DarkGray => Color::DarkGray, TermColor::LightRed => Color::LightRed,
        TermColor::LightGreen => Color::LightGreen, TermColor::LightYellow => Color::LightYellow,
        TermColor::LightBlue => Color::LightBlue, TermColor::LightMagenta => Color::LightMagenta,
        TermColor::LightCyan => Color::LightCyan, TermColor::White => Color::White,
        TermColor::Rgb(r, g, b) => Color::Rgb(r, g, b), TermColor::Indexed(i) => Color::Indexed(i),
    }
}

/// Relies on `ratatui::style::Color::from_str`: a fixed, deterministic
/// color grammar whose result depends on the characters alone, named here
/// by [`parsed`]. On failure the returned text is the parser's own
/// diagnostic.
#[verifier::external_body]
pub(crate) fn parse_color(s: &str) -> (r: Result<Color, String>)
    ensures
        r is Ok <==> parsed(s@) is Some,
        r is Ok ==> r->Ok_0 == parsed(s@)->Some_0,
        r is Err ==> r->Err_0@ == "Failed to parse Colors"@,
{
    match TermColor::from_str(s) {
        Ok(c) => Ok(import_color(c)),
        Err(e) => Err(e.to_string()),
    }
}

/// Resolves one name as the allocator does: hyphens are first turned into
/// spaces, then the color grammar decides. On failure the returned text is
/// the parser's own diagnostic.
pub fn resolve_name(name: &str) -> (r: Result<Color, String>)
    ensures
        r is Ok <==> resolved(name@) is Some,
        r is Ok ==> r->Ok_0 == resolved(name@)->Some_0,
        r is Err ==> r->Err_0@ == "Failed to parse Colors"@,
{
    let spaced = replace_hyphens(name);
    parse_color(spaced.as_str())
}

/// Law: a name resolves exactly as its hyphen-to-space form does, so a
/// hyphenated spelling (such as a two-word color written with a hyphen)
/// yields the very color of the space-separated spelling.
pub proof fn lemma_hyphen_space_equivalence(name: Seq<char>)
    ensures
        resolved(name) == resolved(normalized(name)),
{
    assert(normalized(normalized(name)) =~= normalized(name));
}

/// Law: two names spelled the same resolve to the very same color, however
/// often they occur and whatever was handed out in between: resolution is a
/// function of the name's characters alone.
pub proof fn lemma_identical_names_identical_colors(a: Seq<char>, b: Seq<char>)
    requires
        a == b,
    ensures
        resolved(a) == resolved(b),
{
}

/// The one failure the allocator reports: a caller-supplied name that the
/// color grammar does not recognize. The failed name counts as consumed;
/// the allocator goes on with the next name or the indexed fallback.
#[derive(Debug)]
pub struct ColorError {
    /// The offending name, exactly as the caller wrote it.
    pub name: String,
    /// The underlying parser's diagnostic.
    pub detail: String,
}

impl ColorError {
    /// The user-facing diagnostic; it quotes the offending name verbatim.
    pub fn message(&self) -> (r: String)
        ensures
            r@ == "Invalid color code: `"@ + self.name@ + "`"@,
    {
        let mut m = "Invalid color code: `".to_owned();
        m.append(self.name.as_str());
        m.append("`");
        m
    }
}

} // verus!

