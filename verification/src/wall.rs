//! Wallpapers: which files are images, where a wallpaper is kept, and the
//! palette that is generated from one.

use vstd::prelude::*;
use crate::config::{ConfigView, PaletteView, SlateConfig};
use crate::path::extension;
use crate::text::{chars_between, chars_of, push_text, same_chars, text_of};

verus! {

/// `serde_json::Value`, a JSON document: what it holds is read through
/// `json_lookup` alone.
#[verifier::external_type_specification]
#[verifier::external_body]
pub struct ExJsonValue(serde_json::Value);

/// The JSON pointers that address a value of a document.
pub uninterp spec fn json_values(document: serde_json::Value) -> Set<Seq<char>>;

/// The JSON pointers that address a string of a document, each with the
/// characters of that string.
pub uninterp spec fn json_strings(document: serde_json::Value) -> Map<Seq<char>, Seq<char>>;

/// What the document that a text writes holds: the pointers that address a
/// value of it, and the strings among them, each under its pointer; `None`
/// where the text is not JSON.
pub uninterp spec fn json_content(text: Seq<char>) -> Option<
    (Set<Seq<char>>, Map<Seq<char>, Seq<char>>),
>;

/// What stands at a place of a JSON document.
#[derive(Debug)]
pub enum JsonLookup {
    /// Nothing.
    Absent,
    /// A value that is no string.
    Other,
    /// A string.
    Text(String),
}

/// The colours of a generated palette.
#[derive(Debug)]
pub struct MatugenPalette {
    pub bg_void: String,
    pub bg_surface: String,
    pub bg_overlay: String,
    pub foreground: String,
    pub foreground_dim: String,
    pub accent: String,
    pub accent_bright: String,
}

pub struct MatugenView {
    pub bg_void: Seq<char>,
    pub bg_surface: Seq<char>,
    pub bg_overlay: Seq<char>,
    pub foreground: Seq<char>,
    pub foreground_dim: Seq<char>,
    pub accent: Seq<char>,
    pub accent_bright: Seq<char>,
}

impl View for MatugenPalette {
    type V = MatugenView;

    open spec fn view(&self) -> MatugenView {
        MatugenView {
            bg_void: self.bg_void@,
            bg_surface: self.bg_surface@,
            bg_overlay: self.bg_overlay@,
            foreground: self.foreground@,
            foreground_dim: self.foreground_dim@,
            accent: self.accent@,
            accent_bright: self.accent_bright@,
        }
    }
}

/// Why no palette was read.
#[derive(Clone, Copy, Debug, PartialEq, Eq, Structural)]
pub enum PaletteError {
    /// The text is not JSON.
    InvalidJson,
    /// The document has no dark colours.
    MissingDark,
}

/// A letter of the Latin alphabet in lower case; any other character as it
/// is.
pub open spec fn lower(c: char) -> char {
    if 'A' <= c && c <= 'Z' {
        ((c as u8) + 32) as char
    } else {
        c
    }
}

/// The text with its Latin letters in lower case.
pub open spec fn lowered(s: Seq<char>) -> Seq<char> {
    Seq::new(s.len(), |i: int| lower(s[i]))
}

/// The extension is that of an image that can be a wallpaper, in any case.
pub open spec fn is_image(extension: Seq<char>) -> bool {
    let e = lowered(extension);
    e == seq!['p', 'n', 'g'] || e == seq!['j', 'p', 'g'] || e == seq!['j', 'p', 'e', 'g'] || e
        == seq!['w', 'e', 'b', 'p'] || e == seq!['b', 'm', 'p']
}

/// Where a wallpaper of this file name is kept.
pub open spec fn wallpaper_path(file_name: Seq<char>) -> Seq<char> {
    "~/Pictures/Wallpapers/"@ + file_name
}

/// A colour with the alpha of the transparent background: its first seven
/// characters, `#` and six digits, and `99` behind them.
pub open spec fn transparent(color: Seq<char>) -> Seq<char> {
    if color.len() > 7 {
        color.take(7) + seq!['9', '9']
    } else {
        color + seq!['9', '9']
    }
}

/// The string at a place of a document, or black where no string stands
/// there.
pub open spec fn text_or_black(strings: Map<Seq<char>, Seq<char>>, pointer: Seq<char>) -> Seq<char> {
    if strings.dom().contains(pointer) {
        strings[pointer]
    } else {
        "#000000"@
    }
}

/// The palette of the dark colours of a generated scheme.
pub open spec fn palette_of(strings: Map<Seq<char>, Seq<char>>) -> MatugenView {
    MatugenView {
        bg_void: text_or_black(strings, "/colors/dark/surface"@),
        bg_surface: text_or_black(strings, "/colors/dark/surface_container"@),
        bg_overlay: text_or_black(strings, "/colors/dark/surface_container_high"@),
        foreground: text_or_black(strings, "/colors/dark/on_surface"@),
        foreground_dim: text_or_black(strings, "/colors/dark/on_surface_variant"@),
        accent: text_or_black(strings, "/colors/dark/primary"@),
        accent_bright: text_or_black(strings, "/colors/dark/primary_container"@),
    }
}

/// The configuration with a generated palette and the wallpaper it was
/// generated from.
pub open spec fn with_palette(c: ConfigView, p: MatugenView) -> ConfigView {
    ConfigView {
        palette: PaletteView {
            bg_void: p.bg_void,
            bg_void_transparent: transparent(p.bg_void),
            bg_surface: p.bg_surface,
            bg_overlay: p.bg_overlay,
            foreground: p.foreground,
            foreground_dim: p.foreground_dim,
            accent: p.accent,
            accent_bright: p.accent_bright,
            ..c.palette
        },
        ..c
    }
}

/// `serde_json::from_str` for a `serde_json::Value`: the document that the
/// text writes, if it is JSON. What the document holds is what the text
/// writes, whenever and wherever it is read.
#[verifier::external_body]
fn json_parse(text: &str) -> (r: Option<serde_json::Value>)
    ensures
        match r {
            Some(document) => json_content(text@) == Some(
                (json_values(document), json_strings(document)),
            ),
            None => json_content(text@) is None,
        },
{
    serde_json::from_str::<serde_json::Value>(text).ok()
}

/// `serde_json::Value::pointer`, and `as_str` on what it finds: what stands
/// in the document at the place that the JSON pointer addresses.
#[verifier::external_body]
fn json_lookup(document: &serde_json::Value, pointer: &str) -> (r: JsonLookup)
    ensures
        match r {
            JsonLookup::Absent => !json_values(*document).contains(pointer@) && !json_strings(
                *document,
            ).dom().contains(pointer@),
            JsonLookup::Other => json_values(*document).contains(pointer@) && !json_strings(
                *document,
            ).dom().contains(pointer@),
            JsonLookup::Text(s) => json_values(*document).contains(pointer@) && json_strings(
                *document,
            ).dom().contains(pointer@) && json_strings(*document)[pointer@] == s@,
        },
{
    match document.pointer(pointer) {
        None => JsonLookup::Absent,
        Some(value) => match value.as_str() {
            None => JsonLookup::Other,
            Some(s) => JsonLookup::Text(s.to_owned()),
        },
    }
}

fn color_at(document: &serde_json::Value, pointer: &str) -> (r: String)
    ensures
        r@ == text_or_black(json_strings(*document), pointer@),
{
    match json_lookup(document, pointer) {
        JsonLookup::Text(s) => s,
        _ => "#000000".to_owned(),
    }
}

/// The palette of the dark colours of a generated scheme. A colour that the
/// scheme does not name as a string is black; a scheme without dark colours
/// gives no palette.
pub fn palette_from_value(document: &serde_json::Value) -> (r: Result<MatugenPalette, PaletteError>)
    ensures
        match r {
            Ok(p) => json_values(*document).contains("/colors/dark"@) && p@ == palette_of(
                json_strings(*document),
            ),
            Err(e) => e == PaletteError::MissingDark && !json_values(*document).contains(
                "/colors/dark"@,
            ),
        },
{
    match json_lookup(document, "/colors/dark") {
        JsonLookup::Absent => Err(PaletteError::MissingDark),
        _ => Ok(
            MatugenPalette {
                bg_void: color_at(document, "/colors/dark/surface"),
                bg_surface: color_at(document, "/colors/dark/surface_container"),
                bg_overlay: color_at(document, "/colors/dark/surface_container_high"),
                foreground: color_at(document, "/colors/dark/on_surface"),
                foreground_dim: color_at(document, "/colors/dark/on_surface_variant"),
                accent: color_at(document, "/colors/dark/primary"),
                accent_bright: color_at(document, "/colors/dark/primary_container"),
            },
        ),
    }
}

/// What a generated scheme, written as JSON, gives: `InvalidJson` for a
/// text that is not JSON, `MissingDark` for a document without dark colours,
/// and else the palette of its dark colours.
pub open spec fn palette_of_scheme(scheme: Seq<char>) -> Result<MatugenView, PaletteError> {
    match json_content(scheme) {
        None => Err(PaletteError::InvalidJson),
        Some(content) => if content.0.contains("/colors/dark"@) {
            Ok(palette_of(content.1))
        } else {
            Err(PaletteError::MissingDark)
        },
    }
}

/// The palette that a generated scheme, written as JSON, gives for the dark
/// colours. A colour that the scheme does not name as a string is black.
/// A text that is not JSON is `InvalidJson`; a document without dark
/// colours is `MissingDark`.
pub fn generate_palette_from_wallpaper(scheme: &str) -> (r: Result<MatugenPalette, PaletteError>)
    ensures
        match r {
            Ok(p) => palette_of_scheme(scheme@) == Ok::<MatugenView, PaletteError>(p@),
            Err(e) => palette_of_scheme(scheme@) == Err::<MatugenView, PaletteError>(e),
        },
{
    match json_parse(scheme) {
        None => Err(PaletteError::InvalidJson),
        Some(document) => palette_from_value(&document),
    }
}

fn lower_char(c: char) -> (r: char)
    ensures
        r == lower(c),
{
    if 'A' <= c && c <= 'Z' {
        ((c as u8) + 32) as char
    } else {
        c
    }
}

/// The extension of the last component of a path.
pub fn extension_of(path: &str) -> (r: String)
    ensures
        r@ == extension(path@),
{
    let p = chars_of(path);
    let stem = crate::path::stem_end_of(&p);
    if stem < p.len() {
        crate::text::text_between(&p, stem + 1, p.len())
    } else {
        String::new()
    }
}

/// Whether the extension is that of an image that can be a wallpaper.
pub fn is_supported_image(extension: &str) -> (r: bool)
    ensures
        r == is_image(extension@),
{
    let e = chars_of(extension);
    let mut low: Vec<char> = Vec::new();
    let mut i: usize = 0;
    while i < e.len()
        invariant
            i <= e.len(),
            low@ == lowered(e@).take(i as int),
        decreases e.len() - i,
    {
        low.push(lower_char(e[i]));
        assert(lowered(e@).take(i + 1) =~= lowered(e@).take(i as int).push(lower(e@[i as int])));
        i += 1;
    }
    assert(lowered(e@).take(e@.len() as int) =~= lowered(e@));
    proof {
        reveal_strlit("png");
        reveal_strlit("jpg");
        reveal_strlit("jpeg");
        reveal_strlit("webp");
        reveal_strlit("bmp");
        assert("png"@ =~= seq!['p', 'n', 'g']);
        assert("jpg"@ =~= seq!['j', 'p', 'g']);
        assert("jpeg"@ =~= seq!['j', 'p', 'e', 'g']);
        assert("webp"@ =~= seq!['w', 'e', 'b', 'p']);
        assert("bmp"@ =~= seq!['b', 'm', 'p']);
    }
    same_chars(&low, &chars_of("png")) || same_chars(&low, &chars_of("jpg")) || same_chars(
        &low,
        &chars_of("jpeg"),
    ) || same_chars(&low, &chars_of("webp")) || same_chars(&low, &chars_of("bmp"))
}

/// Where a wallpaper of this file name is kept, as the configuration names
/// it.
pub fn stored_wallpaper(file_name: &str) -> (r: String)
    ensures
        r@ == wallpaper_path(file_name@),
{
    let mut out: Vec<char> = Vec::new();
    push_text(&mut out, "~/Pictures/Wallpapers/");
    push_text(&mut out, file_name);
    text_of(&out)
}

/// A colour with the alpha of the transparent background.
pub fn transparent_of(color: &str) -> (r: String)
    ensures
        r@ == transparent(color@),
{
    let c = chars_of(color);
    let keep: usize = if c.len() > 7 {
        7
    } else {
        c.len()
    };
    let mut out = chars_between(&c, 0, keep);
    assert(c@.subrange(0, c@.len() as int) =~= c@);
    out.push('9');
    out.push('9');
    text_of(&out)
}

/// Puts a generated palette into the configuration: its seven colours, and
/// the transparent background made of the darkest. The mode of the palette,
/// the hardware and the applications stay as they are.
pub fn apply_palette(config: &mut SlateConfig, colors: &MatugenPalette)
    ensures
        final(config)@ == with_palette(old(config)@, colors@),
{
    config.palette.bg_void_transparent = transparent_of(colors.bg_void.as_str());
    config.palette.bg_void = colors.bg_void.clone();
    config.palette.bg_surface = colors.bg_surface.clone();
    config.palette.bg_overlay = colors.bg_overlay.clone();
    config.palette.foreground = colors.foreground.clone();
    config.palette.foreground_dim = colors.foreground_dim.clone();
    config.palette.accent = colors.accent.clone();
    config.palette.accent_bright = colors.accent_bright.clone();
}

} // verus!
