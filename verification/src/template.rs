//! Rendering of templates: the colour filters that templates can call, the
//! engine they are registered with, and what a rendering that has ended
//! gives. The rendering itself is done by whoever holds the engine: it may
//! fail in ways that no contract here could keep out.

use vstd::prelude::*;
use crate::color::{
    css_text, hex_text, hyprland_text, parse_color, plymouth_text, rofi_text, Color, ColorError, Rgba,
};
use crate::text::{push_text, text_of};

verus! {

/// `tera::Tera`, the engine with its templates and filters: a value that is
/// carried, never looked into.
#[verifier::external_type_specification]
#[verifier::external_body]
pub struct ExTera(tera::Tera);


/// The formats in which a template can ask for a colour.
#[derive(Clone, Copy, Debug, PartialEq, Eq, Structural)]
pub enum ColorFormat {
    CssRgba,
    Rofi,
    Plymouth,
    Hex,
    Hyprland,
}

/// Why a colour filter gave no text.
#[derive(Clone, Copy, Debug, PartialEq, Eq, Structural)]
pub enum FilterError {
    /// The value handed to the filter is not a string.
    NotAString { filter: ColorFormat },
    /// The string is not a colour.
    InvalidColor { error: ColorError },
}

/// Why a template gave no text.
#[derive(Debug)]
pub enum RenderError {
    /// There is no template of this name.
    TemplateMissing { template: String, detail: String },
    /// The template exists but could not be rendered, as when a filter is
    /// handed a value that it does not take.
    FilterInputInvalid { template: String, detail: String },
}

/// What is known of a failed rendering: whether the engine held no template
/// of the name, and the engine's words.
#[derive(Debug)]
pub struct RenderFailure {
    pub missing: bool,
    pub detail: String,
}

/// The names of the templates that an engine holds.
pub uninterp spec fn template_names(engine: tera::Tera) -> Set<Seq<char>>;

/// The colour filters that an engine holds: each name under which a filter
/// is registered that hands its value to `apply_filter`, with the format
/// that the filter asks for.
pub uninterp spec fn color_filters(engine: tera::Tera) -> Map<Seq<char>, ColorFormat>;

/// The templates and the filters registered with them.
pub struct TemplateEngine {
    tera: tera::Tera,
}

/// A set of colour filters with the five filters of this library added,
/// each under its own name.
pub open spec fn with_color_filters(filters: Map<Seq<char>, ColorFormat>) -> Map<
    Seq<char>,
    ColorFormat,
> {
    filters.insert(filter_name_text(ColorFormat::CssRgba), ColorFormat::CssRgba).insert(
        filter_name_text(ColorFormat::Rofi),
        ColorFormat::Rofi,
    ).insert(filter_name_text(ColorFormat::Plymouth), ColorFormat::Plymouth).insert(
        filter_name_text(ColorFormat::Hex),
        ColorFormat::Hex,
    ).insert(filter_name_text(ColorFormat::Hyprland), ColorFormat::Hyprland)
}

/// The name under which templates call a filter.
pub open spec fn filter_name_text(format: ColorFormat) -> Seq<char> {
    match format {
        ColorFormat::CssRgba => "css_rgba"@,
        ColorFormat::Rofi => "rofi"@,
        ColorFormat::Plymouth => "plymouth"@,
        ColorFormat::Hex => "hex"@,
        ColorFormat::Hyprland => "hyprland"@,
    }
}

/// A colour in one of the formats.
pub open spec fn formatted(format: ColorFormat, c: Rgba) -> Seq<char> {
    match format {
        ColorFormat::CssRgba => css_text(c),
        ColorFormat::Rofi => rofi_text(c),
        ColorFormat::Plymouth => plymouth_text(c),
        ColorFormat::Hex => hex_text(c),
        ColorFormat::Hyprland => hyprland_text(c),
    }
}

/// What a filter gives for a value: for a string that is a colour, the
/// colour in the filter's format.
pub open spec fn filtered(format: ColorFormat, value: Option<Seq<char>>) -> Result<
    Seq<char>,
    FilterError,
> {
    match value {
        None => Err(FilterError::NotAString { filter: format }),
        Some(text) => match parse_color(text) {
            Ok(c) => Ok(formatted(format, c)),
            Err(e) => Err(FilterError::InvalidColor { error: e }),
        },
    }
}

/// The words of a filter error.
pub open spec fn filter_error_text(e: FilterError) -> Seq<char> {
    match e {
        FilterError::NotAString { filter } => filter_name_text(filter) + " filter requires a string"@,
        FilterError::InvalidColor { error } => "Invalid hex color: "@ + crate::color::error_text(error),
    }
}

/// The view of an optional string.
pub open spec fn optional_text(value: Option<&str>) -> Option<Seq<char>> {
    match value {
        Some(s) => Some(s@),
        None => None,
    }
}

/// The name is that of one of the five colour filters.
pub open spec fn is_filter_name(name: Seq<char>) -> bool {
    name == filter_name_text(ColorFormat::CssRgba) || name == filter_name_text(ColorFormat::Rofi)
        || name == filter_name_text(ColorFormat::Plymouth) || name == filter_name_text(
        ColorFormat::Hex,
    ) || name == filter_name_text(ColorFormat::Hyprland)
}

/// The five filters stand under five different names: once they are
/// added, each name gives its own format, and a colour filter under any
/// other name stays as it was.
pub proof fn lemma_color_filters(filters: Map<Seq<char>, ColorFormat>)
    ensures
        forall|format: ColorFormat|
            with_color_filters(filters).dom().contains(#[trigger] filter_name_text(format))
                && with_color_filters(filters)[filter_name_text(format)] == format,
        forall|name: Seq<char>|
            !is_filter_name(name) ==> (#[trigger] with_color_filters(filters).dom().contains(name)
                <==> filters.dom().contains(name)) && with_color_filters(filters)[name]
                == filters[name],
{
    reveal_strlit("css_rgba");
    reveal_strlit("rofi");
    reveal_strlit("plymouth");
    reveal_strlit("hex");
    reveal_strlit("hyprland");
    assert("css_rgba"@.len() == 8 && "css_rgba"@[0] == 'c');
    assert("rofi"@.len() == 4);
    assert("plymouth"@.len() == 8 && "plymouth"@[0] == 'p');
    assert("hex"@.len() == 3);
    assert("hyprland"@.len() == 8 && "hyprland"@[0] == 'h');
}

/// The name under which templates call a filter.
pub fn filter_name(format: ColorFormat) -> (s: &'static str)
    ensures
        s@ == filter_name_text(format),
{
    match format {
        ColorFormat::CssRgba => "css_rgba",
        ColorFormat::Rofi => "rofi",
        ColorFormat::Plymouth => "plymouth",
        ColorFormat::Hex => "hex",
        ColorFormat::Hyprland => "hyprland",
    }
}

/// Applies a colour filter to a value that is a string or is none.
pub fn apply_filter(format: ColorFormat, value: Option<&str>) -> (r: Result<String, FilterError>)
    ensures
        match r {
            Ok(text) => filtered(format, optional_text(value)) == Ok::<Seq<char>, FilterError>(
                text@,
            ),
            Err(e) => filtered(format, optional_text(value)) == Err::<Seq<char>, FilterError>(e),
        },
{
    match value {
        None => Err(FilterError::NotAString { filter: format }),
        Some(text) => match Color::from_hex(text) {
            Err(e) => Err(FilterError::InvalidColor { error: e }),
            Ok(color) => Ok(
                match format {
                    ColorFormat::CssRgba => color.css_rgba(),
                    ColorFormat::Rofi => color.rofi(),
                    ColorFormat::Plymouth => color.plymouth(),
                    ColorFormat::Hex => color.hex(),
                    ColorFormat::Hyprland => color.hyprland(),
                },
            ),
        },
    }
}

impl FilterError {
    /// The error in words.
    pub fn message(&self) -> (s: String)
        ensures
            s@ == filter_error_text(*self),
    {
        let mut out: Vec<char> = Vec::new();
        match self {
            FilterError::NotAString { filter } => {
                push_text(&mut out, filter_name(*filter));
                push_text(&mut out, " filter requires a string");
            },
            FilterError::InvalidColor { error } => {
                push_text(&mut out, "Invalid hex color: ");
                let words = error.message();
                push_text(&mut out, words.as_str());
            },
        }
        text_of(&out)
    }
}

/// What a rendering that ended in `outcome` gives for the template: the
/// text, or an error that names the template and says whether it was
/// missing.
pub fn render_outcome(template_path: &str, outcome: Result<String, RenderFailure>) -> (r: Result<
    String,
    RenderError,
>)
    ensures
        match outcome {
            Ok(text) => r == Ok::<String, RenderError>(text),
            Err(failure) => if failure.missing {
                r matches Err(RenderError::TemplateMissing { template, detail }) && template@
                    == template_path@ && detail == failure.detail
            } else {
                r matches Err(RenderError::FilterInputInvalid { template, detail }) && template@
                    == template_path@ && detail == failure.detail
            },
        },
{
    match outcome {
        Ok(text) => Ok(text),
        Err(failure) => {
            if failure.missing {
                Err(
                    RenderError::TemplateMissing {
                        template: template_path.to_owned(),
                        detail: failure.detail,
                    },
                )
            } else {
                Err(
                    RenderError::FilterInputInvalid {
                        template: template_path.to_owned(),
                        detail: failure.detail,
                    },
                )
            }
        },
    }
}

/// `tera::Tera::register_filter`: registers, under `name`, a filter that
/// hands its value, as a string or as none, to `apply_filter`, and gives the
/// text that comes back, or an error with the words of the failure. The
/// filter takes the place of any that stood under the name; the templates
/// of the engine stay as they are.
#[verifier::external_body]
fn register_filter(tera: &mut tera::Tera, name: &str, format: ColorFormat)
    ensures
        color_filters(*final(tera)) == color_filters(*old(tera)).insert(name@, format),
        template_names(*final(tera)) == template_names(*old(tera)),
{
    tera.register_filter(
        name,
        move |value: &tera::Value, _: &std::collections::HashMap<String, tera::Value>| {
            match apply_filter(format, value.as_str()) {
                Ok(text) => Ok(tera::Value::String(text)),
                Err(e) => Err(tera::Error::msg(e.message())),
            }
        },
    );
}

impl TemplateEngine {
    /// The names of the templates that the engine holds.
    pub closed spec fn templates(&self) -> Set<Seq<char>> {
        template_names(self.tera)
    }

    /// The colour filters that the engine holds, each name with its format.
    pub closed spec fn filters(&self) -> Map<Seq<char>, ColorFormat> {
        color_filters(self.tera)
    }

    /// An engine over the templates of `tera`, with the five colour filters
    /// registered, each under its own name.
    pub fn new(tera: tera::Tera) -> (r: TemplateEngine)
        ensures
            r.templates() == template_names(tera),
            r.filters() == with_color_filters(color_filters(tera)),
    {
        let mut tera = tera;
        register_filter(&mut tera, filter_name(ColorFormat::CssRgba), ColorFormat::CssRgba);
        register_filter(&mut tera, filter_name(ColorFormat::Rofi), ColorFormat::Rofi);
        register_filter(&mut tera, filter_name(ColorFormat::Plymouth), ColorFormat::Plymouth);
        register_filter(&mut tera, filter_name(ColorFormat::Hex), ColorFormat::Hex);
        register_filter(&mut tera, filter_name(ColorFormat::Hyprland), ColorFormat::Hyprland);
        TemplateEngine { tera }
    }

    /// The engine itself, for whoever renders with it: it holds the
    /// templates and the colour filters of this engine.
    pub fn tera(&self) -> (r: &tera::Tera)
        ensures
            template_names(*r) == self.templates(),
            color_filters(*r) == self.filters(),
    {
        &self.tera
    }
}

impl RenderError {
    /// The template that could not be rendered.
    pub open spec fn template(&self) -> Seq<char> {
        match *self {
            RenderError::TemplateMissing { template, detail } => template@,
            RenderError::FilterInputInvalid { template, detail } => template@,
        }
    }

    /// The template that could not be rendered.
    pub fn template_path(&self) -> (s: &str)
        ensures
            s@ == self.template(),
    {
        match self {
            RenderError::TemplateMissing { template, detail } => template.as_str(),
            RenderError::FilterInputInvalid { template, detail } => template.as_str(),
        }
    }
}

} // verus!
