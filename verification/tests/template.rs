use slate::color::ColorError;
use slate::template::{
    apply_filter, filter_name, render_outcome, ColorFormat, FilterError, RenderError, RenderFailure,
    TemplateEngine,
};
use std::collections::BTreeMap;
use tera::{Context, Tera};

fn engine(templates: &[(&str, &str)]) -> TemplateEngine {
    let mut tera = Tera::default();
    for (name, text) in templates {
        tera.add_raw_template(name, text).unwrap();
    }
    TemplateEngine::new(tera)
}

fn render(e: &TemplateEngine, name: &str, c: &Context) -> Result<String, RenderError> {
    let outcome = e.tera().render(name, c).map_err(|error| {
        let mut detail = error.to_string();
        let mut cause = std::error::Error::source(&error);
        while let Some(inner) = cause {
            detail = format!("{}: {}", detail, inner);
            cause = inner.source();
        }
        RenderFailure { missing: matches!(error.kind, tera::ErrorKind::TemplateNotFound(_)), detail }
    });
    render_outcome(name, outcome)
}

fn context() -> Context {
    let mut palette = BTreeMap::new();
    palette.insert("accent".to_string(), "#5F87AF".to_string());
    palette.insert("bg_void_transparent".to_string(), "#0b0c1099".to_string());
    palette.insert("broken".to_string(), "#12".to_string());
    let mut hardware = BTreeMap::new();
    hardware.insert("font_family".to_string(), "Iosevka Nerd Font".to_string());
    let mut c = Context::new();
    c.insert("palette", &palette);
    c.insert("hardware", &hardware);
    c.insert("scale", &2);
    c
}

#[test]
fn filters_give_each_format() {
    let value = Some("#0b0c1099");
    assert_eq!(apply_filter(ColorFormat::CssRgba, value), Ok("rgba(11, 12, 16, 0.60)".to_string()));
    assert_eq!(apply_filter(ColorFormat::Rofi, value), Ok("#0b0c1099".to_string()));
    assert_eq!(apply_filter(ColorFormat::Plymouth, value), Ok("0x0b0c10".to_string()));
    assert_eq!(apply_filter(ColorFormat::Hex, value), Ok("#0b0c10".to_string()));
    assert_eq!(apply_filter(ColorFormat::Hyprland, value), Ok("0b0c1099".to_string()));
}

#[test]
fn filters_reject_what_is_no_colour() {
    assert_eq!(
        apply_filter(ColorFormat::Hex, None),
        Err(FilterError::NotAString { filter: ColorFormat::Hex })
    );
    assert_eq!(
        apply_filter(ColorFormat::Rofi, Some("#12")),
        Err(FilterError::InvalidColor { error: ColorError::InvalidFormat })
    );
    assert_eq!(
        apply_filter(ColorFormat::Rofi, Some("#12345x")),
        Err(FilterError::InvalidColor { error: ColorError::ParseError })
    );
    assert_eq!(
        FilterError::NotAString { filter: ColorFormat::CssRgba }.message(),
        "css_rgba filter requires a string"
    );
    assert_eq!(
        FilterError::InvalidColor { error: ColorError::InvalidFormat }.message(),
        "Invalid hex color: Invalid color format (expected #RRGGBB or #RRGGBBAA)"
    );
}

#[test]
fn filter_names() {
    assert_eq!(filter_name(ColorFormat::CssRgba), "css_rgba");
    assert_eq!(filter_name(ColorFormat::Rofi), "rofi");
    assert_eq!(filter_name(ColorFormat::Plymouth), "plymouth");
    assert_eq!(filter_name(ColorFormat::Hex), "hex");
    assert_eq!(filter_name(ColorFormat::Hyprland), "hyprland");
}

#[test]
fn engine_renders_with_the_colour_filters() {
    let e = engine(&[(
        "waybar/style.css",
        "a={{ palette.accent | hex }} b={{ palette.accent | rofi }} c={{ palette.accent | plymouth }} d={{ palette.bg_void_transparent | hyprland }} e={{ palette.bg_void_transparent | css_rgba }} f={{ hardware.font_family }}",
    )]);
    assert_eq!(
        render(&e, "waybar/style.css", &context()).unwrap(),
        "a=#5f87af b=#5f87afff c=0x5f87af d=0b0c1099 e=rgba(11, 12, 16, 0.60) f=Iosevka Nerd Font"
    );
}

#[test]
fn missing_template_is_reported_by_name() {
    let e = engine(&[("a", "x")]);
    match render(&e, "b", &context()) {
        Err(RenderError::TemplateMissing { template, .. }) => assert_eq!(template, "b"),
        other => panic!("{:?}", other),
    }
}

#[test]
fn filter_misuse_is_reported_by_template() {
    let e = engine(&[("bad", "{{ palette.broken | hex }}"), ("number", "{{ scale | rofi }}")]);
    match render(&e, "bad", &context()) {
        Err(RenderError::FilterInputInvalid { template, detail }) => {
            assert_eq!(template, "bad");
            assert!(detail.contains("Invalid hex color"), "{}", detail);
        }
        other => panic!("{:?}", other),
    }
    match render(&e, "number", &context()) {
        Err(RenderError::FilterInputInvalid { template, detail }) => {
            assert_eq!(template, "number");
            assert!(detail.contains("rofi filter requires a string"), "{}", detail);
        }
        other => panic!("{:?}", other),
    }
}

#[test]
fn outcome_of_a_rendering() {
    assert_eq!(render_outcome("t", Ok("text".to_string())).unwrap(), "text");
    match render_outcome("t", Err(RenderFailure { missing: true, detail: "d".to_string() })) {
        Err(RenderError::TemplateMissing { template, detail }) => {
            assert_eq!((template.as_str(), detail.as_str()), ("t", "d"));
        }
        other => panic!("{:?}", other),
    }
    match render_outcome("t", Err(RenderFailure { missing: false, detail: "d".to_string() })) {
        Err(e) => {
            assert!(matches!(e, RenderError::FilterInputInvalid { .. }));
            assert_eq!(e.template_path(), "t");
        }
        other => panic!("{:?}", other),
    }
}

fn shout(value: &tera::Value, _: &std::collections::HashMap<String, tera::Value>) -> tera::Result<tera::Value> {
    Ok(tera::Value::String(format!("{}!", value.as_str().unwrap_or(""))))
}

#[test]
fn engine_keeps_other_filters_and_takes_the_names_of_its_own() {
    let mut tera = Tera::default();
    tera.add_raw_template("t", "{{ palette.accent | shout }} {{ palette.accent | hex }}").unwrap();
    tera.register_filter("shout", shout);
    tera.register_filter("hex", shout);
    let e = TemplateEngine::new(tera);
    assert_eq!(render(&e, "t", &context()).unwrap(), "#5F87AF! #5f87af");
}

#[test]
fn every_template_of_the_engine_is_found() {
    let e = engine(&[("a", "1"), ("b/c.css", "2")]);
    assert_eq!(render(&e, "a", &context()).unwrap(), "1");
    assert_eq!(render(&e, "b/c.css", &context()).unwrap(), "2");
    for missing in ["", "b", "c.css", "A", "a "] {
        assert!(matches!(
            render(&e, missing, &context()),
            Err(RenderError::TemplateMissing { .. })
        ));
    }
}

#[test]
fn only_the_template_asked_for_can_be_missing() {
    let e = engine(&[("outer", "{% include \"inner\" %}")]);
    match render(&e, "outer", &context()) {
        Err(RenderError::FilterInputInvalid { template, .. }) => assert_eq!(template, "outer"),
        other => panic!("{:?}", other),
    }
}
