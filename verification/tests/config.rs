use slate::config::{
    default_accent_bright, default_bg_overlay, default_bg_surface, default_font,
    default_foreground_dim, default_palette_mode, default_wallpaper, is_number_text,
    valid_keys, App, ConfigError, ConfigKey, Hardware, Palette, ReloadSignal, SlateConfig,
};

fn sample() -> SlateConfig {
    SlateConfig {
        palette: Palette {
            mode: default_palette_mode(),
            bg_void: "#0b0c10".to_string(),
            bg_void_transparent: "#0b0c1099".to_string(),
            bg_surface: default_bg_surface(),
            bg_overlay: default_bg_overlay(),
            foreground: "#aeb3c2".to_string(),
            foreground_dim: default_foreground_dim(),
            accent: "#ffffff".to_string(),
            accent_bright: default_accent_bright(),
        },
        hardware: Hardware {
            monitor_scale: "1.0".to_string(),
            root_uuid: "1234-ABCD".to_string(),
            font_family: default_font(),
            wallpaper: default_wallpaper(),
        },
        apps: vec![App {
            name: "waybar-style".to_string(),
            enabled: true,
            template_path: "waybar/style.css".to_string(),
            config_path: "waybar/style.css".to_string(),
            reload_signal: ReloadSignal::Signal { signal: "waybar".to_string() },
        }],
    }
}

#[test]
fn defaults_are_the_documented_ones() {
    assert_eq!(default_palette_mode(), "manual");
    assert_eq!(default_bg_surface(), "#14161c");
    assert_eq!(default_bg_overlay(), "#1a1d26");
    assert_eq!(default_foreground_dim(), "#555b6e");
    assert_eq!(default_accent_bright(), "#7aa2cf");
    assert_eq!(default_wallpaper(), "~/Pictures/Wallpapers/mist-forest.png");
    assert_eq!(default_font(), "Iosevka Nerd Font");
}

#[test]
fn set_changes_the_named_field_only() {
    let mut c = sample();
    let mut want = sample();
    assert!(slate::config::set(&mut c, "palette.accent", "#5f87af").is_ok());
    want.palette.accent = "#5f87af".to_string();
    assert_eq!(format!("{:?}", c), format!("{:?}", want));
    assert!(slate::config::set(&mut c, "hardware.font_family", "Fira Code").is_ok());
    want.hardware.font_family = "Fira Code".to_string();
    assert_eq!(format!("{:?}", c), format!("{:?}", want));
}

#[test]
fn set_reaches_every_key() {
    let mut c = sample();
    for key in valid_keys() {
        let value = match key.as_str() {
            "palette.mode" => "matugen",
            "hardware.monitor_scale" => "1.25",
            _ => "value",
        };
        assert!(slate::config::set(&mut c, &key, value).is_ok(), "{}", key);
    }
    assert_eq!(c.palette.mode, "matugen");
    assert_eq!(c.palette.bg_void, "value");
    assert_eq!(c.palette.bg_void_transparent, "value");
    assert_eq!(c.palette.bg_surface, "value");
    assert_eq!(c.palette.bg_overlay, "value");
    assert_eq!(c.palette.foreground, "value");
    assert_eq!(c.palette.foreground_dim, "value");
    assert_eq!(c.palette.accent, "value");
    assert_eq!(c.palette.accent_bright, "value");
    assert_eq!(c.hardware.monitor_scale, "1.25");
    assert_eq!(c.hardware.font_family, "value");
    assert_eq!(c.hardware.root_uuid, "value");
    assert_eq!(c.hardware.wallpaper, "value");
    assert_eq!(c.apps.len(), 1);
}

#[test]
fn unknown_key_leaves_the_configuration_untouched() {
    let mut c = sample();
    let before = format!("{:?}", c);
    for key in ["palette", "palette.", "palette.nope", "apps.name", "hardware.monitor_scale.x", "", "Palette.mode"] {
        match slate::config::set(&mut c, key, "x") {
            Err(ConfigError::UnknownKey { key: named, valid_keys: listed }) => {
                assert_eq!(named, key);
                assert_eq!(listed, valid_keys());
            }
            other => panic!("{:?}", other),
        }
        assert_eq!(format!("{:?}", c), before);
    }
}

#[test]
fn schema_lists_thirteen_keys() {
    assert_eq!(
        valid_keys(),
        vec![
            "palette.mode",
            "palette.bg_void",
            "palette.bg_void_transparent",
            "palette.bg_surface",
            "palette.bg_overlay",
            "palette.foreground",
            "palette.foreground_dim",
            "palette.accent",
            "palette.accent_bright",
            "hardware.monitor_scale",
            "hardware.font_family",
            "hardware.root_uuid",
            "hardware.wallpaper",
        ]
    );
    for key in ConfigKey::all() {
        assert_eq!(ConfigKey::parse(key.name()), Some(key));
    }
    assert_eq!(ConfigKey::parse("palette.mode "), None);
}

#[test]
fn wrong_values_are_type_mismatches() {
    let mut c = sample();
    let before = format!("{:?}", c);
    assert!(matches!(
        slate::config::set(&mut c, "palette.mode", "automatic"),
        Err(ConfigError::TypeMismatch { field: ConfigKey::PaletteMode })
    ));
    assert!(matches!(
        slate::config::set(&mut c, "hardware.monitor_scale", "big"),
        Err(ConfigError::TypeMismatch { field: ConfigKey::HardwareMonitorScale })
    ));
    assert_eq!(format!("{:?}", c), before);
    assert!(c.is_valid());
    assert!(slate::config::set(&mut c, "palette.mode", "manual").is_ok());
    assert!(slate::config::set(&mut c, "hardware.monitor_scale", "2").is_ok());
    assert!(c.is_valid());
}

#[test]
fn numbers_follow_the_decimal_grammar() {
    for text in [
        "0", "1", "1.5", "3.14", "-3.14", "+2", "2.5E10", "2.5e10", "2.5E-10", "2.5e+7", "5.", ".5",
        "inf", "-inf", "+infinity", "NaN", "nan", "INF", "Infinity", "+.5e-3", "007",
    ] {
        assert!(is_number_text(text), "{}", text);
        assert!(text.parse::<f32>().is_ok(), "{}", text);
    }
    for text in [
        "", "+", "-", ".", "e5", "1e", "1e+", "1.2.3", " 1", "1 ", "1_000", "0x10", "1,5", "in", "infinit",
        "nanx", "--1", "1e5.0", "abc", "1f", "+-1", ".e1",
    ] {
        assert!(!is_number_text(text), "{}", text);
        assert!(text.parse::<f32>().is_err(), "{}", text);
    }
}

#[test]
fn config_errors_in_words() {
    let mut c = sample();
    let e = slate::config::set(&mut c, "palette.colour", "x").unwrap_err();
    assert_eq!(
        e.message(),
        "Unknown configuration key: palette.colour\nValid keys:\n  palette.mode\n  palette.bg_void\n  palette.bg_void_transparent\n  palette.bg_surface\n  palette.bg_overlay\n  palette.foreground\n  palette.foreground_dim\n  palette.accent\n  palette.accent_bright\n  hardware.monitor_scale\n  hardware.font_family\n  hardware.root_uuid\n  hardware.wallpaper"
    );
    let e = slate::config::set(&mut c, "palette.mode", "x").unwrap_err();
    assert_eq!(e.message(), "palette.mode must be \"manual\" or \"matugen\"");
    let e = slate::config::set(&mut c, "hardware.monitor_scale", "x").unwrap_err();
    assert_eq!(e.message(), "monitor_scale must be a number");
    assert_eq!(ConfigError::NotFound.message(), "Configuration file not found");
    assert_eq!(ConfigError::ParseError.message(), "Configuration file is malformed");
}

#[test]
fn wallpaper_is_expanded_below_home() {
    let mut c = sample();
    assert_eq!(
        c.expanded_wallpaper(Some("/home/ada")),
        "/home/ada/Pictures/Wallpapers/mist-forest.png"
    );
    assert_eq!(c.expanded_wallpaper(None), "~/Pictures/Wallpapers/mist-forest.png");
    c.hardware.wallpaper = "/srv/walls/a.png".to_string();
    assert_eq!(c.expanded_wallpaper(Some("/home/ada")), "/srv/walls/a.png");
}

#[test]
fn clones_are_equal() {
    let c = sample();
    assert_eq!(format!("{:?}", c.clone()), format!("{:?}", c));
}

#[test]
fn missing_fields_take_their_defaults() {
    let p = Palette::with_defaults(
        None,
        "#000001".to_string(),
        "#00000299".to_string(),
        None,
        None,
        "#000003".to_string(),
        None,
        "#000004".to_string(),
        None,
    );
    assert_eq!(
        format!("{:?}", p),
        format!(
            "{:?}",
            Palette {
                mode: "manual".to_string(),
                bg_void: "#000001".to_string(),
                bg_void_transparent: "#00000299".to_string(),
                bg_surface: "#14161c".to_string(),
                bg_overlay: "#1a1d26".to_string(),
                foreground: "#000003".to_string(),
                foreground_dim: "#555b6e".to_string(),
                accent: "#000004".to_string(),
                accent_bright: "#7aa2cf".to_string(),
            }
        )
    );
    let h = Hardware::with_defaults("2".to_string(), "u".to_string(), None, None);
    assert_eq!(h.font_family, "Iosevka Nerd Font");
    assert_eq!(h.wallpaper, "~/Pictures/Wallpapers/mist-forest.png");
    assert_eq!((h.monitor_scale.as_str(), h.root_uuid.as_str()), ("2", "u"));
}

#[test]
fn given_fields_are_kept() {
    let some = |s: &str| Some(s.to_string());
    let p = Palette::with_defaults(
        some("matugen"),
        "a".to_string(),
        "b".to_string(),
        some("c"),
        some("d"),
        "e".to_string(),
        some("f"),
        "g".to_string(),
        some("h"),
    );
    let fields = [
        p.mode, p.bg_void, p.bg_void_transparent, p.bg_surface, p.bg_overlay, p.foreground,
        p.foreground_dim, p.accent, p.accent_bright,
    ];
    assert_eq!(fields, ["matugen", "a", "b", "c", "d", "e", "f", "g", "h"]);
    let h = Hardware::with_defaults("1.5".to_string(), "u".to_string(), some("font"), some("wall"));
    assert_eq!((h.font_family.as_str(), h.wallpaper.as_str()), ("font", "wall"));
}
