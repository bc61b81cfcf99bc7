//! The configuration aggregate: palette, hardware and the ordered list of
//! applications, with the schema of keys that can be set by name.

use vstd::prelude::*;
use crate::text::{chars_of, same_text, push_text, text_of, texts};

verus! {

/// The colours of the theme and the way they are chosen.
#[derive(Debug)]
pub struct Palette {
    /// `manual`, or `matugen` where the palette is generated.
    pub mode: String,
    pub bg_void: String,
    pub bg_void_transparent: String,
    pub bg_surface: String,
    pub bg_overlay: String,
    pub foreground: String,
    pub foreground_dim: String,
    pub accent: String,
    pub accent_bright: String,
}

/// What the machine looks like.
#[derive(Debug)]
pub struct Hardware {
    /// The monitor scale, kept as the decimal text of the number.
    pub monitor_scale: String,
    pub root_uuid: String,
    pub font_family: String,
    pub wallpaper: String,
}

/// How a running application is told to read its configuration again.
#[derive(Debug)]
pub enum ReloadSignal {
    Hyprctl,
    Hyprpaper,
    Signal { signal: String },
    Makoctl,
    Nothing,
}

/// One application whose configuration file is rendered from a template.
#[derive(Debug)]
pub struct App {
    pub name: String,
    pub enabled: bool,
    pub template_path: String,
    pub config_path: String,
    pub reload_signal: ReloadSignal,
}

/// The whole configuration. The order of `apps` is the order in which they
/// are rendered and committed.
#[derive(Debug)]
pub struct SlateConfig {
    pub palette: Palette,
    pub hardware: Hardware,
    pub apps: Vec<App>,
}

pub struct PaletteView {
    pub mode: Seq<char>,
    pub bg_void: Seq<char>,
    pub bg_void_transparent: Seq<char>,
    pub bg_surface: Seq<char>,
    pub bg_overlay: Seq<char>,
    pub foreground: Seq<char>,
    pub foreground_dim: Seq<char>,
    pub accent: Seq<char>,
    pub accent_bright: Seq<char>,
}

pub struct HardwareView {
    pub monitor_scale: Seq<char>,
    pub root_uuid: Seq<char>,
    pub font_family: Seq<char>,
    pub wallpaper: Seq<char>,
}

/// A reload signal as its tag and target: two signals with the same key ask
/// for the same reload.
pub enum SignalKey {
    Hyprctl,
    Hyprpaper,
    Signal(Seq<char>),
    Makoctl,
    Nothing,
}

pub struct AppView {
    pub name: Seq<char>,
    pub enabled: bool,
    pub template_path: Seq<char>,
    pub config_path: Seq<char>,
    pub reload_signal: SignalKey,
}

pub struct ConfigView {
    pub palette: PaletteView,
    pub hardware: HardwareView,
    pub apps: Seq<AppView>,
}

impl View for Palette {
    type V = PaletteView;

    open spec fn view(&self) -> PaletteView {
        PaletteView {
            mode: self.mode@,
            bg_void: self.bg_void@,
            bg_void_transparent: self.bg_void_transparent@,
            bg_surface: self.bg_surface@,
            bg_overlay: self.bg_overlay@,
            foreground: self.foreground@,
            foreground_dim: self.foreground_dim@,
            accent: self.accent@,
            accent_bright: self.accent_bright@,
        }
    }
}

impl View for Hardware {
    type V = HardwareView;

    open spec fn view(&self) -> HardwareView {
        HardwareView {
            monitor_scale: self.monitor_scale@,
            root_uuid: self.root_uuid@,
            font_family: self.font_family@,
            wallpaper: self.wallpaper@,
        }
    }
}

impl View for ReloadSignal {
    type V = SignalKey;

    open spec fn view(&self) -> SignalKey {
        match *self {
            ReloadSignal::Hyprctl => SignalKey::Hyprctl,
            ReloadSignal::Hyprpaper => SignalKey::Hyprpaper,
            ReloadSignal::Signal { signal } => SignalKey::Signal(signal@),
            ReloadSignal::Makoctl => SignalKey::Makoctl,
            ReloadSignal::Nothing => SignalKey::Nothing,
        }
    }
}

impl View for App {
    type V = AppView;

    open spec fn view(&self) -> AppView {
        AppView {
            name: self.name@,
            enabled: self.enabled,
            template_path: self.template_path@,
            config_path: self.config_path@,
            reload_signal: self.reload_signal@,
        }
    }
}

/// The views of a sequence of applications, in the same order.
pub open spec fn app_views(apps: Seq<App>) -> Seq<AppView> {
    Seq::new(apps.len(), |i: int| apps[i]@)
}

impl View for SlateConfig {
    type V = ConfigView;

    open spec fn view(&self) -> ConfigView {
        ConfigView { palette: self.palette@, hardware: self.hardware@, apps: app_views(self.apps@) }
    }
}

impl Clone for Palette {
    fn clone(&self) -> (r: Self)
        ensures
            r == *self,
    {
        Palette {
            mode: self.mode.clone(),
            bg_void: self.bg_void.clone(),
            bg_void_transparent: self.bg_void_transparent.clone(),
            bg_surface: self.bg_surface.clone(),
            bg_overlay: self.bg_overlay.clone(),
            foreground: self.foreground.clone(),
            foreground_dim: self.foreground_dim.clone(),
            accent: self.accent.clone(),
            accent_bright: self.accent_bright.clone(),
        }
    }
}

impl Clone for Hardware {
    fn clone(&self) -> (r: Self)
        ensures
            r == *self,
    {
        Hardware {
            monitor_scale: self.monitor_scale.clone(),
            root_uuid: self.root_uuid.clone(),
            font_family: self.font_family.clone(),
            wallpaper: self.wallpaper.clone(),
        }
    }
}

impl Clone for ReloadSignal {
    fn clone(&self) -> (r: Self)
        ensures
            r == *self,
    {
        match self {
            ReloadSignal::Hyprctl => ReloadSignal::Hyprctl,
            ReloadSignal::Hyprpaper => ReloadSignal::Hyprpaper,
            ReloadSignal::Signal { signal } => ReloadSignal::Signal { signal: signal.clone() },
            ReloadSignal::Makoctl => ReloadSignal::Makoctl,
            ReloadSignal::Nothing => ReloadSignal::Nothing,
        }
    }
}

impl Clone for App {
    fn clone(&self) -> (r: Self)
        ensures
            r == *self,
    {
        App {
            name: self.name.clone(),
            enabled: self.enabled,
            template_path: self.template_path.clone(),
            config_path: self.config_path.clone(),
            reload_signal: self.reload_signal.clone(),
        }
    }
}

/// A copy of a list of applications, in the same order.
pub fn clone_apps(apps: &Vec<App>) -> (r: Vec<App>)
    ensures
        r@ == apps@,
{
    let mut out: Vec<App> = Vec::new();
    let mut i: usize = 0;
    while i < apps.len()
        invariant
            i <= apps.len(),
            out@ == apps@.take(i as int),
        decreases apps.len() - i,
    {
        out.push(apps[i].clone());
        assert(apps@.take(i + 1) == apps@.take(i as int).push(apps@[i as int]));
        i += 1;
    }
    assert(apps@.take(apps@.len() as int) == apps@);
    out
}

impl Clone for SlateConfig {
    fn clone(&self) -> (r: Self)
        ensures
            r.palette == self.palette,
            r.hardware == self.hardware,
            r.apps@ == self.apps@,
            r@ == self@,
    {
        SlateConfig {
            palette: self.palette.clone(),
            hardware: self.hardware.clone(),
            apps: clone_apps(&self.apps),
        }
    }
}

/// The palette mode of a configuration that names none.
pub fn default_palette_mode() -> (s: String)
    ensures
        s@ == "manual"@,
{
    "manual".to_owned()
}

/// The surface colour of a configuration that names none.
pub fn default_bg_surface() -> (s: String)
    ensures
        s@ == "#14161c"@,
{
    "#14161c".to_owned()
}

/// The overlay colour of a configuration that names none.
pub fn default_bg_overlay() -> (s: String)
    ensures
        s@ == "#1a1d26"@,
{
    "#1a1d26".to_owned()
}

/// The dimmed text colour of a configuration that names none.
pub fn default_foreground_dim() -> (s: String)
    ensures
        s@ == "#555b6e"@,
{
    "#555b6e".to_owned()
}

/// The bright accent of a configuration that names none.
pub fn default_accent_bright() -> (s: String)
    ensures
        s@ == "#7aa2cf"@,
{
    "#7aa2cf".to_owned()
}

/// The wallpaper of a configuration that names none.
pub fn default_wallpaper() -> (s: String)
    ensures
        s@ == "~/Pictures/Wallpapers/mist-forest.png"@,
{
    "~/Pictures/Wallpapers/mist-forest.png".to_owned()
}

/// The font of a configuration that names none.
pub fn default_font() -> (s: String)
    ensures
        s@ == "Iosevka Nerd Font"@,
{
    "Iosevka Nerd Font".to_owned()
}

/// The text that is given, or the default where none is.
pub open spec fn given_or(value: Option<String>, default: Seq<char>) -> Seq<char> {
    match value {
        Some(s) => s@,
        None => default,
    }
}

fn or_default(value: Option<String>, default: String) -> (r: String)
    ensures
        r@ == given_or(value, default@),
{
    match value {
        Some(s) => s,
        None => default,
    }
}

impl Palette {
    /// A palette from what a configuration file holds: the mode, the two
    /// surface colours, the dimmed text colour and the bright accent may be
    /// missing and then take their defaults.
    pub fn with_defaults(
        mode: Option<String>,
        bg_void: String,
        bg_void_transparent: String,
        bg_surface: Option<String>,
        bg_overlay: Option<String>,
        foreground: String,
        foreground_dim: Option<String>,
        accent: String,
        accent_bright: Option<String>,
    ) -> (r: Palette)
        ensures
            r@ == (PaletteView {
                mode: given_or(mode, "manual"@),
                bg_void: bg_void@,
                bg_void_transparent: bg_void_transparent@,
                bg_surface: given_or(bg_surface, "#14161c"@),
                bg_overlay: given_or(bg_overlay, "#1a1d26"@),
                foreground: foreground@,
                foreground_dim: given_or(foreground_dim, "#555b6e"@),
                accent: accent@,
                accent_bright: given_or(accent_bright, "#7aa2cf"@),
            }),
    {
        Palette {
            mode: or_default(mode, default_palette_mode()),
            bg_void,
            bg_void_transparent,
            bg_surface: or_default(bg_surface, default_bg_surface()),
            bg_overlay: or_default(bg_overlay, default_bg_overlay()),
            foreground,
            foreground_dim: or_default(foreground_dim, default_foreground_dim()),
            accent,
            accent_bright: or_default(accent_bright, default_accent_bright()),
        }
    }
}

impl Hardware {
    /// The hardware section from what a configuration file holds: the font
    /// and the wallpaper may be missing and then take their defaults.
    pub fn with_defaults(
        monitor_scale: String,
        root_uuid: String,
        font_family: Option<String>,
        wallpaper: Option<String>,
    ) -> (r: Hardware)
        ensures
            r@ == (HardwareView {
                monitor_scale: monitor_scale@,
                root_uuid: root_uuid@,
                font_family: given_or(font_family, "Iosevka Nerd Font"@),
                wallpaper: given_or(wallpaper, "~/Pictures/Wallpapers/mist-forest.png"@),
            }),
    {
        Hardware {
            monitor_scale,
            root_uuid,
            font_family: or_default(font_family, default_font()),
            wallpaper: or_default(wallpaper, default_wallpaper()),
        }
    }
}

/// The keys that `set` knows, one for each field of the palette and of the
/// hardware section.
#[derive(Clone, Copy, Debug, PartialEq, Eq, Structural)]
pub enum ConfigKey {
    PaletteMode,
    PaletteBgVoid,
    PaletteBgVoidTransparent,
    PaletteBgSurface,
    PaletteBgOverlay,
    PaletteForeground,
    PaletteForegroundDim,
    PaletteAccent,
    PaletteAccentBright,
    HardwareMonitorScale,
    HardwareFontFamily,
    HardwareRootUuid,
    HardwareWallpaper,
}

/// Why a configuration could not be read or changed.
#[derive(Debug)]
pub enum ConfigError {
    /// There is no configuration file at the path.
    NotFound,
    /// The file is not a configuration.
    ParseError,
    /// The key names no field; `valid_keys` lists every key that does.
    UnknownKey { key: String, valid_keys: Vec<String> },
    /// The value is not of the kind that the field holds.
    TypeMismatch { field: ConfigKey },
}

/// The dotted name of a key.
pub open spec fn key_name(k: ConfigKey) -> Seq<char> {
    match k {
        ConfigKey::PaletteMode => "palette.mode"@,
        ConfigKey::PaletteBgVoid => "palette.bg_void"@,
        ConfigKey::PaletteBgVoidTransparent => "palette.bg_void_transparent"@,
        ConfigKey::PaletteBgSurface => "palette.bg_surface"@,
        ConfigKey::PaletteBgOverlay => "palette.bg_overlay"@,
        ConfigKey::PaletteForeground => "palette.foreground"@,
        ConfigKey::PaletteForegroundDim => "palette.foreground_dim"@,
        ConfigKey::PaletteAccent => "palette.accent"@,
        ConfigKey::PaletteAccentBright => "palette.accent_bright"@,
        ConfigKey::HardwareMonitorScale => "hardware.monitor_scale"@,
        ConfigKey::HardwareFontFamily => "hardware.font_family"@,
        ConfigKey::HardwareRootUuid => "hardware.root_uuid"@,
        ConfigKey::HardwareWallpaper => "hardware.wallpaper"@,
    }
}

/// Every key, in the order of the schema.
pub open spec fn all_keys() -> Seq<ConfigKey> {
    seq![
        ConfigKey::PaletteMode,
        ConfigKey::PaletteBgVoid,
        ConfigKey::PaletteBgVoidTransparent,
        ConfigKey::PaletteBgSurface,
        ConfigKey::PaletteBgOverlay,
        ConfigKey::PaletteForeground,
        ConfigKey::PaletteForegroundDim,
        ConfigKey::PaletteAccent,
        ConfigKey::PaletteAccentBright,
        ConfigKey::HardwareMonitorScale,
        ConfigKey::HardwareFontFamily,
        ConfigKey::HardwareRootUuid,
        ConfigKey::HardwareWallpaper,
    ]
}

/// The key with this dotted name, if there is one.
pub open spec fn key_of(name: Seq<char>) -> Option<ConfigKey> {
    if name == "palette.mode"@ {
        Some(ConfigKey::PaletteMode)
    } else if name == "palette.bg_void"@ {
        Some(ConfigKey::PaletteBgVoid)
    } else if name == "palette.bg_void_transparent"@ {
        Some(ConfigKey::PaletteBgVoidTransparent)
    } else if name == "palette.bg_surface"@ {
        Some(ConfigKey::PaletteBgSurface)
    } else if name == "palette.bg_overlay"@ {
        Some(ConfigKey::PaletteBgOverlay)
    } else if name == "palette.foreground"@ {
        Some(ConfigKey::PaletteForeground)
    } else if name == "palette.foreground_dim"@ {
        Some(ConfigKey::PaletteForegroundDim)
    } else if name == "palette.accent"@ {
        Some(ConfigKey::PaletteAccent)
    } else if name == "palette.accent_bright"@ {
        Some(ConfigKey::PaletteAccentBright)
    } else if name == "hardware.monitor_scale"@ {
        Some(ConfigKey::HardwareMonitorScale)
    } else if name == "hardware.font_family"@ {
        Some(ConfigKey::HardwareFontFamily)
    } else if name == "hardware.root_uuid"@ {
        Some(ConfigKey::HardwareRootUuid)
    } else if name == "hardware.wallpaper"@ {
        Some(ConfigKey::HardwareWallpaper)
    } else {
        None
    }
}

/// A decimal digit.
pub open spec fn is_digit(c: char) -> bool {
    '0' <= c && c <= '9'
}

/// The first position at or behind `from` that holds no decimal digit.
pub open spec fn digits_end(s: Seq<char>, from: int) -> int
    decreases s.len() - from,
{
    if 0 <= from < s.len() && is_digit(s[from]) {
        digits_end(s, from + 1)
    } else {
        from
    }
}

/// 1 where a sign stands at `at`, else 0.
pub open spec fn sign_len(s: Seq<char>, at: int) -> int {
    if 0 <= at < s.len() && (s[at] == '+' || s[at] == '-') {
        1
    } else {
        0
    }
}

/// From `from` to its end, `s` is a decimal number: digits with at most one
/// point among them, at least one digit before or behind the point, and
/// then possibly an exponent, which is `e` or `E`, an optional sign and at
/// least one digit.
pub open spec fn is_decimal(s: Seq<char>, from: int) -> bool {
    let int_end = digits_end(s, from);
    let has_point = int_end < s.len() && s[int_end] == '.';
    let frac_start = if has_point {
        int_end + 1
    } else {
        int_end
    };
    let frac_end = digits_end(s, frac_start);
    let exp_start = frac_end + 1 + sign_len(s, frac_end + 1);
    &&& (int_end - from) + (frac_end - frac_start) >= 1
    &&& frac_end == s.len() || {
        &&& s[frac_end] == 'e' || s[frac_end] == 'E'
        &&& exp_start < s.len()
        &&& digits_end(s, exp_start) == s.len()
    }
}

/// The letters of `inf`, `infinity` and `nan` in lower case; any other
/// character as it is.
pub open spec fn fold_letter(c: char) -> char {
    match c {
        'I' => 'i',
        'N' => 'n',
        'F' => 'f',
        'T' => 't',
        'Y' => 'y',
        'A' => 'a',
        _ => c,
    }
}

/// `s` is `word` but for the case of its letters; `word` is one of `inf`,
/// `infinity` and `nan`.
pub open spec fn is_word(s: Seq<char>, word: Seq<char>) -> bool {
    s.len() == word.len() && forall|i: int| 0 <= i < s.len() ==> fold_letter(#[trigger] s[i]) == word[i]
}

/// The text of a number: an optional sign, then `inf`, `infinity` or `nan`
/// in any case, or a decimal number. No space stands before or behind it.
pub open spec fn is_number(s: Seq<char>) -> bool {
    let from = sign_len(s, 0);
    let body = s.skip(from);
    is_word(body, seq!['i', 'n', 'f']) || is_word(body, seq!['i', 'n', 'f', 'i', 'n', 'i', 't', 'y'])
        || is_word(body, seq!['n', 'a', 'n']) || is_decimal(s, from)
}

/// Whether a field takes the value: the palette mode is `manual` or
/// `matugen`, the monitor scale is a number, and every other field holds any
/// text.
pub open spec fn value_allowed(k: ConfigKey, v: Seq<char>) -> bool {
    match k {
        ConfigKey::PaletteMode => v == "manual"@ || v == "matugen"@,
        ConfigKey::HardwareMonitorScale => is_number(v),
        _ => true,
    }
}

/// The configuration with one field replaced and everything else as it was.
pub open spec fn with_value(c: ConfigView, k: ConfigKey, v: Seq<char>) -> ConfigView {
    match k {
        ConfigKey::PaletteMode => ConfigView { palette: PaletteView { mode: v, ..c.palette }, ..c },
        ConfigKey::PaletteBgVoid => ConfigView {
            palette: PaletteView { bg_void: v, ..c.palette },
            ..c
        },
        ConfigKey::PaletteBgVoidTransparent => ConfigView {
            palette: PaletteView { bg_void_transparent: v, ..c.palette },
            ..c
        },
        ConfigKey::PaletteBgSurface => ConfigView {
            palette: PaletteView { bg_surface: v, ..c.palette },
            ..c
        },
        ConfigKey::PaletteBgOverlay => ConfigView {
            palette: PaletteView { bg_overlay: v, ..c.palette },
            ..c
        },
        ConfigKey::PaletteForeground => ConfigView {
            palette: PaletteView { foreground: v, ..c.palette },
            ..c
        },
        ConfigKey::PaletteForegroundDim => ConfigView {
            palette: PaletteView { foreground_dim: v, ..c.palette },
            ..c
        },
        ConfigKey::PaletteAccent => ConfigView {
            palette: PaletteView { accent: v, ..c.palette },
            ..c
        },
        ConfigKey::PaletteAccentBright => ConfigView {
            palette: PaletteView { accent_bright: v, ..c.palette },
            ..c
        },
        ConfigKey::HardwareMonitorScale => ConfigView {
            hardware: HardwareView { monitor_scale: v, ..c.hardware },
            ..c
        },
        ConfigKey::HardwareFontFamily => ConfigView {
            hardware: HardwareView { font_family: v, ..c.hardware },
            ..c
        },
        ConfigKey::HardwareRootUuid => ConfigView {
            hardware: HardwareView { root_uuid: v, ..c.hardware },
            ..c
        },
        ConfigKey::HardwareWallpaper => ConfigView {
            hardware: HardwareView { wallpaper: v, ..c.hardware },
            ..c
        },
    }
}

/// The dotted names of all keys, in the order of the schema.
pub open spec fn all_key_names() -> Seq<Seq<char>> {
    Seq::new(all_keys().len(), |i: int| key_name(all_keys()[i]))
}


/// The text that tells of an unknown key: the key, then every valid key on
/// a line of its own.
pub open spec fn unknown_key_text(key: Seq<char>, valid: Seq<Seq<char>>) -> Seq<char> {
    "Unknown configuration key: "@ + key + "\nValid keys:"@ + key_lines(valid)
}

/// Each name on a line of its own, indented by two spaces.
pub open spec fn key_lines(names: Seq<Seq<char>>) -> Seq<char>
    decreases names.len(),
{
    if names.len() == 0 {
        Seq::empty()
    } else {
        key_lines(names.drop_last()) + "\n  "@ + names.last()
    }
}

/// The text that tells of a value of the wrong kind.
pub open spec fn type_mismatch_text(k: ConfigKey) -> Seq<char> {
    match k {
        ConfigKey::PaletteMode => "palette.mode must be \"manual\" or \"matugen\""@,
        ConfigKey::HardwareMonitorScale => "monitor_scale must be a number"@,
        _ => key_name(k) + " holds text of any kind"@,
    }
}

/// Each key is found by its own name.
pub proof fn lemma_key_round_trip(k: ConfigKey)
    ensures
        key_of(key_name(k)) == Some(k),
{
    reveal_strlit("palette.mode");
    reveal_strlit("palette.bg_void");
    reveal_strlit("palette.bg_void_transparent");
    reveal_strlit("palette.bg_surface");
    reveal_strlit("palette.bg_overlay");
    reveal_strlit("palette.foreground");
    reveal_strlit("palette.foreground_dim");
    reveal_strlit("palette.accent");
    reveal_strlit("palette.accent_bright");
    reveal_strlit("hardware.monitor_scale");
    reveal_strlit("hardware.font_family");
    reveal_strlit("hardware.root_uuid");
    reveal_strlit("hardware.wallpaper");
    assert("palette.mode"@.len() == 12);
    assert("palette.bg_void"@.len() == 15);
    assert("palette.bg_void_transparent"@.len() == 27);
    assert("palette.bg_surface"@.len() == 18);
    assert("palette.bg_overlay"@.len() == 18);
    assert("palette.foreground"@.len() == 18);
    assert("palette.foreground_dim"@.len() == 22);
    assert("palette.accent"@.len() == 14);
    assert("palette.accent_bright"@.len() == 21);
    assert("hardware.monitor_scale"@.len() == 22);
    assert("hardware.font_family"@.len() == 20);
    assert("hardware.root_uuid"@.len() == 18);
    assert("hardware.wallpaper"@.len() == 18);
    assert("palette.bg_surface"@[11] == 's');
    assert("palette.bg_overlay"@[11] == 'o');
    assert("palette.foreground"@[8] == 'f');
    assert("hardware.root_uuid"@[0] == 'h');
    assert("hardware.wallpaper"@[9] == 'w');
    assert("hardware.root_uuid"@[9] == 'r');
    assert("palette.bg_surface"@[0] == 'p');
    assert("palette.bg_overlay"@[0] == 'p');
    assert("palette.bg_overlay"@[8] == 'b');
    assert("palette.bg_surface"@[8] == 'b');
    assert("palette.foreground"@[0] == 'p');
    assert("hardware.wallpaper"@[0] == 'h');
    assert("palette.foreground_dim"@[0] == 'p');
    assert("hardware.monitor_scale"@[0] == 'h');
}

/// A name finds a key exactly if it is the name of one of the keys of the
/// schema, and then it finds that key.
pub proof fn lemma_key_of_schema(name: Seq<char>)
    ensures
        key_of(name) matches Some(k) ==> key_name(k) == name,
        key_of(name) is Some <==> all_key_names().contains(name),
{
    let names = all_key_names();
    if key_of(name) is Some {
        let k = key_of(name).unwrap();
        let i = choose|i: int| 0 <= i < all_keys().len() && all_keys()[i] == k;
        assert(names[i] == name);
    }
    if names.contains(name) {
        let i = choose|i: int| 0 <= i < names.len() && names[i] == name;
        assert(names[i] == key_name(all_keys()[i]));
    }
}

impl ConfigKey {
    /// The key with this dotted name.
    pub fn parse(name: &str) -> (r: Option<ConfigKey>)
        ensures
            r == key_of(name@),
    {
        if same_text(name, "palette.mode") {
            Some(ConfigKey::PaletteMode)
        } else if same_text(name, "palette.bg_void") {
            Some(ConfigKey::PaletteBgVoid)
        } else if same_text(name, "palette.bg_void_transparent") {
            Some(ConfigKey::PaletteBgVoidTransparent)
        } else if same_text(name, "palette.bg_surface") {
            Some(ConfigKey::PaletteBgSurface)
        } else if same_text(name, "palette.bg_overlay") {
            Some(ConfigKey::PaletteBgOverlay)
        } else if same_text(name, "palette.foreground") {
            Some(ConfigKey::PaletteForeground)
        } else if same_text(name, "palette.foreground_dim") {
            Some(ConfigKey::PaletteForegroundDim)
        } else if same_text(name, "palette.accent") {
            Some(ConfigKey::PaletteAccent)
        } else if same_text(name, "palette.accent_bright") {
            Some(ConfigKey::PaletteAccentBright)
        } else if same_text(name, "hardware.monitor_scale") {
            Some(ConfigKey::HardwareMonitorScale)
        } else if same_text(name, "hardware.font_family") {
            Some(ConfigKey::HardwareFontFamily)
        } else if same_text(name, "hardware.root_uuid") {
            Some(ConfigKey::HardwareRootUuid)
        } else if same_text(name, "hardware.wallpaper") {
            Some(ConfigKey::HardwareWallpaper)
        } else {
            None
        }
    }

    /// The dotted name of the key.
    pub fn name(&self) -> (s: &'static str)
        ensures
            s@ == key_name(*self),
    {
        match self {
            ConfigKey::PaletteMode => "palette.mode",
            ConfigKey::PaletteBgVoid => "palette.bg_void",
            ConfigKey::PaletteBgVoidTransparent => "palette.bg_void_transparent",
            ConfigKey::PaletteBgSurface => "palette.bg_surface",
            ConfigKey::PaletteBgOverlay => "palette.bg_overlay",
            ConfigKey::PaletteForeground => "palette.foreground",
            ConfigKey::PaletteForegroundDim => "palette.foreground_dim",
            ConfigKey::PaletteAccent => "palette.accent",
            ConfigKey::PaletteAccentBright => "palette.accent_bright",
            ConfigKey::HardwareMonitorScale => "hardware.monitor_scale",
            ConfigKey::HardwareFontFamily => "hardware.font_family",
            ConfigKey::HardwareRootUuid => "hardware.root_uuid",
            ConfigKey::HardwareWallpaper => "hardware.wallpaper",
        }
    }

    /// Every key, in the order of the schema.
    pub fn all() -> (v: Vec<ConfigKey>)
        ensures
            v@ == all_keys(),
    {
        let mut v: Vec<ConfigKey> = Vec::new();
        v.push(ConfigKey::PaletteMode);
        v.push(ConfigKey::PaletteBgVoid);
        v.push(ConfigKey::PaletteBgVoidTransparent);
        v.push(ConfigKey::PaletteBgSurface);
        v.push(ConfigKey::PaletteBgOverlay);
        v.push(ConfigKey::PaletteForeground);
        v.push(ConfigKey::PaletteForegroundDim);
        v.push(ConfigKey::PaletteAccent);
        v.push(ConfigKey::PaletteAccentBright);
        v.push(ConfigKey::HardwareMonitorScale);
        v.push(ConfigKey::HardwareFontFamily);
        v.push(ConfigKey::HardwareRootUuid);
        v.push(ConfigKey::HardwareWallpaper);
        assert(v@ =~= all_keys());
        v
    }
}

/// The dotted names of all keys, in the order of the schema.
pub fn valid_keys() -> (v: Vec<String>)
    ensures
        texts(v@) == all_key_names(),
{
    let keys = ConfigKey::all();
    let mut v: Vec<String> = Vec::new();
    let mut i: usize = 0;
    while i < keys.len()
        invariant
            i <= keys.len(),
            keys@ == all_keys(),
            v.len() == i,
            forall|j: int| 0 <= j < i ==> (#[trigger] v@[j])@ == key_name(keys@[j]),
        decreases keys.len() - i,
    {
        v.push(keys[i].name().to_owned());
        i += 1;
    }
    assert(texts(v@) =~= all_key_names());
    v
}

fn digit(c: char) -> (r: bool)
    ensures
        r == is_digit(c),
{
    '0' <= c && c <= '9'
}

fn skip_digits(s: &Vec<char>, from: usize) -> (end: usize)
    requires
        from <= s.len(),
    ensures
        end == digits_end(s@, from as int),
        from <= end <= s.len(),
{
    let mut i: usize = from;
    while i < s.len() && digit(s[i])
        invariant
            from <= i <= s.len(),
            digits_end(s@, from as int) == digits_end(s@, i as int),
        decreases s.len() - i,
    {
        i += 1;
    }
    i
}

fn sign_at(s: &Vec<char>, at: usize) -> (n: usize)
    ensures
        n == sign_len(s@, at as int),
{
    if at < s.len() && (s[at] == '+' || s[at] == '-') {
        1
    } else {
        0
    }
}

fn fold(c: char) -> (r: char)
    ensures
        r == fold_letter(c),
{
    match c {
        'I' => 'i',
        'N' => 'n',
        'F' => 'f',
        'T' => 't',
        'Y' => 'y',
        'A' => 'a',
        _ => c,
    }
}

fn word_at(s: &Vec<char>, from: usize, word: &str) -> (r: bool)
    requires
        from <= s.len(),
    ensures
        r == is_word(s@.skip(from as int), word@),
{
    let w = chars_of(word);
    let ghost body = s@.skip(from as int);
    if s.len() - from != w.len() {
        return false;
    }
    let mut i: usize = 0;
    while i < w.len()
        invariant
            i <= w.len(),
            from + w.len() == s.len(),
            body == s@.skip(from as int),
            w@ == word@,
            forall|j: int| 0 <= j < i ==> fold_letter(#[trigger] body[j]) == w@[j],
        decreases w.len() - i,
    {
        if fold(s[from + i]) != w[i] {
            assert(fold_letter(body[i as int]) != word@[i as int]);
            return false;
        }
        i += 1;
    }
    true
}

fn decimal_at(s: &Vec<char>, from: usize) -> (r: bool)
    requires
        from <= s.len(),
    ensures
        r == is_decimal(s@, from as int),
{
    let int_end = skip_digits(s, from);
    let has_point = int_end < s.len() && s[int_end] == '.';
    let frac_start: usize = if has_point {
        int_end + 1
    } else {
        int_end
    };
    let frac_end = skip_digits(s, frac_start);
    if (int_end - from) + (frac_end - frac_start) < 1 {
        return false;
    }
    if frac_end == s.len() {
        return true;
    }
    if s[frac_end] != 'e' && s[frac_end] != 'E' {
        return false;
    }
    let exp_start: usize = frac_end + 1 + sign_at(s, frac_end + 1);
    if exp_start >= s.len() {
        return false;
    }
    skip_digits(s, exp_start) == s.len()
}

/// Whether the text is that of a number.
pub fn is_number_text(value: &str) -> (r: bool)
    ensures
        r == is_number(value@),
{
    let s = chars_of(value);
    let from = sign_at(&s, 0);
    proof {
        reveal_strlit("inf");
        reveal_strlit("infinity");
        reveal_strlit("nan");
        assert("inf"@ =~= seq!['i', 'n', 'f']);
        assert("infinity"@ =~= seq!['i', 'n', 'f', 'i', 'n', 'i', 't', 'y']);
        assert("nan"@ =~= seq!['n', 'a', 'n']);
    }
    word_at(&s, from, "inf") || word_at(&s, from, "infinity") || word_at(&s, from, "nan")
        || decimal_at(&s, from)
}

fn value_fits(k: ConfigKey, value: &str) -> (r: bool)
    ensures
        r == value_allowed(k, value@),
{
    match k {
        ConfigKey::PaletteMode => same_text(value, "manual") || same_text(value, "matugen"),
        ConfigKey::HardwareMonitorScale => is_number_text(value),
        _ => true,
    }
}

impl SlateConfig {
    /// The path of the wallpaper with a leading `~` replaced by the home
    /// directory, where one is given.
    pub fn expanded_wallpaper(&self, home: Option<&str>) -> (r: String)
        ensures
            r@ == crate::path::tilde_expanded(
                self.hardware.wallpaper@,
                match home {
                    Some(h) => Some(h@),
                    None => None,
                },
            ),
    {
        crate::path::expand_tilde(self.hardware.wallpaper.as_str(), home)
    }

    /// The monitor scale is the text of a number.
    pub open spec fn wf(&self) -> bool {
        is_number(self.hardware.monitor_scale@)
    }

    /// Whether the monitor scale is the text of a number.
    pub fn is_valid(&self) -> (r: bool)
        ensures
            r == self.wf(),
    {
        is_number_text(self.hardware.monitor_scale.as_str())
    }
}

/// Sets the field that `key` names to `value`. A key outside the schema is
/// `UnknownKey`, a value that the field does not take is `TypeMismatch`;
/// either way the configuration stays exactly as it was.
pub fn set(config: &mut SlateConfig, key: &str, value: &str) -> (r: Result<(), ConfigError>)
    ensures
        match key_of(key@) {
            None => {
                &&& r matches Err(ConfigError::UnknownKey { key: named, valid_keys })
                &&& named@ == key@
                &&& texts(valid_keys@) == all_key_names()
                &&& *final(config) == *old(config)
            },
            Some(k) => if value_allowed(k, value@) {
                r is Ok && final(config)@ == with_value(old(config)@, k, value@)
            } else {
                r == Err::<(), ConfigError>(ConfigError::TypeMismatch { field: k }) && *final(config)
                    == *old(config)
            },
        },
        old(config).wf() ==> final(config).wf(),
{
    match ConfigKey::parse(key) {
        None => Err(ConfigError::UnknownKey { key: key.to_owned(), valid_keys: valid_keys() }),
        Some(k) => {
            if !value_fits(k, value) {
                return Err(ConfigError::TypeMismatch { field: k });
            }
            let v = value.to_owned();
            match k {
                ConfigKey::PaletteMode => {
                    config.palette.mode = v;
                },
                ConfigKey::PaletteBgVoid => {
                    config.palette.bg_void = v;
                },
                ConfigKey::PaletteBgVoidTransparent => {
                    config.palette.bg_void_transparent = v;
                },
                ConfigKey::PaletteBgSurface => {
                    config.palette.bg_surface = v;
                },
                ConfigKey::PaletteBgOverlay => {
                    config.palette.bg_overlay = v;
                },
                ConfigKey::PaletteForeground => {
                    config.palette.foreground = v;
                },
                ConfigKey::PaletteForegroundDim => {
                    config.palette.foreground_dim = v;
                },
                ConfigKey::PaletteAccent => {
                    config.palette.accent = v;
                },
                ConfigKey::PaletteAccentBright => {
                    config.palette.accent_bright = v;
                },
                ConfigKey::HardwareMonitorScale => {
                    config.hardware.monitor_scale = v;
                },
                ConfigKey::HardwareFontFamily => {
                    config.hardware.font_family = v;
                },
                ConfigKey::HardwareRootUuid => {
                    config.hardware.root_uuid = v;
                },
                ConfigKey::HardwareWallpaper => {
                    config.hardware.wallpaper = v;
                },
            }
            Ok(())
        },
    }
}

impl ConfigError {
    /// The error in words. An unknown key is followed by the list of the
    /// keys that exist.
    pub fn message(&self) -> (s: String)
        ensures
            s@ == match *self {
                ConfigError::NotFound => "Configuration file not found"@,
                ConfigError::ParseError => "Configuration file is malformed"@,
                ConfigError::UnknownKey { key, valid_keys } => unknown_key_text(
                    key@,
                    texts(valid_keys@),
                ),
                ConfigError::TypeMismatch { field } => type_mismatch_text(field),
            },
    {
        let mut out: Vec<char> = Vec::new();
        match self {
            ConfigError::NotFound => {
                push_text(&mut out, "Configuration file not found");
            },
            ConfigError::ParseError => {
                push_text(&mut out, "Configuration file is malformed");
            },
            ConfigError::UnknownKey { key, valid_keys } => {
                push_text(&mut out, "Unknown configuration key: ");
                push_text(&mut out, key.as_str());
                push_text(&mut out, "\nValid keys:");
                let ghost head = out@;
                let ghost names = texts(valid_keys@);
                let mut i: usize = 0;
                while i < valid_keys.len()
                    invariant
                        i <= valid_keys.len(),
                        names == texts(valid_keys@),
                        out@ == head + key_lines(names.take(i as int)),
                    decreases valid_keys.len() - i,
                {
                    push_text(&mut out, "\n  ");
                    push_text(&mut out, valid_keys[i].as_str());
                    proof {
                        let now = names.take(i + 1);
                        assert(now.drop_last() == names.take(i as int));
                        assert(now.last() == valid_keys@[i as int]@);
                    }
                    i += 1;
                }
                assert(names.take(valid_keys@.len() as int) == names);
            },
            ConfigError::TypeMismatch { field } => {
                match field {
                    ConfigKey::PaletteMode => {
                        push_text(&mut out, "palette.mode must be \"manual\" or \"matugen\"");
                    },
                    ConfigKey::HardwareMonitorScale => {
                        push_text(&mut out, "monitor_scale must be a number");
                    },
                    _ => {
                        push_text(&mut out, field.name());
                        push_text(&mut out, " holds text of any kind");
                    },
                }
            },
        }
        text_of(&out)
    }
}

} // verus!
