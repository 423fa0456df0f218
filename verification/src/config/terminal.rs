//! How terminals look and behave.

use vstd::prelude::*;

use super::themes::Theme;
use super::{IvyColor, IvyFont};

verus! {

/// When to display mosh-style predictive local echo in Tmux terminals
#[derive(Clone, Copy, Debug, PartialEq, Eq, Structural)]
pub enum PredictiveEchoMode {
    /// Never predict
    Off,
    /// Predict when the measured transport RTT is high
    Auto,
    /// Always predict
    Always,
}

impl Default for PredictiveEchoMode {
    fn default() -> (mode: PredictiveEchoMode)
        ensures
            mode == PredictiveEchoMode::Auto,
    {
        PredictiveEchoMode::Auto
    }
}

/// How terminals look and behave, with fonts of type `F` and colors of type
/// `C`.
#[derive(Debug)]
pub struct TerminalConfig<F, C> {
    pub font: F,
    pub scrollback_lines: u32,
    /// Name of a built-in color scheme. When set to a known theme it fully
    /// determines the terminal colors; the individual color fields below are
    /// used only otherwise.
    pub theme: Option<String>,
    pub foreground: C,
    pub background: C,
    pub standard_colors: [C; 8],
    pub bright_colors: [C; 8],
    /// Optional cursor / selection colors. Themes provide these; for a custom
    /// (no-theme) scheme they are only applied when explicitly configured.
    pub cursor: Option<C>,
    pub cursor_foreground: Option<C>,
    pub selection: Option<C>,
    pub selection_foreground: Option<C>,
    pub split_handle_color: C,
    pub terminal_bell: bool,
    pub predictive_echo: PredictiveEchoMode,
}

impl<F, C: Clone> TerminalConfig<F, C> {
    /// The background color actually shown in terminals, honoring a named
    /// theme; `named` is the built-in theme of the name in `theme`, if there
    /// is one. Used for the window/separator CSS so the gaps between split
    /// panes match the real terminal background.
    pub fn effective_background(&self, named: Option<&Theme<C>>) -> (color: C)
        ensures
            self.theme is Some && named is Some ==> cloned(named->Some_0.background, color),
            self.theme is None || named is None ==> cloned(self.background, color),
    {
        if self.theme.is_some() {
            if let Some(theme) = named {
                return theme.background.clone();
            }
        }
        self.background.clone()
    }
}

impl Default for TerminalConfig<IvyFont, IvyColor> {
    fn default() -> (config: TerminalConfig<IvyFont, IvyColor>)
        ensures
            config.font.description@ == "Monospace 12"@,
            config.scrollback_lines == 500,
            config.theme is None,
            config.foreground == rgb(0xff, 0xff, 0xff),
            config.background == rgb(0, 0, 0),
            config.standard_colors@ == standard_palette(),
            config.bright_colors@ == bright_palette(),
            config.cursor is None,
            config.cursor_foreground is None,
            config.selection is None,
            config.selection_foreground is None,
            config.split_handle_color == rgb(0xff, 0xff, 0xff),
            !config.terminal_bell,
            config.predictive_echo == PredictiveEchoMode::Auto,
    {
        TerminalConfig {
            font: default_font(),
            scrollback_lines: default_scrollback_lines(),
            theme: None,
            foreground: default_foreground(),
            background: default_background(),
            standard_colors: default_standard_colors(),
            bright_colors: default_bright_colors(),
            cursor: None,
            cursor_foreground: None,
            selection: None,
            selection_foreground: None,
            split_handle_color: default_split_handle_color(),
            terminal_bell: false,
            predictive_echo: PredictiveEchoMode::Auto,
        }
    }
}

// ---------------------------------------------------------------------------
// Color schemes
// ---------------------------------------------------------------------------

/// The fully-resolved set of colors of a terminal. Resolution happens in
/// `ColorScheme::new`: a named theme wins when present and valid, otherwise
/// the individually-configured colors are used.
#[derive(Debug)]
pub struct ColorScheme<C> {
    pub foreground: C,
    pub background: C,
    /// The 8 normal colors, then the 8 bright ones
    pub palette: Vec<C>,
    pub cursor: Option<C>,
    pub cursor_foreground: Option<C>,
    pub selection: Option<C>,
    pub selection_foreground: Option<C>,
}

/// Whether `b` is a copy of the optional color `a`.
pub open spec fn same_option<C: Clone>(a: Option<C>, b: Option<C>) -> bool {
    match (a, b) {
        (Some(x), Some(y)) => cloned(x, y),
        (None, None) => true,
        _ => false,
    }
}

/// Whether the palette holds copies of the normal colors, then of the bright
/// ones.
pub open spec fn is_palette<C: Clone>(normal: Seq<C>, bright: Seq<C>, palette: Seq<C>) -> bool {
    &&& palette.len() == normal.len() + bright.len()
    &&& forall|i: int| 0 <= i < normal.len() ==> cloned(normal[i], #[trigger] palette[i])
    &&& forall|i: int|
        normal.len() <= i < palette.len() ==> cloned(
            bright[i - normal.len()],
            #[trigger] palette[i],
        )
}

/// Whether the scheme is made of the colors of a theme.
pub open spec fn from_theme<C: Clone>(theme: Theme<C>, scheme: ColorScheme<C>) -> bool {
    &&& cloned(theme.foreground, scheme.foreground)
    &&& cloned(theme.background, scheme.background)
    &&& is_palette(theme.normal@, theme.bright@, scheme.palette@)
    &&& same_option(theme.cursor, scheme.cursor)
    &&& same_option(theme.cursor_foreground, scheme.cursor_foreground)
    &&& same_option(theme.selection, scheme.selection)
    &&& same_option(theme.selection_foreground, scheme.selection_foreground)
}

/// Whether the scheme is made of the colors of a configuration.
pub open spec fn from_config<F, C: Clone>(
    config: TerminalConfig<F, C>,
    scheme: ColorScheme<C>,
) -> bool {
    &&& cloned(config.foreground, scheme.foreground)
    &&& cloned(config.background, scheme.background)
    &&& is_palette(config.standard_colors@, config.bright_colors@, scheme.palette@)
    &&& same_option(config.cursor, scheme.cursor)
    &&& same_option(config.cursor_foreground, scheme.cursor_foreground)
    &&& same_option(config.selection, scheme.selection)
    &&& same_option(config.selection_foreground, scheme.selection_foreground)
}

fn copy_option<C: Clone>(color: &Option<C>) -> (r: Option<C>)
    ensures
        same_option(*color, r),
{
    match color {
        Some(color) => Some(color.clone()),
        None => None,
    }
}

/// The normal colors, then the bright ones.
fn palette_from<C: Clone>(normal: &[C; 8], bright: &[C; 8]) -> (palette: Vec<C>)
    ensures
        is_palette(normal@, bright@, palette@),
        palette@.len() == 16,
{
    let mut palette: Vec<C> = Vec::new();
    let mut i: usize = 0;
    while i < 8
        invariant
            i <= 8,
            normal@.len() == 8,
            palette@.len() == i,
            forall|j: int| 0 <= j < i ==> cloned(normal@[j], #[trigger] palette@[j]),
        decreases 8 - i,
    {
        palette.push(normal[i].clone());
        i += 1;
    }
    let mut k: usize = 0;
    while k < 8
        invariant
            k <= 8,
            normal@.len() == 8,
            bright@.len() == 8,
            palette@.len() == 8 + k,
            forall|j: int| 0 <= j < 8 ==> cloned(normal@[j], #[trigger] palette@[j]),
            forall|j: int| 8 <= j < 8 + k ==> cloned(bright@[j - 8], #[trigger] palette@[j]),
        decreases 8 - k,
    {
        palette.push(bright[k].clone());
        k += 1;
    }
    palette
}

impl<C: Clone> ColorScheme<C> {
    /// The colors of a terminal; `named` is the built-in theme of the name in
    /// the configuration, if there is one.
    pub fn new<F>(config: &TerminalConfig<F, C>, named: Option<&Theme<C>>) -> (scheme: ColorScheme<
        C,
    >)
        ensures
            config.theme is Some && named is Some ==> from_theme(*named->Some_0, scheme),
            config.theme is None || named is None ==> from_config(*config, scheme),
            scheme.palette@.len() == 16,
    {
        if config.theme.is_some() {
            if let Some(theme) = named {
                return ColorScheme {
                    foreground: theme.foreground.clone(),
                    background: theme.background.clone(),
                    palette: palette_from(&theme.normal, &theme.bright),
                    cursor: copy_option(&theme.cursor),
                    cursor_foreground: copy_option(&theme.cursor_foreground),
                    selection: copy_option(&theme.selection),
                    selection_foreground: copy_option(&theme.selection_foreground),
                };
            }
        }
        ColorScheme {
            foreground: config.foreground.clone(),
            background: config.background.clone(),
            palette: palette_from(&config.standard_colors, &config.bright_colors),
            cursor: copy_option(&config.cursor),
            cursor_foreground: copy_option(&config.cursor_foreground),
            selection: copy_option(&config.selection),
            selection_foreground: copy_option(&config.selection_foreground),
        }
    }
}

/// The gaps between panes have the color of the terminals: the background of
/// the scheme and the effective background of the configuration are copies of
/// the same color.
pub proof fn law_backgrounds_agree<F, C: Clone>(
    config: TerminalConfig<F, C>,
    named: Option<Theme<C>>,
    scheme: ColorScheme<C>,
)
    requires
        config.theme is Some && named is Some ==> from_theme(named->Some_0, scheme),
        config.theme is None || named is None ==> from_config(config, scheme),
    ensures
        config.theme is Some && named is Some ==> cloned(
            named->Some_0.background,
            scheme.background,
        ),
        config.theme is None || named is None ==> cloned(config.background, scheme.background),
{
}

// ---------------------------------------------------------------------------
// Defaults
// ---------------------------------------------------------------------------

/// The color with the given channels.
pub open spec fn rgb(red: i32, green: i32, blue: i32) -> IvyColor {
    IvyColor { red, green, blue }
}

fn color(red: i32, green: i32, blue: i32) -> (r: IvyColor)
    ensures
        r == rgb(red, green, blue),
{
    IvyColor { red, green, blue }
}

pub fn default_font() -> (font: IvyFont)
    ensures
        font.description@ == "Monospace 12"@,
{
    IvyFont::new("Monospace 12")
}

pub fn default_scrollback_lines() -> (n: u32)
    ensures
        n == 500,
{
    500
}

pub fn default_foreground() -> (r: IvyColor)
    ensures
        r == rgb(0xff, 0xff, 0xff),
{
    color(0xff, 0xff, 0xff)
}

pub fn default_background() -> (r: IvyColor)
    ensures
        r == rgb(0, 0, 0),
{
    color(0, 0, 0)
}

pub fn default_split_handle_color() -> (r: IvyColor)
    ensures
        r == rgb(0xff, 0xff, 0xff),
{
    color(0xff, 0xff, 0xff)
}

/// The normal colors of the default scheme.
pub open spec fn standard_palette() -> Seq<IvyColor> {
    seq![
        rgb(0x2e, 0x34, 0x36),
        rgb(0xcc, 0x00, 0x00),
        rgb(0x4e, 0x9a, 0x06),
        rgb(0xc4, 0xa0, 0x00),
        rgb(0x34, 0x65, 0xa4),
        rgb(0x75, 0x50, 0x7b),
        rgb(0x06, 0x98, 0x9a),
        rgb(0xd3, 0xd7, 0xcf),
    ]
}

/// The bright colors of the default scheme.
pub open spec fn bright_palette() -> Seq<IvyColor> {
    seq![
        rgb(0x55, 0x57, 0x53),
        rgb(0xef, 0x29, 0x29),
        rgb(0x8a, 0xe2, 0x34),
        rgb(0xfc, 0xe9, 0x4f),
        rgb(0x72, 0x9f, 0xcf),
        rgb(0xad, 0x7f, 0xa8),
        rgb(0x34, 0xe2, 0xe2),
        rgb(0xee, 0xee, 0xec),
    ]
}

pub fn default_standard_colors() -> (colors: [IvyColor; 8])
    ensures
        colors@ == standard_palette(),
{
    let colors = [
        color(0x2e, 0x34, 0x36),
        color(0xcc, 0x00, 0x00),
        color(0x4e, 0x9a, 0x06),
        color(0xc4, 0xa0, 0x00),
        color(0x34, 0x65, 0xa4),
        color(0x75, 0x50, 0x7b),
        color(0x06, 0x98, 0x9a),
        color(0xd3, 0xd7, 0xcf),
    ];
    assert(colors@ =~= standard_palette());
    colors
}

pub fn default_bright_colors() -> (colors: [IvyColor; 8])
    ensures
        colors@ == bright_palette(),
{
    let colors = [
        color(0x55, 0x57, 0x53),
        color(0xef, 0x29, 0x29),
        color(0x8a, 0xe2, 0x34),
        color(0xfc, 0xe9, 0x4f),
        color(0x72, 0x9f, 0xcf),
        color(0xad, 0x7f, 0xa8),
        color(0x34, 0xe2, 0xe2),
        color(0xee, 0xee, 0xec),
    ];
    assert(colors@ =~= bright_palette());
    colors
}

/// A theme that is named and known decides every color, and otherwise the
/// configured ones do: normal colors first, then the bright ones, none left
/// out.
pub proof fn law_schemes_take_every_color<F, C: Clone>(
    config: TerminalConfig<F, C>,
    theme: Theme<C>,
    scheme: ColorScheme<C>,
    i: int,
)
    requires
        0 <= i < 8,
    ensures
        from_theme(theme, scheme) ==> {
            &&& scheme.palette@.len() == 16
            &&& cloned(theme.normal@[i], scheme.palette@[i])
            &&& cloned(theme.bright@[i], scheme.palette@[8 + i])
            &&& cloned(theme.foreground, scheme.foreground)
            &&& cloned(theme.background, scheme.background)
            &&& theme.cursor is Some == scheme.cursor is Some
            &&& theme.cursor is Some ==> cloned(theme.cursor->Some_0, scheme.cursor->Some_0)
            &&& theme.cursor_foreground is Some == scheme.cursor_foreground is Some
            &&& theme.cursor_foreground is Some ==> cloned(
                theme.cursor_foreground->Some_0,
                scheme.cursor_foreground->Some_0,
            )
            &&& theme.selection is Some == scheme.selection is Some
            &&& theme.selection is Some ==> cloned(
                theme.selection->Some_0,
                scheme.selection->Some_0,
            )
            &&& theme.selection_foreground is Some == scheme.selection_foreground is Some
            &&& theme.selection_foreground is Some ==> cloned(
                theme.selection_foreground->Some_0,
                scheme.selection_foreground->Some_0,
            )
        },
        from_config(config, scheme) ==> {
            &&& scheme.palette@.len() == 16
            &&& cloned(config.standard_colors@[i], scheme.palette@[i])
            &&& cloned(config.bright_colors@[i], scheme.palette@[8 + i])
            &&& cloned(config.foreground, scheme.foreground)
            &&& cloned(config.background, scheme.background)
            &&& config.cursor is Some == scheme.cursor is Some
            &&& config.cursor is Some ==> cloned(config.cursor->Some_0, scheme.cursor->Some_0)
            &&& config.cursor_foreground is Some == scheme.cursor_foreground is Some
            &&& config.cursor_foreground is Some ==> cloned(
                config.cursor_foreground->Some_0,
                scheme.cursor_foreground->Some_0,
            )
            &&& config.selection is Some == scheme.selection is Some
            &&& config.selection is Some ==> cloned(
                config.selection->Some_0,
                scheme.selection->Some_0,
            )
            &&& config.selection_foreground is Some == scheme.selection_foreground is Some
            &&& config.selection_foreground is Some ==> cloned(
                config.selection_foreground->Some_0,
                scheme.selection_foreground->Some_0,
            )
        },
{
}

/// A color as one number, as it is usually written in base sixteen.
pub open spec fn color_number(color: IvyColor) -> int {
    color.red * 65536 + color.green * 256 + color.blue
}

/// The default palette is the one that terminals are known by.
pub proof fn law_default_palette()
    ensures
        standard_palette().len() == 8,
        bright_palette().len() == 8,
        color_number(standard_palette()[0]) == 0x2e3436,
        color_number(standard_palette()[1]) == 0xcc0000,
        color_number(standard_palette()[2]) == 0x4e9a06,
        color_number(standard_palette()[3]) == 0xc4a000,
        color_number(standard_palette()[4]) == 0x3465a4,
        color_number(standard_palette()[5]) == 0x75507b,
        color_number(standard_palette()[6]) == 0x06989a,
        color_number(standard_palette()[7]) == 0xd3d7cf,
        color_number(bright_palette()[0]) == 0x555753,
        color_number(bright_palette()[1]) == 0xef2929,
        color_number(bright_palette()[2]) == 0x8ae234,
        color_number(bright_palette()[3]) == 0xfce94f,
        color_number(bright_palette()[4]) == 0x729fcf,
        color_number(bright_palette()[5]) == 0xad7fa8,
        color_number(bright_palette()[6]) == 0x34e2e2,
        color_number(bright_palette()[7]) == 0xeeeeec,
{
}

} // verus!
