//! Configuration, settings, icons, arguments and shared helpers.

use ivyterm::application::parse_css;
use ivyterm::args::{launch, parse_args, wants_help, Launch};
use ivyterm::config::terminal::{
    default_scrollback_lines, ColorScheme, PredictiveEchoMode, TerminalConfig,
};
use ivyterm::config::themes::{theme_file, theme_names, Theme};
use ivyterm::config::{plan_config, ConfigFound, ConfigPlan, IvyColor, IvyFont};
use ivyterm::helpers::{open_editor, opens_link, split_command, IvyError, SortedVec};
use ivyterm::icon::{
    badge_svg, check_logo, compose_badge, default_badge_color, escape_xml, logo_inner,
    recolor_terminal_bg, rgba_to_hex, trim_badge_text, wants_badge,
};
use ivyterm::normal_widgets::{
    closes_without_pages, environment, shell_command, tab_title, unparents_closing_page,
    IvyNormalWindow,
};
use ivyterm::settings::{
    color_label, mode_at, scrollback_hint, scrollback_lines, selected_mode, selected_theme,
    theme_at, theme_labels,
};

fn strings(texts: &[&str]) -> Vec<String> {
    texts.iter().map(|text| text.to_string()).collect()
}

// ---------------------------------------------------------------------------
// Configuration
// ---------------------------------------------------------------------------

#[test]
fn builtin_config_is_valid() {
    let config = TerminalConfig::<IvyFont, IvyColor>::default();
    assert_eq!(config.scrollback_lines, 500);
    assert_eq!(default_scrollback_lines(), 500);
    assert_eq!(config.font.description, "Monospace 12");
    assert_eq!(config.foreground.to_hex(), "#FFFFFF");
    assert_eq!(config.background.to_hex(), "#000000");
    assert_eq!(config.standard_colors[3].to_hex(), "#C4A000");
    assert_eq!(config.bright_colors[7].to_hex(), "#EEEEEC");
    assert_eq!(config.predictive_echo, PredictiveEchoMode::Auto);
    assert!(config.theme.is_none());
    assert!(!config.terminal_bell);
}

#[test]
fn broken_config_files_are_left_untouched() {
    let plan = |use_loaded, keep_path, write_now| ConfigPlan { use_loaded, keep_path, write_now };
    assert_eq!(plan_config(ConfigFound::NoHome), plan(false, false, false));
    assert_eq!(plan_config(ConfigFound::Loaded), plan(true, true, true));
    assert_eq!(plan_config(ConfigFound::Broken), plan(false, true, false));
    assert_eq!(plan_config(ConfigFound::NoFile), plan(false, true, true));
    assert_eq!(plan_config(ConfigFound::NoDirectory), plan(false, false, false));
}

#[test]
fn colors_are_written_in_hex() {
    assert_eq!(IvyColor { red: 1, green: 171, blue: 255 }.to_hex(), "#01ABFF");
    assert_eq!(IvyColor { red: 300, green: -1, blue: 0 }.to_hex(), "#12CFFFFFFFF00");
}

fn theme(background: u8) -> Theme<u8> {
    Theme {
        foreground: 1,
        background,
        cursor: Some(3),
        cursor_foreground: None,
        selection: Some(5),
        selection_foreground: None,
        normal: [10, 11, 12, 13, 14, 15, 16, 17],
        bright: [20, 21, 22, 23, 24, 25, 26, 27],
    }
}

fn config(theme: Option<&str>) -> TerminalConfig<(), u8> {
    TerminalConfig {
        font: (),
        scrollback_lines: 1,
        theme: theme.map(|name| name.to_string()),
        foreground: 101,
        background: 102,
        standard_colors: [110; 8],
        bright_colors: [120; 8],
        cursor: None,
        cursor_foreground: Some(104),
        selection: None,
        selection_foreground: None,
        split_handle_color: 0,
        terminal_bell: false,
        predictive_echo: PredictiveEchoMode::Off,
    }
}

#[test]
fn known_themes_win_over_configured_colors() {
    let named = theme(2);
    let scheme = ColorScheme::new(&config(Some("dracula")), Some(&named));
    assert_eq!((scheme.foreground, scheme.background), (1, 2));
    assert_eq!(
        scheme.palette,
        vec![10, 11, 12, 13, 14, 15, 16, 17, 20, 21, 22, 23, 24, 25, 26, 27]
    );
    assert_eq!((scheme.cursor, scheme.selection), (Some(3), Some(5)));
    assert_eq!(config(Some("dracula")).effective_background(Some(&named)), 2);

    for (config, named) in [(config(Some("unknown")), None), (config(None), Some(&named))] {
        let scheme = ColorScheme::new(&config, named);
        assert_eq!((scheme.foreground, scheme.background), (101, 102));
        assert_eq!(scheme.palette[7], 110);
        assert_eq!(scheme.palette[8], 120);
        assert_eq!(scheme.cursor_foreground, Some(104));
        assert_eq!(config.effective_background(named), 102);
    }
}

#[test]
fn theme_names_are_sorted_stems() {
    let files = strings(&["nord.toml", "Dracula.toml", "a.b.toml", "ayu.toml", ".hidden", "plain"]);
    assert_eq!(
        theme_names(&files),
        strings(&[".hidden", "Dracula", "a.b", "ayu", "nord", "plain"])
    );
    assert!(theme_names(&strings(&["..", ".", ""])).is_empty());
    assert_eq!(theme_file("nord"), "nord.toml");
}

#[test]
fn style_takes_the_configured_colors() {
    assert_eq!(
        parse_css("a{#f0f0f0} b{#000000} c{#420a42} d{#000000}", "#111111", "#222222", "#333333"),
        "a{#111111} b{#222222} c{#333333} d{#222222}"
    );
    // The replacements are made one after the other
    assert_eq!(parse_css("#f0f0f0", "#000000", "#420a42", "#333333"), "#333333");
}

// ---------------------------------------------------------------------------
// Settings
// ---------------------------------------------------------------------------

#[test]
fn theme_list_opens_on_the_configured_theme() {
    let names = strings(&["ayu", "nord"]);
    assert_eq!(theme_labels(&names), strings(&["Custom", "ayu", "nord"]));
    assert_eq!(selected_theme(&names, None), 0);
    assert_eq!(selected_theme(&names, Some("nord")), 2);
    assert_eq!(selected_theme(&names, Some("unknown")), 0);
    assert_eq!(theme_at(&names, 0), None);
    assert_eq!(theme_at(&names, 2).as_deref(), Some("nord"));
    assert_eq!(theme_at(&names, 3), None);
}

#[test]
fn mode_list_opens_on_the_configured_mode() {
    for mode in [
        PredictiveEchoMode::Off,
        PredictiveEchoMode::Auto,
        PredictiveEchoMode::Always,
    ] {
        assert_eq!(mode_at(selected_mode(mode)), mode);
    }
    assert_eq!(mode_at(7), PredictiveEchoMode::Auto);
    assert_eq!(PredictiveEchoMode::default(), PredictiveEchoMode::Auto);
}

#[test]
fn scrollback_takes_what_parses_as_a_number() {
    for text in ["500", "+7", "0", "007", "4294967295", "", "+", "-1", "1e3", " 5", "4294967296", "99999999999x"] {
        assert_eq!(scrollback_lines(text), text.parse::<u32>().ok(), "{}", text);
    }
    assert_eq!(scrollback_hint(500), "500");
    assert_eq!(color_label(false, 0), "Standard color 0");
    assert_eq!(color_label(true, 7), "Bright color 7");
}

// ---------------------------------------------------------------------------
// Icons
// ---------------------------------------------------------------------------

const LOGO: &str = "<?xml version=\"1.0\"?><svg width=\"4096\"><g><path style=\"fill:#1a1a1a\"/><path style=\"fill:#ffffff\"/><path style=\"fill:#5e9445;stroke:#cbe3ac\"/></g></svg>\n";

#[test]
fn text_is_trimmed_to_three_chars() {
    assert_eq!(trim_badge_text("ML1"), "ML1");
    assert_eq!(trim_badge_text("LONGER"), "LON");
    assert_eq!(trim_badge_text(""), "");
}

#[test]
fn hex_conversion_rounds_channels() {
    assert_eq!(rgba_to_hex(255, 0, 0), "#ff0000");
    assert_eq!(rgba_to_hex(0, 0, 0), "#000000");
    assert_eq!(rgba_to_hex(255, 255, 255), "#ffffff");
}

#[test]
fn svg_escapes_text_and_is_well_formed() {
    let svg = badge_svg(LOGO, "#cc3333", "#ffffff", "a<b");
    assert!(svg.contains("a&lt;b"));
    assert!(!svg.contains("a<b"));
    assert!(svg.contains("<svg"));
    assert!(svg.contains("fill=\"#ffffff\""));
}

#[test]
fn only_terminal_background_is_recolored() {
    let svg = badge_svg(LOGO, "#cc3333", "#ffffff", "ML1");
    // The logo is embedded
    assert!(svg.contains("<path"));
    // The terminal background is recolored...
    assert!(svg.contains("fill:#cc3333"));
    assert!(!svg.contains("fill:#1a1a1a"));
    // ...but the ivy (green) and prompt stay original
    assert!(svg.contains("#5e9445"));
    assert!(svg.contains("#cbe3ac"));
}

#[test]
fn recolor_only_touches_the_terminal_bg_fill() {
    let input = "a fill:#1a1a1a b fill:#5e9445 c";
    assert_eq!(
        recolor_terminal_bg(input, "#cc3333"),
        "a fill:#cc3333 b fill:#5e9445 c"
    );
}

#[test]
fn label_takes_the_place_of_the_prompt() {
    let plain = badge_svg(LOGO, "#000000", "#ffffff", "");
    assert!(plain.contains("fill:#ffffff"));
    assert!(!plain.contains("<text"));
    for (text, size) in [("a", 56), ("ab", 46), ("abc", 38)] {
        let svg = badge_svg(LOGO, "#000000", "#ffffff", text);
        assert!(!svg.contains("fill:#ffffff"));
        assert!(svg.contains("fill:none"));
        assert!(svg.contains(&format!("font-size=\"{}\"", size)));
    }
    assert!(plain.ends_with("</g>\n  \n</svg>\n"));
}

#[test]
fn badges_are_composed_on_request() {
    assert!(!wants_badge(None, None));
    assert!(wants_badge(Some("red"), None));
    assert!(wants_badge(None, Some("A")));
    assert_eq!(default_badge_color().to_hex(), "#1A1A1A");
    assert_eq!(escape_xml("<a & b>"), "&lt;a &amp; b&gt;");
    assert_eq!(logo_inner("<svg x=\"1\">inner</svg>"), "inner");
    assert_eq!(logo_inner("no logo"), "");
    assert_eq!(logo_inner("<svg never closed"), "");
    assert_eq!(logo_inner("<svg>open end"), "open end");
}

// ---------------------------------------------------------------------------
// Arguments
// ---------------------------------------------------------------------------

#[test]
fn badge_options_precede_the_command() {
    let parsed = parse_args(&strings(&[
        "ivyterm", "--badge-color", "#c33", "--badge-text", "ML1", "attach", "ssh", "--badge-text",
        "x",
    ]));
    assert_eq!(parsed.badge_color.as_deref(), Some("#c33"));
    assert_eq!(parsed.badge_text.as_deref(), Some("ML1"));
    assert_eq!(parsed.rest, strings(&["attach", "ssh", "--badge-text", "x"]));

    let parsed = parse_args(&strings(&["ivyterm", "--badge-color", "a", "--badge-color", "b"]));
    assert_eq!(parsed.badge_color.as_deref(), Some("b"));
    assert!(parsed.rest.is_empty());

    // An option without a value is left for what follows
    let parsed = parse_args(&strings(&["ivyterm", "--badge-text"]));
    assert_eq!(parsed.badge_text, None);
    assert_eq!(parsed.rest, strings(&["--badge-text"]));
}

#[test]
fn attach_takes_its_command_as_it_is() {
    assert!(matches!(launch(&vec![]), Launch::Normal));
    assert!(matches!(launch(&strings(&["attach"])), Launch::MissingCommand));
    assert!(matches!(launch(&strings(&["detach"])), Launch::Unknown(arg) if arg == "detach"));
    assert!(matches!(launch(&strings(&["attach", "tmux", "-h"])), Launch::Attach(argv)
        if argv == strings(&["tmux", "-h"])));
    assert!(wants_help(&strings(&["ivyterm", "-h"])));
    assert!(wants_help(&strings(&["ivyterm", "--help"])));
    assert!(!wants_help(&strings(&["ivyterm", "attach", "-h"])));
    assert!(!wants_help(&strings(&["ivyterm"])));
}

// ---------------------------------------------------------------------------
// Helpers
// ---------------------------------------------------------------------------

fn contents(list: &SortedVec<&'static str>) -> Vec<(u32, &'static str)> {
    list.iter().map(|entry| (entry.id, entry.terminal)).collect()
}

#[test]
fn entries_stay_sorted() {
    let mut list = SortedVec::default();
    assert_eq!(list.insert(5, &"five"), 0);
    assert_eq!(list.insert(2, &"two"), 0);
    assert_eq!(list.push(9, &"nine"), 2);
    assert_eq!(list.push(3, &"three"), 1);
    assert_eq!(contents(&list), vec![(2, "two"), (3, "three"), (5, "five"), (9, "nine")]);
    assert_eq!(list.get(5), Some("five"));
    assert_eq!(list.get(4), None);
    assert_eq!(list.remove(3), Some("three"));
    assert_eq!(list.remove(3), None);
    assert_eq!(list.len(), 3);
    assert_eq!(list.entry(1).id, 5);
    list.retain(|entry| entry.id != 5);
    assert_eq!(contents(&list), vec![(2, "two"), (9, "nine")]);
    list.clear();
    assert_eq!(list.len(), 0);
}

#[test]
fn editor_is_opened_on_paths_only() {
    assert_eq!(open_editor(""), None);
    assert_eq!(
        open_editor("--folder-uri=x"),
        Some(("code".to_string(), strings(&["--", "--folder-uri=x"])))
    );
    assert!(opens_link(true, 1, true));
    assert!(!opens_link(false, 1, true));
    assert!(!opens_link(true, 2, true));
    assert!(!opens_link(true, 1, false));
}

#[test]
fn normal_windows_number_their_tabs_and_terminals() {
    let mut window = IvyNormalWindow::new();
    assert_eq!(window.new_tab(), 0);
    assert_eq!(window.new_tab(), 1);
    assert_eq!(window.unique_tab_id(), 2);
    assert_eq!(window.terminal_id(None), 0);
    assert_eq!(window.terminal_id(Some(7)), 7);
    assert_eq!(window.unique_terminal_id(), 1);
    window.register_terminal(0);
    window.register_terminal(7);
    window.unregister_terminal(0);
    window.tab_page_closed(1, &vec![7]);
    assert!(closes_without_pages(0));
    assert!(!closes_without_pages(1));
    assert!(unparents_closing_page(1, 5));
    assert!(!unparents_closing_page(1, 6));
    assert!(!unparents_closing_page(2, 0));
}

#[test]
fn shells_get_the_environment() {
    assert_eq!(shell_command(None), strings(&["/bin/bash"]));
    assert_eq!(shell_command(Some("/bin/zsh".into())), strings(&["/bin/zsh"]));
    assert_eq!(
        environment(&vec![("A".to_string(), "1".to_string()), ("B".to_string(), "".to_string())]),
        strings(&["A=1", "B="])
    );
    assert_eq!(tab_title(true, Some("t".into())), Some("t".to_string()));
    assert_eq!(tab_title(false, Some("t".into())), None);
}

#[test]
fn composed_badges_use_defaults_and_short_texts() {
    // The standard color, and no more than three characters
    assert_eq!(
        compose_badge(LOGO, None, "#ffffff", Some("LONGER")),
        badge_svg(LOGO, "#1a1a1a", "#ffffff", "LON")
    );
    assert_eq!(
        compose_badge(LOGO, Some((0xcc, 0x33, 0x05)), "#000000", None),
        badge_svg(LOGO, "#cc3305", "#000000", "")
    );
}

#[test]
fn logos_end_behind_their_root() {
    assert!(check_logo(LOGO));
    assert!(check_logo("no logo"));
    assert!(check_logo("<svg>open end"));
    // The only closing tag stands before the root
    assert!(!check_logo("</svg><svg>"));
}

#[test]
fn commands_are_split_into_program_and_arguments() {
    let (program, args) = split_command(&strings(&["ssh", "host", "tmux -2"])).unwrap();
    assert_eq!(program, "ssh");
    assert_eq!(args, strings(&["host", "tmux -2"]));
    assert!(matches!(split_command(&[]), Err(IvyError::TmuxSpawnFailed)));
}

#[test]
fn white_backgrounds_stay_visible_behind_a_label() {
    let svg = badge_svg(LOGO, "#ffffff", "#000000", "A");
    // The background is white, the prompt is hidden
    assert!(svg.contains("<path style=\"fill:#ffffff\"/><path style=\"fill:none\"/>"));
    // Without a label both are drawn
    let svg = badge_svg(LOGO, "#ffffff", "#000000", "");
    assert!(svg.contains("<path style=\"fill:#ffffff\"/><path style=\"fill:#ffffff\"/>"));
}
