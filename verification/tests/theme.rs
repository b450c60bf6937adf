use ichigo::theme::{emphasize, is_light, parse_color, Color, ColorsFile, Theme, ThemeFile};


fn file(name: Option<&str>) -> ThemeFile {
    ThemeFile { name: name.map(str::to_string), colors: ColorsFile::default() }
}

#[test]
fn no_theme_table_is_the_dark_theme() {
    assert_eq!(Theme::from_file(&ThemeFile::default()).unwrap(), Theme::dark());
}

#[test]
fn a_built_in_can_be_chosen_by_name_case_insensitively() {
    assert_eq!(Theme::from_file(&file(Some("light"))).unwrap(), Theme::light());
    assert_eq!(Theme::from_file(&file(Some("DARK"))).unwrap(), Theme::dark());
}

#[test]
fn an_unknown_theme_name_is_refused_and_lists_the_real_ones() {
    let e = Theme::from_file(&file(Some("gruvbox"))).unwrap_err().message();
    assert!(e.contains("gruvbox"), "{e}");
    assert!(e.contains("dark") && e.contains("light"), "{e}");
}

#[test]
fn overrides_apply_on_top_of_the_named_theme() {
    let mut f = file(Some("light"));
    f.colors.accent = Some("#ff0000".to_string());
    let theme = Theme::from_file(&f).unwrap();
    assert_eq!(theme.accent, Color::Rgb(0xff, 0, 0));
    // Everything else is still the light theme.
    assert_eq!(theme.text, Theme::light().text);
    assert_eq!(theme.json_string, Theme::light().json_string);
}

#[test]
fn a_bad_override_names_the_role_it_came_from() {
    let mut f = file(None);
    f.colors.json_null = Some("puce".to_string());
    let e = Theme::from_file(&f).unwrap_err().message();
    assert!(e.contains("theme.colors.json_null"), "{e}");
}

#[test]
fn colors_parse_in_all_three_forms() {
    assert_eq!(parse_color("#fabd2f").unwrap(), Color::Rgb(0xfa, 0xbd, 0x2f));
    assert_eq!(parse_color("yellow").unwrap(), Color::Yellow);
    assert_eq!(parse_color("bright yellow").unwrap(), Color::LightYellow);
    assert_eq!(parse_color("BrightYellow").unwrap(), Color::LightYellow);
    assert_eq!(parse_color("237").unwrap(), Color::Indexed(237));
}

#[test]
fn bad_color_specs_are_refused() {
    for spec in ["#fff", "#gggggg", "puce", "256", "1000", ""] {
        assert!(parse_color(spec).is_err(), "{spec:?} should be refused");
    }
}

#[test]
fn no_emphasized_role_collides_with_its_band() {
    for (name, theme) in [("dark", Theme::dark()), ("light", Theme::light())] {
        for band in [theme.cursor_line, theme.selection] {
            for role in [
                theme.text, theme.dim, theme.accent, theme.json_key,
                theme.json_string, theme.json_number, theme.json_bool,
                theme.json_null, theme.json_punct,
            ] {
                assert_ne!(emphasize(role, band), band, "{name} theme");
            }
        }
    }
}

#[test]
fn emphasis_moves_away_from_the_band_in_both_directions() {
    let ink = Color::Rgb(0x80, 0x80, 0x80);

    let on_light = emphasize(ink, Theme::light().selection);
    let on_dark = emphasize(ink, Color::Rgb(0x20, 0x20, 0x20));
    let channel = |c: Color| match c {
        Color::Rgb(r, _, _) => r,
        _ => unreachable!(),
    };
    assert!(channel(on_light) < 0x80, "light band should darken its ink");
    assert!(channel(on_dark) > 0x80, "dark band should lighten its ink");
}

#[test]
fn named_colors_emphasize_to_their_bright_twin() {
    assert_eq!(emphasize(Color::Green, Theme::dark().selection), Color::LightGreen);
    assert_eq!(emphasize(Color::Indexed(2), Theme::dark().selection), Color::Indexed(10));
    // Punctuation is rescued to White rather than the dim Gray.
    assert_eq!(emphasize(Color::DarkGray, Theme::dark().selection), Color::White);
}

#[test]
fn deliberate_palette_indices_are_left_alone() {
    assert_eq!(emphasize(Color::Indexed(237), Theme::dark().selection), Color::Indexed(237));
    assert_eq!(emphasize(Color::LightCyan, Theme::dark().selection), Color::LightCyan);
}

#[test]
fn every_theme_makes_its_selection_louder_than_its_cursor_line() {
    for (name, theme) in [("dark", Theme::dark()), ("light", Theme::light())] {
        assert_ne!(theme.cursor_line, theme.selection, "{name} theme");
        let step = |c: Color| match c {
            Color::Indexed(i) => i as i32,
            Color::Rgb(r, _, _) => r as i32,
            _ => panic!("{name}: a band must be an exact color, not a named one"),
        };
        let away_from_page = step(theme.selection) - step(theme.cursor_line);
        if is_light(theme.selection) {
            assert!(away_from_page < 0, "{name}: light theme selection should be darker");
        } else {
            assert!(away_from_page > 0, "{name}: dark theme selection should be lighter");
        }
    }
}

#[test]
fn lightness_is_only_claimed_where_it_can_be_known() {
    assert!(is_light(Color::Rgb(0xff, 0xff, 0xff)));
    assert!(!is_light(Color::Rgb(0x1c, 0x1c, 0x1c)));
    assert!(is_light(Theme::light().selection));
    assert!(!is_light(Theme::dark().selection));
    // Unknowable: a named color is whatever the terminal draws.
    assert!(!is_light(Color::Yellow));
}

/// The luminance of every colour falls on the side where single precision puts it.
#[test]
fn every_colour_is_as_light_as_its_luminance_says() {
    let linear: Vec<f32> = (0..=255u8)
        .map(|c| {
            let c = f32::from(c) / 255.0;
            if c <= 0.04045 { c / 12.92 } else { ((c + 0.055) / 1.055).powf(2.4) }
        })
        .collect();
    for r in 0..=255u8 {
        for g in 0..=255u8 {
            for b in 0..=255u8 {
                let luminance = 0.2126 * linear[r as usize] + 0.7152 * linear[g as usize] + 0.0722 * linear[b as usize];
                assert_eq!(is_light(Color::Rgb(r, g, b)), luminance > 0.179, "{r} {g} {b}");
            }
        }
    }
}
