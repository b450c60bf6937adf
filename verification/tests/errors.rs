use ichigo::curl::{from_curl, CurlError};
use ichigo::form::{apply_body, body_opening, plan_save, RequestDraft};
use ichigo::theme::{emphasize, parse_color, Color, ColorError, ColorsFile, Theme, ThemeError, ThemeFile};

fn refusal(command: &str) -> CurlError {
    from_curl(command).expect_err(command)
}

#[test]
fn each_refusal_of_a_command_has_its_own_error() {
    let s = |t: &str| t.to_string();
    let cases = vec![
        ("curl x \\", CurlError::TrailingBackslash),
        ("curl 'x", CurlError::OpenSingleQuote),
        ("curl \"x", CurlError::OpenDoubleQuote),
        ("curl $'x", CurlError::OpenAnsiQuote),
        ("curl $'\\xzz'", CurlError::NoHexDigits),
        ("curl $'\\xff'", CurlError::NotUtf8),
        ("wget x", CurlError::NotCurl(s("wget"))),
        ("", CurlError::NoCommand),
        ("curl -s", CurlError::NoUrl),
        ("curl a b", CurlError::TwoUrls(s("a"), s("b"))),
        ("curl a --form b", CurlError::UnsupportedFlag(s("--form"))),
        ("curl a -F b", CurlError::UnsupportedFlag(s("-F"))),
        ("curl a -H", CurlError::MissingValue(s("-H"))),
        ("curl a -H nocolon", CurlError::MalformedHeader(s("nocolon"))),
        ("curl a -d @f", CurlError::FileData(s("-d"), s("f"))),
        ("curl a --json @f", CurlError::FileData(s("--json"), s("f"))),
        ("curl a --data-urlencode n@f", CurlError::FileUrlencode(s("--data-urlencode"))),
        ("curl a -u me", CurlError::MissingPassword(s("-u"))),
        ("curl a -b jar", CurlError::CookieFile(s("-b"), s("jar"))),
    ];
    for (command, error) in cases {
        assert_eq!(refusal(command), error, "{command}");
        assert!(!error.message().is_empty());
    }
    assert_eq!(refusal("curl a --form b").message(), "unsupported curl flag: --form");
}

#[test]
fn each_refusal_of_a_colour_has_its_own_error() {
    assert_eq!(parse_color("#fff"), Err(ColorError::NotHex("#fff".to_string())));
    assert_eq!(parse_color(" 256 "), Err(ColorError::OutOfRange(" 256 ".to_string())));
    assert_eq!(parse_color("puce"), Err(ColorError::Unknown("puce".to_string())));
    assert_eq!(parse_color("#fff").unwrap_err().message(), "\"#fff\" is not a #rrggbb color");
    assert_eq!(
        parse_color("256").unwrap_err().message(),
        "\"256\" is out of range; palette indices are 0-255"
    );
    let file = ThemeFile { name: Some("x".to_string()), colors: ColorsFile::default() };
    assert_eq!(Theme::from_file(&file), Err(ThemeError::UnknownName("x".to_string())));
    assert_eq!(
        Theme::from_file(&file).unwrap_err().message(),
        "theme.name must be one of dark, light (got \"x\"); any role can still be overridden under [theme.colors]"
    );
}

#[test]
fn exact_ink_moves_by_forty_five_percent() {
    let ink = Color::Rgb(100, 20, 255);
    assert_eq!(emphasize(ink, Color::Rgb(255, 255, 255)), Color::Rgb(55, 11, 140));
    assert_eq!(emphasize(ink, Color::Black), Color::Rgb(169, 125, 255));
}

#[test]
fn a_form_says_what_it_lacks() {
    let error = |fill: &[(usize, &str)]| {
        let mut draft = RequestDraft::blank();
        for (i, value) in fill {
            draft.fields[*i].1 = value.to_string();
        }
        plan_save(&draft, Some("/h")).err()
    };
    assert_eq!(error(&[]).as_deref(), Some("Name is required"));
    for name in ["a.b", "/a", "a/", "a//b", "a\\b"] {
        assert_eq!(
            error(&[(0, name)]).as_deref(),
            Some("Invalid name (use folder/name for subfolders)"),
            "{name}"
        );
    }
    assert_eq!(error(&[(0, "a"), (1, " ")]).as_deref(), Some("Method is required"));
    assert_eq!(error(&[(0, "a")]).as_deref(), Some("URL is required"));
    assert_eq!(error(&[(0, "a"), (2, "u")]), None);
}

#[test]
fn a_rename_leaves_the_old_file_behind() {
    let mut draft = RequestDraft::blank();
    draft.fields[0].1 = "dir/new".to_string();
    draft.fields[1].1 = "put".to_string();
    draft.fields[2].1 = " u ".to_string();
    draft.original_name = Some("old".to_string());
    let plan = plan_save(&draft, Some("/h")).unwrap();
    assert_eq!(plan.path, ".ichigo/dir/new.yaml");
    assert_eq!(plan.old_path.as_deref(), Some(".ichigo/old.yaml"));
    assert!(plan.must_be_new);
    assert_eq!((plan.config.method.as_str(), plan.config.url.as_str()), ("PUT", "u"));
    draft.global = true;
    draft.original_name = Some("dir/new".to_string());
    let plan = plan_save(&draft, Some("/h")).unwrap();
    assert_eq!(plan.path, "/h/.config/ichigo/dir/new.yaml");
    assert_eq!(plan.old_path, None);
    assert!(!plan.must_be_new);
}

#[test]
fn a_body_is_taken_over_as_typed() {
    let mut draft = RequestDraft::blank();
    draft.headers.insert("content-type".to_string(), "text/csv".to_string());
    assert_eq!(body_opening(&draft).0, "text/csv");
    assert_eq!(apply_body(&mut draft, "  ", "x"), Err("Content type is required".to_string()));
    assert_eq!(apply_body(&mut draft, " text/csv ", " a\n"), Ok(()));
    let body = draft.body.as_ref().unwrap();
    assert_eq!((body.content_type.as_str(), body.data.as_str()), ("text/csv", " a\n"));
    assert!(draft.headers.is_empty());
    assert_eq!(apply_body(&mut draft, "text/csv", ""), Ok(()));
    assert_eq!(draft.body, None);
    assert_eq!(body_opening(&draft).0, "application/json");
}

/// An index is written in digits alone.
#[test]
fn a_signed_index_is_no_color() {
    assert_eq!(parse_color("5"), Ok(Color::Indexed(5)));
    assert_eq!(parse_color("+5"), Err(ColorError::Unknown("+5".to_string())));
    assert_eq!(parse_color("-1"), Err(ColorError::Unknown("-1".to_string())));
}

/// A flag that changes how curl reads the command, or what it shows, is not passed
/// over in silence.
#[test]
fn flags_that_are_not_understood_are_refused() {
    for flag in ["-g", "--globoff", "-#", "--progress-bar", "--no-progress-meter"] {
        let e = from_curl(&format!("curl {flag} 'https://api/x'")).unwrap_err().message();
        assert!(e.contains(flag), "{flag}: {e}");
    }
}
