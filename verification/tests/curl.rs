use ichigo::config::{Body, Profile, RequestConfig};
use ichigo::curl::{base64_encode, curl_command, from_curl, to_curl, tokenize};
use ichigo::strmap::StrMap;
use ichigo::weburl::{can_fold, is_countable};

fn req(method: &str, url: &str) -> RequestConfig {
    RequestConfig {
        name: "t".to_string(),
        method: method.to_string(),
        url: url.to_string(),
        description: None,
        headers: StrMap::new(),
        query: StrMap::new(),
        body: None,
        extract: None,
        profiles: None,
    }
}

fn vars(pairs: &[(&str, &str)]) -> StrMap {
    let mut map = StrMap::new();
    for (k, v) in pairs {
        map.insert(k.to_string(), v.to_string());
    }
    map
}

#[test]
fn get_omits_redundant_method_flag() {
    let out = to_curl(&req("GET", "https://api/x"), &StrMap::new(), &StrMap::new());
    assert!(!out.contains("-X GET"), "got: {out}");
    assert!(out.starts_with("curl 'https://api/x'"), "got: {out}");
}

#[test]
fn non_get_includes_method() {
    let out = to_curl(&req("POST", "https://api/x"), &StrMap::new(), &StrMap::new());
    assert!(out.starts_with("curl -X POST 'https://api/x'"), "got: {out}");
}

#[test]
fn method_is_uppercased() {
    let out = to_curl(&req("delete", "https://api/x"), &StrMap::new(), &StrMap::new());
    assert!(out.contains("-X DELETE"), "got: {out}");
}

#[test]
fn headers_are_emitted_and_sorted() {
    let mut c = req("GET", "https://api/x");
    c.headers.insert("Zeta".to_string(), "1".to_string());
    c.headers.insert("Accept".to_string(), "application/json".to_string());
    c.headers.insert("Middle".to_string(), "2".to_string());
    let out = to_curl(&c, &StrMap::new(), &StrMap::new());
    let accept = out.find("-H 'Accept:").unwrap();
    let middle = out.find("-H 'Middle:").unwrap();
    let zeta = out.find("-H 'Zeta:").unwrap();
    assert!(accept < middle && middle < zeta, "not sorted: {out}");
}

#[test]
fn output_is_stable_across_calls() {
    let mut c = req("GET", "https://api/x");
    for (k, v) in [("A", "1"), ("B", "2"), ("C", "3"), ("D", "4"), ("E", "5")] {
        c.headers.insert(k.to_string(), v.to_string());
        c.query.insert(k.to_lowercase(), v.to_string());
    }
    assert_eq!(to_curl(&c, &StrMap::new(), &StrMap::new()), to_curl(&c, &StrMap::new(), &StrMap::new()));
}

#[test]
fn query_params_are_folded_into_url() {
    let mut c = req("GET", "https://api/x");
    c.query.insert("page".to_string(), "2".to_string());
    let out = to_curl(&c, &StrMap::new(), &StrMap::new());
    assert!(out.contains("https://api/x?page=2"), "got: {out}");
    // Not emitted as a separate flag.
    assert!(!out.contains("--data-urlencode"), "got: {out}");
}

#[test]
fn query_params_are_percent_encoded() {
    let mut c = req("GET", "https://api/x");
    c.query.insert("q".to_string(), "a b&c=d".to_string());
    c.query.insert("né".to_string(), "café".to_string());
    let out = to_curl(&c, &StrMap::new(), &StrMap::new());
    // Raw separators must not leak through unencoded.
    assert!(out.contains("a+b%26c%3Dd"), "got: {out}");
    assert!(out.contains("caf%C3%A9"), "got: {out}");
}

#[test]
fn query_appends_to_existing_query_string() {
    let mut c = req("GET", "https://api/x?existing=1");
    c.query.insert("added".to_string(), "2".to_string());
    let out = to_curl(&c, &StrMap::new(), &StrMap::new());
    assert!(out.contains("existing=1"), "got: {out}");
    assert!(out.contains("added=2"), "got: {out}");
}

#[test]
fn unparseable_url_keeps_its_query() {
    // An unresolved placeholder in the host: the query must not vanish.
    let mut c = req("GET", "http://{{HOST}}/x");
    c.query.insert("page".to_string(), "2".to_string());
    let out = to_curl(&c, &StrMap::new(), &StrMap::new());
    assert!(out.contains("{{HOST}}"), "got: {out}");
    assert!(out.contains("page=2"), "got: {out}");
}

#[test]
fn body_carries_content_type() {
    let mut c = req("POST", "https://api/x");
    c.body = Some(Body {
        content_type: "application/json".to_string(),
        data: r#"{"name":"ada"}"#.to_string(),
    });
    let out = to_curl(&c, &StrMap::new(), &StrMap::new());
    assert!(out.contains("-H 'Content-Type: application/json'"), "got: {out}");
    assert!(out.contains(r#"--data-raw '{"name":"ada"}'"#), "got: {out}");
}

#[test]
fn multiline_body_is_preserved() {
    let mut c = req("POST", "https://api/x");
    c.body = Some(Body {
        content_type: "application/json".to_string(),
        data: "{\n  \"a\": 1\n}".to_string(),
    });
    let out = to_curl(&c, &StrMap::new(), &StrMap::new());
    assert!(out.contains("{\n  \"a\": 1\n}"), "newlines collapsed: {out}");
}

#[test]
fn single_quotes_are_escaped() {
    let mut c = req("GET", "https://api/x");
    c.headers.insert("X-Note".to_string(), "it's here".to_string());
    let out = to_curl(&c, &StrMap::new(), &StrMap::new());
    // Close, escaped quote, reopen — the only escape single quotes allow.
    assert!(out.contains(r"'X-Note: it'\''s here'"), "got: {out}");
}

#[test]
fn shell_metacharacters_are_not_expandable() {
    let mut c = req("GET", "https://api/x");
    c.headers.insert("A".to_string(), "$HOME `id` a b".to_string());
    let out = to_curl(&c, &StrMap::new(), &StrMap::new());
    // Inside single quotes none of these expand.
    assert!(out.contains("-H 'A: $HOME `id` a b'"), "got: {out}");
}

#[test]
fn placeholders_are_substituted_from_vars() {
    let mut c = req("GET", "https://{{HOST}}/x");
    c.headers.insert("Authorization".to_string(), "Bearer {{TOKEN}}".to_string());
    c.query.insert("u".to_string(), "{{USER}}".to_string());
    c.body = Some(Body {
        content_type: "application/json".to_string(),
        data: r#"{"t":"{{TOKEN}}"}"#.to_string(),
    });
    let out = to_curl(&c, &vars(&[("HOST", "api.test"), ("TOKEN", "abc123"), ("USER", "ada")]), &StrMap::new());
    assert!(out.contains("https://api.test/x"), "got: {out}");
    assert!(out.contains("Bearer abc123"), "got: {out}");
    assert!(out.contains("u=ada"), "got: {out}");
    assert!(out.contains(r#"{"t":"abc123"}"#), "got: {out}");
    assert!(!out.contains("{{"), "placeholder left behind: {out}");
}

#[test]
fn header_names_are_interpolated_too() {
    // send_request interpolates keys as well as values.
    let mut c = req("GET", "https://api/x");
    c.headers.insert("X-{{KIND}}".to_string(), "v".to_string());
    let out = to_curl(&c, &vars(&[("KIND", "Trace")]), &StrMap::new());
    assert!(out.contains("-H 'X-Trace: v'"), "got: {out}");
}

#[test]
fn unresolved_placeholder_stays_literal() {
    let mut c = req("GET", "https://api/x");
    c.headers.insert("A".to_string(), "{{NOPE_NOT_SET_ANYWHERE}}".to_string());
    let out = to_curl(&c, &StrMap::new(), &StrMap::new());
    assert!(out.contains("{{NOPE_NOT_SET_ANYWHERE}}"), "got: {out}");
}

#[test]
fn environment_is_the_fallback() {
    // Matches interpolate's order: vars map first, then the environment.
    let env = vars(&[("ICHIGO_CURL_TEST_TOKEN", "from-env")]);
    let mut c = req("GET", "https://api/x");
    c.headers.insert("A".to_string(), "{{ICHIGO_CURL_TEST_TOKEN}}".to_string());
    let out = to_curl(&c, &StrMap::new(), &env);
    assert!(out.contains("-H 'A: from-env'"), "got: {out}");

    // An explicit var still wins over the environment.
    let out = to_curl(&c, &vars(&[("ICHIGO_CURL_TEST_TOKEN", "from-map")]), &env);
    assert!(out.contains("-H 'A: from-map'"), "got: {out}");
}

#[test]
fn continuations_join_flags() {
    let mut c = req("POST", "https://api/x");
    c.headers.insert("A".to_string(), "1".to_string());
    let out = to_curl(&c, &StrMap::new(), &StrMap::new());
    assert!(out.contains(" \\\n  -H "), "got: {out}");
}

// ─── Tokenizing ──────────────────────────────────────────────────────────

fn toks(input: &str) -> Vec<String> {
    tokenize(input).expect("tokenizes")
}

#[test]
fn splits_on_unquoted_whitespace() {
    assert_eq!(toks("curl -X POST url"), ["curl", "-X", "POST", "url"]);
}

#[test]
fn line_continuations_join_the_command() {
    let input = "curl -X POST \\\n  'https://api/x' \\\n  -H 'A: 1'";
    assert_eq!(toks(input), ["curl", "-X", "POST", "https://api/x", "-H", "A: 1"]);
}

#[test]
fn single_quotes_are_literal() {
    // Nothing expands and no escape exists inside single quotes.
    assert_eq!(toks(r#"'$HOME `id` \n'"#), [r"$HOME `id` \n"]);
}

#[test]
fn escaped_single_quote_round_trips() {
    // The close/escape/reopen form shell_quote emits.
    assert_eq!(toks(r"'X-Note: it'\''s here'"), ["X-Note: it's here"]);
}

#[test]
fn double_quotes_unescape_the_shell_four() {
    assert_eq!(toks(r#""a\"b\\c\$d\`e""#), [r#"a"b\c$d`e"#]);
}

#[test]
fn double_quotes_keep_other_backslashes() {
    // \n inside double quotes is a literal backslash-n to the shell.
    assert_eq!(toks(r#""a\nb""#), [r"a\nb"]);
}

#[test]
fn ansi_c_quoting_decodes_escapes() {
    assert_eq!(toks(r"$'line1\nline2'"), ["line1\nline2"]);
    assert_eq!(toks(r"$'a\tb\r\\c\'d'"), ["a\tb\r\\c'd"]);
}

#[test]
fn ansi_c_hex_escapes_reassemble_utf8() {
    // Chrome spells non-ASCII as a run of \xNN bytes; decoding per-char
    // would produce mojibake, so the bytes are accumulated first.
    assert_eq!(toks(r"$'caf\xc3\xa9'"), ["café"]);
}

#[test]
fn adjacent_runs_concatenate_into_one_token() {
    assert_eq!(toks("-H'X: 1'"), ["-HX: 1"]);
    assert_eq!(toks(r#"--data-raw'{"a":1}'"#), [r#"--data-raw{"a":1}"#]);
}

#[test]
fn empty_quotes_are_a_token() {
    assert_eq!(toks("-d ''"), ["-d", ""]);
}

#[test]
fn unterminated_quotes_are_errors() {
    assert!(tokenize("'abc").is_err());
    assert!(tokenize(r#""abc"#).is_err());
    assert!(tokenize(r"$'abc").is_err());
    assert!(tokenize(r"abc\").is_err());
}

// ─── Parsing ─────────────────────────────────────────────────────────────

fn parse(cmd: &str) -> RequestConfig {
    from_curl(cmd).unwrap_or_else(|e| panic!("expected `{cmd}` to parse: {}", e.message()))
}

fn err(cmd: &str) -> String {
    from_curl(cmd).expect_err("expected an error").message()
}

#[test]
fn parses_a_command_with_headers_and_a_body() {
    let c = parse(
        r#"curl -X POST 'https://api.example.com/users' -H 'Accept: application/json' -H 'Content-Type: application/json' --data-raw '{"name":"ada"}'"#,
    );
    assert_eq!(c.method, "POST");
    assert_eq!(c.url, "https://api.example.com/users");
    assert_eq!(c.headers.get("Accept").unwrap(), "application/json");
    let body = c.body.expect("body");
    assert_eq!(body.content_type, "application/json");
    assert_eq!(body.data, r#"{"name":"ada"}"#);
}

#[test]
fn url_may_be_positional_or_flagged() {
    let a = parse("curl 'https://api.example.com/x'");
    let b = parse("curl --url 'https://api.example.com/x'");
    let c = parse("curl --url='https://api.example.com/x'");
    assert_eq!(a.url, "https://api.example.com/x");
    assert_eq!(b.url, a.url);
    assert_eq!(c.url, a.url);
}

#[test]
fn a_leading_prompt_marker_is_stripped() {
    assert_eq!(parse("$ curl 'https://api/x'").url, "https://api/x");
    assert_eq!(parse("% curl 'https://api/x'").url, "https://api/x");
}

#[test]
fn non_curl_input_is_rejected() {
    assert!(err("wget https://api/x").contains("not a curl command"));
    assert!(from_curl("").is_err());
}

#[test]
fn a_command_with_no_url_is_rejected() {
    assert!(err("curl -X POST").contains("no URL"));
}

#[test]
fn a_second_url_is_rejected() {
    // curl would fetch both; a config holds one.
    assert!(err("curl 'https://a/x' 'https://b/y'").contains("more than one URL"));
}

#[test]
fn repeated_data_flags_concatenate() {
    let c = parse("curl 'https://api/x' -d 'a=1' -d 'b=2'");
    assert_eq!(c.body.expect("body").data, "a=1&b=2");
}

#[test]
fn attached_short_flag_values_are_read() {
    let c = parse("curl -XPUT 'https://api/x'");
    assert_eq!(c.method, "PUT");
}

#[test]
fn short_flag_bundles_are_split() {
    let c = parse("curl -sSL 'https://api/x'");
    assert_eq!(c.method, "GET");
    assert!(c.headers.is_empty());
}

#[test]
fn method_defaults_follow_curl() {
    assert_eq!(parse("curl 'https://api/x'").method, "GET");
    assert_eq!(parse("curl 'https://api/x' -d 'a=1'").method, "POST");
    assert_eq!(parse("curl -I 'https://api/x'").method, "HEAD");
    assert_eq!(parse("curl -X delete 'https://api/x'").method, "DELETE");
    // An explicit method beats every derivation.
    assert_eq!(parse("curl -X PUT 'https://api/x' -d 'a=1'").method, "PUT");
}

#[test]
fn content_type_moves_onto_the_body() {
    let c = parse("curl 'https://api/x' -H 'Content-Type: application/json' --data-raw '{}'");
    assert_eq!(c.body.expect("body").content_type, "application/json");
    assert!(
        !c.headers.keys().iter().any(|k| k.eq_ignore_ascii_case("content-type")),
        "Content-Type left in headers would be emitted twice: {:?}",
        c.headers
    );
}

#[test]
fn content_type_matching_is_case_insensitive() {
    let c = parse("curl 'https://api/x' -H 'content-type: text/plain' -d 'x'");
    assert_eq!(c.body.expect("body").content_type, "text/plain");
    assert!(c.headers.is_empty(), "got: {:?}", c.headers);
}

#[test]
fn a_body_without_a_content_type_gets_curls_default() {
    let c = parse("curl 'https://api/x' -d 'a=1'");
    assert_eq!(
        c.body.expect("body").content_type,
        "application/x-www-form-urlencoded"
    );
}

#[test]
fn a_bodyless_command_keeps_its_content_type_header() {
    let c = parse("curl 'https://api/x' -H 'Content-Type: application/json'");
    assert!(c.body.is_none());
    assert_eq!(c.headers.get("Content-Type").unwrap(), "application/json");
}

#[test]
fn json_flag_sets_content_type_and_accept() {
    let c = parse(r#"curl 'https://api/x' --json '{"a":1}'"#);
    let body = c.body.expect("body");
    assert_eq!(body.content_type, "application/json");
    assert_eq!(body.data, r#"{"a":1}"#);
    assert_eq!(c.headers.get("Accept").unwrap(), "application/json");
    assert_eq!(c.method, "POST");
}

#[test]
fn an_explicit_header_beats_the_json_implied_one() {
    let c = parse(r#"curl 'https://api/x' -H 'Accept: text/plain' --json '{}'"#);
    assert_eq!(c.headers.get("Accept").unwrap(), "text/plain");
}

#[test]
fn repeated_headers_combine() {
    // A map cannot hold both, and dropping one would be silent.
    let c = parse("curl 'https://api/x' -H 'Accept: a' -H 'accept: b'");
    assert_eq!(c.headers.get("Accept").unwrap(), "a, b");
}

#[test]
fn a_semicolon_header_is_empty_valued() {
    let c = parse("curl 'https://api/x' -H 'X-Empty;'");
    assert_eq!(c.headers.get("X-Empty").unwrap(), "");
}

#[test]
fn a_malformed_header_is_rejected() {
    assert!(err("curl 'https://api/x' -H 'nonsense'").contains("malformed header"));
}

#[test]
fn distinct_query_keys_move_into_the_query_map() {
    let c = parse("curl 'https://api.example.com/x?page=2&limit=10'");
    assert_eq!(c.url, "https://api.example.com/x");
    assert_eq!(c.query.get("page").unwrap(), "2");
    assert_eq!(c.query.get("limit").unwrap(), "10");
}

#[test]
fn query_values_are_decoded() {
    let c = parse("curl 'https://api/x?q=a+b%26c&n=caf%C3%A9'");
    assert_eq!(c.query.get("q").unwrap(), "a b&c");
    assert_eq!(c.query.get("n").unwrap(), "café");
}

#[test]
fn a_repeated_query_key_stays_on_the_url() {
    // Lifting would drop a value, so the whole query stays put.
    let c = parse("curl 'https://api/x?tag=a&tag=b'");
    assert_eq!(c.url, "https://api/x?tag=a&tag=b");
    assert!(c.query.is_empty());
}

#[test]
fn a_placeholder_url_keeps_its_query() {
    let c = parse("curl 'https://{{HOST}}/x?page=2'");
    assert_eq!(c.url, "https://{{HOST}}/x?page=2");
    assert!(c.query.is_empty());
}

#[test]
fn get_flag_folds_data_into_the_query() {
    let c = parse("curl -G 'https://api/x' -d 'page=2'");
    assert_eq!(c.method, "GET");
    assert!(c.body.is_none());
    assert_eq!(c.query.get("page").unwrap(), "2");
}

#[test]
fn data_urlencode_percent_encodes() {
    let c = parse("curl 'https://api/x' --data-urlencode 'q=a b&c'");
    assert_eq!(c.body.expect("body").data, "q=a+b%26c");
}

#[test]
fn data_urlencode_without_a_name_encodes_the_whole_value() {
    let c = parse("curl 'https://api/x' --data-urlencode 'a b'");
    assert_eq!(c.body.expect("body").data, "a+b");
}

#[test]
fn multipart_forms_are_refused() {
    let e = err("curl 'https://api/x' -F 'file=@photo.png'");
    assert!(e.contains("-F"), "error should name the flag: {e}");
}

#[test]
fn file_backed_data_is_refused() {
    let e = err("curl 'https://api/x' -d '@payload.json'");
    assert!(e.contains("payload.json"), "got: {e}");
    // --data-raw exists so that '@' is literal there.
    let c = parse("curl 'https://api/x' --data-raw '@payload.json'");
    assert_eq!(c.body.expect("body").data, "@payload.json");
}

#[test]
fn unrecognized_flags_are_refused() {
    let e = err("curl 'https://api/x' --proxy 'http://p'");
    assert!(e.contains("--proxy"), "error should name the flag: {e}");
}

#[test]
fn an_unsupported_letter_inside_a_bundle_is_caught() {
    // -s and -L are fine; -F is not, and bundling must not hide it.
    let e = err("curl 'https://api/x' -sLF 'file=@x'");
    assert!(e.contains("-F"), "error should name the letter: {e}");
}

#[test]
fn noise_flags_are_ignored() {
    let c = parse("curl -s -v -k -L --compressed -o /dev/null 'https://api/x'");
    assert_eq!(c.url, "https://api/x");
    assert!(c.headers.is_empty(), "got: {:?}", c.headers);
}

#[test]
fn compressed_adds_no_accept_encoding() {
    // reqwest negotiates encoding itself; storing the header would make the
    // config claim something send_request does not do.
    let c = parse("curl --compressed 'https://api/x' -H 'Accept: application/json'");
    assert!(
        !c.headers.keys().iter().any(|k| k.eq_ignore_ascii_case("accept-encoding")),
        "got: {:?}",
        c.headers
    );
}

#[test]
fn a_flag_missing_its_value_is_rejected() {
    assert!(err("curl 'https://api/x' -H").contains("expects a value"));
}

#[test]
fn basic_auth_becomes_an_authorization_header() {
    let c = parse("curl 'https://api/x' -u 'ada:hunter2'");
    assert_eq!(c.headers.get("Authorization").unwrap(), "Basic YWRhOmh1bnRlcjI=");
}

#[test]
fn a_password_less_user_flag_is_refused() {
    let e = err("curl 'https://api/x' -u 'ada'");
    assert!(e.contains("user:password"), "got: {e}");
}

#[test]
fn convenience_flags_become_headers() {
    let c = parse("curl 'https://api/x' -A 'ichigo/1.0' -b 'session=abc' -e 'https://ref'");
    assert_eq!(c.headers.get("User-Agent").unwrap(), "ichigo/1.0");
    assert_eq!(c.headers.get("Cookie").unwrap(), "session=abc");
    assert_eq!(c.headers.get("Referer").unwrap(), "https://ref");
}

#[test]
fn a_cookie_file_is_refused() {
    // `-b file` reads from disk; only an inline cookie is storable.
    assert!(err("curl 'https://api/x' -b 'cookies.txt'").contains("cookie file"));
}

#[test]
fn base64_covers_every_remainder() {
    assert_eq!(base64_encode(b""), "");
    assert_eq!(base64_encode(b"f"), "Zg==");
    assert_eq!(base64_encode(b"fo"), "Zm8=");
    assert_eq!(base64_encode(b"foo"), "Zm9v");
    assert_eq!(base64_encode(b"foob"), "Zm9vYg==");
    assert_eq!(base64_encode(b"fooba"), "Zm9vYmE=");
    assert_eq!(base64_encode(b"foobar"), "Zm9vYmFy");
    assert_eq!(base64_encode("café:pw".as_bytes()), "Y2Fmw6k6cHc=");
}

#[test]
fn a_devtools_style_command_parses() {
    // The shape Chrome's "Copy as cURL" produces: noise flags, many
    // headers, continuations, and an ANSI-C quoted body.
    let cmd = "curl 'https://api.example.com/v1/items?page=2' \\\n  \
         -H 'authority: api.example.com' \\\n  \
         -H 'accept: application/json' \\\n  \
         -H 'content-type: application/json' \\\n  \
         --data-raw $'{\\n  \"name\": \"caf\\xc3\\xa9\"\\n}' \\\n  \
         --compressed";
    let c = parse(cmd);
    assert_eq!(c.method, "POST");
    assert_eq!(c.url, "https://api.example.com/v1/items");
    assert_eq!(c.query.get("page").unwrap(), "2");
    assert_eq!(c.headers.get("accept").unwrap(), "application/json");
    let body = c.body.expect("body");
    assert_eq!(body.content_type, "application/json");
    assert_eq!(body.data, "{\n  \"name\": \"café\"\n}");
}

// ─── Round trip ──────────────────────────────────────────────────────────

#[test]
fn a_rendered_request_parses_back_to_itself() {
    let mut c = req("POST", "https://api.example.com/users");
    c.headers.insert("Accept".to_string(), "application/json".to_string());
    c.headers.insert("X-Note".to_string(), "it's here".to_string());
    c.query.insert("page".to_string(), "2".to_string());
    c.query.insert("q".to_string(), "a b&c".to_string());
    c.body = Some(Body {
        content_type: "application/json".to_string(),
        data: "{\n  \"name\": \"ada\"\n}".to_string(),
    });

    let back = from_curl(&to_curl(&c, &StrMap::new(), &StrMap::new())).expect("round trips");

    assert_eq!(back.method, c.method);
    assert_eq!(back.url, c.url);
    assert_eq!(back.headers, c.headers);
    assert_eq!(back.query, c.query);
    let (a, b) = (back.body.expect("body"), c.body.expect("body"));
    assert_eq!(a.content_type, b.content_type);
    assert_eq!(a.data, b.data);
}

#[test]
fn a_rendered_get_parses_back_to_itself() {
    let mut c = req("GET", "https://api.example.com/items");
    c.headers.insert("Authorization".to_string(), "Bearer abc123".to_string());
    let back = from_curl(&to_curl(&c, &StrMap::new(), &StrMap::new())).expect("round trips");
    assert_eq!(back.method, "GET");
    assert_eq!(back.url, c.url);
    assert_eq!(back.headers, c.headers);
    assert!(back.body.is_none());
}

#[test]
fn round_trip_substitutes_resolved_variables() {
    let mut c = req("GET", "https://{{HOST}}/x");
    c.headers.insert("Authorization".to_string(), "Bearer {{TOKEN}}".to_string());
    let rendered = to_curl(&c, &vars(&[("HOST", "api.test"), ("TOKEN", "abc123")]), &StrMap::new());
    let back = from_curl(&rendered).expect("round trips");
    assert_eq!(back.url, "https://api.test/x");
    assert_eq!(back.headers.get("Authorization").unwrap(), "Bearer abc123");
}

#[test]
fn fields_a_command_cannot_express_come_back_empty() {
    let mut c = req("GET", "https://api.example.com/x");
    c.description = Some("a description".to_string());
    c.profiles = Some(vec![Profile {
        name: "dev".to_string(),
        params: StrMap::new(),
    }]);
    c.extract = Some(StrMap::new());

    let back = from_curl(&to_curl(&c, &StrMap::new(), &StrMap::new())).expect("round trips");
    assert!(back.name.is_empty(), "the caller supplies the name");
    assert!(back.description.is_none());
    assert!(back.profiles.is_none());
    assert!(back.extract.is_none());
}

/// A URL with a fragment is kept whole, its query with it.
#[test]
fn a_fragment_keeps_the_query_on_the_url() {
    let c = parse("curl 'https://api/x?page=2#top'");
    assert_eq!(c.url, "https://api/x?page=2#top");
    assert!(c.query.is_empty());
}

/// The command is there wherever the URL can be counted, and is the one that
/// `to_curl` writes.
#[test]
fn a_countable_url_has_a_command() {
    let mut r = req("POST", "https://api/x#top");
    r.query.insert("q".to_string(), "a b".to_string());
    let env = StrMap::new();
    let command = curl_command(&r, &StrMap::new(), &env).expect("countable");
    assert_eq!(command, to_curl(&r, &StrMap::new(), &env));
    assert_eq!(command, "curl -X POST 'https://api/x?q=a+b#top'");
}

/// A command splits into the words it was made of.
#[test]
fn a_command_splits_into_its_words() {
    let mut r = req("PUT", "https://api/it's");
    r.headers.insert("X-A".to_string(), "a \"b\" $c".to_string());
    let command = to_curl(&r, &StrMap::new(), &StrMap::new());
    assert_eq!(toks(&command), vec!["curl", "-X", "PUT", "https://api/it's", "-H", "X-A: a \"b\" $c"]);
}

/// What a URL counts in 32 bits is where its query and its fragment begin.
#[test]
fn only_a_fragment_makes_the_rows_count() {
    let rows = |value: &str| vec![("q".to_string(), value.to_string())];
    assert!(is_countable("https://api/x", &rows("a b")));
    assert!(is_countable("https://api/x#top", &rows("a b")));
    assert!(is_countable("https://api/x?#top", &rows("é")));
    assert!(can_fold("no url", &rows("")) && can_fold("https://api/x#top", &rows("")));
}

/// A URL that carries placeholders is not parsed, and has its command too.
#[test]
fn a_placeholder_url_has_a_command() {
    let mut r = req("GET", "https://{{HOST}}/x");
    r.query.insert("q".to_string(), "1".to_string());
    let none = StrMap::new();
    assert_eq!(curl_command(&r, &none, &none).expect("a command"), "curl 'https://{{HOST}}/x?q=1'");
}
