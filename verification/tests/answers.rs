use ichigo::answers::{apply_profile, failure_pane, picture_pane, text_pane, ChainRun, Picture, StepBody};
use ichigo::clipboard::{clipboard_backends, no_clipboard_message};
use ichigo::commands::{
    base_of, build_template, chain_test_message, list_suffix, malformed_message, new_request, parse_vars, plan_copy,
    request_from_curl,
};
use ichigo::config::{Body, Profile, RequestConfig};
use ichigo::response::ResponseKind;
use ichigo::runner::{extract_values, readable_body, ExtractError};
use ichigo::strmap::StrMap;
use ichigo::tester::{ascii_bar, collect_test_results, graph_axis, line_graph, status_reason, Sample};
use ichigo::utils::{interpolate, outgoing};
use ichigo::vars::extract_var_names;
use ichigo::view_response::{draw_response, draw_test_results, format_test_results_text, report_lines};
use ichigo::view_field::Rect;

fn map(pairs: &[(&str, &str)]) -> StrMap {
    let mut map = StrMap::new();
    for (k, v) in pairs {
        map.insert(k.to_string(), v.to_string());
    }
    map
}

fn request(method: &str, url: &str) -> RequestConfig {
    RequestConfig {
        name: "r".to_string(),
        method: method.to_string(),
        url: url.to_string(),
        description: None,
        headers: StrMap::new(),
        query: StrMap::new(),
        body: None,
        extract: None,
        profiles: None,
    }
}

#[test]
fn json_is_spread_over_lines_and_text_is_left() {
    assert_eq!(readable_body("{\"a\":1}".to_string()), "{\n  \"a\": 1\n}");
    assert_eq!(readable_body("not json".to_string()), "not json");
}

#[test]
fn values_are_taken_out_along_their_paths() {
    let asked = Some(map(&[("A", "$.items.1.id"), ("B", "name"), ("C", "$.items.0")]));
    let body = r#"{"items":[{"id":1},{"id":42}],"name":"berry"}"#;
    let taken = extract_values(&asked, body, true).unwrap();
    assert_eq!(taken, map(&[("A", "42"), ("B", "berry"), ("C", "{\"id\":1}")]));
}

#[test]
fn each_way_to_miss_a_value_is_reported() {
    let asked = Some(map(&[("A", "$.a.5")]));
    assert_eq!(extract_values(&None, "", false), Ok(StrMap::new()));
    assert_eq!(extract_values(&asked, "[]", false), Err(ExtractError::NotJson));
    let e = extract_values(&asked, "[]", false).unwrap_err();
    assert_eq!(e.message(), "Cannot extract values: response is not JSON");
    let e = extract_values(&asked, "{\"a\":[1]}", true).unwrap_err();
    assert_eq!(e.message(), "Index 5 out of bounds in response");
    let e = extract_values(&asked, "{\"b\":[1]}", true).unwrap_err();
    assert_eq!(e.message(), "Path 'a' not found in response");
    let e = extract_values(&asked, "{", true).unwrap_err();
    assert_eq!(e, ExtractError::BadJson("EOF while parsing an object at line 1 column 1".to_string()));
}

#[test]
fn a_chain_feeds_what_it_takes_forward() {
    let mut first = request("GET", "u");
    first.name = "login".to_string();
    first.extract = Some(map(&[("TOKEN", "$.token")]));
    let second = request("GET", "u");
    let mut run = ChainRun::new(map(&[("TOKEN", "old"), ("HOST", "h")]));
    run.answer(&first, 200, "application/json; charset=utf-8", StepBody::Text("{\"token\":\"t\"}".to_string()), false)
        .unwrap();
    assert_eq!(run.vars, map(&[("TOKEN", "t"), ("HOST", "h")]));
    run.answer(&second, 404, "text/plain", StepBody::Text(String::new()), true).unwrap();
    assert_eq!(
        run.out,
        "▸ login  [200]\n{\n  \"token\": \"t\"\n}\n  ← TOKEN: t\n\n▸ r  [404]\n(empty body)\n"
    );
    assert_eq!(run.pane().kind, ResponseKind::Http(404));
}

#[test]
fn an_image_in_a_chain_is_summed_up_and_gives_nothing() {
    let mut run = ChainRun::new(StrMap::new());
    let mut step = request("GET", "u");
    run.answer(&step, 200, "image/png", StepBody::Image(2048), true).unwrap();
    assert_eq!(run.out, "▸ r  [200]\nimage/png · 2.0 KB\n");
    step.extract = Some(map(&[("A", "$.a")]));
    assert_eq!(run.answer(&step, 200, "image/png", StepBody::Image(2048), true), Err(ExtractError::NotJson));
    assert_eq!(run.out, "▸ r  [200]\nimage/png · 2.0 KB\n");
}

#[test]
fn an_image_that_cannot_be_shown_keeps_its_status() {
    let drawn = Picture::Decoded { bytes: 1024, width: 3, height: 2, drawable: true };
    let pane = picture_pane(200, "image/png", String::new(), &drawn);
    assert_eq!(pane.body, "image/png · 3×2 · 1.0 KB");
    assert!(pane.has_image);
    let text = Picture::Decoded { bytes: 1024, width: 3, height: 2, drawable: false };
    let pane = picture_pane(200, "image/png", String::new(), &text);
    assert_eq!(pane.body, "image/png · 3×2 · 1.0 KB\n\nThis terminal has no image protocol ichigo can use.");
    assert!(!pane.has_image);
    let bad = Picture::Undecoded { bytes: 5, words: "no".to_string() };
    let pane = picture_pane(200, "image/png", String::new(), &bad);
    assert_eq!(pane.body, "image/png · 5 B\n\nCould not decode: no");
    assert_eq!(pane.kind, ResponseKind::Http(200));
    let lost = Picture::Unread("cut".to_string());
    assert_eq!(picture_pane(200, "image/png", String::new(), &lost).body, "image/png\n\nCould not read body: cut");
}

#[test]
fn a_failed_request_is_an_error_pane() {
    assert_eq!(failure_pane("no route").body, "Error: no route");
    assert_eq!(failure_pane("no route").kind, ResponseKind::Error);
    assert_eq!(text_pane(500, "[1]".to_string(), "a: b".to_string()).body, "[\n  1\n]");
}

#[test]
fn a_profile_is_found_whatever_its_case() {
    let mut config = request("GET", "u");
    config.profiles = Some(vec![Profile { name: "Dev".to_string(), params: map(&[("A", "profile")]) }]);
    let mut vars = map(&[("A", "flag"), ("B", "flag")]);
    apply_profile(&mut vars, &config, Some("nope"));
    assert_eq!(vars, map(&[("A", "flag"), ("B", "flag")]));
    apply_profile(&mut vars, &config, Some("dEV"));
    assert_eq!(vars, map(&[("A", "profile"), ("B", "flag")]));
    apply_profile(&mut vars, &config, None);
    assert_eq!(vars, map(&[("A", "profile"), ("B", "flag")]));
}

#[test]
fn what_is_sent_has_its_placeholders_filled_in() {
    let mut config = request("post", "https://{{HOST}}/x");
    config.headers = map(&[("X-{{A}}", "{{B}}")]);
    config.query = map(&[("q", "{{MISSING}}")]);
    config.body = Some(Body { content_type: "text/plain".to_string(), data: "{{A}}".to_string() });
    let sent = outgoing(&config, &map(&[("A", "1")]), &map(&[("HOST", "h"), ("A", "env"), ("B", "2")])).unwrap();
    assert_eq!(sent.method, "POST");
    assert_eq!(sent.url, "https://h/x");
    assert_eq!(sent.headers, vec![("X-1".to_string(), "2".to_string())]);
    assert_eq!(sent.query, vec![("q".to_string(), "{{MISSING}}".to_string())]);
    assert_eq!(sent.body.unwrap().data, "1");
}

#[test]
fn a_method_that_cannot_be_sent_is_refused() {
    let refused = outgoing(&request("trace", "u"), &StrMap::new(), &StrMap::new());
    assert_eq!(refused, Err("Unsupported HTTP method: TRACE".to_string()));
    for method in ["GET", "POST", "PUT", "PATCH", "DELETE", "HEAD", "OPTIONS"] {
        assert!(outgoing(&request(method, "u"), &StrMap::new(), &StrMap::new()).is_ok());
    }
}

#[test]
fn placeholders_are_filled_or_left() {
    let vars = map(&[("A", "1")]);
    assert_eq!(interpolate("{{A}}-{{B}}-{{", &vars, &map(&[("B", "2")])), "1-2-{{");
    assert_eq!(interpolate("{{C}}", &vars, &StrMap::new()), "{{C}}");
}

#[test]
fn placeholders_are_named_once_each() {
    let names = extract_var_names("{{A}}/{{B}}", &map(&[("h", "{{A}}")]), &StrMap::new(), Some("{{C}} {{open"));
    assert_eq!(names, vec!["A", "B", "C"]);
}

#[test]
fn results_count_and_time_the_samples() {
    let samples: Vec<Sample> = [(200, 3_000_000), (500, 1_000_000), (200, 2_000_000)]
        .iter()
        .map(|(status, nanos)| Sample { status: *status, nanos: *nanos })
        .collect();
    let results = collect_test_results(&samples);
    let counts: Vec<(u16, usize)> = results.statuses.iter().map(|s| (s.status, s.count)).collect();
    assert_eq!(counts, vec![(200, 2), (500, 1)]);
    assert_eq!(counts.iter().map(|c| c.1).sum::<usize>(), samples.len());
    assert_eq!((results.min, results.avg, results.max), (1_000_000, 2_000_000, 3_000_000));
    assert_eq!(results.timings, vec![3, 1, 2]);
    assert_eq!(
        format_test_results_text(&results),
        "Results\n\n  200 OK  x 2\n  500 Internal Server Error  x 1\n\nTimings\n\n  avg:  2.00ms\n  min:  1.00ms\n  max:  3.00ms"
    );
    let drawing = draw_test_results(&results);
    assert_eq!(drawing.title.text(), " Test Results  3 iterations ");
    assert_eq!(drawing.gauges[1].text(), format!("  200  {}  ×2", "█".repeat(30)));
    assert_eq!(drawing.gauges[2].text(), format!("  500  {}{}  ×1", "█".repeat(15), "░".repeat(15)));
    assert_eq!(drawing.stats.text(), "  avg 2.00ms   min 1.00ms   max 3.00ms");
    let report: Vec<String> = report_lines(&results).iter().map(|l| l.text()).collect();
    assert_eq!(report[0], "=== Results ===");
    assert_eq!(report[1], format!("  200  {}  OK  ×2", "█".repeat(30)));
    assert_eq!(report[5], "  avg:  2.00ms");
    assert!(report[9].starts_with("    3ms │ •"), "{}", report[9]);
    assert_eq!(report.len(), 18);
}

#[test]
fn bars_and_graphs_are_to_scale() {
    assert_eq!(ascii_bar(1, 100), ("█".to_string(), "░".repeat(29)));
    assert_eq!(ascii_bar(50, 100), ("█".repeat(15), "░".repeat(15)));
    assert_eq!(status_reason(404), "Not Found");
    assert_eq!(status_reason(299), "Unknown");
    let rows = line_graph(&vec![0, 7]);
    assert_eq!(rows.len(), 8);
    assert_eq!(rows[0].label, "  7ms");
    assert_eq!(rows[7].label, "  0ms");
    assert_eq!(rows[7].dots, format!("{}{}", "•".repeat(30), " ".repeat(30)));
    assert_eq!(rows[0].dots, format!("{}{}", " ".repeat(30), "•".repeat(30)));
    assert!(line_graph(&Vec::new()).is_empty());
    assert_eq!(graph_axis(&vec![0, 7]).1, format!("└{}", "─".repeat(61)));
}

#[test]
fn assignments_split_at_the_first_equals_sign() {
    let words = vec!["A=1=2".to_string(), "bad".to_string(), "B=".to_string(), "A=3".to_string()];
    let (vars, bad) = parse_vars(&words);
    assert_eq!(vars, map(&[("A", "3"), ("B", "")]));
    assert_eq!(bad, vec!["bad".to_string()]);
    assert_eq!(malformed_message("bad"), "ignoring malformed var 'bad' (expected KEY=VALUE)");
}

#[test]
fn a_template_has_a_body_where_the_method_takes_one() {
    let post = build_template("n", "POST", "u");
    assert!(post.starts_with("name: n\nmethod: POST\nurl: u\ndescription: \"\"\n\n# Use {{VAR}} anywhere"), "{post}");
    assert!(post.contains("\nbody:\n  content_type: application/json\n"), "{post}");
    let get = new_request("n", "get", None);
    assert!(get.contains("method: GET\nurl: https://example.com\n"), "{get}");
    assert!(get.ends_with("# body:\n#   content_type: application/json\n#   data: |\n#     {\n#       \"key\": \"value\"\n#     }\n"), "{get}");
}

#[test]
fn a_command_becomes_a_named_request() {
    let config = request_from_curl("api/x".to_string(), "curl -X PUT 'https://api/x'").unwrap();
    assert_eq!((config.name.as_str(), config.method.as_str()), ("api/x", "PUT"));
    assert!(request_from_curl("api/x".to_string(), "wget x").is_err());
}

#[test]
fn a_copy_stays_in_its_scope_and_overwrites_nothing() {
    let plan = plan_copy("a", "b", false, Some("/h"), true, false).unwrap();
    assert_eq!((plan.source.as_str(), plan.target.as_str()), (".ichigo/a.yaml", ".ichigo/b.yaml"));
    let plan = plan_copy("a", "b", true, Some("/h"), true, false).unwrap();
    assert_eq!(plan.source, "/h/.config/ichigo/a.yaml");
    assert_eq!(plan_copy("a", "b", false, None, false, false), Err("Request 'a' not found".to_string()));
    assert_eq!(
        plan_copy("a", "b", false, None, true, true),
        Err("Request 'b' already exists at .ichigo/b.yaml".to_string())
    );
}

#[test]
fn a_file_belongs_to_the_directory_it_is_below() {
    assert_eq!(base_of("/h/.config/ichigo/x/a.yaml", Some("/h")), "/h/.config/ichigo");
    assert_eq!(base_of("/h/.config/ichigo2/a.yaml", Some("/h")), ".ichigo");
    assert_eq!(base_of(".ichigo/a.yaml", Some("/h")), ".ichigo");
}

#[test]
fn the_list_says_what_a_request_is_for_and_where_it_is() {
    assert_eq!(list_suffix(Some("pings"), true), " — pings global");
    assert_eq!(list_suffix(Some(""), false), " local");
    assert_eq!(list_suffix(None, false), " local");
    assert_eq!(chain_test_message("x"), "'x' is a chain config — testing chains is not supported");
}

#[test]
fn clipboard_tools_are_tried_in_order() {
    let tools = clipboard_backends();
    let names: Vec<&str> = tools.iter().map(|t| t.program.as_str()).collect();
    assert_eq!(names, vec!["pbcopy", "wl-copy", "xclip", "xsel"]);
    assert_eq!(tools[2].args, vec!["-selection", "clipboard"]);
    assert_eq!(
        no_clipboard_message(&tools),
        "no clipboard tool found (tried pbcopy, wl-copy, xclip, xsel)"
    );
}

#[test]
fn a_response_leaves_room_for_its_image() {
    let picture = Picture::Decoded { bytes: 1024, width: 3, height: 2, drawable: true };
    let pane = picture_pane(200, "image/png", "a: b".to_string(), &picture);
    let area = Rect { x: 10, y: 2, width: 40, height: 20 };
    let drawing = draw_response(area, &pane);
    assert_eq!(drawing.pane.title.text(), " Response  200  H headers ");
    assert_eq!(drawing.view_height, 18);
    assert_eq!(drawing.image, Some(Rect { x: 11, y: 5, width: 38, height: 16 }));
    assert!(drawing.filter.is_none());
    // The cursor line runs to the border.
    assert_eq!(drawing.pane.lines[0].width(), 38);
}
