use ichigo::app_keys::split_pct_at;
use ichigo::config::{Body, Profile, RequestConfig, MAX_SPLIT_PCT, MIN_SPLIT_PCT};
use ichigo::curl::from_curl;
use ichigo::form::{apply_headers, apply_query, upsert_profile, Focus, PairKind, RequestDraft};
use ichigo::response::{selection_range, visible_response_lines};
use ichigo::strmap::StrMap;
use ichigo::vars::chain_var_names;

fn vars(pairs: &[(&str, &str)]) -> StrMap {
    let mut map = StrMap::new();
    for (k, v) in pairs {
        map.insert(k.to_string(), v.to_string());
    }
    map
}

fn step(url: &str) -> RequestConfig {
    RequestConfig {
        name: "step".to_string(),
        method: "GET".to_string(),
        url: url.to_string(),
        description: None,
        headers: StrMap::new(),
        query: StrMap::new(),
        body: None,
        extract: None,
        profiles: None,
    }
}

#[test]
fn chain_var_names_collects_across_fields() {
    let mut s = step("https://api/{{USER_ID}}");
    s.query.insert("page".to_string(), "{{PAGE}}".to_string());
    s.body = Some(Body {
        content_type: "application/json".to_string(),
        data: "{\"q\": \"{{SEARCH}}\"}".to_string(),
    });
    let names = chain_var_names(&vec![s]);
    // url, query, and body placeholders are all picked up.
    assert!(names.contains(&"USER_ID".to_string()));
    assert!(names.contains(&"PAGE".to_string()));
    assert!(names.contains(&"SEARCH".to_string()));
}

#[test]
fn chain_var_names_excludes_extracted_and_dedupes() {
    // Step 1 prompts for USER_ID and produces USERNAME via extract.
    let mut s1 = step("https://api/users/{{USER_ID}}");
    let mut extract = StrMap::new();
    extract.insert("USERNAME".to_string(), "$.username".to_string());
    s1.extract = Some(extract);

    // Step 2 reuses USER_ID (should dedupe) and consumes USERNAME (should be excluded).
    let mut s2 = step("https://api/posts");
    s2.query.insert("userId".to_string(), "{{USER_ID}}".to_string());
    s2.headers.insert("X-User".to_string(), "{{USERNAME}}".to_string());

    let names = chain_var_names(&vec![s1, s2]);
    // Only the truly user-supplied variable remains, listed once.
    assert_eq!(names, vec!["USER_ID".to_string()]);
}

#[test]
fn a_drag_puts_the_divider_under_the_pointer() {
    assert_eq!(split_pct_at(40, 100), Some(40));
    assert_eq!(split_pct_at(60, 120), Some(50));
    // Rounds to nearest rather than truncating: 28/80 is 35%, not 34%.
    assert_eq!(split_pct_at(28, 80), Some(35));
}

#[test]
fn a_drag_past_the_edge_stops_at_the_bounds() {
    assert_eq!(split_pct_at(0, 100), Some(MIN_SPLIT_PCT));
    assert_eq!(split_pct_at(100, 100), Some(MAX_SPLIT_PCT));
    // A drag off the right edge reports a column past the width.
    assert_eq!(split_pct_at(400, 100), Some(MAX_SPLIT_PCT));
}

#[test]
fn a_drag_with_no_frame_drawn_yet_is_ignored() {
    assert_eq!(split_pct_at(10, 0), None);
}

fn full_config() -> RequestConfig {
    let mut c = step("https://api/x");
    c.method = "POST".to_string();
    c.description = Some("desc".to_string());
    c.headers.insert("Accept".to_string(), "application/json".to_string());
    c.query.insert("page".to_string(), "2".to_string());
    c.body = Some(Body {
        content_type: "application/json".to_string(),
        data: r#"{"a":1}"#.to_string(),
    });
    c.extract = Some(vars(&[("TOKEN", "$.token")]));
    c.profiles = Some(vec![Profile {
        name: "dev".to_string(),
        params: StrMap::new(),
    }]);
    c
}

#[test]
fn draft_carries_the_fields_the_form_does_not_edit() {
    let draft = RequestDraft::from_config(full_config(), Some("api/x".to_string()), false);

    assert_eq!(draft.fields[0].1, "api/x");
    assert_eq!(draft.fields[1].1, "POST");
    assert_eq!(draft.fields[2].1, "https://api/x");
    assert_eq!(draft.fields[3].1, "desc");
    assert_eq!(draft.headers.get("Accept").unwrap(), "application/json");
    assert_eq!(draft.query.get("page").unwrap(), "2");
    assert_eq!(draft.body.expect("body").data, r#"{"a":1}"#);
    assert_eq!(draft.extract.expect("extract").get("TOKEN").unwrap(), "$.token");
    assert_eq!(draft.profiles.len(), 1);
}

#[test]
fn a_clone_draft_keeps_everything_but_the_name() {
    let draft = RequestDraft::from_config(full_config(), None, false);

    assert_eq!(draft.fields[0].1, "", "a clone starts unnamed");
    assert!(draft.original_name.is_none());
    assert_eq!(draft.headers.len(), 1);
    assert!(draft.body.is_some());
    assert!(draft.extract.is_some());
}

#[test]
fn an_imported_draft_carries_the_parsed_request() {
    let config = from_curl(
        r#"curl -X POST 'https://api/x?page=2' -H 'Accept: application/json' --data-raw '{"a":1}'"#,
    )
    .expect("parses");
    let draft = RequestDraft::from_config(config, None, false);

    assert_eq!(draft.fields[0].1, "", "the user names an imported request");
    assert_eq!(draft.fields[1].1, "POST");
    assert_eq!(draft.fields[2].1, "https://api/x");
    assert_eq!(draft.query.get("page").unwrap(), "2");
    assert_eq!(draft.headers.get("Accept").unwrap(), "application/json");
    assert_eq!(draft.body.expect("body").data, r#"{"a":1}"#);
}

fn pairs(rows: &[(&str, &str)]) -> Vec<(String, String)> {
    rows.iter().map(|(k, v)| (k.to_string(), v.to_string())).collect()
}

#[test]
fn headers_are_replaced_wholesale_so_a_removed_row_is_gone() {
    let mut draft = RequestDraft::from_config(full_config(), None, false);
    assert!(draft.headers.contains_key("Accept"));

    apply_headers(&mut draft, &pairs(&[("X-Only", "1")])).expect("valid");

    assert_eq!(draft.headers.len(), 1);
    assert!(!draft.headers.contains_key("Accept"), "removed row survived");
    assert_eq!(draft.headers.get("X-Only").unwrap(), "1");
}

#[test]
fn a_blank_name_is_dropped_rather_than_stored() {
    let mut draft = RequestDraft::blank();
    apply_headers(&mut draft, &pairs(&[("Accept", "a"), ("  ", "orphan"), ("", "")]))
        .expect("blank rows are not an error");
    assert_eq!(draft.headers.len(), 1);
}

#[test]
fn names_and_values_are_trimmed() {
    let mut draft = RequestDraft::blank();
    apply_headers(&mut draft, &pairs(&[("  Accept  ", "  application/json  ")])).unwrap();
    assert_eq!(draft.headers.get("Accept").unwrap(), "application/json");
}

#[test]
fn a_duplicate_name_is_refused_ignoring_case() {
    let mut draft = RequestDraft::blank();
    let err = apply_headers(&mut draft, &pairs(&[("Accept", "a"), ("accept", "b")]))
        .expect_err("same header twice");
    assert!(err.contains("accept"), "the error names the header: {err}");
    assert!(draft.headers.is_empty(), "nothing applied on refusal");
}

#[test]
fn a_content_type_row_moves_into_the_body() {
    let mut draft = RequestDraft::from_config(full_config(), None, false);
    apply_headers(&mut draft, &pairs(&[("Content-Type", "text/plain"), ("Accept", "a")]))
        .unwrap();

    assert_eq!(draft.body.as_ref().unwrap().content_type, "text/plain");
    assert!(
        !draft.headers.keys().iter().any(|k| k.eq_ignore_ascii_case("content-type")),
        "content type left in headers: {:?}",
        draft.headers
    );
    assert_eq!(draft.headers.get("Accept").unwrap(), "a");
}

#[test]
fn a_content_type_row_stays_a_header_when_there_is_no_body() {
    let mut draft = RequestDraft::blank();
    apply_headers(&mut draft, &pairs(&[("Content-Type", "text/plain")])).unwrap();
    assert_eq!(draft.headers.get("Content-Type").unwrap(), "text/plain");
}

#[test]
fn query_params_are_replaced_wholesale_so_a_removed_row_is_gone() {
    let mut draft = RequestDraft::from_config(full_config(), None, false);
    assert!(draft.query.contains_key("page"));

    apply_query(&mut draft, &pairs(&[("limit", "50")])).expect("valid");

    assert_eq!(draft.query.len(), 1);
    assert!(!draft.query.contains_key("page"), "removed row survived");
    assert_eq!(draft.query.get("limit").unwrap(), "50");
}

#[test]
fn a_blank_query_name_is_dropped_rather_than_stored() {
    let mut draft = RequestDraft::blank();
    apply_query(&mut draft, &pairs(&[("page", "2"), ("  ", "orphan"), ("", "")]))
        .expect("blank rows are not an error");
    assert_eq!(draft.query.len(), 1);
}

#[test]
fn query_names_and_values_are_trimmed() {
    let mut draft = RequestDraft::blank();
    apply_query(&mut draft, &pairs(&[("  page  ", "  2  ")])).unwrap();
    assert_eq!(draft.query.get("page").unwrap(), "2");
}

#[test]
fn query_names_differing_only_in_case_are_two_params() {
    let mut draft = RequestDraft::blank();
    apply_query(&mut draft, &pairs(&[("page", "1"), ("Page", "2")]))
        .expect("case makes these distinct");
    assert_eq!(draft.query.len(), 2);
    assert_eq!(draft.query.get("page").unwrap(), "1");
    assert_eq!(draft.query.get("Page").unwrap(), "2");
}

#[test]
fn an_exactly_duplicated_query_name_is_refused() {
    let mut draft = RequestDraft::blank();
    let err = apply_query(&mut draft, &pairs(&[("page", "1"), ("page", "2")]))
        .expect_err("same param twice");
    assert!(err.contains("page"), "the error names the param: {err}");
    assert!(draft.query.is_empty(), "nothing applied on refusal");
}

#[test]
fn a_content_type_query_param_is_left_alone() {
    let mut draft = RequestDraft::from_config(full_config(), None, false);
    let before = draft.body.as_ref().unwrap().content_type.clone();

    apply_query(&mut draft, &pairs(&[("Content-Type", "text/plain")])).unwrap();

    assert_eq!(draft.query.get("Content-Type").unwrap(), "text/plain");
    assert_eq!(draft.body.as_ref().unwrap().content_type, before, "body was touched");
}

#[test]
fn editing_query_leaves_headers_untouched_and_the_reverse() {
    let mut draft = RequestDraft::from_config(full_config(), None, false);

    apply_query(&mut draft, &pairs(&[("limit", "50")])).unwrap();
    assert_eq!(draft.headers.get("Accept").unwrap(), "application/json");

    apply_headers(&mut draft, &pairs(&[("Accept", "text/plain")])).unwrap();
    assert_eq!(draft.query.get("limit").unwrap(), "50");
}

#[test]
fn each_kind_reads_and_writes_its_own_map() {
    let draft = RequestDraft::from_config(full_config(), None, false);
    assert_eq!(PairKind::Headers.pairs(&draft), pairs(&[("Accept", "application/json")]));
    assert_eq!(PairKind::Query.pairs(&draft), pairs(&[("page", "2")]));

    let mut draft = draft;
    PairKind::Query.apply(&mut draft, &pairs(&[("q", "x")])).unwrap();
    assert_eq!(draft.query.get("q").unwrap(), "x");
    assert_eq!(draft.headers.get("Accept").unwrap(), "application/json");
}

#[test]
fn rows_come_back_in_a_stable_order() {
    let mut draft = RequestDraft::blank();
    apply_query(&mut draft, &pairs(&[("zeta", "1"), ("alpha", "2"), ("mid", "3")])).unwrap();
    let names: Vec<String> =
        PairKind::Query.pairs(&draft).into_iter().map(|(k, _)| k).collect();
    assert_eq!(names, vec!["alpha", "mid", "zeta"]);
}

#[test]
fn tab_walks_every_field_and_action_row() {
    let draft = RequestDraft::blank();
    assert_eq!(draft.rows(), draft.fields.len() + 4);

    let targets: Vec<Focus> = (0..draft.rows())
        .map(|i| {
            let mut d = draft.clone();
            d.focused = i;
            d.focus_target()
        })
        .collect();

    assert_eq!(
        targets,
        vec![
            Focus::Field(0),
            Focus::Field(1),
            Focus::Field(2),
            Focus::Field(3),
            Focus::Global,
            Focus::Headers,
            Focus::Query,
            Focus::Profiles,
        ]
    );
}

const BODY: &str = "alpha\nBETA line\ngamma\nbeta again\ndelta";

#[test]
fn an_empty_filter_shows_every_line() {
    assert_eq!(visible_response_lines(BODY, "").len(), 5);
}

#[test]
fn filtering_is_case_insensitive_and_by_substring() {
    assert_eq!(
        visible_response_lines(BODY, "beta"),
        vec!["BETA line", "beta again"]
    );
}

#[test]
fn a_filtered_copy_is_only_the_visible_lines() {
    let copied = visible_response_lines(BODY, "beta").join("\n");
    assert_eq!(copied, "BETA line\nbeta again");
    assert!(!copied.contains("alpha"));
}

#[test]
fn with_no_anchor_the_range_is_the_cursor_line_alone() {
    assert_eq!(selection_range(3, None), (3, 3));
}

#[test]
fn a_selection_dragged_upward_covers_the_same_lines_as_one_dragged_down() {
    assert_eq!(selection_range(1, Some(4)), (1, 4));
    assert_eq!(selection_range(4, Some(1)), (1, 4));
}

#[test]
fn a_selection_is_inclusive_of_both_ends() {
    let lines = visible_response_lines(BODY, "");
    let (from, to) = selection_range(2, Some(1));
    assert_eq!(lines[from..=to], ["BETA line", "gamma"]);
}

fn profile(name: &str, params: &[(&str, &str)]) -> Profile {
    Profile {
        name: name.to_string(),
        params: vars(params),
    }
}

#[test]
fn a_new_profile_is_appended() {
    let mut profiles = vec![profile("dev", &[])];
    let at = upsert_profile(&mut profiles, profile("prod", &[("HOST", "api")]), None)
        .expect("no clash");
    assert_eq!(at, 1);
    assert_eq!(profiles.len(), 2);
    assert_eq!(profiles[1].name, "prod");
}

#[test]
fn editing_a_profile_replaces_it_rather_than_appending() {
    let mut profiles = vec![profile("dev", &[("TOKEN", "old")]), profile("prod", &[])];
    let at = upsert_profile(
        &mut profiles,
        profile("dev", &[("TOKEN", "new")]),
        Some(0),
    )
    .expect("keeping its own name is not a clash");

    assert_eq!(at, 0);
    assert_eq!(profiles.len(), 2, "no duplicate appended");
    assert_eq!(profiles[0].params.get("TOKEN").unwrap(), "new");
    assert_eq!(profiles[1].name, "prod", "the others are undisturbed");
}

#[test]
fn a_profile_can_be_renamed() {
    let mut profiles = vec![profile("dev", &[("HOST", "localhost")])];
    let at = upsert_profile(&mut profiles, profile("local", &[("HOST", "localhost")]), Some(0))
        .expect("no clash");
    assert_eq!(at, 0);
    assert_eq!(profiles.len(), 1);
    assert_eq!(profiles[0].name, "local");
}

#[test]
fn a_name_another_profile_already_has_is_refused() {
    let mut profiles = vec![profile("dev", &[]), profile("prod", &[])];

    let err = upsert_profile(&mut profiles, profile("prod", &[]), None)
        .expect_err("adding a second `prod`");
    assert!(err.contains("prod"), "the error names the profile: {err}");

    let err = upsert_profile(&mut profiles, profile("prod", &[]), Some(0))
        .expect_err("renaming `dev` onto `prod`");
    assert!(err.contains("prod"));

    assert_eq!(profiles.len(), 2, "nothing was written on either refusal");
    assert_eq!(profiles[0].name, "dev");
}

#[test]
fn an_out_of_range_edit_index_appends() {
    let mut profiles = vec![profile("dev", &[])];
    let at = upsert_profile(&mut profiles, profile("prod", &[]), Some(9)).expect("no clash");
    assert_eq!(at, 1);
    assert_eq!(profiles.len(), 2);
}

/// A step is asked about what only a later step produces.
#[test]
fn a_later_step_does_not_supply_an_earlier_one() {
    let needs = step("https://api/{{TOKEN}}");
    let mut makes = step("https://api/login");
    makes.extract = Some(vars(&[("TOKEN", "$.token")]));
    let names = chain_var_names(&vec![needs, makes]);
    assert_eq!(names, vec!["TOKEN".to_string()]);
    // Nor does a step supply itself.
    let mut own = step("https://api/{{TOKEN}}");
    own.extract = Some(vars(&[("TOKEN", "$.token")]));
    assert_eq!(chain_var_names(&vec![own]), vec!["TOKEN".to_string()]);
}

/// Names are filled in as values are, so what they hold is asked for too.
#[test]
fn placeholders_in_names_are_asked_for() {
    let mut s = step("https://api/");
    s.headers = vars(&[("X-{{KIND}}", "v")]);
    s.query = vars(&[("{{FIELD}}", "{{VALUE}}")]);
    assert_eq!(chain_var_names(&vec![s]), vec!["KIND".to_string(), "FIELD".to_string(), "VALUE".to_string()]);
}
