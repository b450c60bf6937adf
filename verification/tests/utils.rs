use ichigo::utils::format_response_headers;

fn map(pairs: &[(&str, &[u8])]) -> Vec<(String, Vec<u8>)> {
    pairs.iter().map(|(name, value)| (name.to_string(), value.to_vec())).collect()
}

#[test]
fn formats_one_line_per_header_sorted_by_name() {
    let headers = map(&[
        ("x-ratelimit-remaining", b"41"),
        ("content-type", b"application/json"),
        ("etag", b"\"abc\""),
    ]);
    assert_eq!(
        format_response_headers(&headers),
        "content-type: application/json\netag: \"abc\"\nx-ratelimit-remaining: 41"
    );
}

#[test]
fn keeps_repeated_headers_in_arrival_order() {
    let headers = map(&[("set-cookie", b"a=1"), ("set-cookie", b"b=2")]);
    assert_eq!(format_response_headers(&headers), "set-cookie: a=1\nset-cookie: b=2");
}

#[test]
fn shows_a_non_utf8_value_lossily_rather_than_dropping_it() {
    let headers = map(&[("x-odd", &[0xff, 0xfe])]);
    assert_eq!(format_response_headers(&headers), "x-odd: \u{fffd}\u{fffd}");
}

#[test]
fn no_headers_is_the_empty_string() {
    assert_eq!(format_response_headers(&Vec::new()), "");
}
