use splash::clf::{parse_clf_line, render_clf};
use splash::highlight::{highlight_line, TokenHighlighter};
use splash::plugin::{ParseResult, Plugin};
use splash::render::{render_adhoc, render_contents};

const SAMPLE: &str =
    r#"127.0.0.1 - frank [10/Oct/2000:13:55:36 -0700] "GET /apache_pb.gif HTTP/1.0" 200 2326"#;

#[test]
fn test_clf_sample_line_fields() {
    let records = parse_clf_line(SAMPLE);
    assert_eq!(records.len(), 1);
    let record = &records[0];
    assert_eq!(record.client, "127.0.0.1");
    assert_eq!(record.user_identifier, "-");
    assert_eq!(record.userid, "frank");
    assert_eq!(record.datetime, "[10/Oct/2000:13:55:36 -0700]");
    assert_eq!(record.method, "GET");
    assert_eq!(record.request, "/apache_pb.gif");
    assert_eq!(record.protocol, "HTTP/1.0");
    assert_eq!(record.status, "200");
    assert_eq!(record.size, "2326");
}

#[test]
fn test_clf_empty_line_yields_no_record() {
    assert_eq!(parse_clf_line("").len(), 0);
}

#[test]
fn test_clf_missing_quoted_triple_yields_no_record() {
    let line = "127.0.0.1 - frank [10/Oct/2000:13:55:36 -0700] 200 2326";
    assert_eq!(parse_clf_line(line).len(), 0);
}

#[test]
fn test_clf_dash_size_accepted() {
    let line = r#"10.0.0.1 - - [01/Jan/2024:00:00:00 +0000] "POST /api HTTP/1.1" 404 -"#;
    let records = parse_clf_line(line);
    assert_eq!(records.len(), 1);
    assert_eq!(records[0].method, "POST");
    assert_eq!(records[0].status, "404");
    assert_eq!(records[0].size, "-");
}

#[test]
fn test_clf_render_keeps_fields() {
    let out = render_clf(SAMPLE);
    assert_eq!(out.len(), 1);
    assert!(out[0].contains("127.0.0.1"));
    assert!(out[0].contains("GET"));
    assert!(out[0].contains("200"));
    assert!(out[0].contains("2326"));
}

#[test]
fn test_clf_render_skips_unmatched_lines() {
    let contents = format!("not a log line\n\n{}\n", SAMPLE);
    let out = render_clf(&contents);
    assert_eq!(out.len(), 1);
}

#[test]
fn test_clf_two_matches_on_one_line() {
    let line = format!("{} {}", SAMPLE, SAMPLE);
    let records = parse_clf_line(&line);
    assert_eq!(records.len(), 2);
    assert_eq!(records[0].client, "127.0.0.1");
    assert_eq!(records[1].client, "127.0.0.1");
}

#[test]
fn test_clf_client_digits_not_range_checked() {
    let line = r#"999.999.999.999 - - [x] "GET / HTTP/1.0" 200 1"#;
    let records = parse_clf_line(line);
    assert_eq!(records.len(), 1);
    assert_eq!(records[0].client, "999.999.999.999");
}

#[test]
fn test_adhoc_plain_token_unchanged() {
    // A token that is neither all digits nor holds a dotted quad or an
    // HTTP verb passes through exactly as it is.
    assert_eq!(highlight_line("abc123"), "abc123");
}

#[test]
fn test_adhoc_preserves_literal_substrings() {
    let out = highlight_line("192.168.1.1 GET /api HTTP/1.1");
    assert!(out.contains("192.168.1.1"));
    assert!(out.contains("GET"));
    assert!(out.contains("HTTP/1.1"));
}

#[test]
fn test_ip_pattern_matching() {
    let input = "Connection from 192.168.1.100";
    let output = render_contents(input, "ad-hoc");
    assert_eq!(output.len(), 1);
    // Should highlight IP address
    assert!(
        output[0].contains("192.168.1.100"),
        "Should preserve IP address"
    );
}

#[test]
fn test_http_version_matching() {
    let input = "Request: HTTP/1.0";
    let output = render_contents(input, "ad-hoc");
    assert_eq!(output.len(), 1);
    assert!(output[0].contains("HTTP/1.0"), "Should preserve HTTP version");
}

#[test]
fn test_adhoc_skips_empty_lines() {
    let out = render_adhoc("one\n\n\ntwo\n");
    assert_eq!(out.len(), 2);
    assert!(out[0].contains("one"));
    assert!(out[1].contains("two"));
}

#[test]
fn test_adhoc_number_token_kept() {
    let out = render_adhoc("bytes 2326 sent");
    assert_eq!(out.len(), 1);
    assert!(out[0].contains("2326"));
}

#[test]
fn test_mode_dispatch() {
    // The structured mode drops a line that does not match the grammar;
    // the default mode renders it.
    let line = "plain words only";
    assert_eq!(render_contents(line, "clf").len(), 0);
    assert_eq!(render_contents(line, "ad-hoc").len(), 1);
    assert_eq!(render_contents(line, "anything-else").len(), 1);
}

#[test]
fn test_highlighter_plugin_parses_everything() {
    let plugin = TokenHighlighter::new();
    assert_eq!(plugin.name(), "ad-hoc");
    match plugin.parse_line("quotes \"here\" and [brackets]") {
        ParseResult::Parsed(text) => {
            assert!(text.contains("here"));
            assert!(text.contains("and"));
        }
        _ => panic!("highlighter accepts every line"),
    }
}

#[test]
fn test_clf_plugin_accepts_only_matching_lines() {
    let plugin = splash::clf::ClfPlugin::new();
    assert_eq!(plugin.name(), "clf");
    assert!(plugin.can_parse(SAMPLE));
    assert!(!plugin.can_parse("not a log line"));
}

#[test]
fn test_clf_plugin_payload_carries_rendered_fields() {
    let plugin = splash::clf::ClfPlugin::new();
    match plugin.parse_line(SAMPLE) {
        ParseResult::Parsed(text) => {
            assert!(text.contains("127.0.0.1"));
            assert!(text.contains("frank"));
            assert!(text.contains("GET"));
            assert!(text.contains("2326"));
        }
        _ => panic!("the sample line has a structured match"),
    }
}
