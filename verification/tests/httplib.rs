use fhc::httplib::{
    append_capped, assign_body_text, assign_response_data, attempts, capped_capacity, concurrency,
    fetch_attempt_url, filters_from_probes, probe_paths, probe_targets, record_fetch, redirect_limit,
    return_title_and_body, apply_title_and_body, ResponseData, ResponseHead, Writer, MAX_BODY_BYTES,
    SOFT_404_PROBE_LEN,
};
use fhc::structs::{HttpData, LibOptions, StatusFilter};

#[test]
fn concurrency_is_never_zero() {
    assert_eq!(concurrency(0, 10), 1);
    assert_eq!(concurrency(10, 0), 1);
    assert_eq!(concurrency(0, 0), 1);
}

#[test]
fn concurrency_never_exceeds_the_work_available() {
    assert_eq!(concurrency(50, 3), 3);
    assert_eq!(concurrency(3, 50), 3);
}

#[test]
fn a_host_is_always_tried_at_least_once() {
    assert_eq!(attempts(0), 1);
    assert_eq!(attempts(1), 1);
    assert_eq!(attempts(5), 5);
}

#[test]
fn a_title_is_lifted_out_of_the_document() {
    let mut data = HttpData::new("example.com".to_owned());
    return_title_and_body(
        &mut data,
        "<html><head><title>Hi</title></head><body>x</body></html>",
    );
    assert_eq!(data.title, "Hi");
    assert_eq!(data.body, "x");
}

#[test]
fn a_document_without_a_title_says_so_rather_than_guessing() {
    let mut data = HttpData::new("example.com".to_owned());
    return_title_and_body(&mut data, "<html><body>only a body</body></html>");
    assert_eq!(data.title, "NULL");
    assert_eq!(data.body, "only a body");
}

#[test]
fn what_is_not_found_reads_null() {
    let mut data = HttpData::new("h".to_owned());
    apply_title_and_body(&mut data, None, Some("b".to_owned()));
    assert_eq!(data.title, "NULL");
    assert_eq!(data.body, "b");
    apply_title_and_body(&mut data, Some("t".to_owned()), None);
    assert_eq!(data.title, "t");
    assert_eq!(data.body, "NULL");
}

#[test]
fn https_is_tried_before_http_in_every_round() {
    assert_eq!(fetch_attempt_url("a.b", 0, 0).as_deref(), Some("https://a.b"));
    assert_eq!(fetch_attempt_url("a.b", 0, 1).as_deref(), Some("http://a.b"));
    assert_eq!(fetch_attempt_url("a.b", 0, 2), None);
    let urls: Vec<String> = (0..7).filter_map(|n| fetch_attempt_url("h", 3, n)).collect();
    assert_eq!(urls, vec!["https://h", "http://h", "https://h", "http://h", "https://h", "http://h"]);
}

#[test]
fn room_for_a_body_is_capped() {
    assert_eq!(capped_capacity(None), 0);
    assert_eq!(capped_capacity(Some(10)), 10);
    assert_eq!(capped_capacity(Some(u64::MAX)), MAX_BODY_BYTES);
    assert_eq!(capped_capacity(Some(MAX_BODY_BYTES as u64 + 1)), MAX_BODY_BYTES);
}

#[test]
fn a_body_never_grows_past_the_cap() {
    let mut body = Vec::new();
    append_capped(&mut body, &[1, 2, 3]);
    assert_eq!(body, vec![1, 2, 3]);
    let big = vec![7u8; MAX_BODY_BYTES];
    append_capped(&mut body, &big);
    assert_eq!(body.len(), MAX_BODY_BYTES);
    assert_eq!(&body[..4], &[1, 2, 3, 7]);
    append_capped(&mut body, &[9]);
    assert_eq!(body.len(), MAX_BODY_BYTES);
    assert_eq!(body[MAX_BODY_BYTES - 1], 7);
}

fn options(collect_body: bool, return_filters: bool) -> LibOptions {
    LibOptions { collect_body, return_filters, ..LibOptions::default() }
}

#[test]
fn a_host_that_answers_is_active_unless_its_body_is_still_to_read() {
    let head = ResponseHead { scheme: "https".to_owned(), status: 301, url: "https://h/".to_owned() };
    let mut data = HttpData::new("h".to_owned());
    assert!(!record_fetch(&mut data, Some(&head), &options(false, false)));
    assert_eq!(data.http_status, "ACTIVE");
    assert_eq!(data.protocol, "https");
    assert_eq!(data.status_code, 301);
    assert_eq!(data.final_url, "https://h/");

    let mut data = HttpData::new("h".to_owned());
    assert!(record_fetch(&mut data, Some(&head), &options(true, false)));
    assert_eq!(data.http_status, "");
    let mut data = HttpData::new("h".to_owned());
    assert!(record_fetch(&mut data, Some(&head), &options(false, true)));
}

#[test]
fn a_host_that_does_not_answer_is_inactive() {
    let mut data = HttpData::new("h".to_owned());
    assert!(!record_fetch(&mut data, None, &options(true, true)));
    assert_eq!(data.http_status, "INACTIVE");
    assert_eq!(data.final_url, "");
    assert_eq!(data.status_code, 0);
}

#[test]
fn a_body_is_read_into_the_record() {
    let mut data = HttpData::new("example.com".to_owned());
    let response = ResponseData {
        host: Some("www.example.com".to_owned()),
        content_type: Some("text/html".to_owned()),
        content_length: None,
        headers: "{\"a\": \"b\"}".to_owned(),
        body: b"<html><head><title>T</title></head><body>one two\nthree</body></html>".to_vec(),
    };
    let probe = assign_response_data(&mut data, &response, &options(true, false));
    assert_eq!(probe, None);
    assert_eq!(data.http_status, "ACTIVE");
    assert_eq!(data.content_type, "text/html");
    assert_eq!(data.headers, "{\"a\": \"b\"}");
    assert_eq!(data.content_length, response.body.len() as u64);
    assert_eq!(data.title, "T");
    assert_eq!(data.body, "one two\nthree");
    assert_eq!(data.words_count, 3);
    assert_eq!(data.lines, 3);
    assert!(data.points_to_another_host);
}

#[test]
fn a_declared_length_wins_over_the_bytes_read() {
    let mut data = HttpData::new("h".to_owned());
    let response = ResponseData {
        host: Some("h".to_owned()),
        content_type: None,
        content_length: Some("5000".to_owned()),
        headers: String::new(),
        body: vec![0xff, b'a'],
    };
    let probe = assign_response_data(&mut data, &response, &options(false, true));
    assert_eq!(probe.as_deref(), Some("h"));
    assert_eq!(data.content_length, 5000);
    assert_eq!(data.content_type, "");
    assert!(!data.points_to_another_host);
    assert_eq!(data.words_count, 1);
    assert_eq!(data.lines, 2);
    assert_eq!(data.title, "NULL");
}

#[test]
fn an_unreadable_length_falls_back_to_the_bytes_read() {
    let mut data = HttpData::new("h".to_owned());
    let response = ResponseData {
        host: None,
        content_type: None,
        content_length: Some("12 ".to_owned()),
        headers: String::new(),
        body: b"abc".to_vec(),
    };
    let probe = assign_response_data(&mut data, &response, &options(false, true));
    assert_eq!(probe.as_deref(), Some(""));
    assert_eq!(data.content_length, 3);
    assert!(data.points_to_another_host);
}

#[test]
fn lines_count_one_more_than_the_text_holds() {
    let mut data = HttpData::new("h".to_owned());
    assign_body_text(&mut data, "");
    assert_eq!((data.words_count, data.lines), (0, 1));
    assign_body_text(&mut data, "a b\n");
    assert_eq!((data.words_count, data.lines), (2, 2));
}

fn answered(host: &str, url: &str, status: u16) -> HttpData {
    HttpData {
        checked_host: host.to_owned(),
        final_url: url.to_owned(),
        protocol: "https".to_owned(),
        status_code: status,
        ..HttpData::default()
    }
}

#[test]
fn only_confirmed_hosts_that_pass_the_filter_are_reported() {
    let writer = Writer { print_results: true, show_full_data: false };
    let all = StatusFilter::new(None, None);
    assert_eq!(writer.report(&answered("h", "https://h/", 200), &all).as_deref(), Some("https://h"));
    assert_eq!(writer.report(&answered("h", "", 200), &all), None);
    let no_404 = StatusFilter::new(None, Some("404"));
    assert_eq!(writer.report(&answered("h", "https://h/", 404), &no_404), None);
    let quiet = Writer { print_results: false, show_full_data: false };
    assert_eq!(quiet.report(&answered("h", "https://h/", 200), &all), None);
}

#[test]
fn full_data_reports_host_url_and_status() {
    let writer = Writer { print_results: true, show_full_data: true };
    let all = StatusFilter::new(None, None);
    assert_eq!(
        writer.report(&answered("h", "https://h/x", 301), &all).as_deref(),
        Some("h,[https://h/x],[301]"),
    );
}

#[test]
fn a_writer_follows_the_options() {
    let options = LibOptions { print_results: true, show_full_data: true, ..LibOptions::default() };
    let writer = Writer::new(&options);
    assert!(writer.print_results && writer.show_full_data);
}

#[test]
fn no_redirects_means_no_policy_to_follow() {
    assert_eq!(redirect_limit(0), None);
    assert_eq!(redirect_limit(5), Some(5));
}

#[test]
fn four_distinct_probes_are_asked_of_a_host() {
    let paths = probe_paths("h.com", "XYZ");
    assert_eq!(paths, vec!["h.com/adminXYZ/", "h.com/.htaccessXYZ", "h.com/XYZ/", "h.com/XYZ"]);
}

#[test]
fn probes_carry_a_fresh_alphanumeric_label() {
    let paths = probe_targets("h.com");
    assert_eq!(paths.len(), 4);
    let label = &paths[3]["h.com/".len()..];
    assert_eq!(label.len(), SOFT_404_PROBE_LEN);
    assert!(label.chars().all(|c| c.is_ascii_alphanumeric()));
    assert_eq!(paths[0], format!("h.com/admin{label}/"));
    assert_eq!(paths[1], format!("h.com/.htaccess{label}"));
    assert_eq!(paths[2], format!("h.com/{label}/"));
}

#[test]
fn probe_answers_become_fingerprints() {
    let mut first = HttpData::new("a".to_owned());
    first.content_length = 1234;
    first.words_count = 5;
    first.lines = 2;
    let mut second = HttpData::new("b".to_owned());
    second.content_length = 0;
    second.words_count = 10;
    second.lines = 1;
    let filters = filters_from_probes(&vec![first, second]);
    assert_eq!(filters.bad_http_lengths, vec!["1234", "0"]);
    assert_eq!(filters.bad_words_numbers, vec!["5", "10"]);
    assert_eq!(filters.bad_lines_numbers, vec!["2", "1"]);
}

#[test]
fn probe_runs_use_one_agent_and_fixed_settings() {
    let options = LibOptions {
        user_agents: vec!["x".to_owned(), "y".to_owned()],
        retries: 9,
        threads: 99,
        print_results: true,
        return_filters: true,
        filter_codes: Some("200".to_owned()),
        ..LibOptions::default()
    };
    let probes: std::collections::HashSet<String> = ["p/1".to_owned()].into_iter().collect();
    let probe = fhc::httplib::probe_options(&options, probes.clone());
    assert_eq!(probe.hosts, probes);
    assert_eq!(probe.user_agents.len(), 1);
    assert!(probe.user_agents[0] == "x" || probe.user_agents[0] == "y");
    assert_eq!((probe.retries, probe.threads), (1, 4));
    assert!(probe.collect_body && !probe.return_filters && !probe.print_results && probe.quiet_flag);
    assert!(probe.filter_codes.is_none() && probe.exclude_codes.is_none() && !probe.show_full_data);
}

#[test]
fn the_declared_length_never_changes_what_is_kept() {
    let chunks: Vec<Vec<u8>> = vec![vec![1; 700_000], vec![2; 700_000], vec![3; 10]];
    let mut bodies = Vec::new();
    for declared in [None, Some(0), Some(5), Some(u64::MAX)] {
        let mut body = fhc::httplib::start_body(declared);
        let mut asked = 0;
        for chunk in &chunks {
            if !fhc::httplib::wants_more(&body) {
                break;
            }
            asked += 1;
            append_capped(&mut body, chunk);
        }
        assert_eq!(asked, 2, "no chunk is asked for once the body is full");
        bodies.push(body);
    }
    assert_eq!(bodies[0].len(), MAX_BODY_BYTES);
    assert!(bodies.iter().all(|body| *body == bodies[0]));
    assert_eq!(bodies[0][699_999], 1);
    assert_eq!(bodies[0][700_000], 2);
}

#[test]
fn a_valid_utf8_body_is_counted_as_written() {
    let mut data = HttpData::new("h".to_owned());
    let response = ResponseData {
        host: None,
        content_type: None,
        content_length: None,
        headers: String::new(),
        body: "héllo wörld\n".as_bytes().to_vec(),
    };
    assign_response_data(&mut data, &response, &options(false, false));
    assert_eq!((data.words_count, data.lines), (2, 2));
    assert_eq!(data.content_length, 14);
}
