use fhc::utils::{agent_or_empty, host_lines, require_hosts, return_random_user_agent, run_header, user_agents, USER_AGENTS};

#[test]
fn the_owned_list_matches_the_static_one() {
    let owned = user_agents();
    assert_eq!(owned.len(), USER_AGENTS.len());
    assert!(!owned.is_empty());
    assert_eq!(owned[0], USER_AGENTS[0]);
}

#[test]
fn a_chosen_agent_comes_from_the_list() {
    let agents = user_agents();
    for _ in 0..32 {
        let chosen = return_random_user_agent(&agents);
        assert!(agents.iter().any(|agent| agent == chosen));
    }
}

#[test]
fn an_empty_list_yields_an_empty_agent_rather_than_panicking() {
    assert_eq!(return_random_user_agent(&[]), "");
}

#[test]
fn every_built_in_agent_is_copied_in_order() {
    let owned = user_agents();
    for (copy, built_in) in owned.iter().zip(USER_AGENTS.iter()) {
        assert_eq!(copy, built_in);
    }
    assert_eq!(owned[27], "Mozilla/5.0 (X11; Linux x86_64) AppleWebKit/537.36 (KHTML, like Gecko) Chrome/90.0.4430.93 Safari/537.36");
}

#[test]
fn a_single_agent_is_always_the_one_chosen() {
    let agents = vec!["only".to_owned()];
    assert_eq!(return_random_user_agent(&agents), "only");
}

#[test]
fn the_agent_given_is_the_agent_chosen() {
    let agent = "someone".to_owned();
    assert_eq!(agent_or_empty(Some(&agent)), "someone");
    assert_eq!(agent_or_empty(None), "");
}

#[test]
fn hosts_are_read_one_per_line_trimmed() {
    let hosts = host_lines("  a.com \r\n\n\t\nb.org\nc.net", None);
    assert_eq!(hosts, vec!["a.com".to_owned(), "b.org".to_owned(), "c.net".to_owned()]);
}

#[test]
fn labels_are_joined_to_the_domain() {
    let hosts = host_lines("www\n  mail \n\n", Some("example.com"));
    assert_eq!(hosts, vec!["www.example.com".to_owned(), "mail.example.com".to_owned()]);
}

#[test]
fn blank_input_names_no_host() {
    assert!(host_lines("", None).is_empty());
    assert!(host_lines(" \n\u{2003}\r\n", Some("x.org")).is_empty());
}

#[test]
fn repeated_hosts_stay_in_the_list() {
    let hosts = host_lines("a\na\n", None);
    assert_eq!(hosts, vec!["a".to_owned(), "a".to_owned()]);
}

#[test]
fn a_header_is_printed_only_for_full_data_when_not_quiet() {
    assert_eq!(run_header(false, true).as_deref(), Some("DOMAIN,[FINAL_URL],[STATUS_CODE]"));
    assert_eq!(run_header(true, true), None);
    assert_eq!(run_header(false, false), None);
    assert_eq!(run_header(true, false), None);
}

#[test]
fn a_run_without_hosts_is_refused() {
    let none = std::collections::HashSet::new();
    assert_eq!(require_hosts(&none), Err("No hosts to check.".to_owned()));
    let some: std::collections::HashSet<String> = ["a".to_owned()].into_iter().collect();
    assert_eq!(require_hosts(&some), Ok(()));
}
