use agentd::env::{
    choose_env_file, context_event_limit, default_agentd_home, default_database_url,
    default_env_path, default_socket_path, node_timeout_secs, parse_env_assignment, parse_number,
    plan_env, remove_stale_socket, strip_env_quotes, SocketPath,
};

fn text(s: &str) -> String {
    s.to_string()
}

fn bytes(s: &str) -> Vec<u8> {
    s.as_bytes().to_vec()
}

#[test]
fn parses_env_assignments() {
    assert_eq!(
        parse_env_assignment("AGENTD_SOCKET_PATH=/tmp/agentd.sock"),
        Some((
            "AGENTD_SOCKET_PATH".to_string(),
            "/tmp/agentd.sock".to_string()
        ))
    );
    assert_eq!(
        parse_env_assignment("export RUST_LOG=\"agentd=debug\""),
        Some(("RUST_LOG".to_string(), "agentd=debug".to_string()))
    );
    assert_eq!(
        parse_env_assignment("DEEPSEEK_MODEL='deepseek-v4-flash'"),
        Some((
            "DEEPSEEK_MODEL".to_string(),
            "deepseek-v4-flash".to_string()
        ))
    );
}

#[test]
fn ignores_non_assignments_and_invalid_keys() {
    assert_eq!(parse_env_assignment(""), None);
    assert_eq!(parse_env_assignment("# comment"), None);
    assert_eq!(parse_env_assignment("1BAD=value"), None);
    assert_eq!(parse_env_assignment("BAD-KEY=value"), None);
    assert_eq!(parse_env_assignment("NO_VALUE"), None);
}

#[test]
fn process_environment_overrides_env_file_values() {
    let key = "AGENTD_TEST_OVERRIDE_1";
    let contents = format!("{key}=from-file\n");

    let plan = plan_env(&contents, &vec![text(key)]);
    assert!(plan.assignments.is_empty());
    assert_eq!(plan.bad_line, None);

    let plan = plan_env(&contents, &vec![text("OTHER")]);
    assert_eq!(plan.assignments, vec![(text(key), text("from-file"))]);
}

#[test]
fn assignments_keep_inner_equals_signs_and_white_space() {
    assert_eq!(
        parse_env_assignment("  export  KEY = a = b \r"),
        Some((text("KEY"), text("a = b")))
    );
    assert_eq!(parse_env_assignment("KEY="), Some((text("KEY"), text(""))));
    assert_eq!(parse_env_assignment("=value"), None);
    assert_eq!(
        parse_env_assignment("\u{a0}_k9='\u{e9}'\u{3000}"),
        Some((text("_k9"), text("\u{e9}")))
    );
    assert_eq!(parse_env_assignment("cl\u{e9}=x"), None);
}

#[test]
fn quotes_go_only_in_pairs() {
    assert_eq!(strip_env_quotes("\"a\""), "a");
    assert_eq!(strip_env_quotes("'a'"), "a");
    assert_eq!(strip_env_quotes("\"a'"), "\"a'");
    assert_eq!(strip_env_quotes("\""), "\"");
    assert_eq!(strip_env_quotes("''"), "");
    assert_eq!(strip_env_quotes("'\u{1f600}'"), "\u{1f600}");
}

#[test]
fn first_assignment_in_a_file_wins() {
    let plan = plan_env("A=1\n# note\nB=2\r\nA=3\n", &vec![]);
    assert_eq!(
        plan.assignments,
        vec![(text("A"), text("1")), (text("B"), text("2"))]
    );
    assert_eq!(plan.bad_line, None);
}

#[test]
fn a_nul_stops_the_file_at_its_line() {
    let plan = plan_env("A=1\n\nB=x\0y\nC=3", &vec![]);
    assert_eq!(plan.assignments, vec![(text("A"), text("1"))]);
    assert_eq!(plan.bad_line, Some(3));
}

#[test]
fn numbers_are_read_as_integers_are() {
    assert_eq!(parse_number("0", 10), Some(0));
    assert_eq!(parse_number("+7", 10), Some(7));
    assert_eq!(parse_number("007", 10), Some(7));
    assert_eq!(parse_number("11", 10), None);
    assert_eq!(parse_number("", 10), None);
    assert_eq!(parse_number("+", 10), None);
    assert_eq!(parse_number("-1", 10), None);
    assert_eq!(parse_number(" 1", 10), None);
    assert_eq!(
        parse_number("18446744073709551615", u64::MAX),
        Some(u64::MAX)
    );
    assert_eq!(parse_number("18446744073709551616", u64::MAX), None);
}

#[test]
fn settings_fall_back_to_their_defaults() {
    assert_eq!(node_timeout_secs(None), 300);
    assert_eq!(node_timeout_secs(Some("12")), 12);
    assert_eq!(node_timeout_secs(Some("soon")), 300);
    assert_eq!(context_event_limit(None), 50);
    assert_eq!(context_event_limit(Some("4294967295")), u32::MAX);
    assert_eq!(context_event_limit(Some("4294967296")), 50);
}

#[test]
fn state_lives_below_the_home_directory() {
    let home = default_agentd_home(None, Some(bytes("/home/me"))).unwrap();
    assert_eq!(home, bytes("/home/me/.agentd"));
    assert_eq!(
        default_agentd_home(Some(bytes("/srv/")), Some(bytes("/home/me"))).unwrap(),
        bytes("/srv/")
    );
    assert_eq!(
        default_agentd_home(None, Some(bytes(""))).unwrap(),
        bytes(".agentd")
    );
    assert_eq!(
        default_agentd_home(None, None).unwrap_err(),
        "HOME is not set; set AGENTD_DATABASE_URL or AGENTD_HOME"
    );
    assert_eq!(
        default_database_url("/home/me/.agentd"),
        "sqlite:///home/me/.agentd/agent_state.db"
    );
    assert_eq!(
        default_database_url("/srv/"),
        "sqlite:///srv/agent_state.db"
    );
    assert_eq!(
        default_socket_path(&bytes("/srv/")),
        bytes("/srv/agentd.sock")
    );
    assert_eq!(default_env_path(&home), bytes("/home/me/.agentd/.env"));
}

#[test]
fn paths_need_not_be_text() {
    let home = default_agentd_home(None, Some(vec![47, 255, 104])).unwrap();
    assert_eq!(home, [&[47, 255, 104][..], b"/.agentd"].concat());
    assert_eq!(
        default_socket_path(&home),
        [&[47, 255, 104][..], b"/.agentd/agentd.sock"].concat()
    );
    assert_eq!(
        choose_env_file(
            Some(vec![255]),
            "\u{fffd}",
            false,
            Ok(home.clone()),
            true,
            true
        ),
        Err(text("AGENTD_ENV_FILE does not exist: \u{fffd}"))
    );
    assert_eq!(
        choose_env_file(None, "", false, Ok(home.clone()), true, true),
        Ok(Some(home))
    );
}

#[test]
fn the_env_file_is_chosen_in_order() {
    assert_eq!(
        choose_env_file(Some(bytes("/x")), "/x", true, Ok(bytes("/d")), true, true),
        Ok(Some(bytes("/x")))
    );
    assert_eq!(
        choose_env_file(Some(bytes("/x")), "/x", false, Ok(bytes("/d")), true, true),
        Err(text("AGENTD_ENV_FILE does not exist: /x"))
    );
    assert_eq!(
        choose_env_file(None, "", false, Ok(bytes("/d")), true, true),
        Ok(Some(bytes("/d")))
    );
    assert_eq!(
        choose_env_file(None, "", false, Ok(bytes("/d")), false, true),
        Ok(Some(bytes(".env")))
    );
    assert_eq!(
        choose_env_file(None, "", false, Ok(bytes("/d")), false, false),
        Ok(None)
    );
    assert_eq!(
        choose_env_file(None, "", false, Err(text("no home")), false, true),
        Err(text("no home"))
    );
}

#[test]
fn only_sockets_are_removed() {
    assert_eq!(remove_stale_socket(SocketPath::Socket, "/s"), Ok(true));
    assert_eq!(remove_stale_socket(SocketPath::Nothing, "/s"), Ok(false));
    assert_eq!(
        remove_stale_socket(SocketPath::Other, "/s"),
        Err(text(
            "refusing to remove non-socket path /s; choose another AGENTD_SOCKET_PATH"
        ))
    );
}
