use pk::tmux::{
    alias_to_session_name, attach_session, attach_session_interactive, build_launch_cmd_str,
    chosen_session, create_session, get_running_alias, has_running_session,
    launch_cmd_from_parts, session_name_to_alias, TmuxError, PROCESS_END_MESSAGE,
    TMUX_COMMAND, TMUX_SESSION_NAME_PREFIX,
};

const LS: &str = "pk_web: 1 windows (created Mon Jan  1 10:00:00 2024)\r\nother: 2 windows (created Mon Jan  1 10:00:00 2024)\npk_db: 1 windows (created Mon Jan  1 10:00:00 2024) (attached)\n";

#[test]
fn test_create_session() {
    let alias = "123";
    let path = "/home/user/test.sh";
    let args = create_session(alias, path).ok().unwrap();
    assert_eq!(
        args,
        vec![
            "new-session".to_string(),
            "-d".to_string(),
            "-s".to_string(),
            "pk_123".to_string(),
            format!(
                "cd /home/user && \"./test.sh\";\\echo -e \"\n{}\" && read",
                PROCESS_END_MESSAGE
            ),
        ]
    );
    assert_eq!(TMUX_COMMAND, "tmux");
}

#[test]
fn session_names() {
    assert_eq!(TMUX_SESSION_NAME_PREFIX, "pk_");
    assert_eq!(alias_to_session_name("123"), "pk_123");
    assert_eq!(session_name_to_alias("pk_123"), Some("123"));
    assert_eq!(session_name_to_alias("mypk_x"), Some("x"));
    assert_eq!(session_name_to_alias("pk_"), Some(""));
    assert_eq!(session_name_to_alias("other"), None);
    assert_eq!(session_name_to_alias(&alias_to_session_name("a:b")), Some("a:b"));
}

#[test]
fn launch_command() {
    assert_eq!(
        build_launch_cmd_str("/opt/tools/run.sh").ok().unwrap(),
        "cd /opt/tools && \"./run.sh\";\\echo -e \"\n[Process exited. Press Enter to close session...]\" && read"
    );
    assert_eq!(
        build_launch_cmd_str("run.sh").ok().unwrap(),
        "cd  && \"./run.sh\";\\echo -e \"\n[Process exited. Press Enter to close session...]\" && read"
    );
    assert_eq!(build_launch_cmd_str("/"), Err(TmuxError::InvalidPath("/".to_string())));
    assert_eq!(
        build_launch_cmd_str("/tmp/.."),
        Err(TmuxError::InvalidPath("/tmp/..".to_string()))
    );
    assert_eq!(
        launch_cmd_from_parts("p", Some("d".to_string()), None),
        Err(TmuxError::InvalidPath("p".to_string()))
    );
    assert_eq!(
        launch_cmd_from_parts("p", Some("d".to_string()), Some("f".to_string())).ok().unwrap(),
        "cd d && \"./f\";\\echo -e \"\n[Process exited. Press Enter to close session...]\" && read"
    );
}

#[test]
fn running_aliases_from_listing() {
    assert_eq!(
        get_running_alias(true, LS),
        Ok(vec!["web".to_string(), "db".to_string()])
    );
    assert_eq!(get_running_alias(true, ""), Ok(Vec::new()));
    assert_eq!(get_running_alias(true, "no colon pk_x\n"), Ok(Vec::new()));
    assert_eq!(get_running_alias(false, LS), Err(TmuxError::NoRunningSession));
    assert!(has_running_session(true, LS));
    assert!(!has_running_session(true, "other: 1 windows\n"));
    assert!(!has_running_session(false, LS));
}

#[test]
fn attach_needs_running_session() {
    assert_eq!(
        attach_session(true, LS, "web"),
        Ok(vec!["attach".to_string(), "-t".to_string(), "pk_web".to_string()])
    );
    assert_eq!(attach_session(false, LS, "web"), Err(TmuxError::NoSessionToAttach));
    assert_eq!(attach_session(true, "", "web"), Err(TmuxError::NoSessionToAttach));
}

#[test]
fn interactive_choice() {
    let one = vec!["web".to_string()];
    let three = vec!["a".to_string(), "b".to_string(), "c".to_string()];
    assert_eq!(attach_session_interactive(&one), Some("web".to_string()));
    assert_eq!(attach_session_interactive(&three), None);
    assert_eq!(attach_session_interactive(&Vec::new()), None);
    assert_eq!(chosen_session(&three, 1), "a".to_string());
    assert_eq!(chosen_session(&three, 2), "b".to_string());
    assert_eq!(chosen_session(&three, 3), "c".to_string());
    assert_eq!(chosen_session(&one, 1), "web".to_string());
}
