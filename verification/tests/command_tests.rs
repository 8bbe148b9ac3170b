use pisi_center::command::{
    execute, CapturedOutput, CommandOutput, PackageManager, PisiError, RepositoryManager, Verb,
};

fn ok_output(stdout: &str) -> Result<CapturedOutput, String> {
    Ok(CapturedOutput {
        exit_ok: true,
        stdout: stdout.to_string(),
        stderr: String::new(),
    })
}

#[test]
fn install_argument_vector() {
    let args = Verb::Install("vlc".to_string()).args();
    assert_eq!(args, vec!["install", "-y", "vlc"]);
}

#[test]
fn remove_and_update_argument_vectors() {
    assert_eq!(Verb::Remove("vlc".to_string()).args(), vec!["remove", "-y", "vlc"]);
    assert_eq!(Verb::Update("vlc".to_string()).args(), vec!["update", "-y", "vlc"]);
    assert_eq!(Verb::UpdateAll.args(), vec!["update", "-y"]);
    assert_eq!(Verb::Search("fire".to_string()).args(), vec!["search", "fire"]);
    assert_eq!(Verb::ListInstalled.args(), vec!["list-installed"]);
}

#[test]
fn repository_argument_vectors() {
    assert_eq!(
        Verb::AddRepo("Main".to_string(), "https://example.org/i.xml".to_string()).args(),
        vec!["add-repo", "Main", "https://example.org/i.xml"]
    );
    assert_eq!(Verb::RemoveRepo("Main".to_string()).args(), vec!["remove-repo", "Main"]);
    assert_eq!(Verb::EnableRepo("Main".to_string()).args(), vec!["enable-repo", "Main"]);
    assert_eq!(Verb::DisableRepo("Main".to_string()).args(), vec!["disable-repo", "Main"]);
    assert_eq!(Verb::UpdateRepositories.args(), vec!["update-repo"]);
    assert_eq!(Verb::ListRepositories.args(), vec!["list-repo"]);
}

#[test]
fn list_installed_takes_first_token_of_each_line() {
    let r = execute(&Verb::ListInstalled, ok_output("firefox 115.0\nvlc 3.0.18\n"));
    match r.unwrap() {
        CommandOutput::Names(names) => assert_eq!(names, vec!["firefox", "vlc"]),
        _ => panic!("expected a name list"),
    }
}

#[test]
fn list_installed_blank_line_yields_empty_name() {
    let r = execute(&Verb::ListInstalled, ok_output("firefox 115.0\n   \nvlc 3.0.18"));
    match r.unwrap() {
        CommandOutput::Names(names) => assert_eq!(names, vec!["firefox", "", "vlc"]),
        _ => panic!("expected a name list"),
    }
}

#[test]
fn search_trims_each_line() {
    let r = execute(&Verb::Search("f".to_string()), ok_output("  firefox \n\tvlc\n"));
    match r.unwrap() {
        CommandOutput::Names(names) => assert_eq!(names, vec!["firefox", "vlc"]),
        _ => panic!("expected a name list"),
    }
}

#[test]
fn search_drops_empty_lines() {
    let r = execute(&Verb::Search("f".to_string()), ok_output("alpha\n\nbeta\n"));
    match r.unwrap() {
        CommandOutput::Names(names) => assert_eq!(names, vec!["alpha", "beta"]),
        _ => panic!("expected a name list"),
    }
}

#[test]
fn search_keeps_whitespace_only_lines_trimmed() {
    // a line of blanks is a non-empty line; trimming leaves an empty name
    let names = PackageManager::parse_search_output("alpha\n \nbeta");
    assert_eq!(names, vec!["alpha", "", "beta"]);
}

#[test]
fn non_zero_exit_is_process_failure_with_stderr() {
    let spawn = Ok(CapturedOutput {
        exit_ok: false,
        stdout: "partial data".to_string(),
        stderr: "cannot acquire lock".to_string(),
    });
    let r = execute(&Verb::Install("vlc".to_string()), spawn);
    match r {
        Err(PisiError::ProcessFailure(msg)) => assert_eq!(msg, "cannot acquire lock"),
        _ => panic!("expected a process failure"),
    }
}

#[test]
fn failed_start_is_process_failure_with_message() {
    let r = execute(&Verb::UpdateAll, Err("no such file or directory".to_string()));
    match r {
        Err(PisiError::ProcessFailure(msg)) => assert_eq!(msg, "no such file or directory"),
        _ => panic!("expected a process failure"),
    }
}

#[test]
fn successful_action_verb_yields_done() {
    let r = execute(&Verb::Install("vlc".to_string()), ok_output("irrelevant chatter"));
    assert!(matches!(r.unwrap(), CommandOutput::Done));
}

#[test]
fn repo_list_skips_header_and_reads_two_columns() {
    let stdout = "Name     Status\nStable   enabled\nContrib  disabled\nDangling\n";
    let r = execute(&Verb::ListRepositories, ok_output(stdout));
    match r.unwrap() {
        CommandOutput::Repositories(rows) => {
            assert_eq!(rows.len(), 2);
            assert_eq!(rows[0].name, "Stable");
            assert!(rows[0].enabled);
            assert_eq!(rows[1].name, "Contrib");
            assert!(!rows[1].enabled);
        }
        _ => panic!("expected repository rows"),
    }
}

#[test]
fn repo_list_second_token_must_read_exactly_enabled() {
    let stdout = "header\nA Enabled\nB enabledX\nC enabled extra\n";
    let rows = RepositoryManager::parse_repo_list(stdout);
    assert_eq!(rows.len(), 3);
    assert!(!rows[0].enabled); // capitalised
    assert!(!rows[1].enabled); // longer word
    assert!(rows[2].enabled); // exact match; extra columns ignored
}

#[test]
fn parse_search_output_keeps_line_order() {
    let names = PackageManager::parse_search_output("b\na\nc");
    assert_eq!(names, vec!["b", "a", "c"]);
}

#[test]
fn parse_installed_output_of_empty_text_is_empty() {
    let names = PackageManager::parse_installed_output("");
    assert!(names.is_empty());
}
