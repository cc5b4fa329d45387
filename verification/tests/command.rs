use spin::command::{
    is_root, is_root_id, nix_output, run_command, run_nix, run_nix_streaming, run_privileged,
    run_privileged_streaming, run_streaming, spawn_failure, write_privileged, write_result,
    Invocation, Outcome, WriteOutcome,
};

fn strings(parts: &[&str]) -> Vec<String> {
    parts.iter().map(|p| p.to_string()).collect()
}

fn invocation(program: &str, args: &[&str], env: &[(&str, &str)]) -> Invocation {
    Invocation {
        program: program.to_string(),
        args: strings(args),
        env: env.iter().map(|(k, v)| (k.to_string(), v.to_string())).collect(),
    }
}

#[test]
fn root_runs_programs_directly() {
    let args = strings(&["switch", "--upgrade"]);
    let plain = invocation("nixos-rebuild", &["switch", "--upgrade"], &[]);
    assert_eq!(run_privileged(true, "nixos-rebuild", &args), plain);
    assert_eq!(run_privileged_streaming(true, "nixos-rebuild", &args), plain);
    assert_eq!(run_streaming("nixos-rebuild", &args), plain);
}

#[test]
fn other_users_run_programs_through_sudo() {
    let args = strings(&["--update"]);
    let sudo = invocation("sudo", &["nix-channel", "--update"], &[]);
    assert_eq!(run_privileged(false, "nix-channel", &args), sudo);
    assert_eq!(run_privileged_streaming(false, "nix-channel", &args), sudo);
    assert_eq!(run_privileged(false, "id", &[]), invocation("sudo", &["id"], &[]));
}

#[test]
fn nix_gets_its_features_and_its_environment() {
    let args = strings(&["profile", "list"]);
    let expected = invocation(
        "nix",
        &["--extra-experimental-features", "nix-command flakes", "profile", "list"],
        &[("NIXPKGS_ALLOW_UNFREE", "1")],
    );
    assert_eq!(run_nix(&args), expected);
    assert_eq!(run_nix_streaming(&args), expected);
}

#[test]
fn files_are_written_through_tee() {
    assert_eq!(
        write_privileged(true, "/etc/nixos/packages.conf"),
        invocation("sh", &["-c", "tee /etc/nixos/packages.conf > /dev/null"], &[])
    );
    assert_eq!(
        write_privileged(false, "/tmp/x"),
        invocation("sh", &["-c", "sudo tee /tmp/x > /dev/null"], &[])
    );
}

#[test]
fn outcomes_are_reported() {
    assert_eq!(run_command("sudo", &Outcome::Success), (true, None));
    assert_eq!(
        run_command("sudo", &Outcome::Failure("exit status: 1".to_string())),
        (false, Some("[spin] 'sudo' exited with exit status: 1".to_string()))
    );
    assert_eq!(
        run_command("nix-channel", &Outcome::NotStarted("not found".to_string())),
        (false, Some("[spin] Failed to run 'nix-channel': not found".to_string()))
    );
    assert_eq!(spawn_failure("nix", "gone"), "[spin] Failed to run 'nix': gone");
}

#[test]
fn failed_writes_are_errors() {
    assert_eq!(write_result("/p", &WriteOutcome::Written), Ok(()));
    assert_eq!(
        write_result("/p", &WriteOutcome::Broken("broken pipe".to_string())),
        Err("Cannot write /p: broken pipe".to_string())
    );
    assert_eq!(
        write_result("/p", &WriteOutcome::Lost("no child".to_string())),
        Err("no child".to_string())
    );
    assert_eq!(
        write_result("/p", &WriteOutcome::Refused),
        Err("Cannot write /p (permission denied?)".to_string())
    );
}

#[test]
fn output_is_decoded_with_replacements() {
    assert_eq!(nix_output(&None), None);
    assert_eq!(nix_output(&Some(Vec::new())), Some(String::new()));
    assert_eq!(nix_output(&Some("Größe".as_bytes().to_vec())), Some("Größe".to_string()));
    assert_eq!(nix_output(&Some(vec![b'a', 0xff, b'b'])), Some("a\u{fffd}b".to_string()));
}

#[test]
fn root_has_the_user_id_zero() {
    assert!(is_root(&Some(b"0\n".to_vec())));
    assert!(is_root(&Some(b" 0 ".to_vec())));
    assert!(!is_root(&Some(b"1000\n".to_vec())));
    assert!(!is_root(&Some(b"00\n".to_vec())));
    assert!(!is_root(&Some(vec![0xff, b'0'])));
    assert!(!is_root(&Some(Vec::new())));
    assert!(!is_root(&None));
    assert!(is_root_id("0\n"));
    assert!(!is_root_id("0 0"));
}
