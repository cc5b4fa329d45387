use spin::conf::write_conf;
use spin::reply::{interpret, is_awaited, resume, Reply};
use spin::request::{Effect, Event, Output, Request, State, Step};
use spin::session::{advance, begin};

fn strings(parts: &[&str]) -> Vec<String> {
    parts.iter().map(|p| p.to_string()).collect()
}

fn request() -> Request {
    Request {
        profile: false,
        temp: false,
        font: false,
        sync: false,
        upgrade: false,
        clean: false,
        all: false,
        install: Vec::new(),
        remove: Vec::new(),
        search: Vec::new(),
    }
}

fn install(names: &[&str]) -> Request {
    Request { install: strings(names), ..request() }
}

fn remove(names: &[&str]) -> Request {
    Request { remove: strings(names), ..request() }
}

fn line(s: &str) -> Output {
    Output::Line(s.to_string())
}

fn error(s: &str) -> Output {
    Output::Error(s.to_string())
}

fn printed(s: &str) -> Reply {
    Reply::Printed(Some(s.as_bytes().to_vec()))
}

fn read(s: &str) -> Reply {
    Reply::Read(Ok(s.to_string()))
}

fn config() -> Reply {
    Reply::Config(Some("{ imports = [ ./packages.conf ]; }".to_string()))
}

fn existence(names: &[&str]) -> Effect {
    let list: Vec<String> = names.iter().map(|n| format!("\"{}\"", n)).collect();
    Effect::NixOutput {
        args: vec![
            "eval".to_string(),
            "--impure".to_string(),
            "--json".to_string(),
            "--expr".to_string(),
            format!(
                "let pkgs = import <nixpkgs> {{ }}; lib = pkgs.lib; names = [ {} ]; \
                 in builtins.listToAttrs (map (n: {{ name = n; \
                 value = lib.hasAttrByPath (lib.splitString \".\" n) pkgs; }}) names)",
                list.join(" ")
            ),
        ],
    }
}

fn names_of_nixpkgs() -> Effect {
    Effect::NixOutput {
        args: strings(&[
            "eval",
            "--impure",
            "--json",
            "--expr",
            "builtins.attrNames (import <nixpkgs> { })",
        ]),
    }
}

fn write(packages: &[&str], fonts: &[&str]) -> Effect {
    Effect::WritePackages { content: write_conf(&strings(packages), &strings(fonts)) }
}

fn switch(args: &[&str]) -> Effect {
    Effect::PrivilegedStreaming { program: "nixos-rebuild".to_string(), args: strings(args) }
}

fn exit(success: bool) -> Effect {
    Effect::Exit { success }
}

/// Runs a session and returns its steps.
fn run(request: Request, replies: Vec<Reply>) -> Vec<(Vec<Output>, Effect)> {
    let mut step = begin(request);
    let mut steps = Vec::new();
    for reply in replies {
        let Step { output, effect, state } = step;
        steps.push((output, effect));
        assert!(is_awaited(&state, &reply), "{:?} in {:?}", reply, state);
        step = resume(state, reply);
    }
    if matches!(step.effect, Effect::Exit { .. }) {
        assert_eq!(step.state, State::Finished);
        assert!(!is_awaited(&step.state, &Reply::Done(true)));
    }
    steps.push((step.output, step.effect));
    steps
}

/// The last step of a session.
fn last(request: Request, replies: Vec<Reply>) -> (Vec<Output>, Effect) {
    run(request, replies).pop().unwrap()
}

#[test]
fn nothing_asked_for_ends_at_once() {
    assert_eq!(run(request(), vec![]), vec![(vec![], exit(true))]);
}

#[test]
fn channels_are_updated_first() {
    let sync = || Request { sync: true, ..request() };
    let first = (
        vec![line("[spin] Syncing package list (updating Nix channels)...")],
        Effect::Privileged { program: "nix-channel".to_string(), args: strings(&["--update"]) },
    );
    let steps = run(sync(), vec![Reply::Done(true)]);
    assert_eq!(steps, vec![first, (vec![], exit(true))]);
    assert_eq!(last(sync(), vec![Reply::Done(false)]), (vec![], exit(false)));
    let upgrade = Request { upgrade: true, ..sync() };
    assert_eq!(
        last(upgrade, vec![Reply::Done(true)]),
        (vec![], switch(&["switch", "--upgrade"]))
    );
}

#[test]
fn a_search_prints_what_was_found() {
    let search = Request { search: strings(&["git", "zz"]), ..request() };
    let json = "{\"x.git\": {\"pname\": \"git\", \"version\": \"2\", \"description\": \"scm\"}}";
    assert_eq!(
        run(search, vec![printed(json)]),
        vec![
            (
                vec![Output::Part("[spin] Searching nixpkgs for git, zz... ".to_string())],
                Effect::NixOutput {
                    args: strings(&[
                        "search",
                        "--no-update-lock-file",
                        "--json",
                        "nixpkgs",
                        "git|zz",
                    ]),
                }
            ),
            (
                vec![
                    line(""),
                    line("Results for 'git':"),
                    line("  git (2)  —  scm"),
                    line(""),
                    line("No results for 'zz'."),
                    line(""),
                ],
                exit(true)
            ),
        ]
    );
}

#[test]
fn a_search_without_an_answer_finds_nothing() {
    let search = || Request { search: strings(&["git"]), clean: true, ..request() };
    let nothing = (vec![line(""), line("No results for 'git'."), line("")], exit(true));
    assert_eq!(last(search(), vec![Reply::Printed(None)]), nothing);
    assert_eq!(last(search(), vec![printed("no JSON")]), nothing);
}

#[test]
fn cleaning_deletes_generations_and_updates_the_bootloader() {
    let clean = |all: bool| Request { clean: true, all, temp: true, ..request() };
    let collect = |args: &[&str]| {
        (
            vec![line("[spin] Deleting old generations...")],
            Effect::PrivilegedStreaming {
                program: "nix-collect-garbage".to_string(),
                args: strings(args),
            },
        )
    };
    assert_eq!(
        run(clean(false), vec![Reply::Done(true), Reply::Done(true)]),
        vec![
            collect(&["--delete-older-than", "7d"]),
            (vec![line("[spin] Updating bootloader...")], switch(&["boot"])),
            (vec![], exit(true)),
        ]
    );
    assert_eq!(run(clean(true), vec![])[0], collect(&["--delete-old"]));
    assert_eq!(last(clean(true), vec![Reply::Done(false)]), (vec![], exit(false)));
    assert_eq!(
        last(clean(true), vec![Reply::Done(true), Reply::Done(false)]),
        (vec![], exit(false))
    );
}

#[test]
fn a_temporary_shell_opens_with_valid_names() {
    let temp = || Request { temp: true, ..install(&["cowsay", "lolcat"]) };
    assert_eq!(
        run(temp(), vec![printed("{\"cowsay\": true, \"lolcat\": true}"), Reply::Done(true)]),
        vec![
            (vec![], existence(&["cowsay", "lolcat"])),
            (
                vec![line("[spin] Opening temporary shell with cowsay, lolcat...")],
                Effect::Nix {
                    args: strings(&["shell", "--impure", "nixpkgs#cowsay", "nixpkgs#lolcat"]),
                }
            ),
            (vec![], exit(true)),
        ]
    );
    assert_eq!(
        last(
            temp(),
            vec![printed("{\"cowsay\": true, \"lolcat\": true}"), Reply::Done(false)]
        ),
        (vec![], exit(false))
    );
}

#[test]
fn a_temporary_shell_without_names_is_not_checked() {
    let temp = Request { temp: true, ..request() };
    assert_eq!(
        run(temp, vec![]),
        vec![(
            vec![line("[spin] Opening temporary shell with ...")],
            Effect::Nix { args: strings(&["shell", "--impure"]) }
        )]
    );
}

#[test]
fn without_nixpkgs_the_check_is_skipped() {
    let temp = Request { temp: true, ..install(&["cowsay"]) };
    assert_eq!(
        last(temp, vec![Reply::Printed(None)]),
        (
            vec![
                error(
                    "[spin] Warning: could not reach nixpkgs to validate names — skipping check."
                ),
                line("[spin] Opening temporary shell with cowsay..."),
            ],
            Effect::Nix { args: strings(&["shell", "--impure", "nixpkgs#cowsay"]) }
        )
    );
}

#[test]
fn packages_go_to_the_profile_and_leave_it() {
    let profile = Request {
        profile: true,
        remove: strings(&["git", "fd"]),
        ..install(&["helix"])
    };
    let listing = "Index: 0\nFlake attribute: a.b.git\n\nIndex: 1\nFlake attribute: a.b.fd\n";
    let list = || Effect::NixOutput { args: strings(&["profile", "list"]) };
    assert_eq!(
        run(
            profile,
            vec![
                printed("{\"helix\": true}"),
                Reply::Done(true),
                printed(listing),
                Reply::Done(true),
                printed(listing),
                Reply::Done(true),
            ]
        ),
        vec![
            (vec![], existence(&["helix"])),
            (
                vec![line("[spin] Installing helix to user profile...")],
                Effect::NixStreaming {
                    args: strings(&["profile", "install", "--impure", "nixpkgs#helix"]),
                }
            ),
            (vec![], list()),
            (
                vec![line("[spin] Removing 'git' (profile index 0) from user profile...")],
                Effect::Nix { args: strings(&["profile", "remove", "0"]) }
            ),
            (vec![line("[spin] Package 'git' removed from user profile.")], list()),
            (
                vec![line("[spin] Removing 'fd' (profile index 1) from user profile...")],
                Effect::Nix { args: strings(&["profile", "remove", "1"]) }
            ),
            (vec![line("[spin] Package 'fd' removed from user profile.")], exit(true)),
        ]
    );
}

#[test]
fn a_profile_can_fail_to_change() {
    let from = |names: &[&str]| Request { profile: true, ..remove(names) };
    let to = Request { profile: true, ..install(&["helix"]) };
    assert_eq!(
        last(to, vec![printed("{\"helix\": true}"), Reply::Done(false)]),
        (vec![], exit(false))
    );
    assert_eq!(
        last(from(&["git"]), vec![Reply::Printed(None)]),
        (vec![error("[spin] Error: Failed to list profile")], exit(false))
    );
    assert_eq!(
        last(from(&["git"]), vec![printed("")]),
        (
            vec![error(
                "[spin] Error: Package 'git' not found in user profile.\n\
                 Run 'nix profile list' to see what is installed."
            )],
            exit(false)
        )
    );
    assert_eq!(
        last(
            from(&["git", "fd"]),
            vec![printed("Index: 7\nFlake attribute: x.git"), Reply::Done(false)]
        ),
        (vec![error("[spin] Error: Failed to remove 'git' from profile.")], exit(false))
    );
}

#[test]
fn a_profile_without_names_goes_on_to_the_system() {
    let profile = Request { profile: true, upgrade: true, ..request() };
    assert_eq!(run(profile, vec![]), vec![(vec![], switch(&["switch", "--upgrade"]))]);
}

#[test]
fn a_package_is_installed() {
    let old = write_conf(&strings(&["vim", "git"]), &strings(&["noto"]));
    assert_eq!(
        run(
            install(&["htop", "git", "htop"]),
            vec![
                Reply::Exists(true),
                config(),
                Reply::Exists(true),
                read(&old),
                printed("{\"htop\": true}"),
                Reply::Wrote(Ok(())),
                Reply::Done(true),
            ]
        ),
        vec![
            (vec![], Effect::FindPackages),
            (vec![], Effect::ReadConfig),
            (vec![], Effect::FindPackages),
            (vec![], Effect::ReadPackages),
            (
                vec![line("[spin] Package 'git' is already installed.")],
                existence(&["htop"])
            ),
            (
                vec![line("[spin] Queued 'htop' for installation.")],
                write(&["git", "htop", "vim"], &["noto"])
            ),
            (vec![], switch(&["switch"])),
            (vec![line("[spin] Package 'htop' installed successfully.")], exit(true)),
        ]
    );
}

#[test]
fn a_font_is_exchanged() {
    let old = write_conf(&strings(&["git"]), &strings(&["fira-code", "noto"]));
    let fonts = Request {
        font: true,
        upgrade: true,
        remove: strings(&["fira-code"]),
        ..install(&["iosevka"])
    };
    let steps = run(
        fonts,
        vec![
            Reply::Exists(true),
            Reply::Config(None),
            Reply::Exists(true),
            read(&old),
            printed("{\"iosevka\": true}"),
            Reply::Wrote(Ok(())),
            Reply::Done(true),
        ],
    );
    assert_eq!(
        steps[5..],
        [
            (
                vec![
                    line("[spin] Queued 'iosevka' for installation."),
                    line("[spin] Queued 'fira-code' for removal."),
                ],
                write(&["git"], &["iosevka", "noto"])
            ),
            (vec![], switch(&["switch", "--upgrade"])),
            (
                vec![
                    line("[spin] Font 'iosevka' installed successfully."),
                    line("[spin] Font 'fira-code' removed successfully."),
                ],
                exit(true)
            ),
        ]
    );
}

#[test]
fn the_file_is_created_where_there_is_none() {
    assert_eq!(
        run(
            install(&["git"]),
            vec![
                Reply::Exists(false),
                Reply::Wrote(Ok(())),
                config(),
                Reply::Exists(false),
                printed("{\"git\": true}"),
            ]
        ),
        vec![
            (vec![], Effect::FindPackages),
            (vec![], write(&[], &[])),
            (vec![line("[spin] Created /etc/nixos/packages.conf")], Effect::ReadConfig),
            (vec![], Effect::FindPackages),
            (vec![], existence(&["git"])),
            (vec![line("[spin] Queued 'git' for installation.")], write(&["git"], &[])),
        ]
    );
    assert_eq!(
        last(
            install(&["git"]),
            vec![Reply::Exists(false), Reply::Wrote(Err("Cannot write x".to_string()))]
        ),
        (vec![error("[spin] Error: Cannot write x")], exit(false))
    );
}

#[test]
fn a_configuration_without_the_import_stops_the_session() {
    let (output, effect) = last(
        install(&["git"]),
        vec![Reply::Exists(true), Reply::Config(Some("# ./packages.conf".to_string()))],
    );
    assert_eq!(effect, exit(false));
    assert_eq!(output.len(), 1);
    match &output[0] {
        Output::Error(text) => assert!(text.starts_with(
            "[spin] Error: /etc/nixos/packages.conf is not imported in \
             /etc/nixos/configuration.nix.\n"
        )),
        other => panic!("{:?}", other),
    }
}

#[test]
fn a_file_that_cannot_be_read_stops_the_session() {
    assert_eq!(
        last(
            install(&["git"]),
            vec![
                Reply::Exists(true),
                config(),
                Reply::Exists(true),
                Reply::Read(Err("denied".to_string())),
            ]
        ),
        (
            vec![error("[spin] Error: Cannot read /etc/nixos/packages.conf: denied")],
            exit(false)
        )
    );
}

#[test]
fn a_typo_is_answered_with_suggestions() {
    let steps = run(
        install(&["gti", "a b", "vim"]),
        vec![
            Reply::Exists(true),
            config(),
            Reply::Exists(true),
            read(""),
            printed("{\"gti\": false, \"vim\": true}"),
            printed("[\"git\", \"emacs\", \"tig\", \"vim\"]"),
        ],
    );
    assert_eq!(
        steps[4..],
        [
            (vec![], existence(&["gti", "vim"])),
            (vec![], names_of_nixpkgs()),
            (
                vec![
                    error("[spin] Error: 'a b' was not found in nixpkgs."),
                    error("[spin] Error: 'gti' was not found in nixpkgs."),
                    error("       Did you mean: git, tig?"),
                ],
                exit(false)
            ),
        ]
    );
    assert!(!steps.iter().any(|(_, e)| matches!(
        e,
        Effect::WritePackages { .. } | Effect::PrivilegedStreaming { .. }
    )));
}

#[test]
fn malformed_names_are_not_asked_about() {
    let temp = Request { temp: true, ..install(&["a b"]) };
    assert_eq!(
        run(temp, vec![Reply::Printed(None)]),
        vec![
            (vec![], names_of_nixpkgs()),
            (vec![error("[spin] Error: 'a b' was not found in nixpkgs.")], exit(false)),
        ]
    );
}

#[test]
fn a_package_that_is_not_managed_cannot_be_removed() {
    let old = write_conf(&strings(&["git"]), &strings(&["noto"]));
    let found = |text: &str| {
        vec![Reply::Exists(true), config(), Reply::Exists(true), read(text)]
    };
    assert_eq!(
        last(remove(&["git", "noto"]), found(&old)),
        (
            vec![
                line("[spin] Queued 'git' for removal."),
                error(
                    "[spin] Error: package 'noto' is not managed by spin \
                     (not in /etc/nixos/packages.conf)."
                ),
            ],
            exit(false)
        )
    );
    let font = Request { font: true, ..remove(&["git"]) };
    assert_eq!(
        last(font, found(&old)),
        (
            vec![error(
                "[spin] Error: font 'git' is not managed by spin \
                 (not in /etc/nixos/packages.conf)."
            )],
            exit(false)
        )
    );
}

#[test]
fn what_is_installed_already_changes_nothing() {
    let old = write_conf(&strings(&["git"]), &[]);
    let found = || vec![Reply::Exists(true), config(), Reply::Exists(true), read(&old)];
    let told = || line("[spin] Package 'git' is already installed.");
    assert_eq!(last(install(&["git"]), found()), (vec![told()], exit(true)));
    let upgrade = || Request { upgrade: true, ..install(&["git"]) };
    assert_eq!(
        last(upgrade(), found()),
        (vec![told()], switch(&["switch", "--upgrade"]))
    );
    let mut replies = found();
    replies.push(Reply::Done(true));
    assert_eq!(
        last(upgrade(), replies),
        (vec![line("[spin] System updated successfully.")], exit(true))
    );
}

#[test]
fn a_change_that_cannot_be_written_is_not_built() {
    let old = write_conf(&strings(&["git"]), &[]);
    assert_eq!(
        last(
            remove(&["git"]),
            vec![
                Reply::Exists(true),
                config(),
                Reply::Exists(true),
                read(&old),
                Reply::Wrote(Err("Cannot write it".to_string())),
            ]
        ),
        (vec![error("[spin] Error: Cannot write it")], exit(false))
    );
}

#[test]
fn a_failed_rebuild_is_rolled_back() {
    let old = write_conf(&strings(&["git", "vim"]), &strings(&["noto"]));
    for result in [Ok(()), Err("no".to_string())] {
        let steps = run(
            remove(&["git"]),
            vec![
                Reply::Exists(true),
                config(),
                Reply::Exists(true),
                read(&old),
                Reply::Wrote(Ok(())),
                Reply::Done(false),
                Reply::Wrote(result),
            ],
        );
        assert_eq!(
            steps[4..],
            [
                (vec![line("[spin] Queued 'git' for removal.")], write(&["vim"], &["noto"])),
                (vec![], switch(&["switch"])),
                (vec![], Effect::WritePackages { content: old.clone() }),
                (
                    vec![error("[spin] Error: nixos-rebuild failed — changes rolled back.")],
                    exit(false)
                ),
            ]
        );
    }
}

#[test]
fn a_failed_upgrade_has_nothing_to_restore() {
    let upgrade = Request { upgrade: true, ..request() };
    assert_eq!(
        last(upgrade, vec![Reply::Done(false)]),
        (
            vec![error("[spin] Error: nixos-rebuild failed — changes rolled back.")],
            exit(false)
        )
    );
}

#[test]
fn an_upgrade_is_told() {
    let upgrade = Request { upgrade: true, ..request() };
    assert_eq!(
        last(upgrade, vec![Reply::Done(true)]),
        (vec![line("[spin] System updated successfully.")], exit(true))
    );
}

#[test]
fn replies_are_understood_by_state() {
    let listing = State::Listing { request: remove(&["git"]), at: 0 };
    assert_eq!(
        interpret(&listing, Reply::Printed(Some(vec![b'x', 0xff]))),
        Event::Listing(Some("x\u{fffd}".to_string()))
    );
    let suggesting = State::Suggesting { missing: strings(&["gti"]) };
    assert_eq!(
        interpret(&suggesting, printed("[\"git\"]")),
        Event::Suggested(vec![strings(&["git"])])
    );
    assert_eq!(
        interpret(&suggesting, printed("nonsense")),
        Event::Suggested(vec![Vec::new()])
    );
    assert_eq!(interpret(&listing, Reply::Done(true)), Event::Done(true));
}

#[test]
fn only_the_reply_that_is_awaited_is_taken() {
    let state = State::Locating { request: install(&["git"]) };
    assert!(is_awaited(&state, &Reply::Exists(true)));
    assert!(!is_awaited(&state, &Reply::Done(true)));
    assert!(!is_awaited(&state, &Reply::Wrote(Ok(()))));
    let past_the_end = State::Unlisting { request: remove(&["git"]), at: 1 };
    assert!(!is_awaited(&past_the_end, &Reply::Done(true)));
    assert!(!is_awaited(&State::Finished, &Reply::Done(true)));
}

#[test]
fn events_advance_a_session() {
    let step = advance(
        State::Suggesting { missing: strings(&["gti"]) },
        Event::Suggested(vec![strings(&["git"])]),
    );
    assert_eq!(
        step,
        Step {
            output: vec![
                error("[spin] Error: 'gti' was not found in nixpkgs."),
                error("       Did you mean: git?"),
            ],
            effect: exit(false),
            state: State::Finished,
        }
    );
}

#[test]
fn the_longest_session_ends_in_time() {
    let longest = Request {
        sync: true,
        profile: true,
        remove: strings(&["a", "b", "c"]),
        ..install(&["x"])
    };
    let mut replies = vec![Reply::Done(true), printed("{\"x\": true}"), Reply::Done(true)];
    for name in ["a", "b", "c"] {
        replies.push(printed(&format!("Index: 1\nFlake attribute: p.{}", name)));
        replies.push(Reply::Done(true));
    }
    assert!(replies.len() <= 13 + 2 * 3);
    assert_eq!(last(longest, replies).1, exit(true));
}

fn count(steps: &[(Vec<Output>, Effect)], f: fn(&Effect) -> bool) -> usize {
    steps.iter().filter(|(_, e)| f(e)).count()
}

fn is_write(e: &Effect) -> bool {
    matches!(e, Effect::WritePackages { .. })
}

fn is_privileged(e: &Effect) -> bool {
    matches!(e, Effect::Privileged { .. } | Effect::PrivilegedStreaming { .. })
}

fn is_check(e: &Effect) -> bool {
    matches!(e, Effect::NixOutput { args } if args.len() == 5 && args[4].starts_with("let pkgs"))
}

#[test]
fn many_changes_take_one_check_one_write_and_one_rebuild() {
    let old = write_conf(&strings(&["a", "b"]), &[]);
    let many = Request { remove: strings(&["a", "b"]), ..install(&["c", "d", "e"]) };
    let steps = run(
        many,
        vec![
            Reply::Exists(true),
            config(),
            Reply::Exists(true),
            read(&old),
            printed("{\"c\": true, \"d\": true, \"e\": true}"),
            Reply::Wrote(Ok(())),
            Reply::Done(true),
        ],
    );
    assert_eq!(count(&steps, is_check), 1);
    assert_eq!(count(&steps, is_write), 1);
    assert_eq!(count(&steps, is_privileged), 1);
    assert_eq!(steps[5].1, write(&["c", "d", "e"], &[]));
}

#[test]
fn a_shell_and_the_profile_spare_the_system() {
    let sessions = vec![
        run(
            Request { temp: true, ..install(&["x"]) },
            vec![printed("{\"x\": true}"), Reply::Done(true)],
        ),
        run(
            Request { profile: true, ..install(&["x"]) },
            vec![printed("{\"x\": true}"), Reply::Done(true)],
        ),
        run(
            Request { profile: true, ..remove(&["x"]) },
            vec![printed("Index: 1\nFlake attribute: p.x"), Reply::Done(true)],
        ),
        run(Request { search: strings(&["x"]), ..request() }, vec![printed("{}")]),
    ];
    for steps in sessions {
        assert_eq!(count(&steps, is_write) + count(&steps, is_privileged), 0);
        assert_eq!(steps.last().unwrap().1, exit(true));
    }
}
