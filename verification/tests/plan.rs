use spin::plan::{add_names, fresh_names, remove_names};

fn strings(parts: &[&str]) -> Vec<String> {
    parts.iter().map(|p| p.to_string()).collect()
}

#[test]
fn fresh_names_are_new_and_come_once() {
    let target = strings(&["git", "vim"]);
    let install = strings(&["htop", "git", "fd", "htop", "vim"]);
    assert_eq!(fresh_names(&target, &install), strings(&["htop", "fd"]));
    assert_eq!(fresh_names(&target, &Vec::new()), Vec::<String>::new());
}

#[test]
fn names_are_added_in_order() {
    let target = strings(&["vim", "git"]);
    assert_eq!(add_names(&target, &strings(&["htop", "Zsh"])), strings(&["Zsh", "git", "htop", "vim"]));
    assert_eq!(add_names(&target, &Vec::new()), strings(&["git", "vim"]));
}

#[test]
fn names_are_removed_one_after_another() {
    let target = strings(&["git", "vim", "git", "htop"]);
    assert_eq!(
        remove_names(&target, &strings(&["git", "htop"])),
        (strings(&["vim"]), 2)
    );
    assert_eq!(remove_names(&target, &Vec::new()), (target, 0));
}

#[test]
fn removal_stops_at_a_name_that_is_not_there() {
    let target = strings(&["git", "vim"]);
    assert_eq!(
        remove_names(&target, &strings(&["git", "emacs", "vim"])),
        (strings(&["vim"]), 1)
    );
    assert_eq!(remove_names(&target, &strings(&["git", "git"])), (strings(&["vim"]), 1));
    assert_eq!(remove_names(&target, &strings(&["gi"])), (strings(&["git", "vim"]), 0));
}

#[test]
fn removing_what_was_added_gives_the_list_back() {
    let target = strings(&["fd", "git", "vim"]);
    let install = strings(&["htop", "git", "bat", "htop"]);
    let names = fresh_names(&target, &install);
    let grown = add_names(&target, &names);
    assert_eq!(fresh_names(&grown, &install), Vec::<String>::new());
    assert_eq!(remove_names(&grown, &names), (target, names.len()));
}
