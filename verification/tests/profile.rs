use spin::profile::profile_index;

const LISTING: &str = "Index:           0\n\
    Flake attribute: legacyPackages.x86_64-linux.git\n\
    Original URL:    flake:nixpkgs\n\
    Locked URL:      github:NixOS/nixpkgs\n\
    Store paths:     /nix/store/abc-git\n\
    \n\
    Index:           1\n\
    Flake attribute: legacyPackages.x86_64-linux.helix\n\
    \n\
    \x20 Index: 12 \r\n\
    \x20 Flake attribute: legacyPackages.x86_64-linux.python3Packages.requests\n";

#[test]
fn a_package_has_the_index_above_it() {
    assert_eq!(profile_index(LISTING, "git"), Some("0".to_string()));
    assert_eq!(profile_index(LISTING, "helix"), Some("1".to_string()));
    assert_eq!(profile_index(LISTING, "requests"), Some("12".to_string()));
    assert_eq!(profile_index(LISTING, "python3Packages.requests"), Some("12".to_string()));
}

#[test]
fn other_packages_have_none() {
    assert_eq!(profile_index(LISTING, "it"), None);
    assert_eq!(profile_index(LISTING, "hel"), None);
    assert_eq!(profile_index(LISTING, ""), None);
    assert_eq!(profile_index("", "git"), None);
}

#[test]
fn an_attribute_without_an_index_is_passed_over() {
    let listing = "Flake attribute: x.git\nIndex: 3\nFlake attribute: y.git\n";
    assert_eq!(profile_index(listing, "git"), Some("3".to_string()));
    assert_eq!(profile_index("Flake attribute: x.git\nIndex: 3\n", "git"), None);
}

#[test]
fn the_first_of_two_is_taken() {
    let listing = "Index: 3\nFlake attribute: x.git\nIndex: 4\nFlake attribute: y.git\n";
    assert_eq!(profile_index(listing, "git"), Some("3".to_string()));
}

#[test]
fn an_index_line_names_no_package() {
    let listing = "Index: 3 Flake attribute: x.git\n";
    assert_eq!(profile_index(listing, "git"), None);
}
