use spin::conf::{
    check_config_imports, imports_packages, parse_list, read_conf, write_conf, CONFIG_FILE,
    FONTS_MARKER, PACKAGES_FILE, PACKAGES_MARKER,
};

fn strings(parts: &[&str]) -> Vec<String> {
    parts.iter().map(|p| p.to_string()).collect()
}

#[test]
fn files_are_in_etc_nixos() {
    assert_eq!(PACKAGES_FILE, "/etc/nixos/packages.conf");
    assert_eq!(CONFIG_FILE, "/etc/nixos/configuration.nix");
}

#[test]
fn both_lists_are_written() {
    let text = write_conf(&strings(&["git", "htop"]), &strings(&["fira-code"]));
    assert_eq!(
        text,
        "# Managed by spin - Simple Package Installer for Nix\n\
         # Do not edit manually. Use: spin -i <pkg> / -r <pkg>  (fonts: spin -fi / -fr)\n\
         { pkgs, ... }:\n\
         {\n\
         \x20 environment.systemPackages = with pkgs; [\n\
         \x20   git\n\
         \x20   htop\n\
         \x20 ];\n\
         \x20 fonts.packages = with pkgs; [\n\
         \x20   fira-code\n\
         \x20 ];\n\
         }\n"
    );
}

#[test]
fn empty_lists_are_written() {
    assert_eq!(
        write_conf(&[], &[]),
        "# Managed by spin - Simple Package Installer for Nix\n\
         # Do not edit manually. Use: spin -i <pkg> / -r <pkg>  (fonts: spin -fi / -fr)\n\
         { pkgs, ... }:\n\
         {\n\
         \x20 environment.systemPackages = with pkgs; [\n\
         \x20 ];\n\
         \x20 fonts.packages = with pkgs; [\n\
         \x20 ];\n\
         }\n"
    );
}

#[test]
fn written_lists_are_read_back() {
    let packages = strings(&["git", "python3Packages.requests", "c++-lib", "x]", "a b"]);
    let fonts = strings(&["fira-code", "noto-fonts"]);
    let text = write_conf(&packages, &fonts);
    assert_eq!(read_conf(Some(&text)), (packages, fonts));
}

#[test]
fn no_file_has_no_lists() {
    assert_eq!(read_conf(None), (Vec::new(), Vec::new()));
    assert_eq!(read_conf(Some("")), (Vec::new(), Vec::new()));
}

#[test]
fn lists_of_other_hands_are_read() {
    let text = "{ pkgs, ... }: {\r\n\
                environment.systemPackages = with pkgs;\n\
                [\n\
                # editors\n\
                \n\
                \tvim;\n\
                emacs ; ;\n\
                ;\n\
                git # scm\n\
                ]; # end\n\
                after\n\
                fonts.packages = [\n\
                noto";
    assert_eq!(parse_list(text, PACKAGES_MARKER), strings(&["vim", "emacs ;", "git # scm"]));
    assert_eq!(parse_list(text, FONTS_MARKER), strings(&["noto"]));
    assert_eq!(parse_list(text, "nowhere"), Vec::<String>::new());
}

#[test]
fn a_comment_opens_no_list() {
    let text = "# systemPackages below\nenvironment.systemPackages = with pkgs; [\n  git\n];\n";
    assert_eq!(parse_list(text, PACKAGES_MARKER), strings(&["git"]));
    let indented = "  #systemPackages\n\t# fonts.packages = [\nfonts.packages = [\nnoto\n];\n";
    assert_eq!(parse_list(indented, PACKAGES_MARKER), Vec::<String>::new());
    assert_eq!(parse_list(indented, FONTS_MARKER), strings(&["noto"]));
}

#[test]
fn a_list_may_stand_on_one_line() {
    let text = "environment.systemPackages = with pkgs; [ git ];\nhtop\n];\n";
    assert_eq!(parse_list(text, PACKAGES_MARKER), strings(&["git"]));
    let empty = "environment.systemPackages = with pkgs; [ ];\nfonts.packages = [];\nx\n";
    assert_eq!(read_conf(Some(empty)), (Vec::new(), Vec::new()));
    let both = "systemPackages = [ git ]; fonts.packages = with pkgs; [ noto ];\n";
    assert_eq!(read_conf(Some(both)), (strings(&["git"]), strings(&["noto"])));
}

#[test]
fn entries_may_stand_behind_the_bracket() {
    let text = "environment.systemPackages = with pkgs; [ git;\nhtop\n];\nafter\n";
    assert_eq!(parse_list(text, PACKAGES_MARKER), strings(&["git", "htop"]));
    let noted = "environment.systemPackages = with pkgs; [ # tools ];\nhtop\n];\n";
    assert_eq!(parse_list(noted, PACKAGES_MARKER), strings(&["htop"]));
    let remark = "environment.systemPackages = with pkgs; # [sic]\n[\nhtop\n];\n";
    assert_eq!(parse_list(remark, PACKAGES_MARKER), strings(&["htop"]));
}

#[test]
fn another_list_in_front_of_the_bracket_is_no_matter() {
    let local = "environment.systemPackages = let x = [ ]; in with pkgs; [\n  git\n];\n";
    assert_eq!(parse_list(local, PACKAGES_MARKER), strings(&["git"]));
    let sum = "environment.systemPackages = [ inputs.foo ] ++ with pkgs; [\n  git\n];\n";
    assert_eq!(parse_list(sum, PACKAGES_MARKER), strings(&["git"]));
    let noted = "environment.systemPackages = let x = [ ]; in with pkgs; [ # [ ];\n  git\n];\n";
    assert_eq!(parse_list(noted, PACKAGES_MARKER), strings(&["git"]));
    let remark = "environment.systemPackages = let x = [ ]; in with pkgs; [ /* ]; */\n  git\n];\n";
    assert_eq!(parse_list(remark, PACKAGES_MARKER), strings(&["git"]));
    let text = "environment.systemPackages = let x = \"#\"; y = [ ]; in with pkgs; [\n  git\n];\n";
    assert_eq!(parse_list(text, PACKAGES_MARKER), strings(&["git"]));
    let begun = "environment.systemPackages = let x = [ ]; in with pkgs; [ git\n  htop\n];\n";
    assert_eq!(parse_list(begun, PACKAGES_MARKER), strings(&["git", "htop"]));
    let closed = "environment.systemPackages = [ inputs.foo ] ++ with pkgs; [ git ];\nafter\n";
    assert_eq!(parse_list(closed, PACKAGES_MARKER), strings(&["git"]));
    let wrapped = "environment.systemPackages = [ inputs.foo ] ++ (with pkgs; [ git ]);\n];\n";
    assert_eq!(parse_list(wrapped, PACKAGES_MARKER), Vec::<String>::new());
}

#[test]
fn names_behind_the_bracket_are_told_apart() {
    let two = "environment.systemPackages = with pkgs; [ git  htop\t];\nafter\n";
    assert_eq!(parse_list(two, PACKAGES_MARKER), strings(&["git", "htop"]));
    let noted = "systemPackages = [ git # vcs\nhtop\n];\n";
    assert_eq!(parse_list(noted, PACKAGES_MARKER), strings(&["git", "htop"]));
    let remark = "systemPackages = [ /* t */\nhtop\n];\n";
    assert_eq!(parse_list(remark, PACKAGES_MARKER), strings(&["htop"]));
    let inner = "systemPackages = /* all */ [ git /* # ]; */ fd /**/ ]; # x\nafter\n";
    assert_eq!(parse_list(inner, PACKAGES_MARKER), strings(&["git", "fd"]));
    let open = "systemPackages = [ git /* the rest ];\nhtop\n];\n";
    assert_eq!(parse_list(open, PACKAGES_MARKER), strings(&["git", "htop"]));
    let below = "systemPackages =\n[ git htop ]; # x\nafter\n";
    assert_eq!(parse_list(below, PACKAGES_MARKER), strings(&["git", "htop"]));
}

#[test]
fn the_bracket_may_stand_below() {
    let text = "environment.systemPackages = with pkgs;\n# tools\n  [ git ];\nhtop\n";
    assert_eq!(parse_list(text, PACKAGES_MARKER), strings(&["git"]));
    let open = "environment.systemPackages = with pkgs;\n[ git\nhtop\n];\nafter\n";
    assert_eq!(parse_list(open, PACKAGES_MARKER), strings(&["git", "htop"]));
    let none = "environment.systemPackages\n];\nhtop\n";
    assert_eq!(parse_list(none, PACKAGES_MARKER), Vec::<String>::new());
}

#[test]
fn a_commented_package_with_the_fonts_marker_hides_nothing() {
    let text = write_conf(&strings(&["#fonts.packages", "git"]), &strings(&["noto"]));
    assert_eq!(read_conf(Some(&text)), (strings(&["git"]), strings(&["noto"])));
}

#[test]
fn a_package_with_the_fonts_marker_hides_the_fonts() {
    let packages = strings(&["fonts.packages", "git"]);
    let text = write_conf(&packages, &strings(&["noto"]));
    assert_eq!(read_conf(Some(&text)), (packages, strings(&["git"])));
}

#[test]
fn some_names_do_not_come_back() {
    for name in ["", "#git", "[", "git;", " git", "];x"] {
        let packages = strings(&[name]);
        let text = write_conf(&packages, &strings(&["noto"]));
        let (read, fonts) = read_conf(Some(&text));
        assert_ne!(read, packages, "{:?}", name);
        assert_eq!(fonts, strings(&["noto"]));
    }
}

#[test]
fn imports_are_found_outside_of_comments() {
    assert!(imports_packages("{ imports = [ ./packages.conf ]; }"));
    assert!(imports_packages("a\n  ./packages.conf # yes\n"));
    assert!(!imports_packages("  # ./packages.conf\n"));
    assert!(!imports_packages("#./packages.conf"));
    assert!(!imports_packages("imports = [ ./hardware-configuration.nix ];"));
    assert!(!imports_packages(""));
}

#[test]
fn a_missing_import_brings_advice() {
    assert_eq!(check_config_imports(&None), None);
    assert_eq!(check_config_imports(&Some("./packages.conf".to_string())), None);
    assert_eq!(
        check_config_imports(&Some("{ }".to_string())),
        Some(
            "[spin] Error: /etc/nixos/packages.conf is not imported in \
             /etc/nixos/configuration.nix.\n\
             \n\
             Add it to the imports list in /etc/nixos/configuration.nix and re-run:\n\
             \n\
             \x20\x20imports = [\n\
             \x20\x20  ./hardware-configuration.nix\n\
             \x20\x20  ./packages.conf        # <-- add this\n\
             \x20\x20];\n"
                .to_string()
        )
    );
}

#[test]
fn entries_that_were_read_come_back_unless_they_end_in_a_semicolon() {
    let read = parse_list("systemPackages [\n git;\n a ; ;\n [;\n x # y\n", PACKAGES_MARKER);
    assert_eq!(read, strings(&["git", "a ;", "[", "x # y"]));
    let again = parse_list(&write_conf(&read, &[]), PACKAGES_MARKER);
    assert_eq!(again, strings(&["git", "a", "x # y"]));
}
