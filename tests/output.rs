use dotty::output::{title_box, tree_branch};
use dotty::path::FsPath;
use dotty::resolve::PathError;

fn lines(v: &[&str]) -> Vec<String> {
    v.iter().map(|s| s.to_string()).collect()
}

#[test]
fn error_messages() {
    let e = PathError::InvalidEnvVar { path: FsPath::parse("$X/a"), var: "X".to_string() };
    assert_eq!(e.message(), "environment variable X in $X/a is not set");
    let e = PathError::InvalidNameRef { path: FsPath::parse("{{g}}/a"), name: "{{g}}".to_string() };
    assert_eq!(e.message(), "Invalid name reference {{g}} in {{g}}/a");
    let e = PathError::NoParent(FsPath::parse("/"));
    assert_eq!(e.message(), "/ must have a parent directory");
    let e = PathError::IoError("Permission denied".to_string());
    assert_eq!(e.message(), "Permission denied");
}

#[test]
fn inner_branch() {
    let got = tree_branch(&lines(&["first", "second", "third"]), false);
    assert_eq!(got, lines(&["├─first", "│  second", "│  third"]));
}

#[test]
fn last_branch() {
    let got = tree_branch(&lines(&["first", "second"]), true);
    assert_eq!(got, lines(&["└─first", "   second"]));
    assert!(tree_branch(&vec![], true).is_empty());
}

#[test]
fn title_fits_the_name() {
    assert_eq!(title_box("vim", "VIM"), lines(&["╔═════╗", "║ VIM ║", "╚═════╝"]));
    assert_eq!(title_box("", ""), lines(&["╔══╗", "║  ║", "╚══╝"]));
}
