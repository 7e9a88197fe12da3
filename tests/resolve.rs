use dotty::apps::{App, Apps};
use dotty::path::FsPath;
use dotty::resolve::{expand_app, expand_env, Env, PathError};

fn text(p: &FsPath) -> String {
    p.render()
}

fn env_with(pairs: &[(&str, &str)]) -> Env {
    let mut env = Env::new();
    for (k, v) in pairs {
        env.set(k.to_string(), v.to_string());
    }
    env
}

fn registry(entries: &[(&str, &str)]) -> Apps {
    Apps(
        entries
            .iter()
            .map(|(name, dst)| App {
                name: name.to_string(),
                srcdir: FsPath::parse("/home/u"),
                dstdir: FsPath::parse(dst),
                description: None,
                links: vec![],
            })
            .collect(),
    )
}

#[test]
fn parse_drops_repeated_and_trailing_separators() {
    let p = FsPath::parse("/home//u/x/");
    assert!(p.absolute);
    assert_eq!(p.segments, vec!["home".to_string(), "u".to_string(), "x".to_string()]);
    assert_eq!(text(&p), "/home/u/x");
}

#[test]
fn parse_relative_and_empty() {
    let p = FsPath::parse("a/b");
    assert!(!p.absolute);
    assert_eq!(text(&p), "a/b");
    let e = FsPath::parse("");
    assert!(!e.absolute);
    assert!(e.segments.is_empty());
    assert_eq!(text(&e), "");
    assert_eq!(text(&FsPath::parse("/")), "/");
}

#[test]
fn render_then_parse_gives_the_path_back() {
    let p = FsPath::parse("/base/vim/vimrc");
    assert_eq!(FsPath::parse(&p.render()), p);
}

#[test]
fn join_relative_and_absolute() {
    let base = FsPath::parse("/home/u");
    assert_eq!(text(&base.join(&FsPath::parse(".vimrc"))), "/home/u/.vimrc");
    assert_eq!(text(&base.join(&FsPath::parse("/etc/x"))), "/etc/x");
}

#[test]
fn parent_of_paths() {
    assert_eq!(text(&FsPath::parse("/home/u/.vimrc").parent().unwrap()), "/home/u");
    assert_eq!(text(&FsPath::parse("a").parent().unwrap()), "");
    assert!(FsPath::parse("/").parent().is_none());
    assert!(FsPath::parse("").parent().is_none());
}

#[test]
fn plain_tokens_are_left_unchanged() {
    let env = env_with(&[("HOME", "/home/u")]);
    let apps = registry(&[("vim", "/base/vim")]);
    for t in ["vim/vimrc", "/etc/hosts", ".zshrc", "a/HOME/b", "x$y", "{{vim}}x", "{vim}"] {
        let p = FsPath::parse(t);
        assert_eq!(expand_env(&env, &p).unwrap(), p);
        assert_eq!(expand_app(&apps, &p).unwrap(), p);
    }
}

#[test]
fn variable_is_replaced_by_its_value() {
    let env = env_with(&[("HOME", "/home/u")]);
    let r = expand_env(&env, &FsPath::parse("$HOME/.vimrc")).unwrap();
    assert_eq!(text(&r), "/home/u/.vimrc");
    assert!(r.absolute);
}

#[test]
fn each_occurrence_is_replaced_once() {
    let env = env_with(&[("V", "p/q")]);
    let r = expand_env(&env, &FsPath::parse("x/$V/y/$V")).unwrap();
    assert_eq!(text(&r), "x/p/q/y/p/q");
}

#[test]
fn later_setting_of_a_variable_wins() {
    let env = env_with(&[("X", "one"), ("X", "two")]);
    assert_eq!(env.get("X"), Some("two".to_string()));
    assert_eq!(env.get("Y"), None);
    let r = expand_env(&env, &FsPath::parse("$X")).unwrap();
    assert_eq!(text(&r), "two");
}

#[test]
fn unset_variable_fails() {
    let env = env_with(&[("HOME", "/home/u")]);
    match expand_env(&env, &FsPath::parse("a/$NOPE/$ALSO")) {
        Err(PathError::InvalidEnvVar { path, var }) => {
            assert_eq!(var, "NOPE");
            assert_eq!(text(&path), "a/$NOPE/$ALSO");
        }
        other => panic!("unexpected {:?}", other),
    }
}

#[test]
fn app_reference_is_replaced_by_its_directory() {
    let apps = registry(&[("vim", "/base/vim"), ("other-app", "/base/other")]);
    let r = expand_app(&apps, &FsPath::parse("{{other-app}}/zshrc")).unwrap();
    assert_eq!(text(&r), "/base/other/zshrc");
    assert_eq!(apps.resolve_name("vim"), Some(FsPath::parse("/base/vim")));
    assert_eq!(apps.resolve_name("nothing"), None);
}

#[test]
fn unknown_app_reference_fails() {
    let apps = registry(&[("vim", "/base/vim")]);
    match expand_app(&apps, &FsPath::parse("x/{{ghost}}/y")) {
        Err(PathError::InvalidNameRef { path, name }) => {
            assert_eq!(name, "{{ghost}}");
            assert_eq!(text(&path), "x/{{ghost}}/y");
        }
        other => panic!("unexpected {:?}", other),
    }
}

#[test]
fn reference_after_other_segments_roots_the_path() {
    let apps = registry(&[("a", "/base/a"), ("rel", "r/d")]);
    assert_eq!(text(&expand_app(&apps, &FsPath::parse("x/{{a}}/y")).unwrap()), "/base/a/y");
    assert_eq!(text(&expand_app(&apps, &FsPath::parse("/etc/{{a}}")).unwrap()), "/base/a");
    assert_eq!(text(&expand_app(&apps, &FsPath::parse("x/{{rel}}/y")).unwrap()), "x/r/d/y");
    assert_eq!(text(&expand_app(&apps, &FsPath::parse("{{a}}/{{rel}}")).unwrap()), "/base/a/r/d");
}

#[test]
fn empty_value_reads_as_its_text() {
    let env = env_with(&[("E", ""), ("R", "/root")]);
    assert_eq!(text(&expand_env(&env, &FsPath::parse("$E/x")).unwrap()), "/x");
    assert_eq!(text(&expand_env(&env, &FsPath::parse("$E")).unwrap()), "");
    assert_eq!(text(&expand_env(&env, &FsPath::parse("a/$E/b")).unwrap()), "a/b");
    assert_eq!(text(&expand_env(&env, &FsPath::parse("a/$R/b")).unwrap()), "a/root/b");
}
