use dotty::apps::{App, AppConfig, Apps, ConfigError};
use dotty::config::{default_base_dir, find_config, AppFilter, Cli, Config};
use dotty::path::FsPath;
use dotty::resolve::{Env, PathError};

fn s(v: &str) -> String {
    v.to_string()
}

fn home_env() -> Env {
    let mut env = Env::new();
    env.set(s("HOME"), s("/home/u"));
    env
}

fn cfg(links: Option<Vec<Vec<&str>>>) -> AppConfig {
    AppConfig {
        srcdir: None,
        dstdir: None,
        description: None,
        links: links.map(|ls| ls.into_iter().map(|l| l.into_iter().map(s).collect()).collect()),
    }
}

fn cli(only: Option<Vec<&str>>, except: Option<Vec<&str>>) -> Cli {
    Cli {
        base_dir: None,
        config_file: None,
        check_only: true,
        include_apps: only.map(|v| v.into_iter().map(s).collect()),
        exclude_apps: except.map(|v| v.into_iter().map(s).collect()),
    }
}

#[test]
fn one_token_link_is_doubled() {
    assert_eq!(App::normalize_link(vec![s("vimrc")]), Some((s("vimrc"), s("vimrc"))));
}

#[test]
fn two_token_link_is_destination_then_source() {
    assert_eq!(App::normalize_link(vec![s("vimrc"), s(".vimrc")]), Some((s("vimrc"), s(".vimrc"))));
}

#[test]
fn other_link_lengths_are_refused() {
    assert_eq!(App::normalize_link(vec![]), None);
    assert_eq!(App::normalize_link(vec![s("a"), s("b"), s("c")]), None);
}

#[test]
fn app_defaults() {
    let base = FsPath::parse("/base");
    let a = App::new(&base, "vim", cfg(Some(vec![vec!["vimrc", ".vimrc"], vec!["gvimrc"]])), &home_env()).unwrap();
    assert_eq!(a.name, "vim");
    assert_eq!(a.srcdir.render(), "/home/u");
    assert_eq!(a.dstdir.render(), "/base/vim");
    assert_eq!(a.links, vec![(s("vimrc"), s(".vimrc")), (s("gvimrc"), s("gvimrc"))]);
    assert_eq!(a.description, None);
}

#[test]
fn app_with_own_directories() {
    let base = FsPath::parse("/base");
    let c = AppConfig {
        srcdir: Some(s("$HOME/.config")),
        dstdir: Some(s("editors/vim")),
        description: Some(s("the editor")),
        links: None,
    };
    let a = App::new(&base, "vim", c, &home_env()).unwrap();
    assert_eq!(a.srcdir.render(), "/home/u/.config");
    assert_eq!(a.dstdir.render(), "/base/editors/vim");
    assert_eq!(a.description, Some(s("the editor")));
    assert!(a.links.is_empty());
}

#[test]
fn app_with_bad_link_is_refused() {
    let base = FsPath::parse("/base");
    match App::new(&base, "vim", cfg(Some(vec![vec!["a", "b", "c"]])), &home_env()) {
        Err(ConfigError::BadLink { app }) => assert_eq!(app, "vim"),
        other => panic!("unexpected {:?}", other),
    }
}

#[test]
fn app_without_home_is_refused() {
    let base = FsPath::parse("/base");
    match App::new(&base, "vim", cfg(None), &Env::new()) {
        Err(ConfigError::Path(PathError::InvalidEnvVar { var, .. })) => assert_eq!(var, "HOME"),
        other => panic!("unexpected {:?}", other),
    }
}

#[test]
fn registry_keeps_order_and_looks_up_names() {
    let base = FsPath::parse("/base");
    let apps = Apps::new(&base, vec![(s("vim"), cfg(None)), (s("zsh"), cfg(None))], &home_env()).unwrap();
    assert_eq!(apps.0.len(), 2);
    assert_eq!(apps.0[0].name, "vim");
    assert_eq!(apps.0[1].name, "zsh");
    assert_eq!(apps.resolve_name("zsh").unwrap().render(), "/base/zsh");
}

#[test]
fn registry_stops_at_first_bad_app() {
    let base = FsPath::parse("/base");
    let r = Apps::new(
        &base,
        vec![(s("vim"), cfg(None)), (s("bad"), cfg(Some(vec![vec![]]))), (s("worse"), cfg(Some(vec![vec![]])))],
        &home_env(),
    );
    match r {
        Err(ConfigError::BadLink { app }) => assert_eq!(app, "bad"),
        other => panic!("unexpected {:?}", other),
    }
}

#[test]
fn no_filter_without_names() {
    assert!(Config::app_filter(None, None).is_none());
    assert!(Config::app_filter(Some(vec![]), None).is_some());
}

#[test]
fn filter_keeps_included_and_drops_excluded() {
    let f = AppFilter { only: Some(vec![s("vim"), s("zsh")]), except: Some(vec![s("zsh")]) };
    assert!(f.keeps(&s("vim")));
    assert!(!f.keeps(&s("zsh")));
    assert!(!f.keeps(&s("git")));
    let g = AppFilter { only: None, except: Some(vec![s("git")]) };
    assert!(g.keeps(&s("vim")));
    assert!(!g.keeps(&s("git")));
}

#[test]
fn config_applies_the_filter() {
    let base = FsPath::parse("/base");
    let table = vec![(s("vim"), cfg(None)), (s("zsh"), cfg(None)), (s("git"), cfg(None))];
    let c = Config::new(cli(None, Some(vec!["zsh"])), base.clone(), table, &home_env()).unwrap();
    assert!(c.check_only);
    assert_eq!(c.base_dir, base);
    let names: Vec<String> = c.apps.0.iter().map(|a| a.name.clone()).collect();
    assert_eq!(names, vec![s("vim"), s("git")]);
}

#[test]
fn config_without_filter_keeps_all() {
    let base = FsPath::parse("/base");
    let table = vec![(s("vim"), cfg(None)), (s("zsh"), cfg(None))];
    let c = Config::new(cli(None, None), base, table, &home_env()).unwrap();
    assert_eq!(c.apps.0.len(), 2);
    let only = Config::new(
        cli(Some(vec!["zsh"]), None),
        FsPath::parse("/base"),
        vec![(s("vim"), cfg(None)), (s("zsh"), cfg(None))],
        &home_env(),
    )
    .unwrap();
    assert_eq!(only.apps.0.len(), 1);
    assert_eq!(only.apps.0[0].name, "zsh");
}

#[test]
fn config_file_and_default_base() {
    assert_eq!(find_config(&FsPath::parse("/base")).render(), "/base/dotty.toml");
    assert_eq!(default_base_dir(&home_env()).unwrap().render(), "/home/u/.dotfiles");
    assert!(default_base_dir(&Env::new()).is_none());
}
