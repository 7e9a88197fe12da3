use dotty::apps::{App, Apps};
use dotty::link::{
    after_create, after_probe, begin_link, check_link, make_link, resolve_link, Link, LinkStatus,
    Probe, SrcState, Step,
};
use dotty::output::{AppOutput, AppResult};
use dotty::path::FsPath;
use dotty::resolve::{Env, PathError};

fn p(s: &str) -> FsPath {
    FsPath::parse(s)
}

fn home_env() -> Env {
    let mut env = Env::new();
    env.set("HOME".to_string(), "/home/u".to_string());
    env
}

fn app(name: &str, dst: &str, links: &[(&str, &str)]) -> App {
    App {
        name: name.to_string(),
        srcdir: p("/home/u"),
        dstdir: p(dst),
        description: None,
        links: links.iter().map(|(d, s)| (d.to_string(), s.to_string())).collect(),
    }
}

fn absent(dst_exists: bool) -> Probe {
    Probe { src: SrcState::Absent, dst_exists }
}

fn target(t: &str) -> Probe {
    Probe { src: SrcState::Target(t.to_string()), dst_exists: true }
}

fn reported_status(step: Step) -> LinkStatus {
    match step {
        Step::Report(AppResult::Linked(l)) => l.status,
        other => panic!("unexpected {:?}", other),
    }
}

#[test]
fn missing_link_is_created() {
    let vim = app("vim", "/base/vim", &[("vimrc", ".vimrc")]);
    let apps = Apps(vec![]);
    let env = home_env();
    let (src, dst) = resolve_link(&apps, &env, &vim.dstdir, &vim.srcdir, &vim.links[0]).unwrap();
    assert_eq!(src.render(), "/home/u/.vimrc");
    assert_eq!(dst.render(), "/base/vim/vimrc");
    let l = check_link(src.clone(), dst.clone(), &absent(true)).unwrap();
    assert!(matches!(l.status, LinkStatus::SrcUnexists));
    let plan = match after_probe(src, dst, &absent(true), false) {
        Step::Create(plan) => plan,
        other => panic!("unexpected {:?}", other),
    };
    assert_eq!(plan.dir.render(), "/home/u");
    assert_eq!(plan.src.render(), "/home/u/.vimrc");
    assert_eq!(plan.dst.render(), "/base/vim/vimrc");
    match after_create(plan, Ok(())) {
        Step::Report(AppResult::Linked(l)) => {
            assert!(matches!(l.status, LinkStatus::Exists));
            assert_eq!(l.src.render(), "/home/u/.vimrc");
            assert_eq!(l.dst.render(), "/base/vim/vimrc");
        }
        other => panic!("unexpected {:?}", other),
    }
}

#[test]
fn link_in_place_is_reported_and_never_created() {
    let src = p("/home/u/.vimrc");
    let dst = p("/base/vim/vimrc");
    let l = check_link(src.clone(), dst.clone(), &target("/base/vim/vimrc")).unwrap();
    assert!(matches!(l.status, LinkStatus::Exists));
    for check_only in [false, true] {
        let s = reported_status(after_probe(src.clone(), dst.clone(), &target("/base/vim/vimrc"), check_only));
        assert!(matches!(s, LinkStatus::Exists));
    }
}

#[test]
fn link_elsewhere_is_unexpected() {
    let src = p("/home/u/.vimrc");
    let dst = p("/base/vim/vimrc");
    let l = check_link(src.clone(), dst.clone(), &target("/etc/vimrc")).unwrap();
    match l.status {
        LinkStatus::Unexpected(found) => assert_eq!(found.render(), "/etc/vimrc"),
        other => panic!("unexpected {:?}", other),
    }
    for check_only in [false, true] {
        let s = reported_status(after_probe(src.clone(), dst.clone(), &target("/etc/vimrc"), check_only));
        assert!(matches!(s, LinkStatus::Unexpected(_)));
    }
}

#[test]
fn missing_destination_is_never_linked() {
    let src = p("/home/u/.zshrc");
    let dst = p("/base/zsh/zshrc");
    let l = check_link(src.clone(), dst.clone(), &absent(false)).unwrap();
    assert!(matches!(l.status, LinkStatus::DstUnexists));
    let s = reported_status(after_probe(src, dst, &absent(false), false));
    assert!(matches!(s, LinkStatus::DstUnexists));
}

#[test]
fn reference_to_other_app_replaces_first_segment() {
    let other = app("other-app", "/base/other", &[]);
    let zsh = app("zsh", "/base/zsh", &[("{{other-app}}/zshrc", ".zshrc")]);
    let apps = Apps(vec![other]);
    let env = home_env();
    let (src, dst) = resolve_link(&apps, &env, &zsh.dstdir, &zsh.srcdir, &zsh.links[0]).unwrap();
    assert_eq!(dst.render(), "/base/other/zshrc");
    assert_eq!(src.render(), "/home/u/.zshrc");
}

#[test]
fn unresolved_destination_is_reported_without_paths() {
    let zsh = app("zsh", "/base/zsh", &[("{{nowhere}}/zshrc", ".zshrc")]);
    let apps = Apps(vec![]);
    match begin_link(&apps, &home_env(), &zsh, &zsh.links[0]) {
        Step::Report(AppResult::Failed { error: PathError::InvalidNameRef { name, .. }, link: None }) => {
            assert_eq!(name, "{{nowhere}}")
        }
        other => panic!("unexpected {:?}", other),
    }
    let bad_src = app("zsh", "/base/zsh", &[("zshrc", "$UNSET/.zshrc")]);
    match begin_link(&apps, &home_env(), &bad_src, &bad_src.links[0]) {
        Step::Report(AppResult::Failed { error: PathError::InvalidEnvVar { var, .. }, link: None }) => {
            assert_eq!(var, "UNSET")
        }
        other => panic!("unexpected {:?}", other),
    }
}

#[test]
fn begin_link_asks_to_probe_the_resolved_pair() {
    let vim = app("vim", "/base/vim", &[("vimrc", ".vimrc")]);
    match begin_link(&Apps(vec![]), &home_env(), &vim, &vim.links[0]) {
        Step::Probe { src, dst } => {
            assert_eq!(src.render(), "/home/u/.vimrc");
            assert_eq!(dst.render(), "/base/vim/vimrc");
        }
        other => panic!("unexpected {:?}", other),
    }
}

#[test]
fn checking_twice_gives_the_same_status() {
    let src = p("/home/u/.vimrc");
    let dst = p("/base/vim/vimrc");
    for probe in [absent(true), absent(false), target("/base/vim/vimrc"), target("/etc/vimrc")] {
        let first = check_link(src.clone(), dst.clone(), &probe).unwrap();
        let second = check_link(src.clone(), dst.clone(), &probe).unwrap();
        assert_eq!(format!("{:?}", first.status), format!("{:?}", second.status));
        assert!(matches!(after_probe(src.clone(), dst.clone(), &probe, true), Step::Report(_)));
    }
}

#[test]
fn created_link_checks_as_in_place() {
    let src = p("/home/u/.vimrc");
    let dst = p("/base/vim/vimrc");
    let plan = make_link(src.clone(), dst.clone()).unwrap();
    let written = plan.dst.render();
    for dst_exists in [true, false] {
        let probe = Probe { src: SrcState::Target(written.clone()), dst_exists };
        let l = check_link(src.clone(), dst.clone(), &probe).unwrap();
        assert!(matches!(l.status, LinkStatus::Exists));
    }
}

#[test]
fn dangling_link_elsewhere_is_unexpected_and_not_created() {
    let src = p("/home/u/.vimrc");
    let dst = p("/base/vim/vimrc");
    let probe = Probe { src: SrcState::Target("/etc/gone".to_string()), dst_exists: true };
    match after_probe(src, dst, &probe, false) {
        Step::Report(AppResult::Linked(l)) => match l.status {
            LinkStatus::Unexpected(found) => assert_eq!(found.render(), "/etc/gone"),
            other => panic!("unexpected {:?}", other),
        },
        other => panic!("unexpected {:?}", other),
    }
}

#[test]
fn target_compared_by_segments() {
    let l = check_link(p("/home/u/.vimrc"), p("/base/vim/vimrc"), &target("/base//vim/vimrc/")).unwrap();
    assert!(matches!(l.status, LinkStatus::Exists));
    let rel = check_link(p("/home/u/.vimrc"), p("/base/vim/vimrc"), &target("base/vim/vimrc")).unwrap();
    assert!(matches!(rel.status, LinkStatus::Unexpected(_)));
}

#[test]
fn each_readable_source_gets_one_status() {
    let src = p("/home/u/.vimrc");
    let dst = p("/base/vim/vimrc");
    let cases = [
        (absent(true), "SrcUnexists"),
        (absent(false), "DstUnexists"),
        (target("/base/vim/vimrc"), "Exists"),
        (target("/etc/vimrc"), "Unexpected"),
    ];
    for (probe, want) in cases {
        let l = check_link(src.clone(), dst.clone(), &probe).unwrap();
        assert!(format!("{:?}", l.status).starts_with(want));
        assert_eq!(l.src, src);
        assert_eq!(l.dst, dst);
    }
}

#[test]
fn unreadable_source_is_an_io_error() {
    let probe = Probe { src: SrcState::Unreadable("Invalid argument".to_string()), dst_exists: true };
    match check_link(p("/home/u/.vimrc"), p("/base/vim/vimrc"), &probe) {
        Err(PathError::IoError(m)) => assert_eq!(m, "Invalid argument"),
        other => panic!("unexpected {:?}", other),
    }
    match after_probe(p("/home/u/.vimrc"), p("/base/vim/vimrc"), &probe, false) {
        Step::Report(AppResult::Failed { error: PathError::IoError(_), link: None }) => {}
        other => panic!("unexpected {:?}", other),
    }
}

#[test]
fn source_without_parent_cannot_be_linked() {
    match make_link(p("/"), p("/base/vim/vimrc")) {
        Err(PathError::NoParent(path)) => assert_eq!(path.render(), "/"),
        other => panic!("unexpected {:?}", other),
    }
    match after_probe(p("/"), p("/base/vim/vimrc"), &absent(true), false) {
        Step::Report(AppResult::Failed { error: PathError::NoParent(_), link: Some((s, d)) }) => {
            assert_eq!(s.render(), "/");
            assert_eq!(d.render(), "/base/vim/vimrc");
        }
        other => panic!("unexpected {:?}", other),
    }
}

#[test]
fn check_only_reports_missing_link() {
    let s = reported_status(after_probe(p("/home/u/.vimrc"), p("/base/vim/vimrc"), &absent(true), true));
    assert!(matches!(s, LinkStatus::SrcUnexists));
}

#[test]
fn failed_creation_is_reported_with_the_pair() {
    let plan = make_link(p("/home/u/.vimrc"), p("/base/vim/vimrc")).unwrap();
    match after_create(plan, Err("Permission denied".to_string())) {
        Step::Report(AppResult::Failed { error: PathError::IoError(m), link: Some((s, d)) }) => {
            assert_eq!(m, "Permission denied");
            assert_eq!(s.render(), "/home/u/.vimrc");
            assert_eq!(d.render(), "/base/vim/vimrc");
        }
        other => panic!("unexpected {:?}", other),
    }
}

#[test]
fn link_constructors_set_the_status() {
    assert!(matches!(Link::src_unexists(p("a"), p("b")).status, LinkStatus::SrcUnexists));
    assert!(matches!(Link::dst_unexists(p("a"), p("b")).status, LinkStatus::DstUnexists));
    assert!(matches!(Link::existing(p("a"), p("b")).status, LinkStatus::Exists));
    match Link::unexpected(p("a"), p("b"), p("c")).status {
        LinkStatus::Unexpected(f) => assert_eq!(f.render(), "c"),
        other => panic!("unexpected {:?}", other),
    }
}

#[test]
fn output_keeps_declaration_order() {
    let mut out = AppOutput::new("vim");
    out.output_link(Link::existing(p("/a"), p("/b")));
    out.output_error(PathError::IoError("x".to_string()), None);
    out.output(AppResult::Linked(Link::src_unexists(p("/c"), p("/d"))));
    assert_eq!(out.name, "vim");
    assert_eq!(out.results.len(), 3);
    assert!(matches!(out.results[0], AppResult::Linked(_)));
    assert!(matches!(out.results[1], AppResult::Failed { .. }));
    assert!(matches!(out.results[2], AppResult::Linked(_)));
}
