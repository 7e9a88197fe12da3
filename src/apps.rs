//! Apps: a source and a destination directory with the links declared between them.

use vstd::prelude::*;
use crate::path::{join_path, parse_path, wf_path, FsPath, FsPathView};
use crate::resolve::{expand_env, expand_env_spec, Env, PathError, PathErrorView};

verus! {

/// The text in an optional string.
pub open spec fn opt_text(o: Option<String>) -> Option<Seq<char>> {
    match o {
        Some(s) => Some(s@),
        None => None,
    }
}

/// The text of both sides of a declared link.
pub open spec fn pair_text(p: (String, String)) -> (Seq<char>, Seq<char>) {
    (p.0@, p.1@)
}

/// The mathematical value of an app.
pub struct AppView {
    pub name: Seq<char>,
    pub srcdir: FsPathView,
    pub dstdir: FsPathView,
    pub description: Option<Seq<char>>,
    pub links: Seq<(Seq<char>, Seq<char>)>,
}

/// One app: where its links live (`srcdir`), where their targets live
/// (`dstdir`), and the links as declared: (destination token, source token).
#[derive(Debug)]
pub struct App {
    pub name: String,
    pub srcdir: FsPath,
    pub dstdir: FsPath,
    pub description: Option<String>,
    pub links: Vec<(String, String)>,
}

impl View for App {
    type V = AppView;

    open spec fn view(&self) -> AppView {
        AppView {
            name: self.name@,
            srcdir: self.srcdir@,
            dstdir: self.dstdir@,
            description: opt_text(self.description),
            links: self.links@.map_values(|p: (String, String)| pair_text(p)),
        }
    }
}

/// The registry of apps, in order.
#[derive(Debug)]
pub struct Apps(pub Vec<App>);

impl View for Apps {
    type V = Seq<AppView>;

    open spec fn view(&self) -> Seq<AppView> {
        self.0@.map_values(|a: App| a@)
    }
}

/// The destination directory of the first app called `name`.
pub open spec fn app_dstdir(apps: Seq<AppView>, name: Seq<char>) -> Option<FsPathView>
    decreases apps.len(),
{
    if apps.len() == 0 {
        None
    } else if apps[0].name == name {
        Some(apps[0].dstdir)
    } else {
        app_dstdir(apps.drop_first(), name)
    }
}

/// Both directories of the app are well formed.
pub open spec fn wf_app(a: AppView) -> bool {
    wf_path(a.srcdir) && wf_path(a.dstdir)
}

/// Every app of the registry has well-formed directories.
pub open spec fn registry_wf(apps: Seq<AppView>) -> bool {
    forall|k: int| 0 <= k < apps.len() ==> wf_app(#[trigger] apps[k])
}

/// No two apps of the registry have the same name.
pub open spec fn names_unique(apps: Seq<AppView>) -> bool {
    forall|j: int, k: int|
        0 <= j < apps.len() && 0 <= k < apps.len() && j != k ==> #[trigger] apps[j].name
            != #[trigger] apps[k].name
}

/// The directory found for a name is that of an app of the registry.
pub proof fn lemma_app_dstdir_wf(apps: Seq<AppView>, name: Seq<char>)
    requires
        registry_wf(apps),
    ensures
        app_dstdir(apps, name) matches Some(d) ==> wf_path(d),
    decreases apps.len(),
{
    if apps.len() > 0 {
        assert(wf_app(apps[0]));
        let rest = apps.drop_first();
        assert forall|k: int| 0 <= k < rest.len() implies wf_app(#[trigger] rest[k]) by {
            assert(rest[k] == apps[k + 1]);
        }
        lemma_app_dstdir_wf(rest, name);
    }
}

/// In a registry whose names are unique, a name finds the directory of the app
/// that has it.
pub proof fn lemma_unique_lookup(apps: Seq<AppView>, k: int)
    requires
        names_unique(apps),
        0 <= k < apps.len(),
    ensures
        app_dstdir(apps, apps[k].name) == Some(apps[k].dstdir),
    decreases apps.len(),
{
    if k > 0 {
        assert(apps[0].name != apps[k].name);
        let rest = apps.drop_first();
        assert(rest[k - 1] == apps[k]);
        assert forall|j: int, m: int|
            0 <= j < rest.len() && 0 <= m < rest.len() && j != m implies #[trigger] rest[j].name
            != #[trigger] rest[m].name by {
            assert(rest[j] == apps[j + 1] && rest[m] == apps[m + 1]);
        }
        lemma_unique_lookup(rest, k - 1);
    }
}

impl Apps {
    /// The destination directory of the app called `name`, if there is one.
    pub fn resolve_name(&self, name: &str) -> (r: Option<FsPath>)
        ensures
            match r {
                Some(d) => app_dstdir(self@, name@) == Some(d@),
                None => app_dstdir(self@, name@) is None,
            },
            registry_wf(self@) ==> (r matches Some(d) ==> wf_path(d@)),
    {
        proof {
            if registry_wf(self@) {
                lemma_app_dstdir_wf(self@, name@);
            }
        }
        let n = self.0.len();
        let mut i: usize = 0;
        assert(self@.subrange(0, n as int) =~= self@);
        while i < n
            invariant
                n == self.0@.len(),
                i <= n,
                app_dstdir(self@, name@) == app_dstdir(self@.subrange(i as int, n as int), name@),
            decreases n - i,
        {
            let ghost rest = self@.subrange(i as int, n as int);
            assert(rest.drop_first() =~= self@.subrange(i + 1, n as int));
            assert(rest[0] == self.0@[i as int]@);
            if crate::path::same_text(self.0[i].name.as_str(), name) {
                return Some(self.0[i].dstdir.copy());
            }
            i = i + 1;
        }
        assert(self@.subrange(n as int, n as int).len() == 0);
        None
    }
}

/// An app as the configuration declares it, before anything is resolved. Each
/// link is a list of one or two tokens.
#[derive(Debug)]
pub struct AppConfig {
    pub srcdir: Option<String>,
    pub dstdir: Option<String>,
    pub description: Option<String>,
    pub links: Option<Vec<Vec<String>>>,
}

/// The mathematical value of an [`AppConfig`].
pub struct AppConfigView {
    pub srcdir: Option<Seq<char>>,
    pub dstdir: Option<Seq<char>>,
    pub description: Option<Seq<char>>,
    pub links: Option<Seq<Seq<Seq<char>>>>,
}

/// The text of each string of a list.
pub open spec fn texts(v: Vec<String>) -> Seq<Seq<char>> {
    v@.map_values(|s: String| s@)
}

/// The text of each declared link.
pub open spec fn opt_links(o: Option<Vec<Vec<String>>>) -> Option<Seq<Seq<Seq<char>>>> {
    match o {
        Some(v) => Some(v@.map_values(|l: Vec<String>| texts(l))),
        None => None,
    }
}

impl View for AppConfig {
    type V = AppConfigView;

    open spec fn view(&self) -> AppConfigView {
        AppConfigView {
            srcdir: opt_text(self.srcdir),
            dstdir: opt_text(self.dstdir),
            description: opt_text(self.description),
            links: opt_links(self.links),
        }
    }
}

/// Why the configuration could not be turned into apps.
#[derive(Debug)]
pub enum ConfigError {
    /// A directory of an app did not resolve.
    Path(PathError),
    /// A link of the app called `app` is not a list of one or two tokens.
    BadLink { app: String },
}

/// The mathematical value of a [`ConfigError`].
pub enum ConfigErrorView {
    Path(PathErrorView),
    BadLink { app: Seq<char> },
}

impl View for ConfigError {
    type V = ConfigErrorView;

    open spec fn view(&self) -> ConfigErrorView {
        match self {
            ConfigError::Path(e) => ConfigErrorView::Path(e@),
            ConfigError::BadLink { app } => ConfigErrorView::BadLink { app: app@ },
        }
    }
}

/// A link declared as `[x]` stands for `[x, x]`; one declared as `[d, s]` is
/// (destination `d`, source `s`); any other length is not a link.
pub open spec fn normalize_spec(l: Seq<Seq<char>>) -> Option<(Seq<char>, Seq<char>)> {
    if l.len() == 1 {
        Some((l[0], l[0]))
    } else if l.len() == 2 {
        Some((l[0], l[1]))
    } else {
        None
    }
}

/// The links of an app, or `None` when one of them is not a link.
pub open spec fn links_spec(links: Seq<Seq<Seq<char>>>) -> Option<Seq<(Seq<char>, Seq<char>)>>
    decreases links.len(),
{
    if links.len() == 0 {
        Some(Seq::empty())
    } else {
        match (links_spec(links.drop_last()), normalize_spec(links.last())) {
            (Some(prev), Some(l)) => Some(prev.push(l)),
            _ => None,
        }
    }
}

/// The source directory that an app without one gets.
pub open spec fn default_srcdir() -> Seq<char> {
    seq!['$', 'H', 'O', 'M', 'E']
}

/// The app called `name` that `cfg` declares, with its directories resolved
/// under `env`: the source directory defaults to `$HOME`, the destination
/// directory to `name`, read relative to `base`. Errors come in the order
/// source directory, destination directory, links.
pub open spec fn app_spec(
    base: FsPathView,
    name: Seq<char>,
    cfg: AppConfigView,
    env: Seq<(Seq<char>, Seq<char>)>,
) -> Result<AppView, ConfigErrorView> {
    let src_text = match cfg.srcdir {
        Some(s) => s,
        None => default_srcdir(),
    };
    let dst_text = match cfg.dstdir {
        Some(d) => d,
        None => name,
    };
    match expand_env_spec(env, parse_path(src_text)) {
        Err(e) => Err(ConfigErrorView::Path(e)),
        Ok(srcdir) => match expand_env_spec(env, join_path(base, parse_path(dst_text))) {
            Err(e) => Err(ConfigErrorView::Path(e)),
            Ok(dstdir) => match cfg.links {
                None => Ok(
                    AppView {
                        name,
                        srcdir,
                        dstdir,
                        description: cfg.description,
                        links: Seq::empty(),
                    },
                ),
                Some(ls) => match links_spec(ls) {
                    None => Err(ConfigErrorView::BadLink { app: name }),
                    Some(links) => Ok(
                        AppView { name, srcdir, dstdir, description: cfg.description, links },
                    ),
                },
            },
        },
    }
}

/// The value of an app result.
pub open spec fn app_result(r: Result<App, ConfigError>) -> Result<AppView, ConfigErrorView> {
    match r {
        Ok(a) => Ok(a@),
        Err(e) => Err(e@),
    }
}

/// The text or the default.
fn text_or(o: Option<String>, default: &str) -> (r: String)
    ensures
        r@ == match o {
            Some(s) => s@,
            None => default@,
        },
{
    match o {
        Some(s) => s,
        None => default.to_owned(),
    }
}

impl App {
    /// A link as (destination, source), from a list of one or two tokens.
    pub fn normalize_link(link: Vec<String>) -> (r: Option<(String, String)>)
        ensures
            match r {
                Some(p) => normalize_spec(texts(link)) == Some(pair_text(p)),
                None => normalize_spec(texts(link)) is None,
            },
    {
        let n = link.len();
        if n == 1 {
            let first = link[0].clone();
            let second = link[0].clone();
            Some((first, second))
        } else if n == 2 {
            Some((link[0].clone(), link[1].clone()))
        } else {
            None
        }
    }

    /// The app called `name` that `app` declares, with its directories resolved
    /// under `env` and read relative to `base_dir`.
    pub fn new(base_dir: &FsPath, name: &str, app: AppConfig, env: &Env) -> (r: Result<App, ConfigError>)
        ensures
            app_result(r) == app_spec(base_dir@, name@, app@, env@),
            r matches Ok(a) ==> a@.name == name@ && (wf_path(base_dir@) ==> wf_app(a@)),
    {
        proof {
            reveal_strlit("$HOME");
        }
        let ghost cfg = app@;
        let AppConfig { srcdir, dstdir, description, links } = app;
        let src_text = text_or(srcdir, "$HOME");
        assert("$HOME"@ =~= default_srcdir());
        let dst_text = text_or(dstdir, name);
        let srcdir = match expand_env(env, &FsPath::parse(src_text.as_str())) {
            Ok(p) => p,
            Err(e) => return Err(ConfigError::Path(e)),
        };
        let dstdir = match expand_env(env, &base_dir.join(&FsPath::parse(dst_text.as_str()))) {
            Ok(p) => p,
            Err(e) => return Err(ConfigError::Path(e)),
        };
        let pairs = match links {
            None => {
                let pairs: Vec<(String, String)> = Vec::new();
                assert(pairs@.map_values(|p: (String, String)| pair_text(p)) =~= Seq::<
                    (Seq<char>, Seq<char>),
                >::empty());
                pairs
            },
            Some(ls) => match collect_links(ls) {
                Some(pairs) => pairs,
                None => return Err(ConfigError::BadLink { app: name.to_owned() }),
            },
        };
        Ok(App { name: name.to_owned(), srcdir, dstdir, description, links: pairs })
    }
}

/// The declared links as (destination, source) pairs, or `None` when one of
/// them is not a list of one or two tokens.
fn collect_links(ls: Vec<Vec<String>>) -> (r: Option<Vec<(String, String)>>)
    ensures
        match r {
            Some(pairs) => links_spec(ls@.map_values(|l: Vec<String>| texts(l))) == Some(
                pairs@.map_values(|p: (String, String)| pair_text(p)),
            ),
            None => links_spec(ls@.map_values(|l: Vec<String>| texts(l))) is None,
        },
{
    let ghost all = ls@.map_values(|l: Vec<String>| texts(l));
    let mut pairs: Vec<(String, String)> = Vec::new();
    let n = ls.len();
    let mut i: usize = 0;
    assert(all.take(0) =~= Seq::<Seq<Seq<char>>>::empty());
    assert(pairs@.map_values(|p: (String, String)| pair_text(p)) =~= Seq::<
        (Seq<char>, Seq<char>),
    >::empty());
    while i < n
        invariant
            n == all.len(),
            n == ls@.len(),
            i <= n,
            all == ls@.map_values(|l: Vec<String>| texts(l)),
            links_spec(all.take(i as int)) == Some(
                pairs@.map_values(|p: (String, String)| pair_text(p)),
            ),
        decreases n - i,
    {
        let one = ls[i].clone();
        assert(texts(one) == all[i as int]) by {
            assert(texts(one) =~= texts(ls@[i as int]));
        }
        assert(all.take(i + 1).drop_last() =~= all.take(i as int));
        assert(all.take(i + 1).last() == all[i as int]);
        match App::normalize_link(one) {
            Some(pair) => {
                let ghost before = pairs@;
                pairs.push(pair);
                assert(pairs@.map_values(|p: (String, String)| pair_text(p)) =~= before.map_values(
                    |p: (String, String)| pair_text(p),
                ).push(pair_text(pair)));
            },
            None => {
                proof {
                    lemma_links_prefix_fails(all, i as int + 1);
                }
                return None;
            },
        }
        i = i + 1;
    }
    assert(all.take(n as int) =~= all);
    Some(pairs)
}

/// When a prefix of the links holds a bad one, so do the links.
proof fn lemma_links_prefix_fails(all: Seq<Seq<Seq<char>>>, k: int)
    requires
        0 <= k <= all.len(),
        links_spec(all.take(k)) is None,
    ensures
        links_spec(all) is None,
    decreases all.len() - k,
{
    if k < all.len() {
        assert(all.take(k + 1).drop_last() =~= all.take(k));
        lemma_links_prefix_fails(all, k + 1);
    } else {
        assert(all.take(k) =~= all);
    }
}

/// The value of the declared apps, in order.
pub open spec fn entries_view(v: Vec<(String, AppConfig)>) -> Seq<(Seq<char>, AppConfigView)> {
    v@.map_values(|e: (String, AppConfig)| (e.0@, e.1@))
}

/// The apps that `entries` declare, in order, or the first error met.
pub open spec fn apps_spec(
    base: FsPathView,
    entries: Seq<(Seq<char>, AppConfigView)>,
    env: Seq<(Seq<char>, Seq<char>)>,
) -> Result<Seq<AppView>, ConfigErrorView>
    decreases entries.len(),
{
    if entries.len() == 0 {
        Ok(Seq::empty())
    } else {
        match apps_spec(base, entries.drop_last(), env) {
            Err(e) => Err(e),
            Ok(prev) => match app_spec(base, entries.last().0, entries.last().1, env) {
                Err(e) => Err(e),
                Ok(a) => Ok(prev.push(a)),
            },
        }
    }
}

/// When a prefix of the entries fails, so do the entries, with the same error.
proof fn lemma_apps_prefix_fails(
    base: FsPathView,
    entries: Seq<(Seq<char>, AppConfigView)>,
    env: Seq<(Seq<char>, Seq<char>)>,
    k: int,
)
    requires
        0 <= k <= entries.len(),
        apps_spec(base, entries.take(k), env) is Err,
    ensures
        apps_spec(base, entries, env) == apps_spec(base, entries.take(k), env),
    decreases entries.len() - k,
{
    if k < entries.len() {
        assert(entries.take(k + 1).drop_last() =~= entries.take(k));
        lemma_apps_prefix_fails(base, entries, env, k + 1);
    } else {
        assert(entries.take(k) =~= entries);
    }
}

impl Apps {
    /// The registry of the apps that `apps` declare, each resolved as
    /// [`App::new`] does; the first app that fails stops the whole.
    pub fn new(base_dir: &FsPath, apps: Vec<(String, AppConfig)>, env: &Env) -> (r: Result<Apps, ConfigError>)
        ensures
            match r {
                Ok(a) => apps_spec(base_dir@, entries_view(apps), env@) == Ok::<
                    Seq<AppView>,
                    ConfigErrorView,
                >(a@),
                Err(e) => apps_spec(base_dir@, entries_view(apps), env@) == Err::<
                    Seq<AppView>,
                    ConfigErrorView,
                >(e@),
            },
            r matches Ok(a) ==> {
                &&& a@.len() == apps@.len()
                &&& forall|k: int| 0 <= k < a@.len() ==> #[trigger] a@[k].name == apps@[k].0@
                &&& entries_view(apps).map_values(|e: (Seq<char>, AppConfigView)| e.0).no_duplicates()
                    ==> names_unique(a@)
                &&& wf_path(base_dir@) ==> registry_wf(a@)
            },
    {
        let ghost all = entries_view(apps);
        let mut out: Vec<App> = Vec::new();
        let mut rest = apps;
        let n = rest.len();
        let mut i: usize = 0;
        assert(all.take(0) =~= Seq::<(Seq<char>, AppConfigView)>::empty());
        assert(out@.map_values(|a: App| a@) =~= Seq::<AppView>::empty());
        assert(entries_view(rest) =~= all.subrange(0, n as int));
        while i < n
            invariant
                n == all.len(),
                i <= n,
                out@.len() == i,
                all == entries_view(apps),
                rest@.len() == n - i,
                entries_view(rest) == all.subrange(i as int, n as int),
                forall|k: int| 0 <= k < i ==> #[trigger] out@[k]@.name == all[k].0,
                wf_path(base_dir@) ==> forall|k: int| 0 <= k < i ==> wf_app(#[trigger] out@[k]@),
                apps_spec(base_dir@, all.take(i as int), env@) == Ok::<
                    Seq<AppView>,
                    ConfigErrorView,
                >(out@.map_values(|a: App| a@)),
            decreases n - i,
        {
            let ghost before = out@;
            let ghost rest_before = rest@;
            assert(entries_view(rest)[0] == all[i as int]);
            let (name, cfg) = rest.remove(0);
            assert(entries_view(rest) =~= all.subrange(i + 1, n as int)) by {
                assert(rest@ =~= rest_before.subrange(1, rest_before.len() as int));
                assert(entries_view(rest).len() == n - i - 1);
                assert forall|k: int| 0 <= k < n - i - 1 implies #[trigger] entries_view(rest)[k] == all[i + 1 + k] by {
                    assert(entries_view(rest)[k] == (rest@[k].0@, rest@[k].1@));
                    assert(rest@[k] == rest_before[k + 1]);
                    assert(all.subrange(i as int, n as int)[k + 1] == all[i + 1 + k]);
                }
            }
            assert(all.take(i + 1).drop_last() =~= all.take(i as int));
            assert(all.take(i + 1).last() == all[i as int]);
            assert(all[i as int] == (name@, cfg@));
            let ghost cfg_v = cfg@;
            let ghost step = app_spec(base_dir@, name@, cfg_v, env@);
            match App::new(base_dir, name.as_str(), cfg, env) {
                Ok(a) => {
                    let ghost av = a@;
                    out.push(a);
                    assert(out@.map_values(|a: App| a@) =~= before.map_values(|a: App| a@).push(av));
                },
                Err(e) => {
                    proof {
                        assert(step == Err::<AppView, ConfigErrorView>(e@));
                        assert(apps_spec(base_dir@, all.take(i + 1), env@) == Err::<
                            Seq<AppView>,
                            ConfigErrorView,
                        >(e@));
                        lemma_apps_prefix_fails(base_dir@, all, env@, i + 1);
                    }
                    return Err(e);
                },
            }
            i = i + 1;
        }
        assert(all.take(n as int) =~= all);
        let r = Apps(out);
        proof {
            assert forall|k: int| 0 <= k < r@.len() implies #[trigger] r@[k].name == apps@[k].0@ by {
                assert(all[k] == (apps@[k].0@, apps@[k].1@));
            }
            let names = all.map_values(|e: (Seq<char>, AppConfigView)| e.0);
            if names.no_duplicates() {
                assert forall|j: int, k: int|
                    0 <= j < r@.len() && 0 <= k < r@.len() && j != k implies #[trigger] r@[j].name
                    != #[trigger] r@[k].name by {
                    assert(names[j] == r@[j].name && names[k] == r@[k].name);
                }
            }
            if wf_path(base_dir@) {
                assert forall|k: int| 0 <= k < r@.len() implies wf_app(#[trigger] r@[k]) by {
                    assert(wf_app(out@[k]@));
                }
            }
        }
        Ok(r)
    }
}

} // verus!
