//! The command line, the choice of apps, and the configuration built from them.

use vstd::prelude::*;
use crate::apps::{
    apps_spec, entries_view, registry_wf, texts, AppConfig, AppConfigView, AppView, Apps, ConfigErrorView,
    ConfigError,
};
use crate::path::{parse_path, wf_path, FsPath, FsPathView};
use crate::resolve::{env_lookup, Env};

verus! {

/// What the command line asks for.
#[derive(Debug)]
pub struct Cli {
    /// The directory that holds the apps; by default `$HOME/.dotfiles`.
    pub base_dir: Option<String>,
    /// The configuration file; by default `dotty.toml` in the base directory.
    pub config_file: Option<String>,
    /// Report only: create no link.
    pub check_only: bool,
    /// When given, only these apps are considered.
    pub include_apps: Option<Vec<String>>,
    /// When given, these apps are left out.
    pub exclude_apps: Option<Vec<String>>,
}

/// The value of an optional list of names.
pub open spec fn opt_names(o: Option<Vec<String>>) -> Option<Seq<Seq<char>>> {
    match o {
        Some(v) => Some(texts(v)),
        None => None,
    }
}

/// An app is kept when it is among the included ones, if those are given, and
/// not among the excluded ones, if those are given.
pub open spec fn keeps_spec(
    only: Option<Seq<Seq<char>>>,
    except: Option<Seq<Seq<char>>>,
    name: Seq<char>,
) -> bool {
    &&& (only matches Some(inc) ==> inc.contains(name))
    &&& (except matches Some(exc) ==> !exc.contains(name))
}

/// The apps to consider, by name.
#[derive(Debug)]
pub struct AppFilter {
    pub only: Option<Vec<String>>,
    pub except: Option<Vec<String>>,
}

/// Whether `name` is in `list`.
fn contains_name(list: &Vec<String>, name: &String) -> (r: bool)
    ensures
        r == texts(*list).contains(name@),
{
    let n = list.len();
    let mut i: usize = 0;
    while i < n
        invariant
            n == list@.len(),
            i <= n,
            forall|k: int| 0 <= k < i ==> list@[k]@ != name@,
        decreases n - i,
    {
        if list[i] == *name {
            assert(texts(*list)[i as int] == name@);
            return true;
        }
        i = i + 1;
    }
    assert(!texts(*list).contains(name@)) by {
        if texts(*list).contains(name@) {
            let k = choose|k: int| 0 <= k < texts(*list).len() && texts(*list)[k] == name@;
            assert(list@[k]@ == name@);
        }
    }
    false
}

impl AppFilter {
    /// Whether the app called `name` is kept.
    pub fn keeps(&self, name: &String) -> (r: bool)
        ensures
            r == keeps_spec(opt_names(self.only), opt_names(self.except), name@),
    {
        let included = match &self.only {
            Some(inc) => contains_name(inc, name),
            None => true,
        };
        let excluded = match &self.except {
            Some(exc) => contains_name(exc, name),
            None => false,
        };
        included && !excluded
    }
}

/// The entries whose names the filter keeps, in order.
pub open spec fn kept(
    entries: Seq<(Seq<char>, AppConfigView)>,
    only: Option<Seq<Seq<char>>>,
    except: Option<Seq<Seq<char>>>,
) -> Seq<(Seq<char>, AppConfigView)> {
    entries.filter(|e: (Seq<char>, AppConfigView)| keeps_spec(only, except, e.0))
}

/// The entries that `filter` keeps.
fn filter_apps(entries: Vec<(String, AppConfig)>, filter: &AppFilter) -> (r: Vec<(String, AppConfig)>)
    ensures
        entries_view(r) == kept(entries_view(entries), opt_names(filter.only), opt_names(filter.except)),
{
    let ghost all = entries_view(entries);
    let ghost pred = |e: (Seq<char>, AppConfigView)|
        keeps_spec(opt_names(filter.only), opt_names(filter.except), e.0);
    let mut out: Vec<(String, AppConfig)> = Vec::new();
    let mut rest = entries;
    let n = rest.len();
    let mut i: usize = 0;
    proof {
        reveal(Seq::filter);
    }
    assert(all.take(0).filter(pred) =~= entries_view(out));
    assert(entries_view(rest) =~= all.subrange(0, n as int));
    while i < n
        invariant
            n == all.len(),
            i <= n,
            all == entries_view(entries),
            pred == (|e: (Seq<char>, AppConfigView)|
                keeps_spec(opt_names(filter.only), opt_names(filter.except), e.0)),
            rest@.len() == n - i,
            entries_view(rest) == all.subrange(i as int, n as int),
            entries_view(out) == all.take(i as int).filter(pred),
        decreases n - i,
    {
        let ghost rest_before = rest@;
        let ghost out_before = out@;
        let ghost out_view_before = entries_view(out);
        assert(entries_view(rest)[0] == all[i as int]);
        let entry = rest.remove(0);
        assert(entries_view(rest) =~= all.subrange(i + 1, n as int)) by {
            assert(rest@ =~= rest_before.subrange(1, rest_before.len() as int));
            assert forall|k: int| 0 <= k < n - i - 1 implies #[trigger] entries_view(rest)[k] == all[i
                + 1 + k] by {
                assert(rest@[k] == rest_before[k + 1]);
                assert(all.subrange(i as int, n as int)[k + 1] == all[i + 1 + k]);
            }
        }
        proof {
            reveal(Seq::filter);
            assert(all.take(i + 1).drop_last() =~= all.take(i as int));
            assert(all.take(i + 1).last() == all[i as int]);
        }
        if filter.keeps(&entry.0) {
            let ghost ev = (entry.0@, entry.1@);
            out.push(entry);
            assert(entries_view(out) =~= out_view_before.push(ev)) by {
                assert(out@ == out_before.push(out@[out@.len() - 1]));
            }
        }
        i = i + 1;
    }
    assert(all.take(n as int) =~= all);
    out
}

/// Keeping every entry leaves them as they were.
proof fn lemma_keep_all(
    entries: Seq<(Seq<char>, AppConfigView)>,
    pred: spec_fn((Seq<char>, AppConfigView)) -> bool,
)
    requires
        forall|e: (Seq<char>, AppConfigView)| #[trigger] pred(e),
    ensures
        entries.filter(pred) == entries,
    decreases entries.len(),
{
    reveal(Seq::filter);
    if entries.len() > 0 {
        lemma_keep_all(entries.drop_last(), pred);
        assert(entries.drop_last().push(entries.last()) =~= entries);
    }
}

/// The name of the configuration file in the base directory.
pub open spec fn config_name() -> Seq<char> {
    seq!['d', 'o', 't', 't', 'y', '.', 't', 'o', 'm', 'l']
}

/// The configuration file that `base_dir` holds.
pub fn find_config(base_dir: &FsPath) -> (r: FsPath)
    ensures
        r@ == (FsPathView { absolute: base_dir@.absolute, segments: base_dir@.segments.push(config_name()) }),
{
    proof {
        reveal_strlit("dotty.toml");
    }
    let mut r = base_dir.copy();
    let name = String::from_str("dotty.toml");
    assert(name@ =~= config_name());
    let ghost before = r@;
    r.segments.push(name);
    assert(r@.segments =~= before.segments.push(config_name()));
    r
}

/// The name of the directory in the home directory that holds the apps by default.
pub open spec fn dotfiles_name() -> Seq<char> {
    seq!['.', 'd', 'o', 't', 'f', 'i', 'l', 'e', 's']
}

/// The base directory when none is given: `.dotfiles` in the directory that
/// `HOME` names, or `None` when `HOME` is not set.
pub fn default_base_dir(env: &Env) -> (r: Option<FsPath>)
    ensures
        match r {
            Some(p) => env_lookup(env@, seq!['H', 'O', 'M', 'E']) matches Some(home) && p@
                == (FsPathView {
                absolute: parse_path(home).absolute,
                segments: parse_path(home).segments.push(dotfiles_name()),
            }),
            None => env_lookup(env@, seq!['H', 'O', 'M', 'E']) is None,
        },
{
    proof {
        reveal_strlit("HOME");
        reveal_strlit(".dotfiles");
    }
    assert("HOME"@ =~= seq!['H', 'O', 'M', 'E']);
    match env.get("HOME") {
        None => None,
        Some(home) => {
            let mut r = FsPath::parse(home.as_str());
            let name = String::from_str(".dotfiles");
            assert(name@ =~= dotfiles_name());
            let ghost before = r@;
            r.segments.push(name);
            assert(r@.segments =~= before.segments.push(dotfiles_name()));
            Some(r)
        },
    }
}

/// Everything a run needs: the base directory, the apps, and whether to
/// create missing links.
#[derive(Debug)]
pub struct Config {
    pub base_dir: FsPath,
    pub apps: Apps,
    pub check_only: bool,
}

impl Config {
    /// The filter that the command line asks for, or `None` when it names no app.
    pub fn app_filter(incl: Option<Vec<String>>, excl: Option<Vec<String>>) -> (r: Option<AppFilter>)
        ensures
            match r {
                Some(f) => !(incl is None && excl is None) && opt_names(f.only) == opt_names(incl)
                    && opt_names(f.except) == opt_names(excl),
                None => incl is None && excl is None,
            },
    {
        if incl.is_none() && excl.is_none() {
            None
        } else {
            Some(AppFilter { only: incl, except: excl })
        }
    }

    /// The configuration of a run: the apps that `table` declares, as many of
    /// them as the command line keeps, resolved under `env` relative to
    /// `base_dir`.
    pub fn new(args: Cli, base_dir: FsPath, table: Vec<(String, AppConfig)>, env: &Env) -> (r: Result<Config, ConfigError>)
        ensures
            match r {
                Ok(c) => {
                    &&& c.base_dir@ == base_dir@
                    &&& c.check_only == args.check_only
                    &&& apps_spec(
                        base_dir@,
                        kept(entries_view(table), opt_names(args.include_apps), opt_names(args.exclude_apps)),
                        env@,
                    ) == Ok::<Seq<AppView>, ConfigErrorView>(c.apps@)
                    &&& wf_path(base_dir@) ==> registry_wf(c.apps@)
                },
                Err(e) => apps_spec(
                    base_dir@,
                    kept(entries_view(table), opt_names(args.include_apps), opt_names(args.exclude_apps)),
                    env@,
                ) == Err::<Seq<AppView>, ConfigErrorView>(e@),
            },
    {
        let Cli { base_dir: _, config_file: _, check_only, include_apps, exclude_apps } = args;
        let ghost incl = opt_names(include_apps);
        let ghost excl = opt_names(exclude_apps);
        let chosen = match Config::app_filter(include_apps, exclude_apps) {
            Some(f) => filter_apps(table, &f),
            None => {
                proof {
                    lemma_keep_all(
                        entries_view(table),
                        |e: (Seq<char>, AppConfigView)| keeps_spec(incl, excl, e.0),
                    );
                }
                table
            },
        };
        match Apps::new(&base_dir, chosen, env) {
            Ok(apps) => Ok(Config { base_dir, apps, check_only }),
            Err(e) => Err(e),
        }
    }
}

} // verus!
