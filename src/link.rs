//! Classifying a declared link from what the file system shows, and deciding
//! when to create it.
//!
//! The library does not touch the file system. Each link goes through a few
//! [`Step`]s: the caller carries out a step (looks at two paths, or creates a
//! link) and hands what it saw back to the next function.

use vstd::prelude::*;
use crate::apps::{app_dstdir, registry_wf, wf_app, App, Apps, AppView};
use crate::output::{AppResult, AppResultView};
use crate::path::{
    join_path, lemma_parse_render, parent_path, parse_path, render_path, wf_path, FsPath, FsPathView,
};
use crate::resolve::{
    expand_app, expand_app_spec, expand_env, expand_env_spec, is_ref_segment, is_var_segment,
    lemma_app_reference_roots, lemma_env_identity, ref_name, Env, PathError,
    PathErrorView,
};

verus! {

/// How a declared link stands on disk.
#[derive(Debug)]
pub enum LinkStatus {
    /// Nothing is at the source path: the link is missing.
    SrcUnexists,
    /// Nothing is at the source path, and the destination does not exist either.
    DstUnexists,
    /// The source is a link to exactly the destination.
    Exists,
    /// The source is a link to the path held here, not to the destination.
    Unexpected(FsPath),
}

/// The mathematical value of a [`LinkStatus`].
pub enum LinkStatusView {
    SrcUnexists,
    DstUnexists,
    Exists,
    Unexpected(FsPathView),
}

impl View for LinkStatus {
    type V = LinkStatusView;

    open spec fn view(&self) -> LinkStatusView {
        match self {
            LinkStatus::SrcUnexists => LinkStatusView::SrcUnexists,
            LinkStatus::DstUnexists => LinkStatusView::DstUnexists,
            LinkStatus::Exists => LinkStatusView::Exists,
            LinkStatus::Unexpected(p) => LinkStatusView::Unexpected(p@),
        }
    }
}

/// A resolved link: the link's own path `src`, the path it should point to
/// `dst`, and how it stands.
#[derive(Debug)]
pub struct Link {
    pub src: FsPath,
    pub dst: FsPath,
    pub status: LinkStatus,
}

/// The mathematical value of a [`Link`].
pub struct LinkView {
    pub src: FsPathView,
    pub dst: FsPathView,
    pub status: LinkStatusView,
}

impl View for Link {
    type V = LinkView;

    open spec fn view(&self) -> LinkView {
        LinkView { src: self.src@, dst: self.dst@, status: self.status@ }
    }
}

impl Link {
    /// A link that is missing.
    pub fn src_unexists(src: FsPath, dst: FsPath) -> (r: Link)
        ensures
            r@ == (LinkView { src: src@, dst: dst@, status: LinkStatusView::SrcUnexists }),
    {
        Link { src, dst, status: LinkStatus::SrcUnexists }
    }

    /// A link that is missing, with a destination that does not exist.
    pub fn dst_unexists(src: FsPath, dst: FsPath) -> (r: Link)
        ensures
            r@ == (LinkView { src: src@, dst: dst@, status: LinkStatusView::DstUnexists }),
    {
        Link { src, dst, status: LinkStatus::DstUnexists }
    }

    /// A link in place.
    pub fn existing(src: FsPath, dst: FsPath) -> (r: Link)
        ensures
            r@ == (LinkView { src: src@, dst: dst@, status: LinkStatusView::Exists }),
    {
        Link { src, dst, status: LinkStatus::Exists }
    }

    /// A link to `found` where `dst` was declared.
    pub fn unexpected(src: FsPath, dst: FsPath, found: FsPath) -> (r: Link)
        ensures
            r@ == (LinkView { src: src@, dst: dst@, status: LinkStatusView::Unexpected(found@) }),
    {
        Link { src, dst, status: LinkStatus::Unexpected(found) }
    }
}

/// What the file system shows at a link's source path.
#[derive(Debug)]
pub enum SrcState {
    /// No entry at all is there. Links are not followed: a link whose target
    /// is missing is still an entry.
    Absent,
    /// A link is there, and its target reads as this text, whether or not
    /// that target exists.
    Target(String),
    /// An entry is there, but its link target could not be read (it is not a
    /// link, say); the text says why.
    Unreadable(String),
}

/// The mathematical value of a [`SrcState`].
pub enum SrcStateView {
    Absent,
    Target(Seq<char>),
    Unreadable(Seq<char>),
}

impl View for SrcState {
    type V = SrcStateView;

    open spec fn view(&self) -> SrcStateView {
        match self {
            SrcState::Absent => SrcStateView::Absent,
            SrcState::Target(t) => SrcStateView::Target(t@),
            SrcState::Unreadable(m) => SrcStateView::Unreadable(m@),
        }
    }
}

/// What the file system shows of one (source, destination) pair.
#[derive(Debug)]
pub struct Probe {
    pub src: SrcState,
    pub dst_exists: bool,
}

/// The mathematical value of a [`Probe`].
pub struct ProbeView {
    pub src: SrcStateView,
    pub dst_exists: bool,
}

impl View for Probe {
    type V = ProbeView;

    open spec fn view(&self) -> ProbeView {
        ProbeView { src: self.src@, dst_exists: self.dst_exists }
    }
}

/// The classification of the pair (`src`, `dst`) from what `probe` shows:
/// a readable link at `src` is in place when its target is exactly `dst`;
/// with nothing at `src`, the link is missing, and its destination too when
/// `dst` does not exist.
pub open spec fn check_spec(src: FsPathView, dst: FsPathView, probe: ProbeView) -> Result<
    LinkView,
    PathErrorView,
> {
    match probe.src {
        SrcStateView::Target(t) => if parse_path(t) == dst {
            Ok(LinkView { src, dst, status: LinkStatusView::Exists })
        } else {
            Ok(LinkView { src, dst, status: LinkStatusView::Unexpected(parse_path(t)) })
        },
        SrcStateView::Unreadable(m) => Err(PathErrorView::IoError(m)),
        SrcStateView::Absent => if !probe.dst_exists {
            Ok(LinkView { src, dst, status: LinkStatusView::DstUnexists })
        } else {
            Ok(LinkView { src, dst, status: LinkStatusView::SrcUnexists })
        },
    }
}

/// The value of a classification result.
pub open spec fn link_result(r: Result<Link, PathError>) -> Result<LinkView, PathErrorView> {
    match r {
        Ok(l) => Ok(l@),
        Err(e) => Err(e@),
    }
}

/// Classifies the pair (`src`, `dst`) from what the file system showed of it.
pub fn check_link(src: FsPath, dst: FsPath, probe: &Probe) -> (r: Result<Link, PathError>)
    ensures
        link_result(r) == check_spec(src@, dst@, probe@),
{
    match &probe.src {
        SrcState::Target(t) => {
            let found = FsPath::parse(t.as_str());
            if found.same_as(&dst) {
                Ok(Link::existing(src, dst))
            } else {
                Ok(Link::unexpected(src, dst, found))
            }
        },
        SrcState::Unreadable(m) => Err(PathError::IoError(m.clone())),
        SrcState::Absent => {
            if !probe.dst_exists {
                Ok(Link::dst_unexists(src, dst))
            } else {
                Ok(Link::src_unexists(src, dst))
            }
        },
    }
}

/// The pair (source, destination) that a declared link (destination token,
/// source token) resolves to: the destination token has its app references and
/// then its variables resolved and is read relative to `dstdir`; the source
/// token has its variables resolved and is read relative to `srcdir`. The
/// first error met, in that order, is the result.
pub open spec fn resolve_link_spec(
    apps: Seq<AppView>,
    env: Seq<(Seq<char>, Seq<char>)>,
    dstdir: FsPathView,
    srcdir: FsPathView,
    link: (Seq<char>, Seq<char>),
) -> Result<(FsPathView, FsPathView), PathErrorView> {
    match expand_app_spec(apps, parse_path(link.0)) {
        Err(e) => Err(e),
        Ok(named) => match expand_env_spec(env, named) {
            Err(e) => Err(e),
            Ok(d) => match expand_env_spec(env, parse_path(link.1)) {
                Err(e) => Err(e),
                Ok(s) => Ok((join_path(srcdir, s), join_path(dstdir, d))),
            },
        },
    }
}

/// The value of a resolved pair.
pub open spec fn pair_result(r: Result<(FsPath, FsPath), PathError>) -> Result<
    (FsPathView, FsPathView),
    PathErrorView,
> {
    match r {
        Ok((a, b)) => Ok((a@, b@)),
        Err(e) => Err(e@),
    }
}

/// Resolves a declared link (destination token, source token) of an app whose
/// directories are `dstdir` and `srcdir`, into (source, destination).
pub fn resolve_link(
    apps: &Apps,
    env: &Env,
    dstdir: &FsPath,
    srcdir: &FsPath,
    link: &(String, String),
) -> (r: Result<(FsPath, FsPath), PathError>)
    ensures
        pair_result(r) == resolve_link_spec(apps@, env@, dstdir@, srcdir@, (link.0@, link.1@)),
        wf_path(dstdir@) && wf_path(srcdir@) && registry_wf(apps@) ==> (r matches Ok(pair) ==> wf_path(
            pair.0@,
        ) && wf_path(pair.1@)),
{
    let named = match expand_app(apps, &FsPath::parse(link.0.as_str())) {
        Ok(p) => p,
        Err(e) => return Err(e),
    };
    let d = match expand_env(env, &named) {
        Ok(p) => p,
        Err(e) => return Err(e),
    };
    let s = match expand_env(env, &FsPath::parse(link.1.as_str())) {
        Ok(p) => p,
        Err(e) => return Err(e),
    };
    Ok((srcdir.join(&s), dstdir.join(&d)))
}

/// What creating a link takes: the directory `dir` to create with its
/// ancestors, then a link at `src` whose target is `dst`.
#[derive(Debug)]
pub struct LinkPlan {
    pub dir: FsPath,
    pub src: FsPath,
    pub dst: FsPath,
}

/// The mathematical value of a [`LinkPlan`].
pub struct LinkPlanView {
    pub dir: FsPathView,
    pub src: FsPathView,
    pub dst: FsPathView,
}

impl View for LinkPlan {
    type V = LinkPlanView;

    open spec fn view(&self) -> LinkPlanView {
        LinkPlanView { dir: self.dir@, src: self.src@, dst: self.dst@ }
    }
}

/// The plan for a link at `src` to `dst`; a source without a parent directory
/// cannot hold one.
pub open spec fn make_link_spec(src: FsPathView, dst: FsPathView) -> Result<LinkPlanView, PathErrorView> {
    match parent_path(src) {
        Some(dir) => Ok(LinkPlanView { dir, src, dst }),
        None => Err(PathErrorView::NoParent(src)),
    }
}

/// Plans a link at `src` to `dst`. The plan does not look at whether `dst` exists.
pub fn make_link(src: FsPath, dst: FsPath) -> (r: Result<LinkPlan, PathError>)
    ensures
        match r {
            Ok(plan) => make_link_spec(src@, dst@) == Ok::<LinkPlanView, PathErrorView>(plan@),
            Err(e) => make_link_spec(src@, dst@) == Err::<LinkPlanView, PathErrorView>(e@),
        },
{
    match src.parent() {
        Some(dir) => Ok(LinkPlan { dir, src, dst }),
        None => Err(PathError::NoParent(src)),
    }
}

/// What to do next for one declared link.
#[derive(Debug)]
pub enum Step {
    /// Look at the file system: what lies at `src`, and whether `dst` exists.
    Probe { src: FsPath, dst: FsPath },
    /// Carry out the plan: create its directory, then its link.
    Create(LinkPlan),
    /// The link is settled: record this outcome.
    Report(AppResult),
}

/// The mathematical value of a [`Step`].
pub enum StepView {
    Probe { src: FsPathView, dst: FsPathView },
    Create(LinkPlanView),
    Report(AppResultView),
}

impl View for Step {
    type V = StepView;

    open spec fn view(&self) -> StepView {
        match self {
            Step::Probe { src, dst } => StepView::Probe { src: src@, dst: dst@ },
            Step::Create(plan) => StepView::Create(plan@),
            Step::Report(r) => StepView::Report(r@),
        }
    }
}

/// The first step for a declared link of `app`: look at the pair it resolves
/// to, or report why it does not resolve.
pub open spec fn begin_spec(
    apps: Seq<AppView>,
    env: Seq<(Seq<char>, Seq<char>)>,
    app: AppView,
    link: (Seq<char>, Seq<char>),
) -> StepView {
    match resolve_link_spec(apps, env, app.dstdir, app.srcdir, link) {
        Ok((src, dst)) => StepView::Probe { src, dst },
        Err(e) => StepView::Report(AppResultView::Failed { error: e, link: None }),
    }
}

/// Starts on the declared link `link` of `app`.
pub fn begin_link(apps: &Apps, env: &Env, app: &App, link: &(String, String)) -> (r: Step)
    ensures
        r@ == begin_spec(apps@, env@, app@, (link.0@, link.1@)),
        wf_app(app@) && registry_wf(apps@) ==> (r matches Step::Probe { src, dst } ==> wf_path(src@)
            && wf_path(dst@)),
{
    match resolve_link(apps, env, &app.dstdir, &app.srcdir, link) {
        Ok((src, dst)) => Step::Probe { src, dst },
        Err(e) => Step::Report(AppResult::Failed { error: e, link: None }),
    }
}

/// The step after looking at (`src`, `dst`): a missing link is created unless
/// `check_only` holds, and every other classification is reported as it is.
pub open spec fn after_probe_spec(
    src: FsPathView,
    dst: FsPathView,
    probe: ProbeView,
    check_only: bool,
) -> StepView {
    match check_spec(src, dst, probe) {
        Err(e) => StepView::Report(AppResultView::Failed { error: e, link: None }),
        Ok(l) => if l.status is SrcUnexists && !check_only {
            match make_link_spec(src, dst) {
                Ok(plan) => StepView::Create(plan),
                Err(e) => StepView::Report(AppResultView::Failed { error: e, link: Some((src, dst)) }),
            }
        } else {
            StepView::Report(AppResultView::Linked(l))
        },
    }
}

/// Decides what follows once the file system has shown `probe` of (`src`, `dst`).
pub fn after_probe(src: FsPath, dst: FsPath, probe: &Probe, check_only: bool) -> (r: Step)
    ensures
        r@ == after_probe_spec(src@, dst@, probe@, check_only),
{
    let src2 = src.copy();
    let dst2 = dst.copy();
    match check_link(src, dst, probe) {
        Err(e) => Step::Report(AppResult::Failed { error: e, link: None }),
        Ok(l) => {
            if matches!(l.status, LinkStatus::SrcUnexists) && !check_only {
                let Link { src, dst, status: _ } = l;
                match make_link(src, dst) {
                    Ok(plan) => Step::Create(plan),
                    Err(e) => Step::Report(AppResult::Failed { error: e, link: Some((src2, dst2)) }),
                }
            } else {
                Step::Report(AppResult::Linked(l))
            }
        },
    }
}

/// The step after carrying out `plan`: the link in place, or the error met.
pub open spec fn after_create_spec(plan: LinkPlanView, outcome: Result<(), Seq<char>>) -> StepView {
    match outcome {
        Ok(()) => StepView::Report(
            AppResultView::Linked(
                LinkView { src: plan.src, dst: plan.dst, status: LinkStatusView::Exists },
            ),
        ),
        Err(m) => StepView::Report(
            AppResultView::Failed { error: PathErrorView::IoError(m), link: Some((plan.src, plan.dst)) },
        ),
    }
}

/// The value of what carrying out a plan gave.
pub open spec fn outcome_view(o: Result<(), String>) -> Result<(), Seq<char>> {
    match o {
        Ok(()) => Ok(()),
        Err(m) => Err(m@),
    }
}

/// Records what carrying out `plan` gave: `Ok` when the link was created, or
/// why the file system refused.
pub fn after_create(plan: LinkPlan, outcome: Result<(), String>) -> (r: Step)
    ensures
        r@ == after_create_spec(plan@, outcome_view(outcome)),
{
    let LinkPlan { dir: _, src, dst } = plan;
    match outcome {
        Ok(()) => Step::Report(AppResult::Linked(Link::existing(src, dst))),
        Err(m) => Step::Report(AppResult::Failed { error: PathError::IoError(m), link: Some((src, dst)) }),
    }
}

/// Checking changes nothing: in check-only mode the step after a look at the
/// disk is never a request to create anything, only a report of the pair's
/// classification, which depends on the pair and what the disk shows alone.
/// With the disk left as it was, the next check classifies the pair the same way.
pub proof fn lemma_check_repeatable(src: FsPathView, dst: FsPathView, probe: ProbeView)
    ensures
        !(after_probe_spec(src, dst, probe, true) is Create),
        check_spec(src, dst, probe) is Ok ==> after_probe_spec(src, dst, probe, true)
            == StepView::Report(AppResultView::Linked(check_spec(src, dst, probe)->Ok_0)),
{
}

/// A link created by carrying out a plan is found in place by the next check:
/// the link at `src` reads back as the text of `dst`, whether `dst` exists or
/// not. Resolved pairs are well formed (see [`resolve_link`]).
pub proof fn lemma_created_link_exists(src: FsPathView, dst: FsPathView, dst_exists: bool)
    requires
        wf_path(dst),
        make_link_spec(src, dst) is Ok,
    ensures
        check_spec(
            src,
            dst,
            ProbeView { src: SrcStateView::Target(render_path(dst)), dst_exists },
        ) == Ok::<LinkView, PathErrorView>(LinkView { src, dst, status: LinkStatusView::Exists }),
        after_create_spec(make_link_spec(src, dst)->Ok_0, Ok(())) == StepView::Report(
            AppResultView::Linked(LinkView { src, dst, status: LinkStatusView::Exists }),
        ),
{
    lemma_parse_render(dst);
}

/// A destination token whose first segment refers to another app resolves
/// inside that app's directory, whatever the own directory `dstdir`: the
/// reference gives way to the other app's absolute directory `d`, and the rest
/// of the token follows it. Names are resolved before variables, so this holds
/// when neither the token nor `d` has a variable segment (a `$` segment of `d`
/// would be expanded in turn); the source token has none either.
pub proof fn lemma_reference_to_other_app(
    apps: Seq<AppView>,
    env: Seq<(Seq<char>, Seq<char>)>,
    dstdir: FsPathView,
    srcdir: FsPathView,
    link: (Seq<char>, Seq<char>),
)
    requires
        ({
            let t = parse_path(link.0).segments;
            &&& t.len() > 0
            &&& is_ref_segment(t[0])
            &&& app_dstdir(apps, ref_name(t[0])) is Some
            &&& app_dstdir(apps, ref_name(t[0]))->Some_0.absolute
            &&& forall|j: int| 0 < j < t.len() ==> !is_ref_segment(#[trigger] t[j])
            &&& forall|j: int| 0 <= j < t.len() ==> !is_var_segment(#[trigger] t[j])
            &&& forall|j: int|
                0 <= j < app_dstdir(apps, ref_name(t[0]))->Some_0.segments.len() ==> !is_var_segment(
                    #[trigger] app_dstdir(apps, ref_name(t[0]))->Some_0.segments[j],
                )
        }),
        forall|j: int|
            0 <= j < parse_path(link.1).segments.len() ==> !is_var_segment(
                #[trigger] parse_path(link.1).segments[j],
            ),
    ensures
        resolve_link_spec(apps, env, dstdir, srcdir, link) == Ok::<
            (FsPathView, FsPathView),
            PathErrorView,
        >(
            (
                join_path(srcdir, parse_path(link.1)),
                FsPathView {
                    absolute: true,
                    segments: app_dstdir(apps, ref_name(parse_path(link.0).segments[0]))->Some_0.segments
                        + parse_path(link.0).segments.subrange(
                        1,
                        parse_path(link.0).segments.len() as int,
                    ),
                },
            ),
        ),
{
    let p = parse_path(link.0);
    let t = p.segments;
    let d = app_dstdir(apps, ref_name(t[0]))->Some_0;
    assert forall|j: int| 0 <= j < t.len() && is_ref_segment(#[trigger] t[j]) implies app_dstdir(
        apps,
        ref_name(t[j]),
    ) is Some by {
        if j > 0 {
            assert(!is_ref_segment(t[j]));
        }
    }
    lemma_app_reference_roots(apps, p, 0);
    let named = FsPathView { absolute: true, segments: d.segments + t.subrange(1, t.len() as int) };
    assert forall|j: int| 0 <= j < named.segments.len() implies !is_var_segment(
        #[trigger] named.segments[j],
    ) by {
        if j < d.segments.len() {
            assert(named.segments[j] == d.segments[j]);
        } else {
            assert(named.segments[j] == t[j - d.segments.len() + 1]);
        }
    }
    lemma_env_identity(env, named);
    lemma_env_identity(env, parse_path(link.1));
}

/// Every pair whose source can be read gets exactly one of the four
/// classifications, for the pair as given.
pub proof fn lemma_one_status(src: FsPathView, dst: FsPathView, probe: ProbeView)
    requires
        !(probe.src is Unreadable),
    ensures
        check_spec(src, dst, probe) is Ok,
        check_spec(src, dst, probe)->Ok_0.src == src,
        check_spec(src, dst, probe)->Ok_0.dst == dst,
        ({
            let s = check_spec(src, dst, probe)->Ok_0.status;
            (if s is SrcUnexists {
                1int
            } else {
                0
            }) + (if s is DstUnexists {
                1int
            } else {
                0
            }) + (if s is Exists {
                1int
            } else {
                0
            }) + (if s is Unexpected {
                1int
            } else {
                0
            }) == 1
        }),
{
}

/// Only a missing link whose destination exists is ever created, and only
/// outside check-only mode: links in place, links elsewhere and links to a
/// missing destination are reported as they are.
pub proof fn lemma_create_only_missing(
    src: FsPathView,
    dst: FsPathView,
    probe: ProbeView,
    check_only: bool,
)
    ensures
        after_probe_spec(src, dst, probe, check_only) is Create ==> {
            &&& !check_only
            &&& check_spec(src, dst, probe) is Ok
            &&& check_spec(src, dst, probe)->Ok_0.status is SrcUnexists
            &&& probe.dst_exists
        },
        check_spec(src, dst, probe) is Ok && !(check_spec(src, dst, probe)->Ok_0.status is SrcUnexists)
            ==> after_probe_spec(src, dst, probe, check_only) == StepView::Report(
            AppResultView::Linked(check_spec(src, dst, probe)->Ok_0),
        ),
{
}

} // verus!
