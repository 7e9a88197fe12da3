//! Token resolution: environment variables and references to other apps.
//!
//! Resolution works one segment at a time. A segment `$NAME` stands for the
//! value of the variable `NAME`, and a segment `{{app}}` for the destination
//! directory of the app called `app`; every other segment is kept as it is.
//! A variable or a reference must fill its whole segment.
//!
//! The value of a variable is spliced in as text would be: its segments take
//! the place of the variable's, and the result starts at the root when the path
//! did, when its first segment gave way to an absolute value, or when it gave
//! way to an empty value and more segments follow (`$E/x` with `E` empty reads
//! as `/x`).
//!
//! The pieces of a path with references are put together as paths are pushed
//! one after another: a piece that is an absolute path (the directory of an
//! app, as a rule) replaces everything before it, so what follows a reference
//! lies inside that app's directory.

use vstd::prelude::*;
use crate::apps::{app_dstdir, registry_wf, Apps, AppView};
use crate::path::{join_path, parse_path, same_text, wf_path, wf_segment, FsPath, FsPathView};

verus! {

/// Why a path could not be resolved or linked.
#[derive(Debug)]
pub enum PathError {
    /// `var`, named in `path`, is not set.
    InvalidEnvVar { path: FsPath, var: String },
    /// The segment `name` of `path` refers to no registered app.
    InvalidNameRef { path: FsPath, name: String },
    /// The path has no parent directory to hold a link.
    NoParent(FsPath),
    /// The file system refused an operation; the text says why.
    IoError(String),
}

/// The mathematical value of a [`PathError`].
pub enum PathErrorView {
    InvalidEnvVar { path: FsPathView, var: Seq<char> },
    InvalidNameRef { path: FsPathView, name: Seq<char> },
    NoParent(FsPathView),
    IoError(Seq<char>),
}

impl View for PathError {
    type V = PathErrorView;

    open spec fn view(&self) -> PathErrorView {
        match self {
            PathError::InvalidEnvVar { path, var } => PathErrorView::InvalidEnvVar {
                path: path@,
                var: var@,
            },
            PathError::InvalidNameRef { path, name } => PathErrorView::InvalidNameRef {
                path: path@,
                name: name@,
            },
            PathError::NoParent(p) => PathErrorView::NoParent(p@),
            PathError::IoError(m) => PathErrorView::IoError(m@),
        }
    }
}

/// The value of a resolution result.
pub open spec fn path_result(r: Result<FsPath, PathError>) -> Result<FsPathView, PathErrorView> {
    match r {
        Ok(p) => Ok(p@),
        Err(e) => Err(e@),
    }
}

/// A snapshot of environment variables, as (name, value) pairs; a later pair
/// overrides an earlier one of the same name.
#[derive(Debug)]
pub struct Env {
    pub vars: Vec<(String, String)>,
}

impl View for Env {
    type V = Seq<(Seq<char>, Seq<char>)>;

    open spec fn view(&self) -> Seq<(Seq<char>, Seq<char>)> {
        self.vars@.map_values(|p: (String, String)| (p.0@, p.1@))
    }
}

/// The value of the last pair called `name`.
pub open spec fn env_lookup(vars: Seq<(Seq<char>, Seq<char>)>, name: Seq<char>) -> Option<Seq<char>>
    decreases vars.len(),
{
    if vars.len() == 0 {
        None
    } else if vars.last().0 == name {
        Some(vars.last().1)
    } else {
        env_lookup(vars.drop_last(), name)
    }
}

impl Env {
    /// An environment with no variables.
    pub fn new() -> (r: Env)
        ensures
            r@ == Seq::<(Seq<char>, Seq<char>)>::empty(),
    {
        let r = Env { vars: Vec::new() };
        assert(r@ =~= Seq::<(Seq<char>, Seq<char>)>::empty());
        r
    }

    /// Sets `name` to `value`.
    pub fn set(&mut self, name: String, value: String)
        ensures
            final(self)@ == old(self)@.push((name@, value@)),
    {
        let ghost name_v = name@;
        let ghost value_v = value@;
        self.vars.push((name, value));
        assert(self@ =~= old(self)@.push((name_v, value_v)));
    }

    /// The value of `name`, if it is set.
    pub fn get(&self, name: &str) -> (r: Option<String>)
        ensures
            match r {
                Some(v) => env_lookup(self@, name@) == Some(v@),
                None => env_lookup(self@, name@) is None,
            },
    {
        let mut i: usize = self.vars.len();
        assert(self@.take(i as int) =~= self@);
        while i > 0
            invariant
                i <= self.vars@.len(),
                env_lookup(self@, name@) == env_lookup(self@.take(i as int), name@),
            decreases i,
        {
            let ghost pre = self@.take(i as int);
            assert(pre.drop_last() =~= self@.take(i - 1));
            assert(pre.last() == (self.vars@[i - 1].0@, self.vars@[i - 1].1@));
            if same_text(self.vars[i - 1].0.as_str(), name) {
                return Some(self.vars[i - 1].1.clone());
            }
            i = i - 1;
        }
        None
    }
}

/// The path that keeps the segment `s` as it is.
pub open spec fn plain_segment(s: Seq<char>) -> FsPathView {
    FsPathView { absolute: false, segments: seq![s] }
}

/// A piece with no text: no root and no segment.
pub open spec fn blank(q: FsPathView) -> bool {
    !q.absolute && q.segments.len() == 0
}

/// `p` with its `i`-th segment replaced by `pieces[i]`, as the texts would be
/// joined with separators: the result starts at the root when `p` does, when
/// the first piece does, or when the first piece is blank and more follow.
pub open spec fn splice(p: FsPathView, pieces: Seq<FsPathView>) -> FsPathView {
    FsPathView {
        absolute: p.absolute || (pieces.len() > 0 && pieces[0].absolute) || (pieces.len() > 1
            && blank(pieces[0])),
        segments: pieces.map_values(|q: FsPathView| q.segments).flatten(),
    }
}

/// Whether each segment has a replacement.
pub open spec fn all_resolved(segs: Seq<Seq<char>>, f: spec_fn(Seq<char>) -> Option<FsPathView>) -> bool {
    forall|i: int| 0 <= i < segs.len() ==> (#[trigger] f(segs[i])) is Some
}

/// The index of the first segment without a replacement.
pub open spec fn first_unresolved(
    segs: Seq<Seq<char>>,
    f: spec_fn(Seq<char>) -> Option<FsPathView>,
) -> int {
    choose|i: int|
        0 <= i < segs.len() && f(segs[i]) is None && forall|j: int|
            0 <= j < i ==> (#[trigger] f(segs[j])) is Some
}

/// The replacements of all segments, each of which has one.
pub open spec fn replacements(
    segs: Seq<Seq<char>>,
    f: spec_fn(Seq<char>) -> Option<FsPathView>,
) -> Seq<FsPathView> {
    segs.map_values(|s: Seq<char>| f(s)->Some_0)
}

/// A segment `$NAME` names a variable.
pub open spec fn is_var_segment(s: Seq<char>) -> bool {
    s.len() > 0 && s[0] == '$'
}

/// The variable that a segment `$NAME` names.
pub open spec fn var_name(s: Seq<char>) -> Seq<char> {
    s.drop_first()
}

/// What a segment becomes under `env`; `None` for an unset variable.
pub open spec fn env_piece(env: Seq<(Seq<char>, Seq<char>)>, s: Seq<char>) -> Option<FsPathView> {
    if is_var_segment(s) {
        match env_lookup(env, var_name(s)) {
            Some(v) => Some(parse_path(v)),
            None => None,
        }
    } else {
        Some(plain_segment(s))
    }
}

/// `p` with its variables replaced by their values, or the first unset one.
#[verifier::opaque]
pub open spec fn expand_env_spec(env: Seq<(Seq<char>, Seq<char>)>, p: FsPathView) -> Result<
    FsPathView,
    PathErrorView,
> {
    let f = |s: Seq<char>| env_piece(env, s);
    if all_resolved(p.segments, f) {
        Ok(splice(p, replacements(p.segments, f)))
    } else {
        Err(
            PathErrorView::InvalidEnvVar {
                path: p,
                var: var_name(p.segments[first_unresolved(p.segments, f)]),
            },
        )
    }
}

/// A segment `{{app}}` refers to another app.
pub open spec fn is_ref_segment(s: Seq<char>) -> bool {
    &&& s.len() >= 4
    &&& s[0] == '{'
    &&& s[1] == '{'
    &&& s[s.len() - 2] == '}'
    &&& s[s.len() - 1] == '}'
}

/// The app that a segment `{{app}}` refers to.
pub open spec fn ref_name(s: Seq<char>) -> Seq<char> {
    s.subrange(2, s.len() - 2)
}

/// What a segment becomes under `apps`; `None` for a reference to no app.
pub open spec fn app_piece(apps: Seq<AppView>, s: Seq<char>) -> Option<FsPathView> {
    if is_ref_segment(s) {
        app_dstdir(apps, ref_name(s))
    } else {
        Some(plain_segment(s))
    }
}

/// The pieces pushed one after another onto `start`, each read relative to
/// what came before it.
pub open spec fn push_all(start: FsPathView, pieces: Seq<FsPathView>) -> FsPathView
    decreases pieces.len(),
{
    if pieces.len() == 0 {
        start
    } else {
        join_path(push_all(start, pieces.drop_last()), pieces.last())
    }
}

/// The root of `p` without any of its segments.
pub open spec fn root_of(p: FsPathView) -> FsPathView {
    FsPathView { absolute: p.absolute, segments: Seq::empty() }
}

/// `p` with its app references replaced by their directories and its pieces
/// pushed in order, or the first reference to no app.
#[verifier::opaque]
pub open spec fn expand_app_spec(apps: Seq<AppView>, p: FsPathView) -> Result<
    FsPathView,
    PathErrorView,
> {
    let f = |s: Seq<char>| app_piece(apps, s);
    if all_resolved(p.segments, f) {
        Ok(push_all(root_of(p), replacements(p.segments, f)))
    } else {
        Err(
            PathErrorView::InvalidNameRef {
                path: p,
                name: p.segments[first_unresolved(p.segments, f)],
            },
        )
    }
}

/// Splicing one more replacement in appends its segments.
proof fn lemma_splice_push(p: FsPathView, pieces: Seq<FsPathView>, q: FsPathView)
    ensures
        splice(p, pieces.push(q)) == (FsPathView {
            absolute: splice(p, pieces).absolute || (pieces.len() == 0 && q.absolute) || (
            pieces.len() == 1 && blank(pieces[0])),
            segments: splice(p, pieces).segments + q.segments,
        }),
{
    let g = |v: FsPathView| v.segments;
    assert(pieces.push(q).map_values(g) =~= pieces.map_values(g).push(q.segments));
    pieces.map_values(g).lemma_flatten_push(q.segments);
    if pieces.len() == 0 {
        assert(pieces.push(q)[0] == q);
    } else {
        assert(pieces.push(q)[0] == pieces[0]);
    }
}

/// A segment without a replacement means there is a first one.
proof fn lemma_some_unresolved(
    segs: Seq<Seq<char>>,
    f: spec_fn(Seq<char>) -> Option<FsPathView>,
    i: int,
)
    requires
        0 <= i < segs.len(),
        f(segs[i]) is None,
    ensures
        ({
            let k = first_unresolved(segs, f);
            &&& 0 <= k < segs.len()
            &&& f(segs[k]) is None
            &&& forall|j: int| 0 <= j < k ==> (#[trigger] f(segs[j])) is Some
        }),
    decreases i,
{
    if forall|j: int| 0 <= j < i ==> (#[trigger] f(segs[j])) is Some {
        assert(0 <= i < segs.len() && f(segs[i]) is None && forall|j: int|
            0 <= j < i ==> (#[trigger] f(segs[j])) is Some);
    } else {
        let j = choose|j: int| 0 <= j < i && !((#[trigger] f(segs[j])) is Some);
        lemma_some_unresolved(segs, f, j);
    }
}

/// The first segment without a replacement is the one at `i`, when all before it have one.
proof fn lemma_first_unresolved(
    segs: Seq<Seq<char>>,
    f: spec_fn(Seq<char>) -> Option<FsPathView>,
    i: int,
)
    requires
        0 <= i < segs.len(),
        f(segs[i]) is None,
        forall|j: int| 0 <= j < i ==> (#[trigger] f(segs[j])) is Some,
    ensures
        !all_resolved(segs, f),
        first_unresolved(segs, f) == i,
{
    assert(0 <= i < segs.len() && f(segs[i]) is None && forall|j: int|
        0 <= j < i ==> (#[trigger] f(segs[j])) is Some);
    let k = first_unresolved(segs, f);
    if k < i {
        assert(f(segs[k]) is Some);
    }
    if k > i {
        assert(f(segs[i]) is Some);
    }
}

/// The path that keeps `seg` as it is.
fn plain(seg: &String) -> (r: FsPath)
    ensures
        r@ == plain_segment(seg@),
        wf_segment(seg@) ==> wf_path(r@),
{
    let mut segments: Vec<String> = Vec::new();
    segments.push(seg.clone());
    let r = FsPath { absolute: false, segments };
    assert(r@.segments =~= seq![seg@]);
    r
}

/// The name of the variable in a segment `$NAME`.
fn var_of(seg: &String) -> (r: String)
    requires
        is_var_segment(seg@),
    ensures
        r@ == var_name(seg@),
{
    let len = seg.as_str().unicode_len();
    let var = seg.as_str().substring_char(1, len);
    assert(var@ =~= var_name(seg@));
    var.to_owned()
}

/// What `seg` becomes under `env`.
fn env_segment(env: &Env, seg: &String) -> (r: Option<FsPath>)
    ensures
        match r {
            Some(q) => env_piece(env@, seg@) == Some(q@),
            None => env_piece(env@, seg@) is None,
        },
        wf_segment(seg@) ==> (r matches Some(q) ==> wf_path(q@)),
{
    let len = seg.as_str().unicode_len();
    if len > 0 && seg.as_str().get_char(0) == '$' {
        match env.get(var_of(seg).as_str()) {
            Some(value) => Some(FsPath::parse(value.as_str())),
            None => None,
        }
    } else {
        Some(plain(seg))
    }
}

/// Replaces every variable segment of `path` by the value of the variable, or
/// reports the first variable that is not set.
pub fn expand_env(env: &Env, path: &FsPath) -> (r: Result<FsPath, PathError>)
    ensures
        path_result(r) == expand_env_spec(env@, path@),
        wf_path(path@) ==> (r matches Ok(q) ==> wf_path(q@)),
{
    proof {
        reveal(expand_env_spec);
    }
    let ghost f = |s: Seq<char>| env_piece(env@, s);
    let ghost segs = path@.segments;
    let mut out = FsPath::empty(path.absolute);
    let n = path.segments.len();
    let mut i: usize = 0;
    let mut first_blank = false;
    assert(replacements(segs.take(0), f) =~= Seq::<FsPathView>::empty());
    assert(splice(path@, Seq::<FsPathView>::empty()).segments =~= Seq::<Seq<char>>::empty());
    while i < n
        invariant
            n == path.segments@.len(),
            segs == path@.segments,
            f == (|s: Seq<char>| env_piece(env@, s)),
            i <= n,
            forall|j: int| 0 <= j < i ==> (#[trigger] f(segs[j])) is Some,
            out@ == splice(path@, replacements(segs.take(i as int), f)),
            wf_path(path@) ==> wf_path(out@),
            i >= 1 ==> first_blank == blank(f(segs[0])->Some_0),
        decreases n - i,
    {
        let seg = &path.segments[i];
        assert(seg@ == segs[i as int]);
        match env_segment(env, seg) {
            Some(piece) => {
                proof {
                    lemma_splice_push(path@, replacements(segs.take(i as int), f), piece@);
                    assert(replacements(segs.take(i + 1), f) =~= replacements(
                        segs.take(i as int),
                        f,
                    ).push(piece@));
                    if i == 1 {
                        assert(replacements(segs.take(1), f)[0] == f(segs[0])->Some_0);
                    }
                }
                let after_blank = i == 1 && first_blank;
                if i == 0 {
                    first_blank = !piece.absolute && piece.segments.len() == 0;
                }
                out.extend(piece, i == 0);
                if after_blank {
                    out.absolute = true;
                }
                i = i + 1;
            },
            None => {
                proof {
                    lemma_first_unresolved(segs, f, i as int);
                    reveal(expand_env_spec);
                    reveal(expand_app_spec);
                }
                return Err(PathError::InvalidEnvVar { path: path.copy(), var: var_of(seg) });
            },
        }
    }
    assert(segs.take(n as int) =~= segs);
    Ok(out)
}

/// What `seg` becomes under `apps`.
fn app_segment(apps: &Apps, seg: &String) -> (r: Option<FsPath>)
    ensures
        match r {
            Some(q) => app_piece(apps@, seg@) == Some(q@),
            None => app_piece(apps@, seg@) is None,
        },
        wf_segment(seg@) && registry_wf(apps@) ==> (r matches Some(q) ==> wf_path(q@)),
{
    let text = seg.as_str();
    let len = text.unicode_len();
    if len >= 4 && text.get_char(0) == '{' && text.get_char(1) == '{' && text.get_char(len - 2)
        == '}' && text.get_char(len - 1) == '}' {
        let name = text.substring_char(2, len - 2);
        apps.resolve_name(name)
    } else {
        Some(plain(seg))
    }
}

/// Replaces every segment `{{app}}` of `path` by the destination directory of
/// that app, or reports the first reference to an app that is not registered.
pub fn expand_app(apps: &Apps, path: &FsPath) -> (r: Result<FsPath, PathError>)
    ensures
        path_result(r) == expand_app_spec(apps@, path@),
        wf_path(path@) && registry_wf(apps@) ==> (r matches Ok(q) ==> wf_path(q@)),
{
    proof {
        reveal(expand_app_spec);
    }
    let ghost f = |s: Seq<char>| app_piece(apps@, s);
    let ghost segs = path@.segments;
    let mut out = FsPath::empty(path.absolute);
    let n = path.segments.len();
    let mut i: usize = 0;
    assert(replacements(segs.take(0), f) =~= Seq::<FsPathView>::empty());
    assert(out@.segments =~= Seq::<Seq<char>>::empty());
    while i < n
        invariant
            n == path.segments@.len(),
            segs == path@.segments,
            f == (|s: Seq<char>| app_piece(apps@, s)),
            i <= n,
            forall|j: int| 0 <= j < i ==> (#[trigger] f(segs[j])) is Some,
            out@ == push_all(root_of(path@), replacements(segs.take(i as int), f)),
            wf_path(path@) && registry_wf(apps@) ==> wf_path(out@),
        decreases n - i,
    {
        let seg = &path.segments[i];
        assert(seg@ == segs[i as int]);
        match app_segment(apps, seg) {
            Some(piece) => {
                proof {
                    let before = replacements(segs.take(i as int), f);
                    assert(replacements(segs.take(i + 1), f) =~= before.push(piece@));
                    assert(before.push(piece@).drop_last() =~= before);
                }
                out = out.join(&piece);
                i = i + 1;
            },
            None => {
                proof {
                    lemma_first_unresolved(segs, f, i as int);
                    reveal(expand_env_spec);
                    reveal(expand_app_spec);
                }
                return Err(PathError::InvalidNameRef { path: path.copy(), name: seg.clone() });
            },
        }
    }
    assert(segs.take(n as int) =~= segs);
    Ok(out)
}

/// Segments that all stay as they are leave the path as it was.
proof fn lemma_splice_plain(
    p: FsPathView,
    segs: Seq<Seq<char>>,
    f: spec_fn(Seq<char>) -> Option<FsPathView>,
)
    requires
        forall|i: int| 0 <= i < segs.len() ==> #[trigger] f(segs[i]) == Some(plain_segment(segs[i])),
    ensures
        splice(p, replacements(segs, f)) == (FsPathView { absolute: p.absolute, segments: segs }),
    decreases segs.len(),
{
    if segs.len() == 0 {
        assert(replacements(segs, f) =~= Seq::<FsPathView>::empty());
        assert(Seq::<FsPathView>::empty().map_values(|q: FsPathView| q.segments) =~= Seq::<
            Seq<Seq<char>>,
        >::empty());
        assert(splice(p, replacements(segs, f)).segments =~= segs);
    } else {
        let dl = segs.drop_last();
        assert forall|i: int| 0 <= i < dl.len() implies #[trigger] f(dl[i]) == Some(
            plain_segment(dl[i]),
        ) by {
            assert(dl[i] == segs[i]);
        }
        lemma_splice_plain(p, dl, f);
        assert(f(segs[segs.len() - 1]) == Some(plain_segment(segs.last())));
        assert(replacements(segs, f) =~= replacements(dl, f).push(plain_segment(segs.last())));
        lemma_splice_push(p, replacements(dl, f), plain_segment(segs.last()));
        assert(dl + seq![segs.last()] =~= segs);
    }
}

/// A path without variable segments comes out of variable expansion unchanged.
pub proof fn lemma_env_identity(env: Seq<(Seq<char>, Seq<char>)>, p: FsPathView)
    requires
        forall|i: int| 0 <= i < p.segments.len() ==> !is_var_segment(#[trigger] p.segments[i]),
    ensures
        expand_env_spec(env, p) == Ok::<FsPathView, PathErrorView>(p),
{
    reveal(expand_env_spec);
    let f = |s: Seq<char>| env_piece(env, s);
    assert forall|i: int| 0 <= i < p.segments.len() implies #[trigger] f(p.segments[i]) == Some(
        plain_segment(p.segments[i]),
    ) by {
        assert(!is_var_segment(p.segments[i]));
    }
    lemma_splice_plain(p, p.segments, f);
}

/// Pushing segments that all stay as they are appends them.
proof fn lemma_push_plain(
    start: FsPathView,
    segs: Seq<Seq<char>>,
    f: spec_fn(Seq<char>) -> Option<FsPathView>,
)
    requires
        forall|i: int| 0 <= i < segs.len() ==> #[trigger] f(segs[i]) == Some(plain_segment(segs[i])),
    ensures
        push_all(start, replacements(segs, f)) == (FsPathView {
            absolute: start.absolute,
            segments: start.segments + segs,
        }),
    decreases segs.len(),
{
    if segs.len() == 0 {
        assert(replacements(segs, f) =~= Seq::<FsPathView>::empty());
        assert(start.segments + segs =~= start.segments);
    } else {
        let dl = segs.drop_last();
        assert forall|i: int| 0 <= i < dl.len() implies #[trigger] f(dl[i]) == Some(
            plain_segment(dl[i]),
        ) by {
            assert(dl[i] == segs[i]);
        }
        lemma_push_plain(start, dl, f);
        assert(f(segs[segs.len() - 1]) == Some(plain_segment(segs.last())));
        let ps = replacements(segs, f);
        assert(ps.drop_last() =~= replacements(dl, f));
        assert(ps.last() == plain_segment(segs.last()));
        assert(start.segments + dl + seq![segs.last()] =~= start.segments + segs);
    }
}

/// A path without app references comes out of reference resolution unchanged.
pub proof fn lemma_app_identity(apps: Seq<AppView>, p: FsPathView)
    requires
        forall|i: int| 0 <= i < p.segments.len() ==> !is_ref_segment(#[trigger] p.segments[i]),
    ensures
        expand_app_spec(apps, p) == Ok::<FsPathView, PathErrorView>(p),
{
    reveal(expand_app_spec);
    let f = |s: Seq<char>| app_piece(apps, s);
    assert forall|i: int| 0 <= i < p.segments.len() implies #[trigger] f(p.segments[i]) == Some(
        plain_segment(p.segments[i]),
    ) by {
        assert(!is_ref_segment(p.segments[i]));
    }
    lemma_push_plain(root_of(p), p.segments, f);
    assert(Seq::<Seq<char>>::empty() + p.segments =~= p.segments);
}

/// The segments that a segment becomes under `env`, when its variable is set.
pub open spec fn env_segments(env: Seq<(Seq<char>, Seq<char>)>, s: Seq<char>) -> Seq<Seq<char>> {
    if is_var_segment(s) {
        parse_path(env_lookup(env, var_name(s))->Some_0).segments
    } else {
        seq![s]
    }
}

/// When every variable that `p` names is set, expansion succeeds, and each
/// segment `$NAME` gives way, once and in its place, to the segments of the
/// value of `NAME`; the others stay.
pub proof fn lemma_env_substitutes(env: Seq<(Seq<char>, Seq<char>)>, p: FsPathView)
    requires
        forall|i: int|
            0 <= i < p.segments.len() && is_var_segment(#[trigger] p.segments[i]) ==> env_lookup(
                env,
                var_name(p.segments[i]),
            ) is Some,
    ensures
        expand_env_spec(env, p) is Ok,
        expand_env_spec(env, p)->Ok_0.segments == p.segments.map_values(
            |s: Seq<char>| env_segments(env, s),
        ).flatten(),
{
    reveal(expand_env_spec);
    let f = |s: Seq<char>| env_piece(env, s);
    assert forall|i: int| 0 <= i < p.segments.len() implies (#[trigger] f(p.segments[i])) is Some by {
        if is_var_segment(p.segments[i]) {
            assert(env_lookup(env, var_name(p.segments[i])) is Some);
        }
    }
    assert(replacements(p.segments, f).map_values(|q: FsPathView| q.segments) =~= p.segments.map_values(
        |s: Seq<char>| env_segments(env, s),
    ));
}

/// When `p` names a variable that is not set, expansion fails and reports an
/// unset variable of `p`.
pub proof fn lemma_env_unset_fails(env: Seq<(Seq<char>, Seq<char>)>, p: FsPathView, i: int)
    requires
        0 <= i < p.segments.len(),
        is_var_segment(p.segments[i]),
        env_lookup(env, var_name(p.segments[i])) is None,
    ensures
        expand_env_spec(env, p) matches Err(PathErrorView::InvalidEnvVar { path, var }) && path == p
            && env_lookup(env, var) is None && exists|k: int|
            0 <= k < p.segments.len() && is_var_segment(p.segments[k]) && var == var_name(
                #[trigger] p.segments[k],
            ),
{
    reveal(expand_env_spec);
    let f = |s: Seq<char>| env_piece(env, s);
    assert(f(p.segments[i]) is None);
    lemma_some_unresolved(p.segments, f, i);
    let k = first_unresolved(p.segments, f);
    assert(is_var_segment(p.segments[k]));
}

/// The path that a segment becomes under `apps`, when it refers to a registered app.
pub open spec fn app_dir_or_plain(apps: Seq<AppView>, s: Seq<char>) -> FsPathView {
    if is_ref_segment(s) {
        app_dstdir(apps, ref_name(s))->Some_0
    } else {
        plain_segment(s)
    }
}

/// When every app that `p` refers to is registered, resolution succeeds: it
/// starts from the root of `p` and pushes, segment by segment in order, the
/// directory of the app that the segment refers to, or the segment itself.
pub proof fn lemma_app_substitutes(apps: Seq<AppView>, p: FsPathView)
    requires
        forall|i: int|
            0 <= i < p.segments.len() && is_ref_segment(#[trigger] p.segments[i]) ==> app_dstdir(
                apps,
                ref_name(p.segments[i]),
            ) is Some,
    ensures
        expand_app_spec(apps, p) == Ok::<FsPathView, PathErrorView>(
            push_all(root_of(p), p.segments.map_values(|s: Seq<char>| app_dir_or_plain(apps, s))),
        ),
{
    reveal(expand_app_spec);
    let f = |s: Seq<char>| app_piece(apps, s);
    assert forall|i: int| 0 <= i < p.segments.len() implies (#[trigger] f(p.segments[i])) is Some by {
        if is_ref_segment(p.segments[i]) {
            assert(app_dstdir(apps, ref_name(p.segments[i])) is Some);
        }
    }
    assert(replacements(p.segments, f) =~= p.segments.map_values(
        |s: Seq<char>| app_dir_or_plain(apps, s),
    ));
}

/// After an absolute piece, the pushed result is that piece followed by the
/// plain segments that come after it.
proof fn lemma_push_after_absolute(
    start: FsPathView,
    pieces: Seq<FsPathView>,
    segs: Seq<Seq<char>>,
    i: int,
    k: int,
)
    requires
        0 <= i < k <= pieces.len(),
        pieces.len() == segs.len(),
        pieces[i].absolute,
        forall|j: int| i < j < pieces.len() ==> #[trigger] pieces[j] == plain_segment(segs[j]),
    ensures
        push_all(start, pieces.take(k)) == (FsPathView {
            absolute: true,
            segments: pieces[i].segments + segs.subrange(i + 1, k),
        }),
    decreases k,
{
    let t = pieces.take(k);
    assert(t.drop_last() =~= pieces.take(k - 1));
    assert(t.last() == pieces[k - 1]);
    if k == i + 1 {
        assert(pieces[i].segments + segs.subrange(i + 1, k) =~= pieces[i].segments);
    } else {
        lemma_push_after_absolute(start, pieces, segs, i, k - 1);
        assert(pieces[k - 1] == plain_segment(segs[k - 1]));
        assert(pieces[i].segments + segs.subrange(i + 1, k - 1) + seq![segs[k - 1]]
            =~= pieces[i].segments + segs.subrange(i + 1, k));
    }
}

/// A reference to an app whose directory is absolute puts what follows it
/// inside that directory: when every app that `p` refers to is registered,
/// and the last reference, at `i`, names an app with an absolute directory
/// `d`, the result is `d` followed by the segments after `i`.
pub proof fn lemma_app_reference_roots(apps: Seq<AppView>, p: FsPathView, i: int)
    requires
        0 <= i < p.segments.len(),
        forall|j: int|
            0 <= j < p.segments.len() && is_ref_segment(#[trigger] p.segments[j]) ==> app_dstdir(
                apps,
                ref_name(p.segments[j]),
            ) is Some,
        is_ref_segment(p.segments[i]),
        app_dstdir(apps, ref_name(p.segments[i]))->Some_0.absolute,
        forall|j: int| i < j < p.segments.len() ==> !is_ref_segment(#[trigger] p.segments[j]),
    ensures
        expand_app_spec(apps, p) == Ok::<FsPathView, PathErrorView>(
            FsPathView {
                absolute: true,
                segments: app_dstdir(apps, ref_name(p.segments[i]))->Some_0.segments
                    + p.segments.subrange(i + 1, p.segments.len() as int),
            },
        ),
{
    lemma_app_substitutes(apps, p);
    let pieces = p.segments.map_values(|s: Seq<char>| app_dir_or_plain(apps, s));
    assert forall|j: int| i < j < pieces.len() implies #[trigger] pieces[j] == plain_segment(
        p.segments[j],
    ) by {
        assert(!is_ref_segment(p.segments[j]));
    }
    lemma_push_after_absolute(root_of(p), pieces, p.segments, i, pieces.len() as int);
    assert(pieces.take(pieces.len() as int) =~= pieces);
}

/// When `p` refers to an app that is not registered, resolution fails and
/// reports a segment of `p` that refers to no registered app.
pub proof fn lemma_app_unknown_fails(apps: Seq<AppView>, p: FsPathView, i: int)
    requires
        0 <= i < p.segments.len(),
        is_ref_segment(p.segments[i]),
        app_dstdir(apps, ref_name(p.segments[i])) is None,
    ensures
        expand_app_spec(apps, p) matches Err(PathErrorView::InvalidNameRef { path, name }) && path == p
            && is_ref_segment(name) && app_dstdir(apps, ref_name(name)) is None && exists|k: int|
            0 <= k < p.segments.len() && name == #[trigger] p.segments[k],
{
    reveal(expand_app_spec);
    let f = |s: Seq<char>| app_piece(apps, s);
    assert(f(p.segments[i]) is None);
    lemma_some_unresolved(p.segments, f, i);
    let k = first_unresolved(p.segments, f);
    assert(is_ref_segment(p.segments[k]));
}

} // verus!
