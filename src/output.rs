//! The outcomes of one app's links, in the order the links were declared.

use vstd::prelude::*;
use crate::link::{Link, LinkView};
use crate::path::{render_path, FsPath, FsPathView};
use crate::resolve::{PathError, PathErrorView};

verus! {

/// The outcome of one declared link: its classification, or the error that
/// stopped it, with the pair of paths when they were known.
#[derive(Debug)]
pub enum AppResult {
    Linked(Link),
    Failed { error: PathError, link: Option<(FsPath, FsPath)> },
}

/// The mathematical value of an [`AppResult`].
pub enum AppResultView {
    Linked(LinkView),
    Failed { error: PathErrorView, link: Option<(FsPathView, FsPathView)> },
}

/// The value of an optional pair of paths.
pub open spec fn pair_view(p: Option<(FsPath, FsPath)>) -> Option<(FsPathView, FsPathView)> {
    match p {
        Some((a, b)) => Some((a@, b@)),
        None => None,
    }
}

impl View for AppResult {
    type V = AppResultView;

    open spec fn view(&self) -> AppResultView {
        match self {
            AppResult::Linked(l) => AppResultView::Linked(l@),
            AppResult::Failed { error, link } => AppResultView::Failed {
                error: error@,
                link: pair_view(*link),
            },
        }
    }
}

/// The outcomes recorded for the app called `name`.
#[derive(Debug)]
pub struct AppOutput {
    pub name: String,
    pub results: Vec<AppResult>,
}

impl AppOutput {
    /// No outcome recorded yet.
    pub fn new(name: &str) -> (r: AppOutput)
        ensures
            r.name@ == name@,
            r.results@.len() == 0,
    {
        AppOutput { name: name.to_owned(), results: Vec::new() }
    }

    /// Records an outcome after those already recorded.
    pub fn output(&mut self, res: AppResult)
        ensures
            final(self).name == old(self).name,
            final(self).results@ == old(self).results@.push(res),
    {
        self.results.push(res);
    }

    /// Records a classified link.
    pub fn output_link(&mut self, res: Link)
        ensures
            final(self).name == old(self).name,
            final(self).results@ == old(self).results@.push(AppResult::Linked(res)),
    {
        self.results.push(AppResult::Linked(res));
    }

    /// Records an error, with the pair of paths when they were known.
    pub fn output_error(&mut self, error: PathError, link: Option<(FsPath, FsPath)>)
        ensures
            final(self).name == old(self).name,
            final(self).results@ == old(self).results@.push(AppResult::Failed { error, link }),
    {
        self.results.push(AppResult::Failed { error, link });
    }
}

/// The text of an error.
pub open spec fn message_spec(e: PathErrorView) -> Seq<char> {
    match e {
        PathErrorView::InvalidEnvVar { path, var } => "environment variable "@ + var + " in "@
            + render_path(path) + " is not set"@,
        PathErrorView::InvalidNameRef { path, name } => "Invalid name reference "@ + name + " in "@
            + render_path(path),
        PathErrorView::NoParent(path) => render_path(path) + " must have a parent directory"@,
        PathErrorView::IoError(m) => m,
    }
}

impl PathError {
    /// What went wrong, in words.
    pub fn message(&self) -> (r: String)
        ensures
            r@ == message_spec(self@),
    {
        match self {
            PathError::InvalidEnvVar { path, var } => {
                let mut r = String::from_str("environment variable ");
                r.append(var.as_str());
                r.append(" in ");
                r.append(path.render().as_str());
                r.append(" is not set");
                r
            },
            PathError::InvalidNameRef { path, name } => {
                let mut r = String::from_str("Invalid name reference ");
                r.append(name.as_str());
                r.append(" in ");
                r.append(path.render().as_str());
                r
            },
            PathError::NoParent(path) => {
                let mut r = path.render();
                r.append(" must have a parent directory");
                r
            },
            PathError::IoError(m) => m.clone(),
        }
    }
}

/// The lines of one outcome hung on the tree: the first line after a branch
/// (a corner for the last outcome), the others after a vertical bar (blank
/// for the last outcome) and two spaces.
pub open spec fn branch_spec(lines: Seq<Seq<char>>, last: bool) -> Seq<Seq<char>> {
    Seq::new(
        lines.len(),
        |i: int|
            if i == 0 {
                (if last {
                    "\u{2514}"@
                } else {
                    "\u{251c}"@
                }) + "\u{2500}"@ + lines[0]
            } else {
                (if last {
                    " "@
                } else {
                    "\u{2502}"@
                }) + "  "@ + lines[i]
            },
    )
}

/// Hangs the lines of one outcome on the tree.
pub fn tree_branch(lines: &Vec<String>, last: bool) -> (r: Vec<String>)
    ensures
        r@.map_values(|x: String| x@) == branch_spec(lines@.map_values(|x: String| x@), last),
{
    let ghost want = branch_spec(lines@.map_values(|x: String| x@), last);
    let mut out: Vec<String> = Vec::new();
    let n = lines.len();
    let mut i: usize = 0;
    while i < n
        invariant
            n == lines@.len(),
            i <= n,
            want == branch_spec(lines@.map_values(|x: String| x@), last),
            out@.map_values(|x: String| x@) =~= want.take(i as int),
        decreases n - i,
    {
        let mut line = if i == 0 {
            let mut head = if last {
                String::from_str("\u{2514}")
            } else {
                String::from_str("\u{251c}")
            };
            head.append("\u{2500}");
            head
        } else {
            let mut head = if last {
                String::from_str(" ")
            } else {
                String::from_str("\u{2502}")
            };
            head.append("  ");
            head
        };
        line.append(lines[i].as_str());
        let ghost before = out@;
        let ghost lv = line@;
        out.push(line);
        assert(out@.map_values(|x: String| x@) =~= before.map_values(|x: String| x@).push(lv));
        assert(want.take(i + 1) =~= want.take(i as int).push(want[i as int]));
        i = i + 1;
    }
    assert(want.take(n as int) =~= want);
    out
}

/// `n` copies of `s`, one after another.
pub open spec fn repeat_spec(s: Seq<char>, n: nat) -> Seq<char>
    decreases n,
{
    if n == 0 {
        Seq::empty()
    } else {
        repeat_spec(s, (n - 1) as nat) + s
    }
}

/// The three lines of the box around an app's name: `shown` is the name as it
/// is to appear (painted, say), `name` the plain name whose width the box takes.
pub open spec fn title_spec(name: Seq<char>, shown: Seq<char>) -> Seq<Seq<char>> {
    seq![
        "\u{2554}"@ + repeat_spec("\u{2550}"@, name.len() + 2) + "\u{2557}"@,
        "\u{2551} "@ + shown + " \u{2551}"@,
        "\u{255a}"@ + repeat_spec("\u{2550}"@, name.len() + 2) + "\u{255d}"@,
    ]
}

/// The horizontal rule of the title box, as wide as `name` and two spaces.
fn title_rule(name: &str) -> (r: String)
    ensures
        r@ == repeat_spec("\u{2550}"@, name@.len() + 2),
{
    let w = name.unicode_len();
    let mut r = String::new();
    let mut i: usize = 0;
    assert(r@ =~= repeat_spec("\u{2550}"@, 0));
    while i < w
        invariant
            w == name@.len(),
            i <= w,
            r@ == repeat_spec("\u{2550}"@, i as nat),
        decreases w - i,
    {
        r.append("\u{2550}");
        i = i + 1;
    }
    r.append("\u{2550}");
    assert(r@ == repeat_spec("\u{2550}"@, name@.len() + 1));
    r.append("\u{2550}");
    r
}

/// The box around an app's name.
pub fn title_box(name: &str, shown: &str) -> (r: Vec<String>)
    ensures
        r@.map_values(|x: String| x@) == title_spec(name@, shown@),
{
    let rule = title_rule(name);
    let mut top = String::from_str("\u{2554}");
    top.append(rule.as_str());
    top.append("\u{2557}");
    let mut middle = String::from_str("\u{2551} ");
    middle.append(shown);
    middle.append(" \u{2551}");
    let mut bottom = String::from_str("\u{255a}");
    bottom.append(rule.as_str());
    bottom.append("\u{255d}");
    let ghost t = top@;
    let ghost m = middle@;
    let ghost b = bottom@;
    let mut r: Vec<String> = Vec::new();
    r.push(top);
    r.push(middle);
    r.push(bottom);
    assert(r@.map_values(|x: String| x@) =~= seq![t, m, b]);
    r
}

} // verus!
