//! Paths as a root flag and a sequence of segments.

use vstd::prelude::*;

verus! {

/// The mathematical value of a path: whether it starts at the root, and its
/// segments in order.
pub struct FsPathView {
    pub absolute: bool,
    pub segments: Seq<Seq<char>>,
}

/// A path held as a root flag and its segments. Separators are not stored:
/// `a//b/` and `a/b` are the same path.
#[derive(Clone, Debug, PartialEq, Eq)]
pub struct FsPath {
    pub absolute: bool,
    pub segments: Vec<String>,
}

impl View for FsPath {
    type V = FsPathView;

    open spec fn view(&self) -> FsPathView {
        FsPathView { absolute: self.absolute, segments: self.segments@.map_values(|s: String| s@) }
    }
}

/// A segment is not empty and holds no separator.
pub open spec fn wf_segment(s: Seq<char>) -> bool {
    s.len() > 0 && forall|j: int| 0 <= j < s.len() ==> s[j] != '/'
}

/// Every segment of the path is well formed.
pub open spec fn wf_path(p: FsPathView) -> bool {
    forall|i: int| 0 <= i < p.segments.len() ==> wf_segment(#[trigger] p.segments[i])
}

/// Reads `s` left to right: the segments finished so far, and the one being read.
pub open spec fn split_acc(s: Seq<char>) -> (Seq<Seq<char>>, Seq<char>)
    decreases s.len(),
{
    if s.len() == 0 {
        (Seq::empty(), Seq::empty())
    } else {
        let (done, cur) = split_acc(s.drop_last());
        if s.last() == '/' {
            if cur.len() == 0 {
                (done, cur)
            } else {
                (done.push(cur), Seq::empty())
            }
        } else {
            (done, cur.push(s.last()))
        }
    }
}

/// The non-empty runs of characters between separators.
pub open spec fn segments_of(s: Seq<char>) -> Seq<Seq<char>> {
    let (done, cur) = split_acc(s);
    if cur.len() == 0 {
        done
    } else {
        done.push(cur)
    }
}

/// The path that the text `s` denotes.
pub open spec fn parse_path(s: Seq<char>) -> FsPathView {
    FsPathView { absolute: s.len() > 0 && s[0] == '/', segments: segments_of(s) }
}

/// The segments written one after another with a separator between two of them.
pub open spec fn join_segments(segs: Seq<Seq<char>>) -> Seq<char>
    decreases segs.len(),
{
    if segs.len() == 0 {
        Seq::empty()
    } else if segs.len() == 1 {
        segs[0]
    } else {
        join_segments(segs.drop_last()) + seq!['/'] + segs.last()
    }
}

/// The text of a path: a leading separator when it is absolute, then its segments.
pub open spec fn render_path(p: FsPathView) -> Seq<char> {
    (if p.absolute {
        seq!['/']
    } else {
        Seq::empty()
    }) + join_segments(p.segments)
}

/// `p` read relative to `base`: an absolute `p` stands alone.
pub open spec fn join_path(base: FsPathView, p: FsPathView) -> FsPathView {
    if p.absolute {
        p
    } else {
        FsPathView { absolute: base.absolute, segments: base.segments + p.segments }
    }
}

/// The directory that holds `p`; a path without segments has none.
pub open spec fn parent_path(p: FsPathView) -> Option<FsPathView> {
    if p.segments.len() == 0 {
        None
    } else {
        Some(FsPathView { absolute: p.absolute, segments: p.segments.drop_last() })
    }
}

/// Two texts are equal, character by character.
pub fn same_text(a: &str, b: &str) -> (r: bool)
    ensures
        r == (a@ == b@),
{
    let x = a.to_owned();
    let y = b.to_owned();
    x == y
}

impl FsPath {
    /// The path of no segments: `/` when `absolute`, else the empty relative path.
    pub fn empty(absolute: bool) -> (r: FsPath)
        ensures
            r@ == (FsPathView { absolute, segments: Seq::empty() }),
    {
        let r = FsPath { absolute, segments: Vec::new() };
        assert(r@.segments =~= Seq::<Seq<char>>::empty());
        r
    }

    /// A copy of the path.
    pub fn copy(&self) -> (r: FsPath)
        ensures
            r@ == self@,
    {
        let mut segments: Vec<String> = Vec::new();
        let n = self.segments.len();
        let mut i: usize = 0;
        while i < n
            invariant
                n == self.segments@.len(),
                i <= n,
                segments@.map_values(|x: String| x@) =~= self@.segments.take(i as int),
            decreases n - i,
        {
            let ghost before = segments@;
            let seg = self.segments[i].clone();
            segments.push(seg);
            assert(segments@.map_values(|x: String| x@) =~= before.map_values(|x: String| x@).push(
                self@.segments[i as int],
            ));
            assert(self@.segments.take(i + 1) =~= self@.segments.take(i as int).push(
                self@.segments[i as int],
            ));
            i = i + 1;
        }
        assert(self@.segments.take(n as int) =~= self@.segments);
        FsPath { absolute: self.absolute, segments }
    }

    /// Appends the segments of `tail` to this path, which becomes absolute when
    /// `rooted` holds and `tail` is absolute.
    pub(crate) fn extend(&mut self, tail: FsPath, rooted: bool)
        ensures
            final(self)@ == (FsPathView {
                absolute: old(self)@.absolute || (rooted && tail@.absolute),
                segments: old(self)@.segments + tail@.segments,
            }),
    {
        let FsPath { absolute, segments } = tail;
        let n = segments.len();
        let mut i: usize = 0;
        let ghost start = self@.segments;
        while i < n
            invariant
                n == segments@.len(),
                i <= n,
                self@.absolute == old(self)@.absolute,
                self@.segments =~= start + segments@.map_values(|x: String| x@).take(i as int),
            decreases n - i,
        {
            let ghost before = self.segments@;
            let seg = segments[i].clone();
            self.segments.push(seg);
            let ghost tail = segments@.map_values(|x: String| x@);
            assert(self.segments@.map_values(|x: String| x@) =~= before.map_values(|x: String| x@).push(
                tail[i as int],
            ));
            assert(tail.take(i + 1) =~= tail.take(i as int).push(tail[i as int]));
            i = i + 1;
        }
        assert(segments@.map_values(|x: String| x@).take(n as int) =~= segments@.map_values(
            |x: String| x@,
        ));
        if rooted && absolute {
            self.absolute = true;
        }
    }

    /// `p` read relative to this path.
    pub fn join(&self, p: &FsPath) -> (r: FsPath)
        ensures
            r@ == join_path(self@, p@),
            wf_path(self@) && wf_path(p@) ==> wf_path(r@),
    {
        if p.absolute {
            p.copy()
        } else {
            let mut r = self.copy();
            r.extend(p.copy(), false);
            proof {
                let segs = r@.segments;
                assert forall|i: int| 0 <= i < segs.len() && wf_path(self@) && wf_path(p@) implies wf_segment(
                    #[trigger] segs[i],
                ) by {
                    if i >= self@.segments.len() {
                        assert(segs[i] == p@.segments[i - self@.segments.len()]);
                    } else {
                        assert(segs[i] == self@.segments[i]);
                    }
                }
            }
            r
        }
    }

    /// The directory that holds this path, or `None` for a path without segments.
    pub fn parent(&self) -> (r: Option<FsPath>)
        ensures
            match r {
                Some(q) => parent_path(self@) == Some(q@),
                None => parent_path(self@) is None,
            },
            wf_path(self@) ==> match r {
                Some(q) => wf_path(q@),
                None => true,
            },
    {
        let n = self.segments.len();
        if n == 0 {
            None
        } else {
            let mut segments: Vec<String> = Vec::new();
            let mut i: usize = 0;
            while i + 1 < n
                invariant
                    n == self.segments@.len(),
                    n >= 1,
                    i + 1 <= n,
                    segments@.map_values(|x: String| x@) =~= self@.segments.take(i as int),
                decreases n - i,
            {
                let ghost before = segments@;
                let seg = self.segments[i].clone();
                segments.push(seg);
                assert(segments@.map_values(|x: String| x@) =~= before.map_values(|x: String| x@).push(
                    self@.segments[i as int],
                ));
                assert(self@.segments.take(i + 1) =~= self@.segments.take(i as int).push(
                    self@.segments[i as int],
                ));
                i = i + 1;
            }
            assert(self@.segments.take(i as int) =~= self@.segments.drop_last());
            let q = FsPath { absolute: self.absolute, segments };
            proof {
                assert forall|k: int| 0 <= k < q@.segments.len() && wf_path(self@) implies wf_segment(
                    #[trigger] q@.segments[k],
                ) by {
                    assert(q@.segments[k] == self@.segments[k]);
                }
            }
            Some(q)
        }
    }

    /// Whether both paths have the same root flag and the same segments.
    pub fn same_as(&self, other: &FsPath) -> (r: bool)
        ensures
            r == (self@ == other@),
    {
        if self.absolute != other.absolute || self.segments.len() != other.segments.len() {
            proof {
                if self@ == other@ {
                    assert(self@.segments.len() == other@.segments.len());
                }
            }
            return false;
        }
        let n = self.segments.len();
        let mut i: usize = 0;
        while i < n
            invariant
                n == self.segments@.len(),
                n == other.segments@.len(),
                i <= n,
                forall|k: int| 0 <= k < i ==> self@.segments[k] == other@.segments[k],
            decreases n - i,
        {
            if self.segments[i] != other.segments[i] {
                assert(self@.segments[i as int] != other@.segments[i as int]);
                return false;
            }
            i = i + 1;
        }
        assert(self@.segments =~= other@.segments);
        true
    }

    /// Splits `s` at its separators.
    pub fn parse(s: &str) -> (r: FsPath)
        ensures
            r@ == parse_path(s@),
            wf_path(r@),
    {
        let n = s.unicode_len();
        let mut segments: Vec<String> = Vec::new();
        let mut start: usize = 0;
        let mut i: usize = 0;
        while i < n
            invariant
                n == s@.len(),
                start <= i <= n,
                split_acc(s@.subrange(0, i as int)) == (
                    segments@.map_values(|x: String| x@),
                    s@.subrange(start as int, i as int),
                ),
                forall|k: int| start <= k < i ==> s@[k] != '/',
                forall|k: int|
                    0 <= k < segments@.len() ==> wf_segment(#[trigger] segments@[k]@),
            decreases n - i,
        {
            let c = s.get_char(i);
            let ghost before = segments@;
            assert(s@.subrange(0, i + 1).drop_last() =~= s@.subrange(0, i as int));
            if c == '/' {
                if start < i {
                    let seg = s.substring_char(start, i).to_owned();
                    segments.push(seg);
                    assert(segments@.map_values(|x: String| x@) =~= before.map_values(
                        |x: String| x@,
                    ).push(s@.subrange(start as int, i as int)));
                }
                start = i + 1;
                assert(s@.subrange(start as int, i + 1) =~= Seq::<char>::empty());
            } else {
                assert(s@.subrange(start as int, i + 1) =~= s@.subrange(
                    start as int,
                    i as int,
                ).push(c));
            }
            i = i + 1;
        }
        assert(s@.subrange(0, n as int) =~= s@);
        if start < n {
            let ghost before = segments@;
            let seg = s.substring_char(start, n).to_owned();
            segments.push(seg);
            assert(segments@.map_values(|x: String| x@) =~= before.map_values(|x: String| x@).push(
                s@.subrange(start as int, n as int),
            ));
        }
        let absolute = n > 0 && s.get_char(0) == '/';
        let r = FsPath { absolute, segments };
        assert(r@.segments =~= segments_of(s@));
        r
    }

    /// The text of the path, with `/` between segments.
    pub fn render(&self) -> (r: String)
        ensures
            r@ == render_path(self@),
    {
        proof {
            reveal_strlit("/");
        }
        let mut out = if self.absolute {
            String::from_str("/")
        } else {
            String::new()
        };
        let ghost prefix = out@;
        let n = self.segments.len();
        let mut i: usize = 0;
        while i < n
            invariant
                n == self.segments@.len(),
                i <= n,
                prefix == (if self.absolute {
                    seq!['/']
                } else {
                    Seq::<char>::empty()
                }),
                out@ == prefix + join_segments(self@.segments.take(i as int)),
            decreases n - i,
        {
            let ghost segs = self@.segments;
            assert(segs.take(i + 1).drop_last() =~= segs.take(i as int));
            if i > 0 {
                out.append("/");
            }
            out.append(self.segments[i].as_str());
            i = i + 1;
            proof {
                let t = segs.take(i as int);
                assert(t.last() == segs[i - 1]);
                if i == 1 {
                    assert(join_segments(t) == segs[0]);
                    assert(out@ =~= prefix + join_segments(t));
                } else {
                    reveal_strlit("/");
                    assert("/"@ =~= seq!['/']);
                    assert(join_segments(t) == join_segments(t.drop_last()) + seq!['/'] + t.last());
                    assert(out@ =~= prefix + join_segments(t));
                }
            }
        }
        assert(self@.segments.take(n as int) =~= self@.segments);
        out
    }
}

/// Appending separator-free text extends the segment being read.
proof fn lemma_split_plain(s: Seq<char>, t: Seq<char>)
    requires
        forall|j: int| 0 <= j < t.len() ==> t[j] != '/',
    ensures
        split_acc(s + t) == (split_acc(s).0, split_acc(s).1 + t),
    decreases t.len(),
{
    if t.len() == 0 {
        assert(s + t =~= s);
        assert(split_acc(s).1 + t =~= split_acc(s).1);
    } else {
        let u = t.drop_last();
        assert((s + t).drop_last() =~= s + u);
        lemma_split_plain(s, u);
        assert((split_acc(s).1 + u).push(t.last()) =~= split_acc(s).1 + t);
    }
}

/// The text of one or more well-formed segments, after an optional root, reads
/// back as those segments.
proof fn lemma_split_joined(prefix: Seq<char>, segs: Seq<Seq<char>>)
    requires
        prefix == seq!['/'] || prefix == Seq::<char>::empty(),
        segs.len() >= 1,
        forall|i: int| 0 <= i < segs.len() ==> wf_segment(#[trigger] segs[i]),
    ensures
        split_acc(prefix + join_segments(segs)) == (segs.drop_last(), segs.last()),
    decreases segs.len(),
{
    assert(split_acc(prefix) == (Seq::<Seq<char>>::empty(), Seq::<char>::empty())) by {
        if prefix.len() == 1 {
            assert(prefix.drop_last() =~= Seq::<char>::empty());
            assert(split_acc(Seq::<char>::empty()) == (
                Seq::<Seq<char>>::empty(),
                Seq::<char>::empty(),
            ));
        }
    }
    if segs.len() == 1 {
        assert(wf_segment(segs[0]));
        lemma_split_plain(prefix, segs[0]);
        assert(Seq::<char>::empty() + segs[0] =~= segs[0]);
        assert(segs.drop_last() =~= Seq::<Seq<char>>::empty());
    } else {
        let dl = segs.drop_last();
        assert forall|i: int| 0 <= i < dl.len() implies wf_segment(#[trigger] dl[i]) by {
            assert(dl[i] == segs[i]);
        }
        lemma_split_joined(prefix, dl);
        let head = prefix + join_segments(dl);
        assert(head.push('/').drop_last() =~= head);
        assert(wf_segment(dl.last()));
        assert(dl.drop_last().push(dl.last()) =~= dl);
        assert(wf_segment(segs.last()));
        assert(segs[segs.len() - 1] == segs.last());
        lemma_split_plain(head.push('/'), segs.last());
        assert(prefix + join_segments(segs) =~= head.push('/') + segs.last());
        assert(Seq::<char>::empty() + segs.last() =~= segs.last());
    }
}

/// The text of well-formed segments starts with the first character of the first one.
proof fn lemma_join_first(segs: Seq<Seq<char>>)
    requires
        segs.len() >= 1,
        forall|i: int| 0 <= i < segs.len() ==> wf_segment(#[trigger] segs[i]),
    ensures
        join_segments(segs).len() >= 1,
        join_segments(segs)[0] == segs[0][0],
    decreases segs.len(),
{
    assert(wf_segment(segs[0]));
    if segs.len() > 1 {
        let dl = segs.drop_last();
        assert forall|i: int| 0 <= i < dl.len() implies wf_segment(#[trigger] dl[i]) by {
            assert(dl[i] == segs[i]);
        }
        lemma_join_first(dl);
    }
}

/// Reading the text of a well-formed path gives the path back.
pub proof fn lemma_parse_render(p: FsPathView)
    requires
        wf_path(p),
    ensures
        parse_path(render_path(p)) == p,
{
    let prefix = if p.absolute {
        seq!['/']
    } else {
        Seq::<char>::empty()
    };
    let text = render_path(p);
    if p.segments.len() == 0 {
        assert(text =~= prefix);
        if p.absolute {
            assert(prefix.drop_last() =~= Seq::<char>::empty());
            assert(split_acc(Seq::<char>::empty()) == (
                Seq::<Seq<char>>::empty(),
                Seq::<char>::empty(),
            ));
        }
        assert(split_acc(text) == (Seq::<Seq<char>>::empty(), Seq::<char>::empty()));
        assert(segments_of(text) =~= p.segments);
    } else {
        lemma_split_joined(prefix, p.segments);
        assert(wf_segment(p.segments.last()));
        assert(p.segments[p.segments.len() - 1] == p.segments.last());
        assert(p.segments.drop_last().push(p.segments.last()) =~= p.segments);
        if !p.absolute {
            lemma_join_first(p.segments);
            assert(wf_segment(p.segments[0]));
            assert(text =~= join_segments(p.segments));
        }
    }
    assert(parse_path(text).segments == p.segments);
}

} // verus!
