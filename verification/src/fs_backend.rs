//! The shared-root sandbox: how a request path becomes a file path under the
//! shared folder, and which paths are refused.
use vstd::prelude::*;

use crate::config::ServerConfig;
use crate::dav::ResourceInfo;
use crate::http::{percent_decode_path, percent_decode_spec};
use crate::text::{chars_of, find, lemma_find_facts, owned, push_char, push_str, string_of_range};

verus! {

/// The kinds of failure that file operations report; they decide the HTTP status.
#[derive(Debug, Clone, Copy, PartialEq, Eq, Structural)]
pub enum ErrorKind {
    NotFound,
    PermissionDenied,
    InvalidInput,
    AlreadyExists,
    Other,
}

/// A failed file operation: its kind and a message for the client.
#[derive(Debug, Clone)]
pub struct FsError {
    pub kind: ErrorKind,
    pub message: String,
}

/// A directory entry: its name and what it is.
#[derive(Debug, Clone)]
pub struct FsEntry {
    pub name: String,
    pub metadata: ResourceInfo,
}

/// The shared folder and the rules that guard it.
#[derive(Debug, Clone)]
pub struct FileSystemBackend {
    pub root: String,
    pub hide_dotfiles: bool,
    pub follow_symlinks: bool,
}

// ---------------------------------------------------------------------------
// Path segments
// ---------------------------------------------------------------------------

/// The pieces of `s` between `/` separators, empty ones included.
#[verifier::opaque]
pub open spec fn segments(s: Seq<char>) -> Seq<Seq<char>>
    decreases s.len(),
{
    let k = find(s, '/');
    if k < 0 {
        seq![s]
    } else {
        proof {
            lemma_find_facts(s, '/');
        }
        seq![s.subrange(0, k)] + segments(s.subrange(k + 1, s.len() as int))
    }
}

/// A segment that names something: neither empty nor `.`.
pub open spec fn is_named(seg: Seq<char>) -> bool {
    seg.len() > 0 && seg != "."@
}

/// The named segments of a path, in order.
pub open spec fn named_segments(s: Seq<char>) -> Seq<Seq<char>> {
    segments(s).filter(|seg: Seq<char>| is_named(seg))
}

/// A path that climbs out of its starting folder through a `..` segment.
pub open spec fn has_parent_segment(s: Seq<char>) -> bool {
    exists|i: int| 0 <= i < segments(s).len() && #[trigger] segments(s)[i] == ".."@
}

/// A path with a segment that starts with `.`: a dotfile or dot-folder.
pub open spec fn has_dot_segment(segs: Seq<Seq<char>>) -> bool {
    exists|i: int| 0 <= i < segs.len() && (#[trigger] segs[i]).len() > 0 && segs[i][0] == '.'
}

/// Segments joined with `/`.
pub open spec fn join_segments(segs: Seq<Seq<char>>) -> Seq<char>
    decreases segs.len(),
{
    if segs.len() == 0 {
        Seq::empty()
    } else if segs.len() == 1 {
        segs[0]
    } else {
        join_segments(segs.drop_last()) + "/"@ + segs.last()
    }
}

/// `base` joined with a relative path, as `Path::join` does on Unix: a `/` goes
/// between them unless `base` is empty or already ends with one.
pub open spec fn join_relative(base: Seq<char>, rel: Seq<char>) -> Seq<char> {
    if base.len() > 0 && base.last() != '/' {
        base + "/"@ + rel
    } else {
        base + rel
    }
}

/// How a request path maps into the share, or why it is refused.
pub open spec fn resolve_spec(backend: FileSystemBackend, request_path: Seq<char>) -> Result<
    Seq<char>,
    (ErrorKind, Seq<char>),
> {
    match percent_decode_spec(request_path) {
        Err(msg) => Err((ErrorKind::InvalidInput, msg)),
        Ok(decoded) => if has_parent_segment(decoded) {
            Err((ErrorKind::PermissionDenied, "Path escapes shared root"@))
        } else if backend.hide_dotfiles && has_dot_segment(named_segments(decoded)) {
            Err((ErrorKind::NotFound, "Hidden files are not exposed"@))
        } else {
            Ok(join_relative(backend.root@, join_segments(named_segments(decoded))))
        },
    }
}

proof fn lemma_segments_step(s: Seq<char>, i: int, j: int)
    requires
        0 <= i <= j <= s.len(),
        forall|x: int| i <= x < j ==> s[x] != '/',
        j == s.len() || s[j] == '/',
    ensures
        segments(s.subrange(i, s.len() as int)) == if j == s.len() {
            seq![s.subrange(i, j)]
        } else {
            seq![s.subrange(i, j)] + segments(s.subrange(j + 1, s.len() as int))
        },
{
    reveal(segments);
    let t = s.subrange(i, s.len() as int);
    if j == s.len() {
        assert forall|x: int| 0 <= x < t.len() implies t[x] != '/' by {
            assert(t[x] == s[i + x]);
        }
        crate::text::lemma_find_none(t, '/');
        assert(t =~= s.subrange(i, j));
    } else {
        assert forall|x: int| 0 <= x < j - i implies t[x] != '/' by {
            assert(t[x] == s[i + x]);
        }
        crate::text::lemma_find_first(t, '/', j - i);
        assert(t.subrange(0, j - i) =~= s.subrange(i, j));
        assert(t.subrange(j - i + 1, t.len() as int) =~= s.subrange(j + 1, s.len() as int));
    }
}

/// The bounds of every segment of `v`, in order.
pub fn segment_bounds(v: &Vec<char>) -> (r: Vec<(usize, usize)>)
    ensures
        r@.len() == segments(v@).len(),
        forall|k: int|
            0 <= k < r@.len() ==> {
                &&& (#[trigger] r@[k]).0 <= r@[k].1 <= v@.len()
                &&& segments(v@)[k] == v@.subrange(r@[k].0 as int, r@[k].1 as int)
            },
{
    let mut r: Vec<(usize, usize)> = Vec::new();
    let mut i: usize = 0;
    let ghost mut done: Seq<Seq<char>> = Seq::empty();
    assert(v@.subrange(0, v@.len() as int) =~= v@);
    loop
        invariant
            0 <= i <= v.len(),
            segments(v@) == done + segments(v@.subrange(i as int, v@.len() as int)),
            r@.len() == done.len(),
            forall|k: int|
                0 <= k < r@.len() ==> {
                    &&& (#[trigger] r@[k]).0 <= r@[k].1 <= v@.len()
                    &&& done[k] == v@.subrange(r@[k].0 as int, r@[k].1 as int)
                },
        decreases v.len() - i,
    {
        let mut j = i;
        while j < v.len() && v[j] != '/'
            invariant
                i <= j <= v.len(),
                forall|x: int| i <= x < j ==> v@[x] != '/',
            decreases v.len() - j,
        {
            j += 1;
        }
        proof {
            lemma_segments_step(v@, i as int, j as int);
        }
        let ghost seg = v@.subrange(i as int, j as int);
        r.push((i, j));
        if j == v.len() {
            proof {
                assert(segments(v@) =~= done.push(seg));
                done = done.push(seg);
            }
            return r;
        }
        proof {
            assert(done + (seq![seg] + segments(v@.subrange(j + 1, v@.len() as int))) =~= done.push(
                seg,
            ) + segments(v@.subrange(j + 1, v@.len() as int)));
            done = done.push(seg);
        }
        i = j + 1;
    }
}

fn is_named_range(v: &Vec<char>, a: usize, b: usize) -> (res: bool)
    requires
        a <= b <= v.len(),
    ensures
        res == is_named(v@.subrange(a as int, b as int)),
{
    proof {
        reveal_strlit(".");
        let seg = v@.subrange(a as int, b as int);
        if seg.len() == 1 && seg[0] == '.' {
            assert(seg =~= "."@);
        } else if seg.len() == 1 {
            assert(seg[0] != "."@[0]);
        }
    }
    b > a && !(b - a == 1 && v[a] == '.')
}

fn is_parent_range(v: &Vec<char>, a: usize, b: usize) -> (res: bool)
    requires
        a <= b <= v.len(),
    ensures
        res == (v@.subrange(a as int, b as int) == ".."@),
{
    proof {
        reveal_strlit("..");
        let seg = v@.subrange(a as int, b as int);
        if seg.len() == 2 && seg[0] == '.' && seg[1] == '.' {
            assert(seg =~= ".."@);
        } else if seg.len() == 2 {
            assert(seg[0] != ".."@[0] || seg[1] != ".."@[1]);
        }
    }
    b - a == 2 && v[a] == '.' && v[a + 1] == '.'
}

/// Whether some segment in `bounds` is `..`.
fn any_parent_segment(dc: &Vec<char>, bounds: &Vec<(usize, usize)>) -> (res: bool)
    requires
        bounds@.len() == segments(dc@).len(),
        forall|m: int|
            0 <= m < bounds@.len() ==> {
                &&& (#[trigger] bounds@[m]).0 <= bounds@[m].1 <= dc@.len()
                &&& segments(dc@)[m] == dc@.subrange(bounds@[m].0 as int, bounds@[m].1 as int)
            },
    ensures
        res == has_parent_segment(dc@),
{
    let mut k: usize = 0;
    while k < bounds.len()
        invariant
            bounds@.len() == segments(dc@).len(),
            forall|m: int|
                0 <= m < bounds@.len() ==> {
                    &&& (#[trigger] bounds@[m]).0 <= bounds@[m].1 <= dc@.len()
                    &&& segments(dc@)[m] == dc@.subrange(bounds@[m].0 as int, bounds@[m].1 as int)
                },
            0 <= k <= bounds.len(),
            forall|m: int| 0 <= m < k ==> #[trigger] segments(dc@)[m] != ".."@,
        decreases bounds.len() - k,
    {
        let (a, b) = bounds[k];
        if is_parent_range(dc, a, b) {
            assert(segments(dc@)[k as int] == ".."@);
            return true;
        }
        k += 1;
    }
    false
}

/// The bounds of the named segments (see `named_segments`), in order.
#[verifier::rlimit(50)]
fn named_segment_bounds(dc: &Vec<char>, bounds: &Vec<(usize, usize)>) -> (named: Vec<(usize, usize)>)
    requires
        bounds@.len() == segments(dc@).len(),
        forall|m: int|
            0 <= m < bounds@.len() ==> {
                &&& (#[trigger] bounds@[m]).0 <= bounds@[m].1 <= dc@.len()
                &&& segments(dc@)[m] == dc@.subrange(bounds@[m].0 as int, bounds@[m].1 as int)
            },
    ensures
        named@.len() == named_segments(dc@).len(),
        forall|m: int|
            0 <= m < named@.len() ==> {
                &&& (#[trigger] named@[m]).0 < named@[m].1 <= dc@.len()
                &&& named_segments(dc@)[m] == dc@.subrange(named@[m].0 as int, named@[m].1 as int)
            },
{
    let ghost segs = segments(dc@);
    let mut named: Vec<(usize, usize)> = Vec::new();
    let mut k: usize = 0;
    while k < bounds.len()
        invariant
            segs == segments(dc@),
            bounds@.len() == segs.len(),
            forall|m: int|
                0 <= m < bounds@.len() ==> {
                    &&& (#[trigger] bounds@[m]).0 <= bounds@[m].1 <= dc@.len()
                    &&& segs[m] == dc@.subrange(bounds@[m].0 as int, bounds@[m].1 as int)
                },
            0 <= k <= bounds.len(),
            named@.len() == segs.subrange(0, k as int).filter(|seg: Seq<char>| is_named(seg)).len(),
            forall|m: int|
                0 <= m < named@.len() ==> {
                    &&& (#[trigger] named@[m]).0 < named@[m].1 <= dc@.len()
                    &&& segs.subrange(0, k as int).filter(|seg: Seq<char>| is_named(seg))[m]
                        == dc@.subrange(named@[m].0 as int, named@[m].1 as int)
                },
        decreases bounds.len() - k,
    {
        let (a, b) = bounds[k];
        let ghost pre = segs.subrange(0, k as int);
        let ghost post = segs.subrange(0, k + 1);
        proof {
            assert(post.drop_last() =~= pre);
            reveal_with_fuel(Seq::filter, 1);
        }
        if is_named_range(dc, a, b) {
            let ghost fpre = pre.filter(|seg: Seq<char>| is_named(seg));
            let ghost fpost = post.filter(|seg: Seq<char>| is_named(seg));
            assert(fpost == fpre.push(segs[k as int]));
            named.push((a, b));
            assert forall|m: int| 0 <= m < named@.len() implies fpost[m] == dc@.subrange(
                (#[trigger] named@[m]).0 as int,
                named@[m].1 as int,
            ) by {
                if m < fpre.len() {
                    assert(fpost[m] == fpre[m]);
                }
            }
        } else {
            assert(post.filter(|seg: Seq<char>| is_named(seg)) == pre.filter(
                |seg: Seq<char>| is_named(seg),
            ));
        }
        k += 1;
    }
    assert(segs.subrange(0, segs.len() as int) =~= segs);
    named
}

impl FileSystemBackend {
    /// A backend for the folder `root`, with the dotfile and symlink rules of `config`.
    pub fn new(root: String, config: &ServerConfig) -> (b: Self)
        ensures
            b.root == root,
            b.hide_dotfiles == config.hide_dotfiles,
            b.follow_symlinks == config.follow_symlinks,
    {
        FileSystemBackend {
            root,
            hide_dotfiles: config.hide_dotfiles,
            follow_symlinks: config.follow_symlinks,
        }
    }

    /// Maps a request path to a path under the root: percent-decodes it, drops
    /// empty and `.` segments, refuses `..` and, when dotfiles are hidden, any
    /// segment starting with `.`. Checks that need the disk (canonical parents,
    /// symlinks) are made by the caller on the returned path.
    #[verifier::loop_isolation(false)]
    pub fn resolve(&self, request_path: &str) -> (r: Result<String, FsError>)
        ensures
            match (r, resolve_spec(*self, request_path@)) {
                (Ok(p), Ok(q)) => p@ == q,
                (Err(e), Err((kind, msg))) => e.kind == kind && e.message@ == msg,
                _ => false,
            },
    {
        let decoded = match percent_decode_path(request_path) {
            Ok(d) => d,
            Err(msg) => {
                return Err(FsError { kind: ErrorKind::InvalidInput, message: msg });
            },
        };
        let relative = match sanitize_relative_path(decoded.as_str()) {
            Ok(p) => p,
            Err(e) => {
                return Err(e);
            },
        };
        let ghost nsegs = named_segments(decoded@);
        proof {
            lemma_relative_segments(decoded@);
        }
        if self.hide_dotfiles {
            let rc = chars_of(relative.as_str());
            let bounds = segment_bounds(&rc);
            let ghost rsegs = segments(rc@);
            let mut k: usize = 0;
            while k < bounds.len()
                invariant
                    rc@ == relative@,
                    rsegs == segments(rc@),
                    bounds@.len() == rsegs.len(),
                    forall|m: int|
                        0 <= m < bounds@.len() ==> {
                            &&& (#[trigger] bounds@[m]).0 <= bounds@[m].1 <= rc@.len()
                            &&& rsegs[m] == rc@.subrange(bounds@[m].0 as int, bounds@[m].1 as int)
                        },
                    0 <= k <= bounds.len(),
                    forall|m: int|
                        0 <= m < k ==> !((#[trigger] rsegs[m]).len() > 0 && rsegs[m][0] == '.'),
                decreases bounds.len() - k,
            {
                let (a, b) = bounds[k];
                let seg = string_of_range(&rc, a, b);
                if is_dot_component(seg.as_str()) {
                    proof {
                        assert(rsegs[k as int] == seg@);
                        if nsegs.len() == 0 {
                            reveal(segments);
                            reveal_strlit("");
                            assert(relative@.len() == 0);
                            crate::text::lemma_find_none(rc@, '/');
                            assert(rsegs[0].len() == 0);
                        }
                        assert(has_dot_segment(nsegs));
                    }
                    return Err(
                        FsError {
                            kind: ErrorKind::NotFound,
                            message: owned("Hidden files are not exposed"),
                        },
                    );
                }
                k += 1;
            }
            proof {
                if nsegs.len() > 0 {
                    assert(!has_dot_segment(nsegs)) by {
                        if has_dot_segment(nsegs) {
                            let i = choose|i: int|
                                0 <= i < nsegs.len() && (#[trigger] nsegs[i]).len() > 0
                                    && nsegs[i][0] == '.';
                            assert(rsegs[i] == nsegs[i]);
                        }
                    }
                }
            }
        }
        let rc = chars_of(self.root.as_str());
        let mut out = owned(self.root.as_str());
        let sep = rc.len() > 0 && rc[rc.len() - 1] != '/';
        if sep {
            push_char(&mut out, '/');
        }
        push_str(&mut out, relative.as_str());
        proof {
            reveal_strlit("/");
            if sep {
                assert(out@ =~= self.root@ + "/"@ + relative@);
            }
        }
        Ok(out)
    }
}

/// A segment that starts with `.`: a dotfile or dot-folder.
pub fn is_dot_component(segment: &str) -> (b: bool)
    ensures
        b == (segment@.len() > 0 && segment@[0] == '.'),
{
    let c = chars_of(segment);
    c.len() > 0 && c[0] == '.'
}

/// The relative path that a decoded request path names: its segments that
/// name something, joined with `/`; refused when one of them is `..`.
pub fn sanitize_relative_path(input: &str) -> (r: Result<String, FsError>)
    ensures
        has_parent_segment(input@) ==> (r matches Err(e) && e.kind == ErrorKind::PermissionDenied
            && e.message@ == "Path escapes shared root"@),
        !has_parent_segment(input@) ==> (r matches Ok(p) && p@ == join_segments(
            named_segments(input@),
        )),
{
    let dc = chars_of(input);
    let bounds = segment_bounds(&dc);
    if any_parent_segment(&dc, &bounds) {
        return Err(
            FsError { kind: ErrorKind::PermissionDenied, message: owned("Path escapes shared root") },
        );
    }
    let named = named_segment_bounds(&dc, &bounds);
    let ghost nsegs = named_segments(input@);
    let mut out = String::new();
    let mut m: usize = 0;
    while m < named.len()
        invariant
            dc@ == input@,
            nsegs == named_segments(input@),
            named@.len() == nsegs.len(),
            forall|x: int|
                0 <= x < named@.len() ==> {
                    &&& (#[trigger] named@[x]).0 < named@[x].1 <= dc@.len()
                    &&& nsegs[x] == dc@.subrange(named@[x].0 as int, named@[x].1 as int)
                },
            0 <= m <= named.len(),
            out@ == join_segments(nsegs.subrange(0, m as int)),
        decreases named.len() - m,
    {
        let (a, b) = named[m];
        let ghost before = out@;
        if m > 0 {
            push_char(&mut out, '/');
        }
        let seg = string_of_range(&dc, a, b);
        push_str(&mut out, seg.as_str());
        proof {
            reveal_strlit("/");
            let pre = nsegs.subrange(0, m as int);
            let post = nsegs.subrange(0, m + 1);
            assert(post.drop_last() =~= pre);
            if m == 0 {
                assert(join_segments(post) == nsegs[0]);
                assert(out@ =~= seg@);
            } else {
                assert(out@ =~= before + "/"@ + seg@);
            }
        }
        m += 1;
    }
    assert(nsegs.subrange(0, nsegs.len() as int) =~= nsegs);
    Ok(out)
}

/// The named segments of a path hold no `/`, and, with no `..` among the
/// segments, none of them is `..`; joined, they split back into themselves.
proof fn lemma_relative_segments(s: Seq<char>)
    ensures
        forall|i: int|
            0 <= i < named_segments(s).len() ==> {
                &&& is_named(#[trigger] named_segments(s)[i])
                &&& !has_parent_segment(s) ==> named_segments(s)[i] != ".."@
                &&& forall|x: int|
                    0 <= x < named_segments(s)[i].len() ==> named_segments(s)[i][x] != '/'
            },
        named_segments(s).len() > 0 ==> segments(join_segments(named_segments(s)))
            == named_segments(s),
        named_segments(s).len() == 0 ==> join_segments(named_segments(s)).len() == 0,
{
    broadcast use vstd::seq_lib::group_filter_ensures;

    let all = segments(s);
    let pred = |seg: Seq<char>| is_named(seg);
    let named = named_segments(s);
    lemma_segments_no_slash(s);
    assert forall|i: int| 0 <= i < named.len() implies {
        &&& is_named(#[trigger] named[i])
        &&& !has_parent_segment(s) ==> named[i] != ".."@
        &&& forall|x: int| 0 <= x < named[i].len() ==> named[i][x] != '/'
    } by {
        assert(pred(named[i]));
        assert(named.contains(named[i]));
        all.lemma_filter_contains_rev(pred, named[i]);
        let j = choose|j: int| 0 <= j < all.len() && all[j] == named[i];
        assert forall|x: int| 0 <= x < named[i].len() implies named[i][x] != '/' by {
            assert(all[j][x] != '/');
        }
    }
    if named.len() > 0 {
        lemma_segments_join(named);
    }
}


// ---------------------------------------------------------------------------
// What resolving guarantees
// ---------------------------------------------------------------------------

/// No segment holds a `/`.
proof fn lemma_segments_no_slash(s: Seq<char>)
    ensures
        forall|i: int, x: int|
            0 <= i < segments(s).len() && 0 <= x < segments(s)[i].len() ==> #[trigger] segments(
                s,
            )[i][x] != '/',
    decreases s.len(),
{
    reveal(segments);
    lemma_find_facts(s, '/');
    let k = find(s, '/');
    if k >= 0 {
        let rest = s.subrange(k + 1, s.len() as int);
        lemma_segments_no_slash(rest);
        assert forall|i: int, x: int|
            0 <= i < segments(s).len() && 0 <= x < segments(s)[i].len() implies #[trigger] segments(
            s,
        )[i][x] != '/' by {
            if i > 0 {
                assert(segments(s)[i] == segments(rest)[i - 1]);
            } else {
                assert(segments(s)[0] == s.subrange(0, k));
            }
        }
    }
}

/// Splitting at a `/` splits the segments.
proof fn lemma_segments_concat(a: Seq<char>, b: Seq<char>)
    ensures
        segments(a + "/"@ + b) == segments(a) + segments(b),
    decreases a.len(),
{
    reveal(segments);
    reveal_strlit("/");
    let s = a + "/"@ + b;
    lemma_find_facts(a, '/');
    let k = find(a, '/');
    if k < 0 {
        assert forall|j: int| 0 <= j < a.len() implies s[j] != '/' by {
            assert(s[j] == a[j]);
        }
        crate::text::lemma_find_first(s, '/', a.len() as int);
        assert(s.subrange(0, a.len() as int) =~= a);
        assert(s.subrange((a.len() + 1) as int, s.len() as int) =~= b);
        assert(segments(a) == seq![a]);
    } else {
        assert forall|j: int| 0 <= j < k implies s[j] != '/' by {
            assert(s[j] == a[j]);
        }
        crate::text::lemma_find_first(s, '/', k);
        let ra = a.subrange(k + 1, a.len() as int);
        assert(s.subrange(0, k) =~= a.subrange(0, k));
        assert(s.subrange(k + 1, s.len() as int) =~= ra + "/"@ + b);
        lemma_segments_concat(ra, b);
        assert(seq![a.subrange(0, k)] + (segments(ra) + segments(b)) =~= (seq![a.subrange(0, k)]
            + segments(ra)) + segments(b));
    }
}

/// Joining segments without `/` and splitting them again gives them back.
proof fn lemma_segments_join(segs: Seq<Seq<char>>)
    requires
        segs.len() > 0,
        forall|i: int, x: int|
            0 <= i < segs.len() && 0 <= x < segs[i].len() ==> #[trigger] segs[i][x] != '/',
    ensures
        segments(join_segments(segs)) == segs,
    decreases segs.len(),
{
    reveal(segments);
    let last = segs.last();
    assert forall|j: int| 0 <= j < last.len() implies last[j] != '/' by {
        assert(last[j] == segs[segs.len() - 1][j]);
    }
    crate::text::lemma_find_none(last, '/');
    assert(segments(last) == seq![last]);
    if segs.len() > 1 {
        lemma_segments_join(segs.drop_last());
        lemma_segments_concat(join_segments(segs.drop_last()), last);
        assert(segs.drop_last() + seq![last] =~= segs);
    } else {
        assert(seq![segs[0]] =~= segs);
    }
}

/// A resolved path stays under the shared root: it is the root joined with a
/// relative path whose segments all name something, none of them `..`, and,
/// when dotfiles are hidden, none of them starting with `.`.
pub proof fn lemma_resolve_stays_under_root(backend: FileSystemBackend, request_path: Seq<char>)
    requires
        resolve_spec(backend, request_path) is Ok,
    ensures
        exists|rel: Seq<char>|
            {
                &&& resolve_spec(backend, request_path) == Ok::<Seq<char>, (ErrorKind, Seq<char>)>(
                    join_relative(backend.root@, rel),
                )
                &&& rel.len() == 0 || forall|i: int|
                    0 <= i < segments(rel).len() ==> {
                        &&& is_named(#[trigger] segments(rel)[i])
                        &&& segments(rel)[i] != ".."@
                        &&& backend.hide_dotfiles ==> segments(rel)[i][0] != '.'
                    }
            },
{
    let decoded = percent_decode_spec(request_path)->Ok_0;
    let named = named_segments(decoded);
    let rel = join_segments(named);
    lemma_relative_segments(decoded);
    assert(resolve_spec(backend, request_path) == Ok::<Seq<char>, (ErrorKind, Seq<char>)>(
        join_relative(backend.root@, rel),
    ));
}

// ---------------------------------------------------------------------------
// Listing a folder
// ---------------------------------------------------------------------------

/// Whether name `a` sorts at or before name `b`: character by character by
/// code point, a prefix before the longer name. This is the order in which
/// Rust sorts strings, since UTF-8 keeps the order of code points.
pub open spec fn name_le(a: Seq<char>, b: Seq<char>) -> bool
    decreases a.len(),
{
    if a.len() == 0 {
        true
    } else if b.len() == 0 {
        false
    } else if a[0] != b[0] {
        (a[0] as u32) < (b[0] as u32)
    } else {
        name_le(a.drop_first(), b.drop_first())
    }
}

/// Whether a folder listing shows an entry with this name.
pub open spec fn is_listed(hide_dotfiles: bool, name: Seq<char>) -> bool {
    !(hide_dotfiles && name.len() > 0 && name[0] == '.')
}

/// Entries in order of their names.
pub open spec fn sorted_by_name(s: Seq<FsEntry>) -> bool {
    forall|i: int, j: int| 0 <= i < j < s.len() ==> name_le(#[trigger] s[i].name@, #[trigger] s[j].name@)
}

/// The entries of `entries` that a listing shows.
pub open spec fn listed_entries(hide_dotfiles: bool, entries: Seq<FsEntry>) -> Seq<FsEntry> {
    entries.filter(|e: FsEntry| is_listed(hide_dotfiles, e.name@))
}

proof fn lemma_name_le_total(a: Seq<char>, b: Seq<char>)
    ensures
        name_le(a, b) || name_le(b, a),
    decreases a.len(),
{
    if a.len() > 0 && b.len() > 0 {
        if a[0] == b[0] {
            lemma_name_le_total(a.drop_first(), b.drop_first());
        } else {
            vstd::utf8::char_u32_cast(a[0], a[0] as u32);
            vstd::utf8::char_u32_cast(b[0], b[0] as u32);
        }
    }
}

proof fn lemma_name_le_refl(a: Seq<char>)
    ensures
        name_le(a, a),
    decreases a.len(),
{
    if a.len() > 0 {
        lemma_name_le_refl(a.drop_first());
    }
}

proof fn lemma_name_le_trans(a: Seq<char>, b: Seq<char>, c: Seq<char>)
    requires
        name_le(a, b),
        name_le(b, c),
    ensures
        name_le(a, c),
    decreases a.len(),
{
    if a.len() > 0 && b.len() > 0 && c.len() > 0 && a[0] == b[0] && b[0] == c[0] {
        lemma_name_le_trans(a.drop_first(), b.drop_first(), c.drop_first());
    }
}

/// Compares two names by `name_le`.
fn name_le_exec(a: &str, b: &str) -> (r: bool)
    ensures
        r == name_le(a@, b@),
{
    let x = chars_of(a);
    let y = chars_of(b);
    let mut i: usize = 0;
    assert(a@.skip(0) =~= a@);
    assert(b@.skip(0) =~= b@);
    while i < x.len() && i < y.len() && x[i] == y[i]
        invariant
            x@ == a@,
            y@ == b@,
            i <= x.len(),
            i <= y.len(),
            name_le(a@, b@) == name_le(a@.skip(i as int), b@.skip(i as int)),
        decreases x.len() - i,
    {
        assert(a@.skip(i as int).drop_first() =~= a@.skip(i + 1));
        assert(b@.skip(i as int).drop_first() =~= b@.skip(i + 1));
        i += 1;
    }
    if i == x.len() {
        true
    } else if i == y.len() {
        false
    } else {
        (x[i] as u32) < (y[i] as u32)
    }
}

/// No two entries share a name, as in any one folder.
pub open spec fn distinct_entry_names(s: Seq<FsEntry>) -> bool {
    forall|i: int, j: int| 0 <= i < j < s.len() ==> #[trigger] s[i].name@ != #[trigger] s[j].name@
}

proof fn lemma_insert_distinct(s: Seq<FsEntry>, p: int, x: FsEntry)
    requires
        distinct_entry_names(s),
        0 <= p <= s.len(),
        forall|i: int| 0 <= i < s.len() ==> #[trigger] s[i].name@ != x.name@,
    ensures
        distinct_entry_names(s.insert(p, x)),
{
    let t = s.insert(p, x);
    assert forall|i: int, j: int| 0 <= i < j < t.len() implies #[trigger] t[i].name@
        != #[trigger] t[j].name@ by {
        if j < p {
            assert(t[i] == s[i] && t[j] == s[j]);
        } else if j == p {
            assert(t[i] == s[i] && t[j] == x);
        } else if i < p {
            assert(t[i] == s[i] && t[j] == s[j - 1]);
        } else if i == p {
            assert(t[i] == x && t[j] == s[j - 1]);
        } else {
            assert(t[i] == s[i - 1] && t[j] == s[j - 1]);
        }
    }
}

/// In a listing of a folder, whose names are distinct, every name comes
/// strictly after the one before it.
pub proof fn lemma_listing_strictly_ascending(out: Seq<FsEntry>)
    requires
        sorted_by_name(out),
        distinct_entry_names(out),
    ensures
        forall|i: int, j: int|
            0 <= i < j < out.len() ==> name_le(#[trigger] out[i].name@, #[trigger] out[j].name@)
                && out[i].name@ != out[j].name@,
{
}

proof fn lemma_insert_sorted(s: Seq<FsEntry>, p: int, x: FsEntry)
    requires
        sorted_by_name(s),
        0 <= p <= s.len(),
        forall|i: int| 0 <= i < p ==> name_le(#[trigger] s[i].name@, x.name@),
        p < s.len() ==> !name_le(s[p].name@, x.name@),
    ensures
        sorted_by_name(s.insert(p, x)),
{
    let t = s.insert(p, x);
    if p < s.len() {
        lemma_name_le_total(s[p].name@, x.name@);
    }
    assert forall|i: int, j: int| 0 <= i < j < t.len() implies name_le(
        #[trigger] t[i].name@,
        #[trigger] t[j].name@,
    ) by {
        if j < p {
            assert(t[i] == s[i] && t[j] == s[j]);
        } else if j == p {
            assert(t[i] == s[i] && t[j] == x);
        } else if i < p {
            assert(t[i] == s[i] && t[j] == s[j - 1]);
            assert(name_le(s[i].name@, x.name@));
            if p < j - 1 {
                lemma_name_le_trans(x.name@, s[p].name@, s[j - 1].name@);
            }
            lemma_name_le_trans(s[i].name@, x.name@, s[j - 1].name@);
        } else if i == p {
            assert(t[i] == x && t[j] == s[j - 1]);
            if p < j - 1 {
                lemma_name_le_trans(x.name@, s[p].name@, s[j - 1].name@);
            }
        } else {
            assert(t[i] == s[i - 1] && t[j] == s[j - 1]);
        }
    }
}

impl FileSystemBackend {
    /// A folder listing from the folder's entries: dotfiles left out when they
    /// are hidden, the rest in order of their names.
    pub fn listing(&self, entries: Vec<FsEntry>) -> (out: Vec<FsEntry>)
        ensures
            sorted_by_name(out@),
            out@.to_multiset() == listed_entries(self.hide_dotfiles, entries@).to_multiset(),
            distinct_entry_names(entries@) ==> distinct_entry_names(out@),
    {
        broadcast use vstd::seq_lib::group_to_multiset_ensures;

        let ghost all = entries@;
        let ghost pred = |e: FsEntry| is_listed(self.hide_dotfiles, e.name@);
        let mut rest = entries;
        let mut out: Vec<FsEntry> = Vec::new();
        let ghost mut k: int = 0;
        assert(all.skip(0) =~= all);
        while rest.len() > 0
            invariant
                0 <= k <= all.len(),
                rest@ == all.skip(k),
                pred == (|e: FsEntry| is_listed(self.hide_dotfiles, e.name@)),
                sorted_by_name(out@),
                out@.to_multiset() == all.take(k).filter(pred).to_multiset(),
                distinct_entry_names(all) ==> distinct_entry_names(out@),
                distinct_entry_names(all) ==> forall|i: int, j: int|
                    0 <= i < out@.len() && k <= j < all.len() ==> #[trigger] out@[i].name@
                        != #[trigger] all[j].name@,
            decreases rest.len(),
        {
            let e = rest.remove(0);
            proof {
                assert(all.take(k + 1).drop_last() =~= all.take(k));
                assert(all.take(k + 1).last() == e);
                assert(rest@ =~= all.skip(k + 1));
                reveal(Seq::filter);
            }
            let c = chars_of(e.name.as_str());
            let keep = !(self.hide_dotfiles && c.len() > 0 && c[0] == '.');
            if keep {
                let mut p: usize = 0;
                while p < out.len() && name_le_exec(out[p].name.as_str(), e.name.as_str())
                    invariant
                        p <= out.len(),
                        forall|i: int| 0 <= i < p ==> name_le(#[trigger] out@[i].name@, e.name@),
                    decreases out.len() - p,
                {
                    p += 1;
                }
                let ghost before = out@;
                proof {
                    if distinct_entry_names(all) {
                        assert(e == all[k]);
                        lemma_insert_distinct(out@, p as int, e);
                        let t2 = out@.insert(p as int, e);
                        assert forall|i: int, j: int|
                            0 <= i < t2.len() && k + 1 <= j < all.len() implies #[trigger] t2[i].name@
                            != #[trigger] all[j].name@ by {
                            if i < p {
                                assert(t2[i] == out@[i]);
                            } else if i == p {
                                assert(all[k].name@ != all[j].name@);
                            } else {
                                assert(t2[i] == out@[i - 1]);
                            }
                        }
                    }
                    lemma_insert_sorted(out@, p as int, e);
                    vstd::seq_lib::to_multiset_insert(out@, p as int, e);
                }
                out.insert(p, e);
                proof {
                    assert(pred(e));
                    assert(all.take(k + 1).filter(pred) == all.take(k).filter(pred).push(e));
                    vstd::seq_lib::to_multiset_build(all.take(k).filter(pred), e);
                    assert(out@.to_multiset() =~= before.to_multiset().insert(e));
                }
            } else {
                proof {
                    assert(!pred(e));
                    assert(all.take(k + 1).filter(pred) == all.take(k).filter(pred));
                }
            }
            proof {
                k = k + 1;
            }
        }
        assert(all.take(k) =~= all);
        out
    }
}

/// What the symlink check found at one more segment of a resolved path.
#[derive(Debug, Clone, Copy, PartialEq, Eq, Structural)]
pub enum SegmentProbe {
    /// The segment is a symbolic link.
    Symlink,
    /// The segment exists and is no link.
    Present,
    /// Nothing exists there, nor below it.
    Missing,
}

impl FileSystemBackend {
    /// The outcome of the root check, given whether the root is a folder.
    pub fn check_root(&self, is_dir: bool) -> (r: Result<(), FsError>)
        ensures
            is_dir ==> r is Ok,
            !is_dir ==> (r matches Err(e) && e.kind == ErrorKind::InvalidInput && e.message@
                == "Not a directory: "@ + self.root@),
    {
        if is_dir {
            Ok(())
        } else {
            let mut message = owned("Not a directory: ");
            push_str(&mut message, self.root.as_str());
            Err(FsError { kind: ErrorKind::InvalidInput, message })
        }
    }

    /// One step of the symlink check, which walks the segments of a resolved
    /// path from the root: `None` to go on to the next segment, or the verdict.
    /// A link refuses the path; a missing segment ends the check, as nothing
    /// below it can be a link.
    pub fn symlink_check_step(&self, probe: SegmentProbe) -> (r: Option<Result<(), FsError>>)
        ensures
            probe == SegmentProbe::Symlink ==> (r matches Some(Err(e)) && e.kind
                == ErrorKind::PermissionDenied && e.message@ == "Symlinks are disabled"@),
            probe == SegmentProbe::Present ==> r is None,
            probe == SegmentProbe::Missing ==> (r matches Some(res) && res is Ok),
    {
        match probe {
            SegmentProbe::Symlink => Some(
                Err(
                    FsError {
                        kind: ErrorKind::PermissionDenied,
                        message: owned("Symlinks are disabled"),
                    },
                ),
            ),
            SegmentProbe::Present => None,
            SegmentProbe::Missing => Some(Ok(())),
        }
    }
}

/// The walk from the root meets a symbolic link before any missing segment:
/// some existing prefix of the path below the root is a link.
pub open spec fn meets_symlink(probes: Seq<SegmentProbe>) -> bool {
    exists|i: int|
        0 <= i < probes.len() && probes[i] == SegmentProbe::Symlink && forall|j: int|
            0 <= j < i ==> #[trigger] probes[j] == SegmentProbe::Present
}

impl FileSystemBackend {
    /// The verdict of the symlink check, from what was found at each segment
    /// below the root, in order (the walk may stop at the first segment that
    /// is not a plain existing one): refused exactly when the path meets a link
    /// before any missing segment.
    pub fn check_symlink_probes(&self, probes: &Vec<SegmentProbe>) -> (r: Result<(), FsError>)
        ensures
            meets_symlink(probes@) ==> (r matches Err(e) && e.kind == ErrorKind::PermissionDenied
                && e.message@ == "Symlinks are disabled"@),
            !meets_symlink(probes@) ==> r is Ok,
    {
        let mut i: usize = 0;
        while i < probes.len()
            invariant
                i <= probes.len(),
                forall|j: int| 0 <= j < i ==> #[trigger] probes@[j] == SegmentProbe::Present,
            decreases probes.len() - i,
        {
            let probe = probes[i];
            match self.symlink_check_step(probe) {
                Some(verdict) => {
                    proof {
                        if probe == SegmentProbe::Missing {
                            assert(!meets_symlink(probes@)) by {
                                if meets_symlink(probes@) {
                                    let k = choose|k: int|
                                        0 <= k < probes@.len() && probes@[k]
                                            == SegmentProbe::Symlink && forall|j: int|
                                            0 <= j < k ==> #[trigger] probes@[j]
                                                == SegmentProbe::Present;
                                    if k > i {
                                        assert(probes@[i as int] == SegmentProbe::Present);
                                    } else if k < i {
                                        assert(probes@[k] == SegmentProbe::Present);
                                    }
                                }
                            }
                        }
                    }
                    return verdict;
                },
                None => {},
            }
            i += 1;
        }
        proof {
            if meets_symlink(probes@) {
                let k = choose|k: int|
                    0 <= k < probes@.len() && probes@[k] == SegmentProbe::Symlink && forall|j: int|
                        0 <= j < k ==> #[trigger] probes@[j] == SegmentProbe::Present;
                assert(probes@[k] == SegmentProbe::Present);
            }
        }
        Ok(())
    }
}

// ---------------------------------------------------------------------------
// Containment
// ---------------------------------------------------------------------------

/// The components of a path, as `Path::components` yields them on Unix: a root
/// marker `/` for an absolute path, a `.` marker for a leading `.`, then every
/// segment that is neither empty nor `.`.
pub open spec fn components(p: Seq<char>) -> Seq<Seq<char>> {
    components_head(p) + named_segments(p)
}

/// The root or current-folder marker that starts a path's components, if any.
pub open spec fn components_head(p: Seq<char>) -> Seq<Seq<char>> {
    if p.len() > 0 && p[0] == '/' {
        seq!["/"@]
    } else if segments(p)[0] == "."@ {
        seq!["."@]
    } else {
        Seq::empty()
    }
}

/// `parent` lies at or below `root`, compared component by component as
/// `Path::starts_with` does.
pub open spec fn within_root_spec(parent: Seq<char>, root: Seq<char>) -> bool {
    components(root).is_prefix_of(components(parent))
}


/// The views of a list of strings.
pub open spec fn string_views(v: Seq<String>) -> Seq<Seq<char>> {
    v.map_values(|s: String| s@)
}

proof fn lemma_segments_nonempty(s: Seq<char>)
    ensures
        segments(s).len() >= 1,
{
    reveal(segments);
}

fn head_markers(pc: &Vec<char>, bounds: &Vec<(usize, usize)>) -> (out: Vec<String>)
    requires
        bounds@.len() == segments(pc@).len(),
        forall|m: int|
            0 <= m < bounds@.len() ==> {
                &&& (#[trigger] bounds@[m]).0 <= bounds@[m].1 <= pc@.len()
                &&& segments(pc@)[m] == pc@.subrange(bounds@[m].0 as int, bounds@[m].1 as int)
            },
    ensures
        string_views(out@) == components_head(pc@),
{
    let mut out: Vec<String> = Vec::new();
    proof {
        reveal_strlit(".");
        reveal_strlit("/");
        lemma_segments_nonempty(pc@);
    }
    if pc.len() > 0 && pc[0] == '/' {
        out.push(owned("/"));
    } else {
        let (a, b) = bounds[0];
        if b - a == 1 && pc[a] == '.' {
            assert(segments(pc@)[0] =~= "."@);
            out.push(owned("."));
        } else {
            proof {
                let s0 = segments(pc@)[0];
                if s0.len() == 1 {
                    assert(s0[0] != "."@[0]);
                }
            }
        }
    }
    assert(string_views(out@) =~= components_head(pc@));
    out
}

/// The components of a path (see `components`).
pub fn path_components(p: &str) -> (out: Vec<String>)
    ensures
        string_views(out@) == components(p@),
{
    let pc = chars_of(p);
    let bounds = segment_bounds(&pc);
    let named = named_segment_bounds(&pc, &bounds);
    let ghost head = components_head(p@);
    let mut out = head_markers(&pc, &bounds);
    assert(string_views(out@) =~= head);
    let mut m: usize = 0;
    while m < named.len()
        invariant
            named@.len() == named_segments(pc@).len(),
            forall|x: int|
                0 <= x < named@.len() ==> {
                    &&& (#[trigger] named@[x]).0 < named@[x].1 <= pc@.len()
                    &&& named_segments(pc@)[x] == pc@.subrange(
                        named@[x].0 as int,
                        named@[x].1 as int,
                    )
                },
            0 <= m <= named.len(),
            string_views(out@) == head + named_segments(pc@).subrange(0, m as int),
        decreases named.len() - m,
    {
        let (a, b) = named[m];
        let seg = crate::text::string_of_range(&pc, a, b);
        let ghost before = out@;
        out.push(seg);
        proof {
            let ns = named_segments(pc@);
            assert(ns.subrange(0, m + 1) =~= ns.subrange(0, m as int).push(ns[m as int]));
            assert(string_views(out@) =~= string_views(before).push(seg@));
            assert(string_views(out@) =~= head + ns.subrange(0, m + 1));
        }
        m += 1;
    }
    assert(named_segments(pc@).subrange(0, named@.len() as int) =~= named_segments(pc@));
    out
}

/// Whether `parent` lies at or below `root`, component by component.
pub fn within_root(parent: &str, root: &str) -> (res: bool)
    ensures
        res == within_root_spec(parent@, root@),
{
    let pcs = path_components(parent);
    let rcs = path_components(root);
    if rcs.len() > pcs.len() {
        assert(string_views(rcs@).len() > string_views(pcs@).len());
        return false;
    }
    let mut i: usize = 0;
    while i < rcs.len()
        invariant
            rcs.len() <= pcs.len(),
            string_views(pcs@) == components(parent@),
            string_views(rcs@) == components(root@),
            0 <= i <= rcs.len(),
            forall|j: int| 0 <= j < i ==> #[trigger] rcs@[j]@ == pcs@[j]@,
        decreases rcs.len() - i,
    {
        if rcs[i] != pcs[i] {
            assert(string_views(rcs@)[i as int] != string_views(pcs@)[i as int]);
            return false;
        }
        i += 1;
    }
    assert(components(root@).is_prefix_of(components(parent@))) by {
        assert forall|j: int| 0 <= j < components(root@).len() implies components(root@)[j]
            == components(parent@)[j] by {
            assert(string_views(rcs@)[j] == rcs@[j]@);
            assert(string_views(pcs@)[j] == pcs@[j]@);
        }
    }
    true
}

/// What the disk checks make of a resolved path: refused when its canonical
/// parent lies outside the canonical root, or, unless symlinks are followed,
/// when the walk from the root meets a link.
pub open spec fn confined_spec(
    backend: FileSystemBackend,
    canonical_parent: Seq<char>,
    canonical_root: Seq<char>,
    probes: Seq<SegmentProbe>,
) -> Result<(), (ErrorKind, Seq<char>)> {
    if !within_root_spec(canonical_parent, canonical_root) {
        Err((ErrorKind::PermissionDenied, "Path escapes shared root"@))
    } else if !backend.follow_symlinks && meets_symlink(probes) {
        Err((ErrorKind::PermissionDenied, "Symlinks are disabled"@))
    } else {
        Ok(())
    }
}

impl FileSystemBackend {
    /// The disk checks on a resolved path, from the canonical form of its
    /// parent (or of the root where it has none), the canonical root, and what
    /// the walk from the root found at each segment.
    pub fn check_confined(
        &self,
        canonical_parent: &str,
        canonical_root: &str,
        probes: &Vec<SegmentProbe>,
    ) -> (r: Result<(), FsError>)
        ensures
            match (r, confined_spec(*self, canonical_parent@, canonical_root@, probes@)) {
                (Ok(()), Ok(())) => true,
                (Err(e), Err((kind, msg))) => e.kind == kind && e.message@ == msg,
                _ => false,
            },
    {
        if !within_root(canonical_parent, canonical_root) {
            return Err(
                FsError {
                    kind: ErrorKind::PermissionDenied,
                    message: owned("Path escapes shared root"),
                },
            );
        }
        if !self.follow_symlinks {
            return self.check_symlink_probes(probes);
        }
        Ok(())
    }
}

/// A path that the share serves stays inside it: it is the root joined with
/// a relative path whose segments all name something and none is `..` (nor,
/// when dotfiles are hidden, starts with `.`); its canonical parent lies at or
/// below the canonical root; and, unless symlinks are followed, no existing
/// prefix of it below the root is a link.
pub proof fn lemma_served_path_is_confined(
    backend: FileSystemBackend,
    request_path: Seq<char>,
    canonical_parent: Seq<char>,
    canonical_root: Seq<char>,
    probes: Seq<SegmentProbe>,
)
    requires
        resolve_spec(backend, request_path) is Ok,
        confined_spec(backend, canonical_parent, canonical_root, probes) is Ok,
    ensures
        exists|rel: Seq<char>|
            {
                &&& resolve_spec(backend, request_path) == Ok::<Seq<char>, (ErrorKind, Seq<char>)>(
                    join_relative(backend.root@, rel),
                )
                &&& rel.len() == 0 || forall|i: int|
                    0 <= i < segments(rel).len() ==> {
                        &&& is_named(#[trigger] segments(rel)[i])
                        &&& segments(rel)[i] != ".."@
                        &&& backend.hide_dotfiles ==> segments(rel)[i][0] != '.'
                    }
            },
        within_root_spec(canonical_parent, canonical_root),
        !backend.follow_symlinks ==> !meets_symlink(probes),
{
    lemma_resolve_stays_under_root(backend, request_path);
}

} // verus!
