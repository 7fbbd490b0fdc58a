//! File-system paths as text, the way `std::path` treats them on Unix.

use vstd::prelude::*;

verus! {

/// The text of an optional string.
pub open spec fn opt_view(o: Option<String>) -> Option<Seq<char>> {
    match o {
        Some(s) => Some(s@),
        None => None,
    }
}

/// `Path::join` on Unix: an absolute `rel` replaces `base`; otherwise `rel`
/// follows `base`, with a `/` between them unless `base` is empty or already
/// ends in one.
pub open spec fn path_join(base: Seq<char>, rel: Seq<char>) -> Seq<char> {
    if rel.len() > 0 && rel[0] == '/' {
        rel
    } else if base.len() == 0 || base.last() == '/' {
        base + rel
    } else {
        base + seq!['/'] + rel
    }
}

/// `Path::new(base).join(rel)` as text.
pub fn join_path(base: &str, rel: &str) -> (r: String)
    ensures
        r@ == path_join(base@, rel@),
{
    let n = base.unicode_len();
    let m = rel.unicode_len();
    if m > 0 && rel.get_char(0) == '/' {
        return String::from_str(rel);
    }
    let mut out = String::from_str(base);
    if n > 0 && base.get_char(n - 1) != '/' {
        let sep = "/";
        proof {
            reveal_strlit("/");
        }
        out.append(sep);
    }
    out.append(rel);
    out
}

/// A path component that names a file or directory: not empty, without
/// `/`, and neither `.` nor `..`.
pub open spec fn is_normal_name(n: Seq<char>) -> bool {
    &&& n.len() > 0
    &&& forall|i: int| 0 <= i < n.len() ==> #[trigger] n[i] != '/'
    &&& n != seq!['.']
    &&& n != seq!['.', '.']
}

/// The text of `p` after its last `/`; all of `p` where it has none.
pub open spec fn last_segment(p: Seq<char>) -> Seq<char>
    decreases p.len(),
{
    if p.len() == 0 {
        p
    } else if p.last() == '/' {
        Seq::<char>::empty()
    } else {
        last_segment(p.drop_last()).push(p.last())
    }
}

/// The text of `p` before the `/` that precedes its last segment.
pub open spec fn parent_text(p: Seq<char>) -> Seq<char> {
    p.take(p.len() - last_segment(p).len() - 1)
}

/// `p` is a directory path, a `/`, and a name: the segment after the last
/// `/` is a name, there is a `/` before it, and the segment before that `/`
/// is a name too.
pub open spec fn is_simple_child(p: Seq<char>) -> bool {
    &&& is_normal_name(last_segment(p))
    &&& last_segment(p).len() < p.len()
    &&& is_normal_name(last_segment(parent_text(p)))
}

/// The last segment of a text, a `/` and a segment without `/` is that
/// segment; what stands before it is the text.
pub proof fn lemma_last_segment_after_slash(q: Seq<char>, n: Seq<char>)
    requires
        forall|i: int| 0 <= i < n.len() ==> #[trigger] n[i] != '/',
    ensures
        last_segment(q + seq!['/'] + n) == n,
        parent_text(q + seq!['/'] + n) == q,
    decreases n.len(),
{
    let p = q + seq!['/'] + n;
    if n.len() == 0 {
        assert(p =~= q.push('/'));
        assert(n =~= Seq::<char>::empty());
        assert(p.take(p.len() - 1) =~= q);
    } else {
        let m = n.drop_last();
        assert forall|i: int| 0 <= i < m.len() implies #[trigger] m[i] != '/' by {
            assert(m[i] == n[i]);
        }
        lemma_last_segment_after_slash(q, m);
        assert(p.drop_last() =~= q + seq!['/'] + m);
        assert(p.last() == n[n.len() - 1]);
        assert(m.push(n.last()) =~= n);
        assert(p.take(p.len() - n.len() - 1) =~= q);
    }
}

/// What `Path::parent` gives for the path `p`, as text.
pub uninterp spec fn std_path_parent(p: Seq<char>) -> Option<Seq<char>>;

/// What `Path::file_name` gives for the path `p`, as text.
pub uninterp spec fn std_path_file_name(p: Seq<char>) -> Option<Seq<char>>;

/// Calls `std::path::Path::parent` on `p`. Trusted: the result is the one
/// std gives (named by `std_path_parent`); for a path made of a directory
/// path, a `/` and a name, where the directory path ends in a name, it is
/// that directory path ("the Path without its final component", as std
/// documents it). How std treats other paths is not stated.
#[verifier::external_body]
pub fn path_parent(p: &str) -> (r: Option<String>)
    ensures
        opt_view(r) == std_path_parent(p@),
        is_simple_child(p@) ==> opt_view(r) == Some(parent_text(p@)),
{
    std::path::Path::new(p).parent().and_then(std::path::Path::to_str).map(String::from)
}

/// Calls `std::path::Path::file_name` on `p`. Trusted: the result is the one
/// std gives (named by `std_path_file_name`); where the text after the last
/// `/` is a name, it is that name ("the final component of the Path", as
/// std documents it). How std treats other paths is not stated.
#[verifier::external_body]
pub fn path_file_name(p: &str) -> (r: Option<String>)
    ensures
        opt_view(r) == std_path_file_name(p@),
        is_normal_name(last_segment(p@)) ==> opt_view(r) == Some(last_segment(p@)),
{
    match std::path::Path::new(p).file_name() {
        Some(name) => name.to_str().map(String::from),
        None => None,
    }
}

} // verus!
