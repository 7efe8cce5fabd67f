//! Filesystem-path logic on plain strings: the sandboxing URL resolver,
//! component helpers, and the extension test that turns transclusion on.

use vstd::prelude::*;

verus! {

use vstd::string::StrSliceExecFns;
use vstd::string::StringExecFns;
use crate::strutil::split_spec;
use crate::strutil::split_on_char;
use crate::strutil::str_eq;

/// Whether a URL path segment survives sandboxing: empty segments and
/// parent-directory segments are dropped.
pub open spec fn keep_segment(s: Seq<char>) -> bool {
    s.len() > 0 && s != seq!['.', '.']
}

/// The sandboxed segments of a URL path: the slash-separated pieces with
/// empty and parent-directory pieces removed.
pub open spec fn sandbox_segments(p: Seq<char>) -> Seq<Seq<char>> {
    split_spec(p, '/').filter(|s: Seq<char>| keep_segment(s))
}

/// The concatenation of `/`-prefixed segments from index `i` on.
pub open spec fn tail_concat(segs: Seq<Seq<char>>, i: int) -> Seq<char>
    decreases segs.len() - i,
{
    if i < 0 || i >= segs.len() {
        Seq::<char>::empty()
    } else {
        seq!['/'] + segs[i] + tail_concat(segs, i + 1)
    }
}

/// The filesystem path a URL path resolves to: `/home` when no segment is
/// left after sandboxing, else `/home/<user>/www/<tail...>` where `<user>`
/// is the first surviving segment.
pub open spec fn resolved_path_spec(p: Seq<char>) -> Seq<char> {
    let segs = sandbox_segments(p);
    if segs.len() == 0 {
        "/home"@
    } else {
        "/home/"@ + segs[0] + "/www"@ + tail_concat(segs, 1)
    }
}

/// Splits a path into its surviving segments.
pub fn sandbox_split(p: &str) -> (r: Vec<String>)
    ensures
        r.deep_view() == sandbox_segments(p@),
{
    let pieces = split_on_char(p, '/');
    let ghost dv = pieces.deep_view();
    let mut kept: Vec<String> = Vec::new();
    let mut i: usize = 0;
    proof {
        reveal(Seq::filter);
        assert(dv.subrange(0, 0) =~= Seq::<Seq<char>>::empty());
        assert(dv.subrange(0, 0).filter(|s: Seq<char>| keep_segment(s)) =~= kept.deep_view());
    }
    while i < pieces.len()
        invariant
            0 <= i <= pieces@.len(),
            dv == pieces.deep_view(),
            dv.len() == pieces@.len(),
            forall|j: int| 0 <= j < dv.len() ==> dv[j] == (#[trigger] pieces@[j])@,
            kept.deep_view() == dv.subrange(0, i as int).filter(|s: Seq<char>| keep_segment(s)),
        decreases pieces@.len() - i,
    {
        let ghost pre = kept.deep_view();
        let piece = &pieces[i];
        if piece.as_str().unicode_len() > 0 && !str_eq(piece.as_str(), "..") {
            proof {
                reveal_strlit("..");
            }
            kept.push(piece.clone());
            proof {
                assert(kept.deep_view() =~= pre.push(dv[i as int]));
            }
        } else {
            proof {
                reveal_strlit("..");
            }
        }
        i = i + 1;
        proof {
            reveal(Seq::filter);
            reveal_strlit("..");
            assert(".."@ =~= seq!['.', '.']);
            let cur = dv.subrange(0, i as int);
            assert(cur.drop_last() =~= dv.subrange(0, i - 1));
            assert(cur.last() == dv[i - 1]);
        }
    }
    proof {
        assert(dv.subrange(0, dv.len() as int) =~= dv);
    }
    kept
}

/// Resolves a decoded URL path to a filesystem path under `/home`.
pub fn resolve_path(p: &str) -> (r: String)
    ensures
        r@ == resolved_path_spec(p@),
{
    let segs = sandbox_split(p);
    let ghost dv = segs.deep_view();
    if segs.len() == 0 {
        return "/home".to_owned();
    }
    let mut out: String = "/home/".to_owned();
    out.append(segs[0].as_str());
    out.append("/www");
    let mut i: usize = 1;
    while i < segs.len()
        invariant
            1 <= i <= segs@.len(),
            dv == segs.deep_view(),
            dv.len() == segs@.len(),
            dv.len() > 0,
            forall|j: int| 0 <= j < dv.len() ==> dv[j] == (#[trigger] segs@[j])@,
            out@ + tail_concat(dv, i as int) == resolved_path_spec(p@),
        decreases segs@.len() - i,
    {
        let ghost pre = out@;
        out.append("/");
        out.append(segs[i].as_str());
        i = i + 1;
        proof {
            reveal_strlit("/");
            assert(out@ =~= pre + seq!['/'] + dv[i - 1]);
            assert(pre + (seq!['/'] + dv[i - 1] + tail_concat(dv, i as int)) =~= (pre + seq!['/']
                + dv[i - 1]) + tail_concat(dv, i as int));
        }
    }
    out
}

/// Sandbox safety: every URL path resolves to `/home` itself or to a path
/// strictly below `/home`; no URL shape can escape it.
pub proof fn lemma_resolve_sandboxed(p: Seq<char>)
    ensures
        resolved_path_spec(p) == "/home"@ || resolved_path_spec(p).subrange(0, 6) == "/home/"@,
{
    reveal_strlit("/home");
    reveal_strlit("/home/");
    let segs = sandbox_segments(p);
    if segs.len() != 0 {
        let r = resolved_path_spec(p);
        assert(r.subrange(0, 6) =~= "/home/"@);
    }
}

/// The segments of a path (non-empty pieces between slashes).
pub open spec fn path_components(p: Seq<char>) -> Seq<Seq<char>> {
    split_spec(p, '/').filter(|s: Seq<char>| s.len() > 0)
}

/// Splits a path into its non-empty components.
pub fn components_of(p: &str) -> (r: Vec<String>)
    ensures
        r.deep_view() == path_components(p@),
{
    let pieces = split_on_char(p, '/');
    let ghost dv = pieces.deep_view();
    let mut kept: Vec<String> = Vec::new();
    let mut i: usize = 0;
    proof {
        reveal(Seq::filter);
        assert(dv.subrange(0, 0) =~= Seq::<Seq<char>>::empty());
        assert(dv.subrange(0, 0).filter(|s: Seq<char>| s.len() > 0) =~= kept.deep_view());
    }
    while i < pieces.len()
        invariant
            0 <= i <= pieces@.len(),
            dv == pieces.deep_view(),
            dv.len() == pieces@.len(),
            forall|j: int| 0 <= j < dv.len() ==> dv[j] == (#[trigger] pieces@[j])@,
            kept.deep_view() == dv.subrange(0, i as int).filter(|s: Seq<char>| s.len() > 0),
        decreases pieces@.len() - i,
    {
        let ghost pre = kept.deep_view();
        let piece = &pieces[i];
        if piece.as_str().unicode_len() > 0 {
            kept.push(piece.clone());
            proof {
                assert(kept.deep_view() =~= pre.push(dv[i as int]));
            }
        }
        i = i + 1;
        proof {
            reveal(Seq::filter);
            let cur = dv.subrange(0, i as int);
            assert(cur.drop_last() =~= dv.subrange(0, i - 1));
            assert(cur.last() == dv[i - 1]);
        }
    }
    proof {
        assert(dv.subrange(0, dv.len() as int) =~= dv);
    }
    kept
}

/// The final component of a path, or the empty sequence when it has none.
pub open spec fn last_component(p: Seq<char>) -> Seq<char> {
    let cs = path_components(p);
    if cs.len() == 0 {
        Seq::<char>::empty()
    } else {
        cs.last()
    }
}

/// Whether the path's final component is exactly `name`.
pub fn path_ends_with_component(p: &str, name: &str) -> (r: bool)
    ensures
        r == (last_component(p@) == name@ && name@.len() > 0),
{
    let cs = components_of(p);
    if cs.len() == 0 {
        proof {
            if name@.len() == 0 {
            }
        }
        return false;
    }
    let lastc = &cs[cs.len() - 1];
    if name.unicode_len() == 0 {
        return false;
    }
    str_eq(lastc.as_str(), name)
}

/// Appends one component to a directory path.
pub fn join_component(dir: &str, name: &str) -> (r: String)
    ensures
        r@ == dir@ + seq!['/'] + name@,
{
    let mut out = dir.to_owned();
    out.append("/");
    out.append(name);
    proof {
        reveal_strlit("/");
        assert(out@ =~= dir@ + seq!['/'] + name@);
    }
    out
}

/// The index just past the last `/` in `p`, or 0 when `p` has none.
pub open spec fn after_last_slash(p: Seq<char>) -> int
    decreases p.len(),
{
    if p.len() == 0 {
        0
    } else if p[p.len() - 1] == '/' {
        p.len() as int
    } else {
        after_last_slash(p.subrange(0, p.len() - 1))
    }
}

/// The file-name part of a path: everything after the last slash.
pub open spec fn file_name_spec(p: Seq<char>) -> Seq<char> {
    p.subrange(after_last_slash(p), p.len() as int)
}

/// The directory part of a path: everything before the last slash, the
/// root `/` for a top-level entry, and empty for a bare file name.
pub open spec fn parent_dir_spec(p: Seq<char>) -> Seq<char> {
    let k = after_last_slash(p);
    if k == 0 {
        Seq::<char>::empty()
    } else if k == 1 {
        seq!['/']
    } else {
        p.subrange(0, k - 1)
    }
}

proof fn lemma_after_last_slash_sub_inner(t: Seq<char>, i: int)
    requires
        0 <= i <= t.len(),
        forall|j: int| i <= j < t.len() ==> t[j] != '/',
        i > 0 ==> t[i - 1] == '/',
    ensures
        after_last_slash(t) == i,
    decreases t.len() - i,
{
    if i == t.len() {
    } else {
        lemma_after_last_slash_sub_inner(t.subrange(0, t.len() - 1), i);
    }
}

/// Finds the index just past the last `/`.
pub fn after_last_slash_exec(p: &str) -> (r: usize)
    ensures
        r as int == after_last_slash(p@),
        r <= p@.len(),
{
    let len: usize = p.unicode_len();
    let mut j: usize = len;
    while j > 0
        invariant
            len == p@.len(),
            0 <= j <= len,
            forall|k: int| j <= k < len ==> p@[k] != '/',
        decreases j,
    {
        if p.get_char(j - 1) == '/' {
            proof {
                lemma_after_last_slash_any(p@, j as int);
            }
            return j;
        }
        j = j - 1;
    }
    proof {
        lemma_after_last_slash_any(p@, 0);
    }
    0
}

proof fn lemma_after_last_slash_any(p: Seq<char>, i: int)
    requires
        0 <= i <= p.len(),
        forall|j: int| i <= j < p.len() ==> p[j] != '/',
        i > 0 ==> p[i - 1] == '/',
    ensures
        after_last_slash(p) == i,
    decreases p.len() - i,
{
    if i == p.len() {
        if i == 0 {
        }
    } else {
        lemma_after_last_slash_sub_inner(p.subrange(0, p.len() - 1), i);
    }
}

/// The directory part of a path, as `parent_dir_spec` describes.
pub fn parent_dir(p: &str) -> (r: String)
    ensures
        r@ == parent_dir_spec(p@),
{
    let k = after_last_slash_exec(p);
    if k == 0 {
        String::new()
    } else if k == 1 {
        let r = "/".to_owned();
        proof {
            reveal_strlit("/");
        }
        r
    } else {
        p.substring_char(0, k - 1).to_owned()
    }
}

/// Resolves an include directive's path against the frame it appears in:
/// an absolute path stands as written; a relative one is joined to the
/// directory of the frame's source path.
pub open spec fn resolve_include_spec(rel: Seq<char>, frame_path: Seq<char>) -> Seq<char> {
    if rel.len() > 0 && rel[0] == '/' {
        rel
    } else {
        let k = after_last_slash(frame_path);
        if k == 0 {
            rel
        } else if k == 1 {
            seq!['/'] + rel
        } else {
            frame_path.subrange(0, k - 1) + seq!['/'] + rel
        }
    }
}

/// Executable form of [`resolve_include_spec`].
pub fn resolve_include(rel: &str, frame_path: &str) -> (r: String)
    ensures
        r@ == resolve_include_spec(rel@, frame_path@),
{
    if rel.unicode_len() > 0 && rel.get_char(0) == '/' {
        return rel.to_owned();
    }
    let k = after_last_slash_exec(frame_path);
    if k == 0 {
        rel.to_owned()
    } else if k == 1 {
        // the parent is the root, which already ends in a slash
        let mut out = "/".to_owned();
        out.append(rel);
        proof {
            reveal_strlit("/");
            assert(out@ =~= seq!['/'] + rel@);
        }
        out
    } else {
        let mut out = frame_path.substring_char(0, k - 1).to_owned();
        out.append("/");
        out.append(rel);
        proof {
            reveal_strlit("/");
            assert(out@ =~= frame_path@.subrange(0, k - 1) + seq!['/'] + rel@);
        }
        out
    }
}

/// Whether four characters spell `html`, case-insensitively.
pub open spec fn is_html_ext(e: Seq<char>) -> bool {
    e.len() == 4 && (e[0] == 'h' || e[0] == 'H') && (e[1] == 't' || e[1] == 'T') && (e[2] == 'm'
        || e[2] == 'M') && (e[3] == 'l' || e[3] == 'L')
}

/// The extension of the path's file name: the part after the last dot,
/// provided the dot is not the file name's first character.
pub open spec fn extension_spec(p: Seq<char>) -> Option<Seq<char>> {
    let f = file_name_spec(p);
    let k = after_last_dot(f);
    if k >= 2 {
        Some(f.subrange(k, f.len() as int))
    } else {
        None
    }
}

/// The index just past the last `.`, or 0 when there is none.
pub open spec fn after_last_dot(p: Seq<char>) -> int
    decreases p.len(),
{
    if p.len() == 0 {
        0
    } else if p[p.len() - 1] == '.' {
        p.len() as int
    } else {
        after_last_dot(p.subrange(0, p.len() - 1))
    }
}

proof fn lemma_after_last_dot_any(p: Seq<char>, i: int)
    requires
        0 <= i <= p.len(),
        forall|j: int| i <= j < p.len() ==> p[j] != '.',
        i > 0 ==> p[i - 1] == '.',
    ensures
        after_last_dot(p) == i,
    decreases p.len() - i,
{
    if i < p.len() {
        lemma_after_last_dot_inner(p.subrange(0, p.len() - 1), i);
    }
}

proof fn lemma_after_last_dot_inner(t: Seq<char>, i: int)
    requires
        0 <= i <= t.len(),
        forall|j: int| i <= j < t.len() ==> t[j] != '.',
        i > 0 ==> t[i - 1] == '.',
    ensures
        after_last_dot(t) == i,
    decreases t.len() - i,
{
    if i < t.len() {
        lemma_after_last_dot_inner(t.subrange(0, t.len() - 1), i);
    }
}

/// Whether the path enables transclusion: its extension is `html`, in any
/// letter case.
pub open spec fn transclude_enabled_spec(p: Seq<char>) -> bool {
    match extension_spec(p) {
        Some(e) => is_html_ext(e),
        None => false,
    }
}

/// Executable form of [`transclude_enabled_spec`].
pub fn is_transclude_enabled(p: &str) -> (r: bool)
    ensures
        r == transclude_enabled_spec(p@),
{
    let len: usize = p.unicode_len();
    let start = after_last_slash_exec(p);
    let fname = p.substring_char(start, len);
    proof {
        assert(fname@ == file_name_spec(p@));
    }
    let flen: usize = fname.unicode_len();
    let mut j: usize = flen;
    while j > 0
        invariant
            fname@ == file_name_spec(p@),
            flen == fname@.len(),
            0 <= j <= flen,
            forall|k: int| j <= k < flen ==> fname@[k] != '.',
        decreases j,
    {
        if fname.get_char(j - 1) == '.' {
            proof {
                lemma_after_last_dot_any(fname@, j as int);
            }
            if j < 2 {
                return false;
            }
            if flen - j != 4 {
                return false;
            }
            let c0 = fname.get_char(j);
            let c1 = fname.get_char(j + 1);
            let c2 = fname.get_char(j + 2);
            let c3 = fname.get_char(j + 3);
            let r = (c0 == 'h' || c0 == 'H') && (c1 == 't' || c1 == 'T') && (c2 == 'm' || c2
                == 'M') && (c3 == 'l' || c3 == 'L');
            proof {
                let e = extension_spec(p@).unwrap();
                assert(e =~= fname@.subrange(j as int, flen as int));
                assert(e.len() == 4);
                assert(e[0] == fname@[j as int] && e[1] == fname@[j + 1] && e[2] == fname@[j + 2]
                    && e[3] == fname@[j + 3]);
            }
            return r;
        }
        j = j - 1;
    }
    proof {
        lemma_after_last_dot_any(fname@, 0);
    }
    false
}

/// The path with its first three components dropped and the rest joined by
/// slashes: `/home/alice/www/blog` displays as `blog`.
pub open spec fn display_path_spec(p: Seq<char>) -> Seq<char> {
    let cs = path_components(p);
    if cs.len() <= 3 {
        Seq::<char>::empty()
    } else {
        cs[3] + tail_concat(cs, 4)
    }
}

/// Executable form of [`display_path_spec`].
pub fn display_path(p: &str) -> (r: String)
    ensures
        r@ == display_path_spec(p@),
{
    let cs = components_of(p);
    let ghost dv = cs.deep_view();
    if cs.len() <= 3 {
        return String::new();
    }
    let mut out: String = cs[3].clone();
    let mut i: usize = 4;
    while i < cs.len()
        invariant
            4 <= i <= cs@.len(),
            dv == cs.deep_view(),
            dv.len() == cs@.len(),
            dv.len() > 3,
            forall|j: int| 0 <= j < dv.len() ==> dv[j] == (#[trigger] cs@[j])@,
            out@ + tail_concat(dv, i as int) == display_path_spec(p@),
        decreases cs@.len() - i,
    {
        let ghost pre = out@;
        out.append("/");
        out.append(cs[i].as_str());
        i = i + 1;
        proof {
            reveal_strlit("/");
            assert(out@ =~= pre + seq!['/'] + dv[i - 1]);
            assert(pre + (seq!['/'] + dv[i - 1] + tail_concat(dv, i as int)) =~= (pre + seq!['/']
                + dv[i - 1]) + tail_concat(dv, i as int));
        }
    }
    out
}

} // verus!
