//! The connection codec's logic: parsing the request line, target, query
//! string, headers and body kind, and composing one HTTP/1.0 response head.
//! The caller reads lines off the socket and writes bytes back; everything
//! between is specified here.

use vstd::prelude::*;

verus! {

use vstd::string::StrSliceExecFns;
use vstd::string::StringExecFns;
use crate::strutil::split_spec;
use crate::strutil::split_on_char;
use crate::strutil::trim_spec;
use crate::strutil::trim;
use crate::strutil::dec_str;
use crate::strutil::u64_to_dec_string;
use crate::strutil::str_eq;
use crate::strutil::find_char;
use crate::percent::percent_decode_spec;
use crate::kvmap::KvMap;
use crate::outside::lower_of;
use crate::outside::to_lower;
use crate::outside::utf8_to_string;

/// The request methods the server accepts.
#[derive(Clone, Copy, Debug, PartialEq, Eq, Structural)]
pub enum Method {
    Get,
    Post,
}

/// Parses the request line into a method and a target; any other method,
/// or a line with fewer than two space-separated tokens, yields `None` and
/// the connection is closed without a response.
pub fn parse_request_line(line: &str) -> (r: Option<(Method, String)>)
    ensures
        ({
            let toks = split_spec(line@, ' ');
            match r {
                Some(mt) => toks.len() >= 2 && mt.1@ == toks[1] && ((toks[0] == "GET"@ && mt.0
                    == Method::Get) || (toks[0] == "POST"@ && mt.0 == Method::Post)),
                None => toks.len() < 2 || (toks[0] != "GET"@ && toks[0] != "POST"@),
            }
        }),
{
    let toks = split_on_char(line, ' ');
    if toks.len() < 2 {
        return None;
    }
    let method = if str_eq(toks[0].as_str(), "GET") {
        Method::Get
    } else if str_eq(toks[0].as_str(), "POST") {
        Method::Post
    } else {
        return None;
    };
    proof {
        assert(toks.deep_view()[0] == toks@[0]@);
        assert(toks.deep_view()[1] == toks@[1]@);
    }
    Some((method, toks[1].clone()))
}

/// The index of the first occurrence of `c`, or -1 when there is none.
pub open spec fn find_idx(s: Seq<char>, c: char) -> int
    decreases s.len(),
{
    if s.len() == 0 {
        -1
    } else if s[0] == c {
        0
    } else {
        let r = find_idx(s.subrange(1, s.len() as int), c);
        if r < 0 {
            -1
        } else {
            r + 1
        }
    }
}

proof fn lemma_find_idx_none(s: Seq<char>, c: char)
    requires
        forall|j: int| 0 <= j < s.len() ==> s[j] != c,
    ensures
        find_idx(s, c) == -1,
    decreases s.len(),
{
    if s.len() > 0 {
        lemma_find_idx_none(s.subrange(1, s.len() as int), c);
    }
}

proof fn lemma_find_idx_at(s: Seq<char>, c: char, i: int)
    requires
        0 <= i < s.len(),
        s[i] == c,
        forall|j: int| 0 <= j < i ==> s[j] != c,
    ensures
        find_idx(s, c) == i,
    decreases i,
{
    if i > 0 {
        lemma_find_idx_at(s.subrange(1, s.len() as int), c, i - 1);
    }
}

/// The path part of a request target: everything before the first `?`.
pub open spec fn target_path(t: Seq<char>) -> Seq<char> {
    let i = find_idx(t, '?');
    if i < 0 {
        t
    } else {
        t.subrange(0, i)
    }
}

/// The query part of a request target: everything after the first `?`.
pub open spec fn target_query(t: Seq<char>) -> Option<Seq<char>> {
    let i = find_idx(t, '?');
    if i < 0 {
        None
    } else {
        Some(t.subrange(i + 1, t.len() as int))
    }
}

/// Splits a request target at its first `?`.
pub fn split_target(t: &str) -> (r: (String, Option<String>))
    ensures
        r.0@ == target_path(t@),
        match r.1 {
            Some(q) => target_query(t@) == Some(q@),
            None => target_query(t@) is None,
        },
{
    let len: usize = t.unicode_len();
    match find_char(t, '?', 0) {
        Some(i) => {
            proof {
                lemma_find_idx_at(t@, '?', i as int);
            }
            (t.substring_char(0, i).to_owned(), Some(t.substring_char(i + 1, len).to_owned()))
        },
        None => {
            proof {
                lemma_find_idx_none(t@, '?');
            }
            (t.to_owned(), None)
        },
    }
}

/// The percent-decoding of a string: its UTF-8 bytes are decoded and must
/// form UTF-8 again.
pub open spec fn decode_str_spec(s: Seq<char>) -> Option<Seq<char>> {
    let bytes = percent_decode_spec(vstd::utf8::encode_utf8(s));
    if vstd::utf8::valid_utf8(bytes) {
        Some(vstd::utf8::decode_utf8(bytes))
    } else {
        None
    }
}

/// Percent-decodes a string component; `None` when the decoded bytes are
/// not UTF-8.
pub fn decode_component(s: &str) -> (r: Option<String>)
    ensures
        match r {
            Some(t) => decode_str_spec(s@) == Some(t@),
            None => decode_str_spec(s@) is None,
        },
{
    let bytes = s.as_bytes_vec();
    let decoded = crate::percent::percent_decode(&bytes);
    utf8_to_string(decoded)
}

/// The key-value pair a query piece stands for: a piece without `=` is a
/// bare key with an empty value, taken as written; a piece with `=` has
/// both sides percent-decoded, and is dropped when either side fails.
pub open spec fn pair_kv(p: Seq<char>) -> Option<(Seq<char>, Seq<char>)> {
    let i = find_idx(p, '=');
    if i < 0 {
        Some((p, Seq::<char>::empty()))
    } else {
        let k = decode_str_spec(p.subrange(0, i));
        let v = decode_str_spec(p.subrange(i + 1, p.len() as int));
        if k is Some && v is Some {
            Some((k.unwrap(), v.unwrap()))
        } else {
            None
        }
    }
}

/// The map built from a sequence of query pieces, later pairs winning.
pub open spec fn kv_map_of(pieces: Seq<Seq<char>>) -> Map<Seq<char>, Seq<char>>
    decreases pieces.len(),
{
    if pieces.len() == 0 {
        Map::<Seq<char>, Seq<char>>::empty()
    } else {
        let m = kv_map_of(pieces.drop_last());
        match pair_kv(pieces.last()) {
            Some(kv) => m.insert(kv.0, kv.1),
            None => m,
        }
    }
}

/// The map a URL-encoded key-value string parses to.
pub open spec fn parse_kv_spec(s: Seq<char>) -> Map<Seq<char>, Seq<char>> {
    kv_map_of(split_spec(trim_spec(s), '&'))
}

/// Parses a URL-encoded key-value string (a query string or form body)
/// into a map.  Pairs whose key or value fails percent-decoding are
/// dropped; duplicate keys collapse to the last value seen.
pub fn parse_url_encoded_key_value_pairs(s: &str) -> (r: KvMap)
    ensures
        r@ == parse_kv_spec(s@),
{
    let trimmed = trim(s);
    let pieces = split_on_char(trimmed, '&');
    let ghost dv = pieces.deep_view();
    let mut out = KvMap::new();
    let mut i: usize = 0;
    proof {
        assert(dv.subrange(0, 0) =~= Seq::<Seq<char>>::empty());
    }
    while i < pieces.len()
        invariant
            0 <= i <= pieces@.len(),
            dv == pieces.deep_view(),
            dv.len() == pieces@.len(),
            forall|j: int| 0 <= j < dv.len() ==> dv[j] == (#[trigger] pieces@[j])@,
            out@ == kv_map_of(dv.subrange(0, i as int)),
        decreases pieces@.len() - i,
    {
        let piece = &pieces[i];
        let plen: usize = piece.as_str().unicode_len();
        match find_char(piece.as_str(), '=', 0) {
            None => {
                proof {
                    lemma_find_idx_none(dv[i as int], '=');
                }
                out.insert(piece.clone(), String::new());
            },
            Some(eq) => {
                proof {
                    lemma_find_idx_at(dv[i as int], '=', eq as int);
                }
                let kpart = piece.as_str().substring_char(0, eq);
                let vpart = piece.as_str().substring_char(eq + 1, plen);
                match decode_component(kpart) {
                    Some(k) => {
                        match decode_component(vpart) {
                            Some(v) => {
                                out.insert(k, v);
                            },
                            None => {},
                        }
                    },
                    None => {},
                }
            },
        }
        i = i + 1;
        proof {
            let cur = dv.subrange(0, i as int);
            assert(cur.drop_last() =~= dv.subrange(0, i - 1));
            assert(cur.last() == dv[i - 1]);
        }
    }
    proof {
        assert(dv.subrange(0, dv.len() as int) =~= dv);
    }
    out
}

/// The index of the first `": "` in a header line, or -1 when none occurs.
pub open spec fn find_colon_space(s: Seq<char>) -> int
    decreases s.len(),
{
    if s.len() < 2 {
        -1
    } else if s[0] == ':' && s[1] == ' ' {
        0
    } else {
        let r = find_colon_space(s.subrange(1, s.len() as int));
        if r < 0 {
            -1
        } else {
            r + 1
        }
    }
}

proof fn lemma_find_colon_space_none(s: Seq<char>)
    requires
        forall|j: int| 0 <= j < s.len() - 1 ==> !((#[trigger] s[j]) == ':' && s[j + 1] == ' '),
    ensures
        find_colon_space(s) == -1,
    decreases s.len(),
{
    if s.len() >= 2 {
        lemma_find_colon_space_none(s.subrange(1, s.len() as int));
    }
}

proof fn lemma_find_colon_space_at(s: Seq<char>, i: int)
    requires
        0 <= i < s.len() - 1,
        s[i] == ':' && s[i + 1] == ' ',
        forall|j: int| 0 <= j < i ==> !((#[trigger] s[j]) == ':' && s[j + 1] == ' '),
    ensures
        find_colon_space(s) == i,
    decreases i,
{
    if i > 0 {
        lemma_find_colon_space_at(s.subrange(1, s.len() as int), i - 1);
    }
}

/// The header binding a raw header line carries: the part before the first
/// `": "`, trimmed and lowercased, bound to the part after it, trimmed.
/// A line without `": "` carries none.
pub open spec fn header_kv(line: Seq<char>) -> Option<(Seq<char>, Seq<char>)> {
    let i = find_colon_space(line);
    if i < 0 {
        None
    } else {
        Some(
            (
                lower_of(trim_spec(line.subrange(0, i))),
                trim_spec(line.subrange(i + 2, line.len() as int)),
            ),
        )
    }
}

/// Parses one header line.
pub fn parse_header_line(line: &str) -> (r: Option<(String, String)>)
    ensures
        match r {
            Some(kv) => header_kv(line@) == Some((kv.0@, kv.1@)),
            None => header_kv(line@) is None,
        },
{
    let len: usize = line.unicode_len();
    if len == 0 {
        proof {
            lemma_find_colon_space_none(line@);
        }
        return None;
    }
    let stop = len - 1;
    let mut i: usize = 0;
    while i < stop
        invariant
            len == line@.len(),
            len >= 1,
            stop == len - 1,
            0 <= i,
            i <= stop,
            forall|j: int| 0 <= j < i ==> !((#[trigger] line@[j]) == ':' && line@[j + 1] == ' '),
        decreases len - i,
    {
        if line.get_char(i) == ':' && line.get_char(i + 1) == ' ' {
            proof {
                lemma_find_colon_space_at(line@, i as int);
            }
            let key = to_lower(trim(line.substring_char(0, i)));
            let val = trim(line.substring_char(i + 2, len)).to_owned();
            return Some((key, val));
        }
        i = i + 1;
    }
    proof {
        lemma_find_colon_space_none(line@);
    }
    None
}

/// How a POST body is interpreted, from its `content-type` header.
#[derive(Clone, Copy, Debug, PartialEq, Eq, Structural)]
pub enum BodyKind {
    /// `text/plain`: the body is read whole and passed as an argument.
    Text,
    /// `application/x-www-form-urlencoded`: the body is parsed as pairs.
    UrlEncoded,
    /// `multipart/form-data`: the raw stream is handed to the executable.
    Multipart,
    /// Anything else, or no content type: the body is ignored.
    NoBody,
}

/// The body interpretation a `content-type` header value calls for.
pub open spec fn body_kind_spec(ct: Option<Seq<char>>) -> BodyKind {
    match ct {
        Some(v) => if v == "text/plain"@ {
            BodyKind::Text
        } else if v == "application/x-www-form-urlencoded"@ {
            BodyKind::UrlEncoded
        } else if v == "multipart/form-data"@ {
            BodyKind::Multipart
        } else {
            BodyKind::NoBody
        },
        None => BodyKind::NoBody,
    }
}

/// Decides how the body of a POST is to be read.
pub fn classify_body(content_type: Option<&String>) -> (r: BodyKind)
    ensures
        ({
            let ct = match content_type {
                Some(v) => Some(v@),
                None => None,
            };
            r == body_kind_spec(ct)
        }),
{
    match content_type {
        Some(v) => {
            if str_eq(v.as_str(), "text/plain") {
                BodyKind::Text
            } else if str_eq(v.as_str(), "application/x-www-form-urlencoded") {
                BodyKind::UrlEncoded
            } else if str_eq(v.as_str(), "multipart/form-data") {
                BodyKind::Multipart
            } else {
                BodyKind::NoBody
            }
        },
        None => BodyKind::NoBody,
    }
}

/// The concatenation of lines, each followed by `\r\n`.
pub open spec fn lines_concat(ls: Seq<Seq<char>>) -> Seq<char>
    decreases ls.len(),
{
    if ls.len() == 0 {
        Seq::<char>::empty()
    } else {
        lines_concat(ls.drop_last()) + ls.last() + seq!['\r', '\n']
    }
}

/// One full response head: the status line, the mandatory Content-Length,
/// the caller's raw header lines, and the blank line before the body.
pub open spec fn response_head_spec(status: Seq<char>, n: int, hs: Seq<Seq<char>>) -> Seq<char> {
    lines_concat(seq![("HTTP/1.0 "@ + status), ("Content-Length: "@ + dec_str(n))] + hs) + seq![
        '\r',
        '\n',
    ]
}

/// Composes a response head.  `Content-Length` is taken from the caller
/// unchecked, as streamed responses report a size they cannot know.
pub fn build_response_head(status: &str, content_length: u64, headers: &Vec<String>) -> (r: String)
    ensures
        r@ == response_head_spec(status@, content_length as int, headers.deep_view()),
{
    let ghost hs = headers.deep_view();
    let mut out: String = "HTTP/1.0 ".to_owned();
    out.append(status);
    out.append("\r\n");
    out.append("Content-Length: ");
    let dec = u64_to_dec_string(content_length);
    out.append(dec.as_str());
    out.append("\r\n");
    let ghost first2 = seq![
        ("HTTP/1.0 "@ + status@),
        ("Content-Length: "@ + dec_str(content_length as int)),
    ];
    proof {
        reveal_strlit("\r\n");
        assert("\r\n"@ =~= seq!['\r', '\n']);
        let l1 = "HTTP/1.0 "@ + status@;
        let l2 = "Content-Length: "@ + dec_str(content_length as int);
        assert(seq![l1].drop_last() =~= Seq::<Seq<char>>::empty());
        assert(lines_concat(seq![l1]) == lines_concat(Seq::<Seq<char>>::empty()) + l1 + seq![
            '\r',
            '\n',
        ]);
        assert(first2.drop_last() =~= seq![l1]);
        assert(first2.last() == l2);
        assert(lines_concat(first2) == lines_concat(seq![l1]) + l2 + seq!['\r', '\n']);
        assert(out@ =~= lines_concat(first2));
    }
    let mut i: usize = 0;
    while i < headers.len()
        invariant
            0 <= i <= headers@.len(),
            hs == headers.deep_view(),
            hs.len() == headers@.len(),
            forall|j: int| 0 <= j < hs.len() ==> hs[j] == (#[trigger] headers@[j])@,
            out@ == lines_concat(first2 + hs.subrange(0, i as int)),
        decreases headers@.len() - i,
    {
        let ghost pre = out@;
        out.append(headers[i].as_str());
        out.append("\r\n");
        i = i + 1;
        proof {
            reveal_strlit("\r\n");
            assert("\r\n"@ =~= seq!['\r', '\n']);
            let cur = first2 + hs.subrange(0, i as int);
            assert(cur.drop_last() =~= first2 + hs.subrange(0, i - 1));
            assert(cur.last() == hs[i - 1]);
            assert(out@ =~= lines_concat(cur));
        }
    }
    out.append("\r\n");
    proof {
        reveal_strlit("\r\n");
        assert("\r\n"@ =~= seq!['\r', '\n']);
        assert(first2 + hs.subrange(0, hs.len() as int) =~= first2 + hs);
        assert(out@ =~= response_head_spec(status@, content_length as int, hs));
    }
    out
}

/// A header line fit for a response head: non-empty and free of `\r`/`\n`.
pub open spec fn line_ok(l: Seq<char>) -> bool {
    l.len() > 0 && forall|j: int| 0 <= j < l.len() ==> #[trigger] l[j] != '\r' && l[j] != '\n'
}

proof fn lemma_lines_concat_shape(ls: Seq<Seq<char>>)
    requires
        forall|i: int| 0 <= i < ls.len() ==> line_ok(#[trigger] ls[i]),
    ensures
        ls.len() == 0 ==> lines_concat(ls).len() == 0,
        ls.len() > 0 ==> lines_concat(ls).len() >= 2 && lines_concat(ls)[lines_concat(ls).len()
            - 1] == '\n' && lines_concat(ls)[lines_concat(ls).len() - 2] == '\r',
        forall|i: int|
            0 <= i < lines_concat(ls).len() - 1 && #[trigger] lines_concat(ls)[i] == '\n'
                ==> lines_concat(ls)[i + 1] != '\r',
    decreases ls.len(),
{
    if ls.len() > 0 {
        lemma_lines_concat_shape(ls.drop_last());
        let lp = lines_concat(ls.drop_last());
        let last = ls.last();
        let l = lines_concat(ls);
        assert(line_ok(ls[ls.len() - 1]));
        assert(l == lp + last + seq!['\r', '\n']);
        assert forall|i: int| 0 <= i < l.len() - 1 && #[trigger] l[i] == '\n' implies l[i + 1]
            != '\r' by {
            if i < lp.len() - 1 {
                assert(l[i] == lp[i] && l[i + 1] == lp[i + 1]);
            } else if i == lp.len() - 1 {
                // the previous block's final newline is followed by the
                // first character of a CR-free line
                assert(l[i + 1] == last[0]);
            } else if i < lp.len() + last.len() {
                assert(l[i] == last[i - lp.len()]);
            } else if i == lp.len() + last.len() {
                assert(l[i] == '\r');
            }
        }
    }
}

proof fn lemma_lines_concat_prefix(ls: Seq<Seq<char>>)
    requires
        ls.len() > 0,
    ensures
        lines_concat(ls).len() >= ls[0].len() + 2,
        lines_concat(ls).subrange(0, ls[0].len() as int) == ls[0],
    decreases ls.len(),
{
    let l = lines_concat(ls);
    if ls.len() == 1 {
        assert(lines_concat(ls.drop_last()).len() == 0);
        assert(l =~= ls[0] + seq!['\r', '\n']);
        assert(l.subrange(0, ls[0].len() as int) =~= ls[0]);
    } else {
        lemma_lines_concat_prefix(ls.drop_last());
        let lp = lines_concat(ls.drop_last());
        assert(ls.drop_last()[0] == ls[0]);
        assert(l.subrange(0, ls[0].len() as int) =~= lp.subrange(0, ls[0].len() as int));
    }
}

/// The response writer's framing law: every head begins with `HTTP/1.0 `
/// and ends with the one and only `\r\n\r\n` that separates it from the
/// body, provided the status text and header lines are sane (non-empty and
/// free of `\r` and `\n`).
pub proof fn lemma_response_head_form(status: Seq<char>, n: int, hs: Seq<Seq<char>>)
    requires
        n >= 0,
        forall|j: int| 0 <= j < status.len() ==> #[trigger] status[j] != '\r' && status[j] != '\n',
        forall|i: int| 0 <= i < hs.len() ==> line_ok(#[trigger] hs[i]),
    ensures
        ({
            let h = response_head_spec(status, n, hs);
            h.len() >= 13 && h.subrange(0, 9) == "HTTP/1.0 "@ && h[h.len() - 4] == '\r' && h[h.len()
                - 3] == '\n' && h[h.len() - 2] == '\r' && h[h.len() - 1] == '\n' && forall|i: int|
                0 <= i && i + 4 <= h.len() && #[trigger] h[i] == '\r' && h[i + 1] == '\n' && h[i
                + 2] == '\r' && h[i + 3] == '\n' ==> i == h.len() - 4
        }),
{
    reveal_strlit("HTTP/1.0 ");
    reveal_strlit("Content-Length: ");
    crate::strutil::lemma_dec_str_digits(n);
    let l1 = "HTTP/1.0 "@ + status;
    let l2 = "Content-Length: "@ + dec_str(n);
    let lines = seq![l1, l2] + hs;
    assert("HTTP/1.0 "@.len() == 9);
    assert(line_ok(l1)) by {
        assert forall|j: int| 0 <= j < l1.len() implies #[trigger] l1[j] != '\r' && l1[j] != '\n' by {
            if j >= 9 {
                assert(l1[j] == status[j - 9]);
            }
        }
    }
    assert(line_ok(l2)) by {
        assert forall|j: int| 0 <= j < l2.len() implies #[trigger] l2[j] != '\r' && l2[j] != '\n' by {
            if j >= 16 {
                assert(l2[j] == dec_str(n)[j - 16]);
                assert('0' <= l2[j] <= '9');
            }
        }
    }
    assert(forall|i: int| 0 <= i < lines.len() ==> line_ok(#[trigger] lines[i])) by {
        assert(lines[0] == l1 && lines[1] == l2);
        assert(forall|i: int| 2 <= i < lines.len() ==> lines[i] == hs[i - 2]);
    }
    lemma_lines_concat_shape(lines);
    lemma_lines_concat_prefix(lines);
    let lc = lines_concat(lines);
    let h = response_head_spec(status, n, hs);
    assert(h == lc + seq!['\r', '\n']);
    assert(lines[0] == l1);
    assert(h.subrange(0, 9) =~= lc.subrange(0, l1.len() as int).subrange(0, 9));
    assert(l1.subrange(0, 9) =~= "HTTP/1.0 "@);
    assert(h[h.len() - 2] == '\r' && h[h.len() - 1] == '\n');
    assert(h[h.len() - 4] == lc[lc.len() - 2] && h[h.len() - 3] == lc[lc.len() - 1]);
    assert forall|i: int|
        0 <= i && i + 4 <= h.len() && #[trigger] h[i] == '\r' && h[i + 1] == '\n' && h[i + 2]
            == '\r' && h[i + 3] == '\n' implies i == h.len() - 4 by {
        if i + 4 <= lc.len() {
            assert(h[i + 1] == lc[i + 1] && h[i + 2] == lc[i + 2]);
        } else if i + 4 == lc.len() + 1 {
            assert(h[i + 1] == lc[i + 1]);
            assert(lc[i + 1] == lc[lc.len() - 2]);
        }
    }
}

} // verus!
