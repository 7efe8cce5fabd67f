//! The autoindex generator: a deterministic, paginated HTML listing of a
//! directory.  The caller enumerates the directory and reads the optional
//! `title`, `header.html` and `footer.html` assets; everything from entry
//! filtering and ordering to the final document is specified here, character
//! for character.

use vstd::prelude::*;

verus! {

use vstd::string::StrSliceExecFns;
use vstd::string::StringExecFns;
use crate::strutil::trim_spec;
use crate::strutil::trim;
use crate::strutil::trim_end;
use crate::strutil::drop_trailing_ws;
use crate::strutil::dec_str;
use crate::strutil::u64_to_dec_string;
use crate::strutil::str_eq;
use crate::strutil::ascii_chars;
use crate::strutil::lemma_ascii_bytes_utf8;
use crate::paths::display_path_spec;
use crate::paths::display_path;
use crate::percent::percent_encode_spec;
use crate::percent::percent_encode;
use crate::percent::lemma_percent_encode_ascii;
use crate::percent::lemma_percent_round_trip;
use crate::httpmsg::decode_str_spec;
use crate::datetime::local_datetime_str;
use crate::datetime::format_local_timestamp;
use crate::outside::utf8_to_string;

/// One directory entry as the listing shows it.
pub struct AutoindexEntry {
    /// The entry's file name.
    pub name: String,
    /// Whether the entry is a directory.
    pub is_dir: bool,
    /// Last-modified time, in seconds since the epoch.
    pub modified_secs: u64,
    /// Size in bytes.
    pub size: u64,
    /// The local-time rendering of `modified_secs`, fixed when the entry
    /// was built.
    pub modified_label: String,
}

/// Builds one entry, rendering its timestamp in the machine's local zone.
pub fn make_entry(name: String, is_dir: bool, modified_secs: u64, size: u64) -> (r: AutoindexEntry)
    requires
        modified_secs < 4611686018427387904,
    ensures
        r.name@ == name@,
        r.is_dir == is_dir,
        r.modified_secs == modified_secs,
        r.size == size,
        exists|off: int|
            -86400 < off < 86400 && r.modified_label@ == local_datetime_str(modified_secs, off),
{
    let label = format_local_timestamp(modified_secs);
    AutoindexEntry { name, is_dir, modified_secs, size, modified_label: label }
}

/// The file names the listing hides: the directory's own assets.
pub open spec fn is_special_spec(n: Seq<char>) -> bool {
    n == "header.html"@ || n == "footer.html"@ || n == "styles.css"@ || n == "title"@
}

/// Whether a file name is one of the hidden autoindex assets.
pub fn is_special_file_name(file_name: &str) -> (r: bool)
    ensures
        r == is_special_spec(file_name@),
{
    str_eq(file_name, "header.html") || str_eq(file_name, "footer.html") || str_eq(
        file_name,
        "styles.css",
    ) || str_eq(file_name, "title")
}

/// The entries the listing shows, in input order.
pub open spec fn visible_entries(es: Seq<AutoindexEntry>) -> Seq<AutoindexEntry> {
    es.filter(|e: AutoindexEntry| !is_special_spec(e.name@))
}

/// Whether `a` sorts strictly before `b`: directories first, then newer
/// modification times first.
pub open spec fn entry_before(a: AutoindexEntry, b: AutoindexEntry) -> bool {
    (a.is_dir && !b.is_dir) || (a.is_dir == b.is_dir && a.modified_secs > b.modified_secs)
}

/// Inserts `e` behind every element it does not sort strictly before, so
/// that equal elements keep their arrival order.
pub open spec fn insert_sorted(s: Seq<AutoindexEntry>, e: AutoindexEntry) -> Seq<AutoindexEntry>
    decreases s.len(),
{
    if s.len() > 0 && entry_before(e, s.last()) {
        insert_sorted(s.drop_last(), e).push(s.last())
    } else {
        s.push(e)
    }
}

/// Stable insertion sort by [`entry_before`].
pub open spec fn sort_spec(s: Seq<AutoindexEntry>) -> Seq<AutoindexEntry>
    decreases s.len(),
{
    if s.len() == 0 {
        Seq::<AutoindexEntry>::empty()
    } else {
        insert_sorted(sort_spec(s.drop_last()), s.last())
    }
}

/// Executable form of [`entry_before`].
pub fn entry_before_exec(a: &AutoindexEntry, b: &AutoindexEntry) -> (r: bool)
    ensures
        r == entry_before(*a, *b),
{
    (a.is_dir && !b.is_dir) || (a.is_dir == b.is_dir && a.modified_secs > b.modified_secs)
}

proof fn lemma_insert_sorted_at(s: Seq<AutoindexEntry>, e: AutoindexEntry, k: int)
    requires
        0 <= k <= s.len(),
        forall|j: int| k <= j < s.len() ==> entry_before(e, #[trigger] s[j]),
        k > 0 ==> !entry_before(e, s[k - 1]),
    ensures
        insert_sorted(s, e) == s.insert(k, e),
    decreases s.len() - k,
{
    if k == s.len() {
        assert(insert_sorted(s, e) =~= s.insert(k, e));
    } else {
        lemma_insert_sorted_at(s.drop_last(), e, k);
        assert(insert_sorted(s, e) =~= s.insert(k, e));
    }
}

/// Sorts the visible entries: directories before files, newest first, ties
/// keeping their arrival order.
pub fn sort_entries(entries: Vec<AutoindexEntry>) -> (r: Vec<AutoindexEntry>)
    ensures
        r@ == sort_spec(entries@),
{
    let ghost orig = entries@;
    let mut src = entries;
    let mut out: Vec<AutoindexEntry> = Vec::new();
    proof {
        assert(orig.subrange(0, 0) =~= Seq::<AutoindexEntry>::empty());
        assert(out@ =~= sort_spec(orig.subrange(0, 0)));
        assert(src@ =~= orig.subrange(0, orig.len() as int));
    }
    let mut taken: usize = 0;
    while taken < src.len()
        invariant
            0 <= taken <= src@.len(),
            src@ == orig,
            out@ == sort_spec(orig.subrange(0, taken as int)),
        decreases src@.len() - taken,
    {
        let e = &src[taken];
        let mut pos: usize = out.len();
        while pos > 0 && entry_before_exec(e, &out[pos - 1])
            invariant
                taken < src@.len(),
                *e == src@[taken as int],
                0 <= pos <= out@.len(),
                forall|j: int| pos <= j < out@.len() ==> entry_before(src@[taken as int], #[trigger] out@[j]),
            decreases pos,
        {
            pos = pos - 1;
        }
        proof {
            lemma_insert_sorted_at(out@, src@[taken as int], pos as int);
        }
        let copy = AutoindexEntry {
            name: src[taken].name.clone(),
            is_dir: src[taken].is_dir,
            modified_secs: src[taken].modified_secs,
            size: src[taken].size,
            modified_label: src[taken].modified_label.clone(),
        };
        out.insert(pos, copy);
        taken = taken + 1;
        proof {
            let cur = orig.subrange(0, taken as int);
            assert(cur.drop_last() =~= orig.subrange(0, taken - 1));
            assert(cur.last() == orig[taken - 1]);
            assert(copy == orig[taken - 1]);
        }
    }
    proof {
        assert(orig.subrange(0, orig.len() as int) =~= orig);
    }
    out
}

/// Keeps only the entries the listing shows.
pub fn filter_entries(entries: Vec<AutoindexEntry>) -> (r: Vec<AutoindexEntry>)
    ensures
        r@ == visible_entries(entries@),
{
    let ghost orig = entries@;
    let mut src = entries;
    let mut out: Vec<AutoindexEntry> = Vec::new();
    let mut i: usize = 0;
    proof {
        reveal(Seq::filter);
        assert(orig.subrange(0, 0) =~= Seq::<AutoindexEntry>::empty());
        assert(out@ =~= orig.subrange(0, 0).filter(|e: AutoindexEntry| !is_special_spec(e.name@)));
    }
    while i < src.len()
        invariant
            0 <= i <= src@.len(),
            src@ == orig,
            out@ == orig.subrange(0, i as int).filter(
                |e: AutoindexEntry| !is_special_spec(e.name@),
            ),
        decreases src@.len() - i,
    {
        let keep = !is_special_file_name(src[i].name.as_str());
        if keep {
            let copy = AutoindexEntry {
                name: src[i].name.clone(),
                is_dir: src[i].is_dir,
                modified_secs: src[i].modified_secs,
                size: src[i].size,
                modified_label: src[i].modified_label.clone(),
            };
            out.push(copy);
            proof {
                assert(copy == orig[i as int]);
            }
        }
        i = i + 1;
        proof {
            reveal(Seq::filter);
            let cur = orig.subrange(0, i as int);
            assert(cur.drop_last() =~= orig.subrange(0, i - 1));
            assert(cur.last() == orig[i - 1]);
        }
    }
    proof {
        assert(orig.subrange(0, orig.len() as int) =~= orig);
    }
    out
}

/// The percent-encoded anchor target for an entry name: the encoding of the
/// name's UTF-8 bytes, as characters.
pub open spec fn href_spec(name: Seq<char>) -> Seq<char> {
    ascii_chars(percent_encode_spec(vstd::utf8::encode_utf8(name)))
}

/// Percent-encodes an entry name for use as its anchor's target.
pub fn href_of(name: &str) -> (r: String)
    ensures
        r@ == href_spec(name@),
{
    let bytes = name.as_bytes_vec();
    let encoded = percent_encode(&bytes);
    proof {
        lemma_percent_encode_ascii(bytes@);
        lemma_ascii_bytes_utf8(encoded@);
    }
    match utf8_to_string(encoded) {
        Some(s) => s,
        None => {
            proof {
                assert(false);
            }
            String::new()
        },
    }
}

/// The generated anchor's target decodes back to the entry name it was made
/// from: percent-encoding of names round-trips.
pub proof fn lemma_href_round_trip(name: Seq<char>)
    ensures
        decode_str_spec(href_spec(name)) == Some(name),
{
    broadcast use vstd::utf8::encode_utf8_valid_utf8, vstd::utf8::encode_utf8_decode_utf8;

    let nb = vstd::utf8::encode_utf8(name);
    let enc = percent_encode_spec(nb);
    let h = href_spec(name);
    lemma_percent_encode_ascii(nb);
    lemma_ascii_bytes_utf8(enc);
    vstd::utf8::is_ascii_chars_encode_utf8(h);
    assert(vstd::utf8::is_ascii_chars(h)) by {
        assert forall|i: int| 0 <= i < h.len() implies '\0' <= #[trigger] h[i] <= '\u{7f}' by {
            assert(h[i] == (enc[i] as u32) as char);
        }
    }
    assert(vstd::utf8::encode_utf8(h) =~= enc) by {
        assert forall|i: int| 0 <= i < h.len() implies #[trigger] vstd::utf8::encode_utf8(h)[i]
            == enc[i] by {
            assert(vstd::utf8::encode_utf8(h)[i] == h[i] as u8);
            assert(h[i] == (enc[i] as u32) as char);
        }
    }
    lemma_percent_round_trip(nb);
}

/// The `<li>` markup for one entry.
pub open spec fn entry_html(e: AutoindexEntry) -> Seq<char> {
    "<li><a href=\""@ + href_spec(e.name@) + "\" data-modified=\""@ + e.modified_label@
        + "\" data-size=\""@ + dec_str(e.size as int) + "\">"@ + e.name@ + "<br/></a></li>"@
}

/// Renders one entry's markup.
pub fn format_entry(entry: &AutoindexEntry) -> (r: String)
    ensures
        r@ == entry_html(*entry),
{
    let mut out: String = "<li><a href=\"".to_owned();
    out.append(href_of(entry.name.as_str()).as_str());
    out.append("\" data-modified=\"");
    out.append(entry.modified_label.as_str());
    out.append("\" data-size=\"");
    out.append(u64_to_dec_string(entry.size).as_str());
    out.append("\">");
    out.append(entry.name.as_str());
    out.append("<br/></a></li>");
    proof {
        assert(out@ =~= entry_html(*entry));
    }
    out
}

/// The concatenated markup of the entries in `[i, end)`.
pub open spec fn entries_html(es: Seq<AutoindexEntry>, i: int, end: int) -> Seq<char>
    decreases end - i,
{
    if i < 0 || i >= end || i >= es.len() {
        Seq::<char>::empty()
    } else {
        entry_html(es[i]) + entries_html(es, i + 1, end)
    }
}

/// The listing's title: an explicit header overrides the `title` file's
/// trimmed contents, which override the display path.
pub open spec fn title_spec(
    path: Seq<char>,
    header: Option<Seq<char>>,
    title_file: Option<Seq<char>>,
) -> Seq<char> {
    match header {
        Some(h) => h,
        None => match title_file {
            Some(t) => trim_spec(t),
            None => display_path_spec(path),
        },
    }
}

/// The page heading: an explicit header renders as an `<h1>`, else the
/// `header.html` contents stand (trailing whitespace dropped), else an
/// `<h1>` with the display path.
pub open spec fn heading_spec(
    path: Seq<char>,
    header: Option<Seq<char>>,
    header_file: Option<Seq<char>>,
) -> Seq<char> {
    match header {
        Some(h) => "   <h1>"@ + h + "</h1>"@,
        None => match header_file {
            Some(f) => drop_trailing_ws(f),
            None => "    <h1>"@ + display_path_spec(path) + "</h1>"@,
        },
    }
}

/// The document head the envelope wraps.
pub open spec fn head_spec(title: Seq<char>) -> Seq<char> {
    "<title>"@ + title
        + "</title>\n<link rel=\"stylesheet\" href=\"styles.css\"/>\n<base href=\"./\"/>"@
}

/// The pagination form.
pub open spec fn form_spec(p: int, np: int, n: int) -> Seq<char> {
    "\n<form>\n                      <span class=\"page-number\" data-num-pages=\""@ + dec_str(np)
        + "\">\n                          <label for=\"page-number-input\">Page #</label>\n                          <input id=\"page-number-input\" type=\"number\" name=\"p\" value=\""@
        + dec_str(p) + "\" min=\"1\" max=\""@ + dec_str(np)
        + "\" size=\"4\"/>\n                      </span>\n                      <span class=\"page-size\">\n                          <label for=\"page-size-input\">Page Size</label>\n                          <input id=\"page-size-input\" type=\"number\" name=\"n\" value=\""@
        + dec_str(n)
        + "\" min=\"1\" width=\"2\" size=\"4\"/>\n                          <input type=\"submit\" value=\"Go\"/>\n                      </span>\n                      </form>"@
}

/// The page body below the heading, without pagination.
pub open spec fn plain_body_spec(sorted: Seq<AutoindexEntry>) -> Seq<char> {
    "\n            <ol class=\"entries\">"@ + "\n            <a href=\"../\">../<br/></a>"@
        + entries_html(sorted, 0, sorted.len() as int) + "\n            </ol>"@
}

/// The first shown entry's index on a page.
pub open spec fn page_start(count: int, page_size: int, page_number: int) -> int {
    if page_number * page_size < count - 1 {
        page_number * page_size
    } else {
        count - 1
    }
}

/// The last shown entry's index on a page.
pub open spec fn page_end(count: int, page_size: int, page_number: int) -> int {
    let start = page_start(count, page_size, page_number);
    if start + page_size - 1 < count - 1 {
        start + page_size - 1
    } else {
        count - 1
    }
}

/// How many pages the listing has: the count divided by the page size,
/// rounded up.
pub open spec fn num_pages_spec(count: int, page_size: int) -> int {
    (count - 1) / page_size + 1
}

/// The navigation block: an optional previous-page anchor, the page form,
/// an optional next-page anchor.
pub open spec fn nav_spec(count: int, page_size: int, page_number: int) -> Seq<char> {
    let start = page_start(count, page_size, page_number);
    let end = page_end(count, page_size, page_number);
    (if start > 0 {
        "\n<a href=\".?p="@ + dec_str(page_number) + "&n="@ + dec_str(page_size)
            + "\">Prev. Page</a>"@
    } else {
        Seq::<char>::empty()
    }) + form_spec(page_number + 1, num_pages_spec(count, page_size), page_size) + (if end < count
        - 1 {
        "\n<a href=\".?p="@ + dec_str(page_number + 2) + "&n="@ + dec_str(page_size)
            + "\">Next Page</a>"@
    } else {
        Seq::<char>::empty()
    }) + "</nav>"@
}

/// The page body below the heading, paginated.  Requires at least one
/// visible entry and a positive page size.
pub open spec fn paged_body_spec(sorted: Seq<AutoindexEntry>, page_size: int, page_number: int) -> Seq<
    char,
> {
    let count = sorted.len() as int;
    let start = page_start(count, page_size, page_number);
    let end = page_end(count, page_size, page_number);
    "\n            <ol class=\"entries\" start=\""@ + dec_str(start + 1) + "\">"@
        + "\n            <a href=\"../\">../</a>"@ + entries_html(sorted, start, end + 1)
        + "\n            </ol>\n            <nav class=\"pagination\">"@ + nav_spec(
        count,
        page_size,
        page_number,
    )
}

/// The whole autoindex document for a directory.
pub open spec fn index_page_spec(
    path: Seq<char>,
    header: Option<Seq<char>>,
    entries: Seq<AutoindexEntry>,
    title_file: Option<Seq<char>>,
    header_file: Option<Seq<char>>,
    footer_file: Option<Seq<char>>,
    page_size: int,
    page_number: int,
) -> Seq<char> {
    let sorted = sort_spec(visible_entries(entries));
    let body = heading_spec(path, header, header_file) + (if page_size == 0 {
        plain_body_spec(sorted)
    } else {
        paged_body_spec(sorted, page_size, page_number)
    }) + (match footer_file {
        Some(f) => drop_trailing_ws(f),
        None => Seq::<char>::empty(),
    });
    "<!DOCTYPE html>\n<html lang=\"en\">\n    <head>\n        <meta charset=\"UTF-8\"/>\n        "@
        + head_spec(title_spec(path, header, title_file)) + "\n    </head>\n    <body>\n"@ + body
        + "\n    </body>\n</html>"@
}

/// How many entries the listing would show.
pub fn count_visible_entries(entries: &Vec<AutoindexEntry>) -> (r: usize)
    ensures
        r == visible_entries(entries@).len(),
{
    let mut n: usize = 0;
    let mut i: usize = 0;
    proof {
        reveal(Seq::filter);
        assert(entries@.subrange(0, 0) =~= Seq::<AutoindexEntry>::empty());
    }
    while i < entries.len()
        invariant
            0 <= i <= entries@.len(),
            n == entries@.subrange(0, i as int).filter(
                |e: AutoindexEntry| !is_special_spec(e.name@),
            ).len(),
            n <= i,
        decreases entries@.len() - i,
    {
        if !is_special_file_name(entries[i].name.as_str()) {
            n = n + 1;
        }
        i = i + 1;
        proof {
            reveal(Seq::filter);
            let cur = entries@.subrange(0, i as int);
            assert(cur.drop_last() =~= entries@.subrange(0, i - 1));
            assert(cur.last() == entries@[i - 1]);
        }
    }
    proof {
        assert(entries@.subrange(0, entries@.len() as int) =~= entries@);
    }
    n
}

/// Renders the unpaginated entry list.
fn render_plain_body(sorted: &Vec<AutoindexEntry>) -> (r: String)
    ensures
        r@ == plain_body_spec(sorted@),
{
    let mut out: String = "\n            <ol class=\"entries\">".to_owned();
    out.append("\n            <a href=\"../\">../<br/></a>");
    let mut i: usize = 0;
    let ghost mid = out@;
    proof {
        assert(out@ =~= mid + entries_html(sorted@, 0, 0));
    }
    while i < sorted.len()
        invariant
            0 <= i <= sorted@.len(),
            mid == "\n            <ol class=\"entries\">"@ + "\n            <a href=\"../\">../<br/></a>"@,
            out@ == mid + entries_html(sorted@, 0, i as int),
        decreases sorted@.len() - i,
    {
        let entry_str = format_entry(&sorted[i]);
        out.append(entry_str.as_str());
        i = i + 1;
        proof {
            lemma_entries_html_snoc(sorted@, 0, i as int);
        }
    }
    out.append("\n            </ol>");
    proof {
        assert(out@ =~= plain_body_spec(sorted@));
    }
    out
}

/// Computes the page bounds: the first shown index, the last shown index,
/// and the number of pages.
fn page_bounds(count: usize, page_size: usize, page_number: usize) -> (r: (usize, usize, usize))
    requires
        count > 0,
        page_size > 0,
    ensures
        r.0 as int == page_start(count as int, page_size as int, page_number as int),
        r.1 as int == page_end(count as int, page_size as int, page_number as int),
        r.2 as int == num_pages_spec(count as int, page_size as int),
        r.0 <= r.1 < count,
{
    let last_index = count - 1;
    let num_pages = last_index / page_size + 1;
    let start = if page_number > last_index / page_size {
        proof {
            assert(page_number * page_size > last_index) by (nonlinear_arith)
                requires
                    page_number > last_index / page_size,
                    page_size > 0,
                    last_index >= 0,
            ;
        }
        last_index
    } else {
        proof {
            assert(page_number * page_size <= last_index) by (nonlinear_arith)
                requires
                    page_number <= last_index / page_size,
                    page_size > 0,
                    last_index >= 0,
            ;
        }
        page_number * page_size
    };
    let end = if page_size - 1 < last_index - start {
        start + (page_size - 1)
    } else {
        last_index
    };
    (start, end, num_pages)
}

/// Renders the navigation block under a paginated listing.
fn render_nav(count: usize, page_size: usize, page_number: usize) -> (r: String)
    requires
        count > 0,
        page_size > 0,
        page_number < usize::MAX,
    ensures
        r@ == nav_spec(count as int, page_size as int, page_number as int),
{
    let bounds = page_bounds(count, page_size, page_number);
    let start = bounds.0;
    let end = bounds.1;
    let num_pages = bounds.2;
    let last_index = count - 1;
    let mut out: String = String::new();
    if start > 0 {
        out.append("\n<a href=\".?p=");
        out.append(u64_to_dec_string(page_number as u64).as_str());
        out.append("&n=");
        out.append(u64_to_dec_string(page_size as u64).as_str());
        out.append("\">Prev. Page</a>");
    }
    let ghost cp2 = out@;
    out.append("\n<form>\n                      <span class=\"page-number\" data-num-pages=\"");
    out.append(u64_to_dec_string(num_pages as u64).as_str());
    out.append(
        "\">\n                          <label for=\"page-number-input\">Page #</label>\n                          <input id=\"page-number-input\" type=\"number\" name=\"p\" value=\"",
    );
    out.append(u64_to_dec_string((page_number + 1) as u64).as_str());
    out.append("\" min=\"1\" max=\"");
    out.append(u64_to_dec_string(num_pages as u64).as_str());
    out.append(
        "\" size=\"4\"/>\n                      </span>\n                      <span class=\"page-size\">\n                          <label for=\"page-size-input\">Page Size</label>\n                          <input id=\"page-size-input\" type=\"number\" name=\"n\" value=\"",
    );
    out.append(u64_to_dec_string(page_size as u64).as_str());
    out.append(
        "\" min=\"1\" width=\"2\" size=\"4\"/>\n                          <input type=\"submit\" value=\"Go\"/>\n                      </span>\n                      </form>",
    );
    let ghost cp3 = out@;
    proof {
        assert(cp3 =~= cp2 + form_spec(
            page_number + 1 as int,
            num_pages as int,
            page_size as int,
        ));
    }
    if end < last_index {
        proof {
            assert(page_number <= page_number * page_size) by (nonlinear_arith)
                requires
                    page_size >= 1,
                    page_number >= 0,
            ;
            assert(start as int == page_start(count as int, page_size as int, page_number as int));
            assert(start == page_number * page_size);
            assert(page_number + 2 <= usize::MAX);
        }
        out.append("\n<a href=\".?p=");
        out.append(u64_to_dec_string((page_number + 2) as u64).as_str());
        out.append("&n=");
        out.append(u64_to_dec_string(page_size as u64).as_str());
        out.append("\">Next Page</a>");
    }
    out.append("</nav>");
    proof {
        assert(out@ =~= nav_spec(count as int, page_size as int, page_number as int));
    }
    out
}

/// Renders the paginated entry list with its navigation block.
fn render_paged_body(sorted: &Vec<AutoindexEntry>, page_size: usize, page_number: usize) -> (r:
    String)
    requires
        page_size > 0,
        sorted@.len() > 0,
        page_number < usize::MAX,
    ensures
        r@ == paged_body_spec(sorted@, page_size as int, page_number as int),
{
    let count = sorted.len();
    let bounds = page_bounds(count, page_size, page_number);
    let start = bounds.0;
    let end = bounds.1;
    let mut out: String = "\n            <ol class=\"entries\" start=\"".to_owned();
    out.append(u64_to_dec_string((start + 1) as u64).as_str());
    out.append("\">");
    out.append("\n            <a href=\"../\">../</a>");
    let mut i: usize = start;
    let ghost mid = out@;
    proof {
        assert(out@ =~= mid + entries_html(sorted@, start as int, start as int));
    }
    while i <= end
        invariant
            start <= i <= end + 1,
            end < count,
            count == sorted@.len(),
            out@ == mid + entries_html(sorted@, start as int, i as int),
        decreases end + 1 - i,
    {
        let entry_str = format_entry(&sorted[i]);
        out.append(entry_str.as_str());
        i = i + 1;
        proof {
            lemma_entries_html_snoc(sorted@, start as int, i as int);
        }
    }
    out.append("\n            </ol>\n            <nav class=\"pagination\">");
    let ghost cp1 = out@;
    proof {
        assert(cp1 =~= "\n            <ol class=\"entries\" start=\""@ + dec_str(start + 1)
            + "\">"@ + "\n            <a href=\"../\">../</a>"@ + entries_html(
            sorted@,
            start as int,
            end + 1,
        ) + "\n            </ol>\n            <nav class=\"pagination\">"@);
    }
    let nav = render_nav(count, page_size, page_number);
    out.append(nav.as_str());
    proof {
        assert(out@ =~= paged_body_spec(sorted@, page_size as int, page_number as int));
    }
    out
}

/// Generates the autoindex document for a directory.
///
/// The caller enumerates the directory into `entries` (applying any entry
/// filter of its own), reads the three optional asset files, and picks the
/// page size and zero-based page number from the query.  With a positive
/// page size the listing must have at least one visible entry; the caller
/// checks that with [`count_visible_entries`].
#[verifier::rlimit(100)]
pub fn generate_index(
    path: &str,
    header: Option<&str>,
    entries: Vec<AutoindexEntry>,
    title_file: Option<&String>,
    header_file: Option<&String>,
    footer_file: Option<&String>,
    page_size: usize,
    page_number: usize,
) -> (r: String)
    requires
        page_size > 0 ==> visible_entries(entries@).len() > 0,
        page_number < usize::MAX,
    ensures
        r@ == index_page_spec(
            path@,
            match header {
                Some(h) => Some(h@),
                None => None,
            },
            entries@,
            match title_file {
                Some(t) => Some(t@),
                None => None,
            },
            match header_file {
                Some(f) => Some(f@),
                None => None,
            },
            match footer_file {
                Some(f) => Some(f@),
                None => None,
            },
            page_size as int,
            page_number as int,
        ),
{
    let ghost gentries = entries@;
    let visible = filter_entries(entries);
    let sorted = sort_entries(visible);
    let ghost gsorted = sort_spec(visible_entries(gentries));

    // title and heading
    let mut out: String =
        "<!DOCTYPE html>\n<html lang=\"en\">\n    <head>\n        <meta charset=\"UTF-8\"/>\n        ".to_owned();
    out.append("<title>");
    match header {
        Some(h) => out.append(h),
        None => match title_file {
            Some(t) => out.append(trim(t.as_str())),
            None => out.append(display_path(path).as_str()),
        },
    }
    out.append("</title>\n<link rel=\"stylesheet\" href=\"styles.css\"/>\n<base href=\"./\"/>");
    out.append("\n    </head>\n    <body>\n");
    match header {
        Some(h) => {
            out.append("   <h1>");
            out.append(h);
            out.append("</h1>");
        },
        None => match header_file {
            Some(f) => out.append(trim_end(f.as_str())),
            None => {
                out.append("    <h1>");
                out.append(display_path(path).as_str());
                out.append("</h1>");
            },
        },
    }
    let ghost gheader = match header {
        Some(h) => Some(h@),
        None => None,
    };
    let ghost gtitle = match title_file {
        Some(t) => Some(t@),
        None => None,
    };
    let ghost gheadf = match header_file {
        Some(f) => Some(f@),
        None => None,
    };
    let ghost prefix =
        "<!DOCTYPE html>\n<html lang=\"en\">\n    <head>\n        <meta charset=\"UTF-8\"/>\n        "@
        + head_spec(title_spec(path@, gheader, gtitle)) + "\n    </head>\n    <body>\n"@
        + heading_spec(path@, gheader, gheadf);
    proof {
        assert(out@ =~= prefix);
    }

    proof {
        lemma_sort_len(visible_entries(gentries));
    }
    let body = if page_size == 0 {
        render_plain_body(&sorted)
    } else {
        render_paged_body(&sorted, page_size, page_number)
    };
    out.append(body.as_str());
    match footer_file {
        Some(f) => out.append(trim_end(f.as_str())),
        None => {},
    }
    out.append("\n    </body>\n</html>");
    proof {
        let gfoot = match footer_file {
            Some(f) => Some(f@),
            None => None::<Seq<char>>,
        };
        assert(out@ =~= index_page_spec(
            path@,
            gheader,
            gentries,
            gtitle,
            gheadf,
            gfoot,
            page_size as int,
            page_number as int,
        ));
    }
    out
}

proof fn lemma_insert_sorted_len(s: Seq<AutoindexEntry>, e: AutoindexEntry)
    ensures
        insert_sorted(s, e).len() == s.len() + 1,
    decreases s.len(),
{
    if s.len() > 0 && entry_before(e, s.last()) {
        lemma_insert_sorted_len(s.drop_last(), e);
    }
}

proof fn lemma_sort_len(s: Seq<AutoindexEntry>)
    ensures
        sort_spec(s).len() == s.len(),
    decreases s.len(),
{
    if s.len() > 0 {
        lemma_sort_len(s.drop_last());
        lemma_insert_sorted_len(sort_spec(s.drop_last()), s.last());
    }
}

proof fn lemma_entries_html_snoc(es: Seq<AutoindexEntry>, from: int, i: int)
    requires
        0 <= from < i <= es.len(),
    ensures
        entries_html(es, from, i) == entries_html(es, from, i - 1) + entry_html(es[i - 1]),
    decreases i - from,
{
    if from == i - 1 {
        assert(entries_html(es, from, i - 1) =~= Seq::<char>::empty());
        assert(entries_html(es, i, i) =~= Seq::<char>::empty());
        assert(entries_html(es, from, i) =~= entries_html(es, from, i - 1) + entry_html(
            es[i - 1],
        ));
    } else {
        lemma_entries_html_snoc(es, from + 1, i);
        assert(entries_html(es, from, i) =~= entries_html(es, from, i - 1) + entry_html(
            es[i - 1],
        ));
    }
}

/// No inversions: for any two positions, the later entry does not sort
/// strictly before the earlier one.
pub open spec fn entries_ordered(s: Seq<AutoindexEntry>) -> bool {
    forall|i: int, j: int|
        0 <= i < j < s.len() ==> !entry_before(#[trigger] s[j], #[trigger] s[i])
}

proof fn lemma_insert_sorted_membership(s: Seq<AutoindexEntry>, e: AutoindexEntry, k: int)
    requires
        0 <= k < insert_sorted(s, e).len(),
    ensures
        insert_sorted(s, e)[k] == e || exists|i: int| 0 <= i < s.len() && insert_sorted(s, e)[k]
            == s[i],
    decreases s.len(),
{
    lemma_insert_sorted_len(s, e);
    if s.len() > 0 && entry_before(e, s.last()) {
        if k == insert_sorted(s, e).len() - 1 {
            assert(insert_sorted(s, e)[k] == s[s.len() - 1]);
        } else {
            lemma_insert_sorted_membership(s.drop_last(), e, k);
            if insert_sorted(s, e)[k] != e {
                let i = choose|i: int|
                    0 <= i < s.drop_last().len() && insert_sorted(s.drop_last(), e)[k] == s.drop_last()[i];
                assert(insert_sorted(s, e)[k] == s[i]);
            }
        }
    }
}

proof fn lemma_insert_sorted_ordered(s: Seq<AutoindexEntry>, e: AutoindexEntry)
    requires
        entries_ordered(s),
    ensures
        entries_ordered(insert_sorted(s, e)),
    decreases s.len(),
{
    lemma_insert_sorted_len(s, e);
    let r = insert_sorted(s, e);
    if s.len() > 0 && entry_before(e, s.last()) {
        assert(entries_ordered(s.drop_last()));
        lemma_insert_sorted_ordered(s.drop_last(), e);
        let rp = insert_sorted(s.drop_last(), e);
        assert forall|i: int, j: int| 0 <= i < j < r.len() implies !entry_before(
            #[trigger] r[j],
            #[trigger] r[i],
        ) by {
            if j < r.len() - 1 {
                assert(r[i] == rp[i] && r[j] == rp[j]);
            } else {
                // the old last element stays behind everything now in front
                assert(r[j] == s.last());
                assert(r[i] == rp[i]);
                lemma_insert_sorted_membership(s.drop_last(), e, i);
                if rp[i] == e {
                    assert(!entry_before(s.last(), e));
                } else {
                    let m = choose|m: int| 0 <= m < s.drop_last().len() && rp[i] == s.drop_last()[m];
                    assert(rp[i] == s[m]);
                    assert(!entry_before(s[s.len() - 1], s[m]));
                }
            }
        }
    } else {
        assert forall|i: int, j: int| 0 <= i < j < r.len() implies !entry_before(
            #[trigger] r[j],
            #[trigger] r[i],
        ) by {
            if j == r.len() - 1 {
                assert(r[j] == e);
                assert(r[i] == s[i]);
                if s.len() > 0 {
                    assert(!entry_before(e, s[s.len() - 1]));
                    if i < s.len() - 1 {
                        assert(!entry_before(s[s.len() - 1], s[i]));
                    }
                }
            } else {
                assert(r[i] == s[i] && r[j] == s[j]);
            }
        }
    }
}

/// The listing order is the one the page promises: no directory stands
/// after a file, and within each group no older entry stands before a
/// newer one.
pub proof fn lemma_sort_spec_ordered(s: Seq<AutoindexEntry>)
    ensures
        entries_ordered(sort_spec(s)),
    decreases s.len(),
{
    if s.len() > 0 {
        lemma_sort_spec_ordered(s.drop_last());
        lemma_insert_sorted_ordered(sort_spec(s.drop_last()), s.last());
    }
}

} // verus!
