use homepage_server::autoindex::{
    count_visible_entries, format_entry, generate_index, href_of, is_special_file_name,
    make_entry, sort_entries, AutoindexEntry,
};
use homepage_server::datetime::{format_local_timestamp, format_timestamp};
use homepage_server::strutil::u64_to_dec_string;

fn entry(name: &str, is_dir: bool, modified_secs: u64, size: u64, label: &str) -> AutoindexEntry {
    AutoindexEntry {
        name: name.to_string(),
        is_dir,
        modified_secs,
        size,
        modified_label: label.to_string(),
    }
}

#[test]
fn decimal_rendering() {
    assert_eq!(u64_to_dec_string(0), "0");
    assert_eq!(u64_to_dec_string(907), "907");
    assert_eq!(u64_to_dec_string(u64::MAX), "18446744073709551615");
}

#[test]
fn timestamps_render_like_chrono() {
    for secs in [0u64, 1, 86399, 86400, 951867090, 1700000000, 4102444799] {
        let expected = chrono::DateTime::from_timestamp(secs as i64, 0)
            .unwrap()
            .format("%d/%m/%Y %T")
            .to_string();
        assert_eq!(format_timestamp(secs, 0), expected);
    }
}

#[test]
fn local_timestamps_render_like_chrono_local() {
    for secs in [0u64, 1700000000, 1234567890] {
        let expected = chrono::TimeZone::timestamp_opt(&chrono::Local, secs as i64, 0)
            .unwrap()
            .format("%d/%m/%Y %T")
            .to_string();
        assert_eq!(format_local_timestamp(secs), expected);
    }
}

#[test]
fn epoch_renders_as_known_date() {
    assert_eq!(format_timestamp(0, 0), "01/01/1970 00:00:00");
    assert_eq!(format_timestamp(1700000000, 0), "14/11/2023 22:13:20");
}

#[test]
fn hrefs_are_percent_encoded() {
    assert_eq!(href_of("plain.txt"), "plain.txt");
    assert_eq!(href_of("a b.txt"), "a%20b.txt");
    assert_eq!(href_of("ä"), "%C3%A4");
    // and they decode back to the name
    assert_eq!(urlencoding::decode(&href_of("a b&c.txt")).unwrap(), "a b&c.txt");
}

#[test]
fn special_names_are_hidden() {
    assert!(is_special_file_name("header.html"));
    assert!(is_special_file_name("footer.html"));
    assert!(is_special_file_name("styles.css"));
    assert!(is_special_file_name("title"));
    assert!(!is_special_file_name("index.html"));
    assert!(!is_special_file_name("titles"));
}

#[test]
fn entries_sort_directories_first_newest_first() {
    let es = vec![
        entry("old.txt", false, 100, 1, "x"),
        entry("newdir", true, 300, 0, "x"),
        entry("new.txt", false, 200, 1, "x"),
        entry("olddir", true, 50, 0, "x"),
        entry("tie.txt", false, 200, 2, "x"),
    ];
    let sorted = sort_entries(es);
    let names: Vec<&str> = sorted.iter().map(|e| e.name.as_str()).collect();
    // dirs first (newest first), then files by time descending; the two
    // 200-second files keep their arrival order
    assert_eq!(names, vec!["newdir", "olddir", "new.txt", "tie.txt", "old.txt"]);
}

#[test]
fn entry_markup_is_exact() {
    let e = entry("a b.txt", false, 0, 5, "01/01/2024 10:20:30");
    assert_eq!(
        format_entry(&e),
        "<li><a href=\"a%20b.txt\" data-modified=\"01/01/2024 10:20:30\" data-size=\"5\">a b.txt<br/></a></li>"
    );
}

#[test]
fn make_entry_keeps_fields() {
    let e = make_entry("f.txt".to_string(), false, 1700000000, 42);
    assert_eq!(e.name, "f.txt");
    assert!(!e.is_dir);
    assert_eq!(e.modified_secs, 1700000000);
    assert_eq!(e.size, 42);
    assert_eq!(e.modified_label.len(), 19);
}

#[test]
fn plain_index_page_is_exact() {
    let es = vec![
        entry("sub", true, 200, 4096, "02/01/2024 00:00:00"),
        entry("a b.txt", false, 100, 5, "01/01/2024 00:00:00"),
        entry("styles.css", false, 100, 9, "01/01/2024 00:00:00"),
    ];
    assert_eq!(count_visible_entries(&es), 2);
    let page = generate_index("/home/alice/www/blog", None, es, None, None, None, 0, 0);
    let expected = [
        "<!DOCTYPE html>\n<html lang=\"en\">\n    <head>\n        <meta charset=\"UTF-8\"/>\n        ",
        "<title>blog</title>\n<link rel=\"stylesheet\" href=\"styles.css\"/>\n<base href=\"./\"/>",
        "\n    </head>\n    <body>\n",
        "    <h1>blog</h1>",
        "\n            <ol class=\"entries\">",
        "\n            <a href=\"../\">../<br/></a>",
        "<li><a href=\"sub\" data-modified=\"02/01/2024 00:00:00\" data-size=\"4096\">sub<br/></a></li>",
        "<li><a href=\"a%20b.txt\" data-modified=\"01/01/2024 00:00:00\" data-size=\"5\">a b.txt<br/></a></li>",
        "\n            </ol>",
        "\n    </body>\n</html>",
    ]
    .concat();
    assert_eq!(page, expected);
}

#[test]
fn titles_and_headers_take_precedence() {
    let es = vec![entry("f", false, 1, 1, "01/01/1970 00:00:01")];
    let title = String::from("  My Title \n");
    let header = String::from("<h1>Custom</h1>\n\n");
    let footer = String::from("<p>bye</p>\n");
    let page = generate_index(
        "/home/a/www",
        None,
        es,
        Some(&title),
        Some(&header),
        Some(&footer),
        0,
        0,
    );
    assert!(page.contains("<title>My Title</title>"));
    assert!(page.contains("<h1>Custom</h1>\n            <ol"));
    assert!(page.contains("</ol><p>bye</p>\n    </body>"));

    // an explicit header overrides both files
    let es2 = vec![entry("f", false, 1, 1, "01/01/1970 00:00:01")];
    let page2 = generate_index(
        "/home",
        Some("People"),
        es2,
        Some(&title),
        Some(&header),
        None,
        0,
        0,
    );
    assert!(page2.contains("<title>People</title>"));
    assert!(page2.contains("   <h1>People</h1>"));
}

#[test]
fn paginated_index_slices_and_links() {
    let mut es: Vec<AutoindexEntry> = Vec::new();
    for i in 0..5u64 {
        // newest first after sorting: e4, e3, e2, e1, e0
        es.push(entry(&format!("e{}", i), false, 100 + i, i, "01/01/1970 00:00:00"));
    }
    // page size 2, second page (zero-based page 1): entries e2, e1
    let page = generate_index("/home/a/www/d", None, es, None, None, None, 2, 1);
    assert!(page.contains("<ol class=\"entries\" start=\"3\">"));
    assert!(page.contains("data-size=\"2\">e2<br/>"));
    assert!(page.contains("data-size=\"1\">e1<br/>"));
    assert!(!page.contains(">e4<br/>"));
    assert!(!page.contains(">e0<br/>"));
    assert!(page.contains("<a href=\".?p=1&n=2\">Prev. Page</a>"));
    assert!(page.contains("<a href=\".?p=3&n=2\">Next Page</a>"));
    assert!(page.contains("data-num-pages=\"3\""));
    assert!(page.contains("name=\"p\" value=\"2\" min=\"1\" max=\"3\""));

    // the first page has no previous link, the last no next link
    let mut es2: Vec<AutoindexEntry> = Vec::new();
    for i in 0..3u64 {
        es2.push(entry(&format!("f{}", i), false, i, i, "01/01/1970 00:00:00"));
    }
    let first = generate_index("/home/a/www/d", None, es2, None, None, None, 2, 0);
    assert!(!first.contains("Prev. Page"));
    assert!(first.contains("Next Page"));
}

#[test]
fn out_of_range_page_clamps_to_last_entry() {
    let es = vec![
        entry("x", false, 2, 1, "01/01/1970 00:00:02"),
        entry("y", false, 1, 1, "01/01/1970 00:00:01"),
    ];
    let page = generate_index("/home/a/www/d", None, es, None, None, None, 10, 99);
    // the slice clamps to the final entry
    assert!(page.contains("<ol class=\"entries\" start=\"2\">"));
    assert!(page.contains(">y<br/>"));
    assert!(!page.contains(">x<br/>"));
}
