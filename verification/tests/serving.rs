use homepage_server::dispatch::{
    executable_headers, get_allowed_variables, plan_get, post_exec_path, reported_size,
    serve_file_plan, FileServePlan, GetPlan, PathProbe, ERROR_404, ERROR_500, ERROR_503,
};
use homepage_server::kvmap::{filter_env_variables, KvMap, StrSet};

fn kv(pairs: &[(&str, &str)]) -> KvMap {
    let mut m = KvMap::new();
    for (k, v) in pairs {
        m.insert(k.to_string(), v.to_string());
    }
    m
}

fn set(items: &[&str]) -> StrSet {
    let mut s = StrSet::new();
    for i in items {
        s.insert(i.to_string());
    }
    s
}

#[test]
fn get_of_directory_with_static_index_serves_it() {
    let probe = PathProbe {
        exists: true,
        is_dir: true,
        index_exec_is_file: false,
        index_html_is_file: true,
    };
    match plan_get("/home/alice/www", probe, &kv(&[])) {
        GetPlan::ServeFile { file_path } => {
            assert_eq!(file_path, "/home/alice/www/index.html")
        }
        _ => panic!("expected a file serve"),
    }
}

#[test]
fn executable_index_takes_precedence() {
    let probe = PathProbe {
        exists: true,
        is_dir: true,
        index_exec_is_file: true,
        index_html_is_file: true,
    };
    match plan_get("/home/alice/www", probe, &kv(&[])) {
        GetPlan::RunIndexExecutable { exec_path } => {
            assert_eq!(exec_path, "/home/alice/www/index_executable")
        }
        _ => panic!("expected the executable"),
    }
}

#[test]
fn plain_directory_gets_autoindex_with_query_paging() {
    let probe = PathProbe {
        exists: true,
        is_dir: true,
        index_exec_is_file: false,
        index_html_is_file: false,
    };
    match plan_get("/home/alice/www/blog", probe, &kv(&[("n", "5"), ("p", "2")])) {
        GetPlan::Autoindex { people, page_size, page_number } => {
            assert!(!people);
            assert_eq!(page_size, 5);
            assert_eq!(page_number, 1);
        }
        _ => panic!("expected an autoindex"),
    }
    let home_probe = PathProbe {
        exists: true,
        is_dir: true,
        index_exec_is_file: false,
        index_html_is_file: false,
    };
    match plan_get("/home", home_probe, &kv(&[])) {
        GetPlan::Autoindex { people, page_size, page_number } => {
            assert!(people);
            assert_eq!(page_size, 0);
            assert_eq!(page_number, 0);
        }
        _ => panic!("expected the people listing"),
    }
}

#[test]
fn page_query_edge_values() {
    let probe = PathProbe {
        exists: true,
        is_dir: true,
        index_exec_is_file: false,
        index_html_is_file: false,
    };
    // a one-based page of zero stays at the first page; junk sizes fall
    // back to the default of everything-on-one-page
    match plan_get("/home/a/www/d", probe, &kv(&[("p", "0"), ("n", "junk")])) {
        GetPlan::Autoindex { page_size, page_number, .. } => {
            assert_eq!(page_size, 0);
            assert_eq!(page_number, 0);
        }
        _ => panic!("expected an autoindex"),
    }
}

#[test]
fn missing_and_reserved_names_are_not_found() {
    let missing = PathProbe {
        exists: false,
        is_dir: false,
        index_exec_is_file: false,
        index_html_is_file: false,
    };
    assert!(matches!(
        plan_get("/home/bob/www/alice/secret", missing, &kv(&[])),
        GetPlan::NotFound
    ));
    let present = PathProbe {
        exists: true,
        is_dir: false,
        index_exec_is_file: false,
        index_html_is_file: false,
    };
    assert!(matches!(
        plan_get("/home/a/www/form_executable", present, &kv(&[])),
        GetPlan::NotFound
    ));
    let present2 = PathProbe {
        exists: true,
        is_dir: false,
        index_exec_is_file: false,
        index_html_is_file: false,
    };
    assert!(matches!(
        plan_get("/home/a/www/allowed_variables", present2, &kv(&[])),
        GetPlan::NotFound
    ));
}

#[test]
fn direct_file_request_is_served() {
    let probe = PathProbe {
        exists: true,
        is_dir: false,
        index_exec_is_file: false,
        index_html_is_file: false,
    };
    match plan_get("/home/a/www/page.html", probe, &kv(&[])) {
        GetPlan::ServeFile { file_path } => assert_eq!(file_path, "/home/a/www/page.html"),
        _ => panic!("expected a file serve"),
    }
}

#[test]
fn conditional_get_matches_exact_date_string() {
    let mtime: u64 = 784111777;
    let date = "Sun, 06 Nov 1994 08:49:37 GMT";
    let hit = kv(&[("if-modified-since", date)]);
    assert!(matches!(serve_file_plan(&hit, mtime), FileServePlan::NotModified));

    // a semantically equal but differently spelled date does not match
    let miss = kv(&[("if-modified-since", "Sunday, 06-Nov-94 08:49:37 GMT")]);
    match serve_file_plan(&miss, mtime) {
        FileServePlan::Serve { response_headers } => {
            assert_eq!(
                response_headers,
                vec![
                    format!("Last-Modified: {}", date),
                    String::from("Cache-Control: max-age=30"),
                ]
            );
        }
        _ => panic!("expected a serve"),
    }
}

#[test]
fn file_dates_match_the_httpdate_crate() {
    for secs in [0u64, 784111777, 1700000000] {
        let t = std::time::UNIX_EPOCH + std::time::Duration::from_secs(secs);
        let expected = format!("Last-Modified: {}", httpdate::fmt_http_date(t));
        match serve_file_plan(&kv(&[]), secs) {
            FileServePlan::Serve { response_headers } => {
                assert_eq!(response_headers[0], expected);
            }
            _ => panic!("expected a serve"),
        }
    }
}

#[test]
fn streamed_sizes_are_misreported_on_purpose() {
    assert_eq!(reported_size("/home/a/www/big.bin", 1048576), 1048576);
    assert_eq!(reported_size("/home/a/www/page.html", 5), u64::MAX);
}

#[test]
fn post_targets_form_executable() {
    assert_eq!(post_exec_path("/home/a/www/form"), "/home/a/www/form/form_executable");
    assert_eq!(
        post_exec_path("/home/a/www/form/form_executable"),
        "/home/a/www/form/form_executable"
    );
}

#[test]
fn env_filter_whitelists_and_drops_uppercase() {
    // body `name=joe&PATH=evil`, whitelist `name`, PATH already in the
    // server's environment
    let vars = kv(&[("name", "joe"), ("PATH", "evil")]);
    let allowed = get_allowed_variables("name\n");
    let defined = set(&["PATH", "HOME"]);
    let filtered = filter_env_variables(&vars, &allowed, &defined);
    assert_eq!(filtered.get("name").unwrap().as_str(), "joe");
    assert!(filtered.get("PATH").is_none());
    assert_eq!(filtered.num_pairs(), 1);
}

#[test]
fn env_filter_drops_unlisted_and_shadowing_keys() {
    let vars = kv(&[("name", "a"), ("other", "b"), ("home", "c"), ("MiXeD", "d")]);
    let allowed = get_allowed_variables(" name \nother\nhome\nMiXeD\n");
    let defined = set(&["home"]);
    let filtered = filter_env_variables(&vars, &allowed, &defined);
    assert_eq!(filtered.get("name").unwrap().as_str(), "a");
    assert_eq!(filtered.get("other").unwrap().as_str(), "b");
    assert!(filtered.get("home").is_none()); // already defined
    assert_eq!(filtered.get("MiXeD").unwrap().as_str(), "d"); // not its own uppercase
}

#[test]
fn allowed_variables_lines_are_trimmed() {
    let set = get_allowed_variables("  name\r\nother  \n\n");
    assert!(set.contains("name"));
    assert!(set.contains("other"));
    assert!(set.contains("")); // blank lines trim to the empty name
    assert!(!set.contains("missing"));
}

#[test]
fn error_pages_are_complete_documents() {
    assert!(ERROR_404.starts_with("<!DOCTYPE html>"));
    assert!(ERROR_404.contains("<title>Nothing</title>"));
    assert!(ERROR_404.contains("does not exist"));
    assert!(ERROR_500.contains("<title>Error</title>"));
    assert!(ERROR_503.contains("<title>Server Busy</title>"));
    assert!(ERROR_503.ends_with("</html>"));
}

#[test]
fn executable_responses_disable_caching() {
    assert_eq!(executable_headers(), vec![String::from("Cache-Control: no-cache")]);
}
