use static_dock::api::{api_info_body, qr_reply, QrReply};
use static_dock::config::{
    default_queue_size, is_benign_error, listen_port_candidates, parse_limited_usize, parse_port,
    worker_count_for, ArgFlag, ArgStep, ArgsError, ArgsParser, IoErrorKind,
};
use static_dock::escape::{json_escape, json_field, json_unescape, js_escape};
use static_dock::http::{
    head_progress, header_end, parse_request, request_error_message, response_head,
    HeadProgress, RequestError,
};
use static_dock::http_date::{civil_from_days, format_http_date};
use static_dock::listing::{
    api_list_body, api_list_path, directory_listing, sort_entries, ListEntry,
};
use static_dock::mime::{content_type, entry_kind, file_icon};
use static_dock::net::{
    get_lan_addresses, is_private_ipv4, is_special_ipv4, parse_address_lines, parse_hostname_output,
    parse_ipconfig_output,
};
use static_dock::paths::{display_path, session_dir, uploads_dir};
use static_dock::percent::{hex_value, percent_decode, percent_encode, query_percent_decode};
use static_dock::qr::{
    code_modules, qr_bmp, qr_bmp_from_modules, qr_code, qr_svg, qr_svg_from_modules,
};
use static_dock::range::{
    etag_matches, generate_etag, parse_range, plan_file_response, range_not_satisfiable,
    strip_weak_prefix, FileConditions,
};
use static_dock::request::{
    keep_alive_requested, normalize_request_target, request_path_part, resolve_request_path,
    route_request, Route,
};
use static_dock::serve::{static_next, static_start, StaticStep};
use static_dock::strmap::StrMap;
use static_dock::upload::{
    body_prefix_split, chunk_file_name, chunk_merge_order, chunk_prefix_split, chunk_request,
    content_length, expects_continue, format_upload_meta, json_error, meta_number, meta_text,
    parse_upload_meta, record_chunk, upload_chunk_response, upload_endpoint, upload_expired,
    upload_finish_response, upload_id, upload_init_meta, upload_init_response,
    upload_status_response, UploadEndpoint, UploadInitError,
};

fn entry(name: &str, is_file: bool, is_dir: bool, bytes: u64) -> ListEntry {
    ListEntry {
        name: name.to_string(),
        sort_key: name.as_bytes().to_vec(),
        is_file,
        is_dir,
        bytes,
        modified: 7,
        size_text: format!("{bytes} B"),
    }
}

// ---------------------------------------------------------------- escaping

#[test]
fn js_escape_quotes_backslashes_and_line_breaks() {
    assert_eq!(js_escape("a'b\\c\nd\re"), "a\\'b\\\\c\\nde");
}

#[test]
fn json_escape_writes_control_characters_as_unicode_escapes() {
    assert_eq!(json_escape("\u{1}\t\r"), "\\u0001\\t\\r");
    assert_eq!(json_escape("\u{7f}"), "\\u007f");
}

#[test]
fn json_escaped_text_has_no_control_characters() {
    let escaped = json_escape("a\u{0}b\u{1f}c\u{85}");
    assert!(!escaped.chars().any(|c| c.is_control()));
}

#[test]
fn html_escaping_can_be_undone() {
    for text in ["<a href=\"x\">&amp;</a>", "&lt;", "plain", "\"&<>\"", ""] {
        let escaped = static_dock::escape::html_escape(text);
        let back = escaped
            .replace("&lt;", "<")
            .replace("&gt;", ">")
            .replace("&quot;", "\"")
            .replace("&amp;", "&");
        assert_eq!(back, text);
    }
}

#[test]
fn html_escaped_text_has_no_markup_characters() {
    let escaped = static_dock::escape::html_escape("<script>alert(\"x\")</script>");
    assert!(!escaped.contains('<') && !escaped.contains('>') && !escaped.contains('"'));
}

#[test]
fn js_escaped_text_stays_on_one_line() {
    let escaped = js_escape("a\nb\r\nc");
    assert!(!escaped.contains('\n') && !escaped.contains('\r'));
}

#[test]
fn json_unescape_reverses_the_common_escapes() {
    assert_eq!(json_unescape("a\\\"b\\\\c\\nd\\te\\rf"), "a\"b\\c\nd\tef");
}

#[test]
fn json_field_reads_string_fields() {
    let body = "{\"path\":\"/docs\",\"filename\":\"a \\\"b\\\".txt\",\"size\":\"12\"}";
    assert_eq!(json_field(body, "path"), Some("/docs".to_string()));
    assert_eq!(json_field(body, "filename"), Some("a \\".to_string()));
    assert_eq!(json_field(body, "mime"), None);
}

// ---------------------------------------------------------------- percent coding

#[test]
fn percent_encode_keeps_unreserved_bytes_only() {
    assert_eq!(percent_encode("a b/ü"), "a%20b%2F%C3%BC");
    assert_eq!(percent_encode("A-z_0.9~"), "A-z_0.9~");
}

#[test]
fn percent_decode_reads_escapes_and_keeps_broken_ones() {
    assert_eq!(percent_decode("a%20b%2f"), "a b/");
    assert_eq!(percent_decode("%zz%4"), "%zz%4");
    assert_eq!(percent_decode("%C3%BC"), "ü");
    assert_eq!(percent_decode("%FF"), "\u{fffd}");
}

#[test]
fn percent_decode_inverts_percent_encode() {
    for text in ["", "plain", "a b&c=d", "目录/文件 1.txt", "%41"] {
        assert_eq!(percent_decode(&percent_encode(text)), text);
    }
}

#[test]
fn query_decoding_turns_plus_into_space() {
    assert_eq!(query_percent_decode("a+b%2B"), "a b+");
}

#[test]
fn hex_value_reads_both_cases() {
    assert_eq!(hex_value(b'7'), Some(7));
    assert_eq!(hex_value(b'a'), Some(10));
    assert_eq!(hex_value(b'F'), Some(15));
    assert_eq!(hex_value(b'g'), None);
}

// ---------------------------------------------------------------- request targets

#[test]
fn request_path_part_handles_absolute_targets() {
    assert_eq!(request_path_part("/a/b?x=1"), Some("/a/b".to_string()));
    assert_eq!(request_path_part("HTTPS://host"), Some("/".to_string()));
    assert_eq!(request_path_part("http://host/x/y?z"), Some("/x/y".to_string()));
    assert_eq!(request_path_part("ftp://host/x"), None);
}

#[test]
fn normalize_request_target_keeps_the_query() {
    assert_eq!(normalize_request_target("http://h/a?b=1"), "/a?b=1");
    assert_eq!(normalize_request_target("/plain"), "/plain");
}

#[test]
fn resolved_paths_stay_under_the_root() {
    assert_eq!(resolve_request_path("/srv", "/a/./b/"), Some("/srv/a/b".to_string()));
    assert_eq!(resolve_request_path("/srv", "/a%2F..%2Fb"), None);
    assert_eq!(resolve_request_path("/srv", "/a\\..\\b"), None);
    for target in ["/x/y", "/%2e%2e", "/a/../b", "/.%2e/c"] {
        if let Some(p) = resolve_request_path("/srv", target) {
            assert!(p.starts_with("/srv"));
        }
    }
}

#[test]
fn keep_alive_follows_the_connection_header() {
    assert!(keep_alive_requested(None));
    assert!(keep_alive_requested(Some("keep-alive")));
    assert!(!keep_alive_requested(Some("Close")));
}

#[test]
fn routes_follow_method_and_prefix() {
    assert_eq!(route_request("OPTIONS", "/x", true), Route::Options);
    assert_eq!(route_request("POST", "/__staticdock/api/upload/init", true), Route::Upload);
    assert_eq!(
        route_request("POST", "/__staticdock/api/upload/init", false),
        Route::UploadsDisabled
    );
    assert_eq!(route_request("POST", "/x", true), Route::MethodNotAllowed);
    assert_eq!(route_request("GET", "/__staticdock/api/list?path=/", true), Route::ApiList);
    assert_eq!(route_request("HEAD", "/__staticdock/api/info", true), Route::ApiInfo);
    assert_eq!(route_request("GET", "/__staticdock/api/qr?text=a", true), Route::ApiQr);
    assert_eq!(route_request("GET", "/index.html", true), Route::Static);
}

// ---------------------------------------------------------------- ranges and tags

#[test]
fn range_errors_carry_the_file_length() {
    match parse_range("bytes=20-30", 10) {
        Some(Err(e)) => assert_eq!(e.file_len, 10),
        _ => panic!("expected an unsatisfiable range"),
    }
    assert_eq!(
        range_not_satisfiable(10).message(),
        "range not satisfiable for file length 10"
    );
    assert!(parse_range("bytes=-0", 10).unwrap().is_err());
    assert_eq!(parse_range(" bytes=2-100 ", 10).unwrap().unwrap(), (2, 9));
    assert!(parse_range("bytes=a-3", 10).is_none());
}

#[test]
fn etags_hash_size_and_time() {
    assert_eq!(generate_etag(0, 0), "W/\"88201fb960ff6465\"");
    assert_eq!(generate_etag(1024, 1700000000), "W/\"0fac941d3e3bd8b6\"");
}

#[test]
fn etags_match_weakly_and_in_lists() {
    let tag = generate_etag(5, 6);
    assert!(etag_matches(&tag, &tag));
    assert!(etag_matches(&strip_weak_prefix(&tag), &tag));
    assert!(etag_matches("*", &tag));
    assert!(etag_matches(&format!("\"x\", {tag}"), &tag));
    assert!(!etag_matches("\"other\"", &tag));
    assert_eq!(strip_weak_prefix("W/\"a\""), "\"a\"");
    assert_eq!(strip_weak_prefix("\"a\""), "\"a\"");
}

fn conditions(inm: Option<&str>, range: Option<&str>, if_range: Option<&str>) -> FileConditions {
    FileConditions {
        if_none_match: inm.map(str::to_string),
        range: range.map(str::to_string),
        if_range: if_range.map(str::to_string),
    }
}

#[test]
fn file_plans_follow_conditional_and_range_headers() {
    let tag = generate_etag(10, 1);
    let lm = Some("Thu, 01 Jan 1970 00:00:01 GMT".to_string());
    let full = plan_file_response(10, "text/plain", &lm, &tag, &conditions(None, None, None));
    assert_eq!((full.status, full.start, full.body_len), (200, 0, 10));
    assert_eq!(full.headers[1], ("Content-Length".to_string(), "10".to_string()));

    let cached = plan_file_response(10, "text/plain", &lm, &tag, &conditions(Some(&tag), Some("bytes=0-1"), None));
    assert_eq!((cached.status, cached.body_len), (304, 0));
    assert_eq!(cached.reason, "Not Modified");

    let part = plan_file_response(10, "text/plain", &lm, &tag, &conditions(None, Some("bytes=2-4"), None));
    assert_eq!((part.status, part.start, part.body_len), (206, 2, 3));
    assert!(part.headers.contains(&("Content-Range".to_string(), "bytes 2-4/10".to_string())));

    let stale = plan_file_response(10, "text/plain", &lm, &tag, &conditions(None, Some("bytes=2-4"), Some("\"old\"")));
    assert_eq!(stale.status, 200);

    let bad = plan_file_response(10, "text/plain", &lm, &tag, &conditions(None, Some("bytes=20-"), None));
    assert_eq!((bad.status, bad.body_len), (416, 0));
    assert!(bad.headers.contains(&("Content-Range".to_string(), "bytes */10".to_string())));

    let empty = plan_file_response(0, "text/plain", &None, "", &conditions(None, Some("bytes=0-"), None));
    assert_eq!(empty.status, 416);
}

// ---------------------------------------------------------------- options

#[test]
fn ports_and_counts_are_checked() {
    assert_eq!(parse_port("8080").unwrap(), 8080);
    assert!(matches!(parse_port("70000"), Err(ArgsError::InvalidPort(_))));
    assert_eq!(parse_limited_usize("12", "workers", 256).unwrap(), 12);
    let zero = parse_limited_usize("0", "workers", 256).unwrap_err();
    assert_eq!(zero.message(), "workers must be greater than zero");
    let large = parse_limited_usize("300", "workers", 256).unwrap_err();
    assert_eq!(large.message(), "workers must be less than or equal to 256");
    let bad = parse_limited_usize("x", "queue", 4096).unwrap_err();
    assert_eq!(bad.message(), "invalid queue: x");
    assert_eq!(ArgsError::InvalidBind("q".to_string()).message(), "invalid bind address: q");
}

#[test]
fn an_option_without_its_value_is_refused() {
    let mut parser = ArgsParser::new(64);
    assert!(matches!(parser.feed("--port"), ArgStep::Continue));
    let err = parser.finish().unwrap_err();
    assert!(matches!(err, ArgsError::MissingValue(ArgFlag::Port)));
    assert_eq!(err.message(), "missing value for --port");
}

#[test]
fn help_and_bad_values_stop_the_parser() {
    let mut parser = ArgsParser::new(64);
    assert!(matches!(parser.feed("-h"), ArgStep::Help));
    let mut parser = ArgsParser::new(64);
    assert!(matches!(parser.feed("--workers=0"), ArgStep::Failed(ArgsError::Zero(_))));
}

#[test]
fn default_sizes_follow_the_processor_count() {
    assert_eq!(worker_count_for(1), 64);
    assert_eq!(worker_count_for(6), 96);
    assert_eq!(worker_count_for(64), 128);
    assert_eq!(default_queue_size(4), 256);
    assert_eq!(default_queue_size(128), 2048);
    assert_eq!(default_queue_size(1000), 4096);
    let config = ArgsParser::new(100).finish().unwrap();
    assert_eq!((config.workers, config.queue_size, config.port), (100, 1600, 8787));
    assert!(config.uploads_enabled && config.root.is_none() && config.bind == "0.0.0.0");
}

#[test]
fn listener_ports_come_once_each_preferred_first() {
    assert_eq!(
        listen_port_candidates(8080),
        vec![8080, 8787, 8000, 8010, 8020, 3000, 5173, 9000]
    );
    assert_eq!(listen_port_candidates(1234)[0], 1234);
    assert_eq!(listen_port_candidates(1234).len(), 9);
}

#[test]
fn benign_errors_are_the_clients_doing() {
    assert!(is_benign_error(IoErrorKind::BrokenPipe));
    assert!(is_benign_error(IoErrorKind::WouldBlock));
    assert!(!is_benign_error(IoErrorKind::Other));
}

// ---------------------------------------------------------------- file kinds

#[test]
fn kinds_icons_and_content_types_follow_extensions() {
    assert_eq!(entry_kind("Photo.PNG", false), "image");
    assert_eq!(entry_kind("clip.mkv", false), "video");
    assert_eq!(entry_kind("a.tar", false), "archive");
    assert_eq!(entry_kind(".bashrc", false), "file");
    assert_eq!(entry_kind("x.json", true), "dir");
    assert_eq!(file_icon("dir"), "📁");
    assert_eq!(file_icon("unknown"), "📄");
    assert_eq!(content_type("index.HTML"), "text/html; charset=utf-8");
    assert_eq!(content_type("movie.mp4"), "video/mp4");
    assert_eq!(content_type("noext"), "application/octet-stream");
}

// ---------------------------------------------------------------- dates

#[test]
fn civil_dates_from_day_numbers() {
    assert_eq!(civil_from_days(0), (1970, 1, 1));
    assert_eq!(civil_from_days(19723), (2024, 1, 1));
    assert_eq!(civil_from_days(-1), (1969, 12, 31));
    assert_eq!(civil_from_days(11016), (2000, 2, 29));
}

fn is_leap(y: i64) -> bool {
    y % 4 == 0 && (y % 100 != 0 || y % 400 == 0)
}

fn days_in(y: i64, m: u32) -> u32 {
    match m {
        2 => {
            if is_leap(y) {
                29
            } else {
                28
            }
        }
        4 | 6 | 9 | 11 => 30,
        _ => 31,
    }
}

#[test]
fn civil_dates_follow_the_calendar() {
    assert_eq!(civil_from_days(11015), (2000, 2, 28));
    assert_eq!(civil_from_days(11017), (2000, 3, 1));
    assert_eq!(civil_from_days(-25508), (1900, 3, 1));
    assert_eq!(civil_from_days(-25509), (1900, 2, 28));
    let mut prev = civil_from_days(-800_000);
    for d in -799_999i64..800_000 {
        let (y, m, dd) = prev;
        let expected = if dd < days_in(y as i64, m) {
            (y, m, dd + 1)
        } else if m < 12 {
            (y, m + 1, 1)
        } else {
            (y + 1, 1, 1)
        };
        let next = civil_from_days(d);
        assert_eq!(next, expected);
        prev = next;
    }
}

#[test]
fn civil_dates_far_from_the_epoch() {
    let (_, m, d) = civil_from_days(i64::MIN);
    assert!((1..=12).contains(&m) && (1..=31).contains(&d));
    let (_, m, d) = civil_from_days(i64::MAX - 719_468);
    assert!((1..=12).contains(&m) && (1..=31).contains(&d));
}

#[test]
fn http_dates_are_imf_fixdate() {
    assert_eq!(format_http_date(Some(951782400)).unwrap(), "Tue, 29 Feb 2000 00:00:00 GMT");
    assert_eq!(format_http_date(Some(1700000000)).unwrap(), "Tue, 14 Nov 2023 22:13:20 GMT");
    assert_eq!(format_http_date(None), None);
}

// ---------------------------------------------------------------- addresses

#[test]
fn ipv4_classes() {
    assert!(is_special_ipv4("198.18.0.1"));
    assert!(is_special_ipv4("224.0.0.1"));
    assert!(is_special_ipv4("not an address"));
    assert!(is_private_ipv4("10.1.2.3"));
    assert!(is_private_ipv4("172.20.0.1"));
    assert!(!is_private_ipv4("172.32.0.1"));
    assert!(is_private_ipv4("192.168.0.9"));
    assert!(!is_private_ipv4("8.8.8.8"));
}

#[test]
fn ipconfig_output_gives_usable_addresses_once_private_first() {
    let text = "Windows IP Configuration\r\n\r\nEthernet adapter Zeta:\r\n\r\n   IPv4 Address. . . : 8.8.4.4\r\n\r\nWireless LAN adapter Wi-Fi:\r\n   IPv4 Address. . . . . . . . . . . : 192.168.1.20\r\n   IPv4 Address. . . : 192.168.1.20\r\n   IPv4 Address. . . : 127.0.0.1\r\n";
    let found = parse_ipconfig_output(Some(text.as_bytes()));
    assert_eq!(
        found,
        vec![
            ("192.168.1.20".to_string(), "Wireless LAN adapter Wi-Fi".to_string()),
            ("8.8.4.4".to_string(), "network".to_string()),
        ]
    );
    assert!(parse_ipconfig_output(None).is_empty());
}

#[test]
fn address_lines_and_hostname_output() {
    let lines = " 10.0.0.2 | eth0 \n10.0.0.2|dup\nno bar\n|empty\n";
    assert_eq!(
        parse_address_lines(Some(lines.as_bytes())),
        vec![("10.0.0.2".to_string(), "eth0".to_string())]
    );
    assert_eq!(
        parse_hostname_output(b"192.168.0.5 127.0.1.1 169.254.3.3 10.1.1.1\n"),
        vec![
            ("192.168.0.5".to_string(), "network".to_string()),
            ("10.1.1.1".to_string(), "network".to_string()),
        ]
    );
}

#[test]
fn the_default_route_is_shown_only_when_the_scan_finds_nothing() {
    let found = vec![("10.0.0.3".to_string(), "eth0".to_string())];
    assert_eq!(get_lan_addresses(found.clone(), Some("192.168.1.2".to_string())), found);
    assert_eq!(
        get_lan_addresses(vec![], Some("192.168.1.2".to_string())),
        vec![("192.168.1.2".to_string(), "default route".to_string())]
    );
    assert!(get_lan_addresses(vec![], Some("127.0.0.1".to_string())).is_empty());
    assert!(get_lan_addresses(vec![], None).is_empty());
}

#[test]
fn chunk_names_sort_in_offset_order() {
    let mut names: Vec<String> = [7u64, 0, 12, 999_999, 100_000]
        .iter()
        .map(|i| chunk_file_name(i * 1048576))
        .collect();
    names.sort();
    assert_eq!(
        names,
        vec!["chunk-000000", "chunk-000007", "chunk-000012", "chunk-100000", "chunk-999999"]
    );
}

// ---------------------------------------------------------------- maps and heads

#[test]
fn strmap_gives_back_what_was_set() {
    let mut m = StrMap::new();
    m.insert("a", "1");
    m.insert("b", "2");
    m.insert("a", "3");
    assert_eq!(m.get("a"), Some("3".to_string()));
    assert_eq!(m.get("b"), Some("2".to_string()));
    assert_eq!(m.get("c"), None);
    assert_eq!(
        m.pairs(),
        vec![("a".to_string(), "3".to_string()), ("b".to_string(), "2".to_string())]
    );
}

#[test]
fn request_heads_are_found_and_read() {
    let raw = b"get /a?b HTTP/1.1\r\nHost: x\r\nX-Upload-Id:  abc \r\nbad line\r\n\r\nbody";
    assert_eq!(header_end(raw), Some(56));
    assert_eq!(header_end(b"GET / HTTP/1.1\r\n"), None);
    let req = parse_request(raw).ok().unwrap();
    assert_eq!(req.method, "GET");
    assert_eq!(req.target, "/a?b");
    assert_eq!(req.header("x-upload-id"), Some("abc".to_string()));
    assert_eq!(req.header("host"), Some("x".to_string()));
    assert_eq!(req.body_prefix, b"body".to_vec());
    assert!(matches!(parse_request(b"GET / HTTP/1.1"), Err(RequestError::BadHeader)));
    assert!(matches!(parse_request(b"\r\n\r\n"), Err(RequestError::MissingMethod)));
    assert!(matches!(parse_request(b"GET\r\n\r\n"), Err(RequestError::MissingTarget)));
    assert_eq!(request_error_message(RequestError::MissingTarget), "missing target");
}

#[test]
fn head_progress_stops_at_the_blank_line_or_the_limit() {
    assert_eq!(head_progress(b"GET / HTTP/1.1\r\n"), HeadProgress::NeedMore);
    assert_eq!(head_progress(b"GET / HTTP/1.1\r\n\r\n"), HeadProgress::Complete);
    assert_eq!(head_progress(&vec![b'a'; 65537]), HeadProgress::TooLarge);
}

#[test]
fn response_heads_carry_the_fixed_headers() {
    let headers = vec![("Content-Length".to_string(), "0".to_string())];
    let head = response_head(204, "No Content", &headers, false, false);
    assert_eq!(
        head,
        "HTTP/1.1 204 No Content\r\nServer: StaticDock/1.0\r\nConnection: close\r\nAccess-Control-Allow-Origin: *\r\nAccess-Control-Allow-Methods: GET, HEAD, OPTIONS\r\nAccess-Control-Allow-Headers: Origin, X-Requested-With, Content-Type, Accept, Range, If-Range, If-None-Match, X-Upload-Id, X-Chunk-Offset\r\nAccept-Ranges: bytes\r\nContent-Length: 0\r\n\r\n"
    );
    assert!(response_head(200, "OK", &vec![], true, true).contains("Connection: keep-alive\r\n"));
}

// ---------------------------------------------------------------- paths

#[test]
fn display_and_upload_paths() {
    assert_eq!(display_path("\\\\?\\C:\\data"), "C:\\data");
    assert_eq!(display_path("/srv"), "/srv");
    assert_eq!(uploads_dir("/srv"), "/srv/.staticdock-uploads");
    assert_eq!(uploads_dir("/srv/"), "/srv/.staticdock-uploads");
    assert_eq!(session_dir("/srv", "abc"), "/srv/.staticdock-uploads/abc");
}

// ---------------------------------------------------------------- uploads

#[test]
fn upload_endpoints_and_headers() {
    assert_eq!(upload_endpoint("/__staticdock/api/upload/init"), UploadEndpoint::Init);
    assert_eq!(upload_endpoint("/__staticdock/api/upload/chunk"), UploadEndpoint::Chunk);
    assert_eq!(upload_endpoint("/__staticdock/api/upload/finish"), UploadEndpoint::Finish);
    assert_eq!(upload_endpoint("/__staticdock/api/upload/status?id=1"), UploadEndpoint::Status);
    assert_eq!(upload_endpoint("/__staticdock/api/upload/cancel"), UploadEndpoint::Cancel);
    assert_eq!(upload_endpoint("/__staticdock/api/upload/other"), UploadEndpoint::Unknown);
    assert!(expects_continue(Some("100-Continue")));
    assert!(!expects_continue(None));
    assert_eq!(content_length(Some("42")), 42);
    assert_eq!(content_length(Some("x")), 0);
    assert_eq!(content_length(None), 0);
}

#[test]
fn body_prefixes_are_split_as_the_body_needs() {
    assert_eq!(body_prefix_split(10, 4), (4, 0));
    assert_eq!(body_prefix_split(3, 10), (3, 7));
    assert_eq!(chunk_prefix_split(3, 10), (3, 7));
    assert_eq!(chunk_prefix_split(12, 10), (0, 0));
}

#[test]
fn chunk_requests_need_an_id() {
    assert_eq!(chunk_request(Some(" abc "), Some(" 2097152 ")), Some(("abc".to_string(), 2097152)));
    assert_eq!(chunk_request(Some("abc"), Some("x")), Some(("abc".to_string(), 0)));
    assert_eq!(chunk_request(None, Some("1")), None);
}

#[test]
fn upload_init_validates_name_and_folder() {
    let body = b"{\"path\":\"/docs\",\"filename\":\"a.txt\",\"size\":\"5\",\"mime\":\"text/plain\"}";
    let meta = upload_init_meta(body, "/srv", "id1", 1000).ok().unwrap();
    assert_eq!(meta.get("filename"), Some("a.txt".to_string()));
    assert_eq!(meta.get("target_dir"), Some("/srv/docs".to_string()));
    assert_eq!(meta.get("received_bytes"), Some("0".to_string()));
    assert_eq!(meta.get("created_at"), Some("1000".to_string()));
    assert_eq!(meta.get("id"), Some("id1".to_string()));
    assert_eq!(meta_number(&meta, "size"), 5);
    assert_eq!(meta_text(&meta, "mime"), "text/plain");

    let no_path = upload_init_meta(b"{\"filename\":\"b\"}", "/srv", "id2", 0).ok().unwrap();
    assert_eq!(no_path.get("target_dir"), Some("/srv".to_string()));

    for bad in ["", "../x", "a/b", "a\\\\b"] {
        let body = format!("{{\"filename\":\"{bad}\"}}");
        assert!(matches!(
            upload_init_meta(body.as_bytes(), "/srv", "id", 0),
            Err(UploadInitError::InvalidFilename)
        ));
    }
    assert!(matches!(
        upload_init_meta(b"{\"filename\":\"a\",\"path\":\"/../etc\"}", "/srv", "id", 0),
        Err(UploadInitError::PathNotAllowed)
    ));
}

#[test]
fn upload_metadata_reads_back_what_was_written() {
    let mut meta = StrMap::new();
    meta.insert("id", "abc");
    meta.insert("filename", "movie 1.mp4");
    meta.insert("received_bytes", "0");
    let text = format_upload_meta(&meta);
    assert_eq!(
        text,
        "{\"id\":\"abc\",\"filename\":\"movie 1.mp4\",\"received_bytes\":\"0\"}"
    );
    let back = parse_upload_meta(&text);
    assert_eq!(back.pairs(), meta.pairs());
    assert_eq!(parse_upload_meta("{}").pairs(), vec![]);
}

#[test]
fn chunks_are_named_and_merged_in_offset_order() {
    assert_eq!(chunk_file_name(0), "chunk-000000");
    assert_eq!(chunk_file_name(3 * 1048576 + 5), "chunk-000003");
    let files = vec![
        ("chunk-000002".to_string(), b"chunk-000002".to_vec()),
        ("meta.json".to_string(), b"meta.json".to_vec()),
        ("chunk-000000".to_string(), b"chunk-000000".to_vec()),
        ("chunk-000001".to_string(), b"chunk-000001".to_vec()),
    ];
    let names: Vec<String> = chunk_merge_order(files).into_iter().map(|f| f.0).collect();
    assert_eq!(names, vec!["chunk-000000", "chunk-000001", "chunk-000002"]);
}

#[test]
fn chunks_add_to_the_bytes_received_and_sessions_expire() {
    let mut meta = StrMap::new();
    meta.insert("received_bytes", "10");
    meta.insert("created_at", "100");
    record_chunk(&mut meta, 5);
    assert_eq!(meta.get("received_bytes"), Some("15".to_string()));
    assert!(!upload_expired(100 + 86400, &meta));
    assert!(upload_expired(100 + 86401, &meta));
    assert!(!upload_expired(50, &meta));
}

#[test]
fn upload_ids_join_time_and_thread() {
    assert_eq!(upload_id(0x1234, "ThreadId(7)"), "00000000000012347");
    assert_eq!(
        upload_id(0x17a2_b3c4_d5e6_f708_1920, "ThreadId(123456789012345678)"),
        "17a2b3c4d5e6f7081920123456789012"
    );
}

#[test]
fn upload_answers() {
    assert_eq!(upload_init_response("a\"b"), "{\"id\":\"a\\\"b\",\"chunk_size\":1048576}");
    assert_eq!(upload_chunk_response(0, 12), "{\"ok\":true,\"offset\":0,\"written\":12}");
    assert_eq!(upload_finish_response("f.txt", 3), "{\"ok\":true,\"filename\":\"f.txt\",\"bytes\":3}");
    let mut meta = StrMap::new();
    meta.insert("filename", "f");
    meta.insert("received_bytes", "4");
    meta.insert("size", "bad");
    assert_eq!(
        upload_status_response("x", &meta),
        "{\"id\":\"x\",\"filename\":\"f\",\"received_bytes\":4,\"total_size\":0}"
    );
    assert_eq!(json_error("no \"way\""), "{\"error\":\"no \\\"way\\\"\"}");
}

// ---------------------------------------------------------------- listings

#[test]
fn listings_put_folders_first_then_names_by_bytes() {
    let sorted = sort_entries(vec![
        entry("b.txt", true, false, 1),
        entry("Zed", false, true, 0),
        entry("a.txt", true, false, 2),
        entry("link", false, false, 0),
    ]);
    let names: Vec<&str> = sorted.iter().map(|e| e.name.as_str()).collect();
    assert_eq!(names, vec!["Zed", "link", "a.txt", "b.txt"]);
}

#[test]
fn api_listing_body() {
    assert_eq!(api_list_path("/__staticdock/api/list?path=docs"), "/docs");
    assert_eq!(api_list_path("/__staticdock/api/list"), "/");
    let body = api_list_body(
        "/docs",
        vec![entry("b c.png", true, false, 3), entry("sub", false, true, 0)],
    );
    assert_eq!(
        body,
        "{\"path\":\"/docs\",\"entries\":[{\"name\":\"sub\",\"url\":\"/docs/sub/\",\"kind\":\"dir\",\"bytes\":0,\"modified\":7},{\"name\":\"b c.png\",\"url\":\"/docs/b%20c.png\",\"kind\":\"image\",\"bytes\":3,\"modified\":7}]}"
    );
    assert_eq!(api_list_body("/", vec![]), "{\"path\":\"/\",\"entries\":[]}");
}

#[test]
fn html_listing() {
    let empty = directory_listing("/docs/?x=1", vec![]);
    assert!(empty.contains("<div class=\"path\">/docs</div>"));
    assert!(empty.contains("这个目录是空的。"));
    let page = directory_listing("/", vec![entry("it's.mp4", true, false, 9)]);
    assert!(page.contains("showCtx(event,'/it%27s.mp4')"));
    assert!(page.contains("<video muted preload=\"metadata\" src=\"/it%27s.mp4#t=0.1\"></video>"));
    assert!(page.contains("<div class=\"name\">it's.mp4</div>"));
    assert!(page.contains("<div class=\"sub\">video · 9 B</div>"));
    assert!(page.ends_with("</html>"));
}

// ---------------------------------------------------------------- API answers and QR codes

#[test]
fn info_body_names_the_root() {
    assert_eq!(api_info_body("/srv/\"x\""), "{\"name\":\"StaticDock\",\"root\":\"/srv/\\\"x\\\"\"}");
}

#[test]
fn qr_svg_of_a_small_grid() {
    let grid = vec![vec![true, false], vec![false, true]];
    assert_eq!(
        qr_svg_from_modules(&grid),
        "<svg xmlns=\"http://www.w3.org/2000/svg\" viewBox=\"0 0 10 10\" shape-rendering=\"crispEdges\"><rect width=\"100%\" height=\"100%\" fill=\"#fff\"/><path fill=\"#111827\" d=\"M4 4h1v1h-1zM5 5h1v1h-1z\"/></svg>"
    );
}

#[test]
fn qr_bmp_of_a_small_grid() {
    let bmp = qr_bmp_from_modules(&vec![vec![true]]);
    let pixels = 72usize;
    let stride = 216usize;
    assert_eq!(bmp.len(), 54 + stride * pixels);
    assert_eq!(&bmp[0..2], b"BM");
    assert_eq!(u32::from_le_bytes([bmp[2], bmp[3], bmp[4], bmp[5]]) as usize, bmp.len());
    assert_eq!(i32::from_le_bytes([bmp[18], bmp[19], bmp[20], bmp[21]]), 72);
    assert_eq!(u32::from_le_bytes([bmp[34], bmp[35], bmp[36], bmp[37]]) as usize, bmp.len() - 54);
    // The dark module covers pixels 32..40 of rows 32..40 (counted from the top).
    let at = |x: usize, y_from_top: usize| {
        let row = pixels - 1 - y_from_top;
        let i = 54 + row * stride + x * 3;
        [bmp[i], bmp[i + 1], bmp[i + 2]]
    };
    assert_eq!(at(35, 35), [0x27, 0x1f, 0x11]);
    assert_eq!(at(31, 35), [0xff, 0xff, 0xff]);
    assert_eq!(at(35, 40), [0xff, 0xff, 0xff]);
}

#[test]
fn qr_codes_follow_qrcodegen() {
    let code = qr_code("hello").unwrap();
    let grid = code_modules(&code);
    assert_eq!(grid.len() as i32, code.size());
    assert_eq!(grid.len(), 21);
    for (y, row) in grid.iter().enumerate() {
        assert_eq!(row.len(), grid.len());
        for (x, dark) in row.iter().enumerate() {
            assert_eq!(*dark, code.get_module(x as i32, y as i32));
        }
    }
    assert_eq!(qr_svg("hello").unwrap(), qr_svg_from_modules(&grid));
    assert_eq!(qr_bmp("hello").unwrap(), qr_bmp_from_modules(&grid));
    let long = "a".repeat(513);
    assert!(qr_code(&long).is_none());
    assert!(qr_svg(&long).is_none() && qr_bmp(&long).is_none());
    assert!(qr_code(&"a".repeat(512)).is_some());
}

#[test]
fn qr_bmp_header_of_a_real_code() {
    let n = qr_code("hello").unwrap().size();
    let bmp = qr_bmp("hello").unwrap();
    let p = (n + 8) * 8;
    assert_eq!(&bmp[0..2], b"BM");
    assert_eq!(u32::from_le_bytes([bmp[2], bmp[3], bmp[4], bmp[5]]) as usize, bmp.len());
    assert_eq!(u32::from_le_bytes([bmp[10], bmp[11], bmp[12], bmp[13]]), 54);
    assert_eq!(i32::from_le_bytes([bmp[18], bmp[19], bmp[20], bmp[21]]), p);
    assert_eq!(i32::from_le_bytes([bmp[22], bmp[23], bmp[24], bmp[25]]), p);
    assert_eq!(u16::from_le_bytes([bmp[28], bmp[29]]), 24);
    let p = p as usize;
    assert_eq!(bmp.len(), 54 + (3 * p + 3) / 4 * 4 * p);
}

#[test]
fn qr_replies() {
    match qr_reply("/__staticdock/api/qr?text=hi&format=bmp") {
        QrReply::Bmp(b) => assert_eq!(&b[0..2], b"BM"),
        _ => panic!("expected a BMP"),
    }
    let svg = qr_reply("/__staticdock/api/qr");
    assert_eq!(svg.head(), (200, "OK", "image/svg+xml; charset=utf-8"));
    assert_eq!(svg.body(), qr_svg("/").unwrap().into_bytes());
    let long = format!("/__staticdock/api/qr?text={}", "b".repeat(600));
    let too_long = qr_reply(&long);
    assert_eq!(too_long.head(), (400, "Bad Request", "text/plain; charset=utf-8"));
    assert_eq!(too_long.body(), b"QR text is too long.".to_vec());
}

// ---------------------------------------------------------------- static paths

fn run_static(resolved: bool, answers: &[bool], listing_only: bool) -> StaticStep {
    let mut step = static_start(resolved);
    for yes in answers {
        step = static_next(step, *yes, listing_only);
    }
    step
}

#[test]
fn static_paths_are_checked_in_order() {
    assert_eq!(run_static(false, &[], false), StaticStep::Forbidden);
    assert_eq!(run_static(true, &[false], false), StaticStep::NotFound);
    assert_eq!(run_static(true, &[true, false], false), StaticStep::Forbidden);
    assert_eq!(run_static(true, &[true, true, true, true], false), StaticStep::ServeIndex);
    assert_eq!(run_static(true, &[true, true, true, false], false), StaticStep::Listing);
    assert_eq!(run_static(true, &[true, true, false, true], false), StaticStep::ServeFile);
    assert_eq!(run_static(true, &[true, true, false, false], false), StaticStep::NotFound);
    assert_eq!(run_static(true, &[true, true, true], true), StaticStep::Listing);
    assert_eq!(run_static(true, &[true, true, false], true), StaticStep::NotFound);
    assert_eq!(run_static(true, &[false, true, true, true], false), StaticStep::NotFound);
}
