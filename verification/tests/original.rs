use std::path::Path;

use static_dock::config::{allow_methods_header, cors_methods, ArgStep, ArgsParser};
use static_dock::escape::{html_escape, json_escape};
use static_dock::http_date::format_http_date;
use static_dock::net::is_special_ipv4;
use static_dock::range::parse_range;
use static_dock::request::{query_param, resolve_request_path};

#[test]
fn parse_range_supports_common_forms() {
    assert_eq!(parse_range("bytes=0-4", 10).unwrap().unwrap(), (0, 4));
    assert_eq!(parse_range("bytes=5-", 10).unwrap().unwrap(), (5, 9));
    assert_eq!(parse_range("bytes=-3", 10).unwrap().unwrap(), (7, 9));
    assert!(parse_range("bytes=20-30", 10).unwrap().is_err());
    assert!(parse_range("bytes=0-1,4-5", 10).is_none());
    assert!(parse_range("items=0-1", 10).is_none());
    assert!(parse_range("bytes=0-1", 0).unwrap().is_err());
}

#[test]
fn request_paths_reject_traversal_and_support_absolute_form() {
    let root = "/root";
    assert_eq!(
        Path::new(&resolve_request_path(root, "/a/b.txt").unwrap()),
        Path::new("/root/a/b.txt")
    );
    assert_eq!(
        Path::new(&resolve_request_path(root, "http://example.test/a/b.txt?x=1").unwrap()),
        Path::new("/root/a/b.txt")
    );
    assert!(resolve_request_path(root, "/../secret").is_none());
    assert!(resolve_request_path(root, "ftp://example.test/a").is_none());
}

#[test]
fn query_decoding_uses_form_plus_semantics() {
    assert_eq!(
        query_param("/__staticdock/api/list?path=/a+b", "path"),
        Some("/a b".to_string())
    );
    assert_eq!(
        query_param("/__staticdock/api/list?path=/a%2Bb", "path"),
        Some("/a+b".to_string())
    );
}

#[test]
fn escaping_helpers_escape_special_characters() {
    assert_eq!(json_escape("a\\\"\n"), "a\\\\\\\"\\n");
    assert_eq!(html_escape("<a&b>\""), "&lt;a&amp;b&gt;&quot;");
}

#[test]
fn http_date_formats_unix_epoch() {
    assert_eq!(
        format_http_date(Some(0)).unwrap(),
        "Thu, 01 Jan 1970 00:00:00 GMT"
    );
}

#[test]
fn special_ipv4_detection() {
    assert!(is_special_ipv4("127.0.0.1"));
    assert!(is_special_ipv4("169.254.1.1"));
    assert!(!is_special_ipv4("192.168.1.10"));
}

fn parse_all(args: &[&str]) -> static_dock::config::Config {
    let mut parser = ArgsParser::new(64);
    for arg in args {
        match parser.feed(arg) {
            ArgStep::Continue => {}
            ArgStep::CheckBind(value) => {
                assert!(value == "127.0.0.1" || value == "0.0.0.0");
            }
            ArgStep::Help => panic!("help was not asked for"),
            ArgStep::Failed(e) => panic!("{}", e.message()),
        }
    }
    parser.finish().unwrap()
}

#[test]
fn parse_args_supports_bind_and_upload_controls() {
    let config = parse_all(&[
        "--bind",
        "127.0.0.1",
        "--no-upload",
        "--port=9090",
        "--queue",
        "512",
        "C:/tmp/staticdock-root",
    ]);
    assert_eq!(config.bind, "127.0.0.1");
    assert!(!config.uploads_enabled);
    assert_eq!(config.port, 9090);
    assert_eq!(config.queue_size, 512);
    assert_eq!(config.root, Some("C:/tmp/staticdock-root".to_string()));

    let config = parse_all(&["--no-upload", "--uploads", "--bind=0.0.0.0"]);
    assert_eq!(config.bind, "0.0.0.0");
    assert!(config.uploads_enabled);
}

#[test]
fn allow_methods_reflect_upload_setting() {
    assert_eq!(allow_methods_header(true).1, "GET, HEAD, OPTIONS, POST");
    assert_eq!(allow_methods_header(false).1, "GET, HEAD, OPTIONS");
    assert_eq!(cors_methods(true), "GET, HEAD, OPTIONS, POST");
    assert_eq!(cors_methods(false), "GET, HEAD, OPTIONS");
}
