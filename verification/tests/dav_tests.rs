use davbox::dav::{
    content_type, encode_path_segment, get_or_head, options, parse_range, plan_read, propfind,
    read_window, ByteRange, ResourceInfo,
};
use davbox::fs_backend::FsEntry;
use davbox::http::{percent_decode_path, Headers, Request};

fn request(method: &str, path: &str, headers: &[(&str, &str)]) -> Request {
    let mut h = Headers::new();
    for (n, v) in headers {
        h.insert(n.to_string(), v.to_string());
    }
    Request { method: method.to_string(), path: path.to_string(), headers: h, body: Vec::new() }
}

fn file(len: u64) -> ResourceInfo {
    ResourceInfo { is_dir: false, len, modified: 1_700_000_000 }
}

fn folder() -> ResourceInfo {
    ResourceInfo { is_dir: true, len: 4096, modified: 1_700_000_000 }
}

fn header<'a>(headers: &'a [(String, String)], name: &str) -> Option<&'a str> {
    headers.iter().find(|(n, _)| n == name).map(|(_, v)| v.as_str())
}

#[test]
fn parses_normal_range() {
    assert_eq!(parse_range("bytes=2-5", 10), Some(ByteRange { start: 2, end: 5 }));
}

#[test]
fn parses_suffix_range() {
    assert_eq!(parse_range("bytes=-4", 10), Some(ByteRange { start: 6, end: 9 }));
}

#[test]
fn range_edge_cases() {
    assert_eq!(parse_range("bytes=2-", 10), Some(ByteRange { start: 2, end: 9 }));
    assert_eq!(parse_range("bytes=2-100", 10), Some(ByteRange { start: 2, end: 9 }));
    assert_eq!(parse_range("bytes=-100", 10), Some(ByteRange { start: 0, end: 9 }));
    assert_eq!(parse_range("bytes=-0", 10), None);
    assert_eq!(parse_range("bytes=5-2", 10), None);
    assert_eq!(parse_range("bytes=10-", 10), None);
    assert_eq!(parse_range("bytes=0-0", 0), None);
    assert_eq!(parse_range("items=0-1", 10), None);
    assert_eq!(parse_range("bytes=a-b", 10), None);
    assert_eq!(parse_range("bytes=3", 10), None);
}

#[test]
fn options_advertises_dav() {
    let r = options();
    assert_eq!(r.status, 204);
    assert_eq!(header(&r.headers, "DAV"), Some("1,2"));
    assert_eq!(
        header(&r.headers, "Allow"),
        Some("OPTIONS, PROPFIND, GET, HEAD, PUT, DELETE, MKCOL, COPY, MOVE")
    );
}

#[test]
fn names_are_percent_encoded_and_decode_back() {
    assert_eq!(encode_path_segment("a b.txt"), "a%20b.txt");
    assert_eq!(encode_path_segment("été?/#"), "%C3%A9t%C3%A9%3F%2F%23");
    for name in ["a b.txt", "été?/#", "100% done", "plain-name_1.txt"] {
        let encoded = encode_path_segment(name);
        assert_eq!(percent_decode_path(&encoded).unwrap(), name);
    }
}

#[test]
fn content_types_follow_the_extension() {
    assert_eq!(content_type("/x/movie.MKV"), "video/x-matroska");
    assert_eq!(content_type("/x/readme.txt"), "text/plain; charset=utf-8");
    assert_eq!(content_type("/x/photo.jpeg"), "image/jpeg");
    assert_eq!(content_type("/x/noext"), "application/octet-stream");
    assert_eq!(content_type("/x/.hidden"), "application/octet-stream");
}

#[test]
fn get_of_a_whole_file() {
    let req = request("GET", "/hello.txt", &[]);
    let md = file(11);
    assert_eq!(read_window(&req, &md), Some((0, 11)));
    let r = get_or_head(&req, "/srv/hello.txt", &md, b"hello world".to_vec());
    assert_eq!(r.status, 200);
    assert_eq!(r.reason, "OK");
    assert_eq!(header(&r.headers, "Content-Type"), Some("text/plain; charset=utf-8"));
    assert_eq!(header(&r.headers, "Accept-Ranges"), Some("bytes"));
    assert_eq!(header(&r.headers, "Last-Modified"), Some("1700000000"));
    assert_eq!(header(&r.headers, "Content-Range"), None);
    assert_eq!(r.body, b"hello world".to_vec());
}

#[test]
fn get_of_a_byte_range() {
    let req = request("GET", "/hello.txt", &[("range", "bytes=2-5")]);
    let md = file(11);
    let plan = plan_read(&req, 11);
    assert_eq!((plan.status, plan.start, plan.end), (206, 2, 5));
    assert_eq!(read_window(&req, &md), Some((2, 4)));
    let r = get_or_head(&req, "/srv/hello.txt", &md, b"llo ".to_vec());
    assert_eq!(r.status, 206);
    assert_eq!(r.reason, "Partial Content");
    assert_eq!(header(&r.headers, "Content-Range"), Some("bytes 2-5/11"));
}

#[test]
fn large_range_reads_only_the_window() {
    let req = request("GET", "/large.bin", &[("range", "bytes=1048576-5242879")]);
    let md = file(16 * 1024 * 1024);
    assert_eq!(read_window(&req, &md), Some((1048576, 4 * 1024 * 1024)));
}

#[test]
fn get_of_a_folder_is_refused() {
    let req = request("GET", "/", &[]);
    assert_eq!(read_window(&req, &folder()), None);
    let r = get_or_head(&req, "/srv", &folder(), Vec::new());
    assert_eq!(r.status, 403);
    assert_eq!(r.body, b"Directory listing is available via PROPFIND".to_vec());
}

#[test]
fn empty_file_reads_nothing() {
    let req = request("GET", "/empty", &[]);
    assert_eq!(read_window(&req, &file(0)), None);
}

#[test]
fn propfind_lists_children_of_a_folder() {
    let req = request("PROPFIND", "/docs", &[("depth", "1")]);
    let children = vec![
        FsEntry { name: "a b.txt".to_string(), metadata: file(5) },
        FsEntry { name: "sub".to_string(), metadata: folder() },
    ];
    let r = propfind(&req, &folder(), &children);
    assert_eq!(r.status, 207);
    assert_eq!(r.reason, "Multi-Status");
    let body = String::from_utf8(r.body).unwrap();
    assert!(body.starts_with("<?xml version=\"1.0\" encoding=\"utf-8\"?>\n<D:multistatus xmlns:D=\"DAV:\">\n"));
    assert!(body.ends_with("\n</D:multistatus>"));
    assert!(body.contains("<D:href>/docs/</D:href>"));
    assert!(body.contains("<D:href>/docs/a%20b.txt</D:href>"));
    assert!(body.contains("<D:href>/docs/sub/</D:href>"));
    assert!(body.contains("<D:resourcetype><D:collection/></D:resourcetype>"));
    assert!(body.contains("<D:getcontentlength>5</D:getcontentlength>"));
    assert!(body.contains("<D:getlastmodified>1700000000</D:getlastmodified>"));
}

#[test]
fn propfind_depth_zero_lists_only_the_folder() {
    let req = request("PROPFIND", "/docs/", &[("depth", "0")]);
    let children = vec![FsEntry { name: "x".to_string(), metadata: file(1) }];
    let body = String::from_utf8(propfind(&req, &folder(), &children).body).unwrap();
    assert!(body.contains("<D:href>/docs/</D:href>"));
    assert!(!body.contains("/docs/x"));
}

#[test]
fn propfind_of_a_file() {
    let req = request("PROPFIND", "/a&b.txt", &[]);
    let body = String::from_utf8(propfind(&req, &file(3), &Vec::new()).body).unwrap();
    assert!(body.contains("<D:href>/a&amp;b.txt</D:href>"));
    assert!(body.contains("<D:resourcetype></D:resourcetype>"));
}
