use simple_http::decimal::decimal;
use simple_http::http::guard::{guard, Served};
use simple_http::http::request::{HttpRequest, Version};
use simple_http::http::response::{
    classify, AcceptRanges, DirEntry, Found, HttpResponse, ResponseStatus, Target, BEGIN_HTML,
    NOT_FOUND_PAGE,
};

fn request_for(path: &str) -> HttpRequest {
    HttpRequest::new(&format!("GET {} HTTP/1.1\r\n\r\n", path)).unwrap()
}

fn entry(name: &str, is_dir: bool) -> DirEntry {
    DirEntry { name: name.to_string(), is_dir }
}

fn listing(path: &str, items: &str) -> String {
    format!(
        "{}<h1>Currently in: /{}</h1><br><hr><a href=\"../\">Go up</a><ul>{}</ul></body></html>",
        BEGIN_HTML, path, items
    )
}

#[test]
fn file_is_served_whole() {
    let request = HttpRequest::new("GET /readme.txt HTTP/1.1\r\nHost: x\r\n\r\n").unwrap();
    let response = request.response(&Target::File(b"hello".to_vec()));
    assert_eq!(response.status(), ResponseStatus::OK);
    assert_eq!(response.content_length(), 5);
    assert_eq!(response.accept_ranges(), AcceptRanges::Bytes);
    assert_eq!(response.version(), Version::V1_1);
    assert_eq!(response.path(), "readme.txt");
    assert_eq!(response.current_path, "readme.txt");
    assert!(response.body().ends_with(b"hello"));
    assert_eq!(
        response.response_body,
        b"HTTP/1.1 200 OK\naccept-ranges: bytes\ncontent-length: 5\nContent-Type: text/plain\r\n\r\nhello"
    );
}

#[test]
fn file_type_is_read_off_the_bytes() {
    let png = vec![0x89, 0x50, 0x4E, 0x47, 0x0D, 0x0A, 0x1A, 0x0A, 0, 0, 0, 0];
    let response = HttpResponse::new(&request_for("/x"), &Target::File(png.clone()));
    let mut expected =
        b"HTTP/1.1 200 OK\naccept-ranges: bytes\ncontent-length: 12\nContent-Type: image/png\r\n\r\n"
            .to_vec();
    expected.extend_from_slice(&png);
    assert_eq!(response.response_body, expected);
    let jpeg = vec![0xFF, 0xD8, 0xFF, 0xAA];
    let response = HttpResponse::new(&request_for("/x"), &Target::File(jpeg.clone()));
    let mut expected =
        b"HTTP/1.1 200 OK\naccept-ranges: bytes\ncontent-length: 4\nContent-Type: image/jpeg\r\n\r\n"
            .to_vec();
    expected.extend_from_slice(&jpeg);
    assert_eq!(response.response_body, expected);
}

#[test]
fn file_of_bytes_that_are_no_text() {
    let content = vec![0x00, 0xFF, 0xFE, 0x0D, 0x0A];
    let response = HttpResponse::new(&request_for("/bin"), &Target::File(content.clone()));
    assert_eq!(response.content_length(), 5);
    assert!(response.body().ends_with(&content));
}

#[test]
fn empty_file() {
    let response = HttpResponse::new(&request_for("/empty"), &Target::File(Vec::new()));
    assert_eq!(response.status(), ResponseStatus::OK);
    assert_eq!(response.content_length(), 0);
    assert_eq!(
        response.response_body,
        b"HTTP/1.1 200 OK\naccept-ranges: bytes\ncontent-length: 0\nContent-Type: text/plain\r\n\r\n"
    );
}

#[test]
fn file_with_a_given_type() {
    let response = HttpResponse::file("a.css".to_string(), b"p{}", Some("text/css"));
    assert_eq!(
        response.response_body,
        b"HTTP/1.1 200 OK\naccept-ranges: bytes\ncontent-length: 3\nContent-Type: text/css\r\n\r\np{}"
    );
    assert_eq!(response.path(), "a.css");
    let response = HttpResponse::file("a".to_string(), b"p{}", None);
    assert_eq!(
        response.response_body,
        b"HTTP/1.1 200 OK\naccept-ranges: bytes\ncontent-length: 3\nContent-Type: text/plain\r\n\r\np{}"
    );
}

#[test]
fn missing_path_has_no_body() {
    let request = HttpRequest::new("GET /missing.txt HTTP/1.1\r\n\r\n").unwrap();
    let response = request.response(&Target::Missing);
    assert_eq!(response.status(), ResponseStatus::NotFound);
    assert_eq!(response.content_length(), 0);
    assert_eq!(response.accept_ranges(), AcceptRanges::NoRanges);
    assert_eq!(response.version(), Version::V1_1);
    assert!(response.response_body.is_empty());
    assert_eq!(response.path(), "missing.txt");
}

#[test]
fn special_file_gets_the_not_found_page() {
    let response = HttpResponse::new(&request_for("/dev/null"), &Target::Special);
    assert_eq!(response.status(), ResponseStatus::NotFound);
    assert_eq!(response.accept_ranges(), AcceptRanges::NoRanges);
    assert_eq!(response.content_length(), 432);
    assert_eq!(NOT_FOUND_PAGE.len(), 432);
    let expected = format!(
        "HTTP/1.1 404 NOT FOUND\naccept-ranges: none\ncontent-length: 432\r\n\r\n{}",
        NOT_FOUND_PAGE
    );
    assert_eq!(response.response_body, expected.as_bytes());
    assert!(NOT_FOUND_PAGE.contains("<h1>404 NOT FOUND</h1>"));
    assert!(NOT_FOUND_PAGE.starts_with(" \n"));
    assert!(NOT_FOUND_PAGE.ends_with("</html"));
}

#[test]
fn directory_is_listed() {
    let request = HttpRequest::new("GET /subdir HTTP/1.1\r\n\r\n").unwrap();
    let response = request.response(&Target::Directory(vec![entry("a.txt", false)]));
    assert_eq!(response.status(), ResponseStatus::OK);
    assert_eq!(response.accept_ranges(), AcceptRanges::NoRanges);
    let item = "<li><a href=\"subdir%2Fa%2Etxt\">a.txt</a></li>";
    let page = listing("subdir", item);
    let body = String::from_utf8(response.response_body.clone()).unwrap();
    assert!(body.contains(item));
    assert_eq!(response.content_length(), page.len());
    assert_eq!(
        body,
        format!(
            "HTTP/1.1 200 OK\naccept-ranges: none\ncontent-length: {}\r\n\r\n{}",
            page.len(),
            page
        )
    );
}

#[test]
fn directory_entries_keep_their_order() {
    let entries = vec![entry("b", false), entry("sub dir", true), entry("a", false)];
    let response = HttpResponse::new(&request_for("/top"), &Target::Directory(entries));
    let items = "<li><a href=\"top%2Fb\">b</a></li>\
                 <li><a href=\"top%2Fsub%20dir\">sub dir/</a></li>\
                 <li><a href=\"top%2Fa\">a</a></li>";
    let page = listing("top", items);
    let body = String::from_utf8(response.response_body.clone()).unwrap();
    assert!(body.ends_with(&page));
    assert_eq!(body.matches("<li>").count(), 3);
    assert_eq!(response.content_length(), page.len());
}

#[test]
fn directory_without_entries() {
    let response = HttpResponse::new(&request_for("/"), &Target::Directory(Vec::new()));
    let page = listing("", "");
    assert_eq!(response.content_length(), page.len());
    assert_eq!(page.len(), BEGIN_HTML.len() + 78);
    let body = String::from_utf8(response.response_body.clone()).unwrap();
    assert_eq!(
        body,
        format!(
            "HTTP/1.1 200 OK\naccept-ranges: none\ncontent-length: {}\r\n\r\n{}",
            page.len(),
            page
        )
    );
    assert!(!body.contains("<li>"));
}

#[test]
fn directory_at_the_root_links_from_the_empty_path() {
    let response =
        HttpResponse::new(&request_for("/"), &Target::Directory(vec![entry("x", false)]));
    let body = String::from_utf8(response.response_body.clone()).unwrap();
    assert!(body.contains("<li><a href=\"%2Fx\">x</a></li>"));
    assert!(body.contains("<h1>Currently in: /</h1>"));
}

#[test]
fn links_encode_all_but_letters_and_digits() {
    let entries = vec![entry("Az09-_.~ é\u{1F600}", false)];
    let response = HttpResponse::new(&request_for("/p%20q"), &Target::Directory(entries));
    let body = String::from_utf8(response.response_body.clone()).unwrap();
    let item = "<li><a href=\"p%20q%2FAz09%2D%5F%2E%7E%20%C3%A9%F0%9F%98%80\">Az09-_.~ é\u{1F600}</a></li>";
    assert!(body.contains(item));
    assert!(body.contains("<h1>Currently in: /p q</h1>"));
    let page = listing("p q", item);
    assert_eq!(response.content_length(), page.len());
    assert!(page.len() > page.chars().count());
}

#[test]
fn content_length_counts_bytes() {
    let entries = vec![entry("é", true)];
    let response = HttpResponse::new(&request_for("/"), &Target::Directory(entries));
    let page = listing("", "<li><a href=\"%2F%C3%A9\">é/</a></li>");
    assert_eq!(response.content_length(), page.len());
    assert_eq!(response.content_length(), page.chars().count() + 1);
}

#[test]
fn beginning_of_a_listing() {
    assert_eq!(BEGIN_HTML.len(), 134);
    assert!(BEGIN_HTML.starts_with("\n        <!DOCTYPE html> \n"));
    assert!(BEGIN_HTML.ends_with("<body>\n        "));
}

#[test]
fn status_texts_and_codes() {
    assert_eq!(ResponseStatus::OK.as_str(), "200 OK");
    assert_eq!(ResponseStatus::NotFound.as_str(), "404 NOT FOUND");
    assert_eq!(ResponseStatus::OK.code(), 200);
    assert_eq!(ResponseStatus::NotFound.code(), 404);
    assert_eq!(AcceptRanges::Bytes.as_str(), "accept-ranges: bytes");
    assert_eq!(AcceptRanges::NoRanges.as_str(), "accept-ranges: none");
}

#[test]
fn decimal_writes_numbers() {
    assert_eq!(decimal(0), "0");
    assert_eq!(decimal(7), "7");
    assert_eq!(decimal(10), "10");
    assert_eq!(decimal(432), "432");
    assert_eq!(decimal(1000000), "1000000");
    assert_eq!(decimal(usize::MAX), usize::MAX.to_string());
}

#[test]
fn guard_serves_the_root_for_a_path_that_left_it() {
    assert_eq!(guard(3, 2), Served::Root);
    assert_eq!(guard(3, 1), Served::Root);
    assert_eq!(guard(1, 0), Served::Root);
}

#[test]
fn guard_serves_what_is_as_deep_as_the_root() {
    assert_eq!(guard(3, 3), Served::Requested);
    assert_eq!(guard(3, 4), Served::Requested);
    assert_eq!(guard(0, 0), Served::Requested);
    assert_eq!(guard(usize::MAX, usize::MAX), Served::Requested);
}

#[test]
fn classify_asks_for_a_file_first() {
    assert_eq!(classify(false, false, false), Found::Missing);
    assert_eq!(classify(false, true, true), Found::Missing);
    assert_eq!(classify(true, true, false), Found::File);
    assert_eq!(classify(true, true, true), Found::File);
    assert_eq!(classify(true, false, true), Found::Directory);
    assert_eq!(classify(true, false, false), Found::Special);
}
