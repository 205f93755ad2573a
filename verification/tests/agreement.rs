//! The library against the same steps written with the string functions of
//! std, on many generated requests.

use std::collections::HashMap;

use simple_http::http::request::{HttpHeader, HttpRequest, Method, Resource, Version};
use simple_http::http::response::{DirEntry, HttpResponse, Target};

/// A small generator of numbers, the same on every run.
struct Numbers(u64);

impl Numbers {
    fn next(&mut self) -> u64 {
        self.0 = self.0.wrapping_mul(6364136223846793005).wrapping_add(1442695040888963407);
        self.0 >> 33
    }

    fn below(&mut self, n: usize) -> usize {
        (self.next() % n as u64) as usize
    }
}

const PIECES: [&str; 32] = [
    "GET", "POST", "PUT", " ", " ", " ", "\t", "/", "/", "\r\n", "\r\n", "\r\n", "\r", "\n", ":",
    ":", "HTTP/1.1", "HTTP/2", "HTTP/2.0", "HTTP/1.0", "%20", "%", "%2F", "%C3%A9", "%ff", "a",
    "Host", "x.y", "é", "\u{a0}", "\u{3000}", "\x0c",
];

fn generated(numbers: &mut Numbers) -> String {
    let mut text = String::new();
    for _ in 0..numbers.below(14) {
        text.push_str(PIECES[numbers.below(PIECES.len())]);
    }
    text
}

fn version_by_std(request: &str) -> Option<Version> {
    let (line, _) = request.split_once("\r\n")?;
    for word in line.split_ascii_whitespace() {
        if word == "HTTP/1.1" {
            return Some(Version::V1_1);
        } else if word == "HTTP/2" || word == "HTTP/2.0" {
            return Some(Version::V2_0);
        }
    }
    None
}

fn verb_by_std(verb: &str) -> Method {
    match verb {
        "GET" => Method::Get,
        "POST" => Method::Post,
        _ => Method::Uninitialized,
    }
}

fn method_by_std(request: &str) -> Method {
    if let Some((line, _)) = request.split_once("\r\n") {
        if let Some((verb, _)) = line.split_once(' ') {
            return verb_by_std(verb);
        }
    }
    Method::Uninitialized
}

fn target_by_std(request: &str) -> Option<String> {
    let (line, _) = request.split_once("\r\n")?;
    let (verb, rest) = line.split_once(' ')?;
    if verb_by_std(verb) == Method::Uninitialized {
        return None;
    }
    let (target, _) = rest.split_once(' ')?;
    Some(target.trim().to_string())
}

fn path_by_std(request: &str) -> Option<String> {
    let target = target_by_std(request)?;
    let decoded = url_escape::decode(&target).into_owned();
    Some(decoded.trim_start_matches('/').to_string())
}

fn headers_by_std(request: &str) -> Option<HashMap<String, String>> {
    let mut headers = HashMap::new();
    let (_, rest) = request.split_once("\r\n")?;
    for line in rest.split_terminator("\r\n") {
        if line.is_empty() {
            break;
        }
        let (name, value) = line.split_once(':')?;
        headers.insert(name.trim().to_string(), value.trim().to_string());
    }
    Some(headers)
}

fn body_by_std(request: &str) -> String {
    match request.split_once("\r\n\r\n") {
        Some((_, body)) => body.to_string(),
        None => String::new(),
    }
}

fn same_fields(header: &HttpHeader, expected: &HashMap<String, String>) -> bool {
    header.len() == expected.len()
        && expected.iter().all(|(name, value)| header.get(name) == Some(value.as_str()))
}

#[test]
fn version_agrees_with_std() {
    let mut numbers = Numbers(1);
    for _ in 0..4000 {
        let request = generated(&mut numbers);
        assert_eq!(Version::new(&request).ok(), version_by_std(&request), "{:?}", request);
    }
}

#[test]
fn method_agrees_with_std() {
    let mut numbers = Numbers(2);
    for _ in 0..4000 {
        let request = generated(&mut numbers);
        assert_eq!(Method::new(&request), method_by_std(&request), "{:?}", request);
        assert_eq!(Method::identify(&request), verb_by_std(&request), "{:?}", request);
    }
}

#[test]
fn resource_agrees_with_std() {
    let mut numbers = Numbers(3);
    let mut some = 0;
    for _ in 0..4000 {
        let request = format!("GET {}", generated(&mut numbers));
        assert_eq!(Resource::target(&request), target_by_std(&request), "{:?}", request);
        let path = Resource::new(&request).map(|resource| resource.path);
        assert_eq!(path, path_by_std(&request), "{:?}", request);
        if path.is_some() {
            some += 1;
        }
    }
    assert!(some > 100);
}

#[test]
fn header_agrees_with_std() {
    let mut numbers = Numbers(4);
    let mut some = 0;
    for _ in 0..4000 {
        let request = format!("GET / HTTP/1.1\r\n{}", generated(&mut numbers));
        match (HttpHeader::new(&request), headers_by_std(&request)) {
            (Some(header), Some(expected)) => {
                assert!(same_fields(&header, &expected), "{:?}", request);
                if !expected.is_empty() {
                    some += 1;
                }
            }
            (None, None) => {}
            _ => panic!("{:?}", request),
        }
        let request = generated(&mut numbers);
        assert_eq!(
            HttpHeader::new(&request).is_some(),
            headers_by_std(&request).is_some(),
            "{:?}",
            request
        );
    }
    assert!(some > 100);
}

#[test]
fn request_agrees_with_std() {
    let mut numbers = Numbers(5);
    let mut read = 0;
    for _ in 0..4000 {
        let request = format!("{} HTTP/1.1{}", generated(&mut numbers), generated(&mut numbers));
        match HttpRequest::new(&request) {
            Ok(got) => {
                read += 1;
                assert_eq!(Some(got.version()), version_by_std(&request), "{:?}", request);
                assert_eq!(got.method(), method_by_std(&request), "{:?}", request);
                assert_eq!(
                    got.path(),
                    path_by_std(&request).unwrap_or_default(),
                    "{:?}",
                    request
                );
                assert!(
                    same_fields(got.headers(), &headers_by_std(&request).unwrap_or_default()),
                    "{:?}",
                    request
                );
                assert_eq!(got.body(), body_by_std(&request), "{:?}", request);
            }
            Err(error) => {
                assert_eq!(version_by_std(&request), None, "{:?}", request);
                assert_eq!(
                    error.message(),
                    format!("Unknown protocol version in {}", request),
                    "{:?}",
                    request
                );
            }
        }
    }
    assert!(read > 100);
}

#[test]
fn listing_agrees_with_std() {
    let mut numbers = Numbers(6);
    let mut listed = 0;
    for _ in 0..1000 {
        let path = generated(&mut numbers);
        let request = match HttpRequest::new(&format!("GET /{} HTTP/1.1\r\n\r\n", path)) {
            Ok(request) => request,
            Err(_) => continue,
        };
        listed += 1;
        let current_path = request.path().to_string();
        let mut entries = Vec::new();
        let mut page = format!(
            "{}<h1>Currently in: /{}</h1><br><hr><a href=\"../\">Go up</a><ul>",
            simple_http::http::response::BEGIN_HTML,
            current_path
        );
        for _ in 0..numbers.below(4) {
            let name = generated(&mut numbers);
            let is_dir = numbers.below(2) == 0;
            let display_name = if is_dir { format!("{}/", name) } else { name.clone() };
            let link = url_escape::encode(
                &format!("{}/{}", current_path, name),
                url_escape::NON_ALPHANUMERIC,
            )
            .to_string();
            page.push_str(&format!("<li><a href=\"{}\">{}</a></li>", link, display_name));
            entries.push(DirEntry { name, is_dir });
        }
        page.push_str("</ul></body></html>");
        let expected = format!(
            "HTTP/1.1 200 OK\naccept-ranges: none\ncontent-length: {}\r\n\r\n{}",
            page.len(),
            page
        );
        let response = HttpResponse::new(&request, &Target::Directory(entries));
        assert_eq!(response.response_body, expected.as_bytes(), "{:?}", path);
        assert_eq!(response.content_length(), page.len());
    }
    assert!(listed > 100);
}

#[test]
fn request_from_a_buffer_filled_up_with_zeros() {
    let mut buffer = [0u8; 1024];
    let sent = b"GET /readme.txt HTTP/1.1\r\nHost: x\r\n\r\n";
    buffer[..sent.len()].copy_from_slice(sent);
    let text = String::from_utf8_lossy(&buffer);
    let request = HttpRequest::new(&text).unwrap();
    assert_eq!(request.method(), Method::Get);
    assert_eq!(request.path(), "readme.txt");
    assert_eq!(request.version(), Version::V1_1);
    assert_eq!(request.headers().len(), 1);
    assert_eq!(request.headers().get("Host"), Some("x"));
    assert_eq!(request.body().len(), 1024 - sent.len());
    assert!(request.body().chars().all(|c| c == '\0'));
}
