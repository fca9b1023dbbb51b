use chat_relay::http::{http_response, route, Route};

fn request(text: &str) -> [u8; 1024] {
    let mut buf = [0u8; 1024];
    buf[..text.len()].copy_from_slice(text.as_bytes());
    buf
}

#[test]
fn routes_requests() {
    assert_eq!(route(&request("GET / HTTP/1.1\r\nHost: x\r\n\r\n")), Route::Index);
    assert_eq!(route(&request("GET /sleep HTTP/1.1\r\n\r\n")), Route::SlowIndex);
    assert_eq!(route(&request("GET /other HTTP/1.1\r\n\r\n")), Route::NotFound);
    assert_eq!(route(&request("GET / HTTP/1.0\r\n\r\n")), Route::NotFound);
    assert_eq!(route(&request("")), Route::NotFound);
    assert_eq!(route(b"GET / HTTP/1.1\r"), Route::NotFound);
    assert_eq!(route(b"GET / HTTP/1.1\r\n"), Route::Index);
}

#[test]
fn route_answers() {
    assert_eq!((Route::Index.status(), Route::Index.file_name(), Route::Index.pauses()), ("HTTP/1.1 200 OK", "index.html", false));
    assert_eq!((Route::SlowIndex.status(), Route::SlowIndex.file_name(), Route::SlowIndex.pauses()), ("HTTP/1.1 200 OK", "index.html", true));
    assert_eq!((Route::NotFound.status(), Route::NotFound.file_name(), Route::NotFound.pauses()), ("HTTP/1.1 404 NOT FOUND", "404.html", false));
}

#[test]
fn response_carries_byte_length() {
    assert_eq!(http_response("HTTP/1.1 200 OK", "h\u{e9}llo"), "HTTP/1.1 200 OK\r\nContent-Length: 6\r\n\r\nh\u{e9}llo");
    assert_eq!(http_response("HTTP/1.1 404 NOT FOUND", ""), "HTTP/1.1 404 NOT FOUND\r\nContent-Length: 0\r\n\r\n");
    let body = "x".repeat(1234);
    assert_eq!(http_response("S", &body), format!("S\r\nContent-Length: 1234\r\n\r\n{}", body));
}
