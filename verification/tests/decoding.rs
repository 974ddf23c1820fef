use http_message::headers::{HTTPHeader, HTTPHeaders};
use http_message::request::{
    HTTPBody, HTTPHeaderParser, HTTPParser, HTTPRequest, HTTPRequestParser, HTTPUrl,
};
use std::rc::Rc;

fn header(name: &str, value: &str) -> HTTPHeader {
    HTTPHeader {
        name: String::from(name),
        value: String::from(value),
    }
}

#[test]
fn parse_valid_http_headers() {
    let http_request_raw = String::from(
        "
            GET / HTTP/1.1
            Content-Type: application/json
            User-Agent: PostmanRuntime/7.39.0
            Accept: */*
            Host: 127.0.0.1:8081
            Accept-Encoding: gzip, deflate, br
            Connection: keep-alive
            Content-Length: 3

            END
            "
        .trim(),
    );
    let mut http_request_buf: [u8; 4096] = [0; 4096];
    http_request_buf[..http_request_raw.len()].copy_from_slice(http_request_raw.as_bytes());

    let expected_headers = HTTPHeaders(vec![
        HTTPHeader {
            name: String::from("Content-Type"),
            value: String::from("application/json"),
        },
        HTTPHeader {
            name: String::from("User-Agent"),
            value: String::from("PostmanRuntime/7.39.0"),
        },
        HTTPHeader {
            name: String::from("Accept"),
            value: String::from("*/*"),
        },
        HTTPHeader {
            name: String::from("Host"),
            value: String::from("127.0.0.1:8081"),
        },
        HTTPHeader {
            name: String::from("Accept-Encoding"),
            value: String::from("gzip, deflate, br"),
        },
        HTTPHeader {
            name: String::from("Connection"),
            value: String::from("keep-alive"),
        },
        HTTPHeader {
            name: String::from("Content-Length"),
            value: String::from("3"),
        },
    ]);

    let result_headers = HTTPHeaderParser::new(&http_request_buf).parse();
    assert_eq!(result_headers, Ok(expected_headers))
}

#[test]
fn parse_valid_http_request() {
    let http_request_raw = String::from(
        "
            GET / HTTP/1.1
            Content-Type: application/json
            User-Agent: PostmanRuntime/7.39.0
            Accept: */*
            Host: 127.0.0.1:8081
            Accept-Encoding: gzip, deflate, br
            Connection: keep-alive
            Content-Length: 3

            END
            "
        .trim(),
    );
    let mut http_request_buf: [u8; 4096] = [0; 4096];
    http_request_buf[..http_request_raw.len()].copy_from_slice(http_request_raw.as_bytes());
    let parsed_request = HTTPRequestParser::new(&http_request_buf).parse();

    let body_str = String::from("END");
    let mut body_buf: [u8; 4096] = [0; 4096];
    body_buf[..body_str.len()].copy_from_slice(body_str.as_bytes());
    // The body is the whole buffer: the headers are not cut out of it, so
    // the text after the empty line is where the buffer's content ends.
    let content_end = http_request_raw.len();
    assert_eq!(
        http_request_buf[content_end - body_str.len()..content_end],
        body_buf[..body_str.len()]
    );
    let expected_request = HTTPRequest {
        url: HTTPUrl {
            url: String::from(""),
        },
        headers: HTTPHeaders(vec![
            HTTPHeader {
                name: String::from("Content-Type"),
                value: String::from("application/json"),
            },
            HTTPHeader {
                name: String::from("User-Agent"),
                value: String::from("PostmanRuntime/7.39.0"),
            },
            HTTPHeader {
                name: String::from("Accept"),
                value: String::from("*/*"),
            },
            HTTPHeader {
                name: String::from("Host"),
                value: String::from("127.0.0.1:8081"),
            },
            HTTPHeader {
                name: String::from("Accept-Encoding"),
                value: String::from("gzip, deflate, br"),
            },
            HTTPHeader {
                name: String::from("Connection"),
                value: String::from("keep-alive"),
            },
            HTTPHeader {
                name: String::from("Content-Length"),
                value: String::from("3"),
            },
        ]),
        body: HTTPBody {
            body: http_request_buf,
        },
    };
    assert_eq!(parsed_request, Ok(expected_request));
}

#[test]
fn test_split() {
    let http_request_raw = String::from(
        "
            GET / HTTP/1.1
            Content-Type: application/json
            User-Agent: PostmanRuntime/7.39.0
            Accept: */*
            Host: 127.0.0.1:8081
            Accept-Encoding: gzip, deflate, br
            Connection: keep-alive
            Content-Length: 3

            END
        ",
    );
    let split_lines = http_request_raw.lines().collect::<Vec<&str>>();
    let slice = &split_lines[2..];
    println!("{:?}", slice);

    assert!(true);

    // The scanner passes over the same two lines and reads what follows.
    let headers = HTTPHeaders::from_raw(Rc::new(http_request_raw.clone()));
    assert_eq!(headers.0.len(), 7);
    assert_eq!(headers.0[0], header("Content-Type", "application/json"));
    assert_eq!(headers.0[6], header("Content-Length", "3"));
    assert_eq!(slice[0].trim(), "Content-Type: application/json");
}
