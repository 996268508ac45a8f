use tophat::request::Request;
use tophat::server::accept;
use tophat::server::error::ServerError;
use tophat::server::glitch::Glitch;
use tophat::server::response_writer::{ResponseWriter, ResponseWritten};

const RESP_400: &str = "HTTP/1.1 400 Bad Request\r\ncontent-length: 0\r\n\r\n";
const RESP_500: &str = "HTTP/1.1 500 Internal Server Error\r\ncontent-length: 0\r\n\r\n";

const NOW: u64 = 1445412480;

fn remove_date(b: &[u8]) -> Vec<u8> {
    let s = std::str::from_utf8(b).unwrap();
    if let Some(i) = s.find("date: ") {
        let eol = s[i + 6..].find("\r\n").expect("missing date eol");
        let mut res = Vec::new();
        res.extend_from_slice(&b[..i]);
        res.extend_from_slice(&b[i + 6 + eol + 2..]);
        res
    } else {
        b.to_vec()
    }
}

fn check<F: Fn(Request, ResponseWriter) -> Result<ResponseWritten, Glitch>>(
    input: &str,
    expected: &str,
    endpoint: F,
) {
    let (out, res, _transcript) = accept(input.as_bytes(), NOW, endpoint);
    res.unwrap();
    assert_eq!(
        String::from_utf8(remove_date(&out)).unwrap(),
        expected.to_owned()
    );
}

#[test]
fn error_handling_test_request_manually_create_glitch() {
    check(
        "GET /foo/bar HTTP/1.1\r\nHost: example.org\r\n\r\n",
        RESP_400,
        |_req, resp_wtr| {
            "one".parse::<usize>().map_err(|_| Glitch::bad_request())?;
            let done = resp_wtr.send().unwrap();
            Ok(done)
        },
    );
}

#[test]
fn error_handling_test_request_glitch_with_context() {
    // a plain error conversion gives a bare 500
    check(
        "GET /foo/bar HTTP/1.1\r\nHost: example.org\r\n\r\n",
        RESP_500,
        |_req, resp_wtr| {
            "one".parse::<usize>().map_err(|e| {
                let mut g = Glitch::new();
                g.trace(&e.to_string());
                g
            })?;
            let done = resp_wtr.send().unwrap();
            Ok(done)
        },
    );

    // an error with context carries the message in the body, as text
    check(
        "GET /foo/bar HTTP/1.1\r\nHost: example.org\r\n\r\n",
        "HTTP/1.1 500 Internal Server Error\r\ncontent-length: 12\r\ncontent-type: text/plain\r\n\r\ncustom error",
        |_req, resp_wtr| {
            "one".parse::<usize>().map_err(|e| {
                let mut g = Glitch::new();
                g.message("custom error");
                g.trace(&e.to_string());
                g
            })?;
            let done = resp_wtr.send().unwrap();
            Ok(done)
        },
    );

    // context on an absent value
    check(
        "GET /foo/bar HTTP/1.1\r\nHost: example.org\r\n\r\n",
        "HTTP/1.1 500 Internal Server Error\r\ncontent-length: 12\r\ncontent-type: text/plain\r\n\r\ncustom error",
        |_req, resp_wtr| {
            let usr: Option<usize> = None;
            usr.ok_or_else(|| {
                let mut g = Glitch::new();
                g.message("custom error");
                g
            })?;
            let done = resp_wtr.send().unwrap();
            Ok(done)
        },
    );

    // manual
    check(
        "GET /foo/bar HTTP/1.1\r\nHost: example.org\r\n\r\n",
        RESP_400,
        |_req, resp_wtr| {
            "one".parse::<usize>().map_err(|_| Glitch::bad_request())?;
            let done = resp_wtr.send().unwrap();
            Ok(done)
        },
    );
}

#[test]
fn error_handling_test_request_glitch_macro() {
    check(
        "GET /foo/bar HTTP/1.1\r\nHost: example.org\r\n\r\n",
        RESP_500,
        |_req, resp_wtr| {
            "one".parse::<usize>().map_err(|_| Glitch::internal_server_error())?;
            let done = resp_wtr.send().unwrap();
            Ok(done)
        },
    );
    check(
        "GET /foo/bar HTTP/1.1\r\nHost: example.org\r\n\r\n",
        RESP_400,
        |_req, resp_wtr| {
            "one".parse::<usize>().map_err(|_| {
                let mut g = Glitch::new();
                g.status(400);
                g
            })?;
            let done = resp_wtr.send().unwrap();
            Ok(done)
        },
    );
    check(
        "GET /foo/bar HTTP/1.1\r\nHost: example.org\r\n\r\n",
        "HTTP/1.1 400 Bad Request\r\ncontent-length: 12\r\ncontent-type: text/plain\r\n\r\ncustom error",
        |_req, resp_wtr| {
            "one".parse::<usize>().map_err(|_| {
                let mut g = Glitch::new();
                g.status(400);
                g.message("custom error");
                g
            })?;
            let done = resp_wtr.send().unwrap();
            Ok(done)
        },
    );
}

#[test]
fn error_handling_test_request_glitch_code_macro() {
    check(
        "GET /foo/bar HTTP/1.1\r\nHost: example.org\r\n\r\n",
        "HTTP/1.1 400 Bad Request\r\ncontent-length: 12\r\ncontent-type: text/plain\r\n\r\ncustom error",
        |_req, resp_wtr| {
            "one".parse::<usize>().map_err(|_| {
                let mut g = Glitch::new();
                g.status(400);
                g.message("custom error");
                g
            })?;
            let done = resp_wtr.send().unwrap();
            Ok(done)
        },
    );
}
