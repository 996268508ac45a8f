use tophat::ascii::{parse_dec, parse_hex};
use tophat::body::Body;
use tophat::chunked::{decode_chunked, encode_chunk, encode_chunked_whole, ChunkedOutcome};
use tophat::date::fmt_http_date;
use tophat::headers::Headers;
use tophat::request::Request;
use tophat::server::glitch::Glitch;
use tophat::server::response_writer::{ResponseWriter, ResponseWritten};
use tophat::server::{accept, accept_with_opts, fail_to_crate_err, ServerOpts};
use tophat::server::decode::DecodeFail;
use tophat::server::error::ServerError;
use tophat::server::identity::Identity;

const NOW: u64 = 1445412480;

fn remove_date(b: &[u8]) -> Vec<u8> {
    let s = std::str::from_utf8(b).unwrap();
    if let Some(i) = s.find("date: ") {
        let eol = s[i + 6..].find("\r\n").expect("missing date eol");
        let mut res = Vec::new();
        res.extend_from_slice(&b[..i]);
        res.extend_from_slice(&b[i + 6 + eol + 2..]);
        res
    } else {
        b.to_vec()
    }
}

#[test]
fn test_chunked_decode_literal() {
    // the worked chunked example: three chunks and a trailer
    let input = b"7\r\nMozilla\r\n9\r\nDeveloper\r\n7\r\nNetwork\r\n0\r\n\
        Expires: Wed, 21 Oct 2015 07:28:00 GMT\r\n\r\n";
    match decode_chunked(input) {
        ChunkedOutcome::Complete(payload, trailers, used) => {
            assert_eq!(payload, b"MozillaDeveloperNetwork".to_vec());
            assert_eq!(used, input.len());
            assert_eq!(
                trailers.headers.get(b"expires").map(|v| v.as_slice()),
                Some(&b"Wed, 21 Oct 2015 07:28:00 GMT"[..])
            );
        }
        _ => panic!(),
    }
}

#[test]
fn test_chunked_decode_extension_ignored() {
    // a chunk extension after the size is tolerated and ignored
    let input = b"7;name=value\r\nMozilla\r\n0\r\n\r\n";
    match decode_chunked(input) {
        ChunkedOutcome::Complete(payload, trailers, used) => {
            assert_eq!(payload, b"Mozilla".to_vec());
            assert_eq!(used, input.len());
            assert!(trailers.headers.is_empty());
        }
        _ => panic!(),
    }
}

#[test]
fn test_chunked_decode_incomplete_and_malformed() {
    assert!(matches!(
        decode_chunked(b"7\r\nMoz"),
        ChunkedOutcome::Incomplete
    ));
    assert!(matches!(decode_chunked(b"xyz\r\nMoz\r\n"), ChunkedOutcome::Malformed));
    assert!(matches!(
        decode_chunked(b"3\r\nMozilla\r\n"),
        ChunkedOutcome::Malformed
    ));
}

#[test]
fn test_chunked_encode_literal() {
    // hex "D" is 13
    assert_eq!(
        encode_chunk(b"Hello tophat!"),
        b"D\r\nHello tophat!\r\n".to_vec()
    );
    assert_eq!(
        encode_chunked_whole(b"Hello tophat!"),
        b"D\r\nHello tophat!\r\n0\r\n\r\n".to_vec()
    );
    assert_eq!(encode_chunked_whole(b""), b"0\r\n\r\n".to_vec());
}

#[test]
fn test_date_formatting() {
    assert_eq!(fmt_http_date(0), "Thu, 01 Jan 1970 00:00:00 GMT".to_owned());
    assert_eq!(
        fmt_http_date(1445412480),
        "Wed, 21 Oct 2015 07:28:00 GMT".to_owned()
    );
    // a leap day
    assert_eq!(
        fmt_http_date(1583020799),
        "Sat, 29 Feb 2020 23:59:59 GMT".to_owned()
    );
}

#[test]
fn test_numeral_parsing() {
    assert_eq!(parse_dec(b"0"), Some(0));
    assert_eq!(parse_dec(b"1445412480"), Some(1445412480));
    assert_eq!(parse_dec(b""), None);
    assert_eq!(parse_dec(b"12a"), None);
    assert_eq!(parse_hex(b"D"), Some(13));
    assert_eq!(parse_hex(b"d"), Some(13));
    assert_eq!(parse_hex(b"10"), Some(16));
    assert_eq!(parse_hex(b"zz"), None);
    assert_eq!(parse_hex(b"FFFFFFFFFFFFFFFFF"), None);
}

#[test]
fn test_headers_append_insert() {
    let mut h = Headers::new();
    h.append(b"Accept", b"text/plain".to_vec());
    h.append(b"accept", b"text/html".to_vec());
    assert_eq!(h.len(), 2);
    // the first value wins a lookup; names are case-insensitive
    assert_eq!(h.get(b"ACCEPT").map(|v| v.as_slice()), Some(&b"text/plain"[..]));
    h.insert(b"Accept", b"*/*".to_vec());
    assert_eq!(h.len(), 1);
    assert_eq!(h.get(b"accept").map(|v| v.as_slice()), Some(&b"*/*"[..]));
}

#[test]
fn test_keep_alive_two_requests() {
    // two back-to-back requests each get a response, in order, and the
    // connection ends cleanly
    let input = "GET /one HTTP/1.1\r\nHost: example.org\r\n\r\n\
                 GET /two HTTP/1.1\r\nHost: example.org\r\n\r\n";
    let (out, res, _transcript) = accept(input.as_bytes(), NOW, |req, mut resp_wtr| {
        let path = String::from_utf8(req.uri().path().clone()).unwrap();
        resp_wtr.set_body(Body::from_text(format!("saw {}", path)));
        resp_wtr.send()
    });
    res.unwrap();
    let text = String::from_utf8(remove_date(&remove_date(&out))).unwrap();
    assert_eq!(
        text,
        "HTTP/1.1 200 OK\r\ncontent-length: 8\r\n\r\nsaw /one\
         HTTP/1.1 200 OK\r\ncontent-length: 8\r\n\r\nsaw /two"
    );
}

#[test]
fn test_fixed_length_body_exact() {
    // the endpoint sees exactly the advertised bytes, no more
    let input = "POST /in HTTP/1.1\r\nHost: example.org\r\nContent-Length: 4\r\n\r\nabcdEXTRA";
    let (_out, res, _transcript) = accept(input.as_bytes(), NOW, |req, resp_wtr| {
        let body = req.into_body().into_bytes().unwrap();
        assert_eq!(body, b"abcd".to_vec());
        resp_wtr.send()
    });
    // the trailing garbage is treated as a next, malformed request
    res.unwrap();
}

#[test]
fn test_glitch_bad_request_exact_bytes() {
    let (out, res, _transcript) = accept(
        "GET /foo/bar HTTP/1.1\r\nHost: example.org\r\n\r\n".as_bytes(),
        NOW,
        |_req, _resp_wtr| Err(Glitch::bad_request()),
    );
    res.unwrap();
    assert_eq!(
        String::from_utf8(remove_date(&out)).unwrap(),
        "HTTP/1.1 400 Bad Request\r\ncontent-length: 0\r\n\r\n"
    );
}

#[test]
fn test_glitch_verbose_message_and_trace() {
    let opts = ServerOpts {
        timeout: Some(60000),
        verbose_glitch: true,
    };
    let (out, res, _transcript) = accept_with_opts(
        "GET /foo/bar HTTP/1.1\r\nHost: example.org\r\n\r\n".as_bytes(),
        &opts,
        NOW,
        |_req, _resp_wtr| {
            let mut g = Glitch::new();
            g.message("went wrong");
            g.trace("deep detail");
            Err(g)
        },
    );
    res.unwrap();
    assert_eq!(
        String::from_utf8(remove_date(&out)).unwrap(),
        "HTTP/1.1 500 Internal Server Error\r\ncontent-length: 22\r\ncontent-type: text/plain\r\n\r\nwent wrong\ndeep detail"
    );
}

#[test]
fn test_fatal_failure_mapping() {
    // both fatal kinds surface to the caller; the rest are answered and
    // the connection goes on
    assert!(matches!(
        fail_to_crate_err(DecodeFail::HttpUnsupportedTransferEncoding),
        Some(ServerError::ConnectionClosedUnsupportedTransferEncoding)
    ));
    match fail_to_crate_err(DecodeFail::ConnectionLost("went away".to_owned())) {
        Some(ServerError::ConnectionLost(m)) => assert_eq!(m, "went away"),
        _ => panic!(),
    }
    assert!(fail_to_crate_err(DecodeFail::HttpNoHost).is_none());
    assert!(fail_to_crate_err(DecodeFail::Http10NotSupported).is_none());
}

#[test]
fn test_short_write_refused() {
    // a body that advertises more bytes than it holds is refused at
    // send; the endpoint passes the fault on and the driver answers 500
    let (out, res, _transcript) = accept(
        "GET / HTTP/1.1\r\nHost: example.org\r\n\r\n".as_bytes(),
        NOW,
        |_req, mut resp_wtr| {
            resp_wtr.set_body(Body::from_parts(b"abc".to_vec(), Some(10)));
            resp_wtr.send()
        },
    );
    res.unwrap();
    assert_eq!(
        String::from_utf8(remove_date(&out)).unwrap(),
        "HTTP/1.1 500 Internal Server Error\r\ncontent-length: 0\r\n\r\n"
    );
}

#[test]
fn test_server_opts_default() {
    let opts = ServerOpts::default();
    assert_eq!(opts.timeout, Some(60000));
    assert!(!opts.verbose_glitch);
}

#[test]
fn test_response_writer_send_code() {
    let (out, res, _transcript) = accept(
        "GET /gone HTTP/1.1\r\nHost: example.org\r\n\r\n".as_bytes(),
        NOW,
        |_req, resp_wtr| resp_wtr.send_code(404),
    );
    res.unwrap();
    assert_eq!(
        String::from_utf8(remove_date(&out)).unwrap(),
        "HTTP/1.1 404 Not Found\r\ncontent-length: 0\r\n\r\n"
    );
}

#[test]
fn test_response_writer_set_text() {
    let (out, res, _transcript) = accept(
        "GET / HTTP/1.1\r\nHost: example.org\r\n\r\n".as_bytes(),
        NOW,
        |_req, mut resp_wtr| {
            resp_wtr.set_text("hi there".to_owned());
            resp_wtr.send()
        },
    );
    res.unwrap();
    assert_eq!(
        String::from_utf8(remove_date(&out)).unwrap(),
        "HTTP/1.1 200 OK\r\ncontent-length: 8\r\ncontent-type: text/plain\r\n\r\nhi there"
    );
}

#[test]
fn test_bytes_written_token() {
    let expected = "HTTP/1.1 200 OK\r\ncontent-length: 0\r\ndate: Wed, 21 Oct 2015 07:28:00 GMT\r\n\r\n";
    let (_out, res, _transcript) = accept(
        "GET / HTTP/1.1\r\nHost: example.org\r\n\r\n".as_bytes(),
        NOW,
        move |_req, resp_wtr| {
            let written: ResponseWritten = resp_wtr.send()?;
            assert_eq!(written.bytes_written(), expected.len() as u64);
            Ok(written)
        },
    );
    res.unwrap();
}

#[test]
fn test_identity_token_roundtrip() {
    // mints a token into a cookie, reads it back from a request: this
    // exercises the signing, rendering and parsing of the outside
    // libraries end to end
    let identity = Identity::build("server-key-for-tests")
        .cookie_name("session")
        .issuer("tests")
        .expiration_time(3600)
        .finish();

    let mut wtr = ResponseWriter::new(NOW);
    identity.set_auth_token("alice", &mut wtr, far_future()).unwrap();
    let cookie_value = wtr
        .response()
        .header(b"set-cookie")
        .expect("cookie was set")
        .clone();
    let text = String::from_utf8(cookie_value).unwrap();
    assert!(text.starts_with("session="));
    assert!(text.ends_with("; HttpOnly; Secure; Path=/; Max-Age=3600"));
    let pair = text.split(';').next().unwrap();

    let mut headers = Headers::new();
    headers.append(b"cookie", pair.as_bytes().to_vec());
    let uri = tophat::request::Uri::from_target(b"/".to_vec()).unwrap();
    let req = Request::new(
        b"GET".to_vec(),
        uri,
        tophat::request::Version::Http11,
        headers,
        Body::empty(),
    );
    assert_eq!(identity.authorized_user(&req), Some("alice".to_owned()));

    // a tampered token does not authorize
    let mut headers = Headers::new();
    headers.append(b"cookie", b"session=not.a.token".to_vec());
    let uri = tophat::request::Uri::from_target(b"/".to_vec()).unwrap();
    let req = Request::new(
        b"GET".to_vec(),
        uri,
        tophat::request::Version::Http11,
        headers,
        Body::empty(),
    );
    assert_eq!(identity.authorized_user(&req), None);
}

// the present moment, so a minted token has not yet expired
fn far_future() -> u64 {
    std::time::SystemTime::now()
        .duration_since(std::time::UNIX_EPOCH)
        .unwrap()
        .as_secs()
}

#[test]
fn test_body_conversions() {
    let b = Body::from_bytes(vec![0xff, 0x00]);
    assert!(b.into_string().is_err());
    let b = Body::from_text("hé".to_owned());
    assert_eq!(b.into_string().unwrap(), "hé");
    let mut b = Body::empty();
    assert!(b.recv_trailers().is_none());
    assert_eq!(b.into_bytes().unwrap(), Vec::<u8>::new());
}
