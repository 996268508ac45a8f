use tophat::body::Body;
use tophat::headers::Headers;
use tophat::request::{Request, Uri, Version};
use tophat::client::decode::decode;
use tophat::client::encode::Encoder;

const RESP_200: &str = "HTTP/1.1 200 OK\r\ncontent-length: 0\r\n\r\n";
const RESP_400: &str = "HTTP/1.1 400 Bad Request\r\ncontent-length: 0\r\n\r\n";

fn request(target: &[u8], body: Body) -> Request {
    let mut headers = Headers::new();
    headers.append(b"host", b"example.org".to_vec());
    let uri = Uri::from_target(target.to_vec()).unwrap();
    Request::new(b"GET".to_vec(), uri, Version::Http11, headers, body)
}

#[test]
fn test_client_empties() {
    let req = request(b"/foo/bar", Body::empty());
    let wire = Encoder::encode(req).unwrap().into_bytes();
    assert_eq!(
        String::from_utf8(wire).unwrap(),
        "GET /foo/bar HTTP/1.1\r\ncontent-length: 0\r\nhost: example.org\r\n\r\n"
    );

    let (resp, _used) = decode(RESP_200.as_bytes()).unwrap();
    assert_eq!(resp.status(), 200);
}

#[test]
fn test_client_bad_request() {
    let req = request(b"/foo/bar", Body::empty());
    let wire = Encoder::encode(req).unwrap().into_bytes();
    assert_eq!(
        String::from_utf8(wire).unwrap(),
        "GET /foo/bar HTTP/1.1\r\ncontent-length: 0\r\nhost: example.org\r\n\r\n"
    );

    let (resp, _used) = decode(RESP_400.as_bytes()).unwrap();
    assert_eq!(resp.status(), 400);
}

#[test]
fn test_client_body_query() {
    let req = request(b"/foo/bar?one=two", Body::from_text("tophat".to_owned()));
    let wire = Encoder::encode(req).unwrap().into_bytes();
    assert_eq!(
        String::from_utf8(wire).unwrap(),
        "GET /foo/bar?one=two HTTP/1.1\r\ncontent-length: 6\r\nhost: example.org\r\n\r\ntophat"
    );

    let (resp, _used) = decode(RESP_200.as_bytes()).unwrap();
    assert_eq!(resp.status(), 200);
}

#[test]
fn test_client_host_derived_from_target() {
    // an absolute target supplies the host when the request carries none
    let uri = Uri::from_target(b"https://example.org/foo".to_vec()).unwrap();
    let req = Request::new(
        b"GET".to_vec(),
        uri,
        Version::Http11,
        Headers::new(),
        Body::empty(),
    );
    let wire = Encoder::encode(req).unwrap().into_bytes();
    assert_eq!(
        String::from_utf8(wire).unwrap(),
        "GET /foo HTTP/1.1\r\nhost: example.org\r\ncontent-length: 0\r\n\r\n"
    );
}

#[test]
fn test_client_connect_uses_authority() {
    let uri = Uri::from_target(b"https://example.org:443".to_vec()).unwrap();
    let req = Request::new(
        b"CONNECT".to_vec(),
        uri,
        Version::Http11,
        Headers::new(),
        Body::empty(),
    );
    let wire = Encoder::encode(req).unwrap().into_bytes();
    assert_eq!(
        String::from_utf8(wire).unwrap(),
        "CONNECT example.org:443 HTTP/1.1\r\nhost: example.org:443\r\nproxy-connection: keep-alive\r\ncontent-length: 0\r\n\r\n"
    );
}

#[test]
fn test_client_missing_host_is_an_error() {
    // an origin-form target has no authority to derive a host from
    let uri = Uri::from_target(b"/foo".to_vec()).unwrap();
    let req = Request::new(
        b"GET".to_vec(),
        uri,
        Version::Http11,
        Headers::new(),
        Body::empty(),
    );
    assert!(Encoder::encode(req).is_err());
}

#[test]
fn test_client_decode_head_cap() {
    // a response head beyond the size guard is refused
    let mut big = String::from("HTTP/1.1 200 OK\r\nx-filler: ");
    big.push_str(&"a".repeat(9000));
    big.push_str("\r\ncontent-length: 0\r\n\r\n");
    assert!(decode(big.as_bytes()).is_err());
}
