//! The literal tokens of the wire format, as byte sequences: header
//! names the core treats specially, protocol version strings, and the
//! reason phrases of the status line.

use vstd::prelude::*;

verus! {

/// `content-length`
pub open spec fn spec_content_length() -> Seq<u8> {
    seq![99, 111, 110, 116, 101, 110, 116, 45, 108, 101, 110, 103, 116, 104]
}

/// `content-length`
pub fn content_length_bytes() -> (r: Vec<u8>)
    ensures
        r@ == spec_content_length(),
{
    let v: Vec<u8> = vec![99, 111, 110, 116, 101, 110, 116, 45, 108, 101, 110, 103, 116, 104];
    proof {
        assert(v@ =~= spec_content_length());
    }
    v
}

/// `transfer-encoding`
pub open spec fn spec_transfer_encoding() -> Seq<u8> {
    seq![116, 114, 97, 110, 115, 102, 101, 114, 45, 101, 110, 99, 111, 100, 105, 110, 103]
}

/// `transfer-encoding`
pub fn transfer_encoding_bytes() -> (r: Vec<u8>)
    ensures
        r@ == spec_transfer_encoding(),
{
    let v: Vec<u8> = vec![116, 114, 97, 110, 115, 102, 101, 114, 45, 101, 110, 99, 111, 100, 105, 110, 103];
    proof {
        assert(v@ =~= spec_transfer_encoding());
    }
    v
}

/// `host`
pub open spec fn spec_host() -> Seq<u8> {
    seq![104, 111, 115, 116]
}

/// `host`
pub fn host_bytes() -> (r: Vec<u8>)
    ensures
        r@ == spec_host(),
{
    let v: Vec<u8> = vec![104, 111, 115, 116];
    proof {
        assert(v@ =~= spec_host());
    }
    v
}

/// `expect`
pub open spec fn spec_expect() -> Seq<u8> {
    seq![101, 120, 112, 101, 99, 116]
}

/// `expect`
pub fn expect_bytes() -> (r: Vec<u8>)
    ensures
        r@ == spec_expect(),
{
    let v: Vec<u8> = vec![101, 120, 112, 101, 99, 116];
    proof {
        assert(v@ =~= spec_expect());
    }
    v
}

/// `date`
pub open spec fn spec_date_name() -> Seq<u8> {
    seq![100, 97, 116, 101]
}

/// `date`
pub fn date_name_bytes() -> (r: Vec<u8>)
    ensures
        r@ == spec_date_name(),
{
    let v: Vec<u8> = vec![100, 97, 116, 101];
    proof {
        assert(v@ =~= spec_date_name());
    }
    v
}

/// `content-type`
pub open spec fn spec_content_type() -> Seq<u8> {
    seq![99, 111, 110, 116, 101, 110, 116, 45, 116, 121, 112, 101]
}

/// `content-type`
pub fn content_type_bytes() -> (r: Vec<u8>)
    ensures
        r@ == spec_content_type(),
{
    let v: Vec<u8> = vec![99, 111, 110, 116, 101, 110, 116, 45, 116, 121, 112, 101];
    proof {
        assert(v@ =~= spec_content_type());
    }
    v
}

/// `chunked`
pub open spec fn spec_chunked() -> Seq<u8> {
    seq![99, 104, 117, 110, 107, 101, 100]
}

/// `chunked`
pub fn chunked_bytes() -> (r: Vec<u8>)
    ensures
        r@ == spec_chunked(),
{
    let v: Vec<u8> = vec![99, 104, 117, 110, 107, 101, 100];
    proof {
        assert(v@ =~= spec_chunked());
    }
    v
}

/// `identity`
pub open spec fn spec_identity() -> Seq<u8> {
    seq![105, 100, 101, 110, 116, 105, 116, 121]
}

/// `identity`
pub fn identity_bytes() -> (r: Vec<u8>)
    ensures
        r@ == spec_identity(),
{
    let v: Vec<u8> = vec![105, 100, 101, 110, 116, 105, 116, 121];
    proof {
        assert(v@ =~= spec_identity());
    }
    v
}

/// `100-continue`
pub open spec fn spec_continue_expect() -> Seq<u8> {
    seq![49, 48, 48, 45, 99, 111, 110, 116, 105, 110, 117, 101]
}

/// `100-continue`
pub fn continue_expect_bytes() -> (r: Vec<u8>)
    ensures
        r@ == spec_continue_expect(),
{
    let v: Vec<u8> = vec![49, 48, 48, 45, 99, 111, 110, 116, 105, 110, 117, 101];
    proof {
        assert(v@ =~= spec_continue_expect());
    }
    v
}

/// `HTTP/1.1`
pub open spec fn spec_http11() -> Seq<u8> {
    seq![72, 84, 84, 80, 47, 49, 46, 49]
}

/// `HTTP/1.1`
pub fn http11_bytes() -> (r: Vec<u8>)
    ensures
        r@ == spec_http11(),
{
    let v: Vec<u8> = vec![72, 84, 84, 80, 47, 49, 46, 49];
    proof {
        assert(v@ =~= spec_http11());
    }
    v
}

/// `HTTP/1.0`
pub open spec fn spec_http10() -> Seq<u8> {
    seq![72, 84, 84, 80, 47, 49, 46, 48]
}

/// `HTTP/1.0`
pub fn http10_bytes() -> (r: Vec<u8>)
    ensures
        r@ == spec_http10(),
{
    let v: Vec<u8> = vec![72, 84, 84, 80, 47, 49, 46, 48];
    proof {
        assert(v@ =~= spec_http10());
    }
    v
}

/// `text/plain`
pub open spec fn spec_text_plain() -> Seq<u8> {
    seq![116, 101, 120, 116, 47, 112, 108, 97, 105, 110]
}

/// `text/plain`
pub fn text_plain_bytes() -> (r: Vec<u8>)
    ensures
        r@ == spec_text_plain(),
{
    let v: Vec<u8> = vec![116, 101, 120, 116, 47, 112, 108, 97, 105, 110];
    proof {
        assert(v@ =~= spec_text_plain());
    }
    v
}

/// `HTTP/1.1 100 Continue\r\n\r\n`
pub open spec fn spec_continue_response() -> Seq<u8> {
    seq![72, 84, 84, 80, 47, 49, 46, 49, 32, 49, 48, 48, 32, 67, 111, 110, 116, 105, 110, 117, 101, 13, 10, 13, 10]
}

/// `HTTP/1.1 100 Continue\r\n\r\n`
pub fn continue_response_bytes() -> (r: Vec<u8>)
    ensures
        r@ == spec_continue_response(),
{
    let v: Vec<u8> = vec![72, 84, 84, 80, 47, 49, 46, 49, 32, 49, 48, 48, 32, 67, 111, 110, 116, 105, 110, 117, 101, 13, 10, 13, 10];
    proof {
        assert(v@ =~= spec_continue_response());
    }
    v
}

/// `cookie`
pub open spec fn spec_cookie_header() -> Seq<u8> {
    seq![99, 111, 111, 107, 105, 101]
}

/// `cookie`
pub fn cookie_header_bytes() -> (r: Vec<u8>)
    ensures
        r@ == spec_cookie_header(),
{
    let v: Vec<u8> = vec![99, 111, 111, 107, 105, 101];
    proof {
        assert(v@ =~= spec_cookie_header());
    }
    v
}

/// `set-cookie`
pub open spec fn spec_set_cookie() -> Seq<u8> {
    seq![115, 101, 116, 45, 99, 111, 111, 107, 105, 101]
}

/// `set-cookie`
pub fn set_cookie_bytes() -> (r: Vec<u8>)
    ensures
        r@ == spec_set_cookie(),
{
    let v: Vec<u8> = vec![115, 101, 116, 45, 99, 111, 111, 107, 105, 101];
    proof {
        assert(v@ =~= spec_set_cookie());
    }
    v
}

/// `CONNECT`
pub open spec fn spec_connect_method() -> Seq<u8> {
    seq![67, 79, 78, 78, 69, 67, 84]
}

/// `CONNECT`
pub fn connect_method_bytes() -> (r: Vec<u8>)
    ensures
        r@ == spec_connect_method(),
{
    let v: Vec<u8> = vec![67, 79, 78, 78, 69, 67, 84];
    proof {
        assert(v@ =~= spec_connect_method());
    }
    v
}

/// `proxy-connection`
pub open spec fn spec_proxy_connection() -> Seq<u8> {
    seq![112, 114, 111, 120, 121, 45, 99, 111, 110, 110, 101, 99, 116, 105, 111, 110]
}

/// `proxy-connection`
pub fn proxy_connection_bytes() -> (r: Vec<u8>)
    ensures
        r@ == spec_proxy_connection(),
{
    let v: Vec<u8> = vec![112, 114, 111, 120, 121, 45, 99, 111, 110, 110, 101, 99, 116, 105, 111, 110];
    proof {
        assert(v@ =~= spec_proxy_connection());
    }
    v
}

/// `keep-alive`
pub open spec fn spec_keep_alive() -> Seq<u8> {
    seq![107, 101, 101, 112, 45, 97, 108, 105, 118, 101]
}

/// `keep-alive`
pub fn keep_alive_bytes() -> (r: Vec<u8>)
    ensures
        r@ == spec_keep_alive(),
{
    let v: Vec<u8> = vec![107, 101, 101, 112, 45, 97, 108, 105, 118, 101];
    proof {
        assert(v@ =~= spec_keep_alive());
    }
    v
}

/// The canonical reason phrase of a status code; empty when the code
/// has none.
pub open spec fn spec_reason(code: u16) -> Seq<u8> {
    if code == 100 {
        seq![67, 111, 110, 116, 105, 110, 117, 101]  // Continue
    } else if code == 101 {
        seq![83, 119, 105, 116, 99, 104, 105, 110, 103, 32, 80, 114, 111, 116, 111, 99, 111, 108, 115]  // Switching Protocols
    } else if code == 200 {
        seq![79, 75]  // OK
    } else if code == 201 {
        seq![67, 114, 101, 97, 116, 101, 100]  // Created
    } else if code == 202 {
        seq![65, 99, 99, 101, 112, 116, 101, 100]  // Accepted
    } else if code == 204 {
        seq![78, 111, 32, 67, 111, 110, 116, 101, 110, 116]  // No Content
    } else if code == 301 {
        seq![77, 111, 118, 101, 100, 32, 80, 101, 114, 109, 97, 110, 101, 110, 116, 108, 121]  // Moved Permanently
    } else if code == 302 {
        seq![70, 111, 117, 110, 100]  // Found
    } else if code == 303 {
        seq![83, 101, 101, 32, 79, 116, 104, 101, 114]  // See Other
    } else if code == 304 {
        seq![78, 111, 116, 32, 77, 111, 100, 105, 102, 105, 101, 100]  // Not Modified
    } else if code == 307 {
        seq![84, 101, 109, 112, 111, 114, 97, 114, 121, 32, 82, 101, 100, 105, 114, 101, 99, 116]  // Temporary Redirect
    } else if code == 308 {
        seq![80, 101, 114, 109, 97, 110, 101, 110, 116, 32, 82, 101, 100, 105, 114, 101, 99, 116]  // Permanent Redirect
    } else if code == 400 {
        seq![66, 97, 100, 32, 82, 101, 113, 117, 101, 115, 116]  // Bad Request
    } else if code == 401 {
        seq![85, 110, 97, 117, 116, 104, 111, 114, 105, 122, 101, 100]  // Unauthorized
    } else if code == 403 {
        seq![70, 111, 114, 98, 105, 100, 100, 101, 110]  // Forbidden
    } else if code == 404 {
        seq![78, 111, 116, 32, 70, 111, 117, 110, 100]  // Not Found
    } else if code == 405 {
        seq![77, 101, 116, 104, 111, 100, 32, 78, 111, 116, 32, 65, 108, 108, 111, 119, 101, 100]  // Method Not Allowed
    } else if code == 408 {
        seq![82, 101, 113, 117, 101, 115, 116, 32, 84, 105, 109, 101, 111, 117, 116]  // Request Timeout
    } else if code == 409 {
        seq![67, 111, 110, 102, 108, 105, 99, 116]  // Conflict
    } else if code == 410 {
        seq![71, 111, 110, 101]  // Gone
    } else if code == 411 {
        seq![76, 101, 110, 103, 116, 104, 32, 82, 101, 113, 117, 105, 114, 101, 100]  // Length Required
    } else if code == 413 {
        seq![80, 97, 121, 108, 111, 97, 100, 32, 84, 111, 111, 32, 76, 97, 114, 103, 101]  // Payload Too Large
    } else if code == 500 {
        seq![73, 110, 116, 101, 114, 110, 97, 108, 32, 83, 101, 114, 118, 101, 114, 32, 69, 114, 114, 111, 114]  // Internal Server Error
    } else if code == 501 {
        seq![78, 111, 116, 32, 73, 109, 112, 108, 101, 109, 101, 110, 116, 101, 100]  // Not Implemented
    } else if code == 502 {
        seq![66, 97, 100, 32, 71, 97, 116, 101, 119, 97, 121]  // Bad Gateway
    } else if code == 503 {
        seq![83, 101, 114, 118, 105, 99, 101, 32, 85, 110, 97, 118, 97, 105, 108, 97, 98, 108, 101]  // Service Unavailable
    } else if code == 504 {
        seq![71, 97, 116, 101, 119, 97, 121, 32, 84, 105, 109, 101, 111, 117, 116]  // Gateway Timeout
    } else if code == 505 {
        seq![72, 84, 84, 80, 32, 86, 101, 114, 115, 105, 111, 110, 32, 78, 111, 116, 32, 83, 117, 112, 112, 111, 114, 116, 101, 100]  // HTTP Version Not Supported
    } else {
        Seq::empty()
    }
}

/// The canonical reason phrase of a status code; empty when the code
/// has none.
pub fn reason_bytes(code: u16) -> (r: Vec<u8>)
    ensures
        r@ == spec_reason(code),
{
    if code == 100 {
        let v: Vec<u8> = vec![67, 111, 110, 116, 105, 110, 117, 101];  // Continue
        proof {
            assert(v@ =~= spec_reason(code));
        }
        v
    } else if code == 101 {
        let v: Vec<u8> = vec![83, 119, 105, 116, 99, 104, 105, 110, 103, 32, 80, 114, 111, 116, 111, 99, 111, 108, 115];  // Switching Protocols
        proof {
            assert(v@ =~= spec_reason(code));
        }
        v
    } else if code == 200 {
        let v: Vec<u8> = vec![79, 75];  // OK
        proof {
            assert(v@ =~= spec_reason(code));
        }
        v
    } else if code == 201 {
        let v: Vec<u8> = vec![67, 114, 101, 97, 116, 101, 100];  // Created
        proof {
            assert(v@ =~= spec_reason(code));
        }
        v
    } else if code == 202 {
        let v: Vec<u8> = vec![65, 99, 99, 101, 112, 116, 101, 100];  // Accepted
        proof {
            assert(v@ =~= spec_reason(code));
        }
        v
    } else if code == 204 {
        let v: Vec<u8> = vec![78, 111, 32, 67, 111, 110, 116, 101, 110, 116];  // No Content
        proof {
            assert(v@ =~= spec_reason(code));
        }
        v
    } else if code == 301 {
        let v: Vec<u8> = vec![77, 111, 118, 101, 100, 32, 80, 101, 114, 109, 97, 110, 101, 110, 116, 108, 121];  // Moved Permanently
        proof {
            assert(v@ =~= spec_reason(code));
        }
        v
    } else if code == 302 {
        let v: Vec<u8> = vec![70, 111, 117, 110, 100];  // Found
        proof {
            assert(v@ =~= spec_reason(code));
        }
        v
    } else if code == 303 {
        let v: Vec<u8> = vec![83, 101, 101, 32, 79, 116, 104, 101, 114];  // See Other
        proof {
            assert(v@ =~= spec_reason(code));
        }
        v
    } else if code == 304 {
        let v: Vec<u8> = vec![78, 111, 116, 32, 77, 111, 100, 105, 102, 105, 101, 100];  // Not Modified
        proof {
            assert(v@ =~= spec_reason(code));
        }
        v
    } else if code == 307 {
        let v: Vec<u8> = vec![84, 101, 109, 112, 111, 114, 97, 114, 121, 32, 82, 101, 100, 105, 114, 101, 99, 116];  // Temporary Redirect
        proof {
            assert(v@ =~= spec_reason(code));
        }
        v
    } else if code == 308 {
        let v: Vec<u8> = vec![80, 101, 114, 109, 97, 110, 101, 110, 116, 32, 82, 101, 100, 105, 114, 101, 99, 116];  // Permanent Redirect
        proof {
            assert(v@ =~= spec_reason(code));
        }
        v
    } else if code == 400 {
        let v: Vec<u8> = vec![66, 97, 100, 32, 82, 101, 113, 117, 101, 115, 116];  // Bad Request
        proof {
            assert(v@ =~= spec_reason(code));
        }
        v
    } else if code == 401 {
        let v: Vec<u8> = vec![85, 110, 97, 117, 116, 104, 111, 114, 105, 122, 101, 100];  // Unauthorized
        proof {
            assert(v@ =~= spec_reason(code));
        }
        v
    } else if code == 403 {
        let v: Vec<u8> = vec![70, 111, 114, 98, 105, 100, 100, 101, 110];  // Forbidden
        proof {
            assert(v@ =~= spec_reason(code));
        }
        v
    } else if code == 404 {
        let v: Vec<u8> = vec![78, 111, 116, 32, 70, 111, 117, 110, 100];  // Not Found
        proof {
            assert(v@ =~= spec_reason(code));
        }
        v
    } else if code == 405 {
        let v: Vec<u8> = vec![77, 101, 116, 104, 111, 100, 32, 78, 111, 116, 32, 65, 108, 108, 111, 119, 101, 100];  // Method Not Allowed
        proof {
            assert(v@ =~= spec_reason(code));
        }
        v
    } else if code == 408 {
        let v: Vec<u8> = vec![82, 101, 113, 117, 101, 115, 116, 32, 84, 105, 109, 101, 111, 117, 116];  // Request Timeout
        proof {
            assert(v@ =~= spec_reason(code));
        }
        v
    } else if code == 409 {
        let v: Vec<u8> = vec![67, 111, 110, 102, 108, 105, 99, 116];  // Conflict
        proof {
            assert(v@ =~= spec_reason(code));
        }
        v
    } else if code == 410 {
        let v: Vec<u8> = vec![71, 111, 110, 101];  // Gone
        proof {
            assert(v@ =~= spec_reason(code));
        }
        v
    } else if code == 411 {
        let v: Vec<u8> = vec![76, 101, 110, 103, 116, 104, 32, 82, 101, 113, 117, 105, 114, 101, 100];  // Length Required
        proof {
            assert(v@ =~= spec_reason(code));
        }
        v
    } else if code == 413 {
        let v: Vec<u8> = vec![80, 97, 121, 108, 111, 97, 100, 32, 84, 111, 111, 32, 76, 97, 114, 103, 101];  // Payload Too Large
        proof {
            assert(v@ =~= spec_reason(code));
        }
        v
    } else if code == 500 {
        let v: Vec<u8> = vec![73, 110, 116, 101, 114, 110, 97, 108, 32, 83, 101, 114, 118, 101, 114, 32, 69, 114, 114, 111, 114];  // Internal Server Error
        proof {
            assert(v@ =~= spec_reason(code));
        }
        v
    } else if code == 501 {
        let v: Vec<u8> = vec![78, 111, 116, 32, 73, 109, 112, 108, 101, 109, 101, 110, 116, 101, 100];  // Not Implemented
        proof {
            assert(v@ =~= spec_reason(code));
        }
        v
    } else if code == 502 {
        let v: Vec<u8> = vec![66, 97, 100, 32, 71, 97, 116, 101, 119, 97, 121];  // Bad Gateway
        proof {
            assert(v@ =~= spec_reason(code));
        }
        v
    } else if code == 503 {
        let v: Vec<u8> = vec![83, 101, 114, 118, 105, 99, 101, 32, 85, 110, 97, 118, 97, 105, 108, 97, 98, 108, 101];  // Service Unavailable
        proof {
            assert(v@ =~= spec_reason(code));
        }
        v
    } else if code == 504 {
        let v: Vec<u8> = vec![71, 97, 116, 101, 119, 97, 121, 32, 84, 105, 109, 101, 111, 117, 116];  // Gateway Timeout
        proof {
            assert(v@ =~= spec_reason(code));
        }
        v
    } else if code == 505 {
        let v: Vec<u8> = vec![72, 84, 84, 80, 32, 86, 101, 114, 115, 105, 111, 110, 32, 78, 111, 116, 32, 83, 117, 112, 112, 111, 114, 116, 101, 100];  // HTTP Version Not Supported
        proof {
            assert(v@ =~= spec_reason(code));
        }
        v
    } else {
        let v: Vec<u8> = Vec::new();
        proof {
            assert(v@ =~= spec_reason(code));
        }
        v
    }
}

} // verus!