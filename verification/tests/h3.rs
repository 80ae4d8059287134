use vidarax_api::h3::{
    assemble_head, fail_h3_response, parse_h3_request_head, push_body, refuse_h3_request, H3Header,
    ReadHeader, MAX_H3_BODY_BYTES,
};

fn line(name: &[u8], value: &[u8]) -> H3Header {
    H3Header { name: name.to_vec(), value: value.to_vec() }
}

#[test]
fn request_heads_are_read() {
    let head = parse_h3_request_head(&vec![
        line(b":method", b"GET"),
        line(b":scheme", b"https"),
        line(b":path", b"/v1/health"),
        line(b"x-api-key", b"secret"),
    ])
    .ok()
    .expect("a head");
    assert_eq!(head.method, "GET");
    assert_eq!(head.path, "/v1/health");
    assert_eq!(head.headers, vec![("x-api-key".to_string(), b"secret".to_vec())]);
}

#[test]
fn header_names_are_lower_case_in_the_head() {
    let head = parse_h3_request_head(&vec![
        line(b":method", b"POST"),
        line(b":path", b"/"),
        line(b"X-Tenant-Id", b"t"),
    ])
    .ok()
    .expect("a head");
    assert_eq!(head.headers[0].0, "x-tenant-id");
}

#[test]
fn broken_heads_are_refused() {
    assert!(parse_h3_request_head(&vec![line(b":path", b"/")]).is_err());
    assert!(parse_h3_request_head(&vec![line(b":method", b"GET")]).is_err());
    assert!(parse_h3_request_head(&vec![line(b":method", b"G T"), line(b":path", b"/")]).is_err());
    assert!(parse_h3_request_head(&vec![
        line(b":method", b"GET"),
        line(b":path", b"/"),
        line(b"bad name", b"x"),
    ])
    .is_err());
    assert!(parse_h3_request_head(&vec![
        line(b":method", b"GET"),
        line(b":path", b"/"),
        line(b"name", b"a\nb"),
    ])
    .is_err());
    assert!(assemble_head(vec![ReadHeader::Method(Err("bad".to_string()))]).is_err());
}

#[test]
fn bodies_are_bounded() {
    let mut body = vec![0u8; MAX_H3_BODY_BYTES - 1];
    assert!(push_body(&mut body, &[1]).is_ok());
    assert_eq!(body.len(), MAX_H3_BODY_BYTES);
    assert!(push_body(&mut body, &[1]).is_err());
    assert_eq!(body.len(), MAX_H3_BODY_BYTES);
}

#[test]
fn failures_are_answered() {
    assert_eq!(refuse_h3_request("no").status, 400);
    assert!(fail_h3_response("lost").status >= 500);
}
