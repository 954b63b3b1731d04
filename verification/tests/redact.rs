use flowtap::redact::redact_http_headers;

#[test]
fn redacts_selected_headers_case_insensitively() {
    let input = "GET / HTTP/1.1\r\n\
                 Host: example.com\r\n\
                 Authorization: Bearer secret\r\n\
                 cookie: sid=secret\r\n\
                 \r\n";
    let output = redact_http_headers(input);
    assert!(output.contains("Host: example.com\r\n"));
    assert!(output.contains("Authorization: [REDACTED]\r\n"));
    assert!(output.contains("cookie: [REDACTED]\r\n"));
    assert!(!output.contains("secret"));
}

#[test]
fn redacts_last_header_without_newline() {
    assert_eq!(
        redact_http_headers("Set-Cookie: sid=secret"),
        "Set-Cookie: [REDACTED]"
    );
}

#[test]
fn does_not_modify_message_body() {
    let input = "HTTP/1.1 200 OK\r\nContent-Type: text/plain\r\n\r\nCookie: body";
    assert_eq!(redact_http_headers(input), input);
}

#[test]
fn redacts_proxy_authorization_with_lf_endings() {
    assert_eq!(
        redact_http_headers("POST / HTTP/1.1\nPROXY-AUTHORIZATION: Basic abc\nX: y\n"),
        "POST / HTTP/1.1\nPROXY-AUTHORIZATION: [REDACTED]\nX: y\n"
    );
}

#[test]
fn trims_white_space_around_the_header_name() {
    assert_eq!(
        redact_http_headers("  Cookie \t: a=b\r\n"),
        "  Cookie \t: [REDACTED]\r\n"
    );
}

#[test]
fn keeps_lines_without_colon_and_similar_names() {
    let input = "Cookies: a\r\nAuthorization-Extra: b\r\nno colon here\r\n";
    assert_eq!(redact_http_headers(input), input);
}

#[test]
fn empty_input_gives_empty_output() {
    assert_eq!(redact_http_headers(""), "");
}

#[test]
fn redacting_twice_changes_nothing_more() {
    let input = "GET / HTTP/1.1\r\nCookie: a\r\nSet-Cookie: b\n\r\nCookie: body\n";
    let once = redact_http_headers(input);
    assert_eq!(redact_http_headers(&once), once);
    assert_eq!(
        once,
        "GET / HTTP/1.1\r\nCookie: [REDACTED]\r\nSet-Cookie: [REDACTED]\n\r\nCookie: body\n"
    );
}

#[test]
fn non_ascii_name_is_not_matched() {
    let input = "Cookİe: x\r\n";
    assert_eq!(redact_http_headers(input), input);
}

#[test]
fn line_structure_is_kept() {
    let input = "GET / HTTP/1.1\r\nCookie: a=b; c=d\nAccept: */*\r\n\r\nCookie: x\nlast";
    let output = redact_http_headers(input);
    let before: Vec<&str> = input.split_inclusive('\n').collect();
    let after: Vec<&str> = output.split_inclusive('\n').collect();
    assert_eq!(before.len(), after.len());
    assert_eq!(after[1], "Cookie: [REDACTED]\n");
    for (i, (b, a)) in before.iter().zip(after.iter()).enumerate() {
        if i != 1 {
            assert_eq!(a, b);
        }
    }
}
