use auralis::headers::{stream_headers, user_agent};

fn pair(k: &str, v: &str) -> (String, String) {
    (k.to_string(), v.to_string())
}

#[test]
fn requests_carry_the_edge_headers_unless_the_job_overrides_them() {
    let plain = stream_headers(&Vec::new());
    assert_eq!(
        plain,
        vec![
            pair("Referer", "https://www.youtube.com/"),
            pair("Origin", "https://www.youtube.com"),
            pair("Accept", "*/*"),
            pair("Accept-Language", "en-US,en;q=0.9"),
            pair("Sec-Fetch-Mode", "no-cors"),
            pair("Connection", "keep-alive"),
        ]
    );
    let job = vec![
        pair("Referer", "https://m.youtube.com/"),
        pair("USER-AGENT", "custom"),
        pair("X-Goog-Visitor-Id", "abc"),
    ];
    let headers = stream_headers(&job);
    assert_eq!(headers.len(), 7);
    assert_eq!(headers[0], pair("Referer", "https://m.youtube.com/"));
    assert_eq!(headers[6], pair("X-Goog-Visitor-Id", "abc"));
    assert!(headers.iter().all(|(k, _)| !k.eq_ignore_ascii_case("user-agent")));
}

#[test]
fn the_client_takes_the_jobs_user_agent_or_a_mobile_default() {
    assert_eq!(user_agent(&vec![pair("User-Agent", "ua-1")]), "ua-1");
    assert_eq!(user_agent(&vec![pair("user-agent", "ua-2")]), "ua-2");
    assert!(user_agent(&vec![pair("USER-AGENT", "ua-3")]).starts_with("Mozilla/5.0 (Linux; Android 14"));
    assert!(user_agent(&Vec::new()).ends_with("Mobile Safari/537.36"));
}
