use media_proxy_core::forward::build_forward;
use media_proxy_core::ProxyError;

fn s(text: &str) -> String {
    text.to_string()
}

fn sample_headers() -> Vec<(String, String)> {
    vec![
        (s("accept"), s("*/*")),
        (s("host"), s("proxy.local:4000")),
        (s("user-agent"), s("player/1.0")),
        (s("range"), s("bytes=0-")),
    ]
}

#[test]
fn forward_keeps_method_and_headers_but_host() {
    let target = s("https://cdn.example.com/stream.mp3");
    let fw = build_forward(s("GET"), sample_headers(), &target).unwrap();
    assert_eq!(fw.method, "GET");
    assert_eq!(
        fw.headers,
        vec![(s("accept"), s("*/*")), (s("user-agent"), s("player/1.0")), (s("range"), s("bytes=0-"))]
    );
}

#[test]
fn forward_targets_the_resolved_url() {
    let target = s("https://cdn.example.com/stream.mp3");
    let fw = build_forward(s("GET"), vec![], &target).unwrap();
    assert_eq!(fw.target, target.parse::<hyper::Uri>().unwrap());
}

#[test]
fn an_unparseable_target_is_invalid() {
    let target = s("");
    assert!(matches!(
        build_forward(s("GET"), sample_headers(), &target),
        Err(ProxyError::InvalidTargetUrl)
    ));
}

#[test]
fn a_target_with_spaces_is_invalid() {
    let target = s("https://cdn.example.com/a b");
    assert!(matches!(
        build_forward(s("GET"), vec![], &target),
        Err(ProxyError::InvalidTargetUrl)
    ));
}

#[test]
fn every_host_spelling_hyper_normalizes_is_removed() {
    // hyper lowercases header names on the way in; the library sees "host".
    let headers = vec![(s("host"), s("a")), (s("accept"), s("*/*")), (s("host"), s("b"))];
    let target = s("http://origin.example.com/x");
    let fw = build_forward(s("HEAD"), headers, &target).unwrap();
    assert_eq!(fw.headers, vec![(s("accept"), s("*/*"))]);
    assert_eq!(fw.method, "HEAD");
}
