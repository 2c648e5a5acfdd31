use agentero::web::allowlist::{
    is_public_dns_host, normalize_host, web_proxy_allow_host, HostAllowlist,
    WebProxyAllowHostArgs,
};
use agentero::web::proxy::{
    base_url_for, escape_attr, find_head_open, inject_document, is_html, meta_sets_csp,
    not_allowed_message, refusal_response, rewrite_body, route_request, upstream_response,
    UpstreamReply, strip_meta_csp, target_from_parts, upstream_url, WEB_BRIDGE,
};

#[test]
fn allows_public_dns_hosts() {
    assert!(is_public_dns_host("arxiv.org"));
    assert!(is_public_dns_host("blog.nature.com"));
    assert!(is_public_dns_host("xn--e1afmkfd.xn--p1ai"));
}

#[test]
fn refuses_non_public_hosts() {
    assert!(!is_public_dns_host("localhost"));
    assert!(!is_public_dns_host("intranet"));
    assert!(!is_public_dns_host("printer.internal"));
    assert!(!is_public_dns_host("raspberrypi.local"));
    assert!(!is_public_dns_host("169.254.169.254"));
    assert!(!is_public_dns_host("127.0.0.1"));
    assert!(!is_public_dns_host("::1"));
    assert!(!is_public_dns_host("10.0.0.1"));
    assert!(!is_public_dns_host(""));
    assert!(!is_public_dns_host("arxiv.org:8080/path"));
}

#[test]
fn allow_then_serve() {
    let mut list = HostAllowlist::new();
    assert!(!list.is_allowed("Example.COM"));
    list.allow_host("Example.COM");
    assert!(list.is_allowed("example.com"));
    assert!(list.is_allowed("EXAMPLE.com"));
}

#[test]
fn allow_drops_invalid_hosts() {
    let mut list = HostAllowlist::new();
    list.allow_host("169.254.169.254");
    assert!(!list.is_allowed("169.254.169.254"));
}

#[test]
fn ipv4_literals_are_told_from_names() {
    assert!(!is_public_dns_host("1.2.3.4"));
    // Any name ending in a numeric label reads as an IPv4 address.
    assert!(!is_public_dns_host("01.2.3.4"));
    assert!(!is_public_dns_host("1.2.3.4.5"));
    assert!(!is_public_dns_host("1.2.3.256"));
    assert!(!is_public_dns_host("127.1"));
    assert!(!is_public_dns_host("169.254.43518"));
    assert!(!is_public_dns_host("0x7f.0.0.1"));
    assert!(!is_public_dns_host("example.0x1F"));
    assert!(!is_public_dns_host("10.0.0.1."));
    assert!(is_public_dns_host("1.2.3.example"));
    assert!(is_public_dns_host("host.0xg1"));
    assert!(!is_public_dns_host("a.localhost"));
    assert!(!is_public_dns_host("x.in-addr.arpa"));
    assert!(!is_public_dns_host("exa mple.com"));
}

#[test]
fn proxy_command_normalizes_and_reports() {
    let mut list = HostAllowlist::new();
    assert!(web_proxy_allow_host(&mut list, &WebProxyAllowHostArgs { host: "  ArXiv.org.. ".to_string() }));
    assert!(list.is_allowed("arxiv.org"));
    assert!(!web_proxy_allow_host(&mut list, &WebProxyAllowHostArgs { host: "localhost".to_string() }));
    assert!(!list.is_allowed("localhost"));
    // Idempotent.
    assert!(web_proxy_allow_host(&mut list, &WebProxyAllowHostArgs { host: "arxiv.org".to_string() }));
    assert!(list.is_allowed("ARXIV.ORG."));
    assert_eq!(normalize_host(" Blog.Nature.COM. "), "blog.nature.com");
}

#[test]
fn parses_host_in_path_shapes() {
    // agentero-web://localhost/arxiv.org/abs/1234?fmt=html
    let t = target_from_parts("localhost", "/arxiv.org/abs/1234", Some("fmt=html")).expect("target");
    assert_eq!(t.host, "arxiv.org");
    assert_eq!(t.path_query, "/abs/1234?fmt=html");
    // http://agentero-web.localhost/blog.nature.com/posts/x
    let t = target_from_parts("agentero-web.localhost", "/blog.nature.com/posts/x", None)
        .expect("target");
    assert_eq!(t.host, "blog.nature.com");
    assert_eq!(t.path_query, "/posts/x");
}

#[test]
fn parses_direct_host_shape() {
    // agentero-web://cdn.example.com/a/b.js?v=2
    let t = target_from_parts("cdn.example.com", "/a/b.js", Some("v=2")).expect("target");
    assert_eq!(t.host, "cdn.example.com");
    assert_eq!(t.path_query, "/a/b.js?v=2");
}

#[test]
fn rejects_pathless_and_traversal_requests() {
    // agentero-web://localhost/about
    assert!(target_from_parts("localhost", "/about", None).is_none());
    // agentero-web://localhost//x
    assert!(target_from_parts("localhost", "//x", None).is_none());
    // agentero-web://localhost/arxiv.org/../secret
    assert!(target_from_parts("localhost", "/arxiv.org/../secret", None).is_none());
}

#[test]
fn injects_base_and_bridge_after_head_open() {
    let html = "<html><head><title>t</title><link rel=\"stylesheet\" href=\"/css/main.css\"></head><body></body></html>";
    let out = inject_document(html, "https://arxiv.org/abs/1234");
    let base = out
        .find("<base href=\"https://arxiv.org/abs/1234\">")
        .expect("base");
    let bridge = out.find("agentero-web").expect("bridge");
    let title = out.find("<title>").expect("title after injections");
    let link = out.find("<link").expect("link");
    assert!(base < link && bridge < link && title > base);
    assert!(out.contains("</head>"));
    assert!(out.ends_with("</html>"));
}

#[test]
fn does_not_mistake_header_for_head() {
    let html = "<html><body><header><h1>x</h1></header></body></html>";
    let out = inject_document(html, "https://example.com/a");
    let base = out
        .find("<base href=\"https://example.com/a\">")
        .expect("base");
    assert_eq!(base, 0);
    assert!(out.contains("<header>"));
}

#[test]
fn escapes_the_base_url() {
    let out = inject_document("<html><head></head></html>", "https://x.com/a?b=1&c=<\"");
    assert!(out.contains("<base href=\"https://x.com/a?b=1&amp;c=&lt;&quot;\">"));
}

#[test]
fn base_url_drops_the_query() {
    assert_eq!(base_url_for("https://x.com/a/b?pg=2"), "https://x.com/a/b");
    assert_eq!(base_url_for("https://x.com/a/b"), "https://x.com/a/b");
}

#[test]
fn strips_multiline_csp_meta() {
    let html = "<html><head>\n<meta\n  http-equiv=\"Content-Security-Policy\"\n  content=\"default-src 'self'; style-src 'self' 'unsafe-inline'\">\n<link rel=\"stylesheet\" href=\"/app.css\"></head></html>";
    let out = inject_document(html, "https://x.com/a");
    assert!(!out.to_ascii_lowercase().contains("content-security-policy"));
    assert!(out.contains("<link rel=\"stylesheet\" href=\"/app.css\">"));
    assert!(out.contains("<base href=\"https://x.com/a\">"));
    assert!(out.ends_with("</html>"));
}

#[test]
fn strips_csp_meta_regardless_of_attribute_order_or_case() {
    let html = "<head><meta content='Content-Security-Policy' http-equiv='Content-Security-Policy'><title>t</title></head>";
    assert!(!strip_meta_csp(html)
        .to_lowercase()
        .contains("content-security-policy"));
    assert!(
        !strip_meta_csp("<meta http-equiv=Content-Security-Policy content=x>").contains("CSP")
    );
}

#[test]
fn keeps_unrelated_and_body_metas() {
    let html = "<head><meta charset=\"utf-8\"><meta name=\"description\" content=\"csp talk: Content-Security-Policy explained\"></head><body><p>a &lt; metaphor</p></body>";
    let out = strip_meta_csp(html);
    assert!(out.contains("<meta charset=\"utf-8\">"));
    assert!(out.contains("Content-Security-Policy explained"));
}

#[test]
fn bridge_reports_selection_with_rect() {
    assert!(WEB_BRIDGE.contains("type: \"selection\""));
    assert!(WEB_BRIDGE.contains("rect = { x: r.left, y: r.top"));
    assert!(WEB_BRIDGE.contains("MAX_SELECTION_CHARS = 4000"));
}

#[test]
fn bridge_forwards_shortcuts() {
    assert!(WEB_BRIDGE.contains("\"quickChat\""));
    assert!(WEB_BRIDGE.contains("\"addToChat\""));
    assert!(WEB_BRIDGE.contains("isEditable"));
}

#[test]
fn bridge_confines_navigation() {
    assert!(WEB_BRIDGE.contains("location.assign(\"/\" + host"));
    assert!(WEB_BRIDGE.contains("type: \"external\""));
    assert!(WEB_BRIDGE.contains("url.protocol !== \"http:\" && url.protocol !== \"https:\""));
}

#[test]
fn bridge_honors_host_messages() {
    assert!(WEB_BRIDGE.contains("agentero-web-host"));
    assert!(WEB_BRIDGE.contains("clearSelection"));
    assert!(WEB_BRIDGE.contains("copySelection"));
}

#[test]
fn head_tags_and_csp_tags() {
    assert_eq!(find_head_open("<HEAD>"), Some(6));
    assert_eq!(find_head_open("<head lang=en>x"), Some(14));
    assert_eq!(find_head_open("<headx>"), None);
    assert_eq!(find_head_open("<head"), None);
    assert!(meta_sets_csp("<meta http-equiv = \"content-security-policy\">"));
    assert!(!meta_sets_csp("<metadata http-equiv=content-security-policy>"));
    assert!(!meta_sets_csp("<meta name=content-security-policy>"));
    assert!(meta_sets_csp("<meta/ http-equiv=content-security-policy/>") == false);
    // Unclosed tag: left alone.
    assert_eq!(strip_meta_csp("<p><meta http-equiv=content-security-policy"), "<p><meta http-equiv=content-security-policy");
    assert_eq!(escape_attr("a&b\"<c>"), "a&amp;b&quot;&lt;c>");
}

#[test]
fn routing_helpers() {
    let t = target_from_parts("localhost", "/arxiv.org/abs/1", None).expect("target");
    assert_eq!(upstream_url(&t), "https://arxiv.org/abs/1");
    assert_eq!(not_allowed_message("evil.example"), "agentero-web: evil.example is not allowed here");
    assert!(is_html("text/html; charset=utf-8"));
    assert!(!is_html("application/json"));
}

#[test]
fn documents_without_meta_tags_pass_unchanged() {
    let html = "<html><head><title>no tags</title></head><body>plain</body></html>";
    assert_eq!(strip_meta_csp(html), html);
}

#[test]
fn apostrophe_inside_a_quoted_value_stays_in_it() {
    let tag = "<meta name=\"description\" content=\"don't set http-equiv='content-security-policy' here\">";
    assert!(!meta_sets_csp(tag));
    let html = format!("<head>{tag}</head>");
    assert_eq!(strip_meta_csp(&html), html);
    assert!(meta_sets_csp("<meta content=\"a'b\" http-equiv='content-security-policy'>"));
}

fn allowlist_of(hosts: &[&str]) -> HostAllowlist {
    let mut list = HostAllowlist::new();
    for h in hosts {
        list.allow_host(h);
    }
    list
}

#[test]
fn route_request_forwards_allowed_hosts_over_https() {
    let list = allowlist_of(&["example.com"]);
    let url = route_request(&list, Some("localhost"), "/example.com/a/b.html", Some("x=1"));
    assert_eq!(url.ok(), Some("https://example.com/a/b.html?x=1".to_string()));
    let direct = route_request(&list, Some("Example.com"), "/paper", None);
    assert_eq!(direct.ok(), Some("https://Example.com/paper".to_string()));
}

#[test]
fn route_request_refuses_hosts_not_allowed() {
    let list = allowlist_of(&["example.com"]);
    let refusal = route_request(&list, Some("localhost"), "/evil.com/x", None).err().unwrap();
    assert_eq!(refusal.status, 403);
    assert_eq!(refusal.body, "agentero-web: evil.com is not allowed here");
    let empty = HostAllowlist::new();
    let refusal = route_request(&empty, Some("example.com"), "/", None).err().unwrap();
    assert_eq!(refusal.status, 403);
}

#[test]
fn route_request_refuses_malformed_requests() {
    let list = allowlist_of(&["example.com"]);
    for (host, path) in [
        (None, "/example.com/a"),
        (Some("localhost"), "/example.com/../a"),
        (Some("localhost"), "example.com/a"),
        (Some("localhost"), "/example.com"),
    ] {
        let refusal = route_request(&list, host, path, None).err().unwrap();
        assert_eq!(refusal.status, 400);
        assert_eq!(refusal.body, "agentero-web: malformed request");
    }
}

#[test]
fn rewrite_body_injects_into_html_documents_only() {
    let page = b"<html><head><title>t</title></head></html>".to_vec();
    let out = rewrite_body("text/html; charset=utf-8", true, "https://example.com/a/b?x=1", page.clone());
    let text = String::from_utf8(out).unwrap();
    assert!(text.starts_with("<html><head><base href=\"https://example.com/a/b\">"));
    assert!(text.ends_with("<title>t</title></head></html>"));
    assert_eq!(rewrite_body("text/css", true, "https://example.com/", page.clone()), page);
    assert_eq!(rewrite_body("text/html", false, "https://example.com/", page.clone()), page);
    let invalid = vec![0x3c, 0xff, 0xfe, 0x3e];
    assert_eq!(rewrite_body("text/html", true, "https://example.com/", invalid.clone()), invalid);
}

#[test]
fn rewrite_body_keeps_non_ascii_text() {
    let page = "<head>论文</head>".as_bytes().to_vec();
    let out = rewrite_body("text/html", true, "https://example.com/", page);
    let text = String::from_utf8(out).unwrap();
    assert!(text.ends_with("论文</head>"));
}

#[test]
fn normalizing_twice_changes_nothing() {
    for host in ["  Example.COM.. ", "arxiv.org", "", "...", "A.b.C."] {
        let once = normalize_host(host);
        assert_eq!(normalize_host(&once), once);
    }
    assert_eq!(normalize_host("a ."), "a ");
    assert_eq!(normalize_host(&normalize_host("a .")), "a");
}

#[test]
fn stripping_removes_only_csp_metas_and_keeps_the_rest_in_order() {
    let html = "<head><META HTTP-EQUIV=\"Content-Security-Policy\" content=\"x\"><meta charset=\"utf-8\"><p>a</p>";
    assert_eq!(strip_meta_csp(html), "<head><meta charset=\"utf-8\"><p>a</p>");
}

#[test]
fn upstream_errors_answer_bad_gateway() {
    let r = upstream_response::<String>(Err("connection reset".to_string()), true);
    assert_eq!(r.status, 502);
    assert_eq!(r.content_type, "text/plain");
    assert_eq!(r.body, b"agentero-web: upstream unavailable".to_vec());
}

#[test]
fn upstream_status_and_content_type_pass_through() {
    let reply = UpstreamReply {
        status: 404,
        content_type: None,
        final_url: "https://example.com/x".to_string(),
        body: vec![1, 2, 3],
    };
    let r = upstream_response::<String>(Ok(reply), true);
    assert_eq!(r.status, 404);
    assert_eq!(r.content_type, "application/octet-stream");
    assert_eq!(r.body, vec![1, 2, 3]);
    let page = UpstreamReply {
        status: 200,
        content_type: Some("text/html; charset=utf-8".to_string()),
        final_url: "https://example.com/a?b=1".to_string(),
        body: b"<head></head>".to_vec(),
    };
    let r = upstream_response::<String>(Ok(page), true);
    assert_eq!(r.status, 200);
    assert_eq!(r.content_type, "text/html; charset=utf-8");
    assert!(String::from_utf8(r.body).unwrap().starts_with("<head><base href=\"https://example.com/a\">"));
}

#[test]
fn refusals_answer_as_plain_text() {
    let list = HostAllowlist::new();
    let refusal = route_request(&list, Some("example.com"), "/", None).err().unwrap();
    let r = refusal_response(refusal);
    assert_eq!(r.status, 403);
    assert_eq!(r.content_type, "text/plain");
    assert_eq!(r.body, b"agentero-web: example.com is not allowed here".to_vec());
}
