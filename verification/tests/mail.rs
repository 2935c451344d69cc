use snapcode::html::html_to_text;
use snapcode::mail::{mail_from_parts, parse_mail, MailAddress, MailParts};
use snapcode::parser::extract_code;

#[test]
fn parses_plain_text_mail() {
    let raw = "From: 阿里云 <noreply@aliyun.com>\r\n\
               Subject: 登录验证\r\n\
               Date: Mon, 01 Jan 2024 12:00:00 +0800\r\n\
               Content-Type: text/plain; charset=utf-8\r\n\
               Content-Transfer-Encoding: 8bit\r\n\
               \r\n\
               您的验证码是 482913，5 分钟内有效。\r\n";
    let mail = parse_mail(raw.as_bytes()).unwrap();
    assert!(mail.text.starts_with("登录验证"));
    assert!(mail.sender.as_deref().unwrap().contains("阿里云"));
    assert!(mail.text.contains("482913"));
    assert_eq!(mail.received_at, Some(1_704_081_600_000));
}

#[test]
fn parses_base64_body_and_encoded_subject() {
    let raw = [
        "From: Google <no-reply@accounts.google.com>\r\n",
        "Subject: =?UTF-8?B?6aqM6K+B56CB6YCa55+l?=\r\n",
        "Content-Type: text/plain; charset=utf-8\r\n",
        "Content-Transfer-Encoding: base64\r\n",
        "\r\n",
        "WW91ciB2ZXJpZmljYXRpb24gY29kZSBpcyA2NTQzMjEsIHZhbGlkIGZvciAxMCBtaW51dGVzLg==\r\n",
    ].concat();
    let mail = parse_mail(raw.as_bytes()).unwrap();
    assert!(mail.text.starts_with("验证码通知"));
    assert!(mail.text.contains("654321"));
}

#[test]
fn falls_back_to_html_body() {
    let raw = [
        "From: <service@example.com>\r\n",
        "Subject: =?UTF-8?B?6aqM6K+B56CB?=\r\n",
        "Content-Type: text/html; charset=utf-8\r\n",
        "\r\n",
        "<html><head><style>.x{color:red}</style></head>",
        "<body><p>您的验证码是 <b>886655</b>&nbsp;，10 分钟内有效</p>",
        "<script>alert(1)</script></body></html>\r\n",
    ].concat();
    let mail = parse_mail(raw.as_bytes()).unwrap();
    assert!(mail.text.contains("886655"));
    assert!(!mail.text.contains("alert"));
    assert!(!mail.text.contains("color:red"));
}

#[test]
fn rejects_garbage() {
    let result = parse_mail(b"\x00\x01\x02\x03 not a mail");
    assert!(result.map(|m| m.text.trim().is_empty()).unwrap_or(true));
}

#[test]
fn html_to_text_basics() {
    assert_eq!(html_to_text("<p>a<b>b</b>c</p>"), "abc");
    assert_eq!(html_to_text("<b>482</b><b>913</b>"), "482913");
    assert_eq!(html_to_text("<h1>886655</h1><p>10 分钟</p>"), "886655 10 分钟");
    assert_eq!(html_to_text("a&nbsp;b &amp; c"), "a b & c");
}

#[test]
fn end_to_end_code_extraction() {
    let zh = [
        "From: 淘宝网 <service@taobao.com>\r\n",
        "Subject: =?UTF-8?B?55m75b2V6aqM6K+B56CB?=\r\n",
        "Content-Type: text/plain; charset=utf-8\r\n",
        "Content-Transfer-Encoding: 8bit\r\n",
        "\r\n",
        "尊敬的用户，您的验证码为 730251，5 分钟内有效。工作人员不会索取，请勿泄露。\r\n",
    ].concat();
    let mail = parse_mail(zh.as_bytes()).unwrap();
    assert_eq!(extract_code(&mail.text), Some("730251".to_string()));

    let en = [
        "From: Google <no-reply@accounts.google.com>\r\n",
        "Subject: Security code\r\n",
        "Content-Type: text/plain; charset=utf-8\r\n",
        "Content-Transfer-Encoding: base64\r\n",
        "\r\n",
        "WW91ciB2ZXJpZmljYXRpb24gY29kZSBpcyA2NTQzMjEsIHZhbGlkIGZvciAxMCBtaW51dGVzLg==\r\n",
    ].concat();
    let mail = parse_mail(en.as_bytes()).unwrap();
    assert_eq!(extract_code(&mail.text), Some("654321".to_string()));

    let html = [
        "From: <service@example.com>\r\n",
        "Subject: =?UTF-8?B?6aqM6K+B56CB?=\r\n",
        "Content-Type: text/html; charset=utf-8\r\n",
        "\r\n",
        "<html><body><p>您的验证码是</p><h1 style=\"color:red\">886655</h1>",
        "<p>10 分钟内有效</p></body></html>\r\n",
    ].concat();
    let mail = parse_mail(html.as_bytes()).unwrap();
    assert_eq!(extract_code(&mail.text), Some("886655".to_string()));

    let normal = [
        "From: shop@example.com\r\n",
        "Subject: Order shipped\r\n",
        "Content-Type: text/plain; charset=utf-8\r\n",
        "\r\n",
        "Your order #1234567890123 from 2024 has shipped. Total: $59.99.\r\n",
    ].concat();
    let mail = parse_mail(normal.as_bytes()).unwrap();
    assert_eq!(extract_code(&mail.text), None);
}

#[test]
fn prefers_plain_part_in_alternative() {
    let raw = [
        "Content-Type: multipart/alternative; boundary=bb\r\n",
        "\r\n",
        "--bb\r\n",
        "Content-Type: text/plain; charset=utf-8\r\n",
        "\r\n",
        "Your code is 112233.\r\n",
        "--bb\r\n",
        "Content-Type: text/html; charset=utf-8\r\n",
        "\r\n",
        "<html><body><h1>999999</h1></body></html>\r\n",
        "--bb--\r\n",
    ].concat();
    let mail = parse_mail(raw.as_bytes()).unwrap();
    assert!(mail.text.contains("112233"));
    assert!(!mail.text.contains("999999"));
}

/* ---------- further cases ---------- */

#[test]
fn sender_falls_back_to_address_and_subject_leads_text() {
    let raw = [
        "From: <noreply@bank.example>\r\n",
        "Subject: Hi\r\n",
        "Content-Type: text/plain; charset=utf-8\r\n",
        "\r\n",
        "Body text\r\n",
    ].concat();
    let mail = parse_mail(raw.as_bytes()).unwrap();
    assert_eq!(mail.sender.as_deref(), Some("noreply@bank.example"));
    assert!(mail.text.starts_with("Hi\n"));
    assert_eq!(mail.received_at, None);
}

#[test]
fn html_text_is_single_spaced() {
    assert_eq!(html_to_text("  <div>a</div>\n\t<p> b </p>  "), "a b");
    assert_eq!(html_to_text("<script>var x = 1;</script>x&lt;y&gt;z"), "x<y>z");
    assert_eq!(html_to_text("<STYLE>p{}</STYLE><BR>42"), "42");
}

/// The HTML-to-text steps written with the `regex` crate, as a reference to
/// compare the character-level implementation against.
fn html_to_text_with_regex(html: &str) -> String {
    let block = regex::Regex::new(r"(?is)<script[^>]*>.*?</script>|<style[^>]*>.*?</style>").unwrap();
    let blocktag = regex::Regex::new(
        r"(?is)</?(?:p|div|br|hr|tr|td|th|li|ul|ol|table|h[1-6]|blockquote|section|article|header|footer)[^>]*>",
    )
    .unwrap();
    let tag = regex::Regex::new(r"(?s)<[^>]+>").unwrap();
    let ws = regex::Regex::new(r"\s+").unwrap();
    let a = block.replace_all(html, " ");
    let b = blocktag.replace_all(&a, " ");
    let c = tag.replace_all(&b, "");
    let d = c
        .replace("&nbsp;", " ")
        .replace("&amp;", "&")
        .replace("&lt;", "<")
        .replace("&gt;", ">")
        .replace("&quot;", "\"")
        .replace("&#39;", "'");
    ws.replace_all(&d, " ").trim().to_string()
}

#[test]
fn html_to_text_agrees_with_regex_steps() {
    let samples = [
        "",
        "plain",
        "<p>a<b>b</b>c</p>",
        "<SCRIPT type=x>1<2</SCRIPT>after",
        "<script>never closed",
        "<style>a{}</style><style>b{}</style>x",
        "<pre>code</pre><progress>9</progress>",
        "<h7>x</h7><h6>y</h6>",
        "<br/>a<br />b",
        "a < b > c",
        "<>empty<>",
        "&amp;lt; &#39;q&#39; &quot;",
        "&nbsp;&nbsp;x\u{3000}\u{00a0}y",
        "<td>1</td><td>2</td>",
        "<divider>t</divider>",
        "<p\nclass=\"a\">multi\nline</p>",
        "tail <",
    ];
    for s in samples {
        assert_eq!(html_to_text(s), html_to_text_with_regex(s), "input {s:?}");
    }
}

#[test]
fn mail_from_plain_parts() {
    let parts = MailParts {
        subject: Some("登录验证".to_string()),
        from: Some(vec![MailAddress {
            name: Some("阿里云".to_string()),
            address: Some("noreply@aliyun.com".to_string()),
        }]),
        text_body: vec![1],
        html_body: vec![2],
        first_text: Some("您的验证码是 482913".to_string()),
        first_html: Some("<p>ignored</p>".to_string()),
        timestamp: Some(1_704_081_600),
    };
    let mail = mail_from_parts(&parts);
    assert_eq!(mail.sender.as_deref(), Some("阿里云"));
    assert_eq!(mail.text, "登录验证\n您的验证码是 482913");
    assert_eq!(mail.received_at, Some(1_704_081_600_000));
}

#[test]
fn mail_from_html_parts_and_bare_address() {
    let parts = MailParts {
        subject: None,
        from: Some(vec![MailAddress { name: None, address: Some("service@example.com".to_string()) }]),
        text_body: vec![0],
        html_body: vec![0],
        first_text: Some("raw".to_string()),
        first_html: Some("<p>code <b>886655</b></p>".to_string()),
        timestamp: None,
    };
    let mail = mail_from_parts(&parts);
    assert_eq!(mail.sender.as_deref(), Some("service@example.com"));
    assert_eq!(mail.text, format!("\n{}", html_to_text("<p>code <b>886655</b></p>")));
    assert!(mail.text.contains("886655"));
    assert_eq!(mail.received_at, None);
}

#[test]
fn mail_from_parts_without_sender() {
    let parts = MailParts {
        subject: Some("s".to_string()),
        from: Some(vec![MailAddress { name: Some(String::new()), address: Some("a@b".to_string()) }]),
        text_body: vec![],
        html_body: vec![],
        first_text: None,
        first_html: None,
        timestamp: Some(-1),
    };
    let mail = mail_from_parts(&parts);
    assert_eq!(mail.sender, None);
    assert_eq!(mail.text, "s\n");
    assert_eq!(mail.received_at, Some(-1000));
}
