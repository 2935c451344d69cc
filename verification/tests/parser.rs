use snapcode::parser::extract_code;

#[test]
fn chinese_keyword_codes() {
    assert_eq!(
        extract_code("【支付宝】您的验证码是 123456，5 分钟内有效"),
        Some("123456".to_string())
    );
    assert_eq!(
        extract_code("【微信】验证码：884422，10 分钟内有效"),
        Some("884422".to_string())
    );
    assert_eq!(
        extract_code("您的动态密码为 778899，有效期 5 分钟"),
        Some("778899".to_string())
    );
}

#[test]
fn english_keyword_codes() {
    assert_eq!(
        extract_code("Your Google verification code is 654321"),
        Some("654321".to_string())
    );
    assert_eq!(
        extract_code("Your security code is 0921"),
        Some("0921".to_string())
    );
}

#[test]
fn rejects_non_codes() {
    assert_eq!(extract_code("您尾号 1234 的银行卡支出人民币 500.00 元"), None);
    assert_eq!(extract_code("客服热线 95588 全天服务"), None);
    assert_eq!(extract_code("2024 年新年快乐"), None);
    assert_eq!(extract_code("这是一条没有任何数字的通知"), None);
}

#[test]
fn fallback_without_keyword() {
    assert_eq!(extract_code("登录验证码 3355 请查收"), Some("3355".to_string()));
    assert_eq!(extract_code("order 1234567890123 shipped"), None);
    assert_eq!(extract_code("2023 年消费 ¥1234"), None);
}

/// The same two rules written with the `regex` crate, as a reference to
/// compare the character-level implementation against.
fn extract_with_regex(text: &str) -> Option<String> {
    let keyword = regex::Regex::new(
        r"(?i)(?:验证码|动态密码|动态码|校验码|短信码|verification\s*code|security\s*code|passcode|code)[^\d]{0,12}(\d{4,8})",
    )
    .unwrap();
    let digits = regex::Regex::new(r"\d+").unwrap();
    for caps in keyword.captures_iter(text) {
        let m = caps.get(1).unwrap();
        if text[m.end()..].chars().next().map(|c| c.is_ascii_digit()).unwrap_or(false) {
            continue;
        }
        return Some(m.as_str().to_string());
    }
    let blacklist = ["尾号", "卡号", "账号", "账户", "单号", "电话", "热线", "客服"];
    for m in digits.find_iter(text) {
        let d = m.as_str();
        if !(4..=6).contains(&d.len()) {
            continue;
        }
        if let Some(c) = text[..m.start()].chars().next_back() {
            if ['¥', '￥', '$', '€'].contains(&c) {
                continue;
            }
        }
        if let Some(c) = text[m.end()..].chars().next() {
            if c == '.' || c == ',' {
                continue;
            }
        }
        if d.len() == 4 && (d.starts_with("19") || d.starts_with("20")) {
            continue;
        }
        let ws = text[..m.start()]
            .char_indices()
            .rev()
            .take(4)
            .last()
            .map(|(i, _)| i)
            .unwrap_or(0);
        if blacklist.iter().any(|k| text[ws..m.start()].contains(k)) {
            continue;
        }
        return Some(d.to_string());
    }
    None
}

#[test]
fn extract_code_agrees_with_regex_rules() {
    let samples = [
        "",
        "code",
        "CODE 1234",
        "Code:12345678901",
        "your ſecurity code: 445566",
        "verification\u{3000}\u{3000}code is 7788",
        "verification-code 1234",
        "passcode 000123 valid",
        "codes 12 and 345678",
        "code 123 then 4567",
        "验证码是一二三四五六七八九十十一十二 123456",
        "验证码是一二三四五六七八九十十一十二十三 123456",
        "验证码 ١٢٣٤٥٦",
        "号码 ١٢",
        "Total ¥123456 due",
        "pay $5000 now",
        "ref 4455. done",
        "year 1999 and 2005, id 8899",
        "尾号1234 then 5678",
        "账户余额 778899",
        "客服 12345",
        "abc 12345678",
        "Your code is 112233.",
        "短信码 1234567890",
        "动态码: 2468",
        "校验码 13579 ok",
        "Kode 9999", 
        "\u{212a}ode 1234 code 5678",
        "x 123456789 code 444444",
        "code 123456789",
        "code１２３４５",
        "9876",
        "98765 43210",
    ];
    for s in samples {
        assert_eq!(extract_code(s), extract_with_regex(s), "input {s:?}");
    }
}

#[test]
fn code_is_a_whole_digit_run() {
    let text = "验证码 4821，订单 123456789";
    let code = extract_code(text).unwrap();
    assert!(code.len() >= 4 && code.len() <= 8);
    assert!(code.bytes().all(|b| b.is_ascii_digit()));
    let i = text.find(code.as_str()).unwrap();
    assert!(!text[..i].ends_with(|c: char| c.is_ascii_digit()));
    assert!(!text[i + code.len()..].starts_with(|c: char| c.is_ascii_digit()));
}
