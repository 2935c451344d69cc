use std::cell::RefCell;
use std::rc::Rc;

use snapcode::pop3::{
    connection_target, line_of_read, parse_stat_reply, parse_status_line, parse_uidl_listing,
    retr_command, status_of_read, strip_line_ending, MultilineBody, Pop3Client, ReadWrite,
};

/// A server whose replies are known in advance; what the client sends is
/// recorded.
struct Scripted {
    replies: Vec<u8>,
    pos: usize,
    sent: Rc<RefCell<Vec<u8>>>,
}

impl Scripted {
    fn new(replies: &[&str]) -> (Self, Rc<RefCell<Vec<u8>>>) {
        let mut bytes = Vec::new();
        for r in replies {
            bytes.extend_from_slice(r.as_bytes());
            bytes.extend_from_slice(b"\r\n");
        }
        let sent = Rc::new(RefCell::new(Vec::new()));
        (Scripted { replies: bytes, pos: 0, sent: sent.clone() }, sent)
    }
}

impl ReadWrite for Scripted {
    fn read_until_lf(&mut self) -> Result<Vec<u8>, String> {
        let mut out = Vec::new();
        while self.pos < self.replies.len() {
            let b = self.replies[self.pos];
            self.pos += 1;
            out.push(b);
            if b == b'\n' {
                break;
            }
        }
        Ok(out)
    }

    fn write_all_bytes(&mut self, bytes: &[u8]) -> Result<(), String> {
        self.sent.borrow_mut().extend_from_slice(bytes);
        Ok(())
    }

    fn flush_writes(&mut self) -> Result<(), String> {
        Ok(())
    }
}

/// A stream whose writes fail.
struct Broken;

impl ReadWrite for Broken {
    fn read_until_lf(&mut self) -> Result<Vec<u8>, String> {
        Ok(b"+OK ready\r\n".to_vec())
    }

    fn write_all_bytes(&mut self, _bytes: &[u8]) -> Result<(), String> {
        Err("broken pipe".to_string())
    }

    fn flush_writes(&mut self) -> Result<(), String> {
        Ok(())
    }
}

fn read_body<S: ReadWrite>(client: &mut Pop3Client<S>) -> Result<Vec<u8>, String> {
    let mut body = MultilineBody::new();
    while !client.read_body_line(&mut body)? {}
    Ok(body.into_body())
}

#[test]
fn rejects_bad_greeting() {
    let (stream, _) = Scripted::new(&["-ERR service not available"]);
    let err = match Pop3Client::from_stream(stream) {
        Err(e) => e,
        Ok(_) => panic!("greeting 为 -ERR 时不应成功"),
    };
    assert!(err.contains("service not available"));
}

#[test]
fn full_session_flow() {
    let (stream, sent) = Scripted::new(&[
        "+OK mock POP3 ready",
        "+OK user accepted",
        "+OK mailbox locked and ready",
        "+OK 2 1024",
        "+OK",
        "1 uidl-aaa",
        "2 uidl-bbb",
        ".",
        "+OK message follows",
        "Subject: test",
        "",
        "..dot-prefixed line",
        ".",
        "+OK bye",
    ]);
    let mut client = Pop3Client::from_stream(stream).unwrap();
    client.login("alice@example.com", "secret").unwrap();
    assert_eq!(client.stat().unwrap(), (2, 1024));
    client.command("UIDL").unwrap();
    let listing = parse_uidl_listing(&read_body(&mut client).unwrap());
    assert_eq!(listing, vec![(1, "uidl-aaa".to_string()), (2, "uidl-bbb".to_string())]);
    client.command("RETR 2").unwrap();
    let raw = read_body(&mut client).unwrap();
    assert_eq!(String::from_utf8(raw).unwrap(), "Subject: test\r\n\r\n.dot-prefixed line");
    client.quit();
    assert_eq!(
        String::from_utf8(sent.borrow().clone()).unwrap(),
        "USER alice@example.com\r\nPASS secret\r\nSTAT\r\nUIDL\r\nRETR 2\r\nQUIT\r\n"
    );
}

#[test]
fn login_rejected_by_server() {
    let (stream, sent) = Scripted::new(&["+OK mock POP3 ready", "+OK", "-ERR authentication failed"]);
    let mut client = Pop3Client::from_stream(stream).unwrap();
    let err = client.login("alice@example.com", "wrong").unwrap_err();
    assert!(err.contains("authentication failed"));
    assert_eq!(
        String::from_utf8(sent.borrow().clone()).unwrap(),
        "USER alice@example.com\r\nPASS wrong\r\n"
    );
}

/* ---------- further cases ---------- */

#[test]
fn refused_user_skips_password() {
    let (stream, sent) = Scripted::new(&["+OK ready", "-ERR no such user"]);
    let mut client = Pop3Client::from_stream(stream).unwrap();
    assert_eq!(client.login("bob", "pw"), Err("服务器拒绝: no such user".to_string()));
    assert_eq!(String::from_utf8(sent.borrow().clone()).unwrap(), "USER bob\r\n");
}

#[test]
fn closed_connection_and_failed_write() {
    let (stream, _) = Scripted::new(&["+OK ready"]);
    let mut client = Pop3Client::from_stream(stream).unwrap();
    assert_eq!(client.stat(), Err("连接被服务器关闭".to_string()));
    let mut broken = Pop3Client::from_stream(Broken).unwrap();
    assert_eq!(broken.command("NOOP"), Err("发送命令失败: broken pipe".to_string()));
}

#[test]
fn status_lines() {
    assert_eq!(parse_status_line("+OK  hello "), Ok("hello".to_string()));
    assert_eq!(parse_status_line("-ERR bad"), Err("服务器拒绝: bad".to_string()));
    assert_eq!(parse_status_line("* what"), Err("无法识别的响应: * what".to_string()));
}

#[test]
fn stat_replies() {
    assert_eq!(parse_stat_reply("3 4096"), Ok((3, 4096)));
    assert_eq!(parse_stat_reply(" +3  10 extra"), Ok((3, 10)));
    assert_eq!(parse_stat_reply("3"), Err("STAT 响应无法解析: 3".to_string()));
    assert_eq!(parse_stat_reply("x 1"), Err("STAT 响应无法解析: x 1".to_string()));
}

#[test]
fn uidl_listing_skips_malformed_lines() {
    let body = b"1 a\r\nnot-a-number b\r\n2\r\n3 c extra\r\n";
    assert_eq!(parse_uidl_listing(body), vec![(1, "a".to_string()), (3, "c".to_string())]);
}

#[test]
fn multiline_body_rules() {
    let mut body = MultilineBody::new();
    assert_eq!(body.feed(b"\r\n"), Ok(false));
    assert_eq!(body.feed(b"..x\r\n"), Ok(false));
    assert_eq!(body.feed(b"y\n"), Ok(false));
    assert_eq!(body.feed(b""), Err("连接被服务器关闭".to_string()));
    assert_eq!(body.feed(b".\r\n"), Ok(true));
    assert_eq!(body.into_body(), b".x\r\ny".to_vec());
    assert_eq!(strip_line_ending(b"abc\r\n\r\n"), b"abc".to_vec());
}

#[test]
fn connection_targets() {
    assert_eq!(connection_target("  pop.qq.com ", 995), Ok(("pop.qq.com".to_string(), 995)));
    assert_eq!(connection_target("h", 70000), Err("端口无效: 70000".to_string()));
    assert_eq!(connection_target("h", -1), Err("端口无效: -1".to_string()));
}

#[test]
fn reads_become_lines_and_statuses() {
    assert_eq!(line_of_read(Ok(b"+OK hi\r\n".to_vec())), Ok("+OK hi".to_string()));
    assert_eq!(line_of_read(Ok(Vec::new())), Err("连接被服务器关闭".to_string()));
    assert_eq!(line_of_read(Err("reset".to_string())), Err("读取响应失败: reset".to_string()));
    assert_eq!(line_of_read(Ok(vec![b'a', 0xff, b'\n'])), Ok("a\u{fffd}".to_string()));
    assert_eq!(status_of_read(Ok(b"+OK ready \r\n".to_vec())), Ok("ready".to_string()));
    assert_eq!(
        status_of_read(Ok(b"-ERR service not available\r\n".to_vec())),
        Err("服务器拒绝: service not available".to_string())
    );
    assert_eq!(status_of_read(Ok(b"HELLO\n".to_vec())), Err("无法识别的响应: HELLO".to_string()));
    assert_eq!(status_of_read(Err("timeout".to_string())), Err("读取响应失败: timeout".to_string()));
}

#[test]
fn retr_command_text() {
    assert_eq!(retr_command(2), "RETR 2");
    assert_eq!(retr_command(0), "RETR 0");
    assert_eq!(retr_command(4_294_967_295), "RETR 4294967295");
}

#[test]
fn quit_sends_quit_even_when_refused() {
    let (stream, sent) = Scripted::new(&["+OK ready", "-ERR go away"]);
    let mut client = Pop3Client::from_stream(stream).unwrap();
    client.quit();
    assert_eq!(String::from_utf8(sent.borrow().clone()).unwrap(), "QUIT\r\n");
    let mut broken = Pop3Client::from_stream(Broken).unwrap();
    broken.quit();
}
