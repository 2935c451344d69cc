//! User-visible messages in Chinese and English. The language comes from
//! `Settings.language` ("zh-CN" or "en"); anything other than "en" reads as
//! Chinese.

use vstd::prelude::*;

use crate::text::{append_str, chars_of, str_eq, string_from_chars};

verus! {

/// The language is English.
pub open spec fn is_en_lang(lang: Seq<char>) -> bool {
    lang == "en"@
}

/// Chooses between the Chinese and the English text.
pub fn pick(lang: &str, zh: &'static str, en: &'static str) -> (r: &'static str)
    ensures
        r == (if is_en_lang(lang@) { en } else { zh }),
{
    if is_en(lang) {
        en
    } else {
        zh
    }
}

/// Whether the language is English.
pub fn is_en(lang: &str) -> (r: bool)
    ensures
        r == is_en_lang(lang@),
{
    str_eq(lang, "en")
}


/// The application name (toast title, tray tooltip), the same in every language.
pub fn app_name(_lang: &str) -> (r: &'static str)
    ensures
        r@ == "SnapCode"@,
{
    "SnapCode"
}

/// The pause/resume menu item, which follows the paused state.
pub fn tray_pause(lang: &str, paused: bool) -> (r: &'static str)
    ensures
        r@ == (if is_en_lang(lang@) {
            if paused { "Resume listening"@ } else { "Pause listening"@ }
        } else {
            if paused { "恢复监听"@ } else { "暂停监听"@ }
        }),
{
    match (is_en(lang), paused) {
        (false, false) => "暂停监听",
        (false, true) => "恢复监听",
        (true, false) => "Pause listening",
        (true, true) => "Resume listening",
    }
}

pub fn tray_open(lang: &str) -> (r: &'static str)
    ensures
        r@ == (if is_en_lang(lang@) { "Open SnapCode"@ } else { "打开主窗口"@ }),
{
    pick(lang, "打开主窗口", "Open SnapCode")
}

pub fn tray_quit(lang: &str) -> (r: &'static str)
    ensures
        r@ == (if is_en_lang(lang@) { "Quit"@ } else { "退出"@ }),
{
    pick(lang, "退出", "Quit")
}

pub fn no_code_available(lang: &str) -> (r: &'static str)
    ensures
        r@ == (if is_en_lang(lang@) { "No verification code yet"@ } else { "暂无可用验证码"@ }),
{
    pick(lang, "暂无可用验证码", "No verification code yet")
}

pub fn read_code_failed(lang: &str) -> (r: &'static str)
    ensures
        r@ == (if is_en_lang(lang@) { "Failed to read the code"@ } else { "读取验证码失败"@ }),
{
    pick(lang, "读取验证码失败", "Failed to read the code")
}

pub fn clipboard_write_failed(lang: &str) -> (r: &'static str)
    ensures
        r@ == (if is_en_lang(lang@) { "Failed to copy to clipboard"@ } else { "复制到剪贴板失败"@ }),
{
    pick(lang, "复制到剪贴板失败", "Failed to copy to clipboard")
}

pub fn pasted(lang: &str) -> (r: &'static str)
    ensures
        r@ == (if is_en_lang(lang@) { "Code copied and pasted"@ } else { "验证码已复制并粘贴"@ }),
{
    pick(lang, "验证码已复制并粘贴", "Code copied and pasted")
}

/// The result shown when the code was copied but not pasted.
pub fn copied(lang: &str) -> (r: &'static str)
    ensures
        r@ == (if is_en_lang(lang@) { "Code copied"@ } else { "验证码已复制"@ }),
{
    pick(lang, "验证码已复制", "Code copied")
}

pub fn record_not_found(lang: &str) -> (r: &'static str)
    ensures
        r@ == (if is_en_lang(lang@) { "Record not found"@ } else { "记录不存在"@ }),
{
    pick(lang, "记录不存在", "Record not found")
}

/// The sender name of a simulated notification.
pub fn simulated_sender(lang: &str) -> (r: &'static str)
    ensures
        r@ == (if is_en_lang(lang@) { "Simulated"@ } else { "模拟通知"@ }),
{
    pick(lang, "模拟通知", "Simulated")
}

pub fn unsupported_platform_listen(lang: &str) -> (r: &'static str)
    ensures
        r@ == (if is_en_lang(lang@) { "Notification listening is not supported on this platform"@ } else { "当前平台不支持通知监听"@ }),
{
    pick(lang, "当前平台不支持通知监听", "Notification listening is not supported on this platform")
}

pub fn unsupported_platform_dump(lang: &str) -> (r: &'static str)
    ensures
        r@ == (if is_en_lang(lang@) { "Notification reading is not supported on this platform"@ } else { "当前平台不支持通知读取"@ }),
{
    pick(lang, "当前平台不支持通知读取", "Notification reading is not supported on this platform")
}

pub fn unsupported_build(lang: &str) -> (r: &'static str)
    ensures
        r@ == (if is_en_lang(lang@) { "Requires Windows 10 1809 or later"@ } else { "需要 Windows 10 1809 或更高版本"@ }),
{
    pick(lang, "需要 Windows 10 1809 或更高版本", "Requires Windows 10 1809 or later")
}

pub fn access_denied_hint(lang: &str) -> (r: &'static str)
    ensures
        r@ == (if is_en_lang(lang@) { "Notification access not granted. Enable it in system settings."@ } else { "未授予通知访问权限，请在系统设置中开启"@ }),
{
    pick(lang, "未授予通知访问权限，请在系统设置中开启", "Notification access not granted. Enable it in system settings.")
}

pub fn access_not_granted(lang: &str) -> (r: &'static str)
    ensures
        r@ == (if is_en_lang(lang@) { "Notification access not granted"@ } else { "未授予通知访问权限"@ }),
{
    pick(lang, "未授予通知访问权限", "Notification access not granted")
}

pub fn email_not_configured(lang: &str) -> (r: &'static str)
    ensures
        r@ == (if is_en_lang(lang@) { "Configure your mailbox in Settings first"@ } else { "请先在设置中填写邮箱配置"@ }),
{
    pick(lang, "请先在设置中填写邮箱配置", "Configure your mailbox in Settings first")
}

/// An enabled account lacks its server, user name or authorization code.
pub fn email_config_incomplete(lang: &str) -> (r: &'static str)
    ensures
        r@ == (if is_en_lang(lang@) { "Email settings incomplete: fill in server, account and auth code"@ } else { "邮箱配置不完整，请在设置中补全服务器、账号与授权码"@ }),
{
    pick(lang, "邮箱配置不完整，请在设置中补全服务器、账号与授权码", "Email settings incomplete: fill in server, account and auth code")
}

pub fn listener_init_failed(lang: &str, err: &str) -> (r: String)
    ensures
        r@ == (if is_en_lang(lang@) {
            "Failed to initialize the notification listener: "@ + err@
        } else {
            "无法初始化通知监听器: "@ + err@
        }),
{
    if is_en(lang) {
        let mut v = chars_of("Failed to initialize the notification listener: ");
        append_str(&mut v, err);
        string_from_chars(v.as_slice())
    } else {
        let mut v = chars_of("无法初始化通知监听器: ");
        append_str(&mut v, err);
        string_from_chars(v.as_slice())
    }
}

pub fn access_request_failed(lang: &str, err: &str) -> (r: String)
    ensures
        r@ == (if is_en_lang(lang@) {
            "Failed to request notification access: "@ + err@
        } else {
            "请求通知访问权限失败: "@ + err@
        }),
{
    if is_en(lang) {
        let mut v = chars_of("Failed to request notification access: ");
        append_str(&mut v, err);
        string_from_chars(v.as_slice())
    } else {
        let mut v = chars_of("请求通知访问权限失败: ");
        append_str(&mut v, err);
        string_from_chars(v.as_slice())
    }
}

pub fn email_connect_failed(lang: &str, err: &str) -> (r: String)
    ensures
        r@ == (if is_en_lang(lang@) {
            "Failed to connect to the mail server: "@ + err@
        } else {
            "无法连接邮箱服务器: "@ + err@
        }),
{
    if is_en(lang) {
        let mut v = chars_of("Failed to connect to the mail server: ");
        append_str(&mut v, err);
        string_from_chars(v.as_slice())
    } else {
        let mut v = chars_of("无法连接邮箱服务器: ");
        append_str(&mut v, err);
        string_from_chars(v.as_slice())
    }
}

pub fn email_auth_failed(lang: &str, err: &str) -> (r: String)
    ensures
        r@ == (if is_en_lang(lang@) {
            "Mailbox login failed (check the auth code, not the login password): "@ + err@
        } else {
            "邮箱登录失败，请确认使用的是授权码而非登录密码: "@ + err@
        }),
{
    if is_en(lang) {
        let mut v = chars_of("Mailbox login failed (check the auth code, not the login password): ");
        append_str(&mut v, err);
        string_from_chars(v.as_slice())
    } else {
        let mut v = chars_of("邮箱登录失败，请确认使用的是授权码而非登录密码: ");
        append_str(&mut v, err);
        string_from_chars(v.as_slice())
    }
}

pub fn email_poll_failed(lang: &str, err: &str) -> (r: String)
    ensures
        r@ == (if is_en_lang(lang@) {
            "Failed to poll the mailbox: "@ + err@
        } else {
            "轮询邮箱失败: "@ + err@
        }),
{
    if is_en(lang) {
        let mut v = chars_of("Failed to poll the mailbox: ");
        append_str(&mut v, err);
        string_from_chars(v.as_slice())
    } else {
        let mut v = chars_of("轮询邮箱失败: ");
        append_str(&mut v, err);
        string_from_chars(v.as_slice())
    }
}

/// The text of `shortcut_multi_keys`.
pub open spec fn shortcut_multi_keys_text(lang: Seq<char>, shortcut: Seq<char>) -> Seq<char> {
    if is_en_lang(lang) {
        "Shortcut \""@ + shortcut + "\" is invalid: multiple keys"@
    } else {
        "快捷键「"@ + shortcut + "」无效：包含多个按键"@
    }
}

pub fn shortcut_multi_keys(lang: &str, shortcut: &str) -> (r: String)
    ensures
        r@ == shortcut_multi_keys_text(lang@, shortcut@),
{
    if is_en(lang) {
        let mut v = chars_of("Shortcut \"");
        append_str(&mut v, shortcut);
        append_str(&mut v, "\" is invalid: multiple keys");
        string_from_chars(v.as_slice())
    } else {
        let mut v = chars_of("快捷键「");
        append_str(&mut v, shortcut);
        append_str(&mut v, "」无效：包含多个按键");
        string_from_chars(v.as_slice())
    }
}

/// The text of `shortcut_no_key`.
pub open spec fn shortcut_no_key_text(lang: Seq<char>, shortcut: Seq<char>) -> Seq<char> {
    if is_en_lang(lang) {
        "Shortcut \""@ + shortcut + "\" is invalid: missing key"@
    } else {
        "快捷键「"@ + shortcut + "」无效：缺少按键"@
    }
}

pub fn shortcut_no_key(lang: &str, shortcut: &str) -> (r: String)
    ensures
        r@ == shortcut_no_key_text(lang@, shortcut@),
{
    if is_en(lang) {
        let mut v = chars_of("Shortcut \"");
        append_str(&mut v, shortcut);
        append_str(&mut v, "\" is invalid: missing key");
        string_from_chars(v.as_slice())
    } else {
        let mut v = chars_of("快捷键「");
        append_str(&mut v, shortcut);
        append_str(&mut v, "」无效：缺少按键");
        string_from_chars(v.as_slice())
    }
}

/// The text of `shortcut_no_modifier`.
pub open spec fn shortcut_no_modifier_text(lang: Seq<char>, shortcut: Seq<char>) -> Seq<char> {
    if is_en_lang(lang) {
        "Shortcut \""@ + shortcut + "\" is invalid: at least one modifier is required"@
    } else {
        "快捷键「"@ + shortcut + "」无效：至少需要一个修饰键"@
    }
}

pub fn shortcut_no_modifier(lang: &str, shortcut: &str) -> (r: String)
    ensures
        r@ == shortcut_no_modifier_text(lang@, shortcut@),
{
    if is_en(lang) {
        let mut v = chars_of("Shortcut \"");
        append_str(&mut v, shortcut);
        append_str(&mut v, "\" is invalid: at least one modifier is required");
        string_from_chars(v.as_slice())
    } else {
        let mut v = chars_of("快捷键「");
        append_str(&mut v, shortcut);
        append_str(&mut v, "」无效：至少需要一个修饰键");
        string_from_chars(v.as_slice())
    }
}

/// The text of `shortcut_unknown_key`.
pub open spec fn shortcut_unknown_key_text(lang: Seq<char>, key: Seq<char>) -> Seq<char> {
    if is_en_lang(lang) {
        "Unrecognized key \""@ + key + "\""@
    } else {
        "无法识别的按键「"@ + key + "」"@
    }
}

pub fn shortcut_unknown_key(lang: &str, key: &str) -> (r: String)
    ensures
        r@ == shortcut_unknown_key_text(lang@, key@),
{
    if is_en(lang) {
        let mut v = chars_of("Unrecognized key \"");
        append_str(&mut v, key);
        append_str(&mut v, "\"");
        string_from_chars(v.as_slice())
    } else {
        let mut v = chars_of("无法识别的按键「");
        append_str(&mut v, key);
        append_str(&mut v, "」");
        string_from_chars(v.as_slice())
    }
}

pub fn shortcut_register_failed(lang: &str, shortcut: &str, err: &str) -> (r: String)
    ensures
        r@ == (if is_en_lang(lang@) {
            "Failed to register shortcut \""@ + shortcut@ + "\", it may be in use by another program: "@ + err@
        } else {
            "快捷键「"@ + shortcut@ + "」注册失败，可能已被其他程序占用: "@ + err@
        }),
{
    if is_en(lang) {
        let mut v = chars_of("Failed to register shortcut \"");
        append_str(&mut v, shortcut);
        append_str(&mut v, "\", it may be in use by another program: ");
        append_str(&mut v, err);
        string_from_chars(v.as_slice())
    } else {
        let mut v = chars_of("快捷键「");
        append_str(&mut v, shortcut);
        append_str(&mut v, "」注册失败，可能已被其他程序占用: ");
        append_str(&mut v, err);
        string_from_chars(v.as_slice())
    }
}

} // verus!
