//! Application settings: the mail accounts and their derived properties, the
//! migration from the legacy single-account layout, and the defaults.
//! Reading and writing `settings.json` is the application's part.

use vstd::prelude::*;

use crate::text::{
    all_ascii, append_chars, ascii_lowered, chars_of, lowercase, str_trim, string_from_chars, string_of,
    to_lowercase, trim,
};

verus! {

/// The protocol of a mail account.
#[derive(Clone, Debug, PartialEq, Eq, Structural)]
pub enum EmailProtocol {
    Pop3,
    Imap,
}

impl Default for EmailProtocol {
    fn default() -> (r: Self)
        ensures
            r == EmailProtocol::Pop3,
    {
        EmailProtocol::Pop3
    }
}

/// One mail account.
#[derive(Clone, Debug, PartialEq)]
pub struct EmailAccount {
    /// Unique id; seen-mail records, IMAP sync state and status are keyed by it.
    pub id: String,
    /// Display name; empty means the account address is shown.
    pub name: String,
    pub protocol: EmailProtocol,
    /// Whether the account is polled.
    pub enabled: bool,
    /// Server host, e.g. pop.qq.com or imap.qq.com.
    pub host: String,
    /// Server port, usually 995 (POP3) or 993 (IMAP) over TLS.
    pub port: i64,
    /// Login name, usually the full address.
    pub username: String,
    /// Password or client authorization code.
    pub password: String,
    /// Implicit TLS when true, plain TCP when false.
    pub use_tls: bool,
    /// Polling interval in seconds; values below 15 count as 15.
    pub poll_interval_secs: i64,
}

/// An account as plain values.
pub struct AccountView {
    pub id: Seq<char>,
    pub name: Seq<char>,
    pub protocol: EmailProtocol,
    pub enabled: bool,
    pub host: Seq<char>,
    pub port: i64,
    pub username: Seq<char>,
    pub password: Seq<char>,
    pub use_tls: bool,
    pub poll_interval_secs: i64,
}

impl View for EmailAccount {
    type V = AccountView;

    open spec fn view(&self) -> AccountView {
        AccountView {
            id: self.id@,
            name: self.name@,
            protocol: self.protocol,
            enabled: self.enabled,
            host: self.host@,
            port: self.port,
            username: self.username@,
            password: self.password@,
            use_tls: self.use_tls,
            poll_interval_secs: self.poll_interval_secs,
        }
    }
}

/// The default account: empty, disabled, POP3 over TLS on port 995, polled
/// every 60 seconds.
pub open spec fn default_account() -> AccountView {
    AccountView {
        id: Seq::empty(),
        name: Seq::empty(),
        protocol: EmailProtocol::Pop3,
        enabled: false,
        host: Seq::empty(),
        port: 995,
        username: Seq::empty(),
        password: Seq::empty(),
        use_tls: true,
        poll_interval_secs: 60,
    }
}

impl Default for EmailAccount {
    fn default() -> (r: Self)
        ensures
            r@ == default_account(),
    {
        EmailAccount {
            id: String::new(),
            name: String::new(),
            protocol: EmailProtocol::Pop3,
            enabled: false,
            host: String::new(),
            port: 995,
            username: String::new(),
            password: String::new(),
            use_tls: true,
            poll_interval_secs: 60,
        }
    }
}

/// The fields suffice to connect: host, user name and password present and a
/// positive port (whether the account is enabled is not considered).
pub open spec fn account_complete(a: AccountView) -> bool {
    trim(a.host).len() > 0 && trim(a.username).len() > 0 && a.password.len() > 0 && a.port > 0
}

/// The polling interval in seconds, at least 15.
pub open spec fn account_interval(a: AccountView) -> int {
    if a.poll_interval_secs < 15 {
        15
    } else {
        a.poll_interval_secs as int
    }
}

/// The account's identity: lowercased host and user name, `host:user`.
pub open spec fn account_identity(a: AccountView) -> Seq<char> {
    lowercase(trim(a.host)) + seq![':'] + trim(a.username)
}

/// The name shown for the account: its trimmed name, or else its user name.
pub open spec fn account_display_name(a: AccountView) -> Seq<char> {
    if trim(a.name).len() > 0 {
        trim(a.name)
    } else {
        trim(a.username)
    }
}

/// Whether two accounts have equal fields.
pub open spec fn same_account(a: AccountView, b: AccountView) -> bool {
    a == b
}

impl EmailAccount {
    /// Whether the fields suffice to connect (see `account_complete`).
    pub fn is_complete(&self) -> (r: bool)
        ensures
            r == account_complete(self@),
    {
        !str_trim(self.host.as_str()).is_empty() && !str_trim(self.username.as_str()).is_empty()
            && !self.password.as_str().is_empty() && self.port > 0
    }

    /// The polling interval in seconds, at least 15.
    pub fn interval(&self) -> (r: u64)
        ensures
            r as int == account_interval(self@),
    {
        if self.poll_interval_secs < 15 {
            15
        } else {
            self.poll_interval_secs as u64
        }
    }

    /// The identity `host:user` (host lowercased); when it changes the
    /// account's seen-mail records belong to another mailbox.
    pub fn identity(&self) -> (r: String)
        ensures
            r@ == account_identity(self@),
            all_ascii(trim(self@.host)) ==> r@ == ascii_lowered(trim(self@.host)) + seq![':'] + trim(
                self@.username,
            ),
    {
        let host = to_lowercase(str_trim(self.host.as_str()));
        let mut v = chars_of(host.as_str());
        v.push(':');
        let user = chars_of(str_trim(self.username.as_str()));
        append_chars(&mut v, &user);
        string_from_chars(v.as_slice())
    }

    /// The name shown for the account: its trimmed name, or its trimmed user
    /// name when the name is blank.
    pub fn display_name(&self) -> (r: &str)
        ensures
            r@ == account_display_name(self@),
    {
        let name = str_trim(self.name.as_str());
        if name.is_empty() {
            str_trim(self.username.as_str())
        } else {
            name
        }
    }

    /// A field-by-field copy.
    pub fn copy(&self) -> (r: Self)
        ensures
            r@ == self@,
    {
        EmailAccount {
            id: self.id.clone(),
            name: self.name.clone(),
            protocol: match self.protocol {
                EmailProtocol::Pop3 => EmailProtocol::Pop3,
                EmailProtocol::Imap => EmailProtocol::Imap,
            },
            enabled: self.enabled,
            host: self.host.clone(),
            port: self.port,
            username: self.username.clone(),
            password: self.password.clone(),
            use_tls: self.use_tls,
            poll_interval_secs: self.poll_interval_secs,
        }
    }

    /// Whether `self` and `other` have equal fields.
    pub fn same_as(&self, other: &EmailAccount) -> (r: bool)
        ensures
            r == same_account(self@, other@),
    {
        let proto = match (&self.protocol, &other.protocol) {
            (EmailProtocol::Pop3, EmailProtocol::Pop3) => true,
            (EmailProtocol::Imap, EmailProtocol::Imap) => true,
            _ => false,
        };
        self.id == other.id && self.name == other.name && proto && self.enabled == other.enabled
            && self.host == other.host && self.port == other.port && self.username
            == other.username && self.password == other.password && self.use_tls == other.use_tls
            && self.poll_interval_secs == other.poll_interval_secs
    }
}

/// The mail settings: the list of accounts.
#[derive(Clone, Debug, PartialEq)]
pub struct EmailSettings {
    pub accounts: Vec<EmailAccount>,
}

impl View for EmailSettings {
    type V = Seq<AccountView>;

    open spec fn view(&self) -> Seq<AccountView> {
        self.accounts@.map_values(|a: EmailAccount| a@)
    }
}

impl Default for EmailSettings {
    fn default() -> (r: Self)
        ensures
            r@ == Seq::<AccountView>::empty(),
    {
        EmailSettings { accounts: Vec::new() }
    }
}

/// The union of the current and the legacy layout of the `email` settings:
/// either an `accounts` list, or the flat fields of the single account that
/// older versions kept.
#[derive(Clone, Debug)]
pub struct LegacyEmailSettings {
    pub accounts: Option<Vec<EmailAccount>>,
    pub enabled: bool,
    pub host: String,
    pub port: i64,
    pub username: String,
    pub password: String,
    pub use_tls: bool,
    pub poll_interval_secs: i64,
}

impl Default for LegacyEmailSettings {
    /// The defaults of the legacy layout (the old default configuration).
    fn default() -> (r: Self)
        ensures
            r.accounts is None,
            !r.enabled,
            r.host@ == Seq::<char>::empty(),
            r.port == 995,
            r.username@ == Seq::<char>::empty(),
            r.password@ == Seq::<char>::empty(),
            r.use_tls,
            r.poll_interval_secs == 60,
    {
        LegacyEmailSettings {
            accounts: None,
            enabled: false,
            host: String::new(),
            port: 995,
            username: String::new(),
            password: String::new(),
            use_tls: true,
            poll_interval_secs: 60,
        }
    }
}

/// The accounts that the stored `email` settings describe: an `accounts`
/// list as is; otherwise, when the legacy account is enabled or has a host,
/// user name or password, that account as a POP3 account with id `default`;
/// otherwise none.
pub open spec fn migrated_accounts(c: LegacyEmailSettings) -> Seq<AccountView> {
    match c.accounts {
        Some(v) => v@.map_values(|a: EmailAccount| a@),
        None => if c.enabled || c.host@.len() > 0 || c.username@.len() > 0 || c.password@.len()
            > 0 {
            seq![
                AccountView {
                    id: "default"@,
                    name: Seq::empty(),
                    protocol: EmailProtocol::Pop3,
                    enabled: c.enabled,
                    host: c.host@,
                    port: c.port,
                    username: c.username@,
                    password: c.password@,
                    use_tls: c.use_tls,
                    poll_interval_secs: c.poll_interval_secs,
                },
            ]
        } else {
            Seq::empty()
        },
    }
}

impl EmailSettings {
    /// Reads the stored `email` settings in either layout (see
    /// `migrated_accounts`).
    pub fn from_legacy(c: LegacyEmailSettings) -> (r: Self)
        ensures
            r@ == migrated_accounts(c),
    {
        let ghost cv = c;
        match c.accounts {
            Some(accounts) => EmailSettings { accounts },
            None => {
                if c.enabled || !c.host.as_str().is_empty() || !c.username.as_str().is_empty()
                    || !c.password.as_str().is_empty() {
                    let acc = EmailAccount {
                        id: string_of("default"),
                        name: String::new(),
                        protocol: EmailProtocol::Pop3,
                        enabled: c.enabled,
                        host: c.host,
                        port: c.port,
                        username: c.username,
                        password: c.password,
                        use_tls: c.use_tls,
                        poll_interval_secs: c.poll_interval_secs,
                    };
                    let mut accounts = Vec::new();
                    accounts.push(acc);
                    let r = EmailSettings { accounts };
                    assert(r@ =~= migrated_accounts(cv));
                    r
                } else {
                    let r = EmailSettings { accounts: Vec::new() };
                    assert(r@ =~= migrated_accounts(cv));
                    r
                }
            },
        }
    }
}

/// The application settings, persisted as `settings.json`.
#[derive(Clone, Debug)]
pub struct Settings {
    /// Copy each recognized code to the clipboard on arrival.
    pub auto_copy: bool,
    /// The paste shortcut, e.g. "Ctrl+Shift+V".
    pub shortcut: String,
    /// Launch at login.
    pub autostart: bool,
    /// Days of history kept: 1, 3, 7 or 30; 0 keeps everything.
    pub retention_days: i64,
    /// Notification sources (AUMIDs) listened to.
    pub aumids: Vec<String>,
    /// Whether first-run onboarding is done.
    pub onboarded: bool,
    /// UI language, "zh-CN" or "en".
    pub language: String,
    /// Mail accounts.
    pub email: EmailSettings,
}

/// The UI language for a Windows UI language id: Chinese (primary language
/// 0x04) gives "zh-CN", anything else "en".
pub open spec fn language_for(langid: u16) -> Seq<char> {
    if (langid & 0x3ff) == 0x04 {
        "zh-CN"@
    } else {
        "en"@
    }
}

/// The UI language for a Windows UI language id (`GetUserDefaultUILanguage`).
pub fn language_for_ui_language(langid: u16) -> (r: String)
    ensures
        r@ == language_for(langid),
{
    if (langid & 0x3ff) == 0x04 {
        string_of("zh-CN")
    } else {
        string_of("en")
    }
}

/// The default UI language where the system language is not consulted: Chinese.
pub fn default_language() -> (r: String)
    ensures
        r@ == "zh-CN"@,
{
    string_of("zh-CN")
}

/// The source AUMID of Phone Link, listened to by default.
pub open spec fn phone_link_aumid() -> Seq<char> {
    "Microsoft.YourPhone_8wekyb3d8bbwe"@
}

impl Default for Settings {
    fn default() -> (r: Self)
        ensures
            r.auto_copy,
            r.shortcut@ == "Ctrl+Shift+V"@,
            r.autostart,
            r.retention_days == 7,
            r.aumids@.len() == 1 && r.aumids@[0]@ == phone_link_aumid(),
            !r.onboarded,
            r.language@ == "zh-CN"@,
            r.email@ == Seq::<AccountView>::empty(),
    {
        let mut aumids = Vec::new();
        aumids.push(string_of("Microsoft.YourPhone_8wekyb3d8bbwe"));
        Settings {
            auto_copy: true,
            shortcut: string_of("Ctrl+Shift+V"),
            autostart: true,
            retention_days: 7,
            aumids,
            onboarded: false,
            language: default_language(),
            email: EmailSettings::default(),
        }
    }
}

} // verus!
