pub mod text;
pub mod parser;
pub mod html;
pub mod mail;
pub mod pop3;
pub mod settings;
pub mod i18n;
pub mod storage;
pub mod monitor;
pub mod state;
pub mod hotkey;
pub mod notifications;
pub mod toast;
pub mod commands;
pub mod paste;
