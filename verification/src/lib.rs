//! Account, configuration, lock, notification, tray and window logic of the
//! ZeroWhats desktop client: what the app decides, separate from the windows,
//! files and system services it drives.

pub mod text;
pub mod accounts;
pub mod config;
pub mod events;
pub mod lock;
pub mod unread;
pub mod updater;
pub mod window;
pub mod clipboard;
pub mod codec;
pub mod commands;
pub mod tray;
pub mod notification;
pub mod scripts;
