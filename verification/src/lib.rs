//! The rules of a personal gateway for language model APIs: who may call it, where a request goes,
//! what is counted, and what its administrator sees and changes.
pub mod admin;
pub mod backups;
pub mod clock;
pub mod config;
pub mod configjson;
pub mod connections;
pub mod conversations;
pub mod decimal;
pub mod gateway;
pub mod health;
pub mod hexcode;
pub mod ids;
pub mod json;
pub mod keys;
pub mod limits;
pub mod migration;
pub mod password;
pub mod paths;
pub mod presets;
pub mod proxy;
pub mod release;
pub mod routing;
pub mod secrets;
pub mod session;
pub mod statics;
pub mod text;
pub mod tokens;
pub mod tray;
pub mod usage;
pub mod validation;
pub mod weburl;
