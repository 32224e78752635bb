pub mod frame;
pub mod grammar;
pub mod encode;
pub mod decode;
pub mod buffer;
pub mod laws;
pub mod backend;
pub mod cmd;
pub mod cmd_echo;
pub mod cmd_string;
pub mod cmd_set;
pub mod pairsort;
pub mod cmd_hash;
pub mod cmd_dispatch;
