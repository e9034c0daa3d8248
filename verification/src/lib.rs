pub mod buf;
pub mod channel;
pub mod channel_state;
pub mod client_v2;
pub mod clock;
pub mod command;
pub mod endian;
pub mod errors;
pub mod guid;
pub mod message;
pub mod nsqd;
pub mod options;
pub mod protocol;
pub mod protocol_v2;
pub mod response;
pub mod shutdown;
pub mod topic;
