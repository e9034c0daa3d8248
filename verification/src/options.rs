use vstd::prelude::*;

verus! {

/// The settings that the broker's core works with. All durations are in
/// milliseconds.
#[derive(Debug, Clone, Copy)]
pub struct Options {
    /// The number of this node among the brokers; it goes into message identifiers.
    pub id: u16,
    /// How many messages a channel keeps ready in memory.
    pub mem_queue_size: usize,
    /// How many consumers a channel accepts.
    pub max_channel_subscribers: usize,
    /// How long a consumer has to answer for a message.
    pub msg_timeout: u64,
    pub max_msg_timeout: u64,
    /// The largest message body accepted.
    pub max_msg_size: u32,
    pub max_body_size: u32,
    pub max_req_timeout: u64,
    /// How long a connection may stay silent. A heartbeat is due every half of it.
    pub client_timeout: u64,
    pub max_heartbeat_interval: u64,
    pub max_rdy_count: i64,
    pub max_output_buffer_size: i64,
    pub max_output_buffer_timeout: u64,
    pub min_output_buffer_timeout: u64,
    pub output_buffer_timeout: u64,
}

impl Options {
    /// The default settings.
    pub fn new() -> (o: Self)
        ensures
            o == (Options {
                id: 1,
                mem_queue_size: 10000,
                max_channel_subscribers: usize::MAX,
                msg_timeout: 60000,
                max_msg_timeout: 900000,
                max_msg_size: 1048576,
                max_body_size: 5242880,
                max_req_timeout: 3600000,
                client_timeout: 60000,
                max_heartbeat_interval: 60000,
                max_rdy_count: 2500,
                max_output_buffer_size: 65536,
                max_output_buffer_timeout: 30000,
                min_output_buffer_timeout: 25,
                output_buffer_timeout: 250,
            }),
    {
        Options {
            id: 1,
            mem_queue_size: 10000,
            max_channel_subscribers: usize::MAX,
            msg_timeout: 60 * 1000,
            max_msg_timeout: 15 * 60 * 1000,
            max_msg_size: 1024 * 1024,
            max_body_size: 5 * 1024 * 1024,
            max_req_timeout: 60 * 60 * 1000,
            client_timeout: 60 * 1000,
            max_heartbeat_interval: 60 * 1000,
            max_rdy_count: 2500,
            max_output_buffer_size: 64 * 1024,
            max_output_buffer_timeout: 30 * 1000,
            min_output_buffer_timeout: 25,
            output_buffer_timeout: 250,
        }
    }
}

} // verus!
