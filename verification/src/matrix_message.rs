//! Plain values exchanged with the bridge-bot workers. The workers themselves
//! (room discovery, relay to the external chat network) are external
//! collaborators; the protocol core only produces and consumes these values.

use vstd::prelude::*;

verus! {

/// A chat message relayed between a session and one bridge-bot worker.
pub struct MatrixMessage {
    pub room_idx: usize,
    pub display_name: String,
    pub content: String,
}

/// One conversation channel a bridge bot knows about.
pub struct MatrixChannelInfo {
    pub idx: u32,
    pub room_id: String,
    pub display_name: String,
}

/// What a session knows about one authorized bridge bot.
pub struct MatrixBotInfo {
    pub bot_address: String,
    pub platform: String,
    pub bot_client_name: String,
    pub num_channels: usize,
    pub channel_infos: Vec<MatrixChannelInfo>,
}

/// A control message on the control channel of one bridge-bot worker. Each
/// worker has two unidirectional data channels and two unidirectional control
/// channels; control messages never travel on the data channels.
pub enum MatrixBotControlMessage {
    /// Ask the worker for its current channel list.
    RequestChannels { domain_idx: u8 },
    /// The worker's current channel list.
    UpdateChannels { domain_idx: u8, channels: Vec<MatrixChannelInfo> },
    /// Ask the worker to stop; termination is cooperative.
    TerminateBot,
}

} // verus!
