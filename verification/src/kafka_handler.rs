//! Data carried between the request handlers and the message-broker glue.
//!
//! The broker itself is an external collaborator: connecting, producing and
//! consuming happen outside the library.  What lives here is the channel
//! message type the handlers exchange with that glue, and the pure mapping
//! from a channel message to the record the producer sends.

use vstd::prelude::*;

verus! {

/// One message on the channel between the request handlers and the
/// broker glue.
pub enum KafkaChannelMessage {
    KafkaProducerStarted,
    KafkaProducerError,
    KafkaConsumerStarted,
    KafkaConsumerError,
    Message { sender: String, content: String },
}

/// The client context the broker glue installs; it requests no token
/// refreshing and keeps every other default.
pub struct KafkaNinoverseBrokerContext {}

/// The key and payload of the record the producer sends for one channel
/// message; control messages produce no record.
pub open spec fn spec_producer_record(msg: KafkaChannelMessage) -> Option<(Seq<char>, Seq<char>)> {
    match msg {
        KafkaChannelMessage::Message { sender, content } => Some(
            (sender@, "Message: "@ + content@),
        ),
        _ => None,
    }
}

/// Builds the key and payload of the record to produce for one channel
/// message, or reports that the message produces none.
pub fn producer_record_parts(msg: &KafkaChannelMessage) -> (r: Option<(String, String)>)
    ensures
        match spec_producer_record(*msg) {
            Some(p) => r matches Some(out) && out.0@ == p.0 && out.1@ == p.1,
            None => r is None,
        },
{
    match msg {
        KafkaChannelMessage::Message { sender, content } => {
            let mut payload = String::from_str("Message: ");
            payload.append(content.as_str());
            Some((sender.clone(), payload))
        },
        _ => None,
    }
}

} // verus!
