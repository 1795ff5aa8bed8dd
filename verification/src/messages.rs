//! Outgoing wire messages.
//!
//! A text message carries chat, system or dice content together with an
//! optional sender name, optional dice results and a timestamp; a room
//! state message carries a roster snapshot.  The transport layer turns
//! these values into their JSON wire form.

use vstd::prelude::*;

verus! {

/// One text line pushed to a client.  `name` is absent for system
/// messages; `dice_results` is present only for dice messages.
pub struct TextMessageDTO {
    pub message: String,
    pub name: Option<String>,
    pub dice_results: Option<Vec<i32>>,
    /// Milliseconds since the epoch at construction time.
    pub time: i64,
}

/// A roster snapshot of one room, in reply-arrival order.
pub struct RoomStateMessageDTO {
    pub room_name: String,
    pub members: Vec<String>,
}

/// Everything a session may push to its client.
pub enum OutgoingMessageDTO {
    TextMessage(TextMessageDTO),
    RoomState(RoomStateMessageDTO),
}

/// Relies on `chrono::Utc::now` for the current wall-clock time; the
/// answer depends on the moment of the call, so nothing is promised of it.
#[verifier::external_body]
fn now_millis() -> i64 {
    chrono::Utc::now().timestamp_millis()
}

/// An element-wise copy of a vector of results.
fn copy_results(v: &Vec<i32>) -> (r: Vec<i32>)
    ensures
        r@ == v@,
{
    let mut r: Vec<i32> = Vec::new();
    let n = v.len();
    for i in 0..n
        invariant
            n == v@.len(),
            r@ == v@.take(i as int),
    {
        r.push(v[i]);
        proof {
            assert(v@.take(i + 1) =~= v@.take(i as int).push(v@[i as int]));
        }
    }
    proof {
        assert(v@.take(n as int) =~= v@);
    }
    r
}

impl TextMessageDTO {
    /// A dice message: the request text, the rolled results and the
    /// sender's name.
    pub fn dice_result(message: &str, dice_results: &Vec<i32>, sender: &str) -> (r: Self)
        ensures
            r.message@ == message@,
            r.name matches Some(n) && n@ == sender@,
            r.dice_results matches Some(d) && d@ == dice_results@,
    {
        TextMessageDTO {
            message: message.to_owned(),
            name: Some(sender.to_owned()),
            dice_results: Some(copy_results(dice_results)),
            time: now_millis(),
        }
    }

    /// A plain chat message from a named sender.
    pub fn chat(message: &str, sender: &str) -> (r: Self)
        ensures
            r.message@ == message@,
            r.name matches Some(n) && n@ == sender@,
            r.dice_results is None,
    {
        TextMessageDTO {
            message: message.to_owned(),
            name: Some(sender.to_owned()),
            dice_results: None,
            time: now_millis(),
        }
    }

    /// An anonymous system notice.
    pub fn system(message: &str) -> (r: Self)
        ensures
            r.message@ == message@,
            r.name is None,
            r.dice_results is None,
    {
        TextMessageDTO {
            message: message.to_owned(),
            name: None,
            dice_results: None,
            time: now_millis(),
        }
    }
}

/// True of a text message that is a system notice with the given content.
pub open spec fn is_system_text(t: TextMessageDTO, text: Seq<char>) -> bool {
    &&& t.message@ == text
    &&& t.name is None
    &&& t.dice_results is None
}

/// A system notice wrapped as an outgoing message.
pub fn system_message(text: &str) -> (r: OutgoingMessageDTO)
    ensures
        r matches OutgoingMessageDTO::TextMessage(t) && is_system_text(t, text@),
{
    OutgoingMessageDTO::TextMessage(TextMessageDTO::system(text))
}

} // verus!
