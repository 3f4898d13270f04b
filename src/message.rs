use crate::outside::{json_array_items, json_bool, json_bool_of, json_items, json_string, json_string_of, signed_record_of};
use crate::record::{Record, RecordModel};
use crate::tag::str_eq;
use vstd::prelude::*;

verus! {

/// A relay's answer to a published record.
#[derive(Debug)]
pub struct CommandResult {
    pub event_id: String,
    pub status: bool,
    pub message: String,
}

/// A message from a relay.
#[derive(Debug)]
pub enum RelayMessage {
    /// `["EVENT", <subscription id>, <record>]`
    Event { subscription_id: String, event: Record },
    /// `["OK", <record id>, <accepted>, <message>]`
    OK(CommandResult),
    /// `["EOSE", <subscription id>]`: the stored records have all been sent.
    Eose(String),
    /// `["CLOSED", <subscription id>, <reason>]`
    Closed(String, String),
    /// `["NOTICE", <message>]`
    Notice(String),
}

/// Why a relay message could not be read.
#[derive(Debug, PartialEq, Eq, Structural, Clone, Copy)]
pub enum MessageError {
    /// The message is empty.
    Empty,
    /// The message is not one of the known shapes.
    DecodeFailed,
}

/// A relay message as mathematical values.
pub enum MessageModel {
    Event(Seq<char>, RecordModel),
    OK(Seq<char>, bool, Seq<char>),
    Eose(Seq<char>),
    Closed(Seq<char>, Seq<char>),
    Notice(Seq<char>),
}

impl View for RelayMessage {
    type V = MessageModel;

    open spec fn view(&self) -> MessageModel {
        match self {
            RelayMessage::Event { subscription_id, event } => MessageModel::Event(subscription_id@, event@),
            RelayMessage::OK(c) => MessageModel::OK(c.event_id@, c.status, c.message@),
            RelayMessage::Eose(s) => MessageModel::Eose(s@),
            RelayMessage::Closed(s, r) => MessageModel::Closed(s@, r@),
            RelayMessage::Notice(m) => MessageModel::Notice(m@),
        }
    }
}

/// The string element at `i`, where there is one.
pub open spec fn text_at(items: Seq<Seq<char>>, i: int) -> Option<Seq<char>> {
    if 0 <= i < items.len() {
        json_string_of(items[i])
    } else {
        None
    }
}

/// What the elements of a relay message array say, by its first element.
pub open spec fn message_of_items(items: Seq<Seq<char>>) -> Result<MessageModel, MessageError> {
    match text_at(items, 0) {
        None => Err(MessageError::DecodeFailed),
        Some(t) => if t == "NOTICE"@ && items.len() == 2 {
            match text_at(items, 1) {
                Some(m) => Ok(MessageModel::Notice(m)),
                None => Err(MessageError::DecodeFailed),
            }
        } else if t == "EVENT"@ && items.len() == 3 {
            match (text_at(items, 1), signed_record_of(items[2])) {
                (Some(sub), Some(rec)) => Ok(MessageModel::Event(sub, rec)),
                _ => Err(MessageError::DecodeFailed),
            }
        } else if t == "EOSE"@ && items.len() == 2 {
            match text_at(items, 1) {
                Some(sub) => Ok(MessageModel::Eose(sub)),
                None => Err(MessageError::DecodeFailed),
            }
        } else if t == "CLOSED"@ && items.len() == 3 {
            match (text_at(items, 1), text_at(items, 2)) {
                (Some(sub), Some(reason)) => Ok(MessageModel::Closed(sub, reason)),
                _ => Err(MessageError::DecodeFailed),
            }
        } else if t == "OK"@ && items.len() == 4 {
            match (text_at(items, 1), json_bool_of(items[2]), text_at(items, 3)) {
                (Some(id), Some(status), Some(m)) => Ok(MessageModel::OK(id, status, m)),
                _ => Err(MessageError::DecodeFailed),
            }
        } else {
            Err(MessageError::DecodeFailed)
        }
    }
}

/// What a relay message text says.
pub open spec fn message_of(msg: Seq<char>) -> Result<MessageModel, MessageError> {
    if msg.len() == 0 {
        Err(MessageError::Empty)
    } else {
        match json_array_items(msg) {
            None => Err(MessageError::DecodeFailed),
            Some(items) => message_of_items(items),
        }
    }
}

fn text_item(items: &Vec<String>, i: usize) -> (r: Option<String>)
    ensures
        match r {
            Some(t) => text_at(items@.map_values(|s: String| s@), i as int) == Some(t@),
            None => text_at(items@.map_values(|s: String| s@), i as int) is None,
        },
{
    if i < items.len() {
        json_string(items[i].as_str())
    } else {
        None
    }
}

impl RelayMessage {
    /// Reads a relay message from its JSON text.
    pub fn from_json(msg: &str) -> (r: Result<RelayMessage, MessageError>)
        ensures
            match r {
                Ok(m) => message_of(msg@) == Ok::<MessageModel, MessageError>(m@),
                Err(e) => message_of(msg@) == Err::<MessageModel, MessageError>(e),
            },
    {
        if msg.unicode_len() == 0 {
            return Err(MessageError::Empty);
        }
        let items = match json_items(msg) {
            Some(v) => v,
            None => return Err(MessageError::DecodeFailed),
        };
        let ghost iv = items@.map_values(|s: String| s@);
        let kind = match text_item(&items, 0) {
            Some(t) => t,
            None => return Err(MessageError::DecodeFailed),
        };
        let n = items.len();
        if str_eq(kind.as_str(), "NOTICE") && n == 2 {
            match text_item(&items, 1) {
                Some(m) => Ok(RelayMessage::Notice(m)),
                None => Err(MessageError::DecodeFailed),
            }
        } else if str_eq(kind.as_str(), "EVENT") && n == 3 {
            let sub = text_item(&items, 1);
            let rec = Record::from_json(items[2].as_str());
            assert(iv[2] == items@[2]@);
            match (sub, rec) {
                (Some(subscription_id), Some(event)) => Ok(RelayMessage::Event { subscription_id, event }),
                _ => Err(MessageError::DecodeFailed),
            }
        } else if str_eq(kind.as_str(), "EOSE") && n == 2 {
            match text_item(&items, 1) {
                Some(s) => Ok(RelayMessage::Eose(s)),
                None => Err(MessageError::DecodeFailed),
            }
        } else if str_eq(kind.as_str(), "CLOSED") && n == 3 {
            match (text_item(&items, 1), text_item(&items, 2)) {
                (Some(s), Some(reason)) => Ok(RelayMessage::Closed(s, reason)),
                _ => Err(MessageError::DecodeFailed),
            }
        } else if str_eq(kind.as_str(), "OK") && n == 4 {
            let status = json_bool(items[3 - 1].as_str());
            assert(iv[2] == items@[2]@);
            match (text_item(&items, 1), status, text_item(&items, 3)) {
                (Some(event_id), Some(status), Some(message)) => Ok(
                    RelayMessage::OK(CommandResult { event_id, status, message }),
                ),
                _ => Err(MessageError::DecodeFailed),
            }
        } else {
            Err(MessageError::DecodeFailed)
        }
    }
}

} // verus!
