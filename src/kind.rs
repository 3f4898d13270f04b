use vstd::prelude::*;

verus! {

/// Kind number of a profile metadata record.
pub const METADATA_KIND: u16 = 0;

/// Kind number of a deletion request.
pub const DELETION_KIND: u16 = 5;

/// Kind number of a sealed, direct message inside an envelope.
pub const SEAL_KIND: u16 = 13;

/// Kind number of an envelope (gift wrap).
pub const GIFT_WRAP_KIND: u16 = 1059;

/// Kind number of a mail message.
pub const MAIL_EVENT_KIND: u16 = 2024;

/// What a record is, by its kind number.
#[derive(Debug, PartialEq, Eq, Structural, Clone, Copy)]
pub enum EventKind {
    ProfileMetadata,
    Deletion,
    GiftWrap,
    MailEvent,
    Custom(u16),
}

/// The kind that a kind number stands for.
pub open spec fn kind_of(n: u16) -> EventKind {
    if n == METADATA_KIND {
        EventKind::ProfileMetadata
    } else if n == DELETION_KIND {
        EventKind::Deletion
    } else if n == GIFT_WRAP_KIND {
        EventKind::GiftWrap
    } else if n == MAIL_EVENT_KIND {
        EventKind::MailEvent
    } else {
        EventKind::Custom(n)
    }
}

/// The kind number of a kind.
pub open spec fn number_of(k: EventKind) -> u16 {
    match k {
        EventKind::ProfileMetadata => METADATA_KIND,
        EventKind::Deletion => DELETION_KIND,
        EventKind::GiftWrap => GIFT_WRAP_KIND,
        EventKind::MailEvent => MAIL_EVENT_KIND,
        EventKind::Custom(n) => n,
    }
}

impl EventKind {
    pub fn from_u16(n: u16) -> (r: EventKind)
        ensures
            r == kind_of(n),
    {
        if n == METADATA_KIND {
            EventKind::ProfileMetadata
        } else if n == DELETION_KIND {
            EventKind::Deletion
        } else if n == GIFT_WRAP_KIND {
            EventKind::GiftWrap
        } else if n == MAIL_EVENT_KIND {
            EventKind::MailEvent
        } else {
            EventKind::Custom(n)
        }
    }

    pub fn as_u16(&self) -> (r: u16)
        ensures
            r == number_of(*self),
    {
        match self {
            EventKind::ProfileMetadata => METADATA_KIND,
            EventKind::Deletion => DELETION_KIND,
            EventKind::GiftWrap => GIFT_WRAP_KIND,
            EventKind::MailEvent => MAIL_EVENT_KIND,
            EventKind::Custom(n) => *n,
        }
    }
}

} // verus!
