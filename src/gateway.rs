//! What the push gateway answers, and what that answer means for a token.
use vstd::prelude::*;

verus! {

/// The HTTP status with which the gateway accepts a notification.
pub const STATUS_OK: u16 = 200;

/// The HTTP status with which the gateway reports that a token is no longer
/// active for the topic.
pub const STATUS_GONE: u16 = 410;

/// The HTTP status answered when a send failed for a reason that may pass.
pub const STATUS_SERVER_ERROR: u16 = 500;

/// A gateway reply as plain values: the status the gateway answered with, or
/// a failure before any answer came.
#[derive(Debug, Clone, PartialEq, Eq)]
pub enum GatewayReply {
    Status(u16),
    Unreachable(String),
}

/// The meaning of one send for the token it was sent to.
#[derive(Debug, Clone, PartialEq, Eq)]
pub enum Outcome {
    /// The gateway accepted the notification.
    Delivered,
    /// The gateway reports the token as permanently unusable, with this status.
    Invalid(u16),
    /// The gateway answered with another status that is not a success.
    TransientFailure(u16),
    /// No answer was obtained from the gateway.
    TransportFailure(String),
}

impl Outcome {
    /// Only a confirmed-invalid token may leave the store.
    pub open spec fn prunes(&self) -> bool {
        self is Invalid
    }

    /// Tells whether the token this outcome belongs to is to be removed.
    pub fn is_invalid(&self) -> (b: bool)
        ensures
            b == self.prunes(),
    {
        match self {
            Outcome::Invalid(_) => true,
            _ => false,
        }
    }
}

/// The outcome that a gateway reply stands for.
pub open spec fn outcome_of(reply: GatewayReply) -> Outcome {
    match reply {
        GatewayReply::Status(code) => if code == STATUS_OK {
            Outcome::Delivered
        } else if code == STATUS_GONE {
            Outcome::Invalid(code)
        } else {
            Outcome::TransientFailure(code)
        },
        GatewayReply::Unreachable(detail) => Outcome::TransportFailure(detail),
    }
}

/// Interprets a gateway reply: 200 is a delivery, 410 marks the token invalid,
/// any other status is a transient failure, and no answer at all is a
/// transport failure.
pub fn classify(reply: GatewayReply) -> (r: Outcome)
    ensures
        r == outcome_of(reply),
{
    match reply {
        GatewayReply::Status(code) => {
            if code == STATUS_OK {
                Outcome::Delivered
            } else if code == STATUS_GONE {
                Outcome::Invalid(code)
            } else {
                Outcome::TransientFailure(code)
            }
        },
        GatewayReply::Unreachable(detail) => Outcome::TransportFailure(detail),
    }
}

/// The delivery priority the gateway is asked for.
#[derive(Debug, Clone, Copy, PartialEq, Eq, Structural)]
pub enum Priority {
    /// Sent as the device's power considerations allow.
    Normal,
    /// Sent at once.
    High,
}

/// The user-facing content of a visible notification, with the localisation
/// keys the device uses in place of the texts where it has them.
#[derive(Debug, Clone, Copy, PartialEq, Eq)]
pub struct Alert {
    pub title: &'static str,
    pub title_loc_key: &'static str,
    pub body: &'static str,
    pub loc_key: &'static str,
    pub sound: &'static str,
}

/// The two payload shapes: a silent background wake-up, or a visible
/// notification.
#[derive(Debug, Clone, Copy, PartialEq, Eq)]
pub enum Notice {
    Silent,
    Visible(Alert),
}

impl Notice {
    pub open spec fn spec_priority(&self) -> Priority {
        match self {
            Notice::Silent => Priority::Normal,
            Notice::Visible(_) => Priority::High,
        }
    }

    /// Silent wake-ups go at normal priority, visible notifications at high.
    pub fn priority(&self) -> (r: Priority)
        ensures
            r == self.spec_priority(),
    {
        match self {
            Notice::Silent => Priority::Normal,
            Notice::Visible(_) => Priority::High,
        }
    }
}

/// The payload of the periodic wake-up: no content, only the background flag.
pub fn silent_notice() -> (r: Notice)
    ensures
        r == Notice::Silent,
{
    Notice::Silent
}

/// The payload of an on-demand notification about new messages.
pub fn visible_notice() -> (r: Notice)
    ensures
        r is Visible,
        r->Visible_0.title@ == "New messages"@,
        r->Visible_0.title_loc_key@ == "new_messages"@,
        r->Visible_0.body@ == "You have new messages"@,
        r->Visible_0.loc_key@ == "new_messages_body"@,
        r->Visible_0.sound@ == "default"@,
{
    Notice::Visible(
        Alert {
            title: "New messages",
            title_loc_key: "new_messages",
            body: "You have new messages",
            loc_key: "new_messages_body",
            sound: "default",
        },
    )
}

} // verus!
