use crate::message::Message;
use crate::protocol::line::{ascii_text, decimal_digits, decimal_string};
use vstd::prelude::*;

verus! {

#[verifier::external_type_specification]
#[verifier::external_body]
pub struct ExIoError(std::io::Error);

#[derive(Debug)]
pub enum NsqError {
    IoError(std::io::Error),
    AsyncChannelSendError(Message),
    TopicMsgSendError(Message),
    InvalidMsgLength,
    MaxSubscriberReached(usize),
    Exiting,
    DiskQueueNotImplement,
    FatalClientErr(String, String),
}

/// What a fatal client error tells the client: a code and a description.
pub struct Fault {
    pub code: Seq<char>,
    pub desc: Seq<char>,
}

pub open spec fn fault(code: &str, desc: &str) -> Fault {
    Fault { code: code@, desc: desc@ }
}

impl NsqError {
    /// Whether this is the fatal client error that tells `f`.
    pub open spec fn is_fault(self, f: Fault) -> bool {
        self matches NsqError::FatalClientErr(c, d) && c@ == f.code && d@ == f.desc
    }
}

/// Builds the fatal client error with the given code and description.
pub fn fatal(code: &str, desc: &str) -> (e: NsqError)
    ensures
        e.is_fault(fault(code, desc)),
{
    NsqError::FatalClientErr(code.to_owned(), desc.to_owned())
}

impl NsqError {
    /// What the error says, in words.
    pub open spec fn text(self) -> Seq<char> {
        match self {
            NsqError::IoError(_) => "IO error"@,
            NsqError::AsyncChannelSendError(_) => "Async channel send error"@,
            NsqError::TopicMsgSendError(_) => "Failed to send msgs to topic"@,
            NsqError::InvalidMsgLength => "Invalid message size"@,
            NsqError::MaxSubscriberReached(n) => "The number of subscribers has reached its limit: "@
                + ascii_text(decimal_digits(n as nat)),
            NsqError::Exiting => "NSQD is on the way out"@,
            NsqError::DiskQueueNotImplement => "NSQD Disk queue is not implement"@,
            NsqError::FatalClientErr(code, desc) => code@ + " "@ + desc@,
        }
    }

    /// What the error says, in words.
    pub fn message(&self) -> (s: String)
        ensures
            s@ == self.text(),
    {
        match self {
            NsqError::IoError(_) => "IO error".to_owned(),
            NsqError::AsyncChannelSendError(_) => "Async channel send error".to_owned(),
            NsqError::TopicMsgSendError(_) => "Failed to send msgs to topic".to_owned(),
            NsqError::InvalidMsgLength => "Invalid message size".to_owned(),
            NsqError::MaxSubscriberReached(n) => {
                let mut s = "The number of subscribers has reached its limit: ".to_owned();
                s.append(decimal_string(*n).as_str());
                s
            },
            NsqError::Exiting => "NSQD is on the way out".to_owned(),
            NsqError::DiskQueueNotImplement => "NSQD Disk queue is not implement".to_owned(),
            NsqError::FatalClientErr(code, desc) => {
                let mut s = code.clone();
                s.append(" ");
                s.append(desc.as_str());
                s
            },
        }
    }
}

} // verus!
