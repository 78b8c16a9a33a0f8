//! Framing of the RPC pipe: every frame is an action byte, a big-endian
//! channel id, and a payload; requests carry service and call ids in front
//! of their payload.

use vstd::prelude::*;
use vstd::string::StringSliceAdditionalSpecFns;

verus! {

broadcast use vstd::std_specs::vec::group_vec_axioms, vstd::seq::group_seq_axioms;

/// The action byte of a frame.
#[derive(Debug, Clone, Copy, PartialEq, Eq, Structural)]
pub enum PipeAction {
    Error,
    Request,
    Response,
    Part,
    Close,
}

/// The wire code of each action.
pub open spec fn action_code(a: PipeAction) -> u8 {
    match a {
        PipeAction::Error => 0,
        PipeAction::Request => 1,
        PipeAction::Response => 2,
        PipeAction::Part => 3,
        PipeAction::Close => 4,
    }
}

impl PipeAction {
    /// The byte this action is framed as.
    pub fn code(&self) -> (r: u8)
        ensures
            r == action_code(*self),
    {
        match self {
            PipeAction::Error => 0,
            PipeAction::Request => 1,
            PipeAction::Response => 2,
            PipeAction::Part => 3,
            PipeAction::Close => 4,
        }
    }

    /// Decode an action byte: succeeds exactly on the five valid codes.
    pub fn try_from(num: u8) -> (r: Result<PipeAction, PipeError>)
        ensures
            match r {
                Ok(a) => action_code(a) == num,
                Err(e) => num > 4 && e == PipeError::InvalidAction,
            },
    {
        match num {
            0 => Ok(PipeAction::Error),
            1 => Ok(PipeAction::Request),
            2 => Ok(PipeAction::Response),
            3 => Ok(PipeAction::Part),
            4 => Ok(PipeAction::Close),
            _ => Err(PipeError::InvalidAction),
        }
    }
}

/// Why a frame was rejected.
#[derive(Debug, Clone, Copy, PartialEq, Eq, Structural)]
pub enum PipeError {
    /// Shorter than the three header bytes.
    InvalidMessage,
    /// The action byte is not a known code.
    InvalidAction,
    /// A request frame shorter than its seven header bytes.
    InvalidRequest,
    /// A valid action a client may not send.
    ActionNotAllowed,
}

impl PipeError {
    /// The human-readable description of the error.
    pub fn message(&self) -> (r: String)
        ensures
            (*self == PipeError::InvalidMessage ==> r@ == "invalid pipe message"@),
            (*self == PipeError::InvalidAction ==> r@ == "invalid pipeaction"@),
            (*self == PipeError::InvalidRequest ==> r@ == "invalid pipe request"@),
            (*self == PipeError::ActionNotAllowed ==> r@
                == "invalid pipe action from the client"@),
    {
        match self {
            PipeError::InvalidMessage => "invalid pipe message".to_owned(),
            PipeError::InvalidAction => "invalid pipeaction".to_owned(),
            PipeError::InvalidRequest => "invalid pipe request".to_owned(),
            PipeError::ActionNotAllowed => "invalid pipe action from the client".to_owned(),
        }
    }
}

/// A big-endian 16-bit quantity from two bytes.
pub open spec fn be16(hi: u8, lo: u8) -> int {
    hi * 256 + lo
}

/// A request made on a pipe.
#[derive(Debug)]
pub struct PipeRequest {
    pub channel_id: u16,
    pub service_id: u16,
    pub call_id: u16,
    pub data: Vec<u8>,
}

impl PipeRequest {
    /// The request payload: everything after the seven header bytes.
    pub fn payload_slice(&self) -> (r: &[u8])
        requires
            self.data@.len() >= 7,
        ensures
            r@ == self.data@.skip(7),
    {
        let (_, tail) = self.data.as_slice().split_at(7);
        proof {
            assert(self.data@.subrange(7, self.data@.len() as int) =~= self.data@.skip(7));
        }
        tail
    }
}

/// A message coming into a pipe.
#[derive(Debug)]
pub enum PipeMessage {
    Request(PipeRequest),
    Close,
}

impl PipeMessage {
    /// Decode a frame. Succeeds exactly on a close frame, or on a request
    /// frame of at least seven bytes, whose ids are read big-endian; every
    /// other frame is rejected with the reason.
    pub fn try_from(value: Vec<u8>) -> (r: Result<PipeMessage, PipeError>)
        ensures
            value@.len() < 3 ==> r == Err::<PipeMessage, PipeError>(PipeError::InvalidMessage),
            value@.len() >= 3 && value@[0] > 4 ==> r == Err::<PipeMessage, PipeError>(
                PipeError::InvalidAction,
            ),
            value@.len() >= 3 && value@[0] == 4 ==> (r matches Ok(m) && m is Close),
            value@.len() >= 3 && value@[0] == 1 ==> (if value@.len() < 7 {
                r == Err::<PipeMessage, PipeError>(PipeError::InvalidRequest)
            } else {
                (r matches Ok(m) && m matches PipeMessage::Request(q) && q.channel_id == be16(
                    value@[1],
                    value@[2],
                ) && q.service_id == be16(value@[3], value@[4]) && q.call_id == be16(
                    value@[5],
                    value@[6],
                ) && q.data@ == value@)
            }),
            value@.len() >= 3 && (value@[0] == 0 || value@[0] == 2 || value@[0] == 3) ==> r
                == Err::<PipeMessage, PipeError>(PipeError::ActionNotAllowed),
    {
        if value.len() < 3 {
            return Err(PipeError::InvalidMessage);
        }
        let action = match PipeAction::try_from(value[0]) {
            Ok(a) => a,
            Err(e) => {
                return Err(e);
            },
        };
        match action {
            PipeAction::Close => Ok(PipeMessage::Close),
            PipeAction::Request => {
                if value.len() < 7 {
                    return Err(PipeError::InvalidRequest);
                }
                let channel_id = be16_read(value[1], value[2]);
                let service_id = be16_read(value[3], value[4]);
                let call_id = be16_read(value[5], value[6]);
                Ok(PipeMessage::Request(PipeRequest { channel_id, service_id, call_id, data: value }))
            },
            _ => Err(PipeError::ActionNotAllowed),
        }
    }
}

/// Read a big-endian 16-bit quantity.
pub fn be16_read(hi: u8, lo: u8) -> (r: u16)
    ensures
        r == be16(hi, lo),
{
    (hi as u16) * 256 + (lo as u16)
}

/// The two big-endian bytes of a 16-bit quantity.
pub fn be16_bytes(v: u16) -> (r: (u8, u8))
    ensures
        be16(r.0, r.1) == v,
        r.0 == v / 256,
        r.1 == v % 256,
{
    ((v / 256) as u8, (v % 256) as u8)
}

/// An error frame: the error action, the channel, and the message text's
/// bytes.
pub fn error_message(channel: u16, message: &str) -> (r: Vec<u8>)
    ensures
        r@.len() == 3 + message.spec_bytes().len(),
        r@[0] == 0,
        be16(r@[1], r@[2]) == channel,
        r@.skip(3) == message.spec_bytes(),
{
    let mut out: Vec<u8> = Vec::new();
    out.push(0);
    let (hi, lo) = be16_bytes(channel);
    out.push(hi);
    out.push(lo);
    let bytes = message.as_bytes();
    let mut i: usize = 0;
    while i < bytes.len()
        invariant
            0 <= i <= bytes@.len(),
            bytes@ == message.spec_bytes(),
            out@.len() == 3 + i,
            out@[0] == 0,
            be16(out@[1], out@[2]) == channel,
            out@.skip(3) == bytes@.take(i as int),
        decreases bytes@.len() - i,
    {
        out.push(bytes[i]);
        proof {
            assert(out@.skip(3) =~= bytes@.take(i as int + 1));
        }
        i += 1;
    }
    proof {
        assert(bytes@.take(bytes@.len() as int) =~= bytes@);
    }
    out
}

/// A framed message: the action byte, the big-endian channel, and an
/// already-encoded payload.
pub fn frame_message(action: PipeAction, channel: u16, payload: &Vec<u8>) -> (r: Vec<u8>)
    ensures
        r@.len() == 3 + payload@.len(),
        r@[0] == action_code(action),
        be16(r@[1], r@[2]) == channel,
        r@.skip(3) == payload@,
{
    let mut out: Vec<u8> = Vec::new();
    out.push(action.code());
    let (hi, lo) = be16_bytes(channel);
    out.push(hi);
    out.push(lo);
    let mut i: usize = 0;
    while i < payload.len()
        invariant
            0 <= i <= payload@.len(),
            out@.len() == 3 + i,
            out@[0] == action_code(action),
            be16(out@[1], out@[2]) == channel,
            out@.skip(3) == payload@.take(i as int),
        decreases payload@.len() - i,
    {
        out.push(payload[i]);
        proof {
            assert(out@.skip(3) =~= payload@.take(i as int + 1));
        }
        i += 1;
    }
    proof {
        assert(payload@.take(payload@.len() as int) =~= payload@);
    }
    out
}

} // verus!
