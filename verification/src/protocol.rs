//! Protocol v1 messages: snapshots of the voice channel and client messages
//! (settings, clear), with the acceptance rules applied to decoded lines.
use vstd::prelude::*;
use vstd::string::StringSliceAdditionalSpecFns;

use crate::config::OverlaySettings;

verus! {

/// The only snapshot version this overlay accepts.
pub const PROTOCOL_VERSION: u8 = 1;

/// Header the server writes once when a client connects.
pub const PROTOCOL_HEADER: &'static str = "VESKTOP_VOICE_OVERLAY/1.0\n";

/// Largest accepted payload, in bytes, of one line.
pub const MAX_PAYLOAD_SIZE: usize = 65536;

/// The local user, as reported by the plugin.
#[derive(Clone, Debug, PartialEq)]
pub struct ParticipantSelf {
    pub user_id: String,
    pub username: String,
    pub avatar_url: String,
    pub mute: bool,
    pub deaf: bool,
    pub speaking: bool,
}

/// Another member of the voice channel.
#[derive(Clone, Debug, PartialEq)]
pub struct Participant {
    pub user_id: String,
    pub username: String,
    pub avatar_url: String,
    pub mute: bool,
    pub deaf: bool,
    pub speaking: bool,
    pub volume: Option<u8>,
}

/// One authoritative view of the voice channel.
#[derive(Clone, Debug, PartialEq)]
pub struct SnapshotV1 {
    pub version: u8,
    pub timestamp: u64,
    pub self_: ParticipantSelf,
    pub participants: Vec<Participant>,
}

pub type Snapshot = SnapshotV1;

/// Non-snapshot messages sent by the plugin.
#[derive(Clone, Debug)]
pub enum ClientMessage {
    Settings { settings: OverlaySettings },
    Clear,
}

/// A participant as plain values.
pub struct ParticipantView {
    pub user_id: Seq<char>,
    pub username: Seq<char>,
    pub avatar_url: Seq<char>,
    pub mute: bool,
    pub deaf: bool,
    pub speaking: bool,
    pub volume: Option<u8>,
}

impl View for Participant {
    type V = ParticipantView;

    open spec fn view(&self) -> ParticipantView {
        ParticipantView {
            user_id: self.user_id@,
            username: self.username@,
            avatar_url: self.avatar_url@,
            mute: self.mute,
            deaf: self.deaf,
            speaking: self.speaking,
            volume: self.volume,
        }
    }
}

impl Participant {
    /// A copy of this participant.
    pub fn duplicate(&self) -> (res: Participant)
        ensures
            res == *self,
    {
        Participant {
            user_id: self.user_id.clone(),
            username: self.username.clone(),
            avatar_url: self.avatar_url.clone(),
            mute: self.mute,
            deaf: self.deaf,
            speaking: self.speaking,
            volume: self.volume,
        }
    }
}

impl ParticipantSelf {
    /// A copy of the local user.
    pub fn duplicate(&self) -> (res: ParticipantSelf)
        ensures
            res == *self,
    {
        ParticipantSelf {
            user_id: self.user_id.clone(),
            username: self.username.clone(),
            avatar_url: self.avatar_url.clone(),
            mute: self.mute,
            deaf: self.deaf,
            speaking: self.speaking,
        }
    }
}

/// Whether a line of `len_bytes` bytes is small enough to be decoded.
pub open spec fn within_limit(len_bytes: nat) -> bool {
    len_bytes <= MAX_PAYLOAD_SIZE
}

/// Whether a line is small enough to be decoded at all.
pub fn payload_within_limit(line: &str) -> (res: bool)
    ensures
        res == within_limit(line.spec_bytes().len()),
{
    line.as_bytes().len() <= MAX_PAYLOAD_SIZE
}

impl SnapshotV1 {
    /// The snapshot accepted for a line, given what decoding the line as a
    /// snapshot produced: nothing for an oversized line, for a line that did
    /// not decode, or for a version other than 1.
    pub open spec fn accepted(line: Seq<char>, decoded: Option<SnapshotV1>) -> Option<SnapshotV1> {
        if !within_limit(crate::text::utf8_of(line).len()) {
            None
        } else {
            match decoded {
                Some(s) => if s.version == PROTOCOL_VERSION {
                    Some(s)
                } else {
                    None
                },
                None => None,
            }
        }
    }

    /// Accepts one protocol line as a snapshot; `decoded` is the result of
    /// decoding the line as JSON.
    pub fn deserialize(line: &str, decoded: Option<SnapshotV1>) -> (res: Option<SnapshotV1>)
        ensures
            res == Self::accepted(line@, decoded),
    {
        if !payload_within_limit(line) {
            return None;
        }
        match decoded {
            Some(snapshot) => if snapshot.version == PROTOCOL_VERSION {
                Some(snapshot)
            } else {
                None
            },
            None => None,
        }
    }
}

/// The client message accepted for a line, given what decoding it produced:
/// settings only when they are valid, a clear always, nothing for an
/// oversized or undecodable line.
pub open spec fn accepted_message(line: Seq<char>, decoded: Option<ClientMessage>) -> Option<
    ClientMessage,
> {
    if !within_limit(crate::text::utf8_of(line).len()) {
        None
    } else {
        match decoded {
            Some(ClientMessage::Settings { settings }) => if settings.valid() {
                Some(ClientMessage::Settings { settings })
            } else {
                None
            },
            Some(ClientMessage::Clear) => Some(ClientMessage::Clear),
            None => None,
        }
    }
}

/// Accepts one protocol line as a client message; `decoded` is the result of
/// decoding the line as JSON.
pub fn deserialize_client_message(line: &str, decoded: Option<ClientMessage>) -> (res: Option<
    ClientMessage,
>)
    ensures
        res == accepted_message(line@, decoded),
{
    if !payload_within_limit(line) {
        return None;
    }
    match decoded {
        Some(ClientMessage::Settings { settings }) => if settings.is_valid() {
            Some(ClientMessage::Settings { settings })
        } else {
            None
        },
        Some(ClientMessage::Clear) => Some(ClientMessage::Clear),
        None => None,
    }
}

/// Law: a line is accepted as a snapshot exactly when it is at most 64 KiB
/// of UTF-8 and decodes to a snapshot of protocol version 1, which is then
/// the snapshot accepted.
pub proof fn lemma_snapshot_acceptance(line: Seq<char>, decoded: Option<SnapshotV1>)
    ensures
        SnapshotV1::accepted(line, decoded) is Some <==> (crate::text::utf8_of(line).len() <= 65536
            && decoded is Some && decoded->0.version == 1),
        SnapshotV1::accepted(line, decoded) is Some ==> SnapshotV1::accepted(line, decoded) == decoded,
        PROTOCOL_VERSION == 1,
        MAX_PAYLOAD_SIZE == 65536,
{
}

/// Law: within the 64 KiB limit, a clear is always accepted and settings are
/// accepted exactly when valid, unchanged; a longer line or one that does not
/// decode is never accepted.
pub proof fn lemma_message_acceptance(line: Seq<char>, decoded: Option<ClientMessage>)
    ensures
        crate::text::utf8_of(line).len() > 65536 ==> accepted_message(line, decoded) is None,
        decoded is None ==> accepted_message(line, decoded) is None,
        crate::text::utf8_of(line).len() <= 65536 && decoded == Some(ClientMessage::Clear)
            ==> accepted_message(line, decoded) == decoded,
        crate::text::utf8_of(line).len() <= 65536 && decoded is Some && decoded->0 is Settings
            ==> (accepted_message(line, decoded) is Some <==> decoded->0->settings.valid()),
        accepted_message(line, decoded) is Some ==> accepted_message(line, decoded) == decoded,
{
}

} // verus!
