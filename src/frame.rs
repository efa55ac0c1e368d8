//! Length-prefixed strings and the Disconnect frame that carries a chat
//! object to the client.
use vstd::prelude::*;
use vstd::string::StringExecFns;

use crate::error::PacketError;
use crate::error::{error_message, lemma_message_len, Error};
use crate::text::{lemma_utf8_concat, lemma_utf8_len};
use crate::varint::{
    lemma_varint_bytes_len,
    lemma_varint_decode_prefix,
    varint_bytes,
    varint_decode,
    write_varint,
};

verus! {

/// Packet id of the Disconnect frame.
pub const DISCONNECT_PACKET_ID: i32 = 0x19;

/// Most bytes of reason text one Disconnect frame may carry.
pub const MAX_REASON_BYTES: usize = 262_144;

/// The UTF-8 bytes of the text `s`.
pub open spec fn utf8(s: Seq<char>) -> Seq<u8> {
    vstd::utf8::encode_utf8(s)
}

/// A string on the wire: the byte count, then the UTF-8 bytes.
pub open spec fn string_bytes(s: Seq<char>) -> Seq<u8> {
    varint_bytes(utf8(s).len() as u32) + utf8(s)
}

/// A complete Disconnect frame for `reason`: the byte count of the body, then
/// the body, which is the packet id followed by the reason as a string.
pub open spec fn disconnect_frame(reason: Seq<char>) -> Seq<u8> {
    let body = varint_bytes(DISCONNECT_PACKET_ID as u32) + string_bytes(reason);
    varint_bytes(body.len() as u32) + body
}

/// The JSON string literal (quoted and escaped) that `serde_json` writes for
/// the text `s`.
pub uninterp spec fn json_string_literal(s: Seq<char>) -> Seq<char>;

/// Relies on `serde_json::to_string`: a `str` serialises to a JSON string
/// literal that depends on its characters alone; serialising a `str` into
/// memory does not fail. Between its two quotes each input byte is copied
/// or escaped to at most six bytes (`\u00XX`).
#[verifier::external_body]
pub(crate) fn json_quote(s: &str) -> (r: String)
    ensures
        r@ == json_string_literal(s@),
        utf8(r@).len() <= 6 * utf8(s@).len() + 2,
{
    serde_json::to_string(s).unwrap_or_default()
}

/// The chat object shown to a rejected client: `text` in bold red, keys in
/// sorted order.
pub open spec fn chat_object(text: Seq<char>) -> Seq<char> {
    "{\"bold\":true,\"color\":\"red\",\"text\":"@ + json_string_literal(text) + "}"@
}

/// Builds the chat object for `text`.
pub fn chat_json(text: &str) -> (r: String)
    ensures
        r@ == chat_object(text@),
        utf8(r@).len() <= 6 * utf8(text@).len() + 160,
{
    let mut out = String::from_str("{\"bold\":true,\"color\":\"red\",\"text\":");
    let quoted = json_quote(text);
    out.append(quoted.as_str());
    out.append("}");
    proof {
        let head = "{\"bold\":true,\"color\":\"red\",\"text\":"@;
        let tail = "}"@;
        reveal_strlit("{\"bold\":true,\"color\":\"red\",\"text\":");
        reveal_strlit("}");
        lemma_utf8_concat(head, quoted@);
        lemma_utf8_concat(head + quoted@, tail);
        lemma_utf8_len(head);
        lemma_utf8_len(tail);
    }
    out
}

/// Appends `s` as a string: its byte count, then its UTF-8 bytes.
pub fn write_string(s: &str, out: &mut Vec<u8>)
    requires
        utf8(s@).len() <= i32::MAX,
    ensures
        final(out)@ == old(out)@ + string_bytes(s@),
{
    let bytes = s.as_bytes();
    write_varint(bytes.len() as i32, out);
    out.extend_from_slice(bytes);
    proof {
        assert(bytes@ == utf8(s@));
        assert((bytes@.len() as i32) as u32 == bytes@.len() as u32);
    }
    assert(out@ =~= old(out)@ + string_bytes(s@));
}

/// Which way a packet type travels.
#[derive(Debug, Clone, Copy, PartialEq, Eq, Structural)]
pub enum PacketDirectionType {
    Clientbound,
    Serverbound,
}

/// A packet type that always travels one way.
pub trait PacketDirection {
    fn direction() -> PacketDirectionType;
}

/// The frame sent to a client before it is disconnected.
#[derive(Debug, Clone, PartialEq)]
pub struct DisconnectPacket {
    pub reason: String,
}

impl DisconnectPacket {
    pub fn new(reason: String) -> (r: Self)
        ensures
            r.reason@ == reason@,
    {
        Self { reason: reason }
    }

    /// The frame bytes; fails with `InvalidData` when the reason takes more
    /// than `MAX_REASON_BYTES` bytes.
    pub fn serialize(&self) -> (r: Result<Vec<u8>, PacketError>)
        ensures
            utf8(self.reason@).len() > MAX_REASON_BYTES ==> r == Err::<Vec<u8>, PacketError>(
                PacketError::InvalidData,
            ),
            utf8(self.reason@).len() <= MAX_REASON_BYTES ==> (r matches Ok(v) && v@
                == disconnect_frame(self.reason@)),
    {
        let text = self.reason.as_str();
        if text.as_bytes().len() > MAX_REASON_BYTES {
            return Err(PacketError::InvalidData);
        }
        let mut packet: Vec<u8> = Vec::new();
        write_varint(DISCONNECT_PACKET_ID, &mut packet);
        write_string(text, &mut packet);
        let mut framed: Vec<u8> = Vec::new();
        assert(packet@.len() <= MAX_REASON_BYTES + 10) by {
            lemma_varint_bytes_len(utf8(self.reason@).len() as u32);
            lemma_varint_bytes_len(DISCONNECT_PACKET_ID as u32);
        }
        write_varint(packet.len() as i32, &mut framed);
        framed.extend_from_slice(packet.as_slice());
        assert(framed@ =~= disconnect_frame(self.reason@));
        Ok(framed)
    }
}

impl PacketDirection for DisconnectPacket {
    fn direction() -> PacketDirectionType {
        PacketDirectionType::Clientbound
    }
}

/// `b` is exactly one frame: a byte count, then that many bytes.
pub open spec fn is_single_frame(b: Seq<u8>) -> bool {
    match varint_decode(b) {
        Ok((len, prefix)) => prefix + len == b.len(),
        Err(_) => false,
    }
}

/// A Disconnect frame whose reason fits is exactly one frame: its leading
/// byte count covers the rest of it.
pub proof fn lemma_disconnect_frame_is_single(reason: Seq<char>)
    requires
        utf8(reason).len() <= MAX_REASON_BYTES,
    ensures
        is_single_frame(disconnect_frame(reason)),
{
    let body = varint_bytes(DISCONNECT_PACKET_ID as u32) + string_bytes(reason);
    lemma_varint_bytes_len(DISCONNECT_PACKET_ID as u32);
    lemma_varint_bytes_len(utf8(reason).len() as u32);
    assert(body.len() <= MAX_REASON_BYTES + 10);
    lemma_varint_decode_prefix(body.len() as u32, body);
}

/// The Disconnect frame that tells a rejected client why: the error's
/// message as the text of a bold red chat object.
pub fn rejection_frame(error: &Error) -> (r: Result<Vec<u8>, PacketError>)
    ensures
        r matches Ok(v) && v@ == disconnect_frame(chat_object(error_message(*error)))
            && is_single_frame(v@),
{
    let message = error.to_string();
    let chat = chat_json(message.as_str());
    proof {
        lemma_message_len(*error);
        lemma_utf8_len(message@);
        lemma_disconnect_frame_is_single(chat@);
    }
    let packet = DisconnectPacket::new(chat);
    packet.serialize()
}

} // verus!
