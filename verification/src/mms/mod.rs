//! Multimedia messages: WAP-push decoding, MMSC transfer, storage.
//!
//! MMS rides on top of a binary SMS (a WAP push carrying an M-Notification.ind) and HTTP to the
//! carrier's MMSC over the data bearer.
use vstd::prelude::*;

use crate::text;

pub mod composition;
pub mod dns;
pub mod http;
pub mod layout;
pub mod manager;
pub mod pdu;
pub mod transfer;
pub mod wsp;

verus! {

pub open spec fn is_push(data: Seq<u8>) -> bool {
    data.len() > 3 && (data[1] == 6 || data[1] == 7)
}

/// WSP Push (0x06) / ConfirmedPush (0x07) as delivered inside a binary SMS.
pub fn is_wap_push(data: &[u8]) -> (r: bool)
    ensures
        r == is_push(data@),
{
    data.len() > 3 && (data[1] == 6 || data[1] == 7)
}

#[derive(Debug)]
pub struct WapPush {
    pub transaction_id: u8,
    pub content_type: String,
    pub body: Vec<u8>,
}

/// Why a push cannot be read.
#[derive(Debug, Clone, Copy, PartialEq, Eq, Structural)]
pub enum PushError {
    NotAPush,
    BadHeadersLength,
    HeadersTooLong,
    NoContentType,
}

/// A push: its transaction, its content type and its body.
pub open spec fn push_of(data: Seq<u8>) -> Result<(u8, Seq<char>, Seq<u8>), PushError> {
    if !is_push(data) {
        Err(PushError::NotAPush)
    } else {
        let (len, n) = wsp::uintvar_read(data.skip(2));
        match len {
            None => Err(PushError::BadHeadersLength),
            Some(len) => if 2 + n + len > data.len() {
                Err(PushError::HeadersTooLong)
            } else {
                match wsp::type_read(data.subrange(2 + n as int, 2 + n + len as int)).0 {
                    None => Err(PushError::NoContentType),
                    Some((t, _)) => Ok((data[0], t, data.skip(2 + n + len as int))),
                }
            },
        }
    }
}

pub fn parse_wap_push(data: &[u8]) -> (r: Result<WapPush, PushError>)
    requires
        wsp::decodable(data@.len()),
    ensures
        match r {
            Ok(p) => push_of(data@) == Ok::<(u8, Seq<char>, Seq<u8>), PushError>(
                (p.transaction_id, p.content_type@, p.body@),
            ),
            Err(e) => push_of(data@) == Err::<(u8, Seq<char>, Seq<u8>), PushError>(e),
        },
{
    if !is_wap_push(data) {
        return Err(PushError::NotAPush);
    }
    let transaction_id = data[0];
    let mut r = wsp::Reader { data, pos: 2 };
    proof {
        wsp::lemma_uintvar_bound(data@.skip(2), 8, 0);
    }
    let len = match r.uintvar() {
        Some(v) => v,
        None => {
            return Err(PushError::BadHeadersLength);
        },
    };
    let start = r.pos;
    if len > (data.len() - start) as u64 {
        return Err(PushError::HeadersTooLong);
    }
    let end = start + len as usize;
    let mut hr = wsp::Reader::new(vstd::slice::slice_subrange(data, start, end));
    match hr.content_type() {
        None => Err(PushError::NoContentType),
        Some((content_type, _)) => {
            let body = vstd::slice::slice_subrange(data, end, data.len());
            assert(body@ =~= data@.skip(end as int));
            Ok(WapPush { transaction_id, content_type, body: vstd::slice::slice_to_vec(body) })
        },
    }
}

/// The body of a push is no longer than the push.
pub proof fn lemma_push_body(data: Seq<u8>)
    ensures
        push_of(data) matches Ok((_, _, body)) ==> body.len() <= data.len(),
{
}

pub open spec fn is_mms_type(t: Seq<char>) -> bool {
    text::eq_nocase(t, "application/vnd.wap.mms-message"@) || text::find_text(t, "mms-message"@)
        >= 0
}

/// True when the push carries an MMS PDU.
pub fn is_mms_push(push: &WapPush) -> (r: bool)
    ensures
        r == is_mms_type(push.content_type@),
{
    let c = text::chars_of(push.content_type.as_str());
    text::is_nocase(c.as_slice(), "application/vnd.wap.mms-message") || text::contains_text(
        c.as_slice(),
        "mms-message",
    )
}

} // verus!
