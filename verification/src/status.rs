//! Status reports: a line of text with an optional timestamp.

use vstd::prelude::*;

use crate::callsign::{Callsign, CallsignView};
use crate::error::{DecodeError, DecodeErrorView, EncodeError, EncodeErrorView};
use crate::position::{optional_timestamp_bytes, timestamp_view};
use crate::timestamp::{decode_timestamp, DhmTimestamp, Timestamp, TimestampView};
use crate::utils::{append, copy_range};

verus! {

/// A status report.
#[derive(Clone, Debug, PartialEq, Eq)]
pub struct AprsStatus {
    to: Callsign,
    timestamp: Option<Timestamp>,
    comment: Vec<u8>,
}

/// The mathematical value of an `AprsStatus`.
pub struct AprsStatusView {
    pub to: CallsignView,
    pub timestamp: Option<TimestampView>,
    pub comment: Seq<u8>,
}

impl View for AprsStatus {
    type V = AprsStatusView;

    closed spec fn view(&self) -> AprsStatusView {
        AprsStatusView {
            to: self.to@,
            timestamp: timestamp_view(self.timestamp),
            comment: self.comment@,
        }
    }
}

/// The status report that the bytes behind the type byte spell, sent to `to`.
///
/// If the first seven bytes are a timestamp, the comment begins behind them;
/// else all is comment.
pub open spec fn decode_status(b: Seq<u8>, to: CallsignView) -> AprsStatusView {
    if b.len() >= 7 && decode_timestamp(b.subrange(0, 7)).is_some() {
        AprsStatusView {
            to,
            timestamp: decode_timestamp(b.subrange(0, 7)),
            comment: b.subrange(7, b.len() as int),
        }
    } else {
        AprsStatusView { to, timestamp: None, comment: b }
    }
}

/// The information field of a status report: `>`, the timestamp if there is
/// one, the comment.
pub open spec fn status_bytes(s: AprsStatusView) -> Seq<u8> {
    seq![62u8] + optional_timestamp_bytes(s.timestamp) + s.comment
}

/// Whether a status report has no timestamp or one of day, hour and minute.
pub open spec fn is_compliant(s: AprsStatusView) -> bool {
    match s.timestamp {
        Some(TimestampView::DDHHMM(_, _, _)) => true,
        Some(_) => false,
        None => true,
    }
}

/// Whether what follows the type byte of a status report is as `encode`
/// writes it: a timestamp at its head is in its written form.
pub open spec fn canonical_status(b: Seq<u8>) -> bool {
    b.len() >= 7 && decode_timestamp(b.subrange(0, 7)).is_some()
        ==> crate::timestamp::canonical_timestamp(b.subrange(0, 7))
}

/// A status report in its written form, read and written again, is the same
/// bytes behind the type byte.
pub proof fn lemma_status_round_trip(b: Seq<u8>, to: CallsignView)
    requires
        canonical_status(b),
    ensures
        status_bytes(decode_status(b, to)) == seq![62u8] + b,
{
    if b.len() >= 7 && decode_timestamp(b.subrange(0, 7)).is_some() {
        crate::timestamp::lemma_timestamp_round_trip(b.subrange(0, 7));
        assert(status_bytes(decode_status(b, to)) =~= seq![62u8] + b);
    } else {
        assert(status_bytes(decode_status(b, to)) =~= seq![62u8] + b);
    }
}

/// Whether a status report is as `decode` gives it: its timestamp is, and
/// without a timestamp its comment does not begin with one.
pub open spec fn decoded_status(s: AprsStatusView) -> bool {
    match s.timestamp {
        Some(t) => crate::timestamp::decoded_timestamp(t),
        None => !(s.comment.len() >= 7 && decode_timestamp(s.comment.subrange(0, 7)).is_some()),
    }
}

/// What `decode` gives is as `decoded_status` says, and is sent to the
/// callsign that was given.
pub proof fn lemma_decoded_status(b: Seq<u8>, to: CallsignView)
    ensures
        decoded_status(decode_status(b, to)),
        decode_status(b, to).to == to,
{
    if b.len() >= 7 && decode_timestamp(b.subrange(0, 7)).is_some() {
        crate::timestamp::lemma_decoded_timestamp(b.subrange(0, 7));
    }
}

/// A status report as `decode` gives it is written in the written form,
/// and what is written reads back as the report.
pub proof fn lemma_status_decodes(s: AprsStatusView)
    requires
        decoded_status(s),
    ensures
        status_bytes(s).len() > 0,
        status_bytes(s)[0] == 62,
        ({
            let b = status_bytes(s).subrange(1, status_bytes(s).len() as int);
            &&& canonical_status(b)
            &&& decode_status(b, s.to) == s
        }),
{
    let x = status_bytes(s);
    let ts = optional_timestamp_bytes(s.timestamp);
    let b = ts + s.comment;
    assert(x =~= seq![62u8] + b);
    assert(x.subrange(1, x.len() as int) =~= b);
    match s.timestamp {
        Some(t) => {
            crate::timestamp::lemma_timestamp_decodes(t);
            assert(b.subrange(0, 7) =~= ts);
            assert(b.subrange(7, b.len() as int) =~= s.comment);
        },
        None => {
            assert(b =~= s.comment);
        },
    }
}

impl AprsStatus {
    /// A status report with a timestamp of day, hour and minute, or none.
    pub fn new(to: Callsign, timestamp: Option<DhmTimestamp>, comment: Vec<u8>) -> (r: Self)
        ensures
            r@.to == to@,
            r@.comment == comment@,
            r@.timestamp == match timestamp {
                Some(t) => Some(TimestampView::DDHHMM(t@.0, t@.1, t@.2)),
                None => None,
            },
    {
        let timestamp = match timestamp {
            Some(t) => Some(t.to_timestamp()),
            None => None,
        };
        Self { to, timestamp, comment }
    }

    /// A status report with a timestamp of any kind, or none.
    ///
    /// The protocol allows a status report only a timestamp of day, hour and
    /// minute; many senders use others.
    pub fn new_noncompliant(to: Callsign, timestamp: Option<Timestamp>, comment: Vec<u8>) -> (r:
        Self)
        ensures
            r@ == (AprsStatusView {
                to: to@,
                timestamp: timestamp_view(timestamp),
                comment: comment@,
            }),
    {
        Self { to, timestamp, comment }
    }

    /// The callsign that the report was sent to.
    pub fn to(&self) -> (r: &Callsign)
        ensures
            r@ == self@.to,
    {
        &self.to
    }

    /// Whether the report has no timestamp or one of day, hour and minute.
    pub fn is_timestamp_compliant(&self) -> (r: bool)
        ensures
            r == is_compliant(self@),
    {
        match &self.timestamp {
            Some(Timestamp::DDHHMM(_, _, _)) => true,
            Some(_) => false,
            None => true,
        }
    }

    /// The timestamp, if there is one.
    pub fn timestamp(&self) -> (r: Option<&Timestamp>)
        ensures
            match r {
                Some(t) => self@.timestamp == Some(t@),
                None => self@.timestamp.is_none(),
            },
    {
        self.timestamp.as_ref()
    }

    /// The comment.
    pub fn comment(&self) -> (r: &[u8])
        ensures
            r@ == self@.comment,
    {
        self.comment.as_slice()
    }

    /// Reads a status report from what follows the type byte of an
    /// information field. This never fails.
    pub fn decode(b: &[u8], to: Callsign) -> (r: Result<Self, DecodeError>)
        ensures
            r matches Ok(s) && s@ == decode_status(b@, to@),
    {
        if b.len() >= 7 {
            match Timestamp::decode(vstd::slice::slice_subrange(b, 0, 7)) {
                Ok(t) => {
                    return Ok(
                        AprsStatus { to, timestamp: Some(t), comment: copy_range(b, 7, b.len()) },
                    );
                },
                Err(_) => {},
            }
        }
        assert(b@.subrange(0, b@.len() as int) =~= b@);
        Ok(AprsStatus { to, timestamp: None, comment: copy_range(b, 0, b.len()) })
    }

    /// Appends the information field of the report. This never fails.
    pub fn encode(&self, buf: &mut Vec<u8>) -> (r: Result<(), EncodeError>)
        ensures
            r is Ok,
            final(buf)@ == old(buf)@ + status_bytes(self@),
    {
        buf.push(62);
        match &self.timestamp {
            Some(ts) => {
                ts.encode(buf);
            },
            None => {},
        }
        append(buf, self.comment.as_slice());
        assert(buf@ =~= old(buf)@ + status_bytes(self@));
        Ok(())
    }
}

} // verus!
