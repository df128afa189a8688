//! Messages from one station to another.

use vstd::prelude::*;

use crate::callsign::{Callsign, CallsignView};
use crate::error::{DecodeError, DecodeErrorView, EncodeError, EncodeErrorView};
use crate::utils::{
    append, append_fill, copy_all, copy_range, find_byte, first_index, trim_end, trim_spaces_end,
};

verus! {

/// A message for an addressee.
#[derive(Clone, Debug, PartialEq, Eq)]
pub struct AprsMessage {
    pub to: Callsign,
    /// The byte that began the information field: a colon.
    pub data_type_identifier: u8,
    pub addressee: Vec<u8>,
    pub text: Vec<u8>,
    pub id: Option<Vec<u8>>,
}

/// The mathematical value of an `AprsMessage`.
pub struct AprsMessageView {
    pub to: CallsignView,
    pub data_type_identifier: u8,
    pub addressee: Seq<u8>,
    pub text: Seq<u8>,
    pub id: Option<Seq<u8>>,
}

/// The value of bytes that may be absent.
pub open spec fn optional_bytes(b: Option<Vec<u8>>) -> Option<Seq<u8>> {
    match b {
        Some(x) => Some(x@),
        None => None,
    }
}

impl View for AprsMessage {
    type V = AprsMessageView;

    open spec fn view(&self) -> AprsMessageView {
        AprsMessageView {
            to: self.to@,
            data_type_identifier: self.data_type_identifier,
            addressee: self.addressee@,
            text: self.text@,
            id: optional_bytes(self.id),
        }
    }
}

/// What follows the first `sep` in `b`; nothing if `b` holds none.
pub open spec fn after_first(b: Seq<u8>, sep: u8) -> Seq<u8> {
    if first_index(b, sep) < b.len() {
        b.subrange(first_index(b, sep) + 1, b.len() as int)
    } else {
        Seq::<u8>::empty()
    }
}

/// The message that the bytes behind the type byte spell, sent to `to`.
///
/// Up to the first colon stands the addressee, of nine bytes, of which the
/// blanks at the end do not count. Behind it stands the text, up to the first
/// `{`, and behind that the message id.
pub open spec fn decode_message(b: Seq<u8>, to: CallsignView) -> Result<
    AprsMessageView,
    DecodeErrorView,
> {
    let addressee = b.subrange(0, first_index(b, 58));
    if addressee.len() != 9 {
        Err(DecodeErrorView::InvalidMessageDestination(addressee))
    } else {
        let rest = after_first(b, 58);
        Ok(
            AprsMessageView {
                to,
                data_type_identifier: 58,
                addressee: trim_end(addressee),
                text: rest.subrange(0, first_index(rest, 123)),
                id: if first_index(rest, 123) < rest.len() {
                    Some(after_first(rest, 123))
                } else {
                    None
                },
            },
        )
    }
}

/// The information field of a message: colon, the addressee filled up with
/// blanks to nine bytes, colon, text, and `{` with the id if there is one.
/// An addressee of more than nine bytes has none.
pub open spec fn message_bytes(m: AprsMessageView) -> Result<Seq<u8>, EncodeErrorView> {
    if m.addressee.len() > 9 {
        Err(EncodeErrorView::InvalidMessageAddressee(m.addressee))
    } else {
        Ok(
            seq![58u8] + m.addressee + Seq::new((9 - m.addressee.len()) as nat, |i: int| 32u8)
                + seq![58u8] + m.text + match m.id {
                Some(id) => seq![123u8] + id,
                None => Seq::<u8>::empty(),
            },
        )
    }
}

/// A message with a colon behind its addressee, read and written again, is
/// the same bytes behind the type byte.
#[verifier::rlimit(30)]
pub proof fn lemma_message_round_trip(b: Seq<u8>, to: CallsignView)
    requires
        first_index(b, 58) < b.len(),
        decode_message(b, to) is Ok,
    ensures
        message_bytes(decode_message(b, to)->Ok_0) == Ok::<Seq<u8>, EncodeErrorView>(seq![58u8] + b),
{
    let m = decode_message(b, to)->Ok_0;
    let i = first_index(b, 58);
    crate::utils::lemma_first_index_bounds(b, 58);
    let addressee = b.subrange(0, i);
    crate::utils::lemma_trim_and_pad(addressee);
    let rest = after_first(b, 58);
    let j = first_index(rest, 123);
    crate::utils::lemma_first_index_bounds(rest, 123);
    let tail = match m.id {
        Some(id) => seq![123u8] + id,
        None => Seq::<u8>::empty(),
    };
    assert(m.text + tail =~= rest);
    assert(m.addressee + Seq::new((9 - m.addressee.len()) as nat, |k: int| 32u8) == addressee);
    assert(addressee + seq![58u8] + rest =~= b);
    assert(message_bytes(m)->Ok_0 =~= seq![58u8] + (addressee + seq![58u8] + (m.text + tail)));
}

/// Whether a message is as `decode` gives it: its addressee has at most
/// nine bytes, no colon, and no blank at its end; and its text has no `{`.
pub open spec fn decoded_message(m: AprsMessageView) -> bool {
    &&& m.data_type_identifier == 58
    &&& m.addressee.len() <= 9
    &&& first_index(m.addressee, 58) == m.addressee.len()
    &&& crate::utils::trailing_spaces(m.addressee) == 0
    &&& first_index(m.text, 123) == m.text.len()
}

/// What `decode` gives is as `decoded_message` says, and is sent to the
/// callsign that was given.
#[verifier::rlimit(30)]
pub proof fn lemma_decoded_message(b: Seq<u8>, to: CallsignView)
    requires
        decode_message(b, to) is Ok,
    ensures
        decoded_message(decode_message(b, to)->Ok_0),
        decode_message(b, to)->Ok_0.to == to,
{
    let m = decode_message(b, to)->Ok_0;
    let i = first_index(b, 58);
    crate::utils::lemma_first_index_bounds(b, 58);
    let addressee = b.subrange(0, i);
    crate::utils::lemma_trailing_spaces(addressee);
    let trimmed = trim_end(addressee);
    assert forall|j: int| 0 <= j < trimmed.len() implies trimmed[j] != 58 by {
        assert(trimmed[j] == b[j]);
    }
    crate::utils::lemma_first_index(trimmed, 58, trimmed.len() as int);
    if trimmed.len() > 0 {
        assert(trimmed.last() == addressee[addressee.len() - crate::utils::trailing_spaces(
            addressee,
        ) - 1]);
    }
    let rest = after_first(b, 58);
    let j = first_index(rest, 123);
    crate::utils::lemma_first_index_bounds(rest, 123);
    let text = rest.subrange(0, j);
    assert forall|k: int| 0 <= k < text.len() implies text[k] != 123 by {
        assert(text[k] == rest[k]);
    }
    crate::utils::lemma_first_index(text, 123, text.len() as int);
}

/// A message as `decode` gives it is written with a colon behind its
/// addressee, and what is written reads back as the message.
#[verifier::rlimit(30)]
pub proof fn lemma_message_decodes(m: AprsMessageView)
    requires
        decoded_message(m),
    ensures
        message_bytes(m) is Ok,
        message_bytes(m)->Ok_0.len() > 0,
        message_bytes(m)->Ok_0[0] == 58,
        ({
            let b = message_bytes(m)->Ok_0.subrange(1, message_bytes(m)->Ok_0.len() as int);
            &&& first_index(b, 58) < b.len()
            &&& decode_message(b, m.to) == Ok::<AprsMessageView, DecodeErrorView>(m)
        }),
{
    let x = message_bytes(m)->Ok_0;
    let pad = Seq::new((9 - m.addressee.len()) as nat, |i: int| 32u8);
    let tail = match m.id {
        Some(id) => seq![123u8] + id,
        None => Seq::<u8>::empty(),
    };
    let b = m.addressee + pad + seq![58u8] + m.text + tail;
    assert(x =~= seq![58u8] + b);
    assert(x.subrange(1, x.len() as int) =~= b);
    let nine = m.addressee + pad;
    crate::utils::lemma_first_index_bounds(m.addressee, 58);
    assert forall|j: int| 0 <= j < 9 implies b[j] != 58 by {
        if j < m.addressee.len() {
            assert(b[j] == m.addressee[j]);
        } else {
            assert(b[j] == pad[j - m.addressee.len()]);
        }
    }
    assert(b[9] == 58);
    crate::utils::lemma_first_index(b, 58, 9);
    assert(b.subrange(0, 9) =~= nine);
    if m.addressee.len() > 0 {
        assert(m.addressee.last() != 32);
        assert(nine[m.addressee.len() - 1] == m.addressee.last());
    }
    crate::utils::lemma_trim_end(nine, m.addressee.len() as int);
    assert(nine.subrange(0, m.addressee.len() as int) =~= m.addressee);
    let rest = m.text + tail;
    assert(after_first(b, 58) =~= rest);
    crate::utils::lemma_first_index_bounds(m.text, 123);
    assert forall|j: int| 0 <= j < m.text.len() implies rest[j] != 123 by {
        assert(rest[j] == m.text[j]);
    }
    match m.id {
        Some(id) => {
            assert(rest[m.text.len() as int] == 123);
            crate::utils::lemma_first_index(rest, 123, m.text.len() as int);
            assert(after_first(rest, 123) =~= id);
        },
        None => {
            assert(rest =~= m.text);
        },
    }
    assert(rest.subrange(0, m.text.len() as int) =~= m.text);
}

impl AprsMessage {
    /// Reads a message from what follows the type byte of an information
    /// field.
    pub fn decode(b: &[u8], to: Callsign) -> (r: Result<Self, DecodeError>)
        ensures
            match r {
                Ok(m) => decode_message(b@, to@) == Ok::<AprsMessageView, DecodeErrorView>(m@),
                Err(e) => decode_message(b@, to@) == Err::<AprsMessageView, DecodeErrorView>(e@),
            },
    {
        let i = find_byte(b, 58);
        let mut addressee = copy_range(b, 0, i);
        if addressee.len() != 9 {
            return Err(DecodeError::InvalidMessageDestination(addressee));
        }
        trim_spaces_end(&mut addressee);
        let rest = if i < b.len() {
            vstd::slice::slice_subrange(b, i + 1, b.len())
        } else {
            vstd::slice::slice_subrange(b, 0, 0)
        };
        assert(rest@ =~= after_first(b@, 58));
        let j = find_byte(rest, 123);
        let text = copy_range(rest, 0, j);
        let id = if j < rest.len() {
            Some(copy_range(rest, j + 1, rest.len()))
        } else {
            None
        };
        Ok(Self { to, data_type_identifier: 58, addressee, text, id })
    }

    /// Appends the information field of the message.
    ///
    /// Fails, and appends nothing, if the addressee has more than nine bytes.
    pub fn encode(&self, buf: &mut Vec<u8>) -> (r: Result<(), EncodeError>)
        ensures
            match r {
                Ok(()) => message_bytes(self@) matches Ok(b) && final(buf)@ == old(buf)@ + b,
                Err(e) => message_bytes(self@) == Err::<Seq<u8>, EncodeErrorView>(e@) && final(buf)@
                    == old(buf)@,
            },
    {
        if self.addressee.len() > 9 {
            return Err(EncodeError::InvalidMessageAddressee(copy_all(self.addressee.as_slice())));
        }
        buf.push(58);
        append(buf, self.addressee.as_slice());
        append_fill(buf, 32, 9 - self.addressee.len());
        buf.push(58);
        append(buf, self.text.as_slice());
        match &self.id {
            Some(id) => {
                buf.push(123);
                append(buf, id.as_slice());
            },
            None => {},
        }
        assert(buf@ =~= old(buf)@ + message_bytes(self@)->Ok_0);
        Ok(())
    }
}

} // verus!
