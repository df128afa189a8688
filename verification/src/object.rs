//! Object reports: the position of something that a station reports for.

use vstd::prelude::*;

use crate::callsign::{Callsign, CallsignView};
use crate::error::{DecodeError, DecodeErrorView, EncodeError, EncodeErrorView};
use crate::extensions::{decode_extension, extension_bytes, Extension};
use crate::position::{
    decode_position, position_bytes, position_len, uncompressed_position, AprsCst, Position,
};
use crate::timestamp::{decode_timestamp, timestamp_bytes, Timestamp, TimestampView};
use crate::utils::{append, append_fill, copy_all, copy_range, trim_end, trim_spaces_end};

verus! {

/// The extension at the head of what follows a position, and the comment.
///
/// Behind an uncompressed position, seven bytes that spell an extension are
/// one; all else is comment.
pub open spec fn decode_tail(rest: Seq<u8>, cst: AprsCst) -> (Option<Extension>, Seq<u8>) {
    if cst == AprsCst::Uncompressed && rest.len() >= 7 && decode_extension(rest.subrange(0, 7)) is Ok {
        (Some(decode_extension(rest.subrange(0, 7))->Ok_0), rest.subrange(7, rest.len() as int))
    } else {
        (None, rest)
    }
}

/// The position, extension and comment that `b` spells.
pub open spec fn decode_body(b: Seq<u8>) -> Result<
    (Position, Option<Extension>, Seq<u8>),
    DecodeErrorView,
> {
    match decode_position(b) {
        Err(e) => Err(e),
        Ok(position) => {
            let tail = decode_tail(
                b.subrange(position_len(position.cst), b.len() as int),
                position.cst,
            );
            Ok((position, tail.0, tail.1))
        },
    }
}

/// The bytes of a position, an extension and a comment.
///
/// With an extension the position is written uncompressed, whatever form it
/// names.
pub open spec fn body_bytes(position: Position, extension: Option<Extension>, comment: Seq<u8>)
    -> Result<Seq<u8>, EncodeErrorView> {
    match extension {
        Some(e) => match extension_bytes(e) {
            Some(x) => Ok(uncompressed_position(position) + x + comment),
            None => Err(EncodeErrorView::InvalidExtension(e)),
        },
        None => match position_bytes(position) {
            Ok(p) => Ok(p + comment),
            Err(e) => Err(e),
        },
    }
}

/// Whether `b` is position, extension and comment as they are written: the
/// position is in its written form, and so is what is read as an extension
/// behind it.
pub open spec fn canonical_body(b: Seq<u8>) -> bool {
    &&& crate::position::canonical_position(b)
    &&& decode_body(b) matches Ok((position, Some(_), _))
        ==> crate::extensions::canonical_extension(
        b.subrange(position_len(position.cst), position_len(position.cst) + 7),
    )
}

/// Position, extension and comment in their written form, read and written
/// again, are the same bytes.
#[verifier::rlimit(30)]
pub proof fn lemma_body_round_trip(b: Seq<u8>)
    requires
        canonical_body(b),
        decode_body(b) is Ok,
    ensures
        ({
            let (position, extension, comment) = decode_body(b)->Ok_0;
            body_bytes(position, extension, comment) == Ok::<Seq<u8>, EncodeErrorView>(b)
        }),
{
    let (position, extension, comment) = decode_body(b)->Ok_0;
    assert(position == decode_position(b)->Ok_0);
    let len = position_len(position.cst);
    crate::position::lemma_position_and_comment(b);
    let rest = b.subrange(len, b.len() as int);
    match extension {
        Some(e) => {
            let x = rest.subrange(0, 7);
            assert(x =~= b.subrange(len, len + 7));
            crate::extensions::lemma_extension_round_trip(x);
            assert(x + rest.subrange(7, rest.len() as int) =~= rest);
            assert(position_bytes(position)->Ok_0 == uncompressed_position(position));
            assert(body_bytes(position, extension, comment)->Ok_0 =~= uncompressed_position(
                position,
            ) + (x + comment));
        },
        None => {},
    }
}

/// Whether position, extension and comment are as they are read: the
/// position is as `decode` gives it; an extension stands behind an
/// uncompressed position only, and can be written; and without an extension
/// the comment does not begin with one.
pub open spec fn decoded_body(position: Position, extension: Option<Extension>, comment: Seq<u8>)
    -> bool {
    &&& crate::position::decoded_position(position)
    &&& match extension {
        Some(e) => position.cst == AprsCst::Uncompressed && extension_bytes(e).is_some(),
        None => decode_tail(comment, position.cst).0.is_none(),
    }
}

/// What is read as position, extension and comment is as `decoded_body`
/// says.
#[verifier::rlimit(30)]
pub proof fn lemma_decoded_body(b: Seq<u8>)
    requires
        decode_body(b) is Ok,
    ensures
        ({
            let (position, extension, comment) = decode_body(b)->Ok_0;
            decoded_body(position, extension, comment)
        }),
{
    let (position, extension, comment) = decode_body(b)->Ok_0;
    crate::position::lemma_decoded_position(b);
    let rest = b.subrange(position_len(position.cst), b.len() as int);
    match extension {
        Some(e) => {
            crate::extensions::lemma_extension_encodable(rest.subrange(0, 7));
        },
        None => {},
    }
}

/// The law of `lemma_body_decodes` where there is an extension.
#[verifier::rlimit(30)]
proof fn lemma_body_decodes_with(position: Position, e: Extension, comment: Seq<u8>)
    requires
        decoded_body(position, Some(e), comment),
        crate::position::ascii_symbols(position),
    ensures
        body_bytes(position, Some(e), comment) is Ok,
        canonical_body(body_bytes(position, Some(e), comment)->Ok_0),
        decode_body(body_bytes(position, Some(e), comment)->Ok_0) == Ok::<
            (Position, Option<Extension>, Seq<u8>),
            DecodeErrorView,
        >((position, Some(e), comment)),
{
    let x = extension_bytes(e).unwrap();
    crate::extensions::lemma_extension_decodes(e);
    crate::extensions::lemma_extension_bytes_canonical(e);
    let rest = x + comment;
    crate::position::lemma_position_decodes(position, rest);
    let head = uncompressed_position(position);
    assert(position_bytes(position)->Ok_0 == head);
    let b = head + rest;
    assert(body_bytes(position, Some(e), comment)->Ok_0 =~= b);
    lemma_tail_layout(head, x, comment);
    assert(decode_position(b) == Ok::<Position, DecodeErrorView>(position));
    assert(decode_tail(rest, position.cst) == (Some(e), comment));
}

/// Where extension and comment stand behind a position.
proof fn lemma_tail_layout(head: Seq<u8>, x: Seq<u8>, comment: Seq<u8>)
    requires
        x.len() == 7,
    ensures
        ({
            let b = head + (x + comment);
            let n = head.len() as int;
            &&& b.subrange(n, b.len() as int) == x + comment
            &&& b.subrange(n, n + 7) == x
            &&& (x + comment).subrange(0, 7) == x
            &&& (x + comment).subrange(7, (x + comment).len() as int) == comment
        }),
{
    let b = head + (x + comment);
    let n = head.len() as int;
    assert(b.subrange(n, b.len() as int) =~= x + comment);
    assert(b.subrange(n, n + 7) =~= x);
    assert((x + comment).subrange(0, 7) =~= x);
    assert((x + comment).subrange(7, (x + comment).len() as int) =~= comment);
}

/// The law of `lemma_body_decodes` where there is no extension.
#[verifier::rlimit(30)]
proof fn lemma_body_decodes_without(position: Position, comment: Seq<u8>)
    requires
        decoded_body(position, None, comment),
        crate::position::ascii_symbols(position),
        position_bytes(position) is Ok,
    ensures
        body_bytes(position, None, comment) is Ok,
        canonical_body(body_bytes(position, None, comment)->Ok_0),
        decode_body(body_bytes(position, None, comment)->Ok_0) == Ok::<
            (Position, Option<Extension>, Seq<u8>),
            DecodeErrorView,
        >((position, None, comment)),
{
    crate::position::lemma_position_decodes(position, comment);
    let head = position_bytes(position)->Ok_0;
    let b = head + comment;
    assert(b.subrange(head.len() as int, b.len() as int) =~= comment);
    assert(decode_position(b) == Ok::<Position, DecodeErrorView>(position));
}

/// Position, extension and comment as they are read, with ASCII symbols,
/// are written in the written form, and what is written reads back as
/// them.
pub proof fn lemma_body_decodes(position: Position, extension: Option<Extension>, comment: Seq<u8>)
    requires
        decoded_body(position, extension, comment),
        crate::position::ascii_symbols(position),
        body_bytes(position, extension, comment) is Ok,
    ensures
        canonical_body(body_bytes(position, extension, comment)->Ok_0),
        decode_body(body_bytes(position, extension, comment)->Ok_0) == Ok::<
            (Position, Option<Extension>, Seq<u8>),
            DecodeErrorView,
        >((position, extension, comment)),
{
    match extension {
        Some(e) => {
            lemma_body_decodes_with(position, e, comment);
        },
        None => {
            lemma_body_decodes_without(position, comment);
        },
    }
}

/// Reads a position, an extension if one follows, and the comment.
pub fn read_body(b: &[u8]) -> (r: Result<(Position, Option<Extension>, Vec<u8>), DecodeError>)
    ensures
        match r {
            Ok((position, extension, comment)) => decode_body(b@) == Ok::<
                (Position, Option<Extension>, Seq<u8>),
                DecodeErrorView,
            >((position, extension, comment@)),
            Err(e) => decode_body(b@) == Err::<
                (Position, Option<Extension>, Seq<u8>),
                DecodeErrorView,
            >(e@),
        },
{
    let position = match Position::decode(b) {
        Ok(p) => p,
        Err(e) => {
            return Err(e);
        },
    };
    let rest = vstd::slice::slice_subrange(b, position.encoded_len(), b.len());
    match position.cst {
        AprsCst::Uncompressed => {
            if rest.len() >= 7 {
                match Extension::decode(vstd::slice::slice_subrange(rest, 0, 7)) {
                    Ok(e) => {
                        return Ok((position, Some(e), copy_range(rest, 7, rest.len())));
                    },
                    Err(_) => {},
                }
            }
        },
        _ => {},
    }
    Ok((position, None, copy_all(rest)))
}

/// Appends a position, an extension and a comment.
///
/// Fails, and appends nothing, if the extension or the position has no
/// bytes.
pub fn write_body(
    position: &Position,
    extension: &Option<Extension>,
    comment: &Vec<u8>,
    buf: &mut Vec<u8>,
) -> (r: Result<(), EncodeError>)
    ensures
        match r {
            Ok(()) => body_bytes(*position, *extension, comment@) matches Ok(b) && final(buf)@
                == old(buf)@ + b,
            Err(e) => body_bytes(*position, *extension, comment@) == Err::<Seq<u8>, EncodeErrorView>(
                e@,
            ) && final(buf)@ == old(buf)@,
        },
{
    let start: usize = buf.len();
    match extension {
        Some(ext) => {
            position.encode_uncompressed(buf);
            match ext.encode(buf) {
                Ok(()) => {},
                Err(e) => {
                    buf.truncate(start);
                    assert(buf@ =~= old(buf)@);
                    return Err(e);
                },
            }
        },
        None => {
            match position.encode(buf) {
                Ok(()) => {},
                Err(e) => {
                    return Err(e);
                },
            }
        },
    }
    append(buf, comment.as_slice());
    assert(buf@ =~= old(buf)@ + body_bytes(*position, *extension, comment@)->Ok_0);
    Ok(())
}

/// An object report.
#[derive(Clone, Debug, PartialEq, Eq)]
pub struct AprsObject {
    pub to: Callsign,
    pub name: Vec<u8>,
    pub live: bool,
    pub timestamp: Timestamp,
    pub position: Position,
    pub extension: Option<Extension>,
    pub comment: Vec<u8>,
}

/// The mathematical value of an `AprsObject`.
pub struct AprsObjectView {
    pub to: CallsignView,
    pub name: Seq<u8>,
    pub live: bool,
    pub timestamp: TimestampView,
    pub position: Position,
    pub extension: Option<Extension>,
    pub comment: Seq<u8>,
}

impl View for AprsObject {
    type V = AprsObjectView;

    open spec fn view(&self) -> AprsObjectView {
        AprsObjectView {
            to: self.to@,
            name: self.name@,
            live: self.live,
            timestamp: self.timestamp@,
            position: self.position,
            extension: self.extension,
            comment: self.comment@,
        }
    }
}

/// The object report that the bytes behind the type byte spell, sent to
/// `to`.
///
/// Nine bytes of name, of which the blanks at the end do not count; `*` for
/// a live object or a blank for a killed one; a timestamp; then position,
/// extension and comment.
pub open spec fn decode_object(b: Seq<u8>, to: CallsignView) -> Result<
    AprsObjectView,
    DecodeErrorView,
> {
    if b.len() < 10 {
        Err(DecodeErrorView::InvalidObjectName(b))
    } else if b[9] != 42 && b[9] != 32 {
        Err(DecodeErrorView::InvalidObjectLiveness(b[9] as char))
    } else if b.len() < 17 {
        Err(DecodeErrorView::InvalidTimestamp(b))
    } else {
        match decode_timestamp(b.subrange(10, 17)) {
            None => Err(DecodeErrorView::InvalidTimestamp(b.subrange(10, 17))),
            Some(timestamp) => match decode_body(b.subrange(17, b.len() as int)) {
                Err(e) => Err(e),
                Ok((position, extension, comment)) => Ok(
                    AprsObjectView {
                        to,
                        name: trim_end(b.subrange(0, 9)),
                        live: b[9] == 42,
                        timestamp,
                        position,
                        extension,
                        comment,
                    },
                ),
            },
        }
    }
}

/// The blanks that fill a name up to nine bytes.
pub open spec fn name_padding(name: Seq<u8>) -> Seq<u8> {
    if name.len() < 9 {
        Seq::new((9 - name.len()) as nat, |i: int| 32u8)
    } else {
        Seq::<u8>::empty()
    }
}

/// The information field of an object report: `;`, the name filled up with
/// blanks to nine bytes, `*` or a blank, the timestamp, then position,
/// extension and comment.
pub open spec fn object_bytes(o: AprsObjectView) -> Result<Seq<u8>, EncodeErrorView> {
    match body_bytes(o.position, o.extension, o.comment) {
        Err(e) => Err(e),
        Ok(body) => Ok(
            seq![59u8] + o.name + name_padding(o.name) + seq![
                if o.live {
                    42u8
                } else {
                    32u8
                },
            ] + timestamp_bytes(o.timestamp) + body,
        ),
    }
}

/// Whether what follows the type byte of an object report is as `encode`
/// writes it: timestamp, position and extension are in their written form.
pub open spec fn canonical_object(b: Seq<u8>) -> bool {
    &&& b.len() >= 17
    &&& crate::timestamp::canonical_timestamp(b.subrange(10, 17))
    &&& canonical_body(b.subrange(17, b.len() as int))
}

/// The bytes of an object report are its name, the byte that says whether
/// it lives, its timestamp, and what follows.
proof fn lemma_object_parts(b: Seq<u8>)
    requires
        b.len() >= 17,
    ensures
        b.subrange(0, 9) + seq![b[9]] + b.subrange(10, 17) + b.subrange(17, b.len() as int) == b,
{
    assert(b.subrange(0, 9) + seq![b[9]] + b.subrange(10, 17) + b.subrange(17, b.len() as int)
        =~= b);
}

/// An object report in its written form, read and written again, is the
/// same bytes behind the type byte.
#[verifier::rlimit(30)]
pub proof fn lemma_object_round_trip(b: Seq<u8>, to: CallsignView)
    requires
        canonical_object(b),
        decode_object(b, to) is Ok,
    ensures
        object_bytes(decode_object(b, to)->Ok_0) == Ok::<Seq<u8>, EncodeErrorView>(seq![59u8] + b),
{
    let o = decode_object(b, to)->Ok_0;
    let body = b.subrange(17, b.len() as int);
    assert(decode_body(body) is Ok);
    lemma_body_round_trip(body);
    crate::timestamp::lemma_timestamp_round_trip(b.subrange(10, 17));
    let name = b.subrange(0, 9);
    crate::utils::lemma_trim_and_pad(name);
    assert(o.name == trim_end(name));
    assert(name_padding(o.name) == Seq::new((9 - o.name.len()) as nat, |i: int| 32u8)) by {
        assert(name_padding(o.name) =~= Seq::new((9 - o.name.len()) as nat, |i: int| 32u8));
    }
    assert(o.name + name_padding(o.name) == name);
    assert(timestamp_bytes(o.timestamp) == b.subrange(10, 17));
    let parts = decode_body(body)->Ok_0;
    assert(o.position == parts.0 && o.extension == parts.1 && o.comment == parts.2);
    assert(body_bytes(o.position, o.extension, o.comment) == Ok::<Seq<u8>, EncodeErrorView>(body));
    let live: u8 = if o.live {
        42
    } else {
        32
    };
    assert(live == b[9]);
    lemma_object_parts(b);
    assert(object_bytes(o)->Ok_0 == seq![59u8] + o.name + name_padding(o.name) + seq![live]
        + timestamp_bytes(o.timestamp) + body);
    assert(seq![59u8] + o.name + name_padding(o.name) + seq![live] + b.subrange(10, 17) + body
        =~= seq![59u8] + (name + seq![live] + b.subrange(10, 17) + body));
}

/// Whether an object report is as `decode` gives it: its name has at most
/// nine bytes and no blank at its end; timestamp, position and extension
/// are as they are read.
pub open spec fn decoded_object(o: AprsObjectView) -> bool {
    &&& o.name.len() <= 9
    &&& crate::utils::trailing_spaces(o.name) == 0
    &&& crate::timestamp::decoded_timestamp(o.timestamp)
    &&& decoded_body(o.position, o.extension, o.comment)
}

/// What `decode` gives is as `decoded_object` says, and is sent to the
/// callsign that was given.
pub proof fn lemma_decoded_object(b: Seq<u8>, to: CallsignView)
    requires
        decode_object(b, to) is Ok,
    ensures
        decoded_object(decode_object(b, to)->Ok_0),
        decode_object(b, to)->Ok_0.to == to,
{
    let name = b.subrange(0, 9);
    crate::utils::lemma_trailing_spaces(name);
    let trimmed = trim_end(name);
    if trimmed.len() > 0 {
        assert(trimmed.last() == name[name.len() - crate::utils::trailing_spaces(name) - 1]);
    }
    crate::timestamp::lemma_decoded_timestamp(b.subrange(10, 17));
    lemma_decoded_body(b.subrange(17, b.len() as int));
}

/// An object report as `decode` gives it, with ASCII symbols, is written in
/// the written form, and what is written reads back as the report.
#[verifier::rlimit(30)]
pub proof fn lemma_object_decodes(o: AprsObjectView)
    requires
        decoded_object(o),
        crate::position::ascii_symbols(o.position),
        object_bytes(o) is Ok,
    ensures
        object_bytes(o)->Ok_0.len() > 0,
        object_bytes(o)->Ok_0[0] == 59,
        ({
            let b = object_bytes(o)->Ok_0.subrange(1, object_bytes(o)->Ok_0.len() as int);
            &&& canonical_object(b)
            &&& decode_object(b, o.to) == Ok::<AprsObjectView, DecodeErrorView>(o)
        }),
{
    let x = object_bytes(o)->Ok_0;
    let body = body_bytes(o.position, o.extension, o.comment)->Ok_0;
    let nine = o.name + name_padding(o.name);
    let live = seq![
        if o.live {
            42u8
        } else {
            32u8
        },
    ];
    let ts = timestamp_bytes(o.timestamp);
    crate::timestamp::lemma_timestamp_decodes(o.timestamp);
    lemma_body_decodes(o.position, o.extension, o.comment);
    let b = nine + live + ts + body;
    assert(x =~= seq![59u8] + b);
    assert(x.subrange(1, x.len() as int) =~= b);
    assert(nine.len() == 9);
    assert(b.subrange(0, 9) =~= nine);
    assert(b[9] == live[0]);
    assert(b.subrange(10, 17) =~= ts);
    assert(b.subrange(17, b.len() as int) =~= body);
    if o.name.len() > 0 {
        assert(o.name.last() != 32);
        assert(nine[o.name.len() - 1] == o.name.last());
    }
    crate::utils::lemma_trim_end(nine, o.name.len() as int);
    assert(nine.subrange(0, o.name.len() as int) =~= o.name);
}

impl AprsObject {
    /// Reads an object report from what follows the type byte of an
    /// information field.
    pub fn decode(b: &[u8], to: Callsign) -> (r: Result<Self, DecodeError>)
        ensures
            match r {
                Ok(o) => decode_object(b@, to@) == Ok::<AprsObjectView, DecodeErrorView>(o@),
                Err(e) => decode_object(b@, to@) == Err::<AprsObjectView, DecodeErrorView>(e@),
            },
    {
        if b.len() < 10 {
            return Err(DecodeError::InvalidObjectName(copy_all(b)));
        }
        let mut name = copy_range(b, 0, 9);
        trim_spaces_end(&mut name);
        let live = if b[9] == 42 {
            true
        } else if b[9] == 32 {
            false
        } else {
            return Err(DecodeError::InvalidObjectLiveness(b[9] as char));
        };
        if b.len() < 17 {
            return Err(DecodeError::InvalidTimestamp(copy_all(b)));
        }
        let timestamp = match Timestamp::decode(vstd::slice::slice_subrange(b, 10, 17)) {
            Ok(t) => t,
            Err(e) => {
                return Err(e);
            },
        };
        let (position, extension, comment) = match read_body(
            vstd::slice::slice_subrange(b, 17, b.len()),
        ) {
            Ok(x) => x,
            Err(e) => {
                return Err(e);
            },
        };
        Ok(Self { to, name, live, timestamp, position, extension, comment })
    }

    /// Appends the information field of the report.
    ///
    /// Fails, and appends nothing, if the extension or the position has no
    /// bytes.
    pub fn encode(&self, buf: &mut Vec<u8>) -> (r: Result<(), EncodeError>)
        ensures
            match r {
                Ok(()) => object_bytes(self@) matches Ok(b) && final(buf)@ == old(buf)@ + b,
                Err(e) => object_bytes(self@) == Err::<Seq<u8>, EncodeErrorView>(e@) && final(buf)@
                    == old(buf)@,
            },
    {
        let start: usize = buf.len();
        buf.push(59);
        append(buf, self.name.as_slice());
        if self.name.len() < 9 {
            append_fill(buf, 32, 9 - self.name.len());
        }
        buf.push(
            if self.live {
                42
            } else {
                32
            },
        );
        self.timestamp.encode(buf);
        match write_body(&self.position, &self.extension, &self.comment, buf) {
            Ok(()) => {},
            Err(e) => {
                buf.truncate(start);
                assert(buf@ =~= old(buf)@);
                return Err(e);
            },
        }
        assert(buf@ =~= old(buf)@ + object_bytes(self@)->Ok_0);
        Ok(())
    }
}

} // verus!
