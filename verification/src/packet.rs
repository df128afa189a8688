//! Whole packets, as text and as AX.25 frames.

use vstd::prelude::*;

use crate::callsign::{
    ax25_bytes, ax25_encodable, decode_ax25_spec, decode_textual_spec, display_bytes, Callsign,
    CallsignField, CallsignView,
};
use crate::error::{DecodeError, DecodeErrorView, EncodeError, EncodeErrorView};
use crate::item::{decode_item, item_bytes, AprsItem, AprsItemView};
use crate::message::{decode_message, message_bytes, AprsMessage, AprsMessageView};
use crate::mic_e::{decode_mic_e, mic_e_bytes, mic_e_destination, AprsMicE, AprsMicEView};
use crate::object::{decode_object, object_bytes, AprsObject, AprsObjectView};
use crate::position::{aprs_position_bytes, decode_aprs_position, AprsPosition, AprsPositionView};
use crate::status::{decode_status, status_bytes, AprsStatus, AprsStatusView};
use crate::utils::{append, copy_all, find_byte, first_index};
use crate::via::{decode_via, via_bytes, Via, ViaView};

verus! {

/// What a packet carries.
#[derive(PartialEq, Eq, Debug, Clone)]
pub enum AprsData {
    Position(AprsPosition),
    Message(AprsMessage),
    Status(AprsStatus),
    Object(AprsObject),
    Item(AprsItem),
    MicE(AprsMicE),
    /// Data of a kind that is not interpreted: only the destination is
    /// kept.
    Unknown(Callsign),
}

/// The mathematical value of an `AprsData`.
pub enum AprsDataView {
    Position(AprsPositionView),
    Message(AprsMessageView),
    Status(AprsStatusView),
    Object(AprsObjectView),
    Item(AprsItemView),
    MicE(AprsMicEView),
    Unknown(CallsignView),
}

impl View for AprsData {
    type V = AprsDataView;

    open spec fn view(&self) -> AprsDataView {
        match *self {
            AprsData::Position(p) => AprsDataView::Position(p@),
            AprsData::Message(m) => AprsDataView::Message(m@),
            AprsData::Status(s) => AprsDataView::Status(s@),
            AprsData::Object(o) => AprsDataView::Object(o@),
            AprsData::Item(i) => AprsDataView::Item(i@),
            AprsData::MicE(m) => AprsDataView::MicE(m@),
            AprsData::Unknown(c) => AprsDataView::Unknown(c@),
        }
    }
}

/// A packet: who sent it, by which way it came, and what it carries.
#[derive(PartialEq, Eq, Debug, Clone)]
pub struct AprsPacket {
    pub from: Callsign,
    pub via: Vec<Via>,
    pub data: AprsData,
}

/// The mathematical value of an `AprsPacket`.
pub struct AprsPacketView {
    pub from: CallsignView,
    pub via: Seq<ViaView>,
    pub data: AprsDataView,
}

/// The values of the hops of a path.
pub open spec fn via_views(via: Seq<Via>) -> Seq<ViaView> {
    Seq::new(via.len(), |i: int| via[i]@)
}

impl View for AprsPacket {
    type V = AprsPacketView;

    open spec fn view(&self) -> AprsPacketView {
        AprsPacketView { from: self.from@, via: via_views(self.via@), data: self.data@ }
    }
}

/// The data that an information field spells, sent to `to`.
///
/// The first byte names the kind. Data of a kind that has no name here is
/// unknown, and an empty field too.
pub open spec fn decode_data(s: Seq<u8>, to: CallsignView) -> Result<AprsDataView, DecodeErrorView> {
    let first = if s.len() > 0 {
        s[0]
    } else {
        0u8
    };
    let rest = if s.len() > 0 {
        s.subrange(1, s.len() as int)
    } else {
        s
    };
    if first == 58 {
        match decode_message(rest, to) {
            Ok(m) => Ok(AprsDataView::Message(m)),
            Err(e) => Err(e),
        }
    } else if first == 33 || first == 47 || first == 61 || first == 64 {
        match decode_aprs_position(s, to) {
            Ok(p) => Ok(AprsDataView::Position(p)),
            Err(e) => Err(e),
        }
    } else if first == 62 {
        Ok(AprsDataView::Status(decode_status(rest, to)))
    } else if first == 59 {
        match decode_object(rest, to) {
            Ok(o) => Ok(AprsDataView::Object(o)),
            Err(e) => Err(e),
        }
    } else if first == 41 {
        match decode_item(rest, to) {
            Ok(i) => Ok(AprsDataView::Item(i)),
            Err(e) => Err(e),
        }
    } else if first == 28 || first == 96 {
        match decode_mic_e(rest, to, true) {
            Ok(m) => Ok(AprsDataView::MicE(m)),
            Err(e) => Err(e),
        }
    } else if first == 29 || first == 39 {
        match decode_mic_e(rest, to, false) {
            Ok(m) => Ok(AprsDataView::MicE(m)),
            Err(e) => Err(e),
        }
    } else {
        Ok(AprsDataView::Unknown(to))
    }
}

/// The information field of data. Unknown data has none.
pub open spec fn data_bytes(d: AprsDataView) -> Result<Seq<u8>, EncodeErrorView> {
    match d {
        AprsDataView::Position(p) => aprs_position_bytes(p),
        AprsDataView::Message(m) => message_bytes(m),
        AprsDataView::Status(s) => Ok(status_bytes(s)),
        AprsDataView::Object(o) => object_bytes(o),
        AprsDataView::Item(i) => item_bytes(i),
        AprsDataView::MicE(m) => mic_e_bytes(m),
        AprsDataView::Unknown(_) => Err(EncodeErrorView::InvalidData),
    }
}

/// The destination callsign that data goes out with: the one it holds, or,
/// for a Mic-E report, the one that its latitude and message make.
pub open spec fn destination(d: AprsDataView) -> CallsignView {
    match d {
        AprsDataView::Position(p) => p.to,
        AprsDataView::Message(m) => m.to,
        AprsDataView::Status(s) => s.to,
        AprsDataView::Object(o) => o.to,
        AprsDataView::Item(i) => i.to,
        AprsDataView::MicE(m) => CallsignView { call: mic_e_destination(m), ssid: None },
        AprsDataView::Unknown(to) => to,
    }
}

/// The destination callsign that data holds; a Mic-E report holds none.
pub open spec fn stored_destination(d: AprsDataView) -> Option<CallsignView> {
    match d {
        AprsDataView::MicE(_) => None,
        _ => Some(destination(d)),
    }
}

impl AprsData {
    /// The destination callsign that the data holds; a Mic-E report holds
    /// none.
    pub fn to(&self) -> (r: Option<&Callsign>)
        ensures
            match r {
                Some(c) => stored_destination(self@) == Some(c@),
                None => stored_destination(self@).is_none(),
            },
    {
        match self {
            AprsData::Position(p) => Some(&p.to),
            AprsData::Message(m) => Some(&m.to),
            AprsData::Status(s) => Some(s.to()),
            AprsData::Object(o) => Some(&o.to),
            AprsData::Item(i) => Some(&i.to),
            AprsData::MicE(_) => None,
            AprsData::Unknown(to) => Some(to),
        }
    }

    /// The destination callsign that the data goes out with.
    pub fn dest_field(&self) -> (r: Callsign)
        ensures
            r@ == destination(self@),
    {
        match self {
            AprsData::Position(p) => p.to.clone(),
            AprsData::Message(m) => m.to.clone(),
            AprsData::Status(s) => s.to().clone(),
            AprsData::Object(o) => o.to.clone(),
            AprsData::Item(i) => i.to.clone(),
            AprsData::MicE(m) => m.encode_destination(),
            AprsData::Unknown(to) => to.clone(),
        }
    }

    /// Reads data from an information field.
    pub fn decode(s: &[u8], to: Callsign) -> (r: Result<Self, DecodeError>)
        ensures
            match r {
                Ok(d) => decode_data(s@, to@) == Ok::<AprsDataView, DecodeErrorView>(d@),
                Err(e) => decode_data(s@, to@) == Err::<AprsDataView, DecodeErrorView>(e@),
            },
    {
        let first: u8 = if s.len() > 0 {
            s[0]
        } else {
            0
        };
        let rest = if s.len() > 0 {
            vstd::slice::slice_subrange(s, 1, s.len())
        } else {
            s
        };
        if first == 58 {
            match AprsMessage::decode(rest, to) {
                Ok(m) => Ok(AprsData::Message(m)),
                Err(e) => Err(e),
            }
        } else if first == 33 || first == 47 || first == 61 || first == 64 {
            match AprsPosition::decode(s, to) {
                Ok(p) => Ok(AprsData::Position(p)),
                Err(e) => Err(e),
            }
        } else if first == 62 {
            match AprsStatus::decode(rest, to) {
                Ok(x) => Ok(AprsData::Status(x)),
                Err(e) => Err(e),
            }
        } else if first == 59 {
            match AprsObject::decode(rest, to) {
                Ok(o) => Ok(AprsData::Object(o)),
                Err(e) => Err(e),
            }
        } else if first == 41 {
            match AprsItem::decode(rest, to) {
                Ok(i) => Ok(AprsData::Item(i)),
                Err(e) => Err(e),
            }
        } else if first == 28 || first == 96 {
            match AprsMicE::decode(rest, to, true) {
                Ok(m) => Ok(AprsData::MicE(m)),
                Err(e) => Err(e),
            }
        } else if first == 29 || first == 39 {
            match AprsMicE::decode(rest, to, false) {
                Ok(m) => Ok(AprsData::MicE(m)),
                Err(e) => Err(e),
            }
        } else {
            Ok(AprsData::Unknown(to))
        }
    }

    /// Appends the information field of the data.
    ///
    /// Fails, and appends nothing, if the data has none.
    pub fn encode(&self, buf: &mut Vec<u8>) -> (r: Result<(), EncodeError>)
        ensures
            match r {
                Ok(()) => data_bytes(self@) matches Ok(b) && final(buf)@ == old(buf)@ + b,
                Err(e) => data_bytes(self@) == Err::<Seq<u8>, EncodeErrorView>(e@) && final(buf)@
                    == old(buf)@,
            },
    {
        match self {
            Self::Position(p) => p.encode(buf),
            Self::Message(m) => m.encode(buf),
            Self::Status(st) => st.encode(buf),
            Self::Object(o) => o.encode(buf),
            Self::Item(i) => i.encode(buf),
            Self::MicE(m) => m.encode(buf),
            Self::Unknown(_) => Err(EncodeError::InvalidData),
        }
    }
}

/// Whether a hop is a callsign that is marked as heard.
pub open spec fn is_heard(v: ViaView) -> bool {
    v matches ViaView::Callsign(_, true)
}

/// Whether a hop from place `k` on is marked as heard.
pub open spec fn heard_from(hops: Seq<ViaView>, k: int) -> bool
    decreases hops.len() - k,
{
    if k < 0 || k >= hops.len() {
        false
    } else {
        is_heard(hops[k]) || heard_from(hops, k + 1)
    }
}

/// A hop with its heard flag set; a q-construct as it is.
pub open spec fn with_heard(v: ViaView, heard: bool) -> ViaView {
    match v {
        ViaView::Callsign(c, _) => ViaView::Callsign(c, heard),
        ViaView::QConstruct(q) => ViaView::QConstruct(q),
    }
}

/// The path with every callsign marked as heard that stands at or before
/// one that is: a packet that was heard by a hop has passed all before it.
pub open spec fn propagate_heard(hops: Seq<ViaView>) -> Seq<ViaView> {
    Seq::new(hops.len(), |k: int| with_heard(hops[k], heard_from(hops, k)))
}

/// The path with only the last of its heard callsigns marked as heard: as
/// it is written in text.
pub open spec fn last_heard_only(hops: Seq<ViaView>) -> Seq<ViaView> {
    Seq::new(
        hops.len(),
        |k: int| with_heard(hops[k], is_heard(hops[k]) && !heard_from(hops, k + 1)),
    )
}

/// The hops that a path in text spells: hops with commas between them.
pub open spec fn decode_path(s: Seq<u8>) -> Result<Seq<ViaView>, DecodeErrorView>
    decreases s.len(),
{
    let i = first_index(s, 44);
    if i < 0 || i >= s.len() {
        match decode_via(s) {
            Some(v) => Ok(seq![v]),
            None => Err(DecodeErrorView::InvalidVia(s)),
        }
    } else {
        match decode_via(s.subrange(0, i)) {
            None => Err(DecodeErrorView::InvalidVia(s.subrange(0, i))),
            Some(v) => match decode_path(s.subrange(i + 1, s.len() as int)) {
                Ok(rest) => Ok(seq![v] + rest),
                Err(e) => Err(e),
            },
        }
    }
}

/// The hops of a path with `front` put before them.
pub open spec fn prepend(front: Seq<ViaView>, r: Result<Seq<ViaView>, DecodeErrorView>) -> Result<
    Seq<ViaView>,
    DecodeErrorView,
> {
    match r {
        Ok(rest) => Ok(front + rest),
        Err(e) => Err(e),
    }
}

/// The packet that a line of text spells.
///
/// The line is `FROM>TO,HOP,...:INFO`: up to the first colon the header,
/// in it up to the first `>` the sender, then destination and hops with
/// commas between them. Heard flags are carried to the hops before.
pub open spec fn decode_textual_packet(s: Seq<u8>) -> Result<AprsPacketView, DecodeErrorView> {
    let i = first_index(s, 58);
    let header = s.subrange(0, i);
    let j = first_index(header, 62);
    let to_and_via = header.subrange(j + 1, header.len() as int);
    let k = first_index(to_and_via, 44);
    if i >= s.len() || j >= header.len() {
        Err(DecodeErrorView::InvalidPacket(s))
    } else if decode_textual_spec(header.subrange(0, j)).is_none() {
        Err(DecodeErrorView::InvalidCallsign(header.subrange(0, j)))
    } else if decode_textual_spec(to_and_via.subrange(0, k)).is_none() {
        Err(DecodeErrorView::InvalidCallsign(to_and_via.subrange(0, k)))
    } else {
        let path = if k < to_and_via.len() {
            decode_path(to_and_via.subrange(k + 1, to_and_via.len() as int))
        } else {
            Ok(Seq::<ViaView>::empty())
        };
        match path {
            Err(e) => Err(e),
            Ok(hops) => match decode_data(
                s.subrange(i + 1, s.len() as int),
                decode_textual_spec(to_and_via.subrange(0, k)).unwrap().0,
            ) {
                Err(e) => Err(e),
                Ok(data) => Ok(
                    AprsPacketView {
                        from: decode_textual_spec(header.subrange(0, j)).unwrap().0,
                        via: propagate_heard(hops),
                        data,
                    },
                ),
            },
        }
    }
}

/// The hops from place `k` on, each with a comma before it.
pub open spec fn path_bytes(hops: Seq<ViaView>, k: int) -> Seq<u8>
    decreases hops.len() - k,
{
    if k < 0 || k >= hops.len() {
        Seq::<u8>::empty()
    } else {
        seq![44u8] + via_bytes(hops[k]) + path_bytes(hops, k + 1)
    }
}

/// The line of text of a packet, or why it has none.
///
/// Of the heard flags only the last is written.
pub open spec fn textual_packet(p: AprsPacketView) -> Result<Seq<u8>, EncodeErrorView> {
    match data_bytes(p.data) {
        Err(e) => Err(e),
        Ok(info) => Ok(
            display_bytes(p.from) + seq![62u8] + display_bytes(destination(p.data)) + path_bytes(
                last_heard_only(p.via),
                0,
            ) + seq![58u8] + info,
        ),
    }
}

/// The callsigns among the hops of a path, with their heard flags.
pub open spec fn callsign_hops(hops: Seq<ViaView>) -> Seq<(CallsignView, bool)>
    decreases hops.len(),
{
    if hops.len() == 0 {
        Seq::<(CallsignView, bool)>::empty()
    } else {
        match hops.last() {
            ViaView::Callsign(c, heard) => callsign_hops(hops.drop_last()).push((c, heard)),
            ViaView::QConstruct(_) => callsign_hops(hops.drop_last()),
        }
    }
}

/// The address fields of the digipeaters from place `k` on, or the first
/// of them that fits no field.
pub open spec fn ax25_path(calls: Seq<(CallsignView, bool)>, k: int) -> Result<
    Seq<u8>,
    EncodeErrorView,
>
    decreases calls.len() - k,
{
    if k < 0 || k >= calls.len() {
        Ok(Seq::<u8>::empty())
    } else if !ax25_encodable(calls[k].0) {
        Err(EncodeErrorView::InvalidCallsign(calls[k].0))
    } else {
        match ax25_path(calls, k + 1) {
            Err(e) => Err(e),
            Ok(rest) => Ok(
                ax25_bytes(calls[k].0, CallsignField::Via(calls[k].1), k + 1 < calls.len())
                    + rest,
            ),
        }
    }
}

/// The AX.25 frame of a packet, or why it has none.
///
/// Destination, sender and the callsigns of the path, each in a field of
/// seven bytes of which the last is marked; the control byte 3 and the
/// protocol byte 240; the information field. Q-constructs are left out.
pub open spec fn ax25_packet(p: AprsPacketView) -> Result<Seq<u8>, EncodeErrorView> {
    let calls = callsign_hops(p.via);
    if !ax25_encodable(destination(p.data)) {
        Err(EncodeErrorView::InvalidCallsign(destination(p.data)))
    } else if !ax25_encodable(p.from) {
        Err(EncodeErrorView::InvalidCallsign(p.from))
    } else {
        match ax25_path(calls, 0) {
            Err(e) => Err(e),
            Ok(path) => match data_bytes(p.data) {
                Err(e) => Err(e),
                Ok(info) => Ok(
                    ax25_bytes(destination(p.data), CallsignField::Destination, true) + ax25_bytes(
                        p.from,
                        CallsignField::Source,
                        calls.len() > 0,
                    ) + path + seq![3u8, 240u8] + info,
                ),
            },
        }
    }
}

/// The digipeaters that the address fields from byte `i` on hold, and where
/// the last of them ends.
pub open spec fn decode_ax25_path(data: Seq<u8>, i: int) -> Result<
    (Seq<ViaView>, int),
    DecodeErrorView,
>
    decreases data.len() - i,
{
    if i < 0 || data.len() < i + 7 {
        Err(DecodeErrorView::InvalidPacket(data))
    } else {
        match decode_ax25_spec(data.subrange(i, i + 7)) {
            None => Err(DecodeErrorView::InvalidCallsign(data.subrange(i, i + 7))),
            Some((c, heard, more)) => if !more {
                Ok((seq![ViaView::Callsign(c, heard)], i + 7))
            } else {
                match decode_ax25_path(data, i + 7) {
                    Err(e) => Err(e),
                    Ok((rest, end)) => Ok((seq![ViaView::Callsign(c, heard)] + rest, end)),
                }
            },
        }
    }
}

/// The packet that an AX.25 frame holds.
pub open spec fn decode_ax25_packet(data: Seq<u8>) -> Result<AprsPacketView, DecodeErrorView> {
    if data.len() < 7 {
        Err(DecodeErrorView::InvalidPacket(data))
    } else {
        match decode_ax25_spec(data.subrange(0, 7)) {
            None => Err(DecodeErrorView::InvalidCallsign(data.subrange(0, 7))),
            Some((to, _, more)) => if !more || data.len() < 14 {
                Err(DecodeErrorView::InvalidPacket(data))
            } else {
                match decode_ax25_spec(data.subrange(7, 14)) {
                    None => Err(DecodeErrorView::InvalidCallsign(data.subrange(7, 14))),
                    Some((from, _, more_hops)) => {
                        let path = if more_hops {
                            decode_ax25_path(data, 14)
                        } else {
                            Ok((Seq::<ViaView>::empty(), 14int))
                        };
                        match path {
                            Err(e) => Err(e),
                            Ok((via, end)) => if data.len() < end + 2 || data[end] != 3 || data[end
                                + 1] != 240 {
                                Err(DecodeErrorView::InvalidPacket(data))
                            } else {
                                match decode_data(data.subrange(end + 2, data.len() as int), to) {
                                    Err(e) => Err(e),
                                    Ok(d) => Ok(AprsPacketView { from, via, data: d }),
                                }
                            },
                        }
                    },
                }
            },
        }
    }
}

/// Putting hops before a path one by one is putting them before it at
/// once.
proof fn lemma_prepend_push(
    front: Seq<ViaView>,
    v: ViaView,
    r: Result<Seq<ViaView>, DecodeErrorView>,
)
    ensures
        prepend(front, prepend(seq![v], r)) == prepend(front.push(v), r),
{
    match r {
        Ok(rest) => {
            assert(front + (seq![v] + rest) =~= front.push(v) + rest);
        },
        Err(_) => {},
    }
}

/// Reads the hops of a path in text.
#[verifier::rlimit(30)]
fn read_path(s: &[u8]) -> (r: Result<Vec<Via>, DecodeError>)
    ensures
        match r {
            Ok(path) => decode_path(s@) == Ok::<Seq<ViaView>, DecodeErrorView>(via_views(path@)),
            Err(e) => decode_path(s@) == Err::<Seq<ViaView>, DecodeErrorView>(e@),
        },
{
    let mut path: Vec<Via> = Vec::new();
    let mut pos: usize = 0;
    assert(s@.subrange(0, s@.len() as int) =~= s@);
    assert(via_views(path@) =~= Seq::<ViaView>::empty());
    assert(prepend(via_views(path@), decode_path(s@)) == decode_path(s@)) by {
        match decode_path(s@) {
            Ok(rest) => {
                assert(Seq::<ViaView>::empty() + rest =~= rest);
            },
            Err(_) => {},
        }
    }
    loop
        invariant
            pos <= s.len(),
            decode_path(s@) == prepend(
                via_views(path@),
                decode_path(s@.subrange(pos as int, s@.len() as int)),
            ),
        decreases s.len() - pos,
    {
        let rest = vstd::slice::slice_subrange(s, pos, s.len());
        let i = find_byte(rest, 44);
        let ghost before = via_views(path@);
        if i >= rest.len() {
            match Via::decode_textual(rest) {
                Some(v) => {
                    path.push(v);
                    proof {
                        assert(via_views(path@) =~= before.push(v@));
                        assert(before + seq![v@] =~= before.push(v@));
                    }
                    return Ok(path);
                },
                None => {
                    return Err(DecodeError::InvalidVia(copy_all(rest)));
                },
            }
        }
        let hop = vstd::slice::slice_subrange(rest, 0, i);
        match Via::decode_textual(hop) {
            Some(v) => {
                path.push(v);
                proof {
                    assert(via_views(path@) =~= before.push(v@));
                    assert(rest@.subrange(i + 1, rest@.len() as int) =~= s@.subrange(
                        pos + i + 1,
                        s@.len() as int,
                    ));
                    lemma_prepend_push(
                        before,
                        v@,
                        decode_path(s@.subrange(pos + i + 1, s@.len() as int)),
                    );
                }
            },
            None => {
                return Err(DecodeError::InvalidVia(copy_all(hop)));
            },
        }
        pos = pos + i + 1;
    }
}

/// Marks as heard every callsign that stands at or before one that is.
#[verifier::rlimit(30)]
fn mark_heard(path: &mut Vec<Via>)
    ensures
        via_views(final(path)@) == propagate_heard(via_views(old(path)@)),
{
    let ghost orig = via_views(path@);
    let mut k: usize = path.len();
    let mut heard = false;
    while k > 0
        invariant
            k <= path.len(),
            path.len() == orig.len(),
            orig == via_views(old(path)@),
            heard == heard_from(orig, k as int),
            forall|j: int| k <= j < path.len() ==> (#[trigger] path@[j])@ == with_heard(
                orig[j],
                heard_from(orig, j),
            ),
            forall|j: int| 0 <= j < k ==> (#[trigger] path@[j])@ == orig[j],
        decreases k,
    {
        k -= 1;
        let this_heard = match path[k].callsign() {
            Some((_, h)) => h,
            None => false,
        };
        assert(this_heard == is_heard(orig[k as int]));
        if !heard {
            heard = this_heard;
        }
        let ghost before = path@;
        path[k].set_heard(heard);
        assert forall|j: int| k <= j < path.len() implies (#[trigger] path@[j])@ == with_heard(
            orig[j],
            heard_from(orig, j),
        ) by {
            if j > k {
                assert(path@[j] == before[j]);
            }
        }
        assert forall|j: int| 0 <= j < k implies (#[trigger] path@[j])@ == orig[j] by {
            assert(path@[j] == before[j]);
        }
    }
    assert(via_views(path@) =~= propagate_heard(orig));
}

/// The place of the last hop that is marked as heard, or the length of the
/// path if none is.
fn last_heard(path: &Vec<Via>) -> (r: usize)
    ensures
        r <= path.len(),
        forall|k: int|
            0 <= k < path.len() ==> (k == r) == (is_heard(#[trigger] via_views(path@)[k])
                && !heard_from(via_views(path@), k + 1)),
{
    let ghost hops = via_views(path@);
    let mut k: usize = path.len();
    while k > 0
        invariant
            k <= path.len(),
            hops == via_views(path@),
            !heard_from(hops, k as int),
        decreases k,
    {
        k -= 1;
        let this_heard = match path[k].callsign() {
            Some((_, h)) => h,
            None => false,
        };
        assert(this_heard == is_heard(hops[k as int]));
        if this_heard {
            proof {
                lemma_heard_from_before(hops, k as int);
            }
            return k;
        }
    }
    proof {
        lemma_none_heard(hops, 0);
    }
    path.len()
}

/// If the hop at `k` is the last that is heard, every place before it has
/// a heard hop after it, and no place after it is heard.
proof fn lemma_heard_from_before(hops: Seq<ViaView>, k: int)
    requires
        0 <= k < hops.len(),
        is_heard(hops[k]),
        !heard_from(hops, k + 1),
    ensures
        forall|j: int|
            0 <= j < hops.len() ==> (j == k) == (is_heard(#[trigger] hops[j]) && !heard_from(
                hops,
                j + 1,
            )),
{
    assert forall|j: int| 0 <= j < hops.len() implies (j == k) == (is_heard(#[trigger] hops[j])
        && !heard_from(hops, j + 1)) by {
        if j < k {
            lemma_heard_from_holds(hops, j + 1, k);
        } else if j > k {
            lemma_not_heard_after(hops, k + 1, j);
        }
    }
}

/// A heard hop at `k` makes `heard_from` true from every place up to `k`.
pub proof fn lemma_heard_from_holds(hops: Seq<ViaView>, from: int, k: int)
    requires
        0 <= from <= k < hops.len(),
        is_heard(hops[k]),
    ensures
        heard_from(hops, from),
    decreases k - from,
{
    if from < k {
        lemma_heard_from_holds(hops, from + 1, k);
    }
}

/// Where `heard_from` is false, no hop from there on is heard.
proof fn lemma_not_heard_after(hops: Seq<ViaView>, from: int, j: int)
    requires
        0 <= from <= j < hops.len(),
        !heard_from(hops, from),
    ensures
        !is_heard(hops[j]),
    decreases j - from,
{
    if from < j {
        lemma_not_heard_after(hops, from + 1, j);
    }
}

/// Where `heard_from` is false at `from`, no place from there on is the
/// last heard hop.
proof fn lemma_none_heard(hops: Seq<ViaView>, from: int)
    requires
        0 <= from <= hops.len(),
        !heard_from(hops, from),
    ensures
        forall|j: int| from <= j < hops.len() ==> !is_heard(#[trigger] hops[j]),
{
    assert forall|j: int| from <= j < hops.len() implies !is_heard(#[trigger] hops[j]) by {
        lemma_not_heard_after(hops, from, j);
    }
}

impl AprsPacket {
    /// The destination callsign that the data of the packet holds; a Mic-E
    /// report holds none.
    pub fn to(&self) -> (r: Option<&Callsign>)
        ensures
            match r {
                Some(c) => stored_destination(self@.data) == Some(c@),
                None => stored_destination(self@.data).is_none(),
            },
    {
        self.data.to()
    }

    /// Reads a packet from a line of text, as APRS-IS carries it.
    #[verifier::rlimit(30)]
    pub fn decode_textual(s: &[u8]) -> (r: Result<Self, DecodeError>)
        ensures
            match r {
                Ok(p) => decode_textual_packet(s@) == Ok::<AprsPacketView, DecodeErrorView>(p@),
                Err(e) => decode_textual_packet(s@) == Err::<AprsPacketView, DecodeErrorView>(e@),
            },
    {
        let i = find_byte(s, 58);
        if i >= s.len() {
            return Err(DecodeError::InvalidPacket(copy_all(s)));
        }
        let header = vstd::slice::slice_subrange(s, 0, i);
        let body = vstd::slice::slice_subrange(s, i + 1, s.len());
        let j = find_byte(header, 62);
        if j >= header.len() {
            return Err(DecodeError::InvalidPacket(copy_all(s)));
        }
        let from_bytes = vstd::slice::slice_subrange(header, 0, j);
        let from = match Callsign::decode_textual(from_bytes) {
            Some((c, _)) => c,
            None => {
                return Err(DecodeError::InvalidCallsign(copy_all(from_bytes)));
            },
        };
        let to_and_via = vstd::slice::slice_subrange(header, j + 1, header.len());
        let k = find_byte(to_and_via, 44);
        let to_bytes = vstd::slice::slice_subrange(to_and_via, 0, k);
        let to = match Callsign::decode_textual(to_bytes) {
            Some((c, _)) => c,
            None => {
                return Err(DecodeError::InvalidCallsign(copy_all(to_bytes)));
            },
        };
        let mut path: Vec<Via> = if k < to_and_via.len() {
            match read_path(vstd::slice::slice_subrange(to_and_via, k + 1, to_and_via.len())) {
                Ok(v) => v,
                Err(e) => {
                    return Err(e);
                },
            }
        } else {
            let v: Vec<Via> = Vec::new();
            assert(via_views(v@) =~= Seq::<ViaView>::empty());
            v
        };
        mark_heard(&mut path);
        let data = match AprsData::decode(body, to) {
            Ok(d) => d,
            Err(e) => {
                return Err(e);
            },
        };
        Ok(AprsPacket { from, via: path, data })
    }

    /// Appends the packet as a line of text, without a line end.
    ///
    /// Fails, and appends nothing, if the data has no information field.
    #[verifier::rlimit(30)]
    pub fn encode_textual(&self, buf: &mut Vec<u8>) -> (r: Result<(), EncodeError>)
        ensures
            match r {
                Ok(()) => textual_packet(self@) matches Ok(b) && final(buf)@ == old(buf)@ + b,
                Err(e) => textual_packet(self@) == Err::<Seq<u8>, EncodeErrorView>(e@) && final(buf)@ == old(buf)@,
            },
    {
        let start: usize = buf.len();
        let last = last_heard(&self.via);
        self.from.encode_textual(false, buf);
        buf.push(62);
        self.data.dest_field().encode_textual(false, buf);
        let ghost hops = last_heard_only(via_views(self.via@));
        let ghost head = buf@;
        let mut k: usize = 0;
        while k < self.via.len()
            invariant
                k <= self.via.len(),
                hops == last_heard_only(via_views(self.via@)),
                last <= self.via.len(),
                forall|n: int|
                    0 <= n < self.via.len() ==> (n == last) == (is_heard(
                        #[trigger] via_views(self.via@)[n],
                    ) && !heard_from(via_views(self.via@), n + 1)),
                head + path_bytes(hops, 0) == buf@ + path_bytes(hops, k as int),
            decreases self.via.len() - k,
        {
            let ghost before = buf@;
            buf.push(44);
            match &self.via[k] {
                Via::Callsign(c, _) => {
                    c.encode_textual(k == last, buf);
                },
                Via::QConstruct(_) => {
                    self.via[k].encode_textual(buf);
                },
            }
            proof {
                assert(via_views(self.via@)[k as int] == self.via@[k as int]@);
                assert(buf@ =~= before + (seq![44u8] + via_bytes(hops[k as int])));
                assert(before + path_bytes(hops, k as int) =~= buf@ + path_bytes(hops, k + 1));
            }
            k += 1;
        }
        buf.push(58);
        match self.data.encode(buf) {
            Ok(()) => {},
            Err(e) => {
                buf.truncate(start);
                assert(buf@ =~= old(buf)@);
                return Err(e);
            },
        }
        proof {
            assert(path_bytes(hops, k as int) =~= Seq::<u8>::empty());
            assert(buf@ =~= old(buf)@ + textual_packet(self@)->Ok_0);
        }
        Ok(())
    }

    /// Reads the digipeaters of a frame from byte `start` on.
    #[verifier::rlimit(30)]
    fn read_ax25_path(data: &[u8], start: usize) -> (r: Result<(Vec<Via>, usize), DecodeError>)
        ensures
            match r {
                Ok((path, end)) => decode_ax25_path(data@, start as int) == Ok::<
                    (Seq<ViaView>, int),
                    DecodeErrorView,
                >((via_views(path@), end as int)) && end <= data.len(),
                Err(e) => decode_ax25_path(data@, start as int) == Err::<
                    (Seq<ViaView>, int),
                    DecodeErrorView,
                >(e@),
            },
    {
        let mut path: Vec<Via> = Vec::new();
        let mut i: usize = start;
        assert(via_views(path@) =~= Seq::<ViaView>::empty());
        proof {
            lemma_prepend_path_empty(decode_ax25_path(data@, start as int));
        }
        loop
            invariant
                start <= i,
                decode_ax25_path(data@, start as int) == prepend_path(
                    via_views(path@),
                    decode_ax25_path(data@, i as int),
                ),
            decreases data.len() - i,
        {
            if data.len() < 7 || i > data.len() - 7 {
                return Err(DecodeError::InvalidPacket(copy_all(data)));
            }
            let field = vstd::slice::slice_subrange(data, i, i + 7);
            let ghost before = via_views(path@);
            match Callsign::decode_ax25(field) {
                Some((c, heard, more)) => {
                    let ghost v = ViaView::Callsign(c@, heard);
                    path.push(Via::Callsign(c, heard));
                    proof {
                        assert(via_views(path@) =~= before.push(v));
                        if more {
                            lemma_prepend_path_push(before, v, decode_ax25_path(data@, i + 7));
                        } else {
                            assert(before + seq![v] =~= before.push(v));
                        }
                    }
                    i += 7;
                    if !more {
                        return Ok((path, i));
                    }
                },
                None => {
                    return Err(DecodeError::InvalidCallsign(copy_all(field)));
                },
            }
        }
    }

    /// Reads a packet from an AX.25 frame, as it comes from the air.
    #[verifier::rlimit(30)]
    pub fn decode_ax25(data: &[u8]) -> (r: Result<Self, DecodeError>)
        ensures
            match r {
                Ok(p) => decode_ax25_packet(data@) == Ok::<AprsPacketView, DecodeErrorView>(p@),
                Err(e) => decode_ax25_packet(data@) == Err::<AprsPacketView, DecodeErrorView>(e@),
            },
    {
        if data.len() < 7 {
            return Err(DecodeError::InvalidPacket(copy_all(data)));
        }
        let dest_bytes = vstd::slice::slice_subrange(data, 0, 7);
        let (to, has_more) = match Callsign::decode_ax25(dest_bytes) {
            Some((c, _, more)) => (c, more),
            None => {
                return Err(DecodeError::InvalidCallsign(copy_all(dest_bytes)));
            },
        };
        if !has_more || data.len() < 14 {
            return Err(DecodeError::InvalidPacket(copy_all(data)));
        }
        let src_bytes = vstd::slice::slice_subrange(data, 7, 14);
        let (from, more_hops) = match Callsign::decode_ax25(src_bytes) {
            Some((c, _, more)) => (c, more),
            None => {
                return Err(DecodeError::InvalidCallsign(copy_all(src_bytes)));
            },
        };
        let (path, end) = if more_hops {
            match Self::read_ax25_path(data, 14) {
                Ok(x) => x,
                Err(e) => {
                    return Err(e);
                },
            }
        } else {
            let v: Vec<Via> = Vec::new();
            assert(via_views(v@) =~= Seq::<ViaView>::empty());
            (v, 14usize)
        };
        if data.len() < 2 || end > data.len() - 2 || data[end] != 3 || data[end + 1] != 240 {
            return Err(DecodeError::InvalidPacket(copy_all(data)));
        }
        let info = vstd::slice::slice_subrange(data, end + 2, data.len());
        let d = match AprsData::decode(info, to) {
            Ok(d) => d,
            Err(e) => {
                return Err(e);
            },
        };
        Ok(Self { from, via: path, data: d })
    }

    /// Appends the address fields of the digipeaters.
    #[verifier::rlimit(30)]
    fn write_ax25_path(&self, buf: &mut Vec<u8>) -> (r: Result<(), EncodeError>)
        ensures
            match r {
                Ok(()) => ax25_path(callsign_hops(self@.via), 0) matches Ok(b) && final(buf)@
                    == old(buf)@ + b,
                Err(e) => ax25_path(callsign_hops(self@.via), 0) == Err::<Seq<u8>, EncodeErrorView>(
                    e@,
                ) && final(buf)@ == old(buf)@,
            },
    {
        let start: usize = buf.len();
        let ghost hops = via_views(self.via@);
        let ghost calls = callsign_hops(hops);
        // the places of the callsigns among the hops
        let mut places: Vec<usize> = Vec::new();
        let mut k: usize = 0;
        assert(hops.subrange(0, 0) =~= Seq::<ViaView>::empty());
        while k < self.via.len()
            invariant
                k <= self.via.len(),
                hops == via_views(self.via@),
                places@.len() == callsign_hops(hops.subrange(0, k as int)).len(),
                forall|n: int|
                    0 <= n < places@.len() ==> #[trigger] places@[n] < self.via.len() && hops[places@[n] as int]
                        == ViaView::Callsign(
                        callsign_hops(hops.subrange(0, k as int))[n].0,
                        callsign_hops(hops.subrange(0, k as int))[n].1,
                    ),
            decreases self.via.len() - k,
        {
            proof {
                assert(hops.subrange(0, k + 1).drop_last() =~= hops.subrange(0, k as int));
                assert(hops.subrange(0, k + 1).last() == hops[k as int]);
                assert(hops[k as int] == self.via@[k as int]@);
            }
            match &self.via[k] {
                Via::Callsign(_, _) => {
                    places.push(k);
                },
                Via::QConstruct(_) => {},
            }
            k += 1;
        }
        assert(hops.subrange(0, k as int) =~= hops);
        let count: usize = places.len();
        let ghost head = buf@;
        let mut n: usize = 0;
        assert(buf@.subrange(0, head.len() as int) =~= head);
        while n < count
            invariant
                n <= count,
                count == places@.len(),
                count == calls.len(),
                calls == callsign_hops(hops),
                hops == via_views(self.via@),
                forall|m: int|
                    0 <= m < places@.len() ==> #[trigger] places@[m] < self.via.len() && hops[places@[m] as int]
                        == ViaView::Callsign(calls[m].0, calls[m].1),
                prepend_bytes(buf@, ax25_path(calls, n as int)) == prepend_bytes(
                    head,
                    ax25_path(calls, 0),
                ),
                head == old(buf)@,
                start == head.len(),
                buf@.len() >= head.len(),
                buf@.subrange(0, head.len() as int) == head,
            decreases count - n,
        {
            let place = places[n];
            let ghost before = buf@;
            assert(hops[place as int] == self.via@[place as int]@);
            match &self.via[place] {
                Via::Callsign(c, heard) => {
                    match c.encode_ax25(buf, CallsignField::Via(*heard), n + 1 < count) {
                        Ok(()) => {
                            proof {
                                lemma_prepend_bytes_step(
                                    before,
                                    ax25_bytes(
                                        calls[n as int].0,
                                        CallsignField::Via(calls[n as int].1),
                                        n + 1 < calls.len(),
                                    ),
                                    ax25_path(calls, n + 1),
                                );
                                assert(buf@.subrange(0, head.len() as int) =~= before.subrange(
                                    0,
                                    head.len() as int,
                                ));
                            }
                        },
                        Err(e) => {
                            buf.truncate(start);
                            return Err(e);
                        },
                    }
                },
                Via::QConstruct(_) => {},
            }
            n += 1;
        }
        proof {
            assert(ax25_path(calls, n as int) == Ok::<Seq<u8>, EncodeErrorView>(Seq::<u8>::empty()));
            assert(buf@ + Seq::<u8>::empty() =~= buf@);
        }
        Ok(())
    }

    /// Appends the packet as an AX.25 frame, for sending on the air.
    ///
    /// Q-constructs are left out. Fails, and appends nothing, if a callsign
    /// fits no address field or the data has no information field.
    #[verifier::rlimit(30)]
    pub fn encode_ax25(&self, buf: &mut Vec<u8>) -> (r: Result<(), EncodeError>)
        ensures
            match r {
                Ok(()) => ax25_packet(self@) matches Ok(b) && final(buf)@ == old(buf)@ + b,
                Err(e) => ax25_packet(self@) == Err::<Seq<u8>, EncodeErrorView>(e@) && final(buf)@
                    == old(buf)@,
            },
    {
        let start: usize = buf.len();
        match self.data.dest_field().encode_ax25(buf, CallsignField::Destination, true) {
            Ok(()) => {},
            Err(e) => {
                return Err(e);
            },
        }
        let has_more = self.has_callsign_hop();
        match self.from.encode_ax25(buf, CallsignField::Source, has_more) {
            Ok(()) => {},
            Err(e) => {
                buf.truncate(start);
                assert(buf@ =~= old(buf)@);
                return Err(e);
            },
        }
        match self.write_ax25_path(buf) {
            Ok(()) => {},
            Err(e) => {
                buf.truncate(start);
                assert(buf@ =~= old(buf)@);
                return Err(e);
            },
        }
        buf.push(3);
        buf.push(240);
        match self.data.encode(buf) {
            Ok(()) => {},
            Err(e) => {
                buf.truncate(start);
                assert(buf@ =~= old(buf)@);
                return Err(e);
            },
        }
        assert(buf@ =~= old(buf)@ + ax25_packet(self@)->Ok_0);
        Ok(())
    }

    /// Whether a hop of the path is a callsign.
    fn has_callsign_hop(&self) -> (r: bool)
        ensures
            r == (callsign_hops(self@.via).len() > 0),
    {
        let ghost hops = via_views(self.via@);
        let mut k: usize = 0;
        assert(hops.subrange(0, 0) =~= Seq::<ViaView>::empty());
        while k < self.via.len()
            invariant
                k <= self.via.len(),
                hops == via_views(self.via@),
                callsign_hops(hops.subrange(0, k as int)).len() == 0,
            decreases self.via.len() - k,
        {
            proof {
                assert(hops.subrange(0, k + 1).drop_last() =~= hops.subrange(0, k as int));
                assert(hops.subrange(0, k + 1).last() == hops[k as int]);
                assert(hops[k as int] == self.via@[k as int]@);
            }
            match &self.via[k] {
                Via::Callsign(_, _) => {
                    proof {
                        assert(callsign_hops(hops.subrange(0, k + 1)).len() >= 1);
                        lemma_callsign_hops_grow(hops, k + 1, hops.len() as int);
                        assert(hops.subrange(0, hops.len() as int) =~= hops);
                    }
                    return true;
                },
                Via::QConstruct(_) => {},
            }
            k += 1;
        }
        assert(hops.subrange(0, k as int) =~= hops);
        false
    }
}

/// A longer part of a path holds no fewer callsigns.
proof fn lemma_callsign_hops_grow(hops: Seq<ViaView>, a: int, b: int)
    requires
        0 <= a <= b <= hops.len(),
    ensures
        callsign_hops(hops.subrange(0, a)).len() <= callsign_hops(hops.subrange(0, b)).len(),
    decreases b - a,
{
    if a < b {
        lemma_callsign_hops_grow(hops, a, b - 1);
        assert(hops.subrange(0, b).drop_last() =~= hops.subrange(0, b - 1));
    }
}

/// The digipeaters of a frame with `front` put before them.
pub open spec fn prepend_path(front: Seq<ViaView>, r: Result<(Seq<ViaView>, int), DecodeErrorView>)
    -> Result<(Seq<ViaView>, int), DecodeErrorView> {
    match r {
        Ok((rest, end)) => Ok((front + rest, end)),
        Err(e) => Err(e),
    }
}

/// Putting nothing before digipeaters leaves them as they are.
proof fn lemma_prepend_path_empty(r: Result<(Seq<ViaView>, int), DecodeErrorView>)
    ensures
        prepend_path(Seq::<ViaView>::empty(), r) == r,
{
    match r {
        Ok((rest, end)) => {
            assert(Seq::<ViaView>::empty() + rest =~= rest);
        },
        Err(_) => {},
    }
}

/// Putting digipeaters before others one by one is putting them before them
/// at once.
proof fn lemma_prepend_path_push(
    front: Seq<ViaView>,
    v: ViaView,
    r: Result<(Seq<ViaView>, int), DecodeErrorView>,
)
    ensures
        prepend_path(front, prepend_path(seq![v], r)) == prepend_path(front.push(v), r),
{
    match r {
        Ok((rest, end)) => {
            assert(front + (seq![v] + rest) =~= front.push(v) + rest);
        },
        Err(_) => {},
    }
}

/// Bytes with `front` put before them.
pub open spec fn prepend_bytes(front: Seq<u8>, r: Result<Seq<u8>, EncodeErrorView>) -> Result<
    Seq<u8>,
    EncodeErrorView,
> {
    match r {
        Ok(rest) => Ok(front + rest),
        Err(e) => Err(e),
    }
}

/// Putting bytes before others in two steps is putting them before them at
/// once.
proof fn lemma_prepend_bytes_step(
    front: Seq<u8>,
    field: Seq<u8>,
    r: Result<Seq<u8>, EncodeErrorView>,
)
    ensures
        prepend_bytes(front, prepend_bytes(field, r)) == prepend_bytes(front + field, r),
{
    match r {
        Ok(rest) => {
            assert(front + (field + rest) =~= (front + field) + rest);
        },
        Err(_) => {},
    }
}

} // verus!
