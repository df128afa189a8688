//! Packets as they are read: written and read again, they are the same
//! packets.

use vstd::prelude::*;

use crate::callsign::{
    ax25_bytes, ax25_encodable, decode_ax25_spec, decode_textual_spec, display_bytes,
    CallsignField, CallsignView,
};
use crate::error::{DecodeErrorView, EncodeErrorView};
use crate::item::{item_bytes, AprsItemView};
use crate::message::{message_bytes, AprsMessageView};
use crate::mic_e::{mic_e_bytes, mic_e_destination, AprsMicEView};
use crate::object::{object_bytes, AprsObjectView};
use crate::position::{aprs_position_bytes, AprsPositionView};
use crate::status::{status_bytes, AprsStatusView};
use crate::utils::first_index;
use crate::via::{decode_via, via_bytes, ViaView};
use crate::packet::{AprsDataView, AprsPacketView, data_bytes, decode_data, decode_path, decode_textual_packet, destination, heard_from, is_heard, last_heard_only, lemma_heard_from_holds, path_bytes, propagate_heard, stored_destination, textual_packet};
use crate::round_trip::{at_most_one_heard, canonical_data, canonical_hop, canonical_path, canonical_textual, lemma_heard_from_propagated, lemma_path_bytes_shift, lemma_textual_decoded};

verus! {

/// Whether data is as `decode` gives it.
pub open spec fn decoded_data(d: AprsDataView) -> bool {
    match d {
        AprsDataView::Position(p) => crate::position::decoded_aprs_position(p),
        AprsDataView::Message(m) => crate::message::decoded_message(m),
        AprsDataView::Status(s) => crate::status::decoded_status(s),
        AprsDataView::Object(o) => crate::object::decoded_object(o),
        AprsDataView::Item(i) => crate::item::decoded_item(i),
        AprsDataView::MicE(m) => crate::mic_e::decoded_mic_e(m),
        AprsDataView::Unknown(_) => true,
    }
}

/// Whether the symbols that data holds are ASCII. A symbol beyond ASCII is
/// written as more than one byte, of which only the first is read back.
pub open spec fn ascii_data(d: AprsDataView) -> bool {
    match d {
        AprsDataView::Position(p) => crate::position::ascii_symbols(p.position),
        AprsDataView::Object(o) => crate::position::ascii_symbols(o.position),
        AprsDataView::Item(i) => crate::position::ascii_symbols(i.position),
        AprsDataView::MicE(m) => crate::mic_e::ascii_symbols(m),
        _ => true,
    }
}

/// What `decode` gives is as `decoded_data` says, and holds the destination
/// that was given, if it holds one.
pub proof fn lemma_decoded_data(s: Seq<u8>, to: CallsignView)
    requires
        decode_data(s, to) is Ok,
    ensures
        decoded_data(decode_data(s, to)->Ok_0),
        stored_destination(decode_data(s, to)->Ok_0) matches Some(x) ==> x == to,
{
    let first = if s.len() > 0 {
        s[0]
    } else {
        0u8
    };
    let rest = if s.len() > 0 {
        s.subrange(1, s.len() as int)
    } else {
        s
    };
    if first == 58 {
        crate::message::lemma_decoded_message(rest, to);
    } else if first == 33 || first == 47 || first == 61 || first == 64 {
        crate::position::lemma_decoded_aprs_position(s, to);
    } else if first == 62 {
        crate::status::lemma_decoded_status(rest, to);
    } else if first == 59 {
        crate::object::lemma_decoded_object(rest, to);
    } else if first == 41 {
        crate::item::lemma_decoded_item(rest, to);
    } else if first == 28 || first == 96 {
        crate::mic_e::lemma_decoded_mic_e(rest, to, true);
    } else if first == 29 || first == 39 {
        crate::mic_e::lemma_decoded_mic_e(rest, to, false);
    }
}

/// The law of `lemma_data_decodes` for a position report.
proof fn lemma_data_decodes_position(p: AprsPositionView)
    requires
        crate::position::decoded_aprs_position(p),
        crate::position::ascii_symbols(p.position),
        aprs_position_bytes(p) is Ok,
    ensures
        canonical_data(aprs_position_bytes(p)->Ok_0, p.to),
        decode_data(aprs_position_bytes(p)->Ok_0, p.to) == Ok::<AprsDataView, DecodeErrorView>(
            AprsDataView::Position(p),
        ),
{
    crate::position::lemma_aprs_position_decodes(p);
}

/// The law of `lemma_data_decodes` for a message.
proof fn lemma_data_decodes_message(m: AprsMessageView)
    requires
        crate::message::decoded_message(m),
    ensures
        message_bytes(m) is Ok,
        canonical_data(message_bytes(m)->Ok_0, m.to),
        decode_data(message_bytes(m)->Ok_0, m.to) == Ok::<AprsDataView, DecodeErrorView>(
            AprsDataView::Message(m),
        ),
{
    crate::message::lemma_message_decodes(m);
}

/// The law of `lemma_data_decodes` for a status report.
proof fn lemma_data_decodes_status(s: AprsStatusView)
    requires
        crate::status::decoded_status(s),
    ensures
        canonical_data(status_bytes(s), s.to),
        decode_data(status_bytes(s), s.to) == Ok::<AprsDataView, DecodeErrorView>(
            AprsDataView::Status(s),
        ),
{
    crate::status::lemma_status_decodes(s);
}

/// The law of `lemma_data_decodes` for an object report.
proof fn lemma_data_decodes_object(o: AprsObjectView)
    requires
        crate::object::decoded_object(o),
        crate::position::ascii_symbols(o.position),
        object_bytes(o) is Ok,
    ensures
        canonical_data(object_bytes(o)->Ok_0, o.to),
        decode_data(object_bytes(o)->Ok_0, o.to) == Ok::<AprsDataView, DecodeErrorView>(
            AprsDataView::Object(o),
        ),
{
    crate::object::lemma_object_decodes(o);
}

/// The law of `lemma_data_decodes` for an item report.
proof fn lemma_data_decodes_item(i: AprsItemView)
    requires
        crate::item::decoded_item(i),
        crate::position::ascii_symbols(i.position),
        item_bytes(i) is Ok,
    ensures
        canonical_data(item_bytes(i)->Ok_0, i.to),
        decode_data(item_bytes(i)->Ok_0, i.to) == Ok::<AprsDataView, DecodeErrorView>(
            AprsDataView::Item(i),
        ),
{
    crate::item::lemma_item_decodes(i);
}

/// The law of `lemma_data_decodes` for a Mic-E report.
proof fn lemma_data_decodes_mic_e(m: AprsMicEView)
    requires
        crate::mic_e::decoded_mic_e(m),
        crate::mic_e::ascii_symbols(m),
        mic_e_bytes(m) is Ok,
    ensures
        canonical_data(mic_e_bytes(m)->Ok_0, CallsignView { call: mic_e_destination(m), ssid: None }),
        decode_data(mic_e_bytes(m)->Ok_0, CallsignView { call: mic_e_destination(m), ssid: None })
            == Ok::<AprsDataView, DecodeErrorView>(AprsDataView::MicE(m)),
{
    crate::mic_e::lemma_mic_e_decodes(m);
}

/// Data as `decode` gives it, with ASCII symbols, is written in the written
/// form, and what is written reads back, with the destination that the data
/// goes out with, as the data.
pub proof fn lemma_data_decodes(d: AprsDataView)
    requires
        decoded_data(d),
        ascii_data(d),
        data_bytes(d) is Ok,
    ensures
        canonical_data(data_bytes(d)->Ok_0, destination(d)),
        decode_data(data_bytes(d)->Ok_0, destination(d)) == Ok::<AprsDataView, DecodeErrorView>(d),
{
    match d {
        AprsDataView::Position(p) => lemma_data_decodes_position(p),
        AprsDataView::Message(m) => lemma_data_decodes_message(m),
        AprsDataView::Status(s) => lemma_data_decodes_status(s),
        AprsDataView::Object(o) => lemma_data_decodes_object(o),
        AprsDataView::Item(i) => lemma_data_decodes_item(i),
        AprsDataView::MicE(m) => lemma_data_decodes_mic_e(m),
        AprsDataView::Unknown(_) => {},
    }
}

/// Whether a hop is as a path in text gives it: a q-construct, or a
/// callsign as `decode_textual` gives it, without comma and colon.
pub open spec fn decoded_hop(v: ViaView) -> bool {
    match v {
        ViaView::Callsign(c, _) => crate::callsign::decoded_callsign(c) && crate::utils::no_byte(
            crate::callsign::full_text(c),
            44,
        ) && crate::utils::no_byte(crate::callsign::full_text(c), 58),
        ViaView::QConstruct(_) => true,
    }
}

/// Whether a hop is written in full and read back as itself: a callsign is
/// written whole, and its text is not that of a q-construct.
pub open spec fn plain_hop(v: ViaView) -> bool {
    match v {
        ViaView::Callsign(c, _) => crate::callsign::written_whole(c) && crate::via::decode_q(
            display_bytes(c),
        ).is_none(),
        ViaView::QConstruct(_) => true,
    }
}

/// A part of bytes without `b` holds no `b`.
proof fn lemma_no_byte_part(s: Seq<u8>, from: int, to: int, b: u8)
    requires
        0 <= from <= to <= s.len(),
        crate::utils::no_byte(s, b),
    ensures
        crate::utils::no_byte(s.subrange(from, to), b),
{
    let t = s.subrange(from, to);
    assert forall|i: int| 0 <= i < t.len() implies #[trigger] t[i] != b by {
        assert(t[i] == s[i + from]);
    }
}

/// The text of a callsign that was read from bytes without `b` holds no
/// `b`.
proof fn lemma_full_text_no_byte(text: Seq<u8>, b: u8)
    requires
        decode_textual_spec(text).is_some(),
        crate::utils::no_byte(text, b),
    ensures
        crate::utils::no_byte(crate::callsign::full_text(decode_textual_spec(text).unwrap().0), b),
{
    crate::callsign::lemma_decoded_callsign(text);
    let (c, heard) = decode_textual_spec(text).unwrap();
    let f = crate::callsign::full_text(c);
    assert forall|i: int| 0 <= i < f.len() implies #[trigger] f[i] != b by {
        assert(f[i] == text[i]);
    }
}

/// A hop that is read from bytes without comma and colon is as
/// `decoded_hop` says.
proof fn lemma_decoded_via(b: Seq<u8>)
    requires
        decode_via(b).is_some(),
        crate::utils::no_byte(b, 44),
        crate::utils::no_byte(b, 58),
    ensures
        decoded_hop(decode_via(b).unwrap()),
{
    if crate::via::decode_q(b).is_none() {
        crate::callsign::lemma_decoded_callsign(b);
        lemma_full_text_no_byte(b, 44);
        lemma_full_text_no_byte(b, 58);
    }
}

/// Whether every hop of a path is as `decoded_hop` says.
pub open spec fn decoded_hops(hops: Seq<ViaView>) -> bool {
    forall|k: int| 0 <= k < hops.len() ==> decoded_hop(#[trigger] hops[k])
}

/// Whether every hop of a path is as `plain_hop` says.
pub open spec fn plain_hops(hops: Seq<ViaView>) -> bool {
    forall|k: int| 0 <= k < hops.len() ==> plain_hop(#[trigger] hops[k])
}

/// The hops that are read from a path without colon are as `decoded_hop`
/// says.
#[verifier::rlimit(30)]
proof fn lemma_decoded_path(s: Seq<u8>)
    requires
        decode_path(s) is Ok,
        crate::utils::no_byte(s, 58),
    ensures
        decoded_hops(decode_path(s)->Ok_0),
        decode_path(s)->Ok_0.len() > 0,
    decreases s.len(),
{
    let i = first_index(s, 44);
    crate::utils::lemma_first_index_bounds(s, 44);
    let hops = decode_path(s)->Ok_0;
    if i >= s.len() {
        lemma_decoded_via(s);
    } else {
        let head = s.subrange(0, i);
        let tail = s.subrange(i + 1, s.len() as int);
        lemma_no_byte_part(s, 0, i, 58);
        lemma_no_byte_part(s, i + 1, s.len() as int, 58);
        assert(crate::utils::no_byte(head, 44)) by {
            assert forall|j: int| 0 <= j < head.len() implies #[trigger] head[j] != 44 by {
                assert(head[j] == s[j]);
            }
        }
        lemma_decoded_via(head);
        lemma_decoded_path(tail);
        let v = decode_via(head).unwrap();
        let rest = decode_path(tail)->Ok_0;
        assert(hops == seq![v] + rest);
        assert forall|k: int| 0 <= k < hops.len() implies decoded_hop(#[trigger] hops[k]) by {
            if k > 0 {
                assert(hops[k] == rest[k - 1]);
            }
        }
    }
}

/// A hop that is as `decode` gives it and plain is written without comma
/// and colon, in the written form, and what is written reads back as the
/// hop.
#[verifier::rlimit(30)]
proof fn lemma_via_decodes(v: ViaView)
    requires
        decoded_hop(v),
        plain_hop(v),
    ensures
        decode_via(via_bytes(v)) == Some(v),
        canonical_hop(via_bytes(v)),
        crate::utils::no_byte(via_bytes(v), 44),
        crate::utils::no_byte(via_bytes(v), 58),
        via_bytes(v).len() > 0 || v is Callsign,
{
    match v {
        ViaView::QConstruct(q) => {
            crate::via::lemma_q_round_trip(q);
        },
        ViaView::Callsign(c, heard) => {
            crate::callsign::lemma_callsign_decodes(c, heard);
            let d = display_bytes(c);
            let t = via_bytes(v);
            if heard {
                assert(t == d + seq![42u8]);
                assert(crate::via::decode_q(t).is_none()) by {
                    if t.len() == 3 {
                        assert(t[2] == 42);
                    }
                }
                assert forall|i: int| 0 <= i < t.len() implies #[trigger] t[i] != 44 && t[i]
                    != 58 by {
                    if i < d.len() {
                        assert(t[i] == d[i]);
                    }
                }
            }
        },
    }
}

/// The text of a path is a comma, its first hop, and the text of the rest.
proof fn lemma_path_bytes_cons(hops: Seq<ViaView>)
    requires
        hops.len() > 0,
    ensures
        path_bytes(hops, 0) == seq![44u8] + via_bytes(hops[0]) + path_bytes(hops.drop_first(), 0),
{
    let rest = hops.drop_first();
    assert(seq![hops[0]] + rest =~= hops);
    lemma_path_bytes_shift(hops[0], rest, 0);
}

/// The text of a path holds no colon if the text of no hop does, and begins
/// with a comma if the path is not empty.
proof fn lemma_path_bytes_no_colon(hops: Seq<ViaView>)
    requires
        forall|k: int| 0 <= k < hops.len() ==> crate::utils::no_byte(via_bytes(#[trigger] hops[k]), 58),
    ensures
        crate::utils::no_byte(path_bytes(hops, 0), 58),
        hops.len() > 0 ==> path_bytes(hops, 0).len() > 0 && path_bytes(hops, 0)[0] == 44,
        hops.len() == 0 ==> path_bytes(hops, 0).len() == 0,
    decreases hops.len(),
{
    if hops.len() > 0 {
        let rest = hops.drop_first();
        assert forall|k: int| 0 <= k < rest.len() implies crate::utils::no_byte(
            via_bytes(#[trigger] rest[k]),
            58,
        ) by {
            assert(rest[k] == hops[k + 1]);
        }
        lemma_path_bytes_no_colon(rest);
        lemma_path_bytes_cons(hops);
        let a = via_bytes(hops[0]);
        let r = path_bytes(rest, 0);
        let all = seq![44u8] + a + r;
        assert forall|i: int| 0 <= i < all.len() implies #[trigger] all[i] != 58 by {
            if i == 0 {
            } else if i < 1 + a.len() {
                assert(all[i] == a[i - 1]);
            } else {
                assert(all[i] == r[i - 1 - a.len()]);
            }
        }
    }
}

/// A path of hops that are as `decode` gives them and plain is written in
/// the written form, and what is written behind the first comma reads back
/// as the path.
#[verifier::rlimit(30)]
proof fn lemma_path_decodes(hops: Seq<ViaView>)
    requires
        hops.len() > 0,
        decoded_hops(hops),
        plain_hops(hops),
    ensures
        path_bytes(hops, 0).len() > 0,
        path_bytes(hops, 0)[0] == 44,
        ({
            let text = path_bytes(hops, 0).subrange(1, path_bytes(hops, 0).len() as int);
            &&& canonical_path(text)
            &&& decode_path(text) == Ok::<Seq<ViaView>, DecodeErrorView>(hops)
        }),
    decreases hops.len(),
{
    let v = hops[0];
    let rest = hops.drop_first();
    let a = via_bytes(v);
    lemma_via_decodes(v);
    lemma_path_bytes_cons(hops);
    let r = path_bytes(rest, 0);
    let all = path_bytes(hops, 0);
    assert(all == seq![44u8] + a + r);
    let text = all.subrange(1, all.len() as int);
    assert(text =~= a + r);
    if rest.len() == 0 {
        assert(r =~= Seq::<u8>::empty());
        assert(text =~= a);
        crate::utils::lemma_no_byte(a, 44);
        assert(hops =~= seq![v]);
    } else {
        assert(decoded_hops(rest) && plain_hops(rest)) by {
            assert forall|k: int| 0 <= k < rest.len() implies decoded_hop(#[trigger] rest[k])
                && plain_hop(rest[k]) by {
                assert(rest[k] == hops[k + 1]);
            }
        }
        lemma_path_decodes(rest);
        crate::utils::lemma_first_index_after(a, r, 44);
        assert(first_index(r, 44) == 0);
        assert(first_index(text, 44) == a.len());
        assert(text.subrange(0, a.len() as int) =~= a);
        assert(text.subrange(a.len() as int + 1, text.len() as int) =~= r.subrange(
            1,
            r.len() as int,
        ));
        assert(seq![v] + rest =~= hops);
    }
}

/// From where on a hop is heard is the same when only the last heard flag
/// is kept.
proof fn lemma_heard_from_last(hops: Seq<ViaView>, k: int)
    requires
        0 <= k,
    ensures
        heard_from(last_heard_only(hops), k) == heard_from(hops, k),
    decreases hops.len() - k,
{
    if k < hops.len() {
        lemma_heard_from_last(hops, k + 1);
    }
}

/// A path in which the heard flags reach back is, after only the last flag
/// was kept and the flags were carried back, the same path.
pub proof fn lemma_propagate_last(hops: Seq<ViaView>)
    requires
        propagate_heard(hops) == hops,
    ensures
        propagate_heard(last_heard_only(hops)) == hops,
        at_most_one_heard(last_heard_only(hops)),
{
    let l = last_heard_only(hops);
    let p = propagate_heard(l);
    assert forall|k: int| 0 <= k < hops.len() implies p[k] == hops[k] by {
        lemma_heard_from_last(hops, k);
        assert(propagate_heard(hops)[k] == hops[k]);
    }
    assert(p =~= hops);
    assert forall|i: int, j: int| 0 <= i < j < l.len() implies !(is_heard(#[trigger] l[i])
        && is_heard(#[trigger] l[j])) by {
        if is_heard(l[i]) && is_heard(l[j]) {
            assert(is_heard(hops[j]));
            lemma_heard_from_holds(hops, i + 1, j);
        }
    }
}

/// Carrying the heard flags back twice is carrying them back once.
pub proof fn lemma_propagate_idempotent(hops: Seq<ViaView>)
    ensures
        propagate_heard(propagate_heard(hops)) == propagate_heard(hops),
{
    let p = propagate_heard(hops);
    assert forall|k: int| 0 <= k < hops.len() implies propagate_heard(p)[k] == p[k] by {
        lemma_heard_from_propagated(hops, k);
    }
    assert(propagate_heard(p) =~= p);
}

/// Whether a packet is as `decode_textual` gives it.
///
/// Sender, destination and hops are as they are read from a header: without
/// the bytes that end them. The heard flags reach back. The data is as
/// `decode` gives it.
pub open spec fn decoded_packet(p: AprsPacketView) -> bool {
    &&& crate::callsign::decoded_callsign(p.from)
    &&& crate::utils::no_byte(crate::callsign::full_text(p.from), 58)
    &&& crate::utils::no_byte(crate::callsign::full_text(p.from), 62)
    &&& decoded_hops(p.via)
    &&& propagate_heard(p.via) == p.via
    &&& decoded_data(p.data)
    &&& stored_destination(p.data) matches Some(to) ==> crate::callsign::decoded_callsign(to)
        && crate::utils::no_byte(crate::callsign::full_text(to), 44) && crate::utils::no_byte(
        crate::callsign::full_text(to),
        58,
    )
}

/// Whether a packet is written in full and read back as itself: sender and
/// destination are written whole, the hops are plain, and the symbols are
/// ASCII.
pub open spec fn plain_packet(p: AprsPacketView) -> bool {
    &&& crate::callsign::written_whole(p.from)
    &&& crate::callsign::written_whole(destination(p.data))
    &&& plain_hops(p.via)
    &&& ascii_data(p.data)
}

/// Bytes before the first `b` hold no `b`.
proof fn lemma_before_first(s: Seq<u8>, b: u8)
    ensures
        crate::utils::no_byte(s.subrange(0, first_index(s, b)), b),
{
    crate::utils::lemma_first_index_bounds(s, b);
    let t = s.subrange(0, first_index(s, b));
    assert forall|i: int| 0 <= i < t.len() implies #[trigger] t[i] != b by {
        assert(t[i] == s[i]);
    }
}

/// What `decode_textual` gives is as `decoded_packet` says.
#[verifier::rlimit(30)]
pub proof fn lemma_decoded_packet(s: Seq<u8>)
    requires
        decode_textual_packet(s) is Ok,
    ensures
        decoded_packet(decode_textual_packet(s)->Ok_0),
{
    let p = decode_textual_packet(s)->Ok_0;
    lemma_textual_decoded(s);
    let i = first_index(s, 58);
    crate::utils::lemma_first_index_bounds(s, 58);
    let header = s.subrange(0, i);
    lemma_before_first(s, 58);
    let j = first_index(header, 62);
    crate::utils::lemma_first_index_bounds(header, 62);
    let from = header.subrange(0, j);
    lemma_before_first(header, 62);
    lemma_no_byte_part(header, 0, j, 58);
    lemma_full_text_no_byte(from, 58);
    lemma_full_text_no_byte(from, 62);
    crate::callsign::lemma_decoded_callsign(from);
    let to_and_via = header.subrange(j + 1, header.len() as int);
    lemma_no_byte_part(header, j + 1, header.len() as int, 58);
    let k = first_index(to_and_via, 44);
    crate::utils::lemma_first_index_bounds(to_and_via, 44);
    let to = to_and_via.subrange(0, k);
    lemma_before_first(to_and_via, 44);
    lemma_no_byte_part(to_and_via, 0, k, 58);
    lemma_full_text_no_byte(to, 44);
    lemma_full_text_no_byte(to, 58);
    crate::callsign::lemma_decoded_callsign(to);
    let to_call = decode_textual_spec(to).unwrap().0;
    lemma_decoded_data(s.subrange(i + 1, s.len() as int), to_call);
    if k < to_and_via.len() {
        let path = to_and_via.subrange(k + 1, to_and_via.len() as int);
        lemma_no_byte_part(to_and_via, k + 1, to_and_via.len() as int, 58);
        lemma_decoded_path(path);
        let hops = decode_path(path)->Ok_0;
        lemma_propagate_idempotent(hops);
        assert forall|n: int| 0 <= n < p.via.len() implies decoded_hop(#[trigger] p.via[n]) by {
            assert(decoded_hop(hops[n]));
        }
    } else {
        assert(p.via =~= Seq::<ViaView>::empty());
        assert(propagate_heard(p.via) =~= p.via);
    }
}

/// Where the parts of a line of text are found in it.
#[verifier::rlimit(30)]
proof fn lemma_header_split(f: Seq<u8>, t: Seq<u8>, p: Seq<u8>, info: Seq<u8>)
    requires
        crate::utils::no_byte(f, 58),
        crate::utils::no_byte(f, 62),
        crate::utils::no_byte(t, 58),
        crate::utils::no_byte(t, 44),
        crate::utils::no_byte(p, 58),
        p.len() > 0 ==> p[0] == 44,
    ensures
        ({
            let s = f + seq![62u8] + t + p + seq![58u8] + info;
            let i = first_index(s, 58);
            let header = s.subrange(0, i);
            let j = first_index(header, 62);
            let to_and_via = header.subrange(j + 1, header.len() as int);
            let k = first_index(to_and_via, 44);
            &&& i == f.len() + 1 + t.len() + p.len()
            &&& i < s.len()
            &&& j == f.len()
            &&& j < header.len()
            &&& header.subrange(0, j) == f
            &&& k == t.len()
            &&& to_and_via.subrange(0, k) == t
            &&& s.subrange(i + 1, s.len() as int) == info
            &&& (p.len() > 0 ==> k < to_and_via.len() && to_and_via.subrange(
                k + 1,
                to_and_via.len() as int,
            ) == p.subrange(1, p.len() as int))
            &&& (p.len() == 0 ==> k == to_and_via.len())
        }),
{
    let s = f + seq![62u8] + t + p + seq![58u8] + info;
    let header = f + seq![62u8] + t + p;
    assert(crate::utils::no_byte(header, 58)) by {
        assert forall|n: int| 0 <= n < header.len() implies #[trigger] header[n] != 58 by {
            if n < f.len() {
                assert(header[n] == f[n]);
            } else if n == f.len() {
            } else if n < f.len() + 1 + t.len() {
                assert(header[n] == t[n - f.len() - 1]);
            } else {
                assert(header[n] == p[n - f.len() - 1 - t.len()]);
            }
        }
    }
    assert(s =~= header + (seq![58u8] + info));
    crate::utils::lemma_first_index_after(header, seq![58u8] + info, 58);
    assert(first_index(seq![58u8] + info, 58) == 0);
    let i = first_index(s, 58);
    assert(i == header.len());
    assert(s.subrange(0, i) =~= header);
    assert(s.subrange(i + 1, s.len() as int) =~= info);
    assert(header =~= f + (seq![62u8] + t + p));
    crate::utils::lemma_first_index_after(f, seq![62u8] + t + p, 62);
    assert(first_index(seq![62u8] + t + p, 62) == 0);
    let j = first_index(header, 62);
    assert(j == f.len());
    assert(header.subrange(0, j) =~= f);
    let to_and_via = header.subrange(j + 1, header.len() as int);
    assert(to_and_via =~= t + p);
    crate::utils::lemma_first_index_after(t, p, 44);
    crate::utils::lemma_first_index_bounds(p, 44);
    if p.len() > 0 {
        assert(first_index(p, 44) == 0);
        assert(to_and_via.subrange(t.len() as int + 1, to_and_via.len() as int) =~= p.subrange(
            1,
            p.len() as int,
        ));
    } else {
        assert(first_index(p, 44) == 0);
    }
    assert(to_and_via.subrange(0, t.len() as int) =~= t);
}

/// The destination that data goes out with is a callsign as
/// `decode_textual` gives it, without comma and colon.
proof fn lemma_destination_decoded(p: AprsPacketView)
    requires
        decoded_packet(p),
    ensures
        crate::callsign::decoded_callsign(destination(p.data)),
        crate::utils::no_byte(crate::callsign::full_text(destination(p.data)), 44),
        crate::utils::no_byte(crate::callsign::full_text(destination(p.data)), 58),
{
    match p.data {
        AprsDataView::MicE(m) => {
            crate::mic_e::lemma_destination_ascii(m);
            let d = mic_e_destination(m);
            crate::callsign::lemma_ascii_is_utf8(d);
            assert(crate::callsign::full_text(destination(p.data)) == d);
            assert forall|i: int| 0 <= i < d.len() implies #[trigger] d[i] != 44 && d[i] != 45
                && d[i] != 58 by {
                assert(48 <= d[i] <= 57 || 65 <= d[i] <= 90);
            }
        },
        _ => {},
    }
}

/// The hops of a path with only the last heard flag kept are as the hops of
/// the path are.
proof fn lemma_last_heard_hops(hops: Seq<ViaView>)
    requires
        decoded_hops(hops),
        plain_hops(hops),
    ensures
        decoded_hops(last_heard_only(hops)),
        plain_hops(last_heard_only(hops)),
        forall|k: int|
            0 <= k < hops.len() ==> crate::utils::no_byte(
                via_bytes(#[trigger] last_heard_only(hops)[k]),
                58,
            ),
{
    let l = last_heard_only(hops);
    assert forall|k: int| 0 <= k < hops.len() implies decoded_hop(#[trigger] l[k]) && plain_hop(
        l[k],
    ) && crate::utils::no_byte(via_bytes(l[k]), 58) by {
        assert(decoded_hop(hops[k]) && plain_hop(hops[k]));
        lemma_via_decodes(l[k]);
    }
}

/// A packet as `decode_textual` gives it that is plain and can be written
/// is written in the written form, and what is written reads back as the
/// packet.
#[verifier::rlimit(30)]
pub proof fn lemma_textual_decodes(p: AprsPacketView)
    requires
        decoded_packet(p),
        plain_packet(p),
        textual_packet(p) is Ok,
    ensures
        canonical_textual(textual_packet(p)->Ok_0),
        decode_textual_packet(textual_packet(p)->Ok_0) == Ok::<AprsPacketView, DecodeErrorView>(p),
{
    let s = textual_packet(p)->Ok_0;
    let to = destination(p.data);
    let f = display_bytes(p.from);
    let t = display_bytes(to);
    let w = last_heard_only(p.via);
    let path = path_bytes(w, 0);
    let info = data_bytes(p.data)->Ok_0;
    lemma_destination_decoded(p);
    crate::callsign::lemma_callsign_decodes(p.from, false);
    crate::callsign::lemma_callsign_decodes(to, false);
    lemma_last_heard_hops(p.via);
    lemma_path_bytes_no_colon(w);
    lemma_header_split(f, t, path, info);
    lemma_data_decodes(p.data);
    lemma_propagate_last(p.via);
    if w.len() > 0 {
        lemma_path_decodes(w);
    } else {
        assert(p.via =~= Seq::<ViaView>::empty());
    }
    assert(s == f + seq![62u8] + t + path + seq![58u8] + info);
    lemma_textual_read(s, p, f, t, path, info);
}

/// What a line of text reads as, of which the parts read as the parts of a
/// packet.
#[verifier::rlimit(30)]
proof fn lemma_textual_read(
    s: Seq<u8>,
    p: AprsPacketView,
    f: Seq<u8>,
    t: Seq<u8>,
    path: Seq<u8>,
    info: Seq<u8>,
)
    requires
        ({
            let i = first_index(s, 58);
            let header = s.subrange(0, i);
            let j = first_index(header, 62);
            let to_and_via = header.subrange(j + 1, header.len() as int);
            let k = first_index(to_and_via, 44);
            &&& i < s.len()
            &&& j < header.len()
            &&& header.subrange(0, j) == f
            &&& to_and_via.subrange(0, k) == t
            &&& s.subrange(i + 1, s.len() as int) == info
            &&& (path.len() > 0 ==> k < to_and_via.len() && to_and_via.subrange(
                k + 1,
                to_and_via.len() as int,
            ) == path.subrange(1, path.len() as int))
            &&& (path.len() == 0 ==> k == to_and_via.len())
        }),
        decode_textual_spec(f) == Some((p.from, false)),
        decode_textual_spec(t) == Some((destination(p.data), false)),
        p.from.ssid matches Some(x) ==> x != seq![48u8],
        destination(p.data).ssid matches Some(x) ==> x != seq![48u8],
        canonical_data(info, destination(p.data)),
        decode_data(info, destination(p.data)) == Ok::<AprsDataView, DecodeErrorView>(p.data),
        path.len() == 0 ==> p.via.len() == 0,
        path.len() > 0 ==> {
            let text = path.subrange(1, path.len() as int);
            &&& canonical_path(text)
            &&& decode_path(text) matches Ok(hops) && at_most_one_heard(hops) && propagate_heard(
                hops,
            ) == p.via
        },
    ensures
        canonical_textual(s),
        decode_textual_packet(s) == Ok::<AprsPacketView, DecodeErrorView>(p),
{
    if path.len() == 0 {
        assert(p.via =~= Seq::<ViaView>::empty());
        assert(propagate_heard(Seq::<ViaView>::empty()) =~= Seq::<ViaView>::empty());
    }
}

/// A line of text that is read as a packet which is plain and can be
/// written: what is written reads back as the same packet.
pub proof fn lemma_textual_two_steps(s: Seq<u8>)
    requires
        decode_textual_packet(s) is Ok,
        plain_packet(decode_textual_packet(s)->Ok_0),
        textual_packet(decode_textual_packet(s)->Ok_0) is Ok,
    ensures
        decode_textual_packet(textual_packet(decode_textual_packet(s)->Ok_0)->Ok_0)
            == decode_textual_packet(s),
        canonical_textual(textual_packet(decode_textual_packet(s)->Ok_0)->Ok_0),
{
    lemma_decoded_packet(s);
    lemma_textual_decodes(decode_textual_packet(s)->Ok_0);
}

/// A line of text that is read as a plain packet and written as itself is
/// in the written form: among the lines that are read as plain packets, the
/// written form holds of exactly those that are written as they were read.
pub proof fn lemma_written_form_exact(s: Seq<u8>)
    requires
        decode_textual_packet(s) is Ok,
        plain_packet(decode_textual_packet(s)->Ok_0),
        textual_packet(decode_textual_packet(s)->Ok_0) == Ok::<Seq<u8>, EncodeErrorView>(s),
    ensures
        canonical_textual(s),
{
    lemma_decoded_packet(s);
    lemma_textual_decodes(decode_textual_packet(s)->Ok_0);
}

} // verus!
