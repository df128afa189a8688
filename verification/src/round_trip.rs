//! Packets in their written form: read and written again, they are the
//! same bytes.

use vstd::prelude::*;

use crate::callsign::{
    ax25_bytes, ax25_encodable, decode_ax25_spec, decode_textual_spec, display_bytes,
    CallsignField, CallsignView,
};
use crate::error::{DecodeErrorView, EncodeErrorView};
use crate::item::{item_bytes, AprsItemView};
use crate::message::{message_bytes, AprsMessageView};
use crate::mic_e::{mic_e_bytes, mic_e_destination, AprsMicEView};
use crate::object::{object_bytes, AprsObjectView};
use crate::position::{aprs_position_bytes, AprsPositionView};
use crate::status::{status_bytes, AprsStatusView};
use crate::utils::first_index;
use crate::via::{decode_via, via_bytes, ViaView};
use crate::packet::{AprsDataView, AprsPacketView, ax25_packet, ax25_path, callsign_hops, data_bytes, decode_ax25_packet, decode_ax25_path, decode_data, decode_path, decode_textual_packet, destination, heard_from, is_heard, last_heard_only, path_bytes, propagate_heard, textual_packet};

verus! {

/// Whether an information field sent to `to` is as `encode` writes it:
/// the data behind its type byte is in its written form. A Mic-E report has
/// a grave accent or an apostrophe for its type byte. Unknown data is never
/// written.
pub open spec fn canonical_data(s: Seq<u8>, to: CallsignView) -> bool {
    let first = if s.len() > 0 {
        s[0]
    } else {
        0u8
    };
    let rest = if s.len() > 0 {
        s.subrange(1, s.len() as int)
    } else {
        s
    };
    if first == 58 {
        first_index(rest, 58) < rest.len()
    } else if first == 33 || first == 47 || first == 61 || first == 64 {
        crate::position::canonical_aprs_position(s)
    } else if first == 62 {
        crate::status::canonical_status(rest)
    } else if first == 59 {
        crate::object::canonical_object(rest)
    } else if first == 41 {
        crate::object::canonical_body(
            rest.subrange(crate::item::name_end(rest) + 1, rest.len() as int),
        )
    } else if first == 96 || first == 39 {
        crate::mic_e::canonical_mic_e(to, rest)
    } else {
        false
    }
}

/// The law of `lemma_data_round_trip` for one kind of data.
proof fn lemma_data_round_trip_message(s: Seq<u8>, to: CallsignView)
    requires
        s.len() > 0,
        s[0] == 58,
        canonical_data(s, to),
        decode_data(s, to) is Ok,
    ensures
        data_bytes(decode_data(s, to)->Ok_0) == Ok::<Seq<u8>, EncodeErrorView>(s),
        destination(decode_data(s, to)->Ok_0) == to,
{
    let rest = s.subrange(1, s.len() as int);
    assert(seq![s[0]] + rest =~= s);
    crate::message::lemma_message_round_trip(rest, to);
}

/// The law of `lemma_data_round_trip` for one kind of data.
proof fn lemma_data_round_trip_position(s: Seq<u8>, to: CallsignView)
    requires
        s.len() > 0,
        s[0] == 33 || s[0] == 47 || s[0] == 61 || s[0] == 64,
        canonical_data(s, to),
        decode_data(s, to) is Ok,
    ensures
        data_bytes(decode_data(s, to)->Ok_0) == Ok::<Seq<u8>, EncodeErrorView>(s),
        destination(decode_data(s, to)->Ok_0) == to,
{
    let rest = s.subrange(1, s.len() as int);
    assert(seq![s[0]] + rest =~= s);
    crate::position::lemma_aprs_position_round_trip(s, to);
}

/// The law of `lemma_data_round_trip` for one kind of data.
proof fn lemma_data_round_trip_status(s: Seq<u8>, to: CallsignView)
    requires
        s.len() > 0,
        s[0] == 62,
        canonical_data(s, to),
        decode_data(s, to) is Ok,
    ensures
        data_bytes(decode_data(s, to)->Ok_0) == Ok::<Seq<u8>, EncodeErrorView>(s),
        destination(decode_data(s, to)->Ok_0) == to,
{
    let rest = s.subrange(1, s.len() as int);
    assert(seq![s[0]] + rest =~= s);
    crate::status::lemma_status_round_trip(rest, to);
}

/// The law of `lemma_data_round_trip` for one kind of data.
proof fn lemma_data_round_trip_object(s: Seq<u8>, to: CallsignView)
    requires
        s.len() > 0,
        s[0] == 59,
        canonical_data(s, to),
        decode_data(s, to) is Ok,
    ensures
        data_bytes(decode_data(s, to)->Ok_0) == Ok::<Seq<u8>, EncodeErrorView>(s),
        destination(decode_data(s, to)->Ok_0) == to,
{
    let rest = s.subrange(1, s.len() as int);
    assert(seq![s[0]] + rest =~= s);
    crate::object::lemma_object_round_trip(rest, to);
}

/// The law of `lemma_data_round_trip` for one kind of data.
proof fn lemma_data_round_trip_item(s: Seq<u8>, to: CallsignView)
    requires
        s.len() > 0,
        s[0] == 41,
        canonical_data(s, to),
        decode_data(s, to) is Ok,
    ensures
        data_bytes(decode_data(s, to)->Ok_0) == Ok::<Seq<u8>, EncodeErrorView>(s),
        destination(decode_data(s, to)->Ok_0) == to,
{
    let rest = s.subrange(1, s.len() as int);
    assert(seq![s[0]] + rest =~= s);
    crate::item::lemma_item_round_trip(rest, to);
}

/// The law of `lemma_data_round_trip` for one kind of data.
proof fn lemma_data_round_trip_mic_e(s: Seq<u8>, to: CallsignView)
    requires
        s.len() > 0,
        s[0] == 96 || s[0] == 39,
        canonical_data(s, to),
        decode_data(s, to) is Ok,
    ensures
        data_bytes(decode_data(s, to)->Ok_0) == Ok::<Seq<u8>, EncodeErrorView>(s),
        destination(decode_data(s, to)->Ok_0) == to,
{
    let rest = s.subrange(1, s.len() as int);
    assert(seq![s[0]] + rest =~= s);
    crate::mic_e::lemma_mic_e_round_trip(rest, to, s[0] == 96);
}

/// An information field in its written form, read and written again, is the
/// same bytes, and goes out with the destination that it came with.
pub proof fn lemma_data_round_trip(s: Seq<u8>, to: CallsignView)
    requires
        canonical_data(s, to),
        decode_data(s, to) is Ok,
    ensures
        data_bytes(decode_data(s, to)->Ok_0) == Ok::<Seq<u8>, EncodeErrorView>(s),
        destination(decode_data(s, to)->Ok_0) == to,
{
    assert(s.len() > 0);
    let first = s[0];
    if first == 58 {
        lemma_data_round_trip_message(s, to);
    } else if first == 33 || first == 47 || first == 61 || first == 64 {
        lemma_data_round_trip_position(s, to);
    } else if first == 62 {
        lemma_data_round_trip_status(s, to);
    } else if first == 59 {
        lemma_data_round_trip_object(s, to);
    } else if first == 41 {
        lemma_data_round_trip_item(s, to);
    } else {
        lemma_data_round_trip_mic_e(s, to);
    }
}

/// Where `heard_from` holds, a hop from there on is heard.
pub proof fn lemma_heard_from_witness(hops: Seq<ViaView>, k: int) -> (j: int)
    requires
        heard_from(hops, k),
    ensures
        k <= j < hops.len(),
        is_heard(hops[j]),
    decreases hops.len() - k,
{
    if is_heard(hops[k]) {
        k
    } else {
        lemma_heard_from_witness(hops, k + 1)
    }
}

/// Carrying the heard flags back does not change from where on a hop is
/// heard.
pub proof fn lemma_heard_from_propagated(hops: Seq<ViaView>, k: int)
    requires
        0 <= k,
    ensures
        heard_from(propagate_heard(hops), k) == heard_from(hops, k),
    decreases hops.len() - k,
{
    let p = propagate_heard(hops);
    if k < hops.len() {
        lemma_heard_from_propagated(hops, k + 1);
        if is_heard(p[k]) {
            assert(heard_from(hops, k));
        }
        if heard_from(hops, k) && !heard_from(hops, k + 1) {
            assert(is_heard(hops[k]));
            assert(is_heard(p[k]));
        }
    }
}

/// Whether at most one hop of a path is marked as heard.
pub open spec fn at_most_one_heard(hops: Seq<ViaView>) -> bool {
    forall|i: int, j: int|
        0 <= i < j < hops.len() ==> !(is_heard(#[trigger] hops[i]) && is_heard(#[trigger] hops[j]))
}

/// A path that is read and written shows the heard flags that it came
/// with, if at most one hop was marked.
pub proof fn lemma_heard_round_trip(hops: Seq<ViaView>)
    requires
        at_most_one_heard(hops),
    ensures
        last_heard_only(propagate_heard(hops)) == hops,
{
    let p = propagate_heard(hops);
    let q = last_heard_only(p);
    assert forall|k: int| 0 <= k < hops.len() implies q[k] == hops[k] by {
        lemma_heard_from_propagated(hops, k + 1);
        match hops[k] {
            ViaView::Callsign(c, h) => {
                if h {
                    assert(is_heard(hops[k]));
                    if heard_from(hops, k + 1) {
                        let j = lemma_heard_from_witness(hops, k + 1);
                        assert(is_heard(hops[k]) && is_heard(hops[j]));
                    }
                    assert(heard_from(hops, k));
                } else {
                    if heard_from(hops, k) {
                        assert(heard_from(hops, k + 1));
                    }
                }
            },
            ViaView::QConstruct(_) => {},
        }
    }
    assert(q =~= hops);
}

/// The text of a path from a place on is the text of the rest of the path.
pub proof fn lemma_path_bytes_shift(v: ViaView, rest: Seq<ViaView>, k: int)
    requires
        0 <= k,
    ensures
        path_bytes(seq![v] + rest, k + 1) == path_bytes(rest, k),
    decreases rest.len() - k,
{
    let all = seq![v] + rest;
    if k < rest.len() {
        lemma_path_bytes_shift(v, rest, k + 1);
        assert(all[k + 1] == rest[k]);
    }
}

/// Whether what stands between two commas of a path is a hop as
/// `encode_textual` writes it: a q-construct, or a callsign with an SSID
/// that is not `0`.
pub open spec fn canonical_hop(b: Seq<u8>) -> bool {
    crate::via::decode_q(b).is_some() || (decode_textual_spec(b) matches Some((c, _)) ==> (
    c.ssid matches Some(s) ==> s != seq![48u8]))
}

/// Whether every hop of a path in text is as `encode_textual` writes it.
pub open spec fn canonical_path(s: Seq<u8>) -> bool
    decreases s.len(),
{
    let i = first_index(s, 44);
    if i < 0 || i >= s.len() {
        canonical_hop(s)
    } else {
        canonical_hop(s.subrange(0, i)) && canonical_path(s.subrange(i + 1, s.len() as int))
    }
}

/// A hop in its written form, read and written again, is the same bytes.
proof fn lemma_via_round_trip(b: Seq<u8>)
    requires
        canonical_hop(b),
        decode_via(b).is_some(),
    ensures
        via_bytes(decode_via(b).unwrap()) == b,
{
    if crate::via::decode_q(b).is_some() {
        crate::via::lemma_q_bytes_round_trip(b);
    } else {
        crate::callsign::lemma_hop_round_trip(b);
    }
}

/// A path in its written form, read and written again, is the same bytes
/// behind a comma.
#[verifier::rlimit(30)]
pub proof fn lemma_path_round_trip(s: Seq<u8>)
    requires
        canonical_path(s),
        decode_path(s) is Ok,
    ensures
        path_bytes(decode_path(s)->Ok_0, 0) == seq![44u8] + s,
    decreases s.len(),
{
    let i = first_index(s, 44);
    crate::utils::lemma_first_index_bounds(s, 44);
    if i >= s.len() {
        let v = decode_via(s).unwrap();
        lemma_via_round_trip(s);
        let hops = seq![v];
        assert(path_bytes(hops, 1) =~= Seq::<u8>::empty());
        assert(path_bytes(hops, 0) =~= seq![44u8] + s);
    } else {
        let head = s.subrange(0, i);
        let tail = s.subrange(i + 1, s.len() as int);
        let v = decode_via(head).unwrap();
        lemma_via_round_trip(head);
        lemma_path_round_trip(tail);
        let rest = decode_path(tail)->Ok_0;
        lemma_path_bytes_shift(v, rest, 0);
        let hops = seq![v] + rest;
        assert(hops[0] == v);
        assert(path_bytes(hops, 0) == seq![44u8] + via_bytes(v) + path_bytes(hops, 1));
        assert(head + (seq![44u8] + tail) =~= s);
        assert(path_bytes(hops, 0) =~= seq![44u8] + (head + (seq![44u8] + tail)));
    }
}

/// Whether a line of text is a packet as `encode_textual` writes it.
///
/// Sender and destination are callsigns without `*` behind them and with an
/// SSID that is not `0`; the hops are in their written form, and at most one
/// of them is marked as heard; the information field is in its written
/// form.
pub open spec fn canonical_textual(s: Seq<u8>) -> bool {
    let i = first_index(s, 58);
    let header = s.subrange(0, i);
    let j = first_index(header, 62);
    let from = header.subrange(0, j);
    let to_and_via = header.subrange(j + 1, header.len() as int);
    let k = first_index(to_and_via, 44);
    let to = to_and_via.subrange(0, k);
    let path = to_and_via.subrange(k + 1, to_and_via.len() as int);
    &&& i < s.len()
    &&& j < header.len()
    &&& decode_textual_spec(from) matches Some((c, heard)) && !heard && (c.ssid matches Some(x)
        ==> x != seq![48u8])
    &&& decode_textual_spec(to) matches Some((c, heard)) && !heard && (c.ssid matches Some(x)
        ==> x != seq![48u8]) && canonical_data(s.subrange(i + 1, s.len() as int), c)
    &&& k < to_and_via.len() ==> canonical_path(path) && (decode_path(path) matches Ok(hops)
        ==> at_most_one_heard(hops))
}

/// The parts of a line of text, put together, are the line.
#[verifier::rlimit(30)]
proof fn lemma_textual_parts(s: Seq<u8>)
    requires
        first_index(s, 58) < s.len(),
        first_index(s.subrange(0, first_index(s, 58)), 62) < first_index(s, 58),
    ensures
        ({
            let i = first_index(s, 58);
            let header = s.subrange(0, i);
            let j = first_index(header, 62);
            let to_and_via = header.subrange(j + 1, header.len() as int);
            let k = first_index(to_and_via, 44);
            &&& 0 <= j < i
            &&& 0 <= k <= to_and_via.len()
            &&& header.subrange(0, j) + seq![62u8] + to_and_via.subrange(0, k) + (if k
                < to_and_via.len() {
                seq![44u8] + to_and_via.subrange(k + 1, to_and_via.len() as int)
            } else {
                Seq::<u8>::empty()
            }) + seq![58u8] + s.subrange(i + 1, s.len() as int) == s
        }),
{
    let i = first_index(s, 58);
    crate::utils::lemma_first_index_bounds(s, 58);
    let header = s.subrange(0, i);
    let j = first_index(header, 62);
    crate::utils::lemma_first_index_bounds(header, 62);
    let to_and_via = header.subrange(j + 1, header.len() as int);
    let k = first_index(to_and_via, 44);
    crate::utils::lemma_first_index_bounds(to_and_via, 44);
    let tail = if k < to_and_via.len() {
        seq![44u8] + to_and_via.subrange(k + 1, to_and_via.len() as int)
    } else {
        Seq::<u8>::empty()
    };
    assert(to_and_via.subrange(0, k) + tail =~= to_and_via);
    assert(header.subrange(0, j) + seq![62u8] + to_and_via =~= header);
    assert(header + seq![58u8] + s.subrange(i + 1, s.len() as int) =~= s);
    assert(header.subrange(0, j) + seq![62u8] + to_and_via.subrange(0, k) + tail + seq![58u8]
        + s.subrange(i + 1, s.len() as int) =~= header.subrange(0, j) + seq![62u8] + (
    to_and_via.subrange(0, k) + tail) + seq![58u8] + s.subrange(i + 1, s.len() as int));
}

/// What the path of a line of text, read and written again, is: the same
/// bytes behind a comma, or nothing where there is no path.
proof fn lemma_written_path(to_and_via: Seq<u8>, k: int)
    requires
        0 <= k <= to_and_via.len(),
        k < to_and_via.len() ==> {
            let path = to_and_via.subrange(k + 1, to_and_via.len() as int);
            &&& canonical_path(path)
            &&& decode_path(path) matches Ok(hops) && at_most_one_heard(hops)
        },
    ensures
        ({
            let hops = if k < to_and_via.len() {
                decode_path(to_and_via.subrange(k + 1, to_and_via.len() as int))->Ok_0
            } else {
                Seq::<ViaView>::empty()
            };
            path_bytes(last_heard_only(propagate_heard(hops)), 0) == if k < to_and_via.len() {
                seq![44u8] + to_and_via.subrange(k + 1, to_and_via.len() as int)
            } else {
                Seq::<u8>::empty()
            }
        }),
{
    if k < to_and_via.len() {
        let path = to_and_via.subrange(k + 1, to_and_via.len() as int);
        let hops = decode_path(path)->Ok_0;
        lemma_heard_round_trip(hops);
        lemma_path_round_trip(path);
    } else {
        let hops = Seq::<ViaView>::empty();
        assert(propagate_heard(hops) =~= hops);
        assert(last_heard_only(hops) =~= hops);
    }
}

/// What a line of text is read as, part by part.
#[verifier::rlimit(30)]
pub proof fn lemma_textual_decoded(s: Seq<u8>)
    requires
        decode_textual_packet(s) is Ok,
    ensures
        ({
            let p = decode_textual_packet(s)->Ok_0;
            let i = first_index(s, 58);
            let header = s.subrange(0, i);
            let j = first_index(header, 62);
            let to_and_via = header.subrange(j + 1, header.len() as int);
            let k = first_index(to_and_via, 44);
            let hops = if k < to_and_via.len() {
                decode_path(to_and_via.subrange(k + 1, to_and_via.len() as int))
            } else {
                Ok(Seq::<ViaView>::empty())
            };
            &&& i < s.len()
            &&& j < header.len()
            &&& decode_textual_spec(header.subrange(0, j)) matches Some((from, _)) && p.from
                == from
            &&& hops matches Ok(h) && p.via == propagate_heard(h)
            &&& decode_textual_spec(to_and_via.subrange(0, k)) matches Some((to, _)) && decode_data(
                s.subrange(i + 1, s.len() as int),
                to,
            ) == Ok::<AprsDataView, DecodeErrorView>(p.data)
        }),
{
}

/// What a line of text in its written form holds, part by part.
#[verifier::rlimit(30)]
proof fn lemma_canonical_parts(s: Seq<u8>)
    requires
        canonical_textual(s),
    ensures
        ({
            let i = first_index(s, 58);
            let header = s.subrange(0, i);
            let j = first_index(header, 62);
            let from = header.subrange(0, j);
            let to_and_via = header.subrange(j + 1, header.len() as int);
            let k = first_index(to_and_via, 44);
            let to = to_and_via.subrange(0, k);
            let path = to_and_via.subrange(k + 1, to_and_via.len() as int);
            &&& decode_textual_spec(from) matches Some((c, heard)) && !heard && (c.ssid matches Some(
                x,
            ) ==> x != seq![48u8])
            &&& decode_textual_spec(to) matches Some((c, heard)) && !heard && (c.ssid matches Some(
                x,
            ) ==> x != seq![48u8]) && canonical_data(s.subrange(i + 1, s.len() as int), c)
            &&& k < to_and_via.len() ==> canonical_path(path) && (decode_path(path) matches Ok(hops)
                ==> at_most_one_heard(hops))
        }),
{
}

/// The line of a packet of which the parts are written as the parts of a
/// line is that line.
proof fn lemma_textual_assembled(
    p: AprsPacketView,
    s: Seq<u8>,
    from: Seq<u8>,
    to: Seq<u8>,
    tail: Seq<u8>,
    body: Seq<u8>,
)
    requires
        display_bytes(p.from) == from,
        display_bytes(destination(p.data)) == to,
        path_bytes(last_heard_only(p.via), 0) == tail,
        data_bytes(p.data) == Ok::<Seq<u8>, EncodeErrorView>(body),
        from + seq![62u8] + to + tail + seq![58u8] + body == s,
    ensures
        textual_packet(p) == Ok::<Seq<u8>, EncodeErrorView>(s),
{
}

/// A packet that is written as `encode_textual` writes it, and read, is
/// written as the same line.
#[verifier::rlimit(30)]
pub proof fn lemma_textual_round_trip(s: Seq<u8>)
    requires
        canonical_textual(s),
        decode_textual_packet(s) is Ok,
    ensures
        textual_packet(decode_textual_packet(s)->Ok_0) == Ok::<Seq<u8>, EncodeErrorView>(s),
{
    let p = decode_textual_packet(s)->Ok_0;
    let i = first_index(s, 58);
    let header = s.subrange(0, i);
    let j = first_index(header, 62);
    let from = header.subrange(0, j);
    let to_and_via = header.subrange(j + 1, header.len() as int);
    let k = first_index(to_and_via, 44);
    let to = to_and_via.subrange(0, k);
    let body = s.subrange(i + 1, s.len() as int);
    crate::utils::lemma_first_index_bounds(s, 58);
    assert(header.len() == i);
    lemma_textual_decoded(s);
    lemma_canonical_parts(s);
    lemma_textual_parts(s);
    let to_call = decode_textual_spec(to).unwrap().0;
    crate::callsign::lemma_hop_round_trip(from);
    crate::callsign::lemma_hop_round_trip(to);
    lemma_data_round_trip(body, to_call);
    lemma_written_path(to_and_via, k);
    let tail = if k < to_and_via.len() {
        seq![44u8] + to_and_via.subrange(k + 1, to_and_via.len() as int)
    } else {
        Seq::<u8>::empty()
    };
    lemma_textual_assembled(p, s, from, to, tail, body);
}

/// The callsigns among the hops of a path that begins with a given hop.
pub proof fn lemma_callsign_hops_cons(v: ViaView, rest: Seq<ViaView>)
    ensures
        callsign_hops(seq![v] + rest) == match v {
            ViaView::Callsign(c, heard) => seq![(c, heard)] + callsign_hops(rest),
            ViaView::QConstruct(_) => callsign_hops(rest),
        },
    decreases rest.len(),
{
    let all = seq![v] + rest;
    if rest.len() == 0 {
        assert(all.drop_last() =~= Seq::<ViaView>::empty());
        assert(all.last() == v);
        assert(callsign_hops(all.drop_last()) =~= Seq::<(CallsignView, bool)>::empty());
        match v {
            ViaView::Callsign(c, heard) => {
                assert(callsign_hops(all) =~= seq![(c, heard)] + callsign_hops(rest));
            },
            ViaView::QConstruct(_) => {
                assert(callsign_hops(all) =~= callsign_hops(rest));
            },
        }
    } else {
        assert(all.drop_last() =~= seq![v] + rest.drop_last());
        assert(all.last() == rest.last());
        lemma_callsign_hops_cons(v, rest.drop_last());
        match v {
            ViaView::Callsign(c, heard) => {
                assert(callsign_hops(all) =~= seq![(c, heard)] + callsign_hops(rest));
            },
            ViaView::QConstruct(_) => {
                assert(callsign_hops(all) =~= callsign_hops(rest));
            },
        }
    }
}

/// The address fields of digipeaters from a place on are those of the rest
/// of the digipeaters.
proof fn lemma_ax25_path_shift(x: (CallsignView, bool), rest: Seq<(CallsignView, bool)>, k: int)
    requires
        0 <= k,
    ensures
        ax25_path(seq![x] + rest, k + 1) == ax25_path(rest, k),
    decreases rest.len() - k,
{
    let all = seq![x] + rest;
    if k < rest.len() {
        lemma_ax25_path_shift(x, rest, k + 1);
        assert(all[k + 1] == rest[k]);
    }
}

/// Whether the address fields of the digipeaters of a frame, from byte `i`
/// on, are as `encode_ax25` writes them.
pub open spec fn canonical_ax25_path(data: Seq<u8>, i: int) -> bool
    decreases data.len() - i,
{
    if i < 0 || data.len() < i + 7 {
        true
    } else {
        match decode_ax25_spec(data.subrange(i, i + 7)) {
            None => true,
            Some((_, heard, more)) => crate::callsign::canonical_ax25_field(
                data.subrange(i, i + 7),
                CallsignField::Via(heard),
            ) && (more ==> canonical_ax25_path(data, i + 7)),
        }
    }
}

/// The address fields of digipeaters as `encode_ax25` writes them, read and
/// written again, are the same bytes.
#[verifier::rlimit(30)]
proof fn lemma_ax25_path_round_trip(data: Seq<u8>, i: int)
    requires
        0 <= i,
        canonical_ax25_path(data, i),
        decode_ax25_path(data, i) is Ok,
    ensures
        ({
            let (hops, end) = decode_ax25_path(data, i)->Ok_0;
            &&& callsign_hops(hops).len() >= 1
            &&& i <= end <= data.len()
            &&& ax25_path(callsign_hops(hops), 0) == Ok::<Seq<u8>, EncodeErrorView>(
                data.subrange(i, end),
            )
        }),
    decreases data.len() - i,
{
    let field = data.subrange(i, i + 7);
    let (c, heard, more) = decode_ax25_spec(field).unwrap();
    let v = ViaView::Callsign(c, heard);
    crate::callsign::lemma_ax25_field_round_trip(field, CallsignField::Via(heard));
    if !more {
        let hops = seq![v];
        lemma_callsign_hops_cons(v, Seq::<ViaView>::empty());
        assert(seq![v] + Seq::<ViaView>::empty() =~= hops);
        let calls = callsign_hops(hops);
        assert(calls =~= seq![(c, heard)]);
        assert(ax25_path(calls, 1) == Ok::<Seq<u8>, EncodeErrorView>(Seq::<u8>::empty()));
        assert(ax25_path(calls, 0)->Ok_0 =~= field);
    } else {
        lemma_ax25_path_round_trip(data, i + 7);
        let (rest, end) = decode_ax25_path(data, i + 7)->Ok_0;
        let hops = seq![v] + rest;
        lemma_callsign_hops_cons(v, rest);
        let calls_rest = callsign_hops(rest);
        let calls = callsign_hops(hops);
        assert(calls == seq![(c, heard)] + calls_rest);
        lemma_ax25_path_shift((c, heard), calls_rest, 0);
        assert(calls[0] == (c, heard));
        assert(ax25_path(calls, 0)->Ok_0 =~= field + data.subrange(i + 7, end));
        assert(field + data.subrange(i + 7, end) =~= data.subrange(i, end));
    }
}

/// Whether a frame is as `encode_ax25` writes it: its address fields are in
/// their written form, each in its role, and so is its information field.
pub open spec fn canonical_ax25(data: Seq<u8>) -> bool {
    &&& data.len() >= 14
    &&& crate::callsign::canonical_ax25_field(data.subrange(0, 7), CallsignField::Destination)
    &&& crate::callsign::canonical_ax25_field(data.subrange(7, 14), CallsignField::Source)
    &&& canonical_ax25_path(data, 14)
    &&& decode_ax25_packet(data) matches Ok(p) ==> {
        let end = 14 + 7 * (p.via.len() as int);
        decode_ax25_spec(data.subrange(0, 7)) matches Some((to, _, _)) && canonical_data(
            data.subrange(end + 2, data.len() as int),
            to,
        )
    }
}

/// The digipeaters that are read from a frame end seven bytes further for
/// each of them.
proof fn lemma_ax25_path_end(data: Seq<u8>, i: int)
    requires
        0 <= i,
        decode_ax25_path(data, i) is Ok,
    ensures
        decode_ax25_path(data, i)->Ok_0.1 == i + 7 * decode_ax25_path(data, i)->Ok_0.0.len(),
    decreases data.len() - i,
{
    let (c, heard, more) = decode_ax25_spec(data.subrange(i, i + 7)).unwrap();
    if more {
        lemma_ax25_path_end(data, i + 7);
    }
}

/// What a frame is read as, part by part.
#[verifier::rlimit(30)]
proof fn lemma_ax25_decoded(data: Seq<u8>)
    requires
        decode_ax25_packet(data) is Ok,
    ensures
        ({
            let p = decode_ax25_packet(data)->Ok_0;
            let path = if decode_ax25_spec(data.subrange(7, 14)).unwrap().2 {
                decode_ax25_path(data, 14)
            } else {
                Ok((Seq::<ViaView>::empty(), 14int))
            };
            &&& data.len() >= 14
            &&& decode_ax25_spec(data.subrange(0, 7)) matches Some((to, _, more)) && more
            &&& decode_ax25_spec(data.subrange(7, 14)) matches Some((from, _, _)) && p.from == from
            &&& path matches Ok((via, end)) && p.via == via && 14 <= end && end + 2 <= data.len()
                && data[end] == 3 && data[end + 1] == 240 && decode_data(
                data.subrange(end + 2, data.len() as int),
                decode_ax25_spec(data.subrange(0, 7)).unwrap().0,
            ) == Ok::<AprsDataView, DecodeErrorView>(p.data)
        }),
{
    if decode_ax25_spec(data.subrange(7, 14)).unwrap().2 {
        lemma_ax25_path_bounds(data, 14);
    }
}

/// The digipeaters that are read from a frame end behind where they begin.
proof fn lemma_ax25_path_bounds(data: Seq<u8>, i: int)
    requires
        0 <= i,
        decode_ax25_path(data, i) is Ok,
    ensures
        i <= decode_ax25_path(data, i)->Ok_0.1,
    decreases data.len() - i,
{
    let (c, heard, more) = decode_ax25_spec(data.subrange(i, i + 7)).unwrap();
    if more {
        lemma_ax25_path_bounds(data, i + 7);
    }
}

/// The frame of a packet of which the parts are written as the parts of a
/// frame is that frame.
proof fn lemma_ax25_assembled(
    p: AprsPacketView,
    data: Seq<u8>,
    dest: Seq<u8>,
    src: Seq<u8>,
    path: Seq<u8>,
    info: Seq<u8>,
)
    requires
        ax25_encodable(destination(p.data)),
        ax25_encodable(p.from),
        ax25_bytes(destination(p.data), CallsignField::Destination, true) == dest,
        ax25_bytes(p.from, CallsignField::Source, callsign_hops(p.via).len() > 0) == src,
        ax25_path(callsign_hops(p.via), 0) == Ok::<Seq<u8>, EncodeErrorView>(path),
        data_bytes(p.data) == Ok::<Seq<u8>, EncodeErrorView>(info),
        dest + src + path + seq![3u8, 240u8] + info == data,
    ensures
        ax25_packet(p) == Ok::<Seq<u8>, EncodeErrorView>(data),
{
}

/// What the digipeaters of a frame, read and written again, are: the same
/// address fields, or nothing where the sender's address is the last.
proof fn lemma_ax25_written_path(data: Seq<u8>, more_hops: bool)
    requires
        data.len() >= 14,
        more_hops ==> canonical_ax25_path(data, 14) && decode_ax25_path(data, 14) is Ok,
    ensures
        ({
            let (via, end) = if more_hops {
                decode_ax25_path(data, 14)->Ok_0
            } else {
                (Seq::<ViaView>::empty(), 14int)
            };
            &&& end == 14 + 7 * via.len()
            &&& end <= data.len()
            &&& (callsign_hops(via).len() > 0) == more_hops
            &&& ax25_path(callsign_hops(via), 0) == Ok::<Seq<u8>, EncodeErrorView>(
                data.subrange(14, end),
            )
        }),
{
    if more_hops {
        lemma_ax25_path_round_trip(data, 14);
        lemma_ax25_path_end(data, 14);
    } else {
        let via = Seq::<ViaView>::empty();
        assert(callsign_hops(via) =~= Seq::<(CallsignView, bool)>::empty());
        assert(data.subrange(14, 14) =~= Seq::<u8>::empty());
    }
}

/// The parts of a frame, put together, are the frame.
proof fn lemma_ax25_parts(data: Seq<u8>, end: int)
    requires
        14 <= end,
        end + 2 <= data.len(),
        data[end] == 3,
        data[end + 1] == 240,
    ensures
        data.subrange(0, 7) + data.subrange(7, 14) + data.subrange(14, end) + seq![3u8, 240u8]
            + data.subrange(end + 2, data.len() as int) == data,
{
    assert(data.subrange(0, 7) + data.subrange(7, 14) + data.subrange(14, end) + seq![3u8, 240u8]
        + data.subrange(end + 2, data.len() as int) =~= data);
}

/// A frame that is written as `encode_ax25` writes it, and read, is written
/// as the same frame.
#[verifier::rlimit(30)]
pub proof fn lemma_ax25_round_trip(data: Seq<u8>)
    requires
        canonical_ax25(data),
        decode_ax25_packet(data) is Ok,
    ensures
        ax25_packet(decode_ax25_packet(data)->Ok_0) == Ok::<Seq<u8>, EncodeErrorView>(data),
{
    let p = decode_ax25_packet(data)->Ok_0;
    lemma_ax25_decoded(data);
    let dest = data.subrange(0, 7);
    let src = data.subrange(7, 14);
    let to = decode_ax25_spec(dest).unwrap().0;
    let more_hops = decode_ax25_spec(src).unwrap().2;
    crate::callsign::lemma_ax25_field_round_trip(dest, CallsignField::Destination);
    crate::callsign::lemma_ax25_field_round_trip(src, CallsignField::Source);
    lemma_ax25_written_path(data, more_hops);
    let end = 14 + 7 * (p.via.len() as int);
    let info = data.subrange(end + 2, data.len() as int);
    assert(decode_data(info, to) == Ok::<AprsDataView, DecodeErrorView>(p.data));
    assert(canonical_data(info, to));
    lemma_data_round_trip(info, to);
    let path = data.subrange(14, end);
    lemma_ax25_parts(data, end);
    lemma_ax25_assembled(p, data, dest, src, path, info);
}

/// What the address fields of digipeaters from a place on are: seven bytes
/// each, of which the last marks the end exactly in the last field.
proof fn lemma_ax25_path_marks(calls: Seq<(CallsignView, bool)>, k: int)
    requires
        0 <= k <= calls.len(),
        ax25_path(calls, k) is Ok,
    ensures
        ax25_path(calls, k)->Ok_0.len() == 7 * (calls.len() - k),
        forall|j: int|
            0 <= j < calls.len() - k ==> (#[trigger] ax25_path(calls, k)->Ok_0[7 * j + 6] % 2 == 1)
                == (k + j == calls.len() - 1),
    decreases calls.len() - k,
{
    if k < calls.len() {
        lemma_ax25_path_marks(calls, k + 1);
        let rest = ax25_path(calls, k + 1)->Ok_0;
        let field = ax25_bytes(calls[k].0, CallsignField::Via(calls[k].1), k + 1 < calls.len());
        let all = ax25_path(calls, k)->Ok_0;
        assert(all == field + rest);
        crate::callsign::lemma_ax25_flags(
            CallsignField::Via(calls[k].1),
            crate::callsign::ssid_number(calls[k].0.ssid).unwrap(),
            k + 1 < calls.len(),
        );
        assert forall|j: int| 0 <= j < calls.len() - k implies (#[trigger] all[7 * j + 6] % 2
            == 1) == (k + j == calls.len() - 1) by {
            if j == 0 {
                assert(all[6] == field[6]);
            } else {
                assert(all[7 * j + 6] == rest[7 * (j - 1) + 6]);
            }
        }
    }
}

/// In a frame that `encode_ax25` writes, exactly one address field is
/// marked as the last, and it is the last; the sender's field has its high
/// bit clear, and the destination's its three high bits set; behind the
/// addresses stand the control byte 3 and the protocol byte 240.
#[verifier::rlimit(30)]
pub proof fn lemma_ax25_addresses(p: AprsPacketView)
    requires
        ax25_packet(p) is Ok,
    ensures
        ({
            let frame = ax25_packet(p)->Ok_0;
            let fields = callsign_hops(p.via).len() as int + 2;
            &&& frame.len() >= 7 * fields + 2
            &&& forall|i: int|
                0 <= i < fields ==> (#[trigger] frame[7 * i + 6] % 2 == 1) == (i == fields - 1)
            &&& frame[13] < 128
            &&& frame[6] >= 224
            &&& frame[7 * fields] == 3
            &&& frame[7 * fields + 1] == 240
        }),
{
    let frame = ax25_packet(p)->Ok_0;
    let calls = callsign_hops(p.via);
    let fields = calls.len() as int + 2;
    let dest = ax25_bytes(destination(p.data), CallsignField::Destination, true);
    let src = ax25_bytes(p.from, CallsignField::Source, calls.len() > 0);
    let path = ax25_path(calls, 0)->Ok_0;
    let info = data_bytes(p.data)->Ok_0;
    lemma_ax25_path_marks(calls, 0);
    crate::callsign::lemma_ax25_flags(
        CallsignField::Destination,
        crate::callsign::ssid_number(destination(p.data).ssid).unwrap(),
        true,
    );
    crate::callsign::lemma_ax25_flags(
        CallsignField::Source,
        crate::callsign::ssid_number(p.from.ssid).unwrap(),
        calls.len() > 0,
    );
    assert(frame == dest + src + path + seq![3u8, 240u8] + info);
    assert(frame[6] == dest[6]);
    assert(frame[13] == src[6]);
    assert(frame[7 * fields] == 3);
    assert(frame[7 * fields + 1] == 240);
    assert forall|i: int| 0 <= i < fields implies (#[trigger] frame[7 * i + 6] % 2 == 1) == (i
        == fields - 1) by {
        if i >= 2 {
            assert(frame[7 * i + 6] == path[7 * (i - 2) + 6]);
        }
    }
}

/// A line of text in its written form, read, written and read again, gives
/// the same packet as when it was read first.
pub proof fn lemma_textual_fixed_point(s: Seq<u8>)
    requires
        canonical_textual(s),
        decode_textual_packet(s) is Ok,
    ensures
        textual_packet(decode_textual_packet(s)->Ok_0) matches Ok(t) && decode_textual_packet(t)
            == decode_textual_packet(s),
{
    lemma_textual_round_trip(s);
}

} // verus!
