//! Packets that went over the air: what a frame reads back as, and what
//! becomes of a line of text that goes over the air and back.

use vstd::prelude::*;

use crate::callsign::{
    air_callsign, ax25_bytes, ax25_encodable, decode_ax25_spec, display_bytes, CallsignField,
    CallsignView,
};
use crate::error::{DecodeErrorView, EncodeErrorView};
use crate::fixed_point::{
    ascii_data, decoded_data, decoded_hop, decoded_hops, decoded_packet, lemma_data_decodes,
    lemma_textual_decodes, plain_hop, plain_hops, plain_packet,
};
use crate::packet::{
    ax25_packet, ax25_path, callsign_hops, data_bytes, decode_ax25_packet, decode_ax25_path,
    decode_data, decode_textual_packet, destination, heard_from, is_heard, propagate_heard,
    stored_destination, textual_packet, AprsDataView, AprsPacketView,
};
use crate::round_trip::{canonical_textual, lemma_callsign_hops_cons, lemma_heard_from_witness};
use crate::via::ViaView;

verus! {

/// Data with another destination. A Mic-E report, which holds none, stays
/// as it is.
pub open spec fn with_destination(d: AprsDataView, to: CallsignView) -> AprsDataView {
    match d {
        AprsDataView::Position(p) => AprsDataView::Position(
            crate::position::AprsPositionView { to, ..p },
        ),
        AprsDataView::Message(m) => AprsDataView::Message(
            crate::message::AprsMessageView { to, ..m },
        ),
        AprsDataView::Status(s) => AprsDataView::Status(crate::status::AprsStatusView { to, ..s }),
        AprsDataView::Object(o) => AprsDataView::Object(crate::object::AprsObjectView { to, ..o }),
        AprsDataView::Item(i) => AprsDataView::Item(crate::item::AprsItemView { to, ..i }),
        AprsDataView::MicE(m) => AprsDataView::MicE(m),
        AprsDataView::Unknown(_) => AprsDataView::Unknown(to),
    }
}

/// The hops of a path as they come back from the air: the callsigns among
/// them, in upper case.
pub open spec fn air_hops(hops: Seq<ViaView>) -> Seq<ViaView> {
    let calls = callsign_hops(hops);
    Seq::new(calls.len(), |i: int| ViaView::Callsign(air_callsign(calls[i].0), calls[i].1))
}

/// A packet as it comes back from the air: with its callsigns in upper case
/// and without its q-constructs.
pub open spec fn air_packet(p: AprsPacketView) -> AprsPacketView {
    AprsPacketView {
        from: air_callsign(p.from),
        via: air_hops(p.via),
        data: with_destination(p.data, air_callsign(destination(p.data))),
    }
}

/// An information field that is read as data for one destination is read
/// as the same data for another, if the destinations have the same base.
#[verifier::rlimit(30)]
pub proof fn lemma_data_for(s: Seq<u8>, to: CallsignView, other: CallsignView)
    requires
        decode_data(s, to) is Ok,
        to.call == other.call,
    ensures
        decode_data(s, other) == Ok::<AprsDataView, DecodeErrorView>(
            with_destination(decode_data(s, to)->Ok_0, other),
        ),
{
}

/// An information field that is read as data which holds its destination
/// is read as the same data for any other destination.
#[verifier::rlimit(30)]
pub proof fn lemma_data_for_any(s: Seq<u8>, to: CallsignView, other: CallsignView)
    requires
        decode_data(s, to) is Ok,
        stored_destination(decode_data(s, to)->Ok_0).is_some(),
    ensures
        decode_data(s, other) == Ok::<AprsDataView, DecodeErrorView>(
            with_destination(decode_data(s, to)->Ok_0, other),
        ),
{
}

/// Data with another destination is written as the same information field,
/// is as `decode` gives it if the data is, and holds the same symbols.
pub proof fn lemma_with_destination(d: AprsDataView, to: CallsignView)
    ensures
        data_bytes(with_destination(d, to)) == data_bytes(d),
        decoded_data(with_destination(d, to)) == decoded_data(d),
        ascii_data(with_destination(d, to)) == ascii_data(d),
        !(d is MicE) ==> destination(with_destination(d, to)) == to,
        d is MicE ==> with_destination(d, to) == d,
        with_destination(with_destination(d, to), to) == with_destination(d, to),
{
}

/// The address fields of digipeaters from a place on, found in a frame at a
/// byte, read back as the callsigns of the digipeaters in upper case.
#[verifier::rlimit(30)]
proof fn lemma_ax25_path_decodes(
    frame: Seq<u8>,
    i: int,
    calls: Seq<(CallsignView, bool)>,
    k: int,
)
    requires
        0 <= i,
        0 <= k < calls.len(),
        ax25_path(calls, k) is Ok,
        i + ax25_path(calls, k)->Ok_0.len() <= frame.len(),
        frame.subrange(i, i + ax25_path(calls, k)->Ok_0.len()) == ax25_path(calls, k)->Ok_0,
    ensures
        decode_ax25_path(frame, i) == Ok::<(Seq<ViaView>, int), DecodeErrorView>(
            (
                Seq::new(
                    (calls.len() - k) as nat,
                    |j: int| ViaView::Callsign(air_callsign(calls[k + j].0), calls[k + j].1),
                ),
                i + ax25_path(calls, k)->Ok_0.len(),
            ),
        ),
    decreases calls.len() - k,
{
    let b = ax25_path(calls, k)->Ok_0;
    let (c, heard) = calls[k];
    let more = k + 1 < calls.len();
    let field = ax25_bytes(c, CallsignField::Via(heard), more);
    let rest = ax25_path(calls, k + 1)->Ok_0;
    assert(b == field + rest);
    assert(field.len() == 7);
    assert(frame.subrange(i, i + 7) =~= field) by {
        assert(b.subrange(0, 7) =~= field);
        assert(frame.subrange(i, i + 7) =~= b.subrange(0, 7));
    }
    crate::callsign::lemma_ax25_field_decodes(c, CallsignField::Via(heard), more);
    let expected = Seq::new(
        (calls.len() - k) as nat,
        |j: int| ViaView::Callsign(air_callsign(calls[k + j].0), calls[k + j].1),
    );
    if more {
        assert(frame.subrange(i + 7, i + 7 + rest.len()) =~= rest) by {
            assert(b.subrange(7, b.len() as int) =~= rest);
            assert(frame.subrange(i + 7, i + 7 + rest.len()) =~= b.subrange(7, b.len() as int));
        }
        lemma_ax25_path_decodes(frame, i + 7, calls, k + 1);
        let tail = Seq::new(
            (calls.len() - k - 1) as nat,
            |j: int| ViaView::Callsign(air_callsign(calls[k + 1 + j].0), calls[k + 1 + j].1),
        );
        assert(seq![ViaView::Callsign(air_callsign(c), heard)] + tail =~= expected);
    } else {
        assert(rest =~= Seq::<u8>::empty());
        assert(seq![ViaView::Callsign(air_callsign(c), heard)] =~= expected);
    }
}

/// Where the parts of a frame stand in it.
proof fn lemma_frame_layout(dest: Seq<u8>, src: Seq<u8>, path: Seq<u8>, info: Seq<u8>)
    requires
        dest.len() == 7,
        src.len() == 7,
    ensures
        ({
            let f = dest + src + path + seq![3u8, 240u8] + info;
            let end = 14 + path.len() as int;
            &&& f.len() == end + 2 + info.len()
            &&& f.subrange(0, 7) == dest
            &&& f.subrange(7, 14) == src
            &&& f.subrange(14, end) == path
            &&& f[end] == 3
            &&& f[end + 1] == 240
            &&& f.subrange(end + 2, f.len() as int) == info
        }),
{
    let f = dest + src + path + seq![3u8, 240u8] + info;
    let end = 14 + path.len() as int;
    assert(f.subrange(0, 7) =~= dest);
    assert(f.subrange(7, 14) =~= src);
    assert(f.subrange(14, end) =~= path);
    assert(f.subrange(end + 2, f.len() as int) =~= info);
}

/// The address fields of digipeaters are seven bytes for each.
proof fn lemma_ax25_path_len(calls: Seq<(CallsignView, bool)>, k: int)
    requires
        0 <= k <= calls.len(),
        ax25_path(calls, k) is Ok,
    ensures
        ax25_path(calls, k)->Ok_0.len() == 7 * (calls.len() - k),
    decreases calls.len() - k,
{
    if k < calls.len() {
        lemma_ax25_path_len(calls, k + 1);
    }
}

/// What a frame reads as, of which the parts read as the parts of a packet.
#[verifier::rlimit(30)]
proof fn lemma_frame_read(
    f: Seq<u8>,
    end: int,
    to: CallsignView,
    from: CallsignView,
    hops: Seq<ViaView>,
    d: AprsDataView,
)
    requires
        14 <= end,
        end + 2 <= f.len(),
        decode_ax25_spec(f.subrange(0, 7)) == Some((to, true, true)),
        decode_ax25_spec(f.subrange(7, 14)) == Some((from, false, hops.len() > 0)),
        hops.len() > 0 ==> decode_ax25_path(f, 14) == Ok::<(Seq<ViaView>, int), DecodeErrorView>(
            (hops, end),
        ),
        hops.len() == 0 ==> end == 14,
        f[end] == 3,
        f[end + 1] == 240,
        decode_data(f.subrange(end + 2, f.len() as int), to) == Ok::<AprsDataView, DecodeErrorView>(
            d,
        ),
    ensures
        decode_ax25_packet(f) == Ok::<AprsPacketView, DecodeErrorView>(
            AprsPacketView { from, via: hops, data: d },
        ),
{
    if hops.len() == 0 {
        assert(hops =~= Seq::<ViaView>::empty());
    }
}

/// The frame that a packet is written as reads back as the packet as it
/// comes back from the air, if the data of the packet is as `decode` gives
/// it and holds ASCII symbols.
#[verifier::rlimit(30)]
pub proof fn lemma_ax25_decodes(p: AprsPacketView)
    requires
        ax25_packet(p) is Ok,
        decoded_data(p.data),
        ascii_data(p.data),
    ensures
        decode_ax25_packet(ax25_packet(p)->Ok_0) == Ok::<AprsPacketView, DecodeErrorView>(
            air_packet(p),
        ),
{
    let f = ax25_packet(p)->Ok_0;
    let to = destination(p.data);
    let calls = callsign_hops(p.via);
    let dest = ax25_bytes(to, CallsignField::Destination, true);
    let src = ax25_bytes(p.from, CallsignField::Source, calls.len() > 0);
    let path = ax25_path(calls, 0)->Ok_0;
    let info = data_bytes(p.data)->Ok_0;
    assert(f == dest + src + path + seq![3u8, 240u8] + info);
    lemma_frame_layout(dest, src, path, info);
    lemma_ax25_path_len(calls, 0);
    crate::callsign::lemma_ax25_field_decodes(to, CallsignField::Destination, true);
    crate::callsign::lemma_ax25_field_decodes(p.from, CallsignField::Source, calls.len() > 0);
    let end = 14 + path.len() as int;
    let hops = air_hops(p.via);
    assert(hops.len() == calls.len());
    if calls.len() > 0 {
        lemma_ax25_path_decodes(f, 14, calls, 0);
        assert(Seq::new(
            (calls.len() - 0) as nat,
            |j: int| ViaView::Callsign(air_callsign(calls[0 + j].0), calls[0 + j].1),
        ) =~= hops);
    }
    lemma_data_decodes(p.data);
    lemma_air_destination(p.data);
    if p.data is MicE {
        lemma_data_for(info, to, air_callsign(to));
    } else {
        lemma_data_for_any(info, to, air_callsign(to));
    }
    lemma_frame_read(
        f,
        end,
        air_callsign(to),
        air_callsign(p.from),
        hops,
        with_destination(p.data, air_callsign(to)),
    );
}

/// The destination that data goes out with has, as it comes back from the
/// air, the same base if it is that of a Mic-E report.
proof fn lemma_air_destination(d: AprsDataView)
    requires
        ax25_encodable(destination(d)),
    ensures
        d is MicE ==> air_callsign(destination(d)).call == destination(d).call,
{
    match d {
        AprsDataView::MicE(m) => {
            crate::mic_e::lemma_destination_ascii(m);
            let c = crate::mic_e::mic_e_destination(m);
            assert(air_callsign(destination(d)).call =~= c) by {
                assert forall|i: int| 0 <= i < c.len() implies crate::callsign::upper(
                    #[trigger] c[i],
                ) == c[i] by {
                    assert(48 <= c[i] <= 57 || 65 <= c[i] <= 90);
                }
            }
        },
        _ => {},
    }
}

/// From where on a hop is heard in a path with one hop more at its end.
proof fn lemma_heard_from_push(w: Seq<ViaView>, x: ViaView, k: int)
    requires
        0 <= k <= w.len(),
    ensures
        heard_from(w.push(x), k) == (heard_from(w, k) || is_heard(x)),
    decreases w.len() - k,
{
    let v = w.push(x);
    if k < w.len() {
        lemma_heard_from_push(w, x, k + 1);
        assert(v[k] == w[k]);
    } else {
        assert(v[k] == x);
        assert(!heard_from(v, k + 1));
    }
}

/// Each of the callsigns among the hops of a path is a hop of the path.
proof fn lemma_calls_member(v: Seq<ViaView>, i: int) -> (k: int)
    requires
        0 <= i < callsign_hops(v).len(),
    ensures
        0 <= k < v.len(),
        v[k] == ViaView::Callsign(callsign_hops(v)[i].0, callsign_hops(v)[i].1),
    decreases v.len(),
{
    let w = v.drop_last();
    let calls = callsign_hops(w);
    if i < calls.len() {
        let k = lemma_calls_member(w, i);
        assert(w[k] == v[k]);
        match v.last() {
            ViaView::Callsign(c, h) => {
                assert(callsign_hops(v)[i] == calls[i]);
            },
            ViaView::QConstruct(_) => {},
        }
        k
    } else {
        v.len() - 1
    }
}

/// Whether, of two callsigns of which the later is heard, the earlier is
/// heard too.
pub open spec fn closed_flags(calls: Seq<(CallsignView, bool)>) -> bool {
    forall|i: int, j: int| 0 <= i < j < calls.len() && (#[trigger] calls[j]).1 ==> (#[trigger] calls[i]).1
}

/// In a path in which the heard flags reach back, they reach back among the
/// callsigns.
proof fn lemma_closed_calls(v: Seq<ViaView>)
    requires
        propagate_heard(v) == v,
    ensures
        closed_flags(callsign_hops(v)),
    decreases v.len(),
{
    if v.len() > 0 {
        let w = v.drop_last();
        let x = v.last();
        assert(w.push(x) =~= v);
        assert forall|k: int| 0 <= k < w.len() implies propagate_heard(w)[k] == w[k] by {
            lemma_heard_from_push(w, x, k);
            assert(propagate_heard(v)[k] == v[k]);
            assert(v[k] == w[k]);
        }
        assert(propagate_heard(w) =~= w);
        lemma_closed_calls(w);
        let calls = callsign_hops(v);
        let before = callsign_hops(w);
        assert forall|i: int, j: int| 0 <= i < j < calls.len() && (#[trigger] calls[j]).1 implies (
        #[trigger] calls[i]).1 by {
            if j < before.len() {
                assert(calls[i] == before[i] && calls[j] == before[j]);
            } else {
                // the last hop is a callsign that is heard
                assert(is_heard(x));
                let k = lemma_calls_member(w, i);
                lemma_heard_from_push(w, x, k);
                assert(propagate_heard(v)[k] == v[k]);
                assert(v[k] == w[k]);
                assert(calls[i] == before[i]);
            }
        }
    }
}

/// Among callsigns in which the heard flags reach back, the flags that are
/// carried back are the flags that are there.
proof fn lemma_closed_hops(calls: Seq<(CallsignView, bool)>)
    requires
        closed_flags(calls),
    ensures
        ({
            let hops = Seq::new(
                calls.len(),
                |i: int| ViaView::Callsign(air_callsign(calls[i].0), calls[i].1),
            );
            propagate_heard(hops) == hops
        }),
{
    let hops = Seq::new(
        calls.len(),
        |i: int| ViaView::Callsign(air_callsign(calls[i].0), calls[i].1),
    );
    assert forall|i: int| 0 <= i < hops.len() implies propagate_heard(hops)[i] == hops[i] by {
        if heard_from(hops, i) {
            let j = lemma_heard_from_witness(hops, i);
            assert(calls[j].1);
            if j > i {
                assert(calls[i].1);
            }
        }
        if calls[i].1 {
            assert(is_heard(hops[i]));
        }
    }
    assert(propagate_heard(hops) =~= hops);
}

/// The callsigns among hops that are all callsigns are those hops.
proof fn lemma_callsign_hops_of_calls(calls: Seq<(CallsignView, bool)>)
    ensures
        callsign_hops(Seq::new(calls.len(), |i: int| ViaView::Callsign(calls[i].0, calls[i].1)))
            == calls,
    decreases calls.len(),
{
    let hops = Seq::new(calls.len(), |i: int| ViaView::Callsign(calls[i].0, calls[i].1));
    if calls.len() > 0 {
        let before = calls.drop_last();
        lemma_callsign_hops_of_calls(before);
        assert(hops.drop_last() =~= Seq::new(
            before.len(),
            |i: int| ViaView::Callsign(before[i].0, before[i].1),
        ));
        assert(callsign_hops(hops) =~= calls);
    } else {
        assert(callsign_hops(hops) =~= calls);
    }
}

/// The callsigns of which the address fields can be written all fit an
/// address field.
proof fn lemma_path_encodable(calls: Seq<(CallsignView, bool)>, k: int)
    requires
        0 <= k,
        ax25_path(calls, k) is Ok,
    ensures
        forall|i: int| k <= i < calls.len() ==> ax25_encodable((#[trigger] calls[i]).0),
    decreases calls.len() - k,
{
    if k < calls.len() {
        lemma_path_encodable(calls, k + 1);
    }
}

/// The address fields of callsigns that came back from the air are those of
/// the callsigns that they came from.
proof fn lemma_air_path(calls: Seq<(CallsignView, bool)>, k: int)
    requires
        0 <= k,
        ax25_path(calls, k) is Ok,
    ensures
        ax25_path(Seq::new(calls.len(), |i: int| (air_callsign(calls[i].0), calls[i].1)), k)
            == ax25_path(calls, k),
    decreases calls.len() - k,
{
    let air = Seq::new(calls.len(), |i: int| (air_callsign(calls[i].0), calls[i].1));
    if k < calls.len() {
        lemma_air_path(calls, k + 1);
        crate::callsign::lemma_air_callsign(calls[k].0);
        assert(air[k] == (air_callsign(calls[k].0), calls[k].1));
    }
}

/// Whether a packet can go over the air and come back as a packet that is
/// written in full: its data is as `decode` gives it, with ASCII symbols;
/// the heard flags of its path reach back; and a callsign with an SSID has
/// a base.
pub open spec fn fit_for_air(p: AprsPacketView) -> bool {
    &&& decoded_data(p.data)
    &&& ascii_data(p.data)
    &&& propagate_heard(p.via) == p.via
    &&& p.from.ssid is Some ==> p.from.call.len() > 0
    &&& destination(p.data).ssid is Some ==> destination(p.data).call.len() > 0
    &&& forall|k: int|
        0 <= k < p.via.len() ==> ((#[trigger] p.via[k]) matches ViaView::Callsign(c, _) ==> (
        c.ssid is Some ==> c.call.len() > 0))
}

/// What `decode_textual` gives is fit for the air, if its symbols are
/// ASCII.
pub proof fn lemma_decoded_fit_for_air(p: AprsPacketView)
    requires
        decoded_packet(p),
        ascii_data(p.data),
    ensures
        fit_for_air(p),
{
    match p.data {
        AprsDataView::MicE(_) => {},
        _ => {},
    }
    assert forall|k: int| 0 <= k < p.via.len() implies ((#[trigger] p.via[k]) matches ViaView::Callsign(
        c,
        _,
    ) ==> (c.ssid is Some ==> c.call.len() > 0)) by {
        assert(decoded_hop(p.via[k]));
    }
}

/// The hops of a packet that came back from the air are as a path in text
/// gives them, plain, and with heard flags that reach back.
#[verifier::rlimit(30)]
proof fn lemma_air_hops(p: AprsPacketView)
    requires
        fit_for_air(p),
        ax25_path(callsign_hops(p.via), 0) is Ok,
    ensures
        decoded_hops(air_hops(p.via)),
        plain_hops(air_hops(p.via)),
        propagate_heard(air_hops(p.via)) == air_hops(p.via),
        air_hops(air_hops(p.via)) == air_hops(p.via),
        ax25_path(callsign_hops(air_hops(p.via)), 0) == ax25_path(callsign_hops(p.via), 0),
        callsign_hops(air_hops(p.via)).len() == callsign_hops(p.via).len(),
{
    let calls = callsign_hops(p.via);
    let hops = air_hops(p.via);
    lemma_path_encodable(calls, 0);
    lemma_closed_calls(p.via);
    lemma_closed_hops(calls);
    let air = Seq::new(calls.len(), |i: int| (air_callsign(calls[i].0), calls[i].1));
    lemma_callsign_hops_of_calls(air);
    assert(Seq::new(air.len(), |i: int| ViaView::Callsign(air[i].0, air[i].1)) =~= hops);
    assert(callsign_hops(hops) == air);
    lemma_air_path(calls, 0);
    assert forall|i: int| 0 <= i < hops.len() implies decoded_hop(#[trigger] hops[i]) && plain_hop(
        hops[i],
    ) by {
        let k = lemma_calls_member(p.via, i);
        assert(ax25_encodable(calls[i].0));
        crate::callsign::lemma_air_callsign_text(calls[i].0);
        let a = air_callsign(calls[i].0);
        let d = display_bytes(a);
        assert(crate::via::decode_q(d).is_none()) by {
            if d.len() == 3 {
                assert(d[0] != 113);
            }
        }
    }
    assert(air_hops(hops) =~= hops) by {
        assert forall|i: int| 0 <= i < hops.len() implies air_hops(hops)[i] == hops[i] by {
            assert(ax25_encodable(calls[i].0));
            crate::callsign::lemma_air_callsign(calls[i].0);
        }
    }
}

/// A packet that came back from the air is as `decode_textual` gives it and
/// plain; comes back from the air as itself; and is written as a frame as
/// the packet that it came from.
#[verifier::rlimit(30)]
pub proof fn lemma_air_packet(p: AprsPacketView)
    requires
        fit_for_air(p),
        ax25_packet(p) is Ok,
    ensures
        decoded_packet(air_packet(p)),
        plain_packet(air_packet(p)),
        air_packet(air_packet(p)) == air_packet(p),
        ax25_packet(air_packet(p)) == ax25_packet(p),
        textual_packet(air_packet(p)) is Ok,
{
    let q = air_packet(p);
    let to = destination(p.data);
    let a = air_callsign(to);
    lemma_air_hops(p);
    crate::callsign::lemma_air_callsign(p.from);
    crate::callsign::lemma_air_callsign(to);
    crate::callsign::lemma_air_callsign_text(p.from);
    crate::callsign::lemma_air_callsign_text(to);
    lemma_with_destination(p.data, a);
    lemma_with_destination(q.data, a);
    lemma_air_destination(p.data);
    if p.data is MicE {
        assert(a.call == to.call);
        assert(a == to);
    }
    assert(destination(q.data) == a);
    assert(q.data == with_destination(p.data, a));
}

/// A line of text that goes over the air and back, and does so once more,
/// is after the second time what it was after the first.
///
/// The packet that the line is read as is written as a frame; what the
/// frame is read as, is written as text. That text is read as the packet
/// that the frame was read as, and that packet is written as the same frame
/// and comes back from it as itself.
pub proof fn lemma_over_the_air(s: Seq<u8>)
    requires
        decode_textual_packet(s) is Ok,
        ascii_data(decode_textual_packet(s)->Ok_0.data),
        ax25_packet(decode_textual_packet(s)->Ok_0) is Ok,
    ensures
        ({
            let p = decode_textual_packet(s)->Ok_0;
            let frame = ax25_packet(p)->Ok_0;
            let q = air_packet(p);
            &&& decode_ax25_packet(frame) == Ok::<AprsPacketView, DecodeErrorView>(q)
            &&& textual_packet(q) matches Ok(text) && canonical_textual(text)
                && decode_textual_packet(text) == Ok::<AprsPacketView, DecodeErrorView>(q)
            &&& ax25_packet(q) == Ok::<Seq<u8>, EncodeErrorView>(frame)
            &&& air_packet(q) == q
        }),
{
    let p = decode_textual_packet(s)->Ok_0;
    crate::fixed_point::lemma_decoded_packet(s);
    lemma_decoded_fit_for_air(p);
    lemma_ax25_decodes(p);
    lemma_air_packet(p);
    lemma_textual_decodes(air_packet(p));
}

} // verus!
