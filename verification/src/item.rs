//! Item reports: the position of a thing that does not move much.

use vstd::prelude::*;

use crate::callsign::{Callsign, CallsignView};
use crate::error::{DecodeError, DecodeErrorView, EncodeError, EncodeErrorView};
use crate::extensions::Extension;
use crate::object::{body_bytes, decode_body, read_body, write_body};
use crate::position::Position;
use crate::utils::{append, copy_all, copy_range};

verus! {

/// An item report.
#[derive(Clone, Debug, PartialEq, Eq)]
pub struct AprsItem {
    pub to: Callsign,
    pub name: Vec<u8>,
    pub live: bool,
    pub position: Position,
    pub extension: Option<Extension>,
    pub comment: Vec<u8>,
}

/// The mathematical value of an `AprsItem`.
pub struct AprsItemView {
    pub to: CallsignView,
    pub name: Seq<u8>,
    pub live: bool,
    pub position: Position,
    pub extension: Option<Extension>,
    pub comment: Seq<u8>,
}

impl View for AprsItem {
    type V = AprsItemView;

    open spec fn view(&self) -> AprsItemView {
        AprsItemView {
            to: self.to@,
            name: self.name@,
            live: self.live,
            position: self.position,
            extension: self.extension,
            comment: self.comment@,
        }
    }
}

/// Whether `c` ends the name of an item: `!` or a blank.
pub open spec fn ends_name(c: u8) -> bool {
    c == 33 || c == 32
}

/// The place of the first byte from `from` up to the tenth that ends the
/// name; 3 if there is none.
pub open spec fn name_end_from(b: Seq<u8>, from: int) -> int
    decreases 10 - from,
{
    if from >= 10 || from >= b.len() {
        3
    } else if ends_name(b[from]) {
        from
    } else {
        name_end_from(b, from + 1)
    }
}

/// The length of the name of an item: at least three bytes, and up to the
/// first byte among the next seven that ends it.
pub open spec fn name_end(b: Seq<u8>) -> int {
    name_end_from(b, 3)
}

/// The item report that the bytes behind the type byte spell, sent to `to`.
///
/// A name of three to nine bytes; `!` for a live item or a blank for a
/// killed one; then position, extension and comment.
pub open spec fn decode_item(b: Seq<u8>, to: CallsignView) -> Result<AprsItemView, DecodeErrorView> {
    let k = name_end(b);
    if b.len() <= 3 || ends_name(b[0]) || ends_name(b[1]) || ends_name(b[2]) {
        Err(DecodeErrorView::InvalidItemName(b))
    } else if !ends_name(b[k]) {
        Err(DecodeErrorView::InvalidItemLiveness(b[k] as char))
    } else {
        match decode_body(b.subrange(k + 1, b.len() as int)) {
            Err(e) => Err(e),
            Ok((position, extension, comment)) => Ok(
                AprsItemView {
                    to,
                    name: b.subrange(0, k),
                    live: b[k] == 33,
                    position,
                    extension,
                    comment,
                },
            ),
        }
    }
}

/// The information field of an item report: `)`, the name, `!` or a blank,
/// then position, extension and comment.
pub open spec fn item_bytes(o: AprsItemView) -> Result<Seq<u8>, EncodeErrorView> {
    match body_bytes(o.position, o.extension, o.comment) {
        Err(e) => Err(e),
        Ok(body) => Ok(
            seq![41u8] + o.name + seq![
                if o.live {
                    33u8
                } else {
                    32u8
                },
            ] + body,
        ),
    }
}

/// `name_end_from` gives 3 or a place within `b`, from `from` to 9, that
/// ends the name.
pub proof fn lemma_name_end_from(b: Seq<u8>, from: int)
    requires
        3 <= from,
    ensures
        name_end_from(b, from) == 3 || (from <= name_end_from(b, from) <= 9 && name_end_from(
            b,
            from,
        ) < b.len() && ends_name(b[name_end_from(b, from)])),
    decreases 10 - from,
{
    if from >= 10 || from >= b.len() {
    } else if ends_name(b[from]) {
    } else {
        lemma_name_end_from(b, from + 1);
    }
}

/// The bytes of an item report are its name, the byte that ends it, and
/// what follows.
proof fn lemma_item_parts(b: Seq<u8>, k: int)
    requires
        0 <= k < b.len(),
    ensures
        b.subrange(0, k) + seq![b[k]] + b.subrange(k + 1, b.len() as int) == b,
{
    assert(b.subrange(0, k) + seq![b[k]] + b.subrange(k + 1, b.len() as int) =~= b);
}

/// An item report of which position and extension are in their written
/// form, read and written again, is the same bytes behind the type byte.
#[verifier::rlimit(30)]
pub proof fn lemma_item_round_trip(b: Seq<u8>, to: CallsignView)
    requires
        decode_item(b, to) is Ok,
        crate::object::canonical_body(b.subrange(name_end(b) + 1, b.len() as int)),
    ensures
        item_bytes(decode_item(b, to)->Ok_0) == Ok::<Seq<u8>, EncodeErrorView>(seq![41u8] + b),
{
    let o = decode_item(b, to)->Ok_0;
    let k = name_end(b);
    lemma_name_end_from(b, 3);
    assert(3 <= k < b.len());
    let body = b.subrange(k + 1, b.len() as int);
    assert(decode_body(body) is Ok);
    crate::object::lemma_body_round_trip(body);
    let parts = decode_body(body)->Ok_0;
    assert(o.position == parts.0 && o.extension == parts.1 && o.comment == parts.2);
    assert(o.name == b.subrange(0, k));
    assert(body_bytes(o.position, o.extension, o.comment) == Ok::<Seq<u8>, EncodeErrorView>(body));
    lemma_item_parts(b, k);
    let live: u8 = if o.live {
        33
    } else {
        32
    };
    assert(live == b[k]);
    assert(item_bytes(o)->Ok_0 == seq![41u8] + o.name + seq![live] + body);
    assert(seq![41u8] + o.name + seq![live] + body =~= seq![41u8] + (o.name + seq![live] + body));
}

/// Whether an item report is as `decode` gives it: its name has three to
/// nine bytes, none of which ends a name; position and extension are as
/// they are read.
pub open spec fn decoded_item(o: AprsItemView) -> bool {
    &&& 3 <= o.name.len() <= 9
    &&& forall|i: int| 0 <= i < o.name.len() ==> !ends_name(#[trigger] o.name[i])
    &&& crate::object::decoded_body(o.position, o.extension, o.comment)
}

/// Between the place that a search for the end of the name starts from and
/// the end that it finds, no byte ends the name.
proof fn lemma_name_end_least(b: Seq<u8>, from: int)
    requires
        3 <= from,
    ensures
        forall|i: int| from <= i < name_end_from(b, from) ==> !ends_name(#[trigger] b[i]),
    decreases 10 - from,
{
    if from >= 10 || from >= b.len() {
    } else if ends_name(b[from]) {
    } else {
        lemma_name_end_least(b, from + 1);
    }
}

/// The search for the end of the name finds the first byte that ends it,
/// if it stands among the first ten.
proof fn lemma_name_end_found(b: Seq<u8>, from: int, k: int)
    requires
        3 <= from <= k <= 9,
        k < b.len(),
        forall|i: int| from <= i < k ==> !ends_name(#[trigger] b[i]),
        ends_name(b[k]),
    ensures
        name_end_from(b, from) == k,
    decreases k - from,
{
    if from < k {
        assert(!ends_name(b[from]));
        lemma_name_end_found(b, from + 1, k);
    }
}

/// What `decode` gives is as `decoded_item` says, and is sent to the
/// callsign that was given.
#[verifier::rlimit(30)]
pub proof fn lemma_decoded_item(b: Seq<u8>, to: CallsignView)
    requires
        decode_item(b, to) is Ok,
    ensures
        decoded_item(decode_item(b, to)->Ok_0),
        decode_item(b, to)->Ok_0.to == to,
{
    let o = decode_item(b, to)->Ok_0;
    let k = name_end(b);
    lemma_name_end_from(b, 3);
    lemma_name_end_least(b, 3);
    assert forall|i: int| 0 <= i < o.name.len() implies !ends_name(#[trigger] o.name[i]) by {
        assert(o.name[i] == b[i]);
    }
    crate::object::lemma_decoded_body(b.subrange(k + 1, b.len() as int));
}

/// An item report as `decode` gives it, with ASCII symbols, is written in
/// the written form, and what is written reads back as the report.
#[verifier::rlimit(30)]
pub proof fn lemma_item_decodes(o: AprsItemView)
    requires
        decoded_item(o),
        crate::position::ascii_symbols(o.position),
        item_bytes(o) is Ok,
    ensures
        item_bytes(o)->Ok_0.len() > 0,
        item_bytes(o)->Ok_0[0] == 41,
        ({
            let b = item_bytes(o)->Ok_0.subrange(1, item_bytes(o)->Ok_0.len() as int);
            &&& crate::object::canonical_body(b.subrange(name_end(b) + 1, b.len() as int))
            &&& decode_item(b, o.to) == Ok::<AprsItemView, DecodeErrorView>(o)
        }),
{
    let x = item_bytes(o)->Ok_0;
    let body = body_bytes(o.position, o.extension, o.comment)->Ok_0;
    let live: u8 = if o.live {
        33
    } else {
        32
    };
    crate::object::lemma_body_decodes(o.position, o.extension, o.comment);
    let b = o.name + seq![live] + body;
    assert(x =~= seq![41u8] + b);
    assert(x.subrange(1, x.len() as int) =~= b);
    let k = o.name.len() as int;
    assert forall|i: int| 0 <= i < k implies !ends_name(#[trigger] b[i]) by {
        assert(b[i] == o.name[i]);
    }
    assert(b[k] == live);
    lemma_name_end_found(b, 3, k);
    assert(b.subrange(0, k) =~= o.name);
    assert(b.subrange(k + 1, b.len() as int) =~= body);
}

impl AprsItem {
    /// Reads an item report from what follows the type byte of an
    /// information field.
    pub fn decode(b: &[u8], to: Callsign) -> (r: Result<Self, DecodeError>)
        ensures
            match r {
                Ok(o) => decode_item(b@, to@) == Ok::<AprsItemView, DecodeErrorView>(o@),
                Err(e) => decode_item(b@, to@) == Err::<AprsItemView, DecodeErrorView>(e@),
            },
    {
        if b.len() <= 3 || b[0] == 33 || b[0] == 32 || b[1] == 33 || b[1] == 32 || b[2] == 33
            || b[2] == 32 {
            return Err(DecodeError::InvalidItemName(copy_all(b)));
        }
        let mut k: usize = 3;
        while k < 10 && k < b.len() && b[k] != 33 && b[k] != 32
            invariant
                3 <= k <= 10,
                k <= b.len(),
                name_end(b@) == name_end_from(b@, k as int),
            decreases 10 - k,
        {
            k += 1;
        }
        if k >= 10 || k >= b.len() {
            k = 3;
        }
        let live = if b[k] == 33 {
            true
        } else if b[k] == 32 {
            false
        } else {
            return Err(DecodeError::InvalidItemLiveness(b[k] as char));
        };
        let name = copy_range(b, 0, k);
        let (position, extension, comment) = match read_body(
            vstd::slice::slice_subrange(b, k + 1, b.len()),
        ) {
            Ok(x) => x,
            Err(e) => {
                return Err(e);
            },
        };
        Ok(Self { to, name, live, position, extension, comment })
    }

    /// Appends the information field of the report.
    ///
    /// Fails, and appends nothing, if the extension or the position has no
    /// bytes.
    pub fn encode(&self, buf: &mut Vec<u8>) -> (r: Result<(), EncodeError>)
        ensures
            match r {
                Ok(()) => item_bytes(self@) matches Ok(b) && final(buf)@ == old(buf)@ + b,
                Err(e) => item_bytes(self@) == Err::<Seq<u8>, EncodeErrorView>(e@) && final(buf)@
                    == old(buf)@,
            },
    {
        let start: usize = buf.len();
        buf.push(41);
        append(buf, self.name.as_slice());
        buf.push(
            if self.live {
                33
            } else {
                32
            },
        );
        match write_body(&self.position, &self.extension, &self.comment, buf) {
            Ok(()) => {},
            Err(e) => {
                buf.truncate(start);
                assert(buf@ =~= old(buf)@);
                return Err(e);
            },
        }
        assert(buf@ =~= old(buf)@ + item_bytes(self@)->Ok_0);
        Ok(())
    }
}

} // verus!
