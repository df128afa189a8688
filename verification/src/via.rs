//! The hops of a path: digipeaters and q-constructs.

use vstd::prelude::*;

use crate::callsign::{decode_textual_spec, textual_bytes, Callsign, CallsignView};

verus! {

/// A q-construct: a note that an APRS-IS server put into the path. It never
/// goes on the air.
#[derive(PartialEq, Eq, Copy, Clone, Debug)]
pub enum QConstruct {
    AC,
    AX,
    AU,
    Ao,
    AO,
    AS,
    Ar,
    AR,
    AZ,
    AI,
}

/// A hop of a path.
#[derive(Eq, PartialEq, Clone, Debug)]
pub enum Via {
    /// A digipeater, and whether the packet is known to have passed it.
    Callsign(Callsign, bool),
    QConstruct(QConstruct),
}

/// The mathematical value of a `Via`.
pub enum ViaView {
    Callsign(CallsignView, bool),
    QConstruct(QConstruct),
}

impl View for Via {
    type V = ViaView;

    open spec fn view(&self) -> ViaView {
        match *self {
            Via::Callsign(c, heard) => ViaView::Callsign(c@, heard),
            Via::QConstruct(q) => ViaView::QConstruct(q),
        }
    }
}

/// The third byte of a q-construct.
pub open spec fn q_letter(q: QConstruct) -> u8 {
    match q {
        QConstruct::AC => 67,
        QConstruct::AX => 88,
        QConstruct::AU => 85,
        QConstruct::Ao => 111,
        QConstruct::AO => 79,
        QConstruct::AS => 83,
        QConstruct::Ar => 114,
        QConstruct::AR => 82,
        QConstruct::AZ => 90,
        QConstruct::AI => 73,
    }
}

/// The three bytes of a q-construct: `qA` and its letter.
pub open spec fn q_bytes(q: QConstruct) -> Seq<u8> {
    seq![113u8, 65u8, q_letter(q)]
}

/// The q-construct that has `letter` for its third byte, if there is one.
pub open spec fn q_of_letter(letter: u8) -> Option<QConstruct> {
    if letter == 67 {
        Some(QConstruct::AC)
    } else if letter == 88 {
        Some(QConstruct::AX)
    } else if letter == 85 {
        Some(QConstruct::AU)
    } else if letter == 111 {
        Some(QConstruct::Ao)
    } else if letter == 79 {
        Some(QConstruct::AO)
    } else if letter == 83 {
        Some(QConstruct::AS)
    } else if letter == 114 {
        Some(QConstruct::Ar)
    } else if letter == 82 {
        Some(QConstruct::AR)
    } else if letter == 90 {
        Some(QConstruct::AZ)
    } else if letter == 73 {
        Some(QConstruct::AI)
    } else {
        None
    }
}

/// The q-construct that `b` spells, if it spells one.
pub open spec fn decode_q(b: Seq<u8>) -> Option<QConstruct> {
    if b.len() == 3 && b[0] == 113 && b[1] == 65 {
        q_of_letter(b[2])
    } else {
        None
    }
}

/// The text of a q-construct.
pub open spec fn q_text(q: QConstruct) -> Seq<char> {
    match q {
        QConstruct::AC => "qAC"@,
        QConstruct::AX => "qAX"@,
        QConstruct::AU => "qAU"@,
        QConstruct::Ao => "qAo"@,
        QConstruct::AO => "qAO"@,
        QConstruct::AS => "qAS"@,
        QConstruct::Ar => "qAr"@,
        QConstruct::AR => "qAR"@,
        QConstruct::AZ => "qAZ"@,
        QConstruct::AI => "qAI"@,
    }
}

/// A q-construct spells itself.
pub proof fn lemma_q_round_trip(q: QConstruct)
    ensures
        decode_q(q_bytes(q)) == Some(q),
{
}

/// The bytes of a q-construct that was read are those that spelt it.
pub proof fn lemma_q_bytes_round_trip(b: Seq<u8>)
    requires
        decode_q(b).is_some(),
    ensures
        q_bytes(decode_q(b).unwrap()) == b,
{
    assert(q_bytes(decode_q(b).unwrap()) =~= b);
}

impl QConstruct {
    /// Reads a q-construct; `None` for anything else.
    pub fn decode_textual(bytes: &[u8]) -> (r: Option<Self>)
        ensures
            r == decode_q(bytes@),
    {
        if bytes.len() != 3 || bytes[0] != 113 || bytes[1] != 65 {
            return None;
        }
        match bytes[2] {
            67 => Some(QConstruct::AC),
            88 => Some(QConstruct::AX),
            85 => Some(QConstruct::AU),
            111 => Some(QConstruct::Ao),
            79 => Some(QConstruct::AO),
            83 => Some(QConstruct::AS),
            114 => Some(QConstruct::Ar),
            82 => Some(QConstruct::AR),
            90 => Some(QConstruct::AZ),
            73 => Some(QConstruct::AI),
            _ => None,
        }
    }

    /// The text of the q-construct.
    pub fn as_textual(&self) -> (r: &'static str)
        ensures
            r@ == q_text(*self),
    {
        match self {
            QConstruct::AC => "qAC",
            QConstruct::AX => "qAX",
            QConstruct::AU => "qAU",
            QConstruct::Ao => "qAo",
            QConstruct::AO => "qAO",
            QConstruct::AS => "qAS",
            QConstruct::Ar => "qAr",
            QConstruct::AR => "qAR",
            QConstruct::AZ => "qAZ",
            QConstruct::AI => "qAI",
        }
    }

    /// The third byte of the q-construct.
    fn letter(&self) -> (r: u8)
        ensures
            r == q_letter(*self),
    {
        match self {
            QConstruct::AC => 67,
            QConstruct::AX => 88,
            QConstruct::AU => 85,
            QConstruct::Ao => 111,
            QConstruct::AO => 79,
            QConstruct::AS => 83,
            QConstruct::Ar => 114,
            QConstruct::AR => 82,
            QConstruct::AZ => 90,
            QConstruct::AI => 73,
        }
    }
}

/// The hop that `b` spells: a q-construct if it is one, else a callsign that
/// may be marked as heard.
pub open spec fn decode_via(b: Seq<u8>) -> Option<ViaView> {
    match decode_q(b) {
        Some(q) => Some(ViaView::QConstruct(q)),
        None => match decode_textual_spec(b) {
            Some((c, heard)) => Some(ViaView::Callsign(c, heard)),
            None => None,
        },
    }
}

/// The text of a hop.
pub open spec fn via_bytes(v: ViaView) -> Seq<u8> {
    match v {
        ViaView::Callsign(c, heard) => textual_bytes(c, heard),
        ViaView::QConstruct(q) => q_bytes(q),
    }
}

impl Via {
    /// Reads a hop from text.
    pub fn decode_textual(bytes: &[u8]) -> (r: Option<Self>)
        ensures
            match r {
                Some(v) => decode_via(bytes@) == Some(v@),
                None => decode_via(bytes@).is_none(),
            },
    {
        match QConstruct::decode_textual(bytes) {
            Some(q) => {
                return Some(Self::QConstruct(q));
            },
            None => {},
        }
        match Callsign::decode_textual(bytes) {
            Some((c, heard)) => Some(Self::Callsign(c, heard)),
            None => None,
        }
    }

    /// Appends the hop as text.
    pub fn encode_textual(&self, buf: &mut Vec<u8>)
        ensures
            final(buf)@ == old(buf)@ + via_bytes(self@),
    {
        match self {
            Self::Callsign(c, heard) => {
                c.encode_textual(*heard, buf);
            },
            Self::QConstruct(q) => {
                buf.push(113);
                buf.push(65);
                buf.push(q.letter());
                assert(buf@ =~= old(buf)@ + q_bytes(*q));
            },
        }
    }

    /// The callsign of the hop and whether it was heard; `None` for a
    /// q-construct.
    pub fn callsign(&self) -> (r: Option<(&Callsign, bool)>)
        ensures
            match r {
                Some((c, heard)) => self@ == ViaView::Callsign(c@, heard),
                None => self@ is QConstruct,
            },
    {
        match self {
            Self::Callsign(c, heard) => Some((c, *heard)),
            Self::QConstruct(_) => None,
        }
    }

    /// The callsign of the hop and its heard flag, to change them; `None` for
    /// a q-construct.
    pub fn callsign_mut(&mut self) -> (r: Option<(&mut Callsign, &mut bool)>)
        ensures
            match r {
                Some((c, heard)) => old(self)@ == ViaView::Callsign(c@, *heard) && final(self)@
                    == ViaView::Callsign(final(c)@, *final(heard)),
                None => old(self)@ is QConstruct && final(self)@ == old(self)@,
            },
    {
        match self {
            Self::Callsign(c, heard) => Some((c, heard)),
            Self::QConstruct(_) => None,
        }
    }

    /// Sets the heard flag of the hop; a q-construct has none and stays as it
    /// is.
    pub fn set_heard(&mut self, heard: bool)
        ensures
            final(self)@ == match old(self)@ {
                ViaView::Callsign(c, _) => ViaView::Callsign(c, heard),
                ViaView::QConstruct(q) => ViaView::QConstruct(q),
            },
    {
        match self {
            Self::Callsign(_, h) => {
                *h = heard;
            },
            Self::QConstruct(_) => {},
        }
    }
}

} // verus!
