//! The background receive loop's decisions, and what a capture hands back.
use vstd::prelude::*;

use crate::text::{concat, interleaved, join_lines, joined, lemma_concat_interleaved};

verus! {

/// The bytes of one datagram that a receive buffer can hold; a longer datagram
/// is cut at this length by the socket.
pub const MAX_DATAGRAM: usize = 1500;

/// What `bytes` read as UTF-8 text, or `None` where they are not valid UTF-8.
pub uninterp spec fn utf8_text(bytes: Seq<u8>) -> Option<Seq<char>>;

/// Every byte is ASCII.
pub open spec fn is_ascii_bytes(bytes: Seq<u8>) -> bool {
    forall|i: int| 0 <= i < bytes.len() ==> #[trigger] bytes[i] < 128
}

/// ASCII bytes read one character each.
pub open spec fn ascii_chars(bytes: Seq<u8>) -> Seq<char> {
    bytes.map_values(|b: u8| b as char)
}

/// The text that a decoding gave, if it succeeded.
pub open spec fn text_view(r: Option<String>) -> Option<Seq<char>> {
    match r {
        Some(s) => Some(s@),
        None => None,
    }
}

/// Relies on String::from_utf8: it succeeds exactly on valid UTF-8 and then
/// holds the decoded characters; ASCII is valid UTF-8, one character per byte.
#[verifier::external_body]
fn decode_utf8(bytes: Vec<u8>) -> (r: Option<String>)
    ensures
        text_view(r) == utf8_text(bytes@),
        is_ascii_bytes(bytes@) ==> text_view(r) == Some(ascii_chars(bytes@)),
{
    String::from_utf8(bytes).ok()
}

/// The result of one receive attempt.
pub enum RecvOutcome {
    /// A datagram came in; these are its bytes, the sender left aside.
    Datagram(Vec<u8>),
    /// The attempt ran into the socket's timeout.
    TimedOut,
}

impl RecvOutcome {
    /// The payload of the attempt, if a datagram came in.
    pub open spec fn payload(&self) -> Option<Seq<u8>> {
        match self {
            RecvOutcome::Datagram(bytes) => Some(bytes@),
            RecvOutcome::TimedOut => None,
        }
    }

    /// The outcome of an attempt that filled the first `len` bytes of `buf`.
    pub fn datagram(buf: &[u8], len: usize) -> (r: RecvOutcome)
        requires
            len <= buf@.len(),
        ensures
            r.payload() == Some(buf@.take(len as int)),
    {
        let mut bytes: Vec<u8> = Vec::with_capacity(len);
        let mut i: usize = 0;
        while i < len
            invariant
                i <= len <= buf@.len(),
                bytes@ == buf@.take(i as int),
            decreases len - i,
        {
            bytes.push(buf[i]);
            assert(bytes@ =~= buf@.take(i + 1));
            i = i + 1;
        }
        RecvOutcome::Datagram(bytes)
    }
}

/// What the receive loop does after an attempt.
#[derive(Clone, Copy, Debug, PartialEq, Eq, Structural)]
pub enum LoopControl {
    Continue,
    Stop,
}

/// The packets held after one more attempt.
pub open spec fn after_attempt(held: Seq<Seq<u8>>, payload: Option<Seq<u8>>) -> Seq<Seq<u8>> {
    match payload {
        Some(p) => held.push(p),
        None => held,
    }
}

/// The packets held after the attempts with these payloads, in turn, from
/// an empty start.
pub open spec fn received_from(payloads: Seq<Option<Seq<u8>>>) -> Seq<Seq<u8>>
    decreases payloads.len(),
{
    if payloads.len() == 0 {
        seq![]
    } else {
        after_attempt(received_from(payloads.drop_last()), payloads.last())
    }
}

/// Every packet reads as UTF-8 text.
pub open spec fn all_text(packets: Seq<Seq<u8>>) -> bool {
    forall|i: int| 0 <= i < packets.len() ==> (#[trigger] utf8_text(packets[i])) is Some
}

/// The packets read as text, one line each.
pub open spec fn lines_of(packets: Seq<Seq<u8>>) -> Seq<Seq<char>> {
    packets.map_values(|p: Seq<u8>| utf8_text(p).unwrap())
}

/// Every packet is ASCII.
pub open spec fn all_ascii(packets: Seq<Seq<u8>>) -> bool {
    forall|i: int| 0 <= i < packets.len() ==> is_ascii_bytes(#[trigger] packets[i])
}

/// The payloads sent, left in order once the timeouts are taken out.
pub open spec fn datagrams_in(payloads: Seq<Option<Seq<u8>>>) -> Seq<Seq<u8>> {
    payloads.filter(|o: Option<Seq<u8>>| o is Some).map_values(|o: Option<Seq<u8>>| o.unwrap())
}

/// A packet that is not UTF-8 text, by its place in the order of receipt.
#[derive(Clone, Copy, Debug, PartialEq, Eq, Structural)]
pub struct DecodeError {
    pub index: usize,
}

/// The packets that the background loop has received so far, in the order of
/// receipt.
pub struct Receiver {
    packets: Vec<Vec<u8>>,
}

impl View for Receiver {
    type V = Seq<Seq<u8>>;

    closed spec fn view(&self) -> Seq<Seq<u8>> {
        self.packets@.map_values(|p: Vec<u8>| p@)
    }
}

impl Receiver {
    /// A receiver that holds nothing yet.
    pub fn new() -> (r: Receiver)
        ensures
            r@ == Seq::<Seq<u8>>::empty(),
    {
        let r = Receiver { packets: Vec::new() };
        assert(r@ =~= Seq::<Seq<u8>>::empty());
        r
    }

    /// Takes in the outcome of one receive attempt, and says whether the loop
    /// goes on. The payload of a datagram is kept whether or not the loop
    /// stops; it stops exactly when the action was seen to be finished, so a
    /// loop that calls this after each attempt makes at least one attempt.
    pub fn step(&mut self, outcome: RecvOutcome, finished: bool) -> (c: LoopControl)
        ensures
            final(self)@ == after_attempt(old(self)@, outcome.payload()),
            c == (if finished { LoopControl::Stop } else { LoopControl::Continue }),
    {
        match outcome {
            RecvOutcome::Datagram(bytes) => {
                let ghost b = bytes@;
                self.packets.push(bytes);
                assert(self@ =~= old(self)@.push(b));
            },
            RecvOutcome::TimedOut => {},
        }
        if finished {
            LoopControl::Stop
        } else {
            LoopControl::Continue
        }
    }

    /// The number of packets held.
    pub fn len(&self) -> (r: usize)
        ensures
            r == self@.len(),
    {
        self.packets.len()
    }

    /// The packets held, each read as text, in the order of receipt; or the
    /// first packet that is not text.
    pub fn lines(&self) -> (r: Result<Vec<String>, DecodeError>)
        ensures
            r is Ok <==> all_text(self@),
            r matches Ok(v) ==> v.deep_view() == lines_of(self@),
            r matches Err(e) ==> e.index < self@.len() && utf8_text(self@[e.index as int]) is None
                && all_text(self@.take(e.index as int)),
            all_ascii(self@) ==> (r matches Ok(v) && v.deep_view() == self@.map_values(
                |p: Seq<u8>| ascii_chars(p),
            )),
    {
        let mut out: Vec<String> = Vec::new();
        let mut i: usize = 0;
        while i < self.packets.len()
            invariant
                i <= self@.len(),
                out@.len() == i,
                all_text(self@.take(i as int)),
                out.deep_view() == lines_of(self@.take(i as int)),
                forall|k: int|
                    0 <= k < i && is_ascii_bytes(#[trigger] self@[k]) ==> utf8_text(self@[k])
                        == Some(ascii_chars(self@[k])),
            decreases self@.len() - i,
        {
            let bytes = self.packets[i].clone();
            assert(bytes@ =~= self@[i as int]);
            let decoded = decode_utf8(bytes);
            match decoded {
                Some(s) => {
                    let ghost before = out.deep_view();
                    let ghost prev = out@;
                    out.push(s);
                    proof {
                        let t = self@.take(i + 1);
                        assert(t.take(i as int) =~= self@.take(i as int));
                        assert forall|k: int| 0 <= k < t.len() implies (#[trigger] utf8_text(
                            t[k],
                        )) is Some by {
                            if k < i {
                                assert(t[k] == self@.take(i as int)[k]);
                            }
                        }
                        assert(before == lines_of(self@.take(i as int)));
                        assert(prev.len() == i);
                        assert(out@ == prev.push(s));
                        assert(out.deep_view().len() == i + 1);
                        assert(utf8_text(t[i as int]) == Some(s@));
                        assert forall|k: int| 0 <= k < t.len() implies out.deep_view()[k]
                            == lines_of(t)[k] by {
                            if k < i {
                                assert(t[k] == self@.take(i as int)[k]);
                                assert(out@[k] == prev[k]);
                                assert(out.deep_view()[k] == before[k]);
                            }
                        }
                        assert(out.deep_view() =~= lines_of(t));
                    }
                },
                None => {
                    return Err(DecodeError { index: i });
                },
            }
            i = i + 1;
        }
        assert(self@.take(i as int) =~= self@);
        proof {
            if all_ascii(self@) {
                assert forall|k: int| 0 <= k < self@.len() implies out.deep_view()[k]
                    == self@.map_values(|p: Seq<u8>| ascii_chars(p))[k] by {
                    assert(is_ascii_bytes(self@[k]));
                    assert(out.deep_view()[k] == lines_of(self@)[k]);
                }
                assert(out.deep_view() =~= self@.map_values(|p: Seq<u8>| ascii_chars(p)));
            }
        }
        Ok(out)
    }

    /// The packets held, each read as text, joined by newlines; or the first
    /// packet that is not text.
    pub fn text(&self) -> (r: Result<String, DecodeError>)
        ensures
            r is Ok <==> all_text(self@),
            r matches Ok(s) ==> s@ == joined(lines_of(self@), seq!['\n']),
            all_ascii(self@) ==> (r matches Ok(s) && s@ == joined(
                self@.map_values(|p: Seq<u8>| ascii_chars(p)),
                seq!['\n'],
            )),
            r matches Err(e) ==> e.index < self@.len() && utf8_text(self@[e.index as int]) is None
                && all_text(self@.take(e.index as int)),
    {
        match self.lines() {
            Ok(v) => Ok(join_lines(v)),
            Err(e) => Err(e),
        }
    }
}


/// The receive loop loses no datagram and repeats none: after any run of
/// attempts, it holds exactly the payloads of the datagrams, in the order in
/// which they came in.
pub proof fn lemma_receipt_in_order(payloads: Seq<Option<Seq<u8>>>)
    ensures
        received_from(payloads) == datagrams_in(payloads),
    decreases payloads.len(),
{
    reveal(Seq::filter);
    if payloads.len() > 0 {
        let pred = |o: Option<Seq<u8>>| o is Some;
        let get = |o: Option<Seq<u8>>| o.unwrap();
        let pre = payloads.drop_last();
        lemma_receipt_in_order(pre);
        let f = payloads.filter(pred);
        assert(payloads.filter(pred) == if pred(payloads.last()) {
            pre.filter(pred).push(payloads.last())
        } else {
            pre.filter(pred)
        });
        if payloads.last() is Some {
            assert(f.map_values(get) =~= pre.filter(pred).map_values(get).push(
                payloads.last().unwrap(),
            ));
        }
    }
}

/// Datagrams that all read as text come back as lines, each the text of its
/// datagram, in the order of receipt.
pub proof fn lemma_lines_in_order(payloads: Seq<Option<Seq<u8>>>)
    requires
        all_text(datagrams_in(payloads)),
    ensures
        all_text(received_from(payloads)),
        lines_of(received_from(payloads)).len() == datagrams_in(payloads).len(),
        forall|i: int|
            0 <= i < datagrams_in(payloads).len() ==> Some(
                #[trigger] lines_of(received_from(payloads))[i],
            ) == utf8_text(datagrams_in(payloads)[i]),
{
    lemma_receipt_in_order(payloads);
}

/// Where no datagram came in, nothing is held: no lines, and no text.
pub proof fn lemma_silence_captures_nothing(payloads: Seq<Option<Seq<u8>>>)
    requires
        forall|i: int| 0 <= i < payloads.len() ==> (#[trigger] payloads[i]) is None,
    ensures
        received_from(payloads) == Seq::<Seq<u8>>::empty(),
        all_text(received_from(payloads)),
        lines_of(received_from(payloads)) == Seq::<Seq<char>>::empty(),
        joined(lines_of(received_from(payloads)), seq!['\n']) == Seq::<char>::empty(),
    decreases payloads.len(),
{
    if payloads.len() > 0 {
        let pre = payloads.drop_last();
        assert forall|i: int| 0 <= i < pre.len() implies (#[trigger] pre[i]) is None by {
            assert(pre[i] == payloads[i]);
        }
        lemma_silence_captures_nothing(pre);
        assert(payloads[payloads.len() - 1] is None);
    }
    assert(lines_of(received_from(payloads)) =~= Seq::<Seq<char>>::empty());
}

/// The text of a capture is its lines, in order, with a newline put between
/// each two of them and all laid end to end.
pub proof fn lemma_text_is_joined_lines(packets: Seq<Seq<u8>>)
    ensures
        joined(lines_of(packets), seq!['\n']) == concat(
            interleaved(lines_of(packets), seq!['\n']),
        ),
{
    lemma_concat_interleaved(lines_of(packets), seq!['\n']);
}

/// The text of a capture with a single line is that line, untouched.
pub proof fn lemma_single_line_text(line: Seq<char>)
    ensures
        joined(seq![line], seq!['\n']) == line,
{
}

} // verus!
