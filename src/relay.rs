//! The relay of one generation request, as a state machine: the caller
//! performs the I/O and hands each outcome in; the relay answers with the
//! events to publish, in order.
use vstd::prelude::*;
use vstd::utf8::{decode_utf8, valid_utf8};
use crate::accumulate::{emission, Accumulator};
use crate::events::{
    connection_error, connection_error_text, parse_error, parse_error_text, status_error,
    status_error_text, unknown_error_text, views, EventView, StreamEvent,
};
use crate::lines::{partial, records, LineBuffer};

verus! {

/// One decoded record of the backend's stream.
pub struct BackendRecord {
    pub response: Option<String>,
    pub done: Option<bool>,
}

pub struct RecordView {
    pub response: Option<Seq<char>>,
    pub done: Option<bool>,
}

impl View for BackendRecord {
    type V = RecordView;

    open spec fn view(&self) -> RecordView {
        RecordView {
            response: match self.response {
                Some(s) => Some(s@),
                None => None,
            },
            done: self.done,
        }
    }
}

/// A record as the decoder left it: the record, or why it could not be read.
pub open spec fn decoded_view(rec: Result<BackendRecord, String>) -> Result<RecordView, Seq<char>> {
    match rec {
        Ok(r) => Ok(r@),
        Err(d) => Err(d@),
    }
}

/// The text that UTF-8 decoding with substitution of invalid sequences
/// gives for `b`.
pub uninterp spec fn lossy_utf8(b: Seq<u8>) -> Seq<char>;

/// The text of each record, decoded with substitution.
pub open spec fn record_texts(recs: Seq<Seq<u8>>) -> Seq<Seq<char>> {
    recs.map_values(|r: Seq<u8>| lossy_utf8(r))
}

/// Relies on String::from_utf8_lossy: the text depends on the bytes alone,
/// and valid UTF-8 is decoded unchanged.
#[verifier::external_body]
fn decode_lossy(b: &[u8]) -> (r: String)
    ensures
        r@ == lossy_utf8(b@),
        valid_utf8(b@) ==> r@ == decode_utf8(b@),
{
    String::from_utf8_lossy(b).into_owned()
}

/// One relay step on a decoded record: the text after it, whether the relay
/// has finished, and the events published.
pub open spec fn record_step(text: Seq<char>, finished: bool, rec: Result<RecordView, Seq<char>>) -> (
    Seq<char>,
    bool,
    Seq<EventView>,
) {
    if finished {
        (text, true, Seq::empty())
    } else {
        match rec {
            Err(d) => (text, false, seq![EventView::Error(parse_error_text(d))]),
            Ok(r) => {
                let text2 = match r.response {
                    Some(f) => text + f,
                    None => text,
                };
                let shown: Seq<EventView> = match r.response {
                    Some(f) => seq![EventView::Text(emission(text2, f))],
                    None => Seq::empty(),
                };
                if r.done == Some(true) {
                    (text2, true, shown.push(EventView::Done))
                } else {
                    (text2, false, shown)
                }
            },
        }
    }
}

/// The relay's steps on a sequence of records, in order: the final text,
/// whether it has finished, and every event published.
pub open spec fn replay_records(
    text: Seq<char>,
    finished: bool,
    recs: Seq<Result<RecordView, Seq<char>>>,
) -> (Seq<char>, bool, Seq<EventView>)
    decreases recs.len(),
{
    if recs.len() == 0 {
        (text, finished, Seq::empty())
    } else {
        let s = record_step(text, finished, recs[0]);
        let rest = replay_records(s.0, s.1, recs.drop_first());
        (rest.0, rest.1, s.2 + rest.2)
    }
}

/// How many events of `es` are the end marker.
pub open spec fn count_done(es: Seq<EventView>) -> nat
    decreases es.len(),
{
    if es.len() == 0 {
        0
    } else {
        count_done(es.drop_last()) + if es.last() == EventView::Done {
            1nat
        } else {
            0nat
        }
    }
}

/// A finished relay stays finished and publishes nothing more, whatever
/// records still come.
pub proof fn lemma_finished_is_silent(text: Seq<char>, recs: Seq<Result<RecordView, Seq<char>>>)
    ensures
        replay_records(text, true, recs) == (text, true, Seq::<EventView>::empty()),
    decreases recs.len(),
{
    if recs.len() > 0 {
        lemma_finished_is_silent(text, recs.drop_first());
        assert(Seq::<EventView>::empty() + Seq::<EventView>::empty() =~= Seq::<EventView>::empty());
    }
}

/// A record with `done: true` ends the stream: it publishes exactly one end
/// marker, as its last event, and no record after it publishes anything.
pub proof fn lemma_done_terminates(
    text: Seq<char>,
    r: RecordView,
    rest: Seq<Result<RecordView, Seq<char>>>,
)
    requires
        r.done == Some(true),
    ensures
        replay_records(text, false, seq![Ok(r)] + rest).2 == record_step(text, false, Ok(r)).2,
        replay_records(text, false, seq![Ok(r)] + rest).1,
        record_step(text, false, Ok(r)).2.last() == EventView::Done,
        count_done(record_step(text, false, Ok(r)).2) == 1,
{
    let recs = seq![Ok(r)] + rest;
    assert(recs[0] == Ok::<RecordView, Seq<char>>(r));
    assert(recs.drop_first() =~= rest);
    let s = record_step(text, false, Ok(r));
    lemma_finished_is_silent(s.0, rest);
    assert(s.2 + Seq::<EventView>::empty() =~= s.2);
    let shown: Seq<EventView> = match r.response {
        Some(f) => seq![EventView::Text(emission(s.0, f))],
        None => Seq::empty(),
    };
    assert(s.2 == shown.push(EventView::Done));
    assert(s.2.drop_last() =~= shown);
    if shown.len() > 0 {
        assert(shown.drop_last() =~= Seq::<EventView>::empty());
        assert(count_done(shown.drop_last()) == 0);
        assert(shown.last() != EventView::Done);
    } else {
        assert(count_done(shown) == 0);
    }
    assert(count_done(shown) == 0);
}

/// A record that cannot be decoded publishes exactly one error event and
/// leaves the relay as it was: the next record is handled as if the bad one
/// had never come.
pub proof fn lemma_bad_record_recoverable(
    text: Seq<char>,
    detail: Seq<char>,
    next: Result<RecordView, Seq<char>>,
)
    ensures
        record_step(text, false, Err(detail)) == (
            text,
            false,
            seq![EventView::Error(parse_error_text(detail))],
        ),
        replay_records(text, false, seq![Err(detail), next]).2 == seq![
            EventView::Error(parse_error_text(detail)),
        ] + record_step(text, false, next).2,
        replay_records(text, false, seq![Err(detail), next]).0 == record_step(text, false, next).0,
{
    let recs: Seq<Result<RecordView, Seq<char>>> = seq![Err(detail), next];
    let tail: Seq<Result<RecordView, Seq<char>>> = seq![next];
    let e = Seq::<Result<RecordView, Seq<char>>>::empty();
    assert(recs.drop_first() =~= tail);
    assert(tail.drop_first() =~= e);
    let s1 = record_step(text, false, Err(detail));
    let s = record_step(text, false, next);
    let r2 = replay_records(s.0, s.1, e);
    assert(replay_records(text, false, tail) == (r2.0, r2.1, s.2 + r2.2));
    assert(s.2 + Seq::<EventView>::empty() =~= s.2);
    assert(replay_records(text, false, recs) == (s.0, s.1, s1.2 + s.2));
}

/// Whether a response with status `code` may be streamed: always when the
/// status is not checked, else only for a success status (200 to 299).
pub fn status_accepted(check_status: bool, code: u16) -> (r: bool)
    ensures
        r == (!check_status || (200 <= code && code <= 299)),
{
    !check_status || (200 <= code && code <= 299)
}

/// The relay of one generation request.
pub struct Relay {
    pub acc: Accumulator,
    pub finished: bool,
    pub lines: LineBuffer,
}

impl Relay {
    pub open spec fn wf(&self) -> bool {
        self.lines.wf()
    }

    pub fn new() -> (r: Relay)
        ensures
            r.wf(),
            !r.finished,
            r.acc.text@ == Seq::<char>::empty(),
            r.lines.pending@ == Seq::<u8>::empty(),
    {
        Relay { acc: Accumulator::new(), finished: false, lines: LineBuffer::new() }
    }

    pub fn is_finished(&self) -> (r: bool)
        ensures
            r == self.finished,
    {
        self.finished
    }

    /// The backend could not be reached: an error, then the end marker.
    pub fn on_connect_error(&mut self, detail: &str) -> (out: Vec<StreamEvent>)
        requires
            old(self).wf(),
        ensures
            final(self).wf(),
            final(self).finished,
            final(self).acc.text@ == old(self).acc.text@,
            final(self).lines.pending@ == old(self).lines.pending@,
            old(self).finished ==> views(out@) == Seq::<EventView>::empty(),
            !old(self).finished ==> views(out@) == seq![
                EventView::Error(connection_error_text(detail@)),
                EventView::Done,
            ],
    {
        let mut out: Vec<StreamEvent> = Vec::new();
        if !self.finished {
            out.push(connection_error(detail));
            out.push(StreamEvent::Done);
            self.finished = true;
        }
        proof {
            if !old(self).finished {
                assert(views(out@) =~= seq![
                    EventView::Error(connection_error_text(detail@)),
                    EventView::Done,
                ]);
            } else {
                assert(views(out@) =~= Seq::<EventView>::empty());
            }
        }
        out
    }

    /// The backend answered with a non-success status: an error carrying the
    /// status and the body (or an unknown error where the body could not be
    /// read), then the end marker.
    pub fn on_status_error(&mut self, status: &str, body: Option<&str>) -> (out: Vec<StreamEvent>)
        requires
            old(self).wf(),
        ensures
            final(self).wf(),
            final(self).finished,
            final(self).acc.text@ == old(self).acc.text@,
            final(self).lines.pending@ == old(self).lines.pending@,
            old(self).finished ==> views(out@) == Seq::<EventView>::empty(),
            !old(self).finished ==> views(out@) == seq![
                EventView::Error(
                    status_error_text(
                        status@,
                        match body {
                            Some(b) => b@,
                            None => unknown_error_text(),
                        },
                    ),
                ),
                EventView::Done,
            ],
    {
        let mut out: Vec<StreamEvent> = Vec::new();
        if !self.finished {
            out.push(status_error(status, body));
            out.push(StreamEvent::Done);
            self.finished = true;
        }
        proof {
            if !old(self).finished {
                assert(views(out@) =~= seq![out@[0]@, EventView::Done]);
            } else {
                assert(views(out@) =~= Seq::<EventView>::empty());
            }
        }
        out
    }

    /// Bytes arrived from the backend: the text of each record they complete,
    /// in order. A finished relay reads no more records.
    pub fn on_chunk(&mut self, chunk: &[u8]) -> (out: Vec<String>)
        requires
            old(self).wf(),
        ensures
            final(self).wf(),
            final(self).finished == old(self).finished,
            final(self).acc.text@ == old(self).acc.text@,
            old(self).finished ==> out@.len() == 0 && final(self).lines.pending@ == old(
                self,
            ).lines.pending@,
            !old(self).finished ==> final(self).lines.pending@ == partial(
                old(self).lines.pending@ + chunk@,
            ),
            !old(self).finished ==> out@.map_values(|s: String| s@) == record_texts(
                records(old(self).lines.pending@ + chunk@),
            ),
    {
        let mut out: Vec<String> = Vec::new();
        if self.finished {
            return out;
        }
        let recs = self.lines.feed(chunk);
        let ghost target = record_texts(records(old(self).lines.pending@ + chunk@));
        let mut i: usize = 0;
        while i < recs.len()
            invariant
                i <= recs@.len(),
                recs@.map_values(|r: Vec<u8>| r@) == records(old(self).lines.pending@ + chunk@),
                target == record_texts(records(old(self).lines.pending@ + chunk@)),
                target.len() == recs@.len(),
                out@.map_values(|s: String| s@) == target.take(i as int),
            decreases recs@.len() - i,
        {
            let text = decode_lossy(recs[i].as_slice());
            assert(recs@.map_values(|r: Vec<u8>| r@)[i as int] == recs@[i as int]@);
            assert(records(old(self).lines.pending@ + chunk@)[i as int] == recs@[i as int]@);
            assert(target[i as int] == lossy_utf8(recs@[i as int]@));
            assert(text@ == target[i as int]);
            let ghost prev = out@;
            out.push(text);
            assert(out@.map_values(|s: String| s@) =~= prev.map_values(|s: String| s@).push(
                target[i as int],
            ));
            assert(target.take(i + 1) =~= target.take(i as int).push(target[i as int]));
            i = i + 1;
        }
        assert(target.take(recs@.len() as int) =~= target);
        out
    }

    /// A record was decoded (or failed to decode): the events it publishes.
    pub fn on_record(&mut self, rec: Result<BackendRecord, String>) -> (out: Vec<StreamEvent>)
        requires
            old(self).wf(),
        ensures
            final(self).wf(),
            final(self).lines.pending@ == old(self).lines.pending@,
            (final(self).acc.text@, final(self).finished, views(out@)) == record_step(
                old(self).acc.text@,
                old(self).finished,
                decoded_view(rec),
            ),
    {
        let mut out: Vec<StreamEvent> = Vec::new();
        if self.finished {
            proof {
                assert(views(out@) =~= Seq::<EventView>::empty());
            }
            return out;
        }
        match rec {
            Err(detail) => {
                out.push(parse_error(detail.as_str()));
                proof {
                    assert(views(out@) =~= seq![EventView::Error(parse_error_text(detail@))]);
                }
            },
            Ok(r) => {
                let ghost shown: Seq<EventView> = Seq::empty();
                match &r.response {
                    Some(f) => {
                        let published = self.acc.append(f.as_str());
                        out.push(StreamEvent::Text(published));
                        proof {
                            shown = seq![EventView::Text(emission(self.acc.text@, f@))];
                        }
                    },
                    None => {},
                }
                proof {
                    assert(views(out@) =~= shown);
                }
                match r.done {
                    Some(true) => {
                        out.push(StreamEvent::Done);
                        self.finished = true;
                        proof {
                            assert(views(out@) =~= shown.push(EventView::Done));
                        }
                    },
                    _ => {},
                }
            },
        }
        out
    }

    /// The backend's stream ended: the end marker, unless the relay has
    /// already finished. An unterminated trailing record is dropped.
    pub fn on_end(&mut self) -> (out: Vec<StreamEvent>)
        requires
            old(self).wf(),
        ensures
            final(self).wf(),
            final(self).finished,
            final(self).acc.text@ == old(self).acc.text@,
            final(self).lines.pending@ == old(self).lines.pending@,
            old(self).finished ==> views(out@) == Seq::<EventView>::empty(),
            !old(self).finished ==> views(out@) == seq![EventView::Done],
    {
        let mut out: Vec<StreamEvent> = Vec::new();
        if !self.finished {
            out.push(StreamEvent::Done);
            self.finished = true;
        }
        proof {
            if !old(self).finished {
                assert(views(out@) =~= seq![EventView::Done]);
            } else {
                assert(views(out@) =~= Seq::<EventView>::empty());
            }
        }
        out
    }
}

} // verus!
