//! The events published to the client, and the text each one carries on the wire.
use vstd::prelude::*;
use vstd::string::*;

verus! {

/// One unit of the client-facing stream.
pub enum StreamEvent {
    /// Generated text: the cumulative text, or only the newest fragment once
    /// the cumulative text has grown large.
    Text(String),
    /// The end of the stream.
    Done,
    /// A readable diagnostic line.
    Error(String),
}

/// What an event stands for, over mathematical strings.
pub enum EventView {
    Text(Seq<char>),
    Done,
    Error(Seq<char>),
}

impl View for StreamEvent {
    type V = EventView;

    open spec fn view(&self) -> EventView {
        match self {
            StreamEvent::Text(s) => EventView::Text(s@),
            StreamEvent::Done => EventView::Done,
            StreamEvent::Error(m) => EventView::Error(m@),
        }
    }
}

/// The marker that ends every client stream.
pub open spec fn done_marker() -> Seq<char> {
    "[DONE]"@
}

/// The text an event carries on the wire.
pub open spec fn wire_text(e: EventView) -> Seq<char> {
    match e {
        EventView::Text(s) => s,
        EventView::Done => done_marker(),
        EventView::Error(m) => m,
    }
}

/// The events of a sequence, as views.
pub open spec fn views(es: Seq<StreamEvent>) -> Seq<EventView> {
    es.map_values(|e: StreamEvent| e@)
}

/// Diagnostic for a backend that could not be reached.
pub open spec fn connection_error_text(detail: Seq<char>) -> Seq<char> {
    "Error: "@ + detail
}

/// Diagnostic for a backend that answered with a non-success status.
pub open spec fn status_error_text(status: Seq<char>, body: Seq<char>) -> Seq<char> {
    "Error: HTTP "@ + status + " - "@ + body
}

/// Diagnostic for a record that could not be decoded.
pub open spec fn parse_error_text(detail: Seq<char>) -> Seq<char> {
    "Error parsing JSON: "@ + detail
}

/// The body reported when the backend's error body cannot be read.
pub open spec fn unknown_error_text() -> Seq<char> {
    "Unknown error"@
}

impl StreamEvent {
    /// The text this event carries on the wire.
    pub fn data(&self) -> (r: String)
        ensures
            r@ == wire_text(self@),
    {
        match self {
            StreamEvent::Text(s) => s.clone(),
            StreamEvent::Done => "[DONE]".to_owned(),
            StreamEvent::Error(m) => m.clone(),
        }
    }

    pub fn is_done(&self) -> (r: bool)
        ensures
            r == (self@ == EventView::Done),
    {
        match self {
            StreamEvent::Done => true,
            _ => false,
        }
    }
}

/// The error event for a backend that could not be reached.
pub fn connection_error(detail: &str) -> (e: StreamEvent)
    ensures
        e@ == EventView::Error(connection_error_text(detail@)),
{
    let mut m = "Error: ".to_owned();
    m.append(detail);
    StreamEvent::Error(m)
}

/// The error event for a non-success status; a body that could not be read
/// is reported as an unknown error.
pub fn status_error(status: &str, body: Option<&str>) -> (e: StreamEvent)
    ensures
        e@ == EventView::Error(
            status_error_text(
                status@,
                match body {
                    Some(b) => b@,
                    None => unknown_error_text(),
                },
            ),
        ),
{
    let mut m = "Error: HTTP ".to_owned();
    m.append(status);
    m.append(" - ");
    match body {
        Some(b) => m.append(b),
        None => m.append("Unknown error"),
    }
    StreamEvent::Error(m)
}

/// The error event for a record that could not be decoded.
pub fn parse_error(detail: &str) -> (e: StreamEvent)
    ensures
        e@ == EventView::Error(parse_error_text(detail@)),
{
    let mut m = "Error parsing JSON: ".to_owned();
    m.append(detail);
    StreamEvent::Error(m)
}

} // verus!
