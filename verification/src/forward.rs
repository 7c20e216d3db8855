//! Response forwarding: content-type classification, streaming capture, and
//! buffered capture.
//!
//! A response streams when its media type mentions `text/event-stream`,
//! `application/x-ndjson` or `text/plain` — the last deliberately, for
//! upstreams that stream plain-text tokens. Streamed bodies are teed into a
//! capture buffer capped at [`MAX_STREAM_CAPTURE`] bytes for the log;
//! buffered bodies are captured up to [`MAX_BUFFERED_CAPTURE`] bytes.

use vstd::prelude::*;

use crate::headers::{display_headers, get_header, header_lookup, render_headers, Header};
use crate::logentry::{LogEntryModel, ProxyLogEntry};
use crate::text::{contains_ignore_case, dec_spec, icontains, lossy_string, lossy_utf8, truncate_body, u64_to_string};

verus! {

/// Byte cap on the captured portion of a streamed body.
pub const MAX_STREAM_CAPTURE: usize = 64000;

/// Byte cap on the captured portion of a buffered body.
pub const MAX_BUFFERED_CAPTURE: usize = 8000;

/// Character cap on the body snippet quoted in an error.
pub const MAX_ERROR_SNIPPET: usize = 2000;

/// Whether a media type is forwarded as a stream: a case-insensitive
/// substring match against the streaming media types.
pub open spec fn streaming_spec(ct: Seq<char>) -> bool {
    icontains(ct, "text/event-stream"@) || icontains(ct, "application/x-ndjson"@) || icontains(
        ct,
        "text/plain"@,
    )
}

/// Classify a response's media type; see [`streaming_spec`].
pub fn is_streaming_content_type(ct: &str) -> (b: bool)
    ensures
        b == streaming_spec(ct@),
{
    contains_ignore_case(ct, "text/event-stream") || contains_ignore_case(
        ct,
        "application/x-ndjson",
    ) || contains_ignore_case(ct, "text/plain")
}

/// The tee buffer a streaming response is captured into, capped at
/// [`MAX_STREAM_CAPTURE`] bytes.
pub struct StreamCapture {
    buf: Vec<u8>,
}

impl View for StreamCapture {
    type V = Seq<u8>;

    closed spec fn view(&self) -> Seq<u8> {
        self.buf@
    }
}

impl StreamCapture {
    /// The capture never exceeds its cap.
    pub open spec fn wf(&self) -> bool {
        self@.len() <= MAX_STREAM_CAPTURE
    }

    /// An empty capture.
    pub fn new() -> (r: StreamCapture)
        ensures
            r@ == Seq::<u8>::empty(),
            r.wf(),
    {
        let r = StreamCapture { buf: Vec::new() };
        proof {
            assert(r@ =~= Seq::<u8>::empty());
        }
        r
    }

    /// Append a forwarded chunk, keeping only what fits under the cap.
    pub fn push_chunk(&mut self, chunk: &[u8])
        requires
            old(self).wf(),
        ensures
            final(self).wf(),
            final(self)@ == old(self)@ + chunk@.take(
                if chunk@.len() <= MAX_STREAM_CAPTURE - old(self)@.len() {
                    chunk@.len() as int
                } else {
                    MAX_STREAM_CAPTURE - old(self)@.len()
                },
            ),
    {
        let room = MAX_STREAM_CAPTURE - self.buf.len();
        let m = if chunk.len() <= room {
            chunk.len()
        } else {
            room
        };
        let mut j: usize = 0;
        proof {
            assert(self@ =~= old(self)@ + chunk@.take(0));
        }
        while j < m
            invariant
                0 <= j <= m,
                m <= chunk@.len(),
                old(self)@.len() + m <= MAX_STREAM_CAPTURE,
                self@ == old(self)@ + chunk@.take(j as int),
            decreases m - j,
        {
            let ghost pre = self@;
            self.buf.push(chunk[j]);
            proof {
                assert(self@ =~= old(self)@ + chunk@.take(j + 1));
            }
            j = j + 1;
        }
    }

    /// The body text recorded for the log once the stream ends: the lossy
    /// decoding of the captured bytes, or a `[stream]` marker when nothing
    /// was captured.
    pub fn body_text(&self) -> (r: String)
        ensures
            self@.len() == 0 ==> r@ == "[stream]"@,
            self@.len() > 0 ==> r@ == lossy_utf8(self@),
    {
        if self.buf.len() == 0 {
            String::from_str("[stream]")
        } else {
            let s = self.buf.as_slice();
            proof {
                assert(s@ == self@);
            }
            lossy_string(s)
        }
    }
}

/// The error text recorded for an upstream error status: the status and the
/// first [`MAX_ERROR_SNIPPET`] characters of the body.
pub open spec fn upstream_error_spec(status: u16, body_text: Seq<char>) -> Seq<char> {
    "upstream "@ + dec_spec(status as nat) + ": "@ + body_text.take(
        if body_text.len() <= MAX_ERROR_SNIPPET {
            body_text.len() as int
        } else {
            MAX_ERROR_SNIPPET as int
        },
    )
}

/// Record a response's status, filtered header dump, and streaming
/// classification (from its `Content-Type`) on the log entry.
pub fn record_response_meta(entry: &mut ProxyLogEntry, status: u16, response_headers: &Vec<Header>)
    ensures
        final(entry)@ == (LogEntryModel {
            status: Some(status),
            response_headers: Some(
                render_headers(display_headers(response_headers.deep_view())),
            ),
            is_streaming: match header_lookup(response_headers.deep_view(), "content-type"@) {
                Some(v) => streaming_spec(v),
                None => false,
            },
            ..old(entry)@
        }),
{
    entry.status = Some(status);
    entry.response_headers = Some(crate::headers::format_headers(response_headers));
    entry.is_streaming = match get_header(response_headers, "content-type") {
        Some(v) => is_streaming_content_type(v.as_str()),
        None => false,
    };
}

/// Record a buffered body on the log entry: the capped lossy capture, the
/// total duration, and — for an error status — the quoted snippet.
pub fn record_buffered_body(entry: &mut ProxyLogEntry, status: u16, body: &[u8], duration_ms: u128)
    ensures
        final(entry)@ == (LogEntryModel {
            duration_ms: duration_ms,
            response_body: if body@.len() == 0 {
                None
            } else {
                Some(
                    lossy_utf8(
                        body@.take(
                            if body@.len() <= MAX_BUFFERED_CAPTURE {
                                body@.len() as int
                            } else {
                                MAX_BUFFERED_CAPTURE as int
                            },
                        ),
                    ),
                )
            },
            error: if 400 <= status {
                Some(upstream_error_spec(status, lossy_utf8(body@)))
            } else {
                old(entry)@.error
            },
            ..old(entry)@
        }),
{
    entry.duration_ms = duration_ms;
    entry.response_body = truncate_body(body, MAX_BUFFERED_CAPTURE);
    if 400 <= status {
        let text = lossy_string(body);
        let n = text.as_str().unicode_len();
        let m = if n <= MAX_ERROR_SNIPPET {
            n
        } else {
            MAX_ERROR_SNIPPET
        };
        let snippet = text.as_str().substring_char(0, m);
        let mut msg = String::from_str("upstream ");
        let d = u64_to_string(status as u64);
        msg.append(d.as_str());
        msg.append(": ");
        msg.append(snippet);
        proof {
            assert(msg@ =~= upstream_error_spec(status, lossy_utf8(body@)));
        }
        entry.error = Some(msg);
    }
}

} // verus!
