//! A type-state HTTP response builder: the status line comes first,
//! then any number of headers, then at most one body, and only a
//! response that has at least a status line can be sent.  The compiler
//! enforces the order through the state types; the contracts pin down
//! what each step records.

use vstd::prelude::*;

verus! {

use crate::text::{dec_str, decimal_string};
use vstd::string::StrSliceExecFns;
use vstd::string::StringExecFns;

/// States a response under construction can be in.
pub trait ResponseState {

}

/// States from which the response may be sent.
pub trait SendingState {

}

/// No part of the response is fixed yet.
pub struct Start {}

impl ResponseState for Start {

}

/// The status line is fixed and headers are being collected.
pub struct Headers {
    status_line: (u8, String),
    header: Vec<(String, String)>,
}

impl ResponseState for Headers {

}

impl SendingState for Headers {

}

/// Headers are complete and the body is fixed.
pub struct Body {
    headers: Headers,
    body: String,
}

impl ResponseState for Body {

}

impl SendingState for Body {

}

pub struct HttpResponse<S: ResponseState> {
    _sending_state: S,
}

impl<S> HttpResponse<S> where S: ResponseState + SendingState {
    /// Hand the finished response over; nothing of it remains here.
    pub fn send(self) {
    }
}

impl HttpResponse<Start> {
    pub closed spec fn spec_default() -> HttpResponse<Start> {
        HttpResponse { _sending_state: Start {  } }
    }

    /// Fix the status line; headers may follow.
    pub fn status_line(self, code: u8, message: &str) -> (r: HttpResponse<Headers>)
        ensures
            r.spec_status_code() == code,
            r.spec_status_message() == message@,
            r.spec_headers() == Seq::<(Seq<char>, Seq<char>)>::empty(),
    {
        let r = HttpResponse {
            _sending_state: Headers {
                status_line: (code, message.to_owned()),
                header: Vec::new(),
            },
        };
        proof {
            assert(r.spec_headers() =~~= Seq::<(Seq<char>, Seq<char>)>::empty());
        }
        r
    }
}

impl Default for HttpResponse<Start> {
    /// A response with nothing fixed yet.
    fn default() -> (r: Self)
        ensures
            r == HttpResponse::<Start>::spec_default(),
    {
        HttpResponse { _sending_state: Start {  } }
    }
}

impl HttpResponse<Headers> {
    pub closed spec fn spec_status_code(&self) -> u8 {
        self._sending_state.status_line.0
    }

    pub closed spec fn spec_status_message(&self) -> Seq<char> {
        self._sending_state.status_line.1@
    }

    /// The collected headers, as pairs of key and value.
    pub closed spec fn spec_headers(&self) -> Seq<(Seq<char>, Seq<char>)> {
        Seq::new(
            self._sending_state.header@.len(),
            |i: int|
                (self._sending_state.header@[i].0@, self._sending_state.header@[i].1@),
        )
    }

    /// Add one header to the end of the list.
    pub fn header(self, key: &str, value: &str) -> (r: HttpResponse<Headers>)
        ensures
            r.spec_status_code() == self.spec_status_code(),
            r.spec_status_message() == self.spec_status_message(),
            r.spec_headers() == self.spec_headers().push((key@, value@)),
    {
        let ghost before = self.spec_headers();
        let mut state = self._sending_state;
        state.header.push((key.to_owned(), value.to_owned()));
        let r = HttpResponse { _sending_state: state };
        proof {
            assert(r.spec_headers() =~~= before.push((key@, value@)));
        }
        r
    }

    /// Fix the body; the response is complete.
    pub fn body(self, body: &str) -> (r: HttpResponse<Body>)
        ensures
            r.spec_status_code() == self.spec_status_code(),
            r.spec_status_message() == self.spec_status_message(),
            r.spec_headers() == self.spec_headers(),
            r.spec_body() == body@,
    {
        let ghost headers_before = self.spec_headers();
        let r = HttpResponse {
            _sending_state: Body { headers: self._sending_state, body: body.to_owned() },
        };
        proof {
            assert(r.spec_headers() =~~= headers_before);
        }
        r
    }
}

/// One header pair as the summary renders it: both parts quoted, in
/// parentheses.
pub open spec fn pair_text(p: (Seq<char>, Seq<char>)) -> Seq<char> {
    "(\""@ + p.0 + "\", \""@ + p.1 + "\")"@
}

/// Header pairs joined by comma and space.
pub open spec fn pairs_text(ps: Seq<(Seq<char>, Seq<char>)>) -> Seq<char>
    decreases ps.len(),
{
    if ps.len() == 0 {
        Seq::empty()
    } else if ps.len() == 1 {
        pair_text(ps[0])
    } else {
        pair_text(ps[0]) + ", "@ + pairs_text(ps.skip(1))
    }
}

/// The one-line summary of a complete response: the status pair, the
/// header list in brackets, then the body.
pub open spec fn response_text(
    code: u8,
    message: Seq<char>,
    headers: Seq<(Seq<char>, Seq<char>)>,
    body: Seq<char>,
) -> Seq<char> {
    "("@ + dec_str(code as int) + ", \""@ + message + "\") ["@ + pairs_text(headers) + "] "@
        + body
}

impl HttpResponse<Body> {
    pub closed spec fn spec_status_code(&self) -> u8 {
        self._sending_state.headers.status_line.0
    }

    pub closed spec fn spec_status_message(&self) -> Seq<char> {
        self._sending_state.headers.status_line.1@
    }

    pub closed spec fn spec_headers(&self) -> Seq<(Seq<char>, Seq<char>)> {
        Seq::new(
            self._sending_state.headers.header@.len(),
            |i: int|
                (
                    self._sending_state.headers.header@[i].0@,
                    self._sending_state.headers.header@[i].1@,
                ),
        )
    }

    pub closed spec fn spec_body(&self) -> Seq<char> {
        self._sending_state.body@
    }

    /// Render the one-line summary of this response.
    pub fn display_string(&self) -> (r: String)
        ensures
            r@ == response_text(
                self.spec_status_code(),
                self.spec_status_message(),
                self.spec_headers(),
                self.spec_body(),
            ),
    {
        let mut s = String::new();
        s.append("(");
        s.append(decimal_string(self._sending_state.headers.status_line.0 as u32).as_str());
        s.append(", \"");
        s.append(self._sending_state.headers.status_line.1.as_str());
        s.append("\") [");
        let ghost opening = s@;
        let header = &self._sending_state.headers.header;
        let ghost hs = self.spec_headers();
        let ghost mut emitted = Seq::<char>::empty();
        let mut i: usize = 0;
        proof {
            assert(hs.skip(0) =~~= hs);
            assert(s@ =~= opening + emitted);
            assert(pairs_text(hs) =~= emitted + (Seq::<char>::empty() + pairs_text(hs)));
        }
        while i < header.len()
            invariant
                0 <= i <= header@.len(),
                hs == self.spec_headers(),
                hs.len() == header@.len(),
                header@ == self._sending_state.headers.header@,
                s@ == opening + emitted,
                pairs_text(hs) == emitted + (if i < hs.len() {
                    (if i > 0 {
                        ", "@
                    } else {
                        Seq::<char>::empty()
                    }) + pairs_text(hs.skip(i as int))
                } else {
                    Seq::<char>::empty()
                }),
            decreases header@.len() - i,
        {
            let ghost sep: Seq<char> = if i > 0 { ", "@ } else { Seq::empty() };
            if i > 0 {
                s.append(", ");
            }
            s.append("(\"");
            s.append(header[i].0.as_str());
            s.append("\", \"");
            s.append(header[i].1.as_str());
            s.append("\")");
            proof {
                let p = hs[i as int];
                assert(p == (header@[i as int].0@, header@[i as int].1@));
                assert(s@ =~= opening + (emitted + (sep + pair_text(p))));
                assert(hs.skip(i as int)[0] == p);
                assert(hs.skip(i as int).skip(1) =~~= hs.skip(i as int + 1));
                if i + 1 < hs.len() {
                    assert(pairs_text(hs.skip(i as int)) == pair_text(p) + ", "@ + pairs_text(
                        hs.skip(i as int + 1),
                    ));
                    assert(emitted + (sep + (pair_text(p) + ", "@ + pairs_text(
                        hs.skip(i as int + 1),
                    ))) =~= (emitted + (sep + pair_text(p))) + (", "@ + pairs_text(
                        hs.skip(i as int + 1),
                    )));
                } else {
                    assert(pairs_text(hs.skip(i as int)) == pair_text(p));
                    assert(emitted + (sep + pair_text(p)) + Seq::<char>::empty() =~= emitted + (
                    sep + pair_text(p)));
                }
                emitted = emitted + (sep + pair_text(p));
            }
            i = i + 1;
        }
        proof {
            assert(pairs_text(hs) == emitted + Seq::<char>::empty());
            assert(pairs_text(hs) =~= emitted);
        }
        s.append("] ");
        s.append(self._sending_state.body.as_str());
        proof {
            assert(opening =~= "("@ + dec_str(self.spec_status_code() as int) + ", \""@
                + self.spec_status_message() + "\") ["@);
            assert(s@ =~= response_text(
                self.spec_status_code(),
                self.spec_status_message(),
                self.spec_headers(),
                self.spec_body(),
            ));
        }
        s
    }
}

} // verus!
