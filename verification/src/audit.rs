use vstd::prelude::*;
use std::collections::VecDeque;

use crate::clock::now_secs;

verus! {

/// Upper bound on how many entries the audit log retains.
pub const LOG_CAPACITY: usize = 50;

/// One recorded request/response pair.
///
/// `body` and `response` start out absent: the transport layer only sees the
/// request line and headers. A handler later attaches the decoded parameter
/// payload and, once it has finished, the encoded response.
pub struct LogEntry {
    pub timestamp: u64,
    pub method: String,
    pub uri: String,
    pub headers: String,
    pub body: Option<String>,
    pub response: Option<String>,
}

/// Mathematical image of a `LogEntry`.
pub struct LogEntryV {
    pub timestamp: u64,
    pub method: Seq<char>,
    pub uri: Seq<char>,
    pub headers: Seq<char>,
    pub body: Option<Seq<char>>,
    pub response: Option<Seq<char>>,
}

pub open spec fn opt_str_view(o: Option<String>) -> Option<Seq<char>> {
    match o {
        Option::Some(s) => Option::Some(s@),
        Option::None => Option::None,
    }
}

impl View for LogEntry {
    type V = LogEntryV;

    open spec fn view(&self) -> LogEntryV {
        LogEntryV {
            timestamp: self.timestamp,
            method: self.method@,
            uri: self.uri@,
            headers: self.headers@,
            body: opt_str_view(self.body),
            response: opt_str_view(self.response),
        }
    }
}

impl LogEntry {
    /// Field-for-field copy.
    pub fn dup(&self) -> (r: LogEntry)
        ensures
            r@ == self@,
    {
        LogEntry {
            timestamp: self.timestamp,
            method: self.method.clone(),
            uri: self.uri.clone(),
            headers: self.headers.clone(),
            body: match &self.body {
                Option::Some(s) => Option::Some(s.clone()),
                Option::None => Option::None,
            },
            response: match &self.response {
                Option::Some(s) => Option::Some(s.clone()),
                Option::None => Option::None,
            },
        }
    }
}

/// Appending to a log that is already full evicts the oldest entries so that
/// exactly `LOG_CAPACITY` remain, newest last.
pub open spec fn push_capped(s: Seq<LogEntryV>, e: LogEntryV) -> Seq<LogEntryV> {
    let grown = s.push(e);
    if grown.len() <= LOG_CAPACITY {
        grown
    } else {
        grown.skip(grown.len() - LOG_CAPACITY)
    }
}

/// Attaching a body: the most recently appended entry gets it; an empty log
/// stays empty.
pub open spec fn attach_body_spec(s: Seq<LogEntryV>, b: Seq<char>) -> Seq<LogEntryV> {
    if s.len() == 0 {
        s
    } else {
        s.update(s.len() - 1, LogEntryV { body: Option::Some(b), ..s.last() })
    }
}

/// Attaching a response, analogously to `attach_body_spec`.
pub open spec fn attach_response_spec(s: Seq<LogEntryV>, b: Seq<char>) -> Seq<LogEntryV> {
    if s.len() == 0 {
        s
    } else {
        s.update(s.len() - 1, LogEntryV { response: Option::Some(b), ..s.last() })
    }
}

/// The bounded request/response log. Entries arrive through `log_request`;
/// the most recent entry can afterwards have its body and response attached.
pub struct Logger {
    logs: VecDeque<LogEntry>,
}

impl View for Logger {
    type V = Seq<LogEntryV>;

    closed spec fn view(&self) -> Seq<LogEntryV> {
        Seq::new(self.logs@.len(), |i: int| self.logs@[i]@)
    }
}

impl Logger {
    /// The log never holds more than `LOG_CAPACITY` entries.
    pub open spec fn wf(&self) -> bool {
        self@.len() <= LOG_CAPACITY
    }

    pub fn new() -> (r: Logger)
        ensures
            r@ =~= Seq::<LogEntryV>::empty(),
            r.wf(),
    {
        Logger { logs: VecDeque::new() }
    }

    /// Appends an entry carrying the given timestamp, evicting the oldest
    /// entry if the log is full. Body and response start absent unless the
    /// transport captured a body up front.
    pub fn log_request_at(
        &mut self,
        timestamp: u64,
        method: String,
        uri: String,
        headers: String,
        body: Option<String>,
    )
        requires
            old(self).wf(),
        ensures
            final(self)@ =~= push_capped(
                old(self)@,
                LogEntryV {
                    timestamp,
                    method: method@,
                    uri: uri@,
                    headers: headers@,
                    body: opt_str_view(body),
                    response: Option::None,
                },
            ),
            final(self).wf(),
    {
        let entry = LogEntry { timestamp, method, uri, headers, body, response: Option::None };
        self.logs.push_back(entry);
        if self.logs.len() > LOG_CAPACITY {
            self.logs.pop_front();
        }
    }

    /// Appends an entry stamped with the current wall-clock time.
    pub fn log_request(&mut self, method: String, uri: String, headers: String, body: Option<String>)
        requires
            old(self).wf(),
        ensures
            exists|t: u64|
                final(self)@ =~= push_capped(
                    old(self)@,
                    LogEntryV {
                        timestamp: t,
                        method: method@,
                        uri: uri@,
                        headers: headers@,
                        body: opt_str_view(body),
                        response: Option::None,
                    },
                ),
            final(self).wf(),
    {
        let timestamp = now_secs();
        self.log_request_at(timestamp, method, uri, headers, body);
    }

    /// Attaches the decoded parameter payload to the most recent entry;
    /// does nothing when the log is empty.
    pub fn log_body(&mut self, body_str: String)
        requires
            old(self).wf(),
        ensures
            final(self).wf(),
            final(self)@ =~= attach_body_spec(old(self)@, body_str@),
    {
        if self.logs.len() > 0 {
            if let Option::Some(mut entry) = self.logs.pop_back() {
                entry.body = Option::Some(body_str);
                self.logs.push_back(entry);
            }
        }
    }

    /// Attaches the encoded response to the most recent entry; does nothing
    /// when the log is empty.
    pub fn log_response(&mut self, response_str: String)
        requires
            old(self).wf(),
        ensures
            final(self).wf(),
            final(self)@ =~= attach_response_spec(old(self)@, response_str@),
    {
        if self.logs.len() > 0 {
            if let Option::Some(mut entry) = self.logs.pop_back() {
                entry.response = Option::Some(response_str);
                self.logs.push_back(entry);
            }
        }
    }

    /// Copy of all current entries, oldest first.
    pub fn get_logs(&self) -> (r: Vec<LogEntry>)
        ensures
            r@.len() == self@.len(),
            forall|i: int| 0 <= i < r@.len() ==> r@[i]@ == self@[i],
    {
        let mut out: Vec<LogEntry> = Vec::new();
        let n = self.logs.len();
        let mut i: usize = 0;
        while i < n
            invariant
                n == self.logs@.len(),
                i <= n,
                out@.len() == i,
                forall|k: int| 0 <= k < i ==> out@[k]@ == self@[k],
            decreases n - i,
        {
            out.push(self.logs[i].dup());
            i = i + 1;
        }
        out
    }

    /// Empties the log.
    pub fn clear_logs(&mut self)
        ensures
            final(self)@ =~= Seq::<LogEntryV>::empty(),
            final(self).wf(),
    {
        self.logs.clear();
    }
}

pub open spec fn header_pairs_view(s: Seq<(String, String)>) -> Seq<(Seq<char>, Seq<char>)> {
    Seq::new(s.len(), |i: int| (s[i].0@, s[i].1@))
}

/// The flattened header text: every `name: value` pair in order, each
/// followed by a comma and a space.
pub open spec fn headers_text_from(s: Seq<(Seq<char>, Seq<char>)>, i: int) -> Seq<char>
    decreases s.len() - i,
{
    if i < 0 || i >= s.len() {
        Seq::empty()
    } else {
        s[i].0 + ": "@ + s[i].1 + ", "@ + headers_text_from(s, i + 1)
    }
}

pub open spec fn headers_text(s: Seq<(Seq<char>, Seq<char>)>) -> Seq<char> {
    headers_text_from(s, 0)
}

fn flatten_headers_from(pairs: &Vec<(String, String)>, i: usize) -> (r: String)
    requires
        i <= pairs@.len(),
    ensures
        r@ == headers_text_from(header_pairs_view(pairs@), i as int),
    decreases pairs@.len() - i,
{
    let mut out = String::new();
    if i < pairs.len() {
        out.append(pairs[i].0.as_str());
        out.append(": ");
        out.append(pairs[i].1.as_str());
        out.append(", ");
        let rest = flatten_headers_from(pairs, i + 1);
        out.append(rest.as_str());
        proof {
            assert(header_pairs_view(pairs@)[i as int] == (pairs@[i as int].0@, pairs@[i as int].1@));
        }
    }
    out
}

/// The single line of header text the transport layer records with each
/// request, as the interceptor assembles it from the name/value pairs.
pub fn flatten_headers(pairs: &Vec<(String, String)>) -> (r: String)
    ensures
        r@ == headers_text(header_pairs_view(pairs@)),
{
    flatten_headers_from(pairs, 0)
}

/// The eviction rule behind `log_request`: the log stays within capacity, the
/// newest entry is always retained last, and when nothing is evicted the log
/// is exactly the old log with the entry appended; when the log is full the
/// oldest entries are dropped and the remainder keep their arrival order.
pub proof fn lemma_push_capped(s: Seq<LogEntryV>, e: LogEntryV)
    ensures
        push_capped(s, e).len() <= LOG_CAPACITY,
        push_capped(s, e).last() == e,
        s.len() < LOG_CAPACITY ==> push_capped(s, e) =~= s.push(e),
        s.len() >= LOG_CAPACITY ==> push_capped(s, e) =~= s.push(e).skip(
            s.len() + 1 - LOG_CAPACITY,
        ),
        forall|i: int|
            0 <= i < push_capped(s, e).len() - 1 ==> push_capped(s, e)[i] == s[i + if s.len()
                < LOG_CAPACITY {
                0int
            } else {
                s.len() + 1 - LOG_CAPACITY
            }],
{
}

} // verus!
