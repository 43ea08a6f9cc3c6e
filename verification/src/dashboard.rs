//! The control dashboard: what a request asks for, and what it is answered.
//!
//! ```text
//! GET  /               the page
//! GET  /api/status     status and live settings, as JSON
//! GET  /api/log        the latest console lines
//! GET  /api/recordings the recordings, as JSON
//! GET  /rec/<file>     a recording
//! POST /api/control    freq_mhz, gain_db, ppm, injection_tg
//! ```
use crate::config::{LiveSettings, SharedConfig};
use crate::recorder::is_recording;
use crate::scan::{
    between_parts, find, find_part, head, is_white, len_upto, nth_word, same_text, second_part, split_once,
    tail, trim, trimmed, two_words, upto,
};
use crate::status::{Status, StatusView};
use crate::text::{
    chars_of, decimal, parse_between, parse_up_to, parsed_between, parsed_up_to, push_decimal,
    push_signed_decimal, signed_decimal, string_of,
};
use vstd::prelude::*;
use vstd::string::StringExecFns;

verus! {

/// Most recordings that are listed.
pub const LISTED_RECORDINGS: usize = 200;

/// Console lines that are shown.
pub const SHOWN_LINES: usize = 120;

/// A request.
pub struct Request {
    pub method: String,
    pub path: String,
    pub body: String,
}

/// Mathematical value of a [`Request`].
pub struct RequestView {
    pub method: Seq<char>,
    pub path: Seq<char>,
    pub body: Seq<char>,
}

impl View for Request {
    type V = RequestView;

    open spec fn view(&self) -> RequestView {
        RequestView { method: self.method@, path: self.path@, body: self.body@ }
    }
}

/// The request that `text` makes: method and path are the first two words of the
/// first line, and the body stands behind the first empty line.
pub open spec fn request_of(text: Seq<char>) -> RequestView {
    let line = text.take(upto(text, '\n'));
    RequestView {
        method: nth_word(line, 0).unwrap_or(""@),
        path: nth_word(line, 1).unwrap_or("/"@),
        body: second_part(text, "\r\n\r\n"@),
    }
}

/// Reads a request.
pub fn parse_request(text: &str) -> (r: Request)
    ensures
        r@ == request_of(text@),
{
    let all = chars_of(text);
    let line = head(all.as_slice(), len_upto(all.as_slice(), '\n'));
    let (first, second) = two_words(line);
    let method = match first {
        Some(w) => string_of(w),
        None => "".to_string(),
    };
    let path = match second {
        Some(w) => string_of(w),
        None => "/".to_string(),
    };
    proof {
        reveal_strlit("\r\n\r\n");
    }
    let gap = chars_of("\r\n\r\n");
    let body = string_of(between_parts(all.as_slice(), gap.as_slice()));
    Request { method, path, body }
}

/// What a request asks for.
#[derive(Debug, PartialEq, Eq)]
pub enum Route {
    Page,
    Status,
    Log,
    Recordings,
    /// The recording of this name.
    Recording(String),
    /// A recording, under a name that cannot be one.
    BadName,
    Control,
    NotFound,
}

/// Mathematical value of a [`Route`].
pub enum RouteView {
    Page,
    Status,
    Log,
    Recordings,
    Recording(Seq<char>),
    BadName,
    Control,
    NotFound,
}

impl View for Route {
    type V = RouteView;

    open spec fn view(&self) -> RouteView {
        match *self {
            Route::Page => RouteView::Page,
            Route::Status => RouteView::Status,
            Route::Log => RouteView::Log,
            Route::Recordings => RouteView::Recordings,
            Route::Recording(name) => RouteView::Recording(name@),
            Route::BadName => RouteView::BadName,
            Route::Control => RouteView::Control,
            Route::NotFound => RouteView::NotFound,
        }
    }
}

/// Whether a name stays within the directory of recordings: it has no directory
/// part, no `..`, and is that of a recording.
pub open spec fn is_safe_name(name: Seq<char>) -> bool {
    &&& !name.contains('/')
    &&& find(name, ".."@) is None
    &&& is_recording(name)
}

/// What a method and a path ask for.
pub open spec fn route_of(method: Seq<char>, path: Seq<char>) -> RouteView {
    if method == "GET"@ {
        if path == "/"@ {
            RouteView::Page
        } else if path == "/api/status"@ {
            RouteView::Status
        } else if path == "/api/log"@ {
            RouteView::Log
        } else if path == "/api/recordings"@ {
            RouteView::Recordings
        } else if path.len() >= 5 && path.take(5) == "/rec/"@ {
            if is_safe_name(path.skip(5)) {
                RouteView::Recording(path.skip(5))
            } else {
                RouteView::BadName
            }
        } else {
            RouteView::NotFound
        }
    } else if method == "POST"@ && path == "/api/control"@ {
        RouteView::Control
    } else {
        RouteView::NotFound
    }
}

/// Whatever a request says, a recording is served only under a name that stays
/// within the directory.
pub proof fn law_served_names_are_safe(text: Seq<char>)
    ensures
        route_of(request_of(text).method, request_of(text).path) matches RouteView::Recording(name)
            ==> is_safe_name(name),
{
}

fn safe_name(name: &[char]) -> (r: bool)
    ensures
        r == is_safe_name(name@),
{
    proof {
        reveal_strlit("..");
        crate::scan::lemma_upto(name@, '/');
    }
    let slash: usize = len_upto(name, '/');
    if slash < name.len() {
        assert(name@[slash as int] == '/');
        return false;
    }
    let dots = chars_of("..");
    if find_part(name, dots.as_slice()).is_some() {
        return false;
    }
    crate::recorder::names_recording(name)
}

/// Finds out what a request asks for.
pub fn route(req: &Request) -> (r: Route)
    ensures
        r@ == route_of(req@.method, req@.path),
{
    let method = chars_of(req.method.as_str());
    let path = chars_of(req.path.as_str());
    let m = method.as_slice();
    let p = path.as_slice();
    if same_text(m, "GET") {
        if same_text(p, "/") {
            Route::Page
        } else if same_text(p, "/api/status") {
            Route::Status
        } else if same_text(p, "/api/log") {
            Route::Log
        } else if same_text(p, "/api/recordings") {
            Route::Recordings
        } else if p.len() >= 5 && same_text(head(p, 5), "/rec/") {
            let name = tail(p, 5);
            if safe_name(name) {
                Route::Recording(string_of(name))
            } else {
                Route::BadName
            }
        } else {
            Route::NotFound
        }
    } else if same_text(m, "POST") && same_text(p, "/api/control") {
        Route::Control
    } else {
        Route::NotFound
    }
}

/// Bytes in a text.
pub open spec fn byte_len(text: Seq<char>) -> nat {
    vstd::utf8::encode_utf8(text).len() as usize as nat
}

/// An answer with a text in it.
pub open spec fn text_response(code: Seq<char>, content_type: Seq<char>, body: Seq<char>) -> Seq<
    char,
> {
    "HTTP/1.1 "@ + code + "\r\nContent-Type: "@ + content_type + "\r\nContent-Length: "@ + decimal(
        byte_len(body),
    ) + "\r\nConnection: close\r\nCache-Control: no-store\r\n\r\n"@ + body
}

/// The answer with the text `body` in it.
pub fn respond(code: &str, content_type: &str, body: &str) -> (r: String)
    ensures
        r@ == text_response(code@, content_type@, body@),
{
    let mut out = "HTTP/1.1 ".to_string();
    out.append(code);
    out.append("\r\nContent-Type: ");
    out.append(content_type);
    out.append("\r\nContent-Length: ");
    push_decimal(&mut out, body.len() as u64);
    out.append("\r\nConnection: close\r\nCache-Control: no-store\r\n\r\n");
    out.append(body);
    out
}

/// The answer to a request for `route`, where `body` is what it shows. A recording
/// is answered so when it cannot be read.
pub open spec fn reply_of(route: RouteView, body: Seq<char>) -> Seq<char> {
    match route {
        RouteView::Page => text_response("200 OK"@, "text/html; charset=utf-8"@, body),
        RouteView::Log => text_response("200 OK"@, "text/plain; charset=utf-8"@, body),
        RouteView::Status => text_response("200 OK"@, "application/json"@, body),
        RouteView::Recordings => text_response("200 OK"@, "application/json"@, body),
        RouteView::Control => text_response("200 OK"@, "application/json"@, body),
        RouteView::BadName => text_response("400 Bad Request"@, "text/plain"@, "bad name"@),
        RouteView::Recording(_) => text_response("404 Not Found"@, "text/plain"@, "not found"@),
        RouteView::NotFound => text_response("404 Not Found"@, "text/plain"@, "not found"@),
    }
}

/// Answers a request for `route`, where `body` is what it shows. A recording is
/// answered so when it cannot be read.
pub fn reply(route: &Route, body: &str) -> (r: String)
    ensures
        r@ == reply_of(route@, body@),
{
    match route {
        Route::Page => respond("200 OK", "text/html; charset=utf-8", body),
        Route::Log => respond("200 OK", "text/plain; charset=utf-8", body),
        Route::Status | Route::Recordings | Route::Control => respond(
            "200 OK",
            "application/json",
            body,
        ),
        Route::BadName => respond("400 Bad Request", "text/plain", "bad name"),
        Route::Recording(_) | Route::NotFound => respond(
            "404 Not Found",
            "text/plain",
            "not found",
        ),
    }
}

/// What stands before the bytes of a recording.
pub open spec fn recording_head(name: Seq<char>, len: u64) -> Seq<char> {
    "HTTP/1.1 200 OK\r\nContent-Type: audio/wav\r\nContent-Length: "@ + decimal(len as nat)
        + "\r\nContent-Disposition: attachment; filename=\""@ + name
        + "\"\r\nConnection: close\r\n\r\n"@
}

/// What stands before the `len` bytes of the recording `name`.
pub fn respond_recording(name: &str, len: u64) -> (r: String)
    ensures
        r@ == recording_head(name@, len),
{
    let mut out = "HTTP/1.1 200 OK\r\nContent-Type: audio/wav\r\nContent-Length: ".to_string();
    push_decimal(&mut out, len);
    out.append("\r\nContent-Disposition: attachment; filename=\"");
    out.append(name);
    out.append("\"\r\nConnection: close\r\n\r\n");
    out
}

/// One character within a JSON string.
pub open spec fn json_char(c: char) -> Seq<char> {
    if c == '"' {
        seq!['\\', '"']
    } else if c == '\\' {
        seq!['\\', '\\']
    } else if c == '\n' || c == '\r' || c == '\t' {
        seq![' ']
    } else if (c as u32) < 0x20 {
        seq![]
    } else {
        seq![c]
    }
}

/// A text as it stands within a JSON string.
pub open spec fn json_escaped(s: Seq<char>) -> Seq<char>
    decreases s.len(),
{
    if s.len() == 0 {
        seq![]
    } else {
        json_escaped(s.drop_last()) + json_char(s.last())
    }
}

/// What a character is shown as: line ends and tabs as a space, other control
/// characters not at all.
pub open spec fn shown_char(c: char) -> Seq<char> {
    if c == '\n' || c == '\r' || c == '\t' {
        seq![' ']
    } else if (c as u32) < 0x20 {
        seq![]
    } else {
        seq![c]
    }
}

/// What a text is shown as.
pub open spec fn shown(s: Seq<char>) -> Seq<char>
    decreases s.len(),
{
    if s.len() == 0 {
        seq![]
    } else {
        shown_char(s[0]) + shown(s.skip(1))
    }
}

/// Reads a JSON string up to its closing quote: the text that it holds, and what
/// follows it. None if it does not close, holds a control character, or an escape
/// other than those of the quote and the backslash.
pub open spec fn json_read(s: Seq<char>) -> Option<(Seq<char>, Seq<char>)>
    decreases s.len(),
{
    if s.len() == 0 || (s[0] as u32) < 0x20 {
        None
    } else if s[0] == '"' {
        Some((seq![], s.skip(1)))
    } else if s[0] == '\\' {
        if s.len() >= 2 && (s[1] == '"' || s[1] == '\\') {
            match json_read(s.skip(2)) {
                Some((text, rest)) => Some((seq![s[1]] + text, rest)),
                None => None,
            }
        } else {
            None
        }
    } else {
        match json_read(s.skip(1)) {
            Some((text, rest)) => Some((seq![s[0]] + text, rest)),
            None => None,
        }
    }
}

proof fn lemma_json_escaped_first(s: Seq<char>)
    requires
        s.len() > 0,
    ensures
        json_escaped(s) == json_char(s[0]) + json_escaped(s.skip(1)),
    decreases s.len(),
{
    if s.len() == 1 {
        assert(s.drop_last() =~= seq![]);
        assert(s.skip(1) =~= seq![]);
        assert(json_escaped(s) =~= json_char(s[0]) + json_escaped(s.skip(1)));
    } else {
        lemma_json_escaped_first(s.drop_last());
        assert(s.drop_last().skip(1) =~= s.skip(1).drop_last());
        assert(json_escaped(s) =~= json_char(s[0]) + json_escaped(s.skip(1)));
    }
}

/// Whatever is put into a JSON string stays in it: a reader finds the string's end
/// just where it was written, and reads the text as it is shown.
pub proof fn law_json_text_reads_back(s: Seq<char>, rest: Seq<char>)
    ensures
        json_read(json_escaped(s) + "\""@ + rest) == Some((shown(s), rest)),
    decreases s.len(),
{
    reveal_strlit("\"");
    let all = json_escaped(s) + "\""@ + rest;
    if s.len() == 0 {
        assert(all[0] == '"');
        assert(all.skip(1) =~= rest);
    } else {
        let c = s[0];
        let after = s.skip(1);
        let tail = json_escaped(after) + "\""@ + rest;
        lemma_json_escaped_first(s);
        law_json_text_reads_back(after, rest);
        let put = json_char(c);
        assert(all =~= put + tail);
        if c == '"' || c == '\\' {
            assert(all[0] == '\\' && all[1] == c);
            assert(all.skip(2) =~= tail);
        } else if put.len() == 1 {
            assert(all[0] == put[0]);
            assert(all.skip(1) =~= tail);
        } else {
            assert(all =~= tail);
            assert(shown(s) =~= shown(after));
        }
    }
}

/// Writes a text as it stands within a JSON string.
pub fn json_escape(s: &str) -> (r: String)
    ensures
        r@ == json_escaped(s@),
{
    let cs = chars_of(s);
    let mut out = String::new();
    let mut i: usize = 0;
    assert(cs@.take(0) =~= seq![]);
    assert(out@ =~= json_escaped(cs@.take(0)));
    while i < cs.len()
        invariant
            i <= cs@.len(),
            out@ == json_escaped(cs@.take(i as int)),
        decreases cs@.len() - i,
    {
        let c = cs[i];
        let ghost before = out@;
        if c == '"' {
            out.push('\\');
            out.push('"');
        } else if c == '\\' {
            out.push('\\');
            out.push('\\');
        } else if c == '\n' || c == '\r' || c == '\t' {
            out.push(' ');
        } else if (c as u32) >= 0x20 {
            out.push(c);
        }
        proof {
            assert(cs@.take(i + 1).drop_last() =~= cs@.take(i as int));
            assert(cs@.take(i + 1).last() == c);
            assert(out@ =~= before + json_char(c));
        }
        i = i + 1;
    }
    assert(cs@.take(i as int) =~= cs@);
    out
}

/// One recording in the list.
pub open spec fn recording_entry(name: Seq<char>, size: u64) -> Seq<char> {
    "{\"name\":\""@ + json_escaped(name) + "\",\"size\":"@ + decimal(size as nat) + "}"@
}

/// The recordings with commas between them.
pub open spec fn recording_entries(files: Seq<(String, u64)>) -> Seq<char>
    decreases files.len(),
{
    if files.len() == 0 {
        seq![]
    } else {
        let entry = recording_entry(files.last().0@, files.last().1);
        if files.len() == 1 {
            entry
        } else {
            recording_entries(files.drop_last()) + ","@ + entry
        }
    }
}

/// The list of recordings as JSON.
pub fn recordings_json(files: &Vec<(String, u64)>) -> (r: String)
    ensures
        r@ == "["@ + recording_entries(files@) + "]"@,
{
    let mut out = "[".to_string();
    let mut i: usize = 0;
    assert(files@.take(0) =~= seq![]);
    assert("["@ + recording_entries(files@.take(0)) =~= "["@);
    while i < files.len()
        invariant
            i <= files@.len(),
            out@ == "["@ + recording_entries(files@.take(i as int)),
        decreases files@.len() - i,
    {
        if i > 0 {
            out.append(",");
        }
        let name = json_escape(files[i].0.as_str());
        out.append("{\"name\":\"");
        out.append(name.as_str());
        out.append("\",\"size\":");
        push_decimal(&mut out, files[i].1);
        out.append("}");
        proof {
            let t = files@.take(i + 1);
            assert(t.drop_last() =~= files@.take(i as int));
            assert(t.last() == files@[i as int]);
            assert(out@ =~= "["@ + recording_entries(t));
        }
        i = i + 1;
    }
    assert(files@.take(i as int) =~= files@);
    out.append("]");
    out
}

pub open spec fn bool_text(b: bool) -> Seq<char> {
    if b {
        "true"@
    } else {
        "false"@
    }
}

/// A number, or `null`.
pub open spec fn number_text(n: Option<u32>) -> Seq<char> {
    match n {
        Some(n) => decimal(n as nat),
        None => "null"@,
    }
}

/// A string, or `null`.
pub open spec fn quoted_text(s: Option<Seq<char>>) -> Seq<char> {
    match s {
        Some(s) => "\""@ + json_escaped(s) + "\""@,
        None => "null"@,
    }
}

fn push_bool(out: &mut String, b: bool)
    ensures
        final(out)@ == old(out)@ + bool_text(b),
{
    if b {
        out.append("true");
    } else {
        out.append("false");
    }
}

fn push_number(out: &mut String, n: Option<u32>)
    ensures
        final(out)@ == old(out)@ + number_text(n),
{
    match n {
        Some(n) => push_decimal(out, n as u64),
        None => out.append("null"),
    }
}

fn push_quoted(out: &mut String, s: &Option<String>)
    ensures
        final(out)@ == old(out)@ + quoted_text(crate::meta::text_of(*s)),
{
    match s {
        Some(s) => {
            out.append("\"");
            out.append(json_escape(s.as_str()).as_str());
            out.append("\"");
            assert(out@ =~= old(out)@ + quoted_text(Some(s@)));
        },
        None => out.append("null"),
    }
}

/// The status and the live settings as JSON. The level in dB and the gain are
/// given as they are to be written.
pub open spec fn status_text(
    s: StatusView,
    live: LiveSettings,
    peak_dbfs: Seq<char>,
    gain_db: Seq<char>,
) -> Seq<char> {
    "{\"decoder_running\":"@ + bool_text(s.decoder_running) + ",\"decoder_pid\":"@ + number_text(
        s.decoder_pid,
    ) + ",\"decoder_restarts\":"@ + decimal(s.decoder_restarts as nat) + ",\"pcm_frames\":"@
        + decimal(s.pcm_frames as nat) + ",\"active_call\":"@ + bool_text(s.active_call)
        + ",\"current_source\":"@ + number_text(s.current_source) + ",\"calls_total\":"@ + decimal(
        s.calls_total as nat,
    ) + ",\"last_meta_line\":\""@ + json_escaped(s.last_meta_line) + "\",\"last_error\":"@
        + quoted_text(s.last_error) + ",\"peak_dbfs\":"@ + peak_dbfs + ",\"pcm_clip\":"@ + decimal(
        s.pcm_clip as nat,
    ) + ",\"freq_hz\":"@ + decimal(live.rx_freq_hz as nat) + ",\"gain_db\":"@ + gain_db
        + ",\"ppm\":"@ + signed_decimal(live.ppm as int) + ",\"injection_tg\":"@ + decimal(
        live.injection_tg as nat,
    ) + "}"@
}

/// Writes the status and the live settings as JSON.
pub fn status_json(s: &Status, live: &LiveSettings, peak_dbfs: &str, gain_db: &str) -> (r: String)
    ensures
        r@ == status_text(s@, *live, peak_dbfs@, gain_db@),
{
    let mut out = "{\"decoder_running\":".to_string();
    push_bool(&mut out, s.decoder_running);
    out.append(",\"decoder_pid\":");
    push_number(&mut out, s.decoder_pid);
    out.append(",\"decoder_restarts\":");
    push_decimal(&mut out, s.decoder_restarts);
    out.append(",\"pcm_frames\":");
    push_decimal(&mut out, s.pcm_frames);
    out.append(",\"active_call\":");
    push_bool(&mut out, s.active_call);
    out.append(",\"current_source\":");
    push_number(&mut out, s.current_source);
    out.append(",\"calls_total\":");
    push_decimal(&mut out, s.calls_total);
    out.append(",\"last_meta_line\":\"");
    out.append(json_escape(s.last_meta_line.as_str()).as_str());
    out.append("\",\"last_error\":");
    push_quoted(&mut out, &s.last_error);
    out.append(",\"peak_dbfs\":");
    out.append(peak_dbfs);
    out.append(",\"pcm_clip\":");
    push_decimal(&mut out, s.pcm_clip);
    out.append(",\"freq_hz\":");
    push_decimal(&mut out, live.rx_freq_hz);
    out.append(",\"gain_db\":");
    out.append(gain_db);
    out.append(",\"ppm\":");
    push_signed_decimal(&mut out, live.ppm as i64);
    out.append(",\"injection_tg\":");
    push_decimal(&mut out, live.injection_tg as u64);
    out.append("}");
    out
}

/// What a control request asks for. Fractional values are kept as they were
/// written, in order.
pub struct Control {
    pub freq_mhz: Vec<String>,
    pub gain_db: Vec<String>,
    pub ppm: Option<i32>,
    pub injection_tg: Option<u32>,
}

/// Mathematical value of a [`Control`].
pub struct ControlView {
    pub freq_mhz: Seq<Seq<char>>,
    pub gain_db: Seq<Seq<char>>,
    pub ppm: Option<i32>,
    pub injection_tg: Option<u32>,
}

impl View for Control {
    type V = ControlView;

    open spec fn view(&self) -> ControlView {
        ControlView {
            freq_mhz: crate::config::texts(self.freq_mhz@),
            gain_db: crate::config::texts(self.gain_db@),
            ppm: self.ppm,
            injection_tg: self.injection_tg,
        }
    }
}

impl ControlView {
    /// Nothing is asked for.
    pub open spec fn nothing() -> ControlView {
        ControlView { freq_mhz: seq![], gain_db: seq![], ppm: None, injection_tg: None }
    }

    /// One `key=value` is added. A value that is no number of its kind, and a key
    /// that is not known, change nothing.
    pub open spec fn with_pair(self, pair: Seq<char>) -> ControlView {
        match split_once(pair, '=') {
            Some((key, value)) => {
                let v = trimmed(value);
                if key == "freq_mhz"@ {
                    ControlView { freq_mhz: self.freq_mhz.push(v), ..self }
                } else if key == "gain_db"@ {
                    ControlView { gain_db: self.gain_db.push(v), ..self }
                } else if key == "ppm"@ {
                    match parsed_between(v, i32::MIN as int, i32::MAX as int) {
                        Some(n) => ControlView { ppm: Some(n as i32), ..self },
                        None => self,
                    }
                } else if key == "injection_tg"@ {
                    match parsed_up_to(v, u32::MAX as nat) {
                        Some(n) => ControlView { injection_tg: Some(n as u32), ..self },
                        None => self,
                    }
                } else {
                    self
                }
            },
            None => self,
        }
    }

    /// All pairs of a body are added, from left to right; they are parted by `&`.
    pub open spec fn with_body(self, body: Seq<char>) -> ControlView
        decreases body.len(),
    {
        let n = upto(body, '&');
        if 0 <= n < body.len() {
            self.with_pair(body.take(n)).with_body(body.skip(n + 1))
        } else {
            self.with_pair(body)
        }
    }
}

/// The pairs of a body take effect in order: a body in two parts has the effect of
/// the first, then that of the second.
pub proof fn law_control_pairs_apply_in_order(c: ControlView, a: Seq<char>, b: Seq<char>)
    ensures
        c.with_body(a + "&"@ + b) == c.with_body(a).with_body(b),
    decreases a.len(),
{
    reveal_strlit("&");
    let all = a + "&"@ + b;
    crate::scan::lemma_upto(a, '&');
    crate::scan::lemma_upto(all, '&');
    let n = upto(a, '&');
    let m = upto(all, '&');
    assert(all[a.len() as int] == '&');
    if n < a.len() {
        assert(all[n] == '&');
        assert(m == n) by {
            if m < n {
                assert(a[m] == all[m]);
            }
        }
        assert(all.take(n) =~= a.take(n));
        assert(all.skip(n + 1) =~= a.skip(n + 1) + "&"@ + b);
        law_control_pairs_apply_in_order(c.with_pair(a.take(n)), a.skip(n + 1), b);
    } else {
        assert(m == a.len()) by {
            if m < a.len() {
                assert(a[m] == all[m]);
            }
        }
        assert(all.take(m) =~= a);
        assert(all.skip(m + 1) =~= b);
    }
}

fn add_pair(c: &mut Control, pair: &[char])
    ensures
        final(c)@ == old(c)@.with_pair(pair@),
{
    proof {
        crate::scan::lemma_upto(pair@, '=');
    }
    let n: usize = len_upto(pair, '=');
    if n >= pair.len() {
        return ;
    }
    let key = head(pair, n);
    let v = trim(tail(pair, n + 1));
    if same_text(key, "freq_mhz") {
        c.freq_mhz.push(string_of(v));
        assert(c@.freq_mhz =~= old(c)@.freq_mhz.push(v@));
    } else if same_text(key, "gain_db") {
        c.gain_db.push(string_of(v));
        assert(c@.gain_db =~= old(c)@.gain_db.push(v@));
    } else if same_text(key, "ppm") {
        if let Some(p) = parse_between(v, i32::MIN as i64, i32::MAX as i64) {
            c.ppm = Some(p as i32);
        }
    } else if same_text(key, "injection_tg") {
        if let Some(tg) = parse_up_to(v, u32::MAX as u64) {
            c.injection_tg = Some(tg as u32);
        }
    }
}

/// Reads the body of a control request.
pub fn parse_control(body: &str) -> (r: Control)
    ensures
        r@ == ControlView::nothing().with_body(body@),
{
    let all = chars_of(body);
    let mut rest = all.as_slice();
    let mut c = Control {
        freq_mhz: Vec::new(),
        gain_db: Vec::new(),
        ppm: None,
        injection_tg: None,
    };
    assert(c@.freq_mhz =~= seq![]);
    assert(c@.gain_db =~= seq![]);
    loop
        invariant
            c@.with_body(rest@) == ControlView::nothing().with_body(body@),
        decreases rest@.len(),
    {
        let n: usize = len_upto(rest, '&');
        if n >= rest.len() {
            add_pair(&mut c, rest);
            return c;
        }
        add_pair(&mut c, head(rest, n));
        rest = tail(rest, n + 1);
    }
}

/// The live settings with what is given replaced.
pub open spec fn adjusted(
    live: LiveSettings,
    freq_hz: Option<u64>,
    gain_db_bits: Option<u32>,
    ppm: Option<i32>,
    injection_tg: Option<u32>,
) -> LiveSettings {
    LiveSettings {
        rx_freq_hz: freq_hz.unwrap_or(live.rx_freq_hz),
        gain_db_bits: gain_db_bits.unwrap_or(live.gain_db_bits),
        ppm: ppm.unwrap_or(live.ppm),
        injection_tg: injection_tg.unwrap_or(live.injection_tg),
    }
}

/// Carries a control request out. `freq_hz` and `gain_db_bits` are what its
/// fractional values come to, if anything. Returns whether the decoder must be
/// started again.
pub fn apply_control(
    cfg: &mut SharedConfig,
    control: &Control,
    freq_hz: Option<u64>,
    gain_db_bits: Option<u32>,
) -> (r: bool)
    ensures
        ({
            let new = adjusted(
                old(cfg)@.live,
                freq_hz,
                gain_db_bits,
                control@.ppm,
                control@.injection_tg,
            );
            &&& final(cfg)@ == old(cfg)@.applied(new)
            &&& r == crate::config::retunes(old(cfg)@.live, new)
        }),
{
    let mut live = cfg.live();
    if let Some(hz) = freq_hz {
        live.rx_freq_hz = hz;
    }
    if let Some(bits) = gain_db_bits {
        live.gain_db_bits = bits;
    }
    if let Some(ppm) = control.ppm {
        live.ppm = ppm;
    }
    if let Some(tg) = control.injection_tg {
        live.injection_tg = tg;
    }
    cfg.apply_live(live)
}

/// The parts of a text, one behind the other.
pub open spec fn text_of_parts(parts: Seq<Seq<char>>) -> Seq<char>
    decreases parts.len(),
{
    if parts.len() == 0 {
        seq![]
    } else {
        text_of_parts(parts.drop_last()) + parts.last()
    }
}

proof fn lemma_parts_split(parts: Seq<Seq<char>>, k: int)
    requires
        0 <= k <= parts.len(),
    ensures
        text_of_parts(parts) == text_of_parts(parts.take(k)) + text_of_parts(parts.skip(k)),
    decreases parts.len() - k,
{
    if k == parts.len() {
        assert(parts.take(k) =~= parts);
        assert(parts.skip(k) =~= seq![]);
        assert(text_of_parts(parts) + seq![] =~= text_of_parts(parts));
    } else {
        let front = parts.drop_last();
        lemma_parts_split(front, k);
        assert(front.take(k) =~= parts.take(k));
        assert(front.skip(k) =~= parts.skip(k).drop_last());
        assert(parts.skip(k).last() == parts.last());
        let a = text_of_parts(parts.take(k));
        let b = text_of_parts(front.skip(k));
        assert(a + b + parts.last() =~= a + (b + parts.last()));
    }
}

proof fn lemma_first_part(parts: Seq<Seq<char>>)
    requires
        parts.len() > 0,
    ensures
        text_of_parts(parts) == parts[0] + text_of_parts(parts.skip(1)),
{
    lemma_parts_split(parts, 1);
    assert(parts.take(1).drop_last() =~= seq![]);
    assert(text_of_parts(seq![]) =~= seq![]);
    assert(parts.take(1).last() == parts[0]);
    assert(seq![] + parts[0] =~= parts[0]);
}

/// Whether `key` stands in a JSON text with just `value` behind it.
pub open spec fn is_field(text: Seq<char>, key: Seq<char>, value: Seq<char>) -> bool {
    exists|before: Seq<char>, behind: Seq<char>|
        {
            &&& text == #[trigger] (before + key + value + behind)
            &&& behind.len() > 0
            &&& behind[0] == ',' || behind[0] == '}' || behind[0] == '"'
        }
}

proof fn lemma_field_of_parts(parts: Seq<Seq<char>>, k: int)
    requires
        0 <= k,
        k + 2 < parts.len(),
        parts[k + 2].len() > 0,
        parts[k + 2][0] == ',' || parts[k + 2][0] == '}' || parts[k + 2][0] == '"',
    ensures
        is_field(text_of_parts(parts), parts[k], parts[k + 1]),
{
    lemma_parts_split(parts, k);
    let a = parts.skip(k);
    lemma_first_part(a);
    let b = a.skip(1);
    lemma_first_part(b);
    let c = b.skip(1);
    lemma_first_part(c);
    assert(a[0] == parts[k] && b[0] == parts[k + 1] && c[0] == parts[k + 2]);
    let before = text_of_parts(parts.take(k));
    let behind = text_of_parts(c);
    assert(behind[0] == parts[k + 2][0]);
    assert(text_of_parts(parts) =~= before + parts[k] + parts[k + 1] + behind);
}

/// The parts of the status.
spec fn status_parts(
    s: StatusView,
    live: LiveSettings,
    peak_dbfs: Seq<char>,
    gain_db: Seq<char>,
) -> Seq<Seq<char>> {
    seq![
        "{\"decoder_running\":"@,
        bool_text(s.decoder_running),
        ",\"decoder_pid\":"@,
        number_text(s.decoder_pid),
        ",\"decoder_restarts\":"@,
        decimal(s.decoder_restarts as nat),
        ",\"pcm_frames\":"@,
        decimal(s.pcm_frames as nat),
        ",\"active_call\":"@,
        bool_text(s.active_call),
        ",\"current_source\":"@,
        number_text(s.current_source),
        ",\"calls_total\":"@,
        decimal(s.calls_total as nat),
        ",\"last_meta_line\":\""@,
        json_escaped(s.last_meta_line),
        "\",\"last_error\":"@,
        quoted_text(s.last_error),
        ",\"peak_dbfs\":"@,
        peak_dbfs,
        ",\"pcm_clip\":"@,
        decimal(s.pcm_clip as nat),
        ",\"freq_hz\":"@,
        decimal(live.rx_freq_hz as nat),
        ",\"gain_db\":"@,
        gain_db,
        ",\"ppm\":"@,
        signed_decimal(live.ppm as int),
        ",\"injection_tg\":"@,
        decimal(live.injection_tg as nat),
        "}"@,
    ]
}

/// Two parts more.
proof fn lemma_two_more(parts: Seq<Seq<char>>, key: Seq<char>, value: Seq<char>)
    ensures
        text_of_parts(parts.push(key).push(value)) == text_of_parts(parts) + key + value,
{
    let one = parts.push(key);
    let two = one.push(value);
    assert(two.drop_last() =~= one);
    assert(one.drop_last() =~= parts);
    assert(two.last() == value && one.last() == key);
    assert(text_of_parts(one) == text_of_parts(parts) + key);
    assert(text_of_parts(two) == text_of_parts(one) + value);
}

proof fn lemma_status_is_its_parts(
    s: StatusView,
    live: LiveSettings,
    peak_dbfs: Seq<char>,
    gain_db: Seq<char>,
)
    ensures
        status_text(s, live, peak_dbfs, gain_db) == text_of_parts(
            status_parts(s, live, peak_dbfs, gain_db),
        ),
{
    let p0: Seq<Seq<char>> = seq![];
    let p1 = p0.push("{\"decoder_running\":"@).push(bool_text(s.decoder_running));
    lemma_two_more(p0, "{\"decoder_running\":"@, bool_text(s.decoder_running));
    let p2 = p1.push(",\"decoder_pid\":"@).push(number_text(s.decoder_pid));
    lemma_two_more(p1, ",\"decoder_pid\":"@, number_text(s.decoder_pid));
    let p3 = p2.push(",\"decoder_restarts\":"@).push(decimal(s.decoder_restarts as nat));
    lemma_two_more(p2, ",\"decoder_restarts\":"@, decimal(s.decoder_restarts as nat));
    let p4 = p3.push(",\"pcm_frames\":"@).push(decimal(s.pcm_frames as nat));
    lemma_two_more(p3, ",\"pcm_frames\":"@, decimal(s.pcm_frames as nat));
    let p5 = p4.push(",\"active_call\":"@).push(bool_text(s.active_call));
    lemma_two_more(p4, ",\"active_call\":"@, bool_text(s.active_call));
    let p6 = p5.push(",\"current_source\":"@).push(number_text(s.current_source));
    lemma_two_more(p5, ",\"current_source\":"@, number_text(s.current_source));
    let p7 = p6.push(",\"calls_total\":"@).push(decimal(s.calls_total as nat));
    lemma_two_more(p6, ",\"calls_total\":"@, decimal(s.calls_total as nat));
    let p8 = p7.push(",\"last_meta_line\":\""@).push(json_escaped(s.last_meta_line));
    lemma_two_more(p7, ",\"last_meta_line\":\""@, json_escaped(s.last_meta_line));
    let p9 = p8.push("\",\"last_error\":"@).push(quoted_text(s.last_error));
    lemma_two_more(p8, "\",\"last_error\":"@, quoted_text(s.last_error));
    let p10 = p9.push(",\"peak_dbfs\":"@).push(peak_dbfs);
    lemma_two_more(p9, ",\"peak_dbfs\":"@, peak_dbfs);
    let p11 = p10.push(",\"pcm_clip\":"@).push(decimal(s.pcm_clip as nat));
    lemma_two_more(p10, ",\"pcm_clip\":"@, decimal(s.pcm_clip as nat));
    let p12 = p11.push(",\"freq_hz\":"@).push(decimal(live.rx_freq_hz as nat));
    lemma_two_more(p11, ",\"freq_hz\":"@, decimal(live.rx_freq_hz as nat));
    let p13 = p12.push(",\"gain_db\":"@).push(gain_db);
    lemma_two_more(p12, ",\"gain_db\":"@, gain_db);
    let p14 = p13.push(",\"ppm\":"@).push(signed_decimal(live.ppm as int));
    lemma_two_more(p13, ",\"ppm\":"@, signed_decimal(live.ppm as int));
    let p15 = p14.push(",\"injection_tg\":"@).push(decimal(live.injection_tg as nat));
    lemma_two_more(p14, ",\"injection_tg\":"@, decimal(live.injection_tg as nat));
    let all = p15.push("}"@);
    assert(all.drop_last() =~= p15);
    assert(all =~= status_parts(s, live, peak_dbfs, gain_db));
    assert(text_of_parts(p0) + "{\"decoder_running\":"@ =~= "{\"decoder_running\":"@);
}

/// The status shows every figure under its own name: a reader that looks for a key
/// finds the value of that field behind it.
pub proof fn law_status_shows_each_field_by_name(
    s: StatusView,
    live: LiveSettings,
    peak_dbfs: Seq<char>,
    gain_db: Seq<char>,
)
    ensures
        ({
            let text = status_text(s, live, peak_dbfs, gain_db);
            &&& is_field(text, "{\"decoder_running\":"@, bool_text(s.decoder_running))
            &&& is_field(text, ",\"decoder_pid\":"@, number_text(s.decoder_pid))
            &&& is_field(text, ",\"decoder_restarts\":"@, decimal(s.decoder_restarts as nat))
            &&& is_field(text, ",\"pcm_frames\":"@, decimal(s.pcm_frames as nat))
            &&& is_field(text, ",\"active_call\":"@, bool_text(s.active_call))
            &&& is_field(text, ",\"current_source\":"@, number_text(s.current_source))
            &&& is_field(text, ",\"calls_total\":"@, decimal(s.calls_total as nat))
            &&& is_field(text, ",\"last_meta_line\":\""@, json_escaped(s.last_meta_line))
            &&& is_field(text, "\",\"last_error\":"@, quoted_text(s.last_error))
            &&& is_field(text, ",\"peak_dbfs\":"@, peak_dbfs)
            &&& is_field(text, ",\"pcm_clip\":"@, decimal(s.pcm_clip as nat))
            &&& is_field(text, ",\"freq_hz\":"@, decimal(live.rx_freq_hz as nat))
            &&& is_field(text, ",\"gain_db\":"@, gain_db)
            &&& is_field(text, ",\"ppm\":"@, signed_decimal(live.ppm as int))
            &&& is_field(text, ",\"injection_tg\":"@, decimal(live.injection_tg as nat))
        }),
{
    reveal_strlit("{\"decoder_running\":");
    reveal_strlit(",\"decoder_pid\":");
    reveal_strlit(",\"decoder_restarts\":");
    reveal_strlit(",\"pcm_frames\":");
    reveal_strlit(",\"active_call\":");
    reveal_strlit(",\"current_source\":");
    reveal_strlit(",\"calls_total\":");
    reveal_strlit(",\"last_meta_line\":\"");
    reveal_strlit("\",\"last_error\":");
    reveal_strlit(",\"peak_dbfs\":");
    reveal_strlit(",\"pcm_clip\":");
    reveal_strlit(",\"freq_hz\":");
    reveal_strlit(",\"gain_db\":");
    reveal_strlit(",\"ppm\":");
    reveal_strlit(",\"injection_tg\":");
    reveal_strlit("}");
    lemma_status_is_its_parts(s, live, peak_dbfs, gain_db);
    let parts = status_parts(s, live, peak_dbfs, gain_db);
    lemma_field_of_parts(parts, 0);
    lemma_field_of_parts(parts, 2);
    lemma_field_of_parts(parts, 4);
    lemma_field_of_parts(parts, 6);
    lemma_field_of_parts(parts, 8);
    lemma_field_of_parts(parts, 10);
    lemma_field_of_parts(parts, 12);
    lemma_field_of_parts(parts, 14);
    lemma_field_of_parts(parts, 16);
    lemma_field_of_parts(parts, 18);
    lemma_field_of_parts(parts, 20);
    lemma_field_of_parts(parts, 22);
    lemma_field_of_parts(parts, 24);
    lemma_field_of_parts(parts, 26);
    lemma_field_of_parts(parts, 28);
}

/// Under the path of recordings a name is served exactly when it has no slash, no
/// two dots in a row, and ends in `.wav`; any other is a bad name.
pub proof fn law_names_that_are_served(name: Seq<char>)
    ensures
        ({
            let ok = {
                &&& forall|i: int| 0 <= i < name.len() ==> (#[trigger] name[i]) != '/'
                &&& forall|i: int|
                    0 < i < name.len() ==> !((#[trigger] name[i]) == '.' && name[i - 1] == '.')
                &&& name.len() >= 4
                &&& name[name.len() - 4] == '.'
                &&& name[name.len() - 3] == 'w'
                &&& name[name.len() - 2] == 'a'
                &&& name[name.len() - 1] == 'v'
            };
            route_of("GET"@, "/rec/"@ + name) == (if ok {
                RouteView::Recording(name)
            } else {
                RouteView::BadName
            })
        }),
{
    reveal_strlit("GET");
    reveal_strlit("/rec/");
    reveal_strlit("/");
    reveal_strlit("/api/status");
    reveal_strlit("/api/log");
    reveal_strlit("/api/recordings");
    reveal_strlit("..");
    let path = "/rec/"@ + name;
    assert(path[1] == 'r');
    assert("/api/status"@[1] == 'a' && "/api/log"@[1] == 'a' && "/api/recordings"@[1] == 'a');
    assert(path.len() >= 5 && "/"@.len() == 1);
    assert(path.take(5) =~= "/rec/"@);
    assert(path.skip(5) =~= name);
    crate::recorder::law_recordings_end_in_wav(name);
    let dots = find(name, ".."@);
    if dots is Some {
        let i = dots->0;
        crate::scan::law_find_finds_the_first(name, ".."@, 0);
        assert(name.subrange(i, i + 2)[0] == name[i] && name.subrange(i, i + 2)[1] == name[i + 1]);
        assert(name[i + 1] == '.' && name[(i + 1) - 1] == '.');
    } else {
        assert forall|i: int| 0 < i < name.len() implies !((#[trigger] name[i]) == '.' && name[i
            - 1] == '.') by {
            crate::scan::law_find_finds_the_first(name, ".."@, i - 1);
            let sub = name.subrange(i - 1, i + 1);
            if name[i] == '.' && name[i - 1] == '.' {
                assert(sub =~= ".."@);
            }
        }
    }
    if name.contains('/') {
        let i = choose|i: int| 0 <= i < name.len() && name[i] == '/';
        assert(name[i] == '/');
    }
}

/// Only reading is answered, but for the one path that is written to: any other
/// method, or any other path, is not found.
pub proof fn law_other_requests_are_not_found(method: Seq<char>, path: Seq<char>)
    ensures
        method != "GET"@ && method != "POST"@ ==> route_of(method, path) is NotFound,
        method == "POST"@ && path != "/api/control"@ ==> route_of(method, path) is NotFound,
        method == "POST"@ && path == "/api/control"@ ==> route_of(method, path) is Control,
        method == "GET"@ && path.len() > 0 && path[0] != '/' ==> route_of(method, path) is NotFound,
        method == "GET"@ && path == "/"@ ==> route_of(method, path) is Page,
        method == "GET"@ && path == "/api/status"@ ==> route_of(method, path) is Status,
        method == "GET"@ && path == "/api/log"@ ==> route_of(method, path) is Log,
        method == "GET"@ && path == "/api/recordings"@ ==> route_of(method, path) is Recordings,
{
    reveal_strlit("GET");
    reveal_strlit("POST");
    reveal_strlit("/");
    reveal_strlit("/rec/");
    reveal_strlit("/api/status");
    reveal_strlit("/api/log");
    reveal_strlit("/api/recordings");
    assert("GET"@.len() == 3 && "POST"@.len() == 4);
    assert("/"@.len() == 1 && "/api/status"@.len() == 11 && "/api/log"@.len() == 8);
    assert("/api/recordings"@.len() == 15);
    assert("/"@[0] == '/' && "/api/status"@[0] == '/' && "/api/log"@[0] == '/');
    assert("/api/recordings"@[0] == '/' && "/rec/"@[0] == '/');
    if path.len() >= 5 {
        assert(path.take(5)[0] == path[0]);
    }
}

/// Method and path are the first two words of the first line, whatever lines follow.
pub proof fn law_first_line_says_what_is_asked_for(
    method: Seq<char>,
    path: Seq<char>,
    tail: Seq<char>,
    rest: Seq<char>,
)
    requires
        method.len() > 0,
        path.len() > 0,
        forall|i: int| 0 <= i < method.len() ==> !is_white(#[trigger] method[i]),
        forall|i: int| 0 <= i < path.len() ==> !is_white(#[trigger] path[i]),
        tail.len() > 0 ==> is_white(tail[0]),
        !tail.contains('\n'),
    ensures
        ({
            let text = method + (seq![' '] + path + tail) + (seq!['\n'] + rest);
            request_of(text).method == method && request_of(text).path == path
        }),
{
    let line = method + (seq![' '] + path + tail);
    let text = line + (seq!['\n'] + rest);
    crate::scan::lemma_upto(text, '\n');
    let n = upto(text, '\n');
    assert(text[line.len() as int] == '\n');
    assert(is_white('\n'));
    assert forall|i: int| 0 <= i < line.len() implies line[i] != '\n' by {
        let a = method.len() as int;
        let b = a + 1;
        let c = b + path.len();
        if i < a {
            assert(line[i] == method[i]);
        } else if i == a {
            assert(line[i] == ' ');
        } else if i < c {
            assert(line[i] == path[i - b]);
        } else {
            assert(line[i] == tail[i - c]);
            assert(tail.contains(tail[i - c]));
        }
    }
    if n < line.len() {
        assert(text[n] == line[n]);
    }
    assert(text.take(n) =~= line);
    let none: Seq<char> = seq![];
    let behind = seq![' '] + path + tail;
    assert(is_white(' '));
    crate::scan::law_words_have_no_white_space(none, method, behind);
    assert(none + method + behind =~= line);
    crate::scan::law_words_have_no_white_space(seq![' '], path, tail);
}

/// The body is what stands behind the first empty line, up to the next one.
pub proof fn law_body_stands_behind_the_empty_line(text: Seq<char>, i: int)
    requires
        0 <= i,
        i + 4 <= text.len(),
        text.subrange(i, i + 4) == seq!['\r', '\n', '\r', '\n'],
        forall|k: int|
            0 <= k < i ==> #[trigger] text.subrange(k, k + 4) != seq!['\r', '\n', '\r', '\n'],
        forall|k: int|
            i + 4 <= k && k + 4 <= text.len() ==> #[trigger] text.subrange(k, k + 4)
                != seq!['\r', '\n', '\r', '\n'],
    ensures
        request_of(text).body == text.skip(i + 4),
{
    reveal_strlit("\r\n\r\n");
    let gap = "\r\n\r\n"@;
    assert(gap =~= seq!['\r', '\n', '\r', '\n']);
    crate::scan::law_find_finds_the_first(text, gap, i);
    let f = find(text, gap);
    assert(f is Some);
    let j = f->0;
    assert(j == i) by {
        assert(text.subrange(j, j + 4) == gap);
        crate::scan::law_find_finds_the_first(text, gap, i);
    }
    let rest = text.skip(i + 4);
    let g = find(rest, gap);
    if g is Some {
        let k = g->0;
        crate::scan::law_find_finds_the_first(rest, gap, 0);
        assert(rest.subrange(k, k + 4) =~= text.subrange(i + 4 + k, i + 4 + k + 4));
    }
}

/// What can be shown is shown as it is; line ends and tabs show as a space, and other
/// control characters do not show.
pub proof fn law_plain_text_is_shown_as_it_is(s: Seq<char>, c: char)
    ensures
        (forall|i: int| 0 <= i < s.len() ==> (#[trigger] s[i]) as u32 >= 0x20) ==> shown(s) == s,
        shown_char('\n') == seq![' '],
        shown_char('\r') == seq![' '],
        shown_char('\t') == seq![' '],
        (c as u32) < 0x20 && c != '\n' && c != '\r' && c != '\t' ==> shown_char(c).len() == 0,
    decreases s.len(),
{
    if s.len() > 0 {
        let rest = s.skip(1);
        law_plain_text_is_shown_as_it_is(rest, c);
        if forall|i: int| 0 <= i < s.len() ==> (#[trigger] s[i]) as u32 >= 0x20 {
            assert forall|i: int| 0 <= i < rest.len() implies (#[trigger] rest[i]) as u32
                >= 0x20 by {
                assert(rest[i] == s[i + 1]);
            }
            assert(s[0] as u32 >= 0x20);
            assert(seq![s[0]] + rest =~= s);
        }
    } else {
        assert(shown(s) =~= s);
    }
}

/// A pair sets what its key names and nothing else, with the white space round the
/// value left out: a number where it fits, a fraction as it is written.
pub proof fn law_pairs_set_what_they_name(
    c: ControlView,
    n: int,
    m: nat,
    text: Seq<char>,
    a: Seq<char>,
    b: Seq<char>,
)
    requires
        forall|i: int| 0 <= i < a.len() ==> is_white(#[trigger] a[i]),
        forall|i: int| 0 <= i < b.len() ==> is_white(#[trigger] b[i]),
        text.len() > 0,
        !is_white(text[0]),
        !is_white(text.last()),
    ensures
        c.with_pair("freq_mhz"@ + (seq!['='] + (a + text + b))) == (ControlView {
            freq_mhz: c.freq_mhz.push(text),
            ..c
        }),
        c.with_pair("gain_db"@ + (seq!['='] + (a + text + b))) == (ControlView {
            gain_db: c.gain_db.push(text),
            ..c
        }),
        c.with_pair("ppm"@ + (seq!['='] + (a + signed_decimal(n) + b))) == (ControlView {
            ppm: if i32::MIN <= n <= i32::MAX {
                Some(n as i32)
            } else {
                c.ppm
            },
            ..c
        }),
        c.with_pair("injection_tg"@ + (seq!['='] + (a + decimal(m) + b))) == (ControlView {
            injection_tg: if m <= u32::MAX {
                Some(m as u32)
            } else {
                c.injection_tg
            },
            ..c
        }),
{
    reveal_strlit("freq_mhz");
    reveal_strlit("gain_db");
    reveal_strlit("ppm");
    reveal_strlit("injection_tg");
    assert("freq_mhz"@.len() == 8 && "gain_db"@.len() == 7);
    assert("ppm"@.len() == 3 && "injection_tg"@.len() == 12);
    lemma_pair("freq_mhz"@, a + text + b);
    lemma_pair("gain_db"@, a + text + b);
    lemma_pair("ppm"@, a + signed_decimal(n) + b);
    lemma_pair("injection_tg"@, a + decimal(m) + b);
    crate::scan::law_trim_takes_white_space_off(a, text, b);
    lemma_digits_are_not_white(n);
    lemma_digits_are_not_white(m as int);
    crate::scan::law_trim_takes_white_space_off(a, signed_decimal(n), b);
    crate::scan::law_trim_takes_white_space_off(a, decimal(m), b);
    crate::text::law_signed_numbers_are_read_within_the_limits(
        n,
        i32::MIN as int,
        i32::MAX as int,
    );
    crate::text::law_numbers_are_read_up_to_the_limit(m, u32::MAX as nat);
}

/// A key without `=` is what stands before the first one.
proof fn lemma_pair(key: Seq<char>, value: Seq<char>)
    requires
        !key.contains('='),
    ensures
        split_once(key + (seq!['='] + value), '=') == Some((key, value)),
{
    let all = key + (seq!['='] + value);
    crate::scan::lemma_upto(all, '=');
    let n = upto(all, '=');
    assert(all[key.len() as int] == '=');
    if n < key.len() {
        assert(all[n] == key[n]);
        assert(key.contains(key[n]));
    }
    assert(all.take(n) =~= key);
    assert(all.skip(n + 1) =~= value);
}

proof fn lemma_digits_are_not_white(n: int)
    ensures
        signed_decimal(n).len() > 0,
        !is_white(signed_decimal(n)[0]),
        !is_white(signed_decimal(n).last()),
{
    let m = if n < 0 {
        (-n) as nat
    } else {
        n as nat
    };
    crate::text::law_parse_of_decimal(m);
    assert(crate::text::is_digit(decimal(m)[0]));
    assert(crate::text::is_digit(decimal(m)[decimal(m).len() - 1]));
    assert(decimal(m).last() == decimal(m)[decimal(m).len() - 1]);
    if n < 0 {
        assert(signed_decimal(n)[0] == '-');
        assert(signed_decimal(n).last() == decimal(m).last());
    }
}

/// A key that is not known, and a pair without `=`, change nothing.
pub proof fn law_other_pairs_are_ignored(c: ControlView, key: Seq<char>, value: Seq<char>)
    requires
        !key.contains('='),
        key != "freq_mhz"@,
        key != "gain_db"@,
        key != "ppm"@,
        key != "injection_tg"@,
    ensures
        c.with_pair(key + (seq!['='] + value)) == c,
        c.with_pair(key) == c,
{
    lemma_pair(key, value);
    crate::scan::law_split_gives_the_text_back(key, '=');
    if split_once(key, '=') is Some {
        crate::scan::lemma_upto(key, '=');
        assert(key.contains(key[upto(key, '=')]));
    }
}

/// A control request replaces what it gives and keeps the rest.
pub proof fn law_control_keeps_what_it_does_not_name(
    live: LiveSettings,
    freq_hz: Option<u64>,
    gain_db_bits: Option<u32>,
    ppm: Option<i32>,
    injection_tg: Option<u32>,
)
    ensures
        ({
            let after = adjusted(live, freq_hz, gain_db_bits, ppm, injection_tg);
            &&& freq_hz matches Some(x) ==> after.rx_freq_hz == x
            &&& freq_hz is None ==> after.rx_freq_hz == live.rx_freq_hz
            &&& gain_db_bits matches Some(x) ==> after.gain_db_bits == x
            &&& gain_db_bits is None ==> after.gain_db_bits == live.gain_db_bits
            &&& ppm matches Some(x) ==> after.ppm == x
            &&& ppm is None ==> after.ppm == live.ppm
            &&& injection_tg matches Some(x) ==> after.injection_tg == x
            &&& injection_tg is None ==> after.injection_tg == live.injection_tg
        }),
{
}

/// Truth values, numbers and strings are written as JSON has them, and what is not
/// there as `null`.
pub proof fn law_values_are_written_as_json(b: bool, n: u32, s: Seq<char>)
    ensures
        bool_text(true) == "true"@,
        bool_text(false) == "false"@,
        number_text(Some(n)) == decimal(n as nat),
        number_text(None) == "null"@,
        quoted_text(None) == "null"@,
        json_read(quoted_text(Some(s)).skip(1)) == Some((shown(s), Seq::<char>::empty())),
        quoted_text(Some(s))[0] == '"',
{
    reveal_strlit("\"");
    law_json_text_reads_back(s, seq![]);
    let q = quoted_text(Some(s));
    assert(q.skip(1) =~= json_escaped(s) + "\""@ + seq![]);
}

/// A recording is listed with its name and its size, each under its own key.
pub proof fn law_recording_shows_name_and_size(name: Seq<char>, size: u64)
    ensures
        is_field(recording_entry(name, size), "{\"name\":\""@, json_escaped(name)),
        is_field(recording_entry(name, size), "\",\"size\":"@, decimal(size as nat)),
{
    reveal_strlit("{\"name\":\"");
    reveal_strlit("\",\"size\":");
    reveal_strlit("}");
    let p0: Seq<Seq<char>> = seq![];
    let p1 = p0.push("{\"name\":\""@).push(json_escaped(name));
    let p2 = p1.push("\",\"size\":"@).push(decimal(size as nat));
    lemma_two_more(p0, "{\"name\":\""@, json_escaped(name));
    lemma_two_more(p1, "\",\"size\":"@, decimal(size as nat));
    let all = p2.push("}"@);
    assert(all.drop_last() =~= p2);
    assert(text_of_parts(p0) + "{\"name\":\""@ =~= "{\"name\":\""@);
    assert(text_of_parts(all) == recording_entry(name, size));
    lemma_field_of_parts(all, 0);
    lemma_field_of_parts(all, 2);
}

/// Recordings are listed in their order, with a comma between each two.
pub proof fn law_recordings_are_listed_in_order(files: Seq<(String, u64)>, f: (String, u64))
    ensures
        recording_entries(seq![]) == Seq::<char>::empty(),
        recording_entries(seq![f]) == recording_entry(f.0@, f.1),
        files.len() > 0 ==> recording_entries(files.push(f)) == recording_entries(files) + ","@
            + recording_entry(f.0@, f.1),
{
    assert(files.push(f).drop_last() =~= files);
    assert(files.push(f).last() == f);
    assert(seq![f].last() == f);
}

} // verus!
