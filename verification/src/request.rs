//! Request-level helpers around the engine: path and query parameter
//! shapes, the date-slug guard, the access decision for one request, the
//! search modifier flags, and the rendering-ready line view.

use vstd::prelude::*;
use crate::text::{is_digit, parsed_u64, parse_u64, str_eq};
use crate::reader::{LogLine, LogLineView, LogContentView, Timestamp};
use crate::archive::{private_decision, credentials_decision};

verus! {

/// The channel named in a request path.
#[derive(Clone, Debug)]
pub struct ChannelParams {
    pub channel: String,
}

/// The query of a line-browsing request: the date slug, an optional
/// selected line, and the raw-bytes switch.
#[derive(Clone, Debug)]
pub struct ChannelLinesQuery {
    pub date: String,
    pub sel: Option<String>,
    pub raw: Option<String>,
}

/// The query of a search request: the pattern and its three modifiers.
#[derive(Clone, Debug)]
pub struct ChannelSearchQuery {
    pub search: Option<String>,
    pub case: Option<String>,
    pub verbatim: Option<String>,
    pub word: Option<String>,
}

/// A word character as the date-slug guard accepts it: an ASCII letter,
/// digit or underscore.
pub open spec fn is_word_char(c: char) -> bool {
    ||| 97 <= c as u32 && c as u32 <= 122
    ||| 65 <= c as u32 && c as u32 <= 90
    ||| is_digit(c)
    ||| c == '_'
}

/// The guard on a requested date slug: `YYYY-MM-DD`, one comma, then one
/// or more word characters.
pub open spec fn is_canonical_date_slug(s: Seq<char>) -> bool {
    &&& s.len() >= 12
    &&& is_digit(s[0])
    &&& is_digit(s[1])
    &&& is_digit(s[2])
    &&& is_digit(s[3])
    &&& s[4] == '-'
    &&& is_digit(s[5])
    &&& is_digit(s[6])
    &&& s[7] == '-'
    &&& is_digit(s[8])
    &&& is_digit(s[9])
    &&& s[10] == ','
    &&& forall|i: int| 11 <= i < s.len() ==> is_word_char(#[trigger] s[i])
}

/// Decides `is_canonical_date_slug`.
pub fn is_date_string_ok(s: &str) -> (r: bool)
    ensures
        r == is_canonical_date_slug(s@),
{
    let n = s.unicode_len();
    if n < 12 {
        return false;
    }
    if s.get_char(4) != '-' || s.get_char(7) != '-' || s.get_char(10) != ',' {
        return false;
    }
    let mut k: usize = 0;
    while k < 10
        invariant
            0 <= k <= 10,
            n == s@.len() >= 12,
            forall|t: int| 0 <= t < k && t != 4 && t != 7 ==> is_digit(#[trigger] s@[t]),
        decreases 10 - k,
    {
        if k != 4 && k != 7 {
            let code = s.get_char(k) as u32;
            if code < 48 || code > 57 {
                return false;
            }
        }
        k += 1;
    }
    let mut i: usize = 11;
    while i < n
        invariant
            11 <= i <= n == s@.len(),
            forall|t: int| 11 <= t < i ==> is_word_char(#[trigger] s@[t]),
        decreases n - i,
    {
        let code = s.get_char(i) as u32;
        let ok = (97 <= code && code <= 122) || (65 <= code && code <= 90) || (48 <= code && code
            <= 57) || code == 95;
        if !ok {
            proof {
                vstd::utf8::char_u32_cast(s@[i as int], code);
            }
            return false;
        }
        i += 1;
    }
    true
}

/// Credentials presented with a request, already stripped of their
/// transport encoding.
#[derive(Clone, Debug)]
pub struct AuthCredentials {
    pub user_id: String,
    pub password: String,
}

/// Mathematical image of `AuthCredentials`.
#[verifier::ext_equal]
pub struct AuthCredentialsView {
    pub user_id: Seq<char>,
    pub password: Seq<char>,
}

impl View for AuthCredentials {
    type V = AuthCredentialsView;

    open spec fn view(&self) -> AuthCredentialsView {
        AuthCredentialsView { user_id: self.user_id@, password: self.password@ }
    }
}

pub open spec fn creds_view(c: Option<AuthCredentials>) -> Option<AuthCredentialsView> {
    match c {
        Option::Some(x) => Option::Some(x@),
        Option::None => Option::None,
    }
}

/// Whether one request may see a channel: a public channel always, a
/// private one only with credentials whose identity is the channel name
/// and whose password the table verifies; absent credentials are a failed
/// check, not an error.
pub open spec fn access_decision(
    channel: Seq<char>,
    marked_public: bool,
    table: Seq<char>,
    creds: Option<AuthCredentialsView>,
) -> bool {
    if !private_decision(marked_public, table, channel) {
        true
    } else {
        match creds {
            Option::None => false,
            Option::Some(c) => credentials_decision(channel, c.user_id, c.password, table),
        }
    }
}

/// Decides `access_decision` for one request.
pub fn user_has_access(
    channel: &str,
    marked_public: bool,
    table: &str,
    credentials: &Option<AuthCredentials>,
) -> (r: bool)
    ensures
        r == access_decision(channel@, marked_public, table@, creds_view(*credentials)),
{
    if marked_public || !crate::credentials::table_contains(table, channel) {
        return true;
    }
    match credentials {
        None => false,
        Some(c) => str_eq(c.user_id.as_str(), channel) && crate::credentials::verify_password(
            table,
            channel,
            c.password.as_str(),
        ),
    }
}

/// An optional query flag is on exactly when it holds the text `on`.
pub open spec fn flag_is_on(o: Option<String>) -> bool {
    match o {
        Option::Some(s) => s@ == "on"@,
        Option::None => false,
    }
}

/// Reads the three search modifiers out of a search query, exactly as
/// `flag_is_on` describes each.
pub fn search_modifiers(q: &ChannelSearchQuery) -> (r: (bool, bool, bool))
    ensures
        r.0 == flag_is_on(q.case),
        r.1 == flag_is_on(q.verbatim),
        r.2 == flag_is_on(q.word),
{
    let case = match &q.case {
        Some(s) => str_eq(s.as_str(), "on"),
        None => false,
    };
    let verbatim = match &q.verbatim {
        Some(s) => str_eq(s.as_str(), "on"),
        None => false,
    };
    let word = match &q.word {
        Some(s) => str_eq(s.as_str(), "on"),
        None => false,
    };
    (case, verbatim, word)
}

/// The selected line of a line-browsing request: the `sel` field read as a
/// `u64`, or the largest value when absent or unreadable (no line is
/// selected then).
pub open spec fn selected_line_of(sel: Option<String>) -> u64 {
    match sel {
        Option::None => u64::MAX,
        Option::Some(s) => match parsed_u64(s@) {
            Option::Some(v) => v as u64,
            Option::None => u64::MAX,
        },
    }
}

/// Decides `selected_line_of`.
pub fn selected_line(sel: &Option<String>) -> (r: u64)
    ensures
        r == selected_line_of(*sel),
{
    match sel {
        None => u64::MAX,
        Some(s) => match parse_u64(s.as_str()) {
            Some(v) => v,
            None => u64::MAX,
        },
    }
}

/// One line ready for rendering: a status line shows an empty nickname;
/// line numbers start at one.
#[derive(Clone, Debug)]
pub struct LogOutputLine {
    pub date: Timestamp,
    pub nickname: String,
    pub text: String,
    pub line_number: u64,
}

/// Mathematical image of `LogOutputLine`.
#[verifier::ext_equal]
pub struct LogOutputLineView {
    pub date: Timestamp,
    pub nickname: Seq<char>,
    pub text: Seq<char>,
    pub line_number: u64,
}

impl View for LogOutputLine {
    type V = LogOutputLineView;

    open spec fn view(&self) -> LogOutputLineView {
        LogOutputLineView {
            date: self.date,
            nickname: self.nickname@,
            text: self.text@,
            line_number: self.line_number,
        }
    }
}

/// The rendering-ready image of one parsed line under its one-based
/// number.
pub open spec fn output_line_of(v: LogLineView, num: int) -> LogOutputLineView {
    match v.content {
        LogContentView::Status(t) => LogOutputLineView {
            date: v.date,
            nickname: Seq::empty(),
            text: t,
            line_number: num as u64,
        },
        LogContentView::Message { nickname, text } => LogOutputLineView {
            date: v.date,
            nickname,
            text,
            line_number: num as u64,
        },
    }
}

/// Flattens parsed lines for rendering, numbering them from one, exactly
/// as `output_line_of` describes each.
pub fn make_output_lines(lines: &Vec<LogLine>) -> (r: Vec<LogOutputLine>)
    ensures
        r@.len() == lines@.len(),
        forall|i: int|
            0 <= i < lines@.len() ==> (#[trigger] r@[i])@ == output_line_of(lines@[i]@, i + 1),
{
    let n = lines.len();
    let mut r: Vec<LogOutputLine> = Vec::new();
    let mut i: usize = 0;
    while i < n
        invariant
            0 <= i <= n == lines@.len(),
            r@.len() == i,
            forall|k: int|
                0 <= k < i ==> (#[trigger] r@[k])@ == output_line_of(lines@[k]@, k + 1),
        decreases n - i,
    {
        let line = &lines[i];
        let out = match &line.content {
            crate::reader::LogLineContent::Status(text) => LogOutputLine {
                date: line.date,
                nickname: String::new(),
                text: text.clone(),
                line_number: (i as u64) + 1,
            },
            crate::reader::LogLineContent::Message { nickname, text } => LogOutputLine {
                date: line.date,
                nickname: nickname.clone(),
                text: text.clone(),
                line_number: (i as u64) + 1,
            },
        };
        proof {
            assert(out@ =~~= output_line_of(lines@[i as int]@, i + 1));
        }
        r.push(out);
        i += 1;
    }
    r
}

} // verus!
