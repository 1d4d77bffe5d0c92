//! The transcript line parser and the per-day reading passes.
//!
//! A transcript line has the shape `"[" HH ":" MM "] " TOKEN " " REST`: a
//! two-digit hour and minute, one space, a whitespace-free token, one space,
//! and the rest of the line. A token of `***` (after stripping angle
//! brackets) marks a status line; any other token is a nickname, stripped of
//! leading `<` and trailing `>`. The cheap counting pass never parses: it
//! counts every line that does not contain the marker `"] *** "`.

use vstd::prelude::*;
use crate::date::LogDate;
use crate::errors::{ArchiveError, is_parse_error};
use crate::text::{
    is_ws,
    is_digit,
    digit_val,
    find_ws_from,
    find_ws,
    has_status_marker,
    contains_status_marker,
    views_of,
};

verus! {

/// A calendar date with a time of day; transcript timestamps carry no
/// seconds.
#[derive(Clone, Copy, Debug, PartialEq, Eq, Structural)]
pub struct Timestamp {
    pub date: LogDate,
    pub hour: u8,
    pub minute: u8,
}

/// What one transcript line records: a spoken message or a status event.
#[derive(Clone, Debug)]
pub enum LogLineContent {
    Message { nickname: String, text: String },
    Status(String),
}

/// One parsed transcript line.
#[derive(Clone, Debug)]
pub struct LogLine {
    pub date: Timestamp,
    pub content: LogLineContent,
}

/// Mathematical image of `LogLineContent`.
#[verifier::ext_equal]
pub enum LogContentView {
    Message { nickname: Seq<char>, text: Seq<char> },
    Status(Seq<char>),
}

/// Mathematical image of `LogLine`.
#[verifier::ext_equal]
pub struct LogLineView {
    pub date: Timestamp,
    pub content: LogContentView,
}

impl View for LogLineContent {
    type V = LogContentView;

    open spec fn view(&self) -> LogContentView {
        match self {
            LogLineContent::Message { nickname, text } => LogContentView::Message {
                nickname: nickname@,
                text: text@,
            },
            LogLineContent::Status(t) => LogContentView::Status(t@),
        }
    }
}

impl View for LogLine {
    type V = LogLineView;

    open spec fn view(&self) -> LogLineView {
        LogLineView { date: self.date, content: self.content@ }
    }
}

/// End of the token that follows the `"] "` bracket: the first whitespace
/// position at or after 8.
pub open spec fn token_end(s: Seq<char>) -> int {
    find_ws_from(s, 8)
}

/// `s` matches the transcript grammar's shape (time validity aside).
pub open spec fn line_shape(s: Seq<char>) -> bool {
    &&& s.len() >= 9
    &&& s[0] == '['
    &&& is_digit(s[1])
    &&& is_digit(s[2])
    &&& s[3] == ':'
    &&& is_digit(s[4])
    &&& is_digit(s[5])
    &&& s[6] == ']'
    &&& s[7] == ' '
    &&& !is_ws(s[8])
    &&& token_end(s) < s.len()
    &&& s[token_end(s)] == ' '
}

pub open spec fn line_hour(s: Seq<char>) -> int {
    digit_val(s[1]) * 10 + digit_val(s[2])
}

pub open spec fn line_minute(s: Seq<char>) -> int {
    digit_val(s[4]) * 10 + digit_val(s[5])
}

/// Index of the first character of `t` at or after `i` that is not `'<'`.
pub open spec fn skip_lt(t: Seq<char>, i: int) -> int
    decreases t.len() - i,
{
    if i < 0 || i >= t.len() {
        t.len() as int
    } else if t[i] == '<' {
        skip_lt(t, i + 1)
    } else {
        i
    }
}

/// End of the last character of `t` strictly before `j` that is not `'>'`.
pub open spec fn rskip_gt(t: Seq<char>, j: int) -> int
    decreases j,
{
    if j <= 0 {
        0
    } else if 0 < j <= t.len() && t[j - 1] == '>' {
        rskip_gt(t, j - 1)
    } else {
        j
    }
}

/// A token stripped of all leading `'<'` and, after that, all trailing
/// `'>'`.
pub open spec fn trimmed_nick(t: Seq<char>) -> Seq<char> {
    let a = skip_lt(t, 0);
    let b = rskip_gt(t, t.len() as int);
    if b <= a {
        Seq::empty()
    } else {
        t.subrange(a, b)
    }
}

/// The three-star status token.
pub open spec fn is_stars(t: Seq<char>) -> bool {
    t.len() == 3 && t[0] == '*' && t[1] == '*' && t[2] == '*'
}

/// The event one transcript line records on the given date, if the line
/// matches the grammar and its time of day is real; `None` otherwise.
pub open spec fn parsed_line(s: Seq<char>, d: LogDate) -> Option<LogLineView> {
    if line_shape(s) && line_hour(s) <= 23 && line_minute(s) <= 59 {
        let j = token_end(s);
        let token = s.subrange(8, j);
        let text = s.subrange(j + 1, s.len() as int);
        let nick = trimmed_nick(token);
        let ts = Timestamp { date: d, hour: line_hour(s) as u8, minute: line_minute(s) as u8 };
        if is_stars(nick) {
            Some(LogLineView { date: ts, content: LogContentView::Status(text) })
        } else {
            Some(
                LogLineView { date: ts, content: LogContentView::Message { nickname: nick, text } },
            )
        }
    } else {
        None
    }
}

/// Start of a token's nickname, as `skip_lt` names it.
fn nick_start(t: &str) -> (a: usize)
    ensures
        a == skip_lt(t@, 0),
        a <= t@.len(),
{
    let n = t.unicode_len();
    let mut a: usize = 0;
    while a < n
        invariant
            0 <= a <= n == t@.len(),
            skip_lt(t@, 0) == skip_lt(t@, a as int),
        decreases n - a,
    {
        if t.get_char(a) != '<' {
            return a;
        }
        a += 1;
    }
    a
}

/// End of a token's nickname, as `rskip_gt` names it.
fn nick_end(t: &str) -> (b: usize)
    ensures
        b == rskip_gt(t@, t@.len() as int),
        b <= t@.len(),
{
    let n = t.unicode_len();
    let mut b: usize = n;
    while b > 0
        invariant
            0 <= b <= n == t@.len(),
            rskip_gt(t@, n as int) == rskip_gt(t@, b as int),
        decreases b,
    {
        if t.get_char(b - 1) != '>' {
            return b;
        }
        b -= 1;
    }
    b
}

/// Parses one transcript line against the given date, exactly as
/// `parsed_line` describes; a line that matches nothing is a `ParseError`
/// carrying the line itself.
pub fn parse_line(line: &str, date: LogDate) -> (r: Result<LogLine, ArchiveError>)
    ensures
        match parsed_line(line@, date) {
            Some(v) => r is Ok && r->Ok_0@ == v,
            None => r is Err && is_parse_error(r->Err_0, line@),
        },
{
    let n = line.unicode_len();
    if n < 9 {
        return Err(ArchiveError::ParseError(line.to_owned()));
    }
    if line.get_char(0) != '[' || line.get_char(3) != ':' || line.get_char(6) != ']'
        || line.get_char(7) != ' ' {
        return Err(ArchiveError::ParseError(line.to_owned()));
    }
    let c1 = line.get_char(1) as u32;
    let c2 = line.get_char(2) as u32;
    let c4 = line.get_char(4) as u32;
    let c5 = line.get_char(5) as u32;
    if c1 < 48 || c1 > 57 || c2 < 48 || c2 > 57 || c4 < 48 || c4 > 57 || c5 < 48 || c5 > 57 {
        return Err(ArchiveError::ParseError(line.to_owned()));
    }
    if crate::text::ws_char(line.get_char(8)) {
        return Err(ArchiveError::ParseError(line.to_owned()));
    }
    let j = find_ws(line, 8);
    if j == n {
        return Err(ArchiveError::ParseError(line.to_owned()));
    }
    if line.get_char(j) != ' ' {
        return Err(ArchiveError::ParseError(line.to_owned()));
    }
    let hour = (c1 - 48) * 10 + (c2 - 48);
    let minute = (c4 - 48) * 10 + (c5 - 48);
    if hour > 23 || minute > 59 {
        return Err(ArchiveError::ParseError(line.to_owned()));
    }
    let token = line.substring_char(8, j);
    proof {
        assert(token@ =~= line@.subrange(8, token_end(line@)));
    }
    let a = nick_start(token);
    let b = nick_end(token);
    let text = line.substring_char(j + 1, n).to_owned();
    proof {
        assert(text@ =~= line@.subrange(token_end(line@) + 1, line@.len() as int));
    }
    let ts = Timestamp { date, hour: hour as u8, minute: minute as u8 };
    let mut stars = false;
    if b > a && b - a == 3 {
        stars = token.get_char(a) == '*' && token.get_char(a + 1) == '*' && token.get_char(a + 2)
            == '*';
    }
    proof {
        if b > a {
            assert(trimmed_nick(token@) =~= token@.subrange(a as int, b as int));
        } else {
            assert(trimmed_nick(token@) =~= Seq::<char>::empty());
        }
        assert(stars == is_stars(trimmed_nick(token@)));
    }
    if stars {
        let r = LogLine { date: ts, content: LogLineContent::Status(text) };
        proof {
            assert(r@ =~~= parsed_line(line@, date)->0);
        }
        Ok(r)
    } else {
        let nickname = if b > a {
            token.substring_char(a, b).to_owned()
        } else {
            String::new()
        };
        proof {
            assert(nickname@ =~= trimmed_nick(token@));
        }
        let r = LogLine { date: ts, content: LogLineContent::Message { nickname, text } };
        proof {
            assert(r@ =~~= parsed_line(line@, date)->0);
        }
        Ok(r)
    }
}

} // verus!

verus! {

/// Number of lines the cheap pass counts: those without the `"] *** "`
/// marker; blank lines count too, as the pass never parses.
pub open spec fn message_count(lines: Seq<Seq<char>>) -> int
    decreases lines.len(),
{
    if lines.len() == 0 {
        0
    } else {
        let one: int = if has_status_marker(lines.last()) {
            0
        } else {
            1
        };
        message_count(lines.drop_last()) + one
    }
}

/// Counts the lines without the status marker, exactly as `message_count`
/// describes.
pub fn count_messages(lines: &Vec<String>) -> (r: u64)
    ensures
        r == message_count(views_of(lines@)),
{
    let ghost vs = views_of(lines@);
    let n = lines.len();
    let mut count: u64 = 0;
    let mut i: usize = 0;
    proof {
        assert(vs.subrange(0, 0) =~= Seq::<Seq<char>>::empty());
    }
    while i < n
        invariant
            0 <= i <= n == lines@.len(),
            vs == views_of(lines@),
            vs.len() == n,
            0 <= count <= i,
            count == message_count(vs.subrange(0, i as int)),
        decreases n - i,
    {
        proof {
            assert(vs.subrange(0, i + 1).drop_last() =~= vs.subrange(0, i as int));
            assert(vs.subrange(0, i + 1).last() == vs[i as int]);
        }
        if !contains_status_marker(lines[i].as_str()) {
            count += 1;
        }
        i += 1;
    }
    proof {
        assert(vs.subrange(0, n as int) =~= vs);
    }
    count
}

/// What one line contributes to a day's events: nothing if blank or
/// unparsable, its event otherwise (the reading pass rejects a day whole on
/// any unparsable line).
pub open spec fn line_part(l: Seq<char>, d: LogDate) -> Seq<LogLineView> {
    if l.len() == 0 {
        Seq::empty()
    } else {
        match parsed_line(l, d) {
            Some(v) => seq![v],
            None => Seq::empty(),
        }
    }
}

/// The events of a day's lines in order, blanks skipped.
pub open spec fn events_of(lines: Seq<Seq<char>>, d: LogDate) -> Seq<LogLineView>
    decreases lines.len(),
{
    if lines.len() == 0 {
        Seq::empty()
    } else {
        events_of(lines.drop_last(), d) + line_part(lines.last(), d)
    }
}

/// Index of the first nonempty line that fails to parse; `-1` if none does.
pub open spec fn first_bad(lines: Seq<Seq<char>>, d: LogDate) -> int
    decreases lines.len(),
{
    if lines.len() == 0 {
        -1
    } else if lines[0].len() > 0 && parsed_line(lines[0], d) is None {
        0
    } else {
        let r = first_bad(lines.drop_first(), d);
        if r < 0 {
            -1
        } else {
            r + 1
        }
    }
}

proof fn lemma_first_bad_at(lines: Seq<Seq<char>>, d: LogDate, i: int)
    requires
        0 <= i < lines.len(),
        forall|k: int|
            0 <= k < i ==> ((#[trigger] lines[k]).len() == 0 || parsed_line(lines[k], d) is Some),
        lines[i].len() > 0,
        parsed_line(lines[i], d) is None,
    ensures
        first_bad(lines, d) == i,
    decreases i,
{
    if i > 0 {
        let tail = lines.drop_first();
        assert(forall|k: int| 0 <= k < tail.len() ==> #[trigger] tail[k] == lines[k + 1]);
        lemma_first_bad_at(tail, d, i - 1);
    }
}

proof fn lemma_first_bad_none(lines: Seq<Seq<char>>, d: LogDate)
    requires
        forall|k: int|
            0 <= k < lines.len() ==> ((#[trigger] lines[k]).len() == 0 || parsed_line(lines[k], d)
                is Some),
    ensures
        first_bad(lines, d) == -1,
    decreases lines.len(),
{
    if lines.len() > 0 {
        let tail = lines.drop_first();
        assert(forall|k: int| 0 <= k < tail.len() ==> #[trigger] tail[k] == lines[k + 1]);
        lemma_first_bad_none(tail, d);
    }
}

/// Runs the full parser over every nonempty line in order; the first line
/// that matches nothing aborts the whole pass with its `ParseError`.
pub fn parse_transcript(lines: &Vec<String>, date: LogDate) -> (r: Result<
    Vec<LogLine>,
    ArchiveError,
>)
    ensures
        first_bad(views_of(lines@), date) < 0 ==> r is Ok && r->Ok_0@.map_values(
            |x: LogLine| x@,
        ) == events_of(views_of(lines@), date),
        first_bad(views_of(lines@), date) >= 0 ==> r is Err && is_parse_error(
            r->Err_0,
            views_of(lines@)[first_bad(views_of(lines@), date)],
        ),
{
    let ghost vs = views_of(lines@);
    let n = lines.len();
    let mut out: Vec<LogLine> = Vec::new();
    let mut i: usize = 0;
    proof {
        assert(vs.subrange(0, 0) =~= Seq::<Seq<char>>::empty());
        assert(out@.map_values(|x: LogLine| x@) =~~= events_of(vs.subrange(0, 0), date));
    }
    while i < n
        invariant
            0 <= i <= n == lines@.len(),
            vs == views_of(lines@),
            vs.len() == n,
            forall|k: int|
                0 <= k < i ==> ((#[trigger] vs[k]).len() == 0 || parsed_line(vs[k], date)
                    is Some),
            out@.map_values(|x: LogLine| x@) =~~= events_of(vs.subrange(0, i as int), date),
        decreases n - i,
    {
        proof {
            assert(vs.subrange(0, i + 1).drop_last() =~= vs.subrange(0, i as int));
            assert(vs.subrange(0, i + 1).last() == vs[i as int]);
        }
        let s = lines[i].as_str();
        if !s.is_empty() {
            match parse_line(s, date) {
                Ok(ev) => {
                    let ghost prev = out@;
                    out.push(ev);
                    proof {
                        assert(out@.map_values(|x: LogLine| x@) =~~= prev.map_values(
                            |x: LogLine| x@,
                        ).push(ev@));
                        assert(events_of(vs.subrange(0, i + 1), date) =~~= events_of(
                            vs.subrange(0, i as int),
                            date,
                        ) + seq![ev@]);
                    }
                },
                Err(e) => {
                    proof {
                        lemma_first_bad_at(vs, date, i as int);
                    }
                    return Err(e);
                },
            }
        }
        i += 1;
    }
    proof {
        lemma_first_bad_none(vs, date);
        assert(vs.subrange(0, n as int) =~= vs);
    }
    Ok(out)
}

} // verus!

verus! {

use crate::text::lines_from;

/// The text that the transcript decoder yields for the given bytes: UTF-8
/// decoded with replacement after byte-order-mark handling, a function of
/// the bytes alone.
pub uninterp spec fn decoded_text(bytes: Seq<u8>) -> Seq<char>;

/// Relies on encoding_rs_io::DecodeReaderBytesBuilder over encoding_rs's
/// UTF_8: reading the whole input through the built reader yields the bytes
/// decoded as UTF-8 with replacement characters, honouring a leading
/// byte-order mark; the result depends on the bytes alone, and no bytes
/// decode to no text.
#[verifier::external_body]
fn decode_bytes(bytes: &Vec<u8>) -> (r: String)
    ensures
        r@ == decoded_text(bytes@),
        bytes@.len() == 0 ==> r@.len() == 0,
{
    let mut reader = encoding_rs_io::DecodeReaderBytesBuilder::new().encoding(
        Some(encoding_rs::UTF_8),
    ).build(bytes.as_slice());
    let mut out = String::new();
    let _ = std::io::Read::read_to_string(&mut reader, &mut out);
    out
}

/// Decodes a day's raw bytes and cuts them into transcript lines; an empty
/// file yields no lines.
pub fn decode_transcript(bytes: &Vec<u8>) -> (r: Vec<String>)
    ensures
        views_of(r@) == lines_from(decoded_text(bytes@), 0),
        bytes@.len() == 0 ==> r@.len() == 0,
{
    let s = decode_bytes(bytes);
    let r = crate::text::split_lines(s.as_str());
    proof {
        if bytes@.len() == 0 {
            assert(views_of(r@).len() == 0);
        }
    }
    r
}

/// The cheap per-day summary: decodes the raw bytes and counts the lines
/// without the status marker, blank lines included.
pub fn count_message_lines(bytes: &Vec<u8>) -> (r: u64)
    ensures
        r == message_count(lines_from(decoded_text(bytes@), 0)),
{
    let lines = decode_transcript(bytes);
    count_messages(&lines)
}

/// Reads a whole day: decodes the raw bytes, skips blank lines, and parses
/// every remaining line in order against the given date; the first
/// unparsable line aborts the read with its `ParseError`.
pub fn read_lines(bytes: &Vec<u8>, date: LogDate) -> (r: Result<Vec<LogLine>, ArchiveError>)
    ensures
        first_bad(lines_from(decoded_text(bytes@), 0), date) < 0 ==> r is Ok
            && r->Ok_0@.map_values(|x: LogLine| x@) == events_of(
            lines_from(decoded_text(bytes@), 0),
            date,
        ),
        first_bad(lines_from(decoded_text(bytes@), 0), date) >= 0 ==> r is Err && is_parse_error(
            r->Err_0,
            lines_from(decoded_text(bytes@), 0)[first_bad(
                lines_from(decoded_text(bytes@), 0),
                date,
            )],
        ),
{
    let lines = decode_transcript(bytes);
    parse_transcript(&lines, date)
}

/// The events of a day's lines read front to back, one line at a time,
/// blanks skipped: what a caller gets who parses the decoded raw bytes
/// line by line.
pub open spec fn linewise_events(lines: Seq<Seq<char>>, d: LogDate) -> Seq<LogLineView>
    decreases lines.len(),
{
    if lines.len() == 0 {
        Seq::empty()
    } else {
        line_part(lines[0], d) + linewise_events(lines.drop_first(), d)
    }
}

proof fn lemma_linewise_push(lines: Seq<Seq<char>>, x: Seq<char>, d: LogDate)
    ensures
        linewise_events(lines.push(x), d) == linewise_events(lines, d) + line_part(x, d),
    decreases lines.len(),
{
    if lines.len() == 0 {
        assert(lines.push(x)[0] == x);
        assert(lines.push(x).drop_first() =~= Seq::<Seq<char>>::empty());
        assert(linewise_events(Seq::<Seq<char>>::empty(), d) == Seq::<LogLineView>::empty());
        assert(linewise_events(lines.push(x), d) =~~= linewise_events(lines, d) + line_part(
            x,
            d,
        ));
    } else {
        assert(lines.push(x)[0] == lines[0]);
        assert(lines.push(x).drop_first() =~= lines.drop_first().push(x));
        lemma_linewise_push(lines.drop_first(), x, d);
        assert(linewise_events(lines.push(x), d) =~~= linewise_events(lines, d) + line_part(
            x,
            d,
        ));
    }
}

/// Round trip: reading a day whole yields exactly the events of parsing its
/// decoded lines one by one, front to back, blanks skipped.
pub proof fn lemma_events_linewise(lines: Seq<Seq<char>>, d: LogDate)
    ensures
        events_of(lines, d) == linewise_events(lines, d),
    decreases lines.len(),
{
    if lines.len() > 0 {
        let pre = lines.drop_last();
        lemma_events_linewise(pre, d);
        lemma_linewise_push(pre, lines.last(), d);
        assert(pre.push(lines.last()) =~= lines);
    }
}

/// Round trip through the raw bytes: the events `read_lines` yields for a
/// day's bytes equal the events of decoding those same bytes and parsing
/// them line by line, blanks skipped.
pub proof fn lemma_read_day_round_trip(bytes: Seq<u8>, d: LogDate)
    ensures
        events_of(lines_from(decoded_text(bytes), 0), d) == linewise_events(
            lines_from(decoded_text(bytes), 0),
            d,
        ),
{
    lemma_events_linewise(lines_from(decoded_text(bytes), 0), d);
}

} // verus!
