//! The search delegate: builds the external search invocation over a
//! channel's log files and parses the tool's tagged output into structured
//! hits.
//!
//! Output lines have the shape `path:line_number:rest`; a line that does
//! not fit that shape — too few colons, or a number field that cannot be
//! read — is tool noise and is dropped silently, so the tool's own
//! diagnostics never corrupt a result. Consuming stops after ten thousand
//! lines with one sentinel hit appended.

use vstd::prelude::*;
use crate::errors::{ArchiveError, SearchFailure, is_search_failed};
use crate::text::{
    find_from,
    lemma_find_from,
    find_char,
    lines_from,
    views_of,
    trimmed,
    parsed_u64,
    parse_u64,
    stem_of_path,
    stem_of,
};
use crate::reader::decoded_text;
use crate::archive::AppState;

verus! {

/// One structured hit from the external search tool.
#[derive(Clone, Debug)]
pub struct SearchResultEntry {
    pub date_slug: String,
    pub line_number: u64,
    pub raw_line: String,
}

/// Mathematical image of `SearchResultEntry`.
#[verifier::ext_equal]
pub struct SearchResultEntryView {
    pub date_slug: Seq<char>,
    pub line_number: u64,
    pub raw_line: Seq<char>,
}

impl View for SearchResultEntry {
    type V = SearchResultEntryView;

    open spec fn view(&self) -> SearchResultEntryView {
        SearchResultEntryView {
            date_slug: self.date_slug@,
            line_number: self.line_number,
            raw_line: self.raw_line@,
        }
    }
}

/// The ceiling on consumed output lines.
pub open spec fn search_cap() -> int {
    10000
}

/// The sentinel hit appended when the ceiling is reached.
pub open spec fn sentinel_hit() -> SearchResultEntryView {
    SearchResultEntryView {
        date_slug: Seq::empty(),
        line_number: 0,
        raw_line: "(max search results exceed)"@,
    }
}

/// The three fields of an output line split at its first two colons;
/// nothing if the line has fewer than two colons.
pub open spec fn line_fields(l: Seq<char>) -> Option<(Seq<char>, Seq<char>, Seq<char>)> {
    let e1 = find_from(l, 0, ':');
    if e1 >= l.len() {
        None
    } else {
        let e2 = find_from(l, e1 + 1, ':');
        if e2 >= l.len() {
            None
        } else {
            Some((l.subrange(0, e1), l.subrange(e1 + 1, e2), l.subrange(e2 + 1, l.len() as int)))
        }
    }
}

/// What one output line contributes: one hit when it has three fields and
/// its number field reads as a `u64` after trimming, nothing otherwise —
/// malformed lines are noise, never errors. The hit's slug is the matched
/// path's stem.
pub open spec fn hit_part(l: Seq<char>) -> Seq<SearchResultEntryView> {
    match line_fields(l) {
        None => Seq::empty(),
        Some(f) => match parsed_u64(trimmed(f.1)) {
            None => Seq::empty(),
            Some(v) => seq![
                SearchResultEntryView {
                    date_slug: stem_of_path(f.0),
                    line_number: v as u64,
                    raw_line: f.2,
                },
            ],
        },
    }
}

/// The hits of the first `k` output lines, in order.
pub open spec fn hits_prefix(lines: Seq<Seq<char>>, k: int) -> Seq<SearchResultEntryView>
    decreases k,
{
    if k <= 0 {
        Seq::empty()
    } else {
        hits_prefix(lines, k - 1) + hit_part(lines[k - 1])
    }
}

/// What the parsed output owes for given decoded output lines: the hits of
/// the lines before the ceiling, with the sentinel appended when more lines
/// follow.
pub open spec fn search_results_of(lines: Seq<Seq<char>>) -> Seq<SearchResultEntryView> {
    if lines.len() > search_cap() {
        hits_prefix(lines, search_cap()) + seq![sentinel_hit()]
    } else {
        hits_prefix(lines, lines.len() as int)
    }
}

/// Parses the external tool's standard output, exactly as
/// `search_results_of` describes; malformed lines are dropped, so the
/// parse never fails.
pub fn parse_search_output(stdout: &Vec<u8>) -> (r: Vec<SearchResultEntry>)
    ensures
        r@.map_values(|x: SearchResultEntry| x@) == search_results_of(
            lines_from(decoded_text(stdout@), 0),
        ),
{
    let lines = crate::reader::decode_transcript(stdout);
    let ghost ls = lines_from(decoded_text(stdout@), 0);
    let n = lines.len();
    let mut out: Vec<SearchResultEntry> = Vec::new();
    let mut i: usize = 0;
    proof {
        assert(out@.map_values(|x: SearchResultEntry| x@) =~~= hits_prefix(ls, 0));
    }
    while i < n
        invariant
            0 <= i <= n == lines@.len(),
            i <= search_cap(),
            ls == lines_from(decoded_text(stdout@), 0),
            views_of(lines@) == ls,
            out@.map_values(|x: SearchResultEntry| x@) =~~= hits_prefix(ls, i as int),
        decreases n - i,
    {
        if i == 10000 {
            let sentinel = SearchResultEntry {
                date_slug: String::new(),
                line_number: 0,
                raw_line: String::from_str("(max search results exceed)"),
            };
            let ghost prev = out@.map_values(|x: SearchResultEntry| x@);
            out.push(sentinel);
            proof {
                assert(sentinel@ =~~= sentinel_hit());
                assert(out@.map_values(|x: SearchResultEntry| x@) =~~= prev.push(sentinel@));
                assert(out@.map_values(|x: SearchResultEntry| x@) =~~= search_results_of(ls));
            }
            return out;
        }
        let line = lines[i].as_str();
        proof {
            assert(ls[i as int] == views_of(lines@)[i as int]);
            assert(line@ == ls[i as int]);
        }
        let ln = line.unicode_len();
        let e1 = find_char(line, 0, ':');
        proof {
            lemma_find_from(ls[i as int], 0, ':');
        }
        if e1 < ln {
            let e2 = find_char(line, e1 + 1, ':');
            proof {
                lemma_find_from(ls[i as int], e1 + 1, ':');
            }
            if e2 < ln {
                let field1 = crate::text::str_trim(line.substring_char(e1 + 1, e2));
                proof {
                    let fields = line_fields(ls[i as int])->0;
                    assert(field1@ =~= trimmed(fields.1));
                }
                match parse_u64(field1) {
                    None => {
                        proof {
                            assert(hits_prefix(ls, i + 1) =~~= hits_prefix(ls, i as int));
                        }
                    },
                    Some(num) => {
                        let field0 = line.substring_char(0, e1);
                        let field2 = line.substring_char(e2 + 1, ln).to_owned();
                        proof {
                            let fields = line_fields(ls[i as int])->0;
                            assert(field0@ =~= fields.0);
                            assert(field2@ =~= fields.2);
                        }
                        let hit = SearchResultEntry {
                            date_slug: stem_of(field0),
                            line_number: num,
                            raw_line: field2,
                        };
                        let ghost prev = out@.map_values(|x: SearchResultEntry| x@);
                        out.push(hit);
                        proof {
                            assert(out@.map_values(|x: SearchResultEntry| x@) =~~= prev.push(
                                hit@,
                            ));
                            assert(out@.map_values(|x: SearchResultEntry| x@) =~~= hits_prefix(
                                ls,
                                i + 1,
                            ));
                        }
                    },
                }
            } else {
                proof {
                    assert(hits_prefix(ls, i + 1) =~~= hits_prefix(ls, i as int));
                }
            }
        } else {
            proof {
                assert(hits_prefix(ls, i + 1) =~~= hits_prefix(ls, i as int));
            }
        }
        i += 1;
    }
    proof {
        assert(out@.map_values(|x: SearchResultEntry| x@) =~~= search_results_of(ls));
    }
    out
}

} // verus!

verus! {

use crate::archive::log_path_of;

/// The log-file paths of a channel's slugs, in order.
pub open spec fn log_paths_of(dir: Seq<char>, name: Seq<char>, slugs: Seq<Seq<char>>) -> Seq<
    Seq<char>,
> {
    slugs.map_values(|s: Seq<char>| log_path_of(dir, name, s))
}

/// The modifier flags handed to the external tool: case-insensitive by
/// default (`-i0` unless the case flag is set), `-k` for verbatim, `-w` for
/// whole words.
pub open spec fn search_flags(case_sensitive: bool, verbatim: bool, whole_word: bool) -> Seq<
    Seq<char>,
> {
    (if !case_sensitive {
        seq!["-i0"@]
    } else {
        Seq::empty()
    }) + (if verbatim {
        seq!["-k"@]
    } else {
        Seq::empty()
    }) + (if whole_word {
        seq!["-w"@]
    } else {
        Seq::empty()
    })
}

/// The full external invocation: the timeout wrapper and its budget, the
/// tool, the modifier flags, the line-number flag, the query, then every
/// log file of the channel in slug order.
pub open spec fn search_args(
    case_sensitive: bool,
    verbatim: bool,
    whole_word: bool,
    query: Seq<char>,
    paths: Seq<Seq<char>>,
) -> Seq<Seq<char>> {
    seq!["timeout"@, "10s"@, "agrep"@] + search_flags(case_sensitive, verbatim, whole_word) + seq![
        "-n"@,
        query,
    ] + paths
}

impl AppState {
    /// Builds the external search invocation for a channel, exactly as
    /// `search_args` describes; the I/O shell runs element zero with the
    /// rest as its arguments.
    pub fn search_invocation(
        &self,
        channel_name: &str,
        query: &str,
        case_sensitive: bool,
        verbatim: bool,
        whole_word: bool,
        date_slugs: &Vec<String>,
    ) -> (r: Vec<String>)
        ensures
            views_of(r@) == search_args(
                case_sensitive,
                verbatim,
                whole_word,
                query@,
                log_paths_of(self.chat_log_directory@, channel_name@, views_of(date_slugs@)),
            ),
    {
        let ghost dir = self.chat_log_directory@;
        let ghost slugs = views_of(date_slugs@);
        let mut r: Vec<String> = Vec::new();
        r.push(String::from_str("timeout"));
        r.push(String::from_str("10s"));
        r.push(String::from_str("agrep"));
        if !case_sensitive {
            r.push(String::from_str("-i0"));
        }
        if verbatim {
            r.push(String::from_str("-k"));
        }
        if whole_word {
            r.push(String::from_str("-w"));
        }
        r.push(String::from_str("-n"));
        r.push(query.to_owned());
        let ghost head = seq!["timeout"@, "10s"@, "agrep"@] + search_flags(
            case_sensitive,
            verbatim,
            whole_word,
        ) + seq!["-n"@, query@];
        proof {
            assert(views_of(r@) =~~= head);
            assert(views_of(r@) =~~= head + log_paths_of(dir, channel_name@, slugs.subrange(0, 0)));
        }
        let n = date_slugs.len();
        let mut i: usize = 0;
        while i < n
            invariant
                0 <= i <= n == date_slugs@.len(),
                slugs == views_of(date_slugs@),
                dir == self.chat_log_directory@,
                views_of(r@) =~~= head + log_paths_of(
                    dir,
                    channel_name@,
                    slugs.subrange(0, i as int),
                ),
            decreases n - i,
        {
            let path = self.get_log_path(channel_name, date_slugs[i].as_str());
            let ghost prev = views_of(r@);
            r.push(path);
            proof {
                assert(views_of(r@) =~~= prev.push(path@));
                assert(log_paths_of(dir, channel_name@, slugs.subrange(0, i + 1))
                    =~~= log_paths_of(dir, channel_name@, slugs.subrange(0, i as int)).push(
                    log_path_of(dir, channel_name@, slugs[i as int]),
                ));
                assert(views_of(r@) =~~= head + log_paths_of(
                    dir,
                    channel_name@,
                    slugs.subrange(0, i + 1),
                ));
            }
            i += 1;
        }
        proof {
            assert(slugs.subrange(0, n as int) =~= slugs);
        }
        r
    }
}

/// How the external run's exit status reads: success and "no matches" pass,
/// the timeout wrapper's own status is a timeout, anything else — a signal
/// death included — is a process error.
pub open spec fn search_exit_verdict(code: Option<i32>) -> Option<SearchFailure> {
    match code {
        Option::Some(c) => if c == 0 || c == 1 {
            None
        } else if c == 124 {
            Some(SearchFailure::Timeout)
        } else {
            Some(SearchFailure::ProcessError)
        },
        Option::None => Some(SearchFailure::ProcessError),
    }
}

/// Classifies the external run's exit status, exactly as
/// `search_exit_verdict` describes.
pub fn classify_search_exit(code: Option<i32>) -> (r: Result<(), ArchiveError>)
    ensures
        match search_exit_verdict(code) {
            None => r is Ok,
            Some(f) => r is Err && is_search_failed(r->Err_0, f),
        },
{
    match code {
        Some(c) => {
            if c == 0 || c == 1 {
                Ok(())
            } else if c == 124 {
                Err(ArchiveError::SearchFailed(SearchFailure::Timeout))
            } else {
                Err(ArchiveError::SearchFailed(SearchFailure::ProcessError))
            }
        },
        None => Err(ArchiveError::SearchFailed(SearchFailure::ProcessError)),
    }
}

/// An output line that yields one hit: three fields with a readable number.
pub open spec fn proper_hit(l: Seq<char>) -> bool {
    match line_fields(l) {
        None => false,
        Some(f) => parsed_u64(trimmed(f.1)) is Some,
    }
}

proof fn lemma_hits_prefix_full(lines: Seq<Seq<char>>, k: int)
    requires
        0 <= k <= lines.len(),
        forall|j: int| 0 <= j < k ==> proper_hit(#[trigger] lines[j]),
    ensures
        hits_prefix(lines, k).len() == k,
    decreases k,
{
    if k > 0 {
        lemma_hits_prefix_full(lines, k - 1);
    }
}

/// The result cap: when every consumed line is a proper hit and more lines
/// follow the ceiling, the result is exactly ten thousand hits and then one
/// sentinel whose slug is empty and whose line number is zero.
pub proof fn lemma_search_cap_sentinel(lines: Seq<Seq<char>>)
    requires
        lines.len() > search_cap(),
        forall|k: int| 0 <= k < search_cap() ==> proper_hit(#[trigger] lines[k]),
    ensures
        search_results_of(lines).len() == search_cap() + 1,
        search_results_of(lines).last() == sentinel_hit(),
        sentinel_hit().date_slug.len() == 0,
        sentinel_hit().line_number == 0,
{
    lemma_hits_prefix_full(lines, search_cap());
}

} // verus!
