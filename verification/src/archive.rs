//! The archive indexer: discovers a channel's date slices from directory
//! listings, summarizes each day, and orders the results — slugs and daily
//! entries newest first, channels by name.
//!
//! All file reading stays outside; these functions take listings and raw
//! bytes as plain values and are verified end to end.

use vstd::prelude::*;
use crate::date::{LogDate, parsed_slug_date};
use crate::errors::{ArchiveError, is_parse_error};
use crate::text::{lex_le, lemma_lex_total, lemma_lex_trans, str_le, is_log_name, views_of};
use crate::reader::{message_count, decoded_text};
use crate::text::lines_from;
use crate::credentials::{table_has_name, table_accepts, table_contains, verify_password};

verus! {

broadcast use vstd::seq_lib::group_to_multiset_ensures, vstd::seq_lib::to_multiset_insert;

/// Keys descend: every later key is lexicographically at most every earlier
/// one.
pub open spec fn sorted_desc(keys: Seq<Seq<char>>) -> bool {
    forall|i: int, j: int| 0 <= i < j < keys.len() ==> lex_le(keys[j], keys[i])
}

/// Keys ascend: every earlier key is lexicographically at most every later
/// one.
pub open spec fn sorted_asc(keys: Seq<Seq<char>>) -> bool {
    forall|i: int, j: int| 0 <= i < j < keys.len() ==> lex_le(keys[i], keys[j])
}

proof fn lemma_sorted_desc_insert(keys: Seq<Seq<char>>, p: int, x: Seq<char>)
    requires
        sorted_desc(keys),
        0 <= p <= keys.len(),
        forall|k: int| 0 <= k < p ==> !lex_le(#[trigger] keys[k], x),
        p < keys.len() ==> lex_le(keys[p], x),
    ensures
        sorted_desc(keys.insert(p, x)),
{
    let nv = keys.insert(p, x);
    assert forall|a: int, b: int| 0 <= a < b < nv.len() implies lex_le(nv[b], nv[a]) by {
        if a < p && b == p {
            lemma_lex_total(keys[a], x);
        } else if a == p && b > p {
            if b - 1 > p {
                lemma_lex_trans(keys[b - 1], keys[p], x);
            }
        }
    }
}

proof fn lemma_sorted_asc_insert(keys: Seq<Seq<char>>, p: int, x: Seq<char>)
    requires
        sorted_asc(keys),
        0 <= p <= keys.len(),
        forall|k: int| 0 <= k < p ==> !lex_le(x, #[trigger] keys[k]),
        p < keys.len() ==> lex_le(x, keys[p]),
    ensures
        sorted_asc(keys.insert(p, x)),
{
    let nv = keys.insert(p, x);
    assert forall|a: int, b: int| 0 <= a < b < nv.len() implies lex_le(nv[a], nv[b]) by {
        if a < p && b == p {
            lemma_lex_total(x, keys[a]);
        } else if a == p && b > p {
            if b - 1 > p {
                lemma_lex_trans(x, keys[p], keys[b - 1]);
            }
        }
    }
}

/// Insertion point that keeps a descending vector descending: the first
/// index whose element is at most `x`.
fn insert_pos_desc(out: &Vec<String>, x: &str) -> (p: usize)
    ensures
        p <= out@.len(),
        forall|k: int| 0 <= k < p ==> !lex_le(#[trigger] views_of(out@)[k], x@),
        p < out@.len() ==> lex_le(views_of(out@)[p as int], x@),
{
    let m = out.len();
    let mut p: usize = 0;
    while p < m
        invariant
            0 <= p <= m == out@.len(),
            forall|k: int| 0 <= k < p ==> !lex_le(#[trigger] views_of(out@)[k], x@),
        decreases m - p,
    {
        if str_le(out[p].as_str(), x) {
            return p;
        }
        p += 1;
    }
    p
}

/// Sorts strings in descending lexicographic order: the result descends and
/// holds exactly the input's strings.
pub fn sort_strings_desc(v: Vec<String>) -> (r: Vec<String>)
    ensures
        sorted_desc(views_of(r@)),
        views_of(r@).to_multiset() == views_of(v@).to_multiset(),
{
    let n = v.len();
    let mut r: Vec<String> = Vec::new();
    let mut i: usize = 0;
    proof {
        assert(views_of(r@) =~~= Seq::<Seq<char>>::empty());
        assert(views_of(v@.subrange(0, 0)) =~~= Seq::<Seq<char>>::empty());
    }
    while i < n
        invariant
            0 <= i <= n == v@.len(),
            sorted_desc(views_of(r@)),
            views_of(r@).to_multiset() == views_of(v@.subrange(0, i as int)).to_multiset(),
        decreases n - i,
    {
        let x = v[i].clone();
        let p = insert_pos_desc(&r, x.as_str());
        let ghost prev = views_of(r@);
        proof {
            lemma_sorted_desc_insert(prev, p as int, x@);
        }
        r.insert(p, x);
        proof {
            assert(views_of(r@) =~~= prev.insert(p as int, x@));
            assert(views_of(v@.subrange(0, i + 1)) =~~= views_of(v@.subrange(0, i as int)).push(
                v@[i as int]@,
            ));
        }
        i += 1;
    }
    proof {
        assert(v@.subrange(0, n as int) =~= v@);
    }
    r
}

} // verus!

verus! {

/// Where the engine's files live; paths are held as plain text.
#[derive(Clone, Debug)]
pub struct Config {
    pub chat_log_directory: String,
    pub apache_password_file: String,
    pub custom_message_html_file: String,
    pub web_server_port_number: u16,
}

/// One channel as the index lists it.
#[derive(Clone, Debug)]
pub struct ChannelInfo {
    pub name: String,
    pub is_private: bool,
}

/// Mathematical image of `ChannelInfo`.
#[verifier::ext_equal]
pub struct ChannelInfoView {
    pub name: Seq<char>,
    pub is_private: bool,
}

impl View for ChannelInfo {
    type V = ChannelInfoView;

    open spec fn view(&self) -> ChannelInfoView {
        ChannelInfoView { name: self.name@, is_private: self.is_private }
    }
}

/// One channel directory as the I/O shell probes it: its name and whether a
/// `PUBLIC` marker file exists inside it.
#[derive(Clone, Debug)]
pub struct ChannelProbe {
    pub name: String,
    pub marked_public: bool,
}

/// Mathematical image of `ChannelProbe`.
#[verifier::ext_equal]
pub struct ChannelProbeView {
    pub name: Seq<char>,
    pub marked_public: bool,
}

impl View for ChannelProbe {
    type V = ChannelProbeView;

    open spec fn view(&self) -> ChannelProbeView {
        ChannelProbeView { name: self.name@, marked_public: self.marked_public }
    }
}

/// One day's summary line in a channel's index.
#[derive(Clone, Debug)]
pub struct ChannelDailyEntry {
    pub date_slug: String,
    pub date: LogDate,
    pub message_count: u64,
}

/// Mathematical image of `ChannelDailyEntry`.
#[verifier::ext_equal]
pub struct ChannelDailyEntryView {
    pub date_slug: Seq<char>,
    pub date: LogDate,
    pub message_count: u64,
}

impl View for ChannelDailyEntry {
    type V = ChannelDailyEntryView;

    open spec fn view(&self) -> ChannelDailyEntryView {
        ChannelDailyEntryView {
            date_slug: self.date_slug@,
            date: self.date,
            message_count: self.message_count,
        }
    }
}

/// One day's log file as the I/O shell hands it in: its slug and its raw
/// bytes.
#[derive(Clone, Debug)]
pub struct DayFile {
    pub date_slug: String,
    pub content: Vec<u8>,
}

/// Mathematical image of `DayFile`.
#[verifier::ext_equal]
pub struct DayFileView {
    pub date_slug: Seq<char>,
    pub content: Seq<u8>,
}

impl View for DayFile {
    type V = DayFileView;

    open spec fn view(&self) -> DayFileView {
        DayFileView { date_slug: self.date_slug@, content: self.content@ }
    }
}

/// The slug keys of a sequence of entries.
pub open spec fn entry_keys(s: Seq<ChannelDailyEntryView>) -> Seq<Seq<char>> {
    s.map_values(|e: ChannelDailyEntryView| e.date_slug)
}

/// The name keys of a sequence of channels.
pub open spec fn channel_keys(s: Seq<ChannelInfoView>) -> Seq<Seq<char>> {
    s.map_values(|c: ChannelInfoView| c.name)
}

/// Insertion point that keeps entries descending by slug.
fn entry_insert_pos(out: &Vec<ChannelDailyEntry>, x: &str) -> (p: usize)
    ensures
        p <= out@.len(),
        forall|k: int| 0 <= k < p ==> !lex_le((#[trigger] out@[k])@.date_slug, x@),
        p < out@.len() ==> lex_le(out@[p as int]@.date_slug, x@),
{
    let m = out.len();
    let mut p: usize = 0;
    while p < m
        invariant
            0 <= p <= m == out@.len(),
            forall|k: int| 0 <= k < p ==> !lex_le((#[trigger] out@[k])@.date_slug, x@),
        decreases m - p,
    {
        if str_le(out[p].date_slug.as_str(), x) {
            return p;
        }
        p += 1;
    }
    p
}

/// Sorts daily entries descending by slug: the result's slugs descend and
/// the result holds exactly the input's entries.
pub fn sort_entries_desc(v: Vec<ChannelDailyEntry>) -> (r: Vec<ChannelDailyEntry>)
    ensures
        sorted_desc(entry_keys(r@.map_values(|e: ChannelDailyEntry| e@))),
        r@.map_values(|e: ChannelDailyEntry| e@).to_multiset() == v@.map_values(
            |e: ChannelDailyEntry| e@,
        ).to_multiset(),
        entry_keys(r@.map_values(|e: ChannelDailyEntry| e@)).to_multiset() == entry_keys(
            v@.map_values(|e: ChannelDailyEntry| e@),
        ).to_multiset(),
{
    let n = v.len();
    let mut r: Vec<ChannelDailyEntry> = Vec::new();
    let mut i: usize = 0;
    proof {
        assert(r@.map_values(|e: ChannelDailyEntry| e@) =~~= Seq::<ChannelDailyEntryView>::empty());
        assert(v@.subrange(0, 0).map_values(|e: ChannelDailyEntry| e@)
            =~~= Seq::<ChannelDailyEntryView>::empty());
        assert(entry_keys(Seq::<ChannelDailyEntryView>::empty()) =~~= Seq::<Seq<char>>::empty());
    }
    while i < n
        invariant
            0 <= i <= n == v@.len(),
            sorted_desc(entry_keys(r@.map_values(|e: ChannelDailyEntry| e@))),
            r@.map_values(|e: ChannelDailyEntry| e@).to_multiset() == v@.subrange(
                0,
                i as int,
            ).map_values(|e: ChannelDailyEntry| e@).to_multiset(),
            entry_keys(r@.map_values(|e: ChannelDailyEntry| e@)).to_multiset() == entry_keys(
                v@.subrange(0, i as int).map_values(|e: ChannelDailyEntry| e@),
            ).to_multiset(),
        decreases n - i,
    {
        let x = ChannelDailyEntry {
            date_slug: v[i].date_slug.clone(),
            date: v[i].date,
            message_count: v[i].message_count,
        };
        proof {
            assert(x@ =~~= v@[i as int]@);
        }
        let p = entry_insert_pos(&r, x.date_slug.as_str());
        let ghost prev = r@.map_values(|e: ChannelDailyEntry| e@);
        proof {
            lemma_sorted_desc_insert(entry_keys(prev), p as int, x.date_slug@);
        }
        r.insert(p, x);
        proof {
            let cur = r@.map_values(|e: ChannelDailyEntry| e@);
            assert(cur =~~= prev.insert(p as int, x@));
            assert(entry_keys(cur) =~~= entry_keys(prev).insert(p as int, x.date_slug@));
            assert(v@.subrange(0, i + 1).map_values(|e: ChannelDailyEntry| e@) =~~= v@.subrange(
                0,
                i as int,
            ).map_values(|e: ChannelDailyEntry| e@).push(v@[i as int]@));
            assert(entry_keys(v@.subrange(0, i + 1).map_values(|e: ChannelDailyEntry| e@))
                =~~= entry_keys(v@.subrange(0, i as int).map_values(|e: ChannelDailyEntry| e@)).push(
                v@[i as int]@.date_slug,
            ));
        }
        i += 1;
    }
    proof {
        assert(v@.subrange(0, n as int) =~= v@);
    }
    r
}

/// Insertion point that keeps channels ascending by name.
fn channel_insert_pos(out: &Vec<ChannelInfo>, x: &str) -> (p: usize)
    ensures
        p <= out@.len(),
        forall|k: int| 0 <= k < p ==> !lex_le(x@, (#[trigger] out@[k])@.name),
        p < out@.len() ==> lex_le(x@, out@[p as int]@.name),
{
    let m = out.len();
    let mut p: usize = 0;
    while p < m
        invariant
            0 <= p <= m == out@.len(),
            forall|k: int| 0 <= k < p ==> !lex_le(x@, (#[trigger] out@[k])@.name),
        decreases m - p,
    {
        if str_le(x, out[p].name.as_str()) {
            return p;
        }
        p += 1;
    }
    p
}

/// Sorts channels ascending by name: the result's names ascend and the
/// result holds exactly the input's channels.
pub fn sort_channels_asc(v: Vec<ChannelInfo>) -> (r: Vec<ChannelInfo>)
    ensures
        sorted_asc(channel_keys(r@.map_values(|c: ChannelInfo| c@))),
        r@.map_values(|c: ChannelInfo| c@).to_multiset() == v@.map_values(
            |c: ChannelInfo| c@,
        ).to_multiset(),
{
    let n = v.len();
    let mut r: Vec<ChannelInfo> = Vec::new();
    let mut i: usize = 0;
    proof {
        assert(r@.map_values(|c: ChannelInfo| c@) =~~= Seq::<ChannelInfoView>::empty());
        assert(v@.subrange(0, 0).map_values(|c: ChannelInfo| c@)
            =~~= Seq::<ChannelInfoView>::empty());
        assert(channel_keys(Seq::<ChannelInfoView>::empty()) =~~= Seq::<Seq<char>>::empty());
    }
    while i < n
        invariant
            0 <= i <= n == v@.len(),
            sorted_asc(channel_keys(r@.map_values(|c: ChannelInfo| c@))),
            r@.map_values(|c: ChannelInfo| c@).to_multiset() == v@.subrange(
                0,
                i as int,
            ).map_values(|c: ChannelInfo| c@).to_multiset(),
        decreases n - i,
    {
        let x = ChannelInfo { name: v[i].name.clone(), is_private: v[i].is_private };
        proof {
            assert(x@ =~~= v@[i as int]@);
        }
        let p = channel_insert_pos(&r, x.name.as_str());
        let ghost prev = r@.map_values(|c: ChannelInfo| c@);
        proof {
            lemma_sorted_asc_insert(channel_keys(prev), p as int, x.name@);
        }
        r.insert(p, x);
        proof {
            let cur = r@.map_values(|c: ChannelInfo| c@);
            assert(cur =~~= prev.insert(p as int, x@));
            assert(channel_keys(cur) =~~= channel_keys(prev).insert(p as int, x.name@));
            assert(v@.subrange(0, i + 1).map_values(|c: ChannelInfo| c@) =~~= v@.subrange(
                0,
                i as int,
            ).map_values(|c: ChannelInfo| c@).push(v@[i as int]@));
        }
        i += 1;
    }
    proof {
        assert(v@.subrange(0, n as int) =~= v@);
    }
    r
}

} // verus!

verus! {

/// The paths the engine works under; the I/O shell reads files, the engine
/// computes on their contents.
#[derive(Clone, Debug)]
pub struct AppState {
    pub chat_log_directory: String,
    pub apache_password_file: String,
    pub custom_message_html_file: String,
}

/// The path of one day's log file: `<dir>/<channel>/<slug>.log`.
pub open spec fn log_path_of(dir: Seq<char>, name: Seq<char>, slug: Seq<char>) -> Seq<char> {
    dir + seq!['/'] + name + seq!['/'] + slug + seq!['.', 'l', 'o', 'g']
}

/// The path of a channel's `PUBLIC` marker file.
pub open spec fn marker_path_of(dir: Seq<char>, name: Seq<char>) -> Seq<char> {
    dir + seq!['/'] + name + seq!['/', 'P', 'U', 'B', 'L', 'I', 'C']
}

/// Whether a channel is private: no `PUBLIC` marker, and its name stands in
/// the credential table as a non-comment record.
pub open spec fn private_decision(marked_public: bool, table: Seq<char>, name: Seq<char>) -> bool {
    !marked_public && table_has_name(table, name)
}

/// Whether presented credentials open a channel: the identity must equal
/// the channel name exactly, and the table must verify the secret for it.
pub open spec fn credentials_decision(
    channel: Seq<char>,
    identity: Seq<char>,
    secret: Seq<char>,
    table: Seq<char>,
) -> bool {
    identity == channel && table_accepts(table, channel, secret)
}

/// The slug of every log file name, in listing order: names ending in
/// `.log` lose that extension; other names contribute nothing.
pub open spec fn slugs_of(names: Seq<Seq<char>>) -> Seq<Seq<char>>
    decreases names.len(),
{
    if names.len() == 0 {
        Seq::empty()
    } else {
        slugs_of(names.drop_last()) + if is_log_name(names.last()) {
            seq![names.last().subrange(0, names.last().len() - 4)]
        } else {
            Seq::empty()
        }
    }
}

/// The summary entry one day's file yields: its slug, the date the slug
/// names, and the counting pass over its decoded lines.
pub open spec fn entry_of(f: DayFileView) -> ChannelDailyEntryView {
    ChannelDailyEntryView {
        date_slug: f.date_slug,
        date: parsed_slug_date(f.date_slug)->0,
        message_count: message_count(lines_from(decoded_text(f.content), 0)) as u64,
    }
}

/// Index of the first file whose slug names no date; `-1` if every slug
/// does.
pub open spec fn first_bad_day(files: Seq<DayFileView>) -> int
    decreases files.len(),
{
    if files.len() == 0 {
        -1
    } else if parsed_slug_date(files[0].date_slug) is None {
        0
    } else {
        let r = first_bad_day(files.drop_first(), );
        if r < 0 {
            -1
        } else {
            r + 1
        }
    }
}

proof fn lemma_first_bad_day_at(files: Seq<DayFileView>, i: int)
    requires
        0 <= i < files.len(),
        forall|k: int| 0 <= k < i ==> parsed_slug_date((#[trigger] files[k]).date_slug) is Some,
        parsed_slug_date(files[i].date_slug) is None,
    ensures
        first_bad_day(files) == i,
    decreases i,
{
    if i > 0 {
        let tail = files.drop_first();
        assert(forall|k: int| 0 <= k < tail.len() ==> #[trigger] tail[k] == files[k + 1]);
        lemma_first_bad_day_at(tail, i - 1);
    }
}

proof fn lemma_first_bad_day_none(files: Seq<DayFileView>)
    requires
        forall|k: int|
            0 <= k < files.len() ==> parsed_slug_date((#[trigger] files[k]).date_slug) is Some,
    ensures
        first_bad_day(files) == -1,
    decreases files.len(),
{
    if files.len() > 0 {
        let tail = files.drop_first();
        assert(forall|k: int| 0 <= k < tail.len() ==> #[trigger] tail[k] == files[k + 1]);
        lemma_first_bad_day_none(tail);
    }
}

/// A channel's index line for one probed directory.
pub open spec fn info_of(p: ChannelProbeView, table: Seq<char>) -> ChannelInfoView {
    ChannelInfoView { name: p.name, is_private: private_decision(p.marked_public, table, p.name) }
}

impl AppState {
    /// Builds the path of one day's log file, as `log_path_of` names it.
    pub fn get_log_path(&self, name: &str, date_slug: &str) -> (r: String)
        ensures
            r@ == log_path_of(self.chat_log_directory@, name@, date_slug@),
    {
        proof {
            reveal_strlit("/");
            reveal_strlit(".log");
        }
        let mut p = self.chat_log_directory.clone();
        p.append("/");
        p.append(name);
        p.append("/");
        p.append(date_slug);
        p.append(".log");
        proof {
            assert(p@ =~= log_path_of(self.chat_log_directory@, name@, date_slug@));
        }
        p
    }

    /// Builds the path of a channel's `PUBLIC` marker, as `marker_path_of`
    /// names it; the I/O shell tests whether a file exists there.
    pub fn public_marker_path(&self, name: &str) -> (r: String)
        ensures
            r@ == marker_path_of(self.chat_log_directory@, name@),
    {
        proof {
            reveal_strlit("/");
            reveal_strlit("/PUBLIC");
        }
        let mut p = self.chat_log_directory.clone();
        p.append("/");
        p.append(name);
        p.append("/PUBLIC");
        proof {
            assert(p@ =~= marker_path_of(self.chat_log_directory@, name@));
        }
        p
    }

    /// Membership of a channel name in the credential table text, comment
    /// lines never matching.
    pub fn is_channel_in_password_file(&self, name: &str, table: &str) -> (r: bool)
        ensures
            r == table_has_name(table@, name@),
    {
        table_contains(table, name)
    }

    /// The access gate's visibility rule: private iff no `PUBLIC` marker
    /// exists and the table lists the name.
    pub fn is_channel_private(&self, name: &str, marked_public: bool, table: &str) -> (r: bool)
        ensures
            r == private_decision(marked_public, table@, name@),
    {
        !marked_public && table_contains(table, name)
    }

    /// Verifies a password for a channel against the table text.
    pub fn is_password_ok(&self, channel_name: &str, password: &str, table: &str) -> (r: bool)
        ensures
            r == table_accepts(table@, channel_name@, password@),
    {
        verify_password(table, channel_name, password)
    }

    /// The access gate's credential rule: the presented identity must equal
    /// the channel name exactly, and the table must verify the secret.
    pub fn check_credentials(&self, channel: &str, identity: &str, secret: &str, table: &str) -> (r:
        bool)
        ensures
            r == credentials_decision(channel@, identity@, secret@, table@),
    {
        crate::text::str_eq(identity, channel) && verify_password(table, channel, secret)
    }

    /// Turns a channel directory listing into the slugs of its log files,
    /// newest first.
    pub fn get_channel_log_date_slugs(&self, file_names: &Vec<String>) -> (r: Vec<String>)
        ensures
            sorted_desc(views_of(r@)),
            views_of(r@).to_multiset() == slugs_of(views_of(file_names@)).to_multiset(),
    {
        let n = file_names.len();
        let mut out: Vec<String> = Vec::new();
        let mut i: usize = 0;
        proof {
            assert(views_of(out@) =~~= slugs_of(views_of(file_names@).subrange(0, 0)));
        }
        while i < n
            invariant
                0 <= i <= n == file_names@.len(),
                views_of(out@) =~~= slugs_of(views_of(file_names@).subrange(0, i as int)),
            decreases n - i,
        {
            let ghost nvs = views_of(file_names@);
            proof {
                assert(nvs.subrange(0, i + 1).drop_last() =~= nvs.subrange(0, i as int));
                assert(nvs.subrange(0, i + 1).last() == nvs[i as int]);
            }
            let name = file_names[i].as_str();
            if crate::text::has_log_extension(name) {
                let ghost prev = out@;
                let slug = name.substring_char(0, name.unicode_len() - 4).to_owned();
                out.push(slug);
                proof {
                    assert(views_of(out@) =~~= views_of(prev).push(slug@));
                    assert(views_of(out@) =~~= slugs_of(nvs.subrange(0, i + 1)));
                }
            }
            i += 1;
        }
        proof {
            assert(views_of(file_names@).subrange(0, n as int) =~= views_of(file_names@));
        }
        sort_strings_desc(out)
    }

    /// Summarizes a channel's days: derives each file's date from its slug,
    /// counts its message lines, and orders the entries newest first. The
    /// first slug that names no date aborts the whole call with its
    /// `ParseError`.
    pub fn get_channel_daily_entries(&self, files: &Vec<DayFile>) -> (r: Result<
        Vec<ChannelDailyEntry>,
        ArchiveError,
    >)
        ensures
            first_bad_day(files@.map_values(|f: DayFile| f@)) >= 0 ==> r is Err && is_parse_error(
                r->Err_0,
                files@.map_values(|f: DayFile| f@)[first_bad_day(
                    files@.map_values(|f: DayFile| f@),
                )].date_slug,
            ),
            first_bad_day(files@.map_values(|f: DayFile| f@)) < 0 ==> r is Ok && sorted_desc(
                entry_keys(r->Ok_0@.map_values(|e: ChannelDailyEntry| e@)),
            ) && r->Ok_0@.map_values(|e: ChannelDailyEntry| e@).to_multiset() == files@.map_values(
                |f: DayFile| f@,
            ).map_values(|f: DayFileView| entry_of(f)).to_multiset() && entry_keys(
                r->Ok_0@.map_values(|e: ChannelDailyEntry| e@),
            ).to_multiset() == files@.map_values(|f: DayFile| f@).map_values(
                |f: DayFileView| f.date_slug,
            ).to_multiset(),
    {
        let ghost fvs = files@.map_values(|f: DayFile| f@);
        let n = files.len();
        let mut built: Vec<ChannelDailyEntry> = Vec::new();
        let mut i: usize = 0;
        proof {
            assert(built@.map_values(|e: ChannelDailyEntry| e@) =~~= fvs.subrange(
                0,
                0,
            ).map_values(|f: DayFileView| entry_of(f)));
        }
        while i < n
            invariant
                0 <= i <= n == files@.len(),
                fvs == files@.map_values(|f: DayFile| f@),
                fvs.len() == n,
                forall|k: int|
                    0 <= k < i ==> parsed_slug_date((#[trigger] fvs[k]).date_slug) is Some,
                built@.map_values(|e: ChannelDailyEntry| e@) =~~= fvs.subrange(
                    0,
                    i as int,
                ).map_values(|f: DayFileView| entry_of(f)),
            decreases n - i,
        {
            proof {
                assert(fvs.subrange(0, i + 1).drop_last() =~= fvs.subrange(0, i as int));
                assert(fvs.subrange(0, i + 1).last() == fvs[i as int]);
            }
            match crate::date::parse_date_slug(files[i].date_slug.as_str()) {
                Err(e) => {
                    proof {
                        lemma_first_bad_day_at(fvs, i as int);
                    }
                    return Err(e);
                },
                Ok(d) => {
                    let count = crate::reader::count_message_lines(&files[i].content);
                    let ghost prev = built@.map_values(|e: ChannelDailyEntry| e@);
                    let entry = ChannelDailyEntry {
                        date_slug: files[i].date_slug.clone(),
                        date: d,
                        message_count: count,
                    };
                    proof {
                        assert(entry@ =~~= entry_of(fvs[i as int]));
                    }
                    built.push(entry);
                    proof {
                        assert(built@.map_values(|e: ChannelDailyEntry| e@) =~~= prev.push(
                            entry@,
                        ));
                        assert(built@.map_values(|e: ChannelDailyEntry| e@) =~~= fvs.subrange(
                            0,
                            i + 1,
                        ).map_values(|f: DayFileView| entry_of(f)));
                    }
                },
            }
            i += 1;
        }
        proof {
            lemma_first_bad_day_none(fvs);
            assert(fvs.subrange(0, n as int) =~= fvs);
        }
        let ghost bvs = built@.map_values(|e: ChannelDailyEntry| e@);
        let sorted = sort_entries_desc(built);
        proof {
            assert(entry_keys(fvs.map_values(|f: DayFileView| entry_of(f))) =~~= fvs.map_values(
                |f: DayFileView| f.date_slug,
            ));
        }
        Ok(sorted)
    }

    /// Lists the channels of the archive root from the probed directories,
    /// ascending by name, each gated through the visibility rule.
    pub fn get_channels(&self, probes: &Vec<ChannelProbe>, table: &str) -> (r: Vec<ChannelInfo>)
        ensures
            sorted_asc(channel_keys(r@.map_values(|c: ChannelInfo| c@))),
            r@.map_values(|c: ChannelInfo| c@).to_multiset() == probes@.map_values(
                |p: ChannelProbe| p@,
            ).map_values(|p: ChannelProbeView| info_of(p, table@)).to_multiset(),
    {
        let ghost pvs = probes@.map_values(|p: ChannelProbe| p@);
        let n = probes.len();
        let mut built: Vec<ChannelInfo> = Vec::new();
        let mut i: usize = 0;
        proof {
            assert(built@.map_values(|c: ChannelInfo| c@) =~~= pvs.subrange(0, 0).map_values(
                |p: ChannelProbeView| info_of(p, table@),
            ));
        }
        while i < n
            invariant
                0 <= i <= n == probes@.len(),
                pvs == probes@.map_values(|p: ChannelProbe| p@),
                pvs.len() == n,
                built@.map_values(|c: ChannelInfo| c@) =~~= pvs.subrange(0, i as int).map_values(
                    |p: ChannelProbeView| info_of(p, table@),
                ),
            decreases n - i,
        {
            proof {
                assert(pvs.subrange(0, i + 1).drop_last() =~= pvs.subrange(0, i as int));
                assert(pvs.subrange(0, i + 1).last() == pvs[i as int]);
            }
            let is_private = self.is_channel_private(
                probes[i].name.as_str(),
                probes[i].marked_public,
                table,
            );
            let ghost prev = built@.map_values(|c: ChannelInfo| c@);
            let info = ChannelInfo { name: probes[i].name.clone(), is_private };
            proof {
                assert(info@ =~~= info_of(pvs[i as int], table@));
            }
            built.push(info);
            proof {
                assert(built@.map_values(|c: ChannelInfo| c@) =~~= prev.push(info@));
                assert(built@.map_values(|c: ChannelInfo| c@) =~~= pvs.subrange(
                    0,
                    i + 1,
                ).map_values(|p: ChannelProbeView| info_of(p, table@)));
            }
            i += 1;
        }
        proof {
            assert(pvs.subrange(0, n as int) =~= pvs);
        }
        sort_channels_asc(built)
    }
}

/// A channel with a `PUBLIC` marker is never private, whatever the
/// credential table holds.
pub proof fn lemma_public_marker_wins(table: Seq<char>, name: Seq<char>)
    ensures
        !private_decision(true, table, name),
{
}

/// Credentials never open a channel under another identity: if the
/// presented identity differs from the channel name, the check fails even
/// with a correct secret.
pub proof fn lemma_identity_must_match(
    channel: Seq<char>,
    identity: Seq<char>,
    secret: Seq<char>,
    table: Seq<char>,
)
    ensures
        identity != channel ==> !credentials_decision(channel, identity, secret, table),
{
}

/// Daily entries descend strictly: when the slugs given in are pairwise
/// distinct, every entry's slug is strictly below its predecessor's.
pub proof fn lemma_daily_entries_strictly_descending(
    input_keys: Seq<Seq<char>>,
    output_keys: Seq<Seq<char>>,
)
    requires
        input_keys.no_duplicates(),
        output_keys.to_multiset() == input_keys.to_multiset(),
        sorted_desc(output_keys),
    ensures
        forall|i: int, j: int|
            0 <= i < j < output_keys.len() ==> lex_le(#[trigger] output_keys[j], #[trigger] output_keys[i])
                && output_keys[i] != output_keys[j],
{
    input_keys.lemma_multiset_has_no_duplicates();
    output_keys.lemma_multiset_has_no_duplicates_conv();
}

} // verus!

verus! {

use crate::reader::{LogLine, read_lines, events_of, first_bad};

impl AppState {
    /// Reads one day's log from its slug and raw bytes: the slug names the
    /// date, the bytes are decoded and parsed line by line. A slug that
    /// names no date, or the first unparsable line, aborts with its
    /// `ParseError`.
    pub fn get_log_lines(&self, date_slug: &str, bytes: &Vec<u8>) -> (r: Result<
        Vec<LogLine>,
        ArchiveError,
    >)
        ensures
            parsed_slug_date(date_slug@) is None ==> r is Err && is_parse_error(
                r->Err_0,
                date_slug@,
            ),
            parsed_slug_date(date_slug@) is Some && first_bad(
                lines_from(crate::reader::decoded_text(bytes@), 0),
                parsed_slug_date(date_slug@)->0,
            ) < 0 ==> r is Ok && r->Ok_0@.map_values(|x: LogLine| x@) == events_of(
                lines_from(crate::reader::decoded_text(bytes@), 0),
                parsed_slug_date(date_slug@)->0,
            ),
            parsed_slug_date(date_slug@) is Some && first_bad(
                lines_from(crate::reader::decoded_text(bytes@), 0),
                parsed_slug_date(date_slug@)->0,
            ) >= 0 ==> r is Err && is_parse_error(
                r->Err_0,
                lines_from(crate::reader::decoded_text(bytes@), 0)[first_bad(
                    lines_from(crate::reader::decoded_text(bytes@), 0),
                    parsed_slug_date(date_slug@)->0,
                )],
            ),
    {
        let date = crate::date::parse_date_slug(date_slug)?;
        read_lines(bytes, date)
    }
}

} // verus!
