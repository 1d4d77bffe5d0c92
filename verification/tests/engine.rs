use irclog_archive::archive::{AppState, ChannelProbe, DayFile};
use irclog_archive::reader::{LogLineContent};
use irclog_archive::request::{
    make_output_lines, search_modifiers, selected_line, user_has_access, is_date_string_ok,
    AuthCredentials, ChannelSearchQuery,
};
use irclog_archive::search::{classify_search_exit, parse_search_output};
use irclog_archive::{ArchiveError, LogDate, SearchFailure};

fn state() -> AppState {
    AppState {
        chat_log_directory: "/logs".to_string(),
        apache_password_file: "/etc/creds".to_string(),
        custom_message_html_file: "/etc/motd.html".to_string(),
    }
}

fn date() -> LogDate {
    LogDate { year: 2024, month: 1, day: 2 }
}

#[test]
fn parses_message_line() {
    let line = irclog_archive::reader::parse_line("[14:32] <alice> hello", date()).unwrap();
    assert_eq!(line.date.date, date());
    assert_eq!(line.date.hour, 14);
    assert_eq!(line.date.minute, 32);
    match line.content {
        LogLineContent::Message { nickname, text } => {
            assert_eq!(nickname, "alice");
            assert_eq!(text, "hello");
        },
        LogLineContent::Status(_) => panic!("expected a message"),
    }
}

#[test]
fn parses_status_line() {
    let line = irclog_archive::reader::parse_line("[00:00] *** alice joined", date()).unwrap();
    assert_eq!(line.date.hour, 0);
    assert_eq!(line.date.minute, 0);
    match line.content {
        LogLineContent::Status(text) => assert_eq!(text, "alice joined"),
        LogLineContent::Message { .. } => panic!("expected a status line"),
    }
}

#[test]
fn bare_nickname_and_bracket_stripping() {
    let line = irclog_archive::reader::parse_line("[09:05] <<bob>> says hi", date()).unwrap();
    match line.content {
        LogLineContent::Message { nickname, text } => {
            assert_eq!(nickname, "bob");
            assert_eq!(text, "says hi");
        },
        _ => panic!("expected a message"),
    }
}

#[test]
fn line_without_time_block_fails_but_counts() {
    let r = irclog_archive::reader::parse_line("no time block here", date());
    assert!(matches!(r, Err(ArchiveError::ParseError(t)) if t == "no time block here"));
    let count = irclog_archive::reader::count_messages(&vec!["no time block here".to_string()]);
    assert_eq!(count, 1);
}

#[test]
fn invalid_time_of_day_fails() {
    assert!(irclog_archive::reader::parse_line("[25:00] <a> x", date()).is_err());
    assert!(irclog_archive::reader::parse_line("[12:60] <a> x", date()).is_err());
}

#[test]
fn counter_skips_status_marker_lines() {
    let lines = vec![
        "[00:01] <a> hi".to_string(),
        "[00:02] *** a joined".to_string(),
        "".to_string(),
    ];
    assert_eq!(irclog_archive::reader::count_messages(&lines), 2);
}

#[test]
fn decoder_replaces_invalid_bytes() {
    let lines = irclog_archive::reader::decode_transcript(&vec![0xFF, b'a', b'\n', b'b']);
    assert_eq!(lines.len(), 2);
    assert_eq!(lines[0], "\u{FFFD}a");
    assert_eq!(lines[1], "b");
}

#[test]
fn read_lines_parses_whole_day() {
    let bytes = b"[00:01] <a> one\r\n\n[00:02] *** a left\n".to_vec();
    let events = irclog_archive::reader::read_lines(&bytes, date()).unwrap();
    assert_eq!(events.len(), 2);
    assert!(matches!(&events[0].content, LogLineContent::Message { .. }));
    assert!(matches!(&events[1].content, LogLineContent::Status(_)));
}

#[test]
fn read_lines_aborts_on_first_bad_line() {
    let bytes = b"[00:01] <a> one\nbroken\n[00:02] <a> two\n".to_vec();
    let r = irclog_archive::reader::read_lines(&bytes, date());
    assert!(matches!(r, Err(ArchiveError::ParseError(t)) if t == "broken"));
}

#[test]
fn round_trip_raw_bytes_line_by_line() {
    let bytes = b"[10:00] <a> x\r\n\n[10:01] *** y\n[10:02] <b> z".to_vec();
    let whole = irclog_archive::reader::read_lines(&bytes, date()).unwrap();
    let mut linewise = Vec::new();
    for line in irclog_archive::reader::decode_transcript(&bytes) {
        if !line.is_empty() {
            linewise.push(irclog_archive::reader::parse_line(&line, date()).unwrap());
        }
    }
    assert_eq!(whole.len(), linewise.len());
    for (a, b) in whole.iter().zip(linewise.iter()) {
        assert_eq!(a.date, b.date);
        match (&a.content, &b.content) {
            (LogLineContent::Status(x), LogLineContent::Status(y)) => assert_eq!(x, y),
            (
                LogLineContent::Message { nickname: n1, text: t1 },
                LogLineContent::Message { nickname: n2, text: t2 },
            ) => {
                assert_eq!(n1, n2);
                assert_eq!(t1, t2);
            },
            _ => panic!("event kinds differ"),
        }
    }
}

#[test]
fn date_slug_parsing() {
    let d = irclog_archive::date::parse_date_slug("2024-01-02,Tue").unwrap();
    assert_eq!(d, LogDate { year: 2024, month: 1, day: 2 });
    assert!(irclog_archive::date::parse_date_slug("2024-01-02").is_err());
    assert!(irclog_archive::date::parse_date_slug("2024-02-30,x").is_err());
    assert!(irclog_archive::date::parse_date_slug("2024-13-01,x").is_err());
    let leap = irclog_archive::date::parse_date_slug("2024-02-29,x").unwrap();
    assert_eq!(leap.day, 29);
    assert!(irclog_archive::date::parse_date_slug("2023-02-29,x").is_err());
}

#[test]
fn slugs_filter_and_descend() {
    let names = vec![
        "2024-01-02,a.log".to_string(),
        "PUBLIC".to_string(),
        "2024-01-03,b.log".to_string(),
        "notes.txt".to_string(),
        ".log".to_string(),
    ];
    let slugs = state().get_channel_log_date_slugs(&names);
    assert_eq!(slugs, vec!["2024-01-03,b".to_string(), "2024-01-02,a".to_string()]);
}

#[test]
fn daily_entries_descend_by_slug() {
    let files = vec![
        DayFile { date_slug: "2024-01-02,x".to_string(), content: b"[00:01] <a> hi\n".to_vec() },
        DayFile {
            date_slug: "2024-01-03,y".to_string(),
            content: b"[00:01] <a> hi\n[00:02] *** a left\n".to_vec(),
        },
    ];
    let entries = state().get_channel_daily_entries(&files).unwrap();
    assert_eq!(entries.len(), 2);
    assert_eq!(entries[0].date_slug, "2024-01-03,y");
    assert_eq!(entries[0].date, LogDate { year: 2024, month: 1, day: 3 });
    assert_eq!(entries[0].message_count, 1);
    assert_eq!(entries[1].date_slug, "2024-01-02,x");
    assert_eq!(entries[1].message_count, 1);
}

#[test]
fn daily_entries_abort_on_bad_slug() {
    let files = vec![
        DayFile { date_slug: "2024-01-02,x".to_string(), content: Vec::new() },
        DayFile { date_slug: "nodate".to_string(), content: Vec::new() },
    ];
    let r = state().get_channel_daily_entries(&files);
    assert!(matches!(r, Err(ArchiveError::ParseError(t)) if t == "nodate"));
}

#[test]
fn channels_listed_ascending_with_privacy() {
    let probes = vec![
        ChannelProbe { name: "zebra".to_string(), marked_public: false },
        ChannelProbe { name: "alpha".to_string(), marked_public: false },
    ];
    let table = "zebra:secret\n";
    let channels = state().get_channels(&probes, table);
    assert_eq!(channels.len(), 2);
    assert_eq!(channels[0].name, "alpha");
    assert!(!channels[0].is_private);
    assert_eq!(channels[1].name, "zebra");
    assert!(channels[1].is_private);
}

#[test]
fn public_marker_overrides_credential_table() {
    let table = "#foo:whatever\n#foo:again\n";
    assert!(!state().is_channel_private("#foo", true, table));
}

#[test]
fn comment_lines_never_count_as_present() {
    let table = "# #foo:hash";
    assert!(!state().is_channel_in_password_file("#foo", table));
    assert!(!state().is_channel_private("#foo", false, table));
    let table2 = "ops:hash\n#chat:x";
    assert!(state().is_channel_in_password_file("ops", table2));
    assert!(!state().is_channel_in_password_file("#chat", table2));
}

#[test]
fn apr1_password_verifies() {
    let digest = htpasswd_verify::md5::md5_apr1_encode("rightpass", "saltsalt");
    let table = format!("ops:$apr1$saltsalt${}", digest);
    assert!(state().is_password_ok("ops", "rightpass", &table));
    assert!(!state().is_password_ok("ops", "wrongpass", &table));
    assert!(!state().is_password_ok("absent", "rightpass", &table));
}

#[test]
fn bcrypt_password_verifies_and_malformed_is_no_match() {
    let hash = bcrypt::hash("pw", 4).unwrap();
    let mut y_hash = String::from("$2y$");
    y_hash.push_str(hash.splitn(3, '$').nth(2).unwrap_or(""));
    let table = format!("ops:{}", y_hash);
    assert!(state().is_password_ok("ops", "pw", &table));
    assert!(!state().is_password_ok("ops", "other", &table));
    let malformed = "ops:$2y$garbage";
    assert!(!state().is_password_ok("ops", "pw", malformed));
    let short_apr1 = "ops:$apr1$x";
    assert!(!state().is_password_ok("ops", "pw", short_apr1));
}

#[test]
fn later_record_shadows_earlier() {
    let d1 = htpasswd_verify::md5::md5_apr1_encode("first", "saltsalt");
    let d2 = htpasswd_verify::md5::md5_apr1_encode("second", "saltsalt");
    let table = format!("ops:$apr1$saltsalt${}\nops:$apr1$saltsalt${}", d1, d2);
    assert!(state().is_password_ok("ops", "second", &table));
    assert!(!state().is_password_ok("ops", "first", &table));
}

#[test]
fn credentials_require_exact_identity() {
    let digest = htpasswd_verify::md5::md5_apr1_encode("rightpass", "saltsalt");
    let table = format!("ops:$apr1$saltsalt${}", digest);
    let st = state();
    assert!(st.check_credentials("ops", "ops", "rightpass", &table));
    assert!(!st.check_credentials("ops", "OPS", "rightpass", &table));
    assert!(!st.check_credentials("ops", "bar", "rightpass", &table));
    assert!(!st.check_credentials("ops", "ops", "wrong", &table));
}

#[test]
fn comment_records_verify_nothing() {
    let digest = htpasswd_verify::md5::md5_apr1_encode("rightpass", "saltsalt");
    let commented = format!("#foo:$apr1$saltsalt${}", digest);
    assert!(!state().is_password_ok("#foo", "rightpass", &commented));
    assert!(!state().check_credentials("#foo", "#foo", "rightpass", &commented));
    let spaced = format!("# ops:$apr1$saltsalt${}", digest);
    assert!(!state().is_password_ok("ops", "rightpass", &spaced));
    assert!(!state().is_password_ok("# ops", "rightpass", &spaced));
}

#[test]
#[allow(deprecated)]
fn crypt_password_verifies() {
    let hash = pwhash::unix_crypt::hash_with("aZ", "pw").unwrap();
    let table = format!("ops:{}", hash);
    assert!(state().is_password_ok("ops", "pw", &table));
    assert!(!state().is_password_ok("ops", "other", &table));
}

#[test]
fn sha1_password_verifies() {
    let table = "ops:{SHA}W6ph5Mm5Pz8GgiULbPgzG37mj9g=";
    assert!(state().is_password_ok("ops", "password", table));
    assert!(!state().is_password_ok("ops", "other", table));
}

#[test]
fn control_characters_in_secret_are_no_match() {
    assert!(!state().is_password_ok("ops", "pw", "ops:\u{1}Z"));
    let crlf_table = "ops:\r\nother:x";
    assert!(!state().is_password_ok("ops", "pw", crlf_table));
    assert!(!state().is_password_ok("ops", "", crlf_table));
}

#[test]
fn access_gate_composes() {
    let digest = htpasswd_verify::md5::md5_apr1_encode("pw", "saltsalt");
    let table = format!("ops:$apr1$saltsalt${}", digest);
    assert!(user_has_access("ops", true, &table, &None));
    assert!(!user_has_access("ops", false, &table, &None));
    let good = AuthCredentials { user_id: "ops".to_string(), password: "pw".to_string() };
    assert!(user_has_access("ops", false, &table, &Some(good)));
    let wrong_id = AuthCredentials { user_id: "x".to_string(), password: "pw".to_string() };
    assert!(!user_has_access("ops", false, &table, &Some(wrong_id)));
    assert!(user_has_access("other", false, &table, &None));
}

#[test]
fn search_output_parses_hits_and_drops_noise() {
    let stdout = b"/logs/chan/2024-01-02,Tue.log:42:some text\nnoise without fields\n/logs/chan/2024-01-03,Wed.log: 7 :a:b\n".to_vec();
    let hits = parse_search_output(&stdout);
    assert_eq!(hits.len(), 2);
    assert_eq!(hits[0].date_slug, "2024-01-02,Tue");
    assert_eq!(hits[0].line_number, 42);
    assert_eq!(hits[0].raw_line, "some text");
    assert_eq!(hits[1].date_slug, "2024-01-03,Wed");
    assert_eq!(hits[1].line_number, 7);
    assert_eq!(hits[1].raw_line, "a:b");
}

#[test]
fn search_output_bad_number_is_noise() {
    let stdout = b"a.log:notanumber:text\nb.log:3:kept\n".to_vec();
    let hits = parse_search_output(&stdout);
    assert_eq!(hits.len(), 1);
    assert_eq!(hits[0].date_slug, "b");
    assert_eq!(hits[0].line_number, 3);
    assert_eq!(hits[0].raw_line, "kept");
}

#[test]
fn search_cap_appends_sentinel() {
    let mut stdout = Vec::new();
    for i in 0..10001u32 {
        stdout.extend_from_slice(format!("c/2024-01-02,x.log:{}:hit\n", i + 1).as_bytes());
    }
    let hits = parse_search_output(&stdout);
    assert_eq!(hits.len(), 10001);
    assert_eq!(hits[9999].line_number, 10000);
    let sentinel = &hits[10000];
    assert_eq!(sentinel.date_slug, "");
    assert_eq!(sentinel.line_number, 0);
    assert_eq!(sentinel.raw_line, "(max search results exceed)");
}

#[test]
fn search_invocation_maps_modifiers() {
    let st = state();
    let slugs = vec!["2024-01-02,x".to_string()];
    let args = st.search_invocation("chan", "query", false, false, false, &slugs);
    assert_eq!(
        args,
        vec![
            "timeout".to_string(),
            "10s".to_string(),
            "agrep".to_string(),
            "-i0".to_string(),
            "-n".to_string(),
            "query".to_string(),
            "/logs/chan/2024-01-02,x.log".to_string(),
        ]
    );
    let args = st.search_invocation("chan", "q", true, true, true, &slugs);
    assert_eq!(args[..6], [
        "timeout".to_string(),
        "10s".to_string(),
        "agrep".to_string(),
        "-k".to_string(),
        "-w".to_string(),
        "-n".to_string(),
    ]);
}

#[test]
fn exit_codes_classify() {
    assert!(classify_search_exit(Some(0)).is_ok());
    assert!(classify_search_exit(Some(1)).is_ok());
    assert!(matches!(
        classify_search_exit(Some(124)),
        Err(ArchiveError::SearchFailed(SearchFailure::Timeout))
    ));
    assert!(matches!(
        classify_search_exit(Some(2)),
        Err(ArchiveError::SearchFailed(SearchFailure::ProcessError))
    ));
    assert!(matches!(
        classify_search_exit(None),
        Err(ArchiveError::SearchFailed(SearchFailure::ProcessError))
    ));
}

#[test]
fn query_helpers() {
    let q = ChannelSearchQuery {
        search: Some("x".to_string()),
        case: Some("on".to_string()),
        verbatim: None,
        word: Some("off".to_string()),
    };
    assert_eq!(search_modifiers(&q), (true, false, false));
    assert_eq!(selected_line(&None), u64::MAX);
    assert_eq!(selected_line(&Some("7".to_string())), 7);
    assert_eq!(selected_line(&Some("+7".to_string())), 7);
    assert_eq!(selected_line(&Some("x".to_string())), u64::MAX);
    assert_eq!(selected_line(&Some("99999999999999999999".to_string())), u64::MAX);
}

#[test]
fn date_string_guard() {
    assert!(is_date_string_ok("2024-01-02,Tue"));
    assert!(is_date_string_ok("2024-01-02,x_1"));
    assert!(!is_date_string_ok("2024-01-02"));
    assert!(!is_date_string_ok("2024-01-02,"));
    assert!(!is_date_string_ok("2024-01-02,Tue!"));
    assert!(!is_date_string_ok("24-01-02,Tue"));
}

#[test]
fn output_lines_number_from_one() {
    let bytes = b"[10:00] <a> x\n[10:01] *** y\n".to_vec();
    let events = irclog_archive::reader::read_lines(&bytes, date()).unwrap();
    let out = make_output_lines(&events);
    assert_eq!(out.len(), 2);
    assert_eq!(out[0].line_number, 1);
    assert_eq!(out[0].nickname, "a");
    assert_eq!(out[1].line_number, 2);
    assert_eq!(out[1].nickname, "");
    assert_eq!(out[1].text, "y");
}

#[test]
fn log_paths_are_assembled() {
    let st = state();
    assert_eq!(st.get_log_path("chan", "2024-01-02,x"), "/logs/chan/2024-01-02,x.log");
    assert_eq!(st.public_marker_path("chan"), "/logs/chan/PUBLIC");
}

#[test]
fn log_lines_follow_slug_date() {
    let bytes = b"[08:30] <a> hi\n".to_vec();
    let events = state().get_log_lines("2024-05-06,Mon", &bytes).unwrap();
    assert_eq!(events.len(), 1);
    assert_eq!(events[0].date.date, LogDate { year: 2024, month: 5, day: 6 });
    assert_eq!(events[0].date.hour, 8);
    assert_eq!(events[0].date.minute, 30);
    let r = state().get_log_lines("2024-05-06", &bytes);
    assert!(matches!(r, Err(ArchiveError::ParseError(t)) if t == "2024-05-06"));
}
