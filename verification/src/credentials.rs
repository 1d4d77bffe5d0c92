//! The credential store reader: an htpasswd-style table held as flat text,
//! one `name:secret` record per line.
//!
//! Both operations read `name` as the text before the first colon of a line
//! and treat `#`-comment lines as matching nothing, even when they look like
//! records. Membership (`table_has_name`) asks whether any record names the
//! channel; verification (`table_accepts`) checks the password against the
//! last record's secret by that secret's own encoding, later records
//! shadowing earlier ones; a malformed secret is a non-match, never an
//! error.

use vstd::prelude::*;
use crate::text::{find_from, lemma_find_from, split_from, views_of, split_on, find_char, str_eq};

verus! {

/// A comment line: it begins with `#` and matches nothing, however much it
/// looks like a record.
pub open spec fn line_is_comment(l: Seq<char>) -> bool {
    l.len() > 0 && l[0] == '#'
}

/// `l` is a non-comment record line whose name is exactly `name`.
pub open spec fn line_names(l: Seq<char>, name: Seq<char>) -> bool {
    &&& !line_is_comment(l)
    &&& find_from(l, 0, ':') < l.len()
    &&& l.subrange(0, find_from(l, 0, ':')) == name
}

/// The membership the credential store reports for `name`: some non-comment
/// line names it.
pub open spec fn table_has_name(table: Seq<char>, name: Seq<char>) -> bool {
    exists|i: int|
        0 <= i < split_from(table, 0, '\n').len() && line_names(
            #[trigger] split_from(table, 0, '\n')[i],
            name,
        )
}

/// The stored secret of the last non-comment line whose text before its
/// first colon is exactly `name`.
pub open spec fn lookup_last(lines: Seq<Seq<char>>, name: Seq<char>) -> Option<Seq<char>>
    decreases lines.len(),
{
    if lines.len() == 0 {
        None
    } else {
        let l = lines.last();
        let e = find_from(l, 0, ':');
        if !line_is_comment(l) && e < l.len() && l.subrange(0, e) == name {
            Some(l.subrange(e + 1, l.len() as int))
        } else {
            lookup_last(lines.drop_last(), name)
        }
    }
}

/// The secret the credential table stores for `name`, if any; a comment
/// line stores nothing, whatever it looks like.
pub open spec fn entry_secret(table: Seq<char>, name: Seq<char>) -> Option<Seq<char>> {
    lookup_last(split_from(table, 0, '\n'), name)
}

/// What `htpasswd_verify::md5::md5_apr1_encode` computes: Apache's apr1
/// digest of a password under a salt.
pub uninterp spec fn md5_apr1_of(password: Seq<char>, salt: Seq<char>) -> Seq<char>;

/// What `bcrypt::verify` decides for a password against a bcrypt hash; a
/// malformed hash matches nothing.
pub uninterp spec fn bcrypt_matches(password: Seq<char>, hash: Seq<char>) -> bool;

/// What the htpasswd checker decides for a password against a `{SHA}`
/// secret's base64 digest.
pub uninterp spec fn sha1_matches(password: Seq<char>, digest: Seq<char>) -> bool;

/// What the htpasswd checker decides for a password against a Unix crypt
/// secret.
pub uninterp spec fn crypt_matches(password: Seq<char>, secret: Seq<char>) -> bool;

/// `s` begins with the apr1 marker `$apr1$`.
pub open spec fn is_apr1_secret(s: Seq<char>) -> bool {
    &&& s.len() >= 6
    &&& s[0] == '$'
    &&& s[1] == 'a'
    &&& s[2] == 'p'
    &&& s[3] == 'r'
    &&& s[4] == '1'
    &&& s[5] == '$'
}

/// `s` begins with the bcrypt marker `$2y$`; no other bcrypt variant is
/// recognized, matching the htpasswd checker.
pub open spec fn is_bcrypt_secret(s: Seq<char>) -> bool {
    &&& s.len() >= 4
    &&& s[0] == '$'
    &&& s[1] == '2'
    &&& s[2] == 'y'
    &&& s[3] == '$'
}

/// `s` begins with the SHA marker `{SHA}`.
pub open spec fn is_sha1_secret(s: Seq<char>) -> bool {
    &&& s.len() >= 5
    &&& s[0] == '{'
    &&& s[1] == 'S'
    &&& s[2] == 'H'
    &&& s[3] == 'A'
    &&& s[4] == '}'
}

/// The Unix crypt verifier reads the first two characters of the secret as
/// its salt; a control character there is a malformed salt, and so a
/// non-match.
pub open spec fn crypt_salt_readable(s: Seq<char>) -> bool {
    forall|i: int| 0 <= i < s.len() && i < 2 ==> (#[trigger] s[i]) as u32 >= 32
}

/// Whether a stored secret accepts a password, by the secret's own
/// encoding: apr1 digests compare against the text after the salt (a salt
/// needs eight characters and a digest after them; anything shorter is a
/// non-match), `$2y$` secrets go to bcrypt, `{SHA}` secrets compare the
/// base64 digest, and everything else is tried as Unix crypt (a control
/// character in its two salt characters is a non-match).
pub open spec fn secret_accepts(secret: Seq<char>, password: Seq<char>) -> bool {
    if is_apr1_secret(secret) {
        secret.len() >= 15 && md5_apr1_of(password, secret.subrange(6, 14)) == secret.subrange(
            15,
            secret.len() as int,
        )
    } else if is_bcrypt_secret(secret) {
        bcrypt_matches(password, secret)
    } else if is_sha1_secret(secret) {
        sha1_matches(password, secret.subrange(5, secret.len() as int))
    } else {
        crypt_salt_readable(secret) && crypt_matches(password, secret)
    }
}

/// Whether the table verifies `password` for `name`: the last record for
/// `name` must accept it; an absent name verifies nothing.
pub open spec fn table_accepts(table: Seq<char>, name: Seq<char>, password: Seq<char>) -> bool {
    match entry_secret(table, name) {
        None => false,
        Some(secret) => secret_accepts(secret, password),
    }
}

/// Relies on htpasswd_verify::md5::md5_apr1_encode: Apache's apr1 digest of
/// the password with the given salt, a function of its arguments alone; it
/// never fails.
#[verifier::external_body]
fn md5_apr1_hash(password: &str, salt: &str) -> (r: String)
    ensures
        r@ == md5_apr1_of(password@, salt@),
{
    htpasswd_verify::md5::md5_apr1_encode(password, salt)
}

/// Relies on bcrypt::verify: whether the password matches a bcrypt hash, a
/// function of its arguments alone; a hash it cannot read matches nothing.
#[verifier::external_body]
fn bcrypt_check(password: &str, hash: &str) -> (r: bool)
    ensures
        r == bcrypt_matches(password@, hash@),
{
    bcrypt::verify(password, hash).unwrap_or(false)
}

/// Relies on htpasswd_verify::Hash::check for the SHA1 variant: whether the
/// password's SHA-1 digest, base64-encoded, equals the stored digest; a
/// function of its arguments alone.
#[verifier::external_body]
fn sha1_check(password: &str, digest: &str) -> (r: bool)
    ensures
        r == sha1_matches(password@, digest@),
{
    htpasswd_verify::Hash::SHA1(std::borrow::Cow::Borrowed(digest)).check(password)
}

/// Relies on htpasswd_verify::Hash::check for the Crypt variant, which
/// defers to pwhash's Unix crypt verifier: a function of its arguments
/// alone; a secret it cannot read matches nothing. The verifier's salt
/// decoder subtracts 32 from each of the secret's first two characters
/// before range-checking, so a control character there would abort it; the
/// caller keeps such secrets out.
#[verifier::external_body]
fn crypt_check(password: &str, secret: &str) -> (r: bool)
    requires
        crypt_salt_readable(secret@),
    ensures
        r == crypt_matches(password@, secret@),
{
    htpasswd_verify::Hash::Crypt(std::borrow::Cow::Borrowed(secret)).check(password)
}

/// Decides `secret_accepts` for one stored secret and password.
pub fn check_secret(secret: &str, password: &str) -> (r: bool)
    ensures
        r == secret_accepts(secret@, password@),
{
    let n = secret.unicode_len();
    if n >= 6 && secret.get_char(0) == '$' && secret.get_char(1) == 'a' && secret.get_char(2)
        == 'p' && secret.get_char(3) == 'r' && secret.get_char(4) == '1' && secret.get_char(5)
        == '$' {
        if n < 15 {
            return false;
        }
        let salt = secret.substring_char(6, 14);
        let stored = secret.substring_char(15, n);
        let computed = md5_apr1_hash(password, salt);
        str_eq(computed.as_str(), stored)
    } else if n >= 4 && secret.get_char(0) == '$' && secret.get_char(1) == '2' && secret.get_char(
        2,
    ) == 'y' && secret.get_char(3) == '$' {
        bcrypt_check(password, secret)
    } else if n >= 5 && secret.get_char(0) == '{' && secret.get_char(1) == 'S' && secret.get_char(
        2,
    ) == 'H' && secret.get_char(3) == 'A' && secret.get_char(4) == '}' {
        sha1_check(password, secret.substring_char(5, n))
    } else {
        if n >= 1 && (secret.get_char(0) as u32) < 32 {
            return false;
        }
        if n >= 2 && (secret.get_char(1) as u32) < 32 {
            return false;
        }
        crypt_check(password, secret)
    }
}

/// Membership scan over the table text, exactly as `table_has_name`
/// describes: comment lines never match.
pub fn table_contains(table: &str, name: &str) -> (r: bool)
    ensures
        r == table_has_name(table@, name@),
{
    let ghost all = split_from(table@, 0, '\n');
    let lines = split_on(table, '\n');
    let n = lines.len();
    let mut i: usize = 0;
    while i < n
        invariant
            0 <= i <= n == lines@.len(),
            views_of(lines@) == all,
            all == split_from(table@, 0, '\n'),
            forall|k: int| 0 <= k < i ==> !line_names(#[trigger] all[k], name@),
        decreases n - i,
    {
        let line = lines[i].as_str();
        let ln = line.unicode_len();
        let is_comment = ln > 0 && line.get_char(0) == '#';
        if !is_comment {
            let e = find_char(line, 0, ':');
            if e < ln {
                let candidate = line.substring_char(0, e);
                if str_eq(candidate, name) {
                    assert(line_names(all[i as int], name@));
                    return true;
                }
            }
        }
        i += 1;
    }
    false
}

/// Looks up the stored secret for `name`, exactly as `entry_secret`
/// describes: the last non-comment record wins.
pub fn lookup_secret(table: &str, name: &str) -> (r: Option<String>)
    ensures
        match entry_secret(table@, name@) {
            Some(s) => r is Some && r->0@ == s,
            None => r is None,
        },
{
    let ghost all = split_from(table@, 0, '\n');
    let lines = split_on(table, '\n');
    let n = lines.len();
    let mut j: usize = n;
    proof {
        assert(all.subrange(0, n as int) =~= all);
    }
    while j > 0
        invariant
            0 <= j <= n == lines@.len(),
            views_of(lines@) == all,
            all == split_from(table@, 0, '\n'),
            lookup_last(all, name@) == lookup_last(all.subrange(0, j as int), name@),
        decreases j,
    {
        proof {
            assert(all.subrange(0, j as int).last() == all[j - 1]);
            assert(all.subrange(0, j as int).drop_last() =~= all.subrange(0, j - 1));
        }
        let line = lines[j - 1].as_str();
        let ln = line.unicode_len();
        let is_comment = ln > 0 && line.get_char(0) == '#';
        let e = find_char(line, 0, ':');
        if !is_comment && e < ln {
            let candidate = line.substring_char(0, e);
            if str_eq(candidate, name) {
                let secret = line.substring_char(e + 1, ln).to_owned();
                proof {
                    assert(secret@ =~= all[j - 1].subrange(
                        e + 1,
                        all[j - 1].len() as int,
                    ));
                }
                return Some(secret);
            }
        }
        j -= 1;
    }
    None
}

/// Verifies a password for `name` against the table, exactly as
/// `table_accepts` describes: unknown names and malformed secrets are
/// non-matches, never errors.
pub fn verify_password(table: &str, name: &str, password: &str) -> (r: bool)
    ensures
        r == table_accepts(table@, name@, password@),
{
    match lookup_secret(table, name) {
        Some(secret) => check_secret(secret.as_str(), password),
        None => false,
    }
}

} // verus!
