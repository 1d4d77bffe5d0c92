//! Verified text utilities: character search, line splitting, substring
//! containment, decimal parsing, lexicographic order, and path stems.
//!
//! Everything here is defined over `Seq<char>` views and proved against those
//! definitions; no outside code is involved.

use vstd::prelude::*;

verus! {

/// Index of the first occurrence of `c` in `s` at or after `i`; `s.len()` if
/// there is none.
pub open spec fn find_from(s: Seq<char>, i: int, c: char) -> int
    decreases s.len() - i,
{
    if i < 0 || i >= s.len() {
        s.len() as int
    } else if s[i] == c {
        i
    } else {
        find_from(s, i + 1, c)
    }
}

pub proof fn lemma_find_from(s: Seq<char>, i: int, c: char)
    requires
        0 <= i <= s.len(),
    ensures
        i <= find_from(s, i, c) <= s.len(),
        find_from(s, i, c) < s.len() ==> s[find_from(s, i, c)] == c,
        forall|j: int| i <= j < find_from(s, i, c) ==> s[j] != c,
    decreases s.len() - i,
{
    if i < s.len() && s[i] != c {
        lemma_find_from(s, i + 1, c);
    }
}

/// `x` without a single trailing carriage return, if it has one.
pub open spec fn chomp_cr(x: Seq<char>) -> Seq<char> {
    if x.len() > 0 && x.last() == '\r' {
        x.drop_last()
    } else {
        x
    }
}

#[via_fn]
proof fn lines_from_decreases(s: Seq<char>, i: int) {
    lemma_find_from(s, i, '\n');
}

/// The lines of `s` starting at position `i`, in the manner of a buffered
/// line reader: segments are cut at `'\n'`, each loses one trailing `'\r'`,
/// and a final newline produces no empty last line.
pub open spec fn lines_from(s: Seq<char>, i: int) -> Seq<Seq<char>>
    decreases s.len() - i when 0 <= i <= s.len() via lines_from_decreases
{
    if i >= s.len() {
        Seq::empty()
    } else {
        let e = find_from(s, i, '\n');
        if e >= s.len() {
            seq![chomp_cr(s.subrange(i, s.len() as int))]
        } else {
            seq![chomp_cr(s.subrange(i, e))] + lines_from(s, e + 1)
        }
    }
}

#[via_fn]
proof fn split_from_decreases(s: Seq<char>, i: int, c: char) {
    lemma_find_from(s, i, c);
}

/// The segments of `s` split at every occurrence of `c`, all kept, in the
/// manner of `str::split`: splitting the empty text yields one empty segment.
pub open spec fn split_from(s: Seq<char>, i: int, c: char) -> Seq<Seq<char>>
    decreases s.len() - i when 0 <= i <= s.len() via split_from_decreases
{
    let e = find_from(s, i, c);
    if e >= s.len() {
        seq![s.subrange(i, s.len() as int)]
    } else {
        seq![s.subrange(i, e)] + split_from(s, e + 1, c)
    }
}

/// The views of a vector of strings.
pub open spec fn views_of(v: Seq<String>) -> Seq<Seq<char>> {
    v.map_values(|x: String| x@)
}

/// First occurrence of `c` in `s` at or after `from`, as `find_from` names it.
pub fn find_char(s: &str, from: usize, c: char) -> (r: usize)
    requires
        from <= s@.len(),
    ensures
        r == find_from(s@, from as int, c),
        from <= r <= s@.len(),
{
    let n = s.unicode_len();
    let mut j = from;
    while j < n
        invariant
            from <= j <= n == s@.len(),
            find_from(s@, from as int, c) == find_from(s@, j as int, c),
        decreases n - j,
    {
        if s.get_char(j) == c {
            return j;
        }
        j += 1;
    }
    j
}

/// Splits decoded text into transcript lines: cut at `'\n'`, strip one
/// trailing `'\r'` per line, no empty line after a final newline.
pub fn split_lines(s: &str) -> (r: Vec<String>)
    ensures
        views_of(r@) == lines_from(s@, 0),
{
    let n = s.unicode_len();
    let mut r: Vec<String> = Vec::new();
    let mut pos: usize = 0;
    proof {
        assert(lines_from(s@, 0) =~~= views_of(r@) + lines_from(s@, 0));
    }
    while pos < n
        invariant
            0 <= pos <= n == s@.len(),
            lines_from(s@, 0) =~~= views_of(r@) + lines_from(s@, pos as int),
        decreases n - pos,
    {
        let e = find_char(s, pos, '\n');
        proof {
            lemma_find_from(s@, pos as int, '\n');
        }
        let mut end = e;
        if e > pos && s.get_char(e - 1) == '\r' {
            end = e - 1;
        }
        let piece = s.substring_char(pos, end).to_owned();
        proof {
            assert(piece@ =~= chomp_cr(s@.subrange(pos as int, e as int)));
        }
        let ghost prev = r@;
        r.push(piece);
        proof {
            assert(views_of(r@) =~~= views_of(prev).push(piece@));
            if e < n {
                assert(lines_from(s@, 0) =~~= views_of(r@) + lines_from(s@, e + 1));
            } else {
                assert(lines_from(s@, pos as int) =~~= seq![piece@]);
                assert(lines_from(s@, 0) =~~= views_of(r@) + lines_from(s@, n as int));
            }
        }
        pos = if e < n {
            e + 1
        } else {
            n
        };
    }
    proof {
        assert(lines_from(s@, 0) =~~= views_of(r@));
    }
    r
}

/// Splits `s` at every occurrence of `c`, keeping empty segments, as
/// `split_from` names it.
pub fn split_on(s: &str, c: char) -> (r: Vec<String>)
    ensures
        views_of(r@) == split_from(s@, 0, c),
        r@.len() >= 1,
{
    let n = s.unicode_len();
    let mut r: Vec<String> = Vec::new();
    let mut pos: usize = 0;
    proof {
        assert(split_from(s@, 0, c) =~~= views_of(r@) + split_from(s@, 0, c));
    }
    loop
        invariant
            0 <= pos <= n == s@.len(),
            split_from(s@, 0, c) =~~= views_of(r@) + split_from(s@, pos as int, c),
        decreases n - pos,
    {
        let e = find_char(s, pos, c);
        proof {
            lemma_find_from(s@, pos as int, c);
        }
        let piece = s.substring_char(pos, e).to_owned();
        let ghost prev = r@;
        r.push(piece);
        proof {
            assert(views_of(r@) =~~= views_of(prev).push(piece@));
        }
        if e == n {
            proof {
                assert(split_from(s@, pos as int, c) =~~= seq![piece@]);
                assert(split_from(s@, 0, c) =~~= views_of(r@));
            }
            return r;
        }
        proof {
            assert(split_from(s@, 0, c) =~~= views_of(r@) + split_from(s@, e + 1, c));
        }
        pos = e + 1;
    }
}

/// Character-for-character equality of two text slices.
pub fn str_eq(a: &str, b: &str) -> (r: bool)
    ensures
        r == (a@ == b@),
{
    let na = a.unicode_len();
    let nb = b.unicode_len();
    if na != nb {
        return false;
    }
    let mut i: usize = 0;
    while i < na
        invariant
            0 <= i <= na == a@.len(),
            nb == b@.len(),
            na == nb,
            forall|j: int| 0 <= j < i ==> a@[j] == b@[j],
        decreases na - i,
    {
        if a.get_char(i) != b.get_char(i) {
            return false;
        }
        i += 1;
    }
    proof {
        assert(a@ =~= b@);
    }
    true
}

} // verus!

verus! {

/// Lexicographic order on text by unicode code point, the order in which
/// Rust compares strings.
pub open spec fn lex_le(a: Seq<char>, b: Seq<char>) -> bool
    decreases a.len(),
{
    if a.len() == 0 {
        true
    } else if b.len() == 0 {
        false
    } else if (a[0] as u32) < (b[0] as u32) {
        true
    } else if (a[0] as u32) > (b[0] as u32) {
        false
    } else {
        lex_le(a.drop_first(), b.drop_first())
    }
}

/// Two characters with the same code point are the same character.
proof fn lemma_char_code_eq(a: char, b: char)
    requires
        a as u32 == b as u32,
    ensures
        a == b,
{
    vstd::utf8::char_u32_cast(a, a as u32);
    vstd::utf8::char_u32_cast(b, b as u32);
}

/// `lex_le` relates every pair of texts one way or the other.
pub proof fn lemma_lex_total(a: Seq<char>, b: Seq<char>)
    ensures
        lex_le(a, b) || lex_le(b, a),
    decreases a.len(),
{
    if a.len() > 0 && b.len() > 0 && a[0] as u32 == b[0] as u32 {
        lemma_char_code_eq(a[0], b[0]);
        lemma_lex_total(a.drop_first(), b.drop_first());
    }
}

/// `lex_le` is transitive.
pub proof fn lemma_lex_trans(a: Seq<char>, b: Seq<char>, c: Seq<char>)
    requires
        lex_le(a, b),
        lex_le(b, c),
    ensures
        lex_le(a, c),
    decreases a.len(),
{
    if a.len() > 0 && b.len() > 0 && c.len() > 0 && a[0] as u32 == b[0] as u32 && b[0] as u32
        == c[0] as u32 {
        lemma_char_code_eq(a[0], b[0]);
        lemma_char_code_eq(b[0], c[0]);
        lemma_lex_trans(a.drop_first(), b.drop_first(), c.drop_first());
    }
}

/// Decides `lex_le` on two text slices.
pub fn str_le(a: &str, b: &str) -> (r: bool)
    ensures
        r == lex_le(a@, b@),
{
    let na = a.unicode_len();
    let nb = b.unicode_len();
    let mut i: usize = 0;
    proof {
        assert(a@.skip(0) =~= a@);
        assert(b@.skip(0) =~= b@);
    }
    loop
        invariant
            0 <= i <= na == a@.len(),
            i <= nb == b@.len(),
            lex_le(a@, b@) == lex_le(a@.skip(i as int), b@.skip(i as int)),
        decreases na - i,
    {
        if i == na {
            assert(a@.skip(i as int).len() == 0);
            return true;
        }
        if i == nb {
            assert(b@.skip(i as int).len() == 0);
            return false;
        }
        let ca = a.get_char(i);
        let cb = b.get_char(i);
        proof {
            assert(a@.skip(i as int)[0] == a@[i as int]);
            assert(b@.skip(i as int)[0] == b@[i as int]);
            assert(a@.skip(i as int).drop_first() =~= a@.skip(i + 1));
            assert(b@.skip(i as int).drop_first() =~= b@.skip(i + 1));
        }
        if (ca as u32) < (cb as u32) {
            return true;
        }
        if (ca as u32) > (cb as u32) {
            return false;
        }
        i += 1;
    }
}

/// The status marker `"] *** "` occurs at position `i` of `s`.
pub open spec fn marker_at(s: Seq<char>, i: int) -> bool {
    &&& 0 <= i
    &&& i + 6 <= s.len()
    &&& s[i] == ']'
    &&& s[i + 1] == ' '
    &&& s[i + 2] == '*'
    &&& s[i + 3] == '*'
    &&& s[i + 4] == '*'
    &&& s[i + 5] == ' '
}

/// The status marker `"] *** "` occurs somewhere in `s`; the cheap counting
/// pass classifies a line as a status line exactly when this holds.
pub open spec fn has_status_marker(s: Seq<char>) -> bool {
    exists|i: int| marker_at(s, i)
}

/// Decides `has_status_marker`.
pub fn contains_status_marker(s: &str) -> (r: bool)
    ensures
        r == has_status_marker(s@),
{
    let n = s.unicode_len();
    if n < 6 {
        assert(forall|i: int| !marker_at(s@, i));
        return false;
    }
    let mut i: usize = 0;
    while i <= n - 6
        invariant
            6 <= n == s@.len(),
            0 <= i <= n - 5,
            forall|k: int| 0 <= k < i ==> !marker_at(s@, k),
        decreases n - i,
    {
        if s.get_char(i) == ']' && s.get_char(i + 1) == ' ' && s.get_char(i + 2) == '*'
            && s.get_char(i + 3) == '*' && s.get_char(i + 4) == '*' && s.get_char(i + 5) == ' ' {
            assert(marker_at(s@, i as int));
            return true;
        }
        i += 1;
    }
    assert(forall|k: int| !marker_at(s@, k));
    false
}

/// `s` names a log file: it ends in `".log"` with a nonempty stem before it.
pub open spec fn is_log_name(s: Seq<char>) -> bool {
    &&& s.len() >= 5
    &&& s[s.len() - 4] == '.'
    &&& s[s.len() - 3] == 'l'
    &&& s[s.len() - 2] == 'o'
    &&& s[s.len() - 1] == 'g'
}

/// Decides `is_log_name`.
pub fn has_log_extension(s: &str) -> (r: bool)
    ensures
        r == is_log_name(s@),
{
    let n = s.unicode_len();
    if n < 5 {
        return false;
    }
    s.get_char(n - 4) == '.' && s.get_char(n - 3) == 'l' && s.get_char(n - 2) == 'o'
        && s.get_char(n - 1) == 'g'
}

/// Index of the last occurrence of `c` in `s`, or `-1` if there is none.
pub open spec fn rfind(s: Seq<char>, c: char) -> int
    decreases s.len(),
{
    if s.len() == 0 {
        -1
    } else if s.last() == c {
        s.len() - 1
    } else {
        rfind(s.drop_last(), c)
    }
}

pub proof fn lemma_rfind(s: Seq<char>, c: char)
    ensures
        -1 <= rfind(s, c) < s.len(),
        rfind(s, c) >= 0 ==> s[rfind(s, c)] == c,
        forall|j: int| rfind(s, c) < j < s.len() ==> s[j] != c,
    decreases s.len(),
{
    if s.len() > 0 && s.last() != c {
        lemma_rfind(s.drop_last(), c);
        assert(forall|j: int| 0 <= j < s.len() - 1 ==> s.drop_last()[j] == s[j]);
    }
}

/// Last occurrence of `c` in `s`, as `rfind` names it.
pub fn rfind_char(s: &str, c: char) -> (r: Option<usize>)
    ensures
        match r {
            Some(k) => k == rfind(s@, c),
            None => rfind(s@, c) == -1,
        },
{
    let n = s.unicode_len();
    let mut j = n;
    proof {
        assert(s@.subrange(0, n as int) =~= s@);
    }
    while j > 0
        invariant
            0 <= j <= n == s@.len(),
            rfind(s@, c) == rfind(s@.subrange(0, j as int), c),
        decreases j,
    {
        proof {
            assert(s@.subrange(0, j as int).last() == s@[j - 1]);
            assert(s@.subrange(0, j as int).drop_last() =~= s@.subrange(0, j - 1));
        }
        if s.get_char(j - 1) == c {
            return Some(j - 1);
        }
        j -= 1;
    }
    None
}

/// The file-name portion of a path: everything after the last `'/'`.
pub open spec fn file_name_part(p: Seq<char>) -> Seq<char> {
    p.subrange(rfind(p, '/') + 1, p.len() as int)
}

/// The stem of a path: its file name without the extension after the last
/// `'.'`; a leading dot starts no extension.
pub open spec fn stem_of_path(p: Seq<char>) -> Seq<char> {
    let name = file_name_part(p);
    let q = rfind(name, '.');
    if q <= 0 {
        name
    } else {
        name.subrange(0, q)
    }
}

/// The stem of a path, as `stem_of_path` names it.
pub fn stem_of(path: &str) -> (r: String)
    ensures
        r@ == stem_of_path(path@),
{
    proof {
        lemma_rfind(path@, '/');
    }
    let n = path.unicode_len();
    let start = match rfind_char(path, '/') {
        Some(k) => k + 1,
        None => 0,
    };
    let name = path.substring_char(start, n);
    proof {
        assert(name@ =~= file_name_part(path@));
        lemma_rfind(name@, '.');
    }
    match rfind_char(name, '.') {
        Some(q) if q > 0 => name.substring_char(0, q).to_owned(),
        _ => name.to_owned(),
    }
}

} // verus!

verus! {

/// ASCII whitespace, the characters stripped around a number field.
pub open spec fn is_ws(c: char) -> bool {
    c == ' ' || c == '\t' || c == '\n' || c == '\r' || c as u32 == 11 || c as u32 == 12
}

/// Index of the first character at or after `i` that is not whitespace.
pub open spec fn skip_ws(s: Seq<char>, i: int) -> int
    decreases s.len() - i,
{
    if i < 0 || i >= s.len() {
        s.len() as int
    } else if is_ws(s[i]) {
        skip_ws(s, i + 1)
    } else {
        i
    }
}

/// End of the last non-whitespace character strictly before `j`.
pub open spec fn rskip_ws(s: Seq<char>, j: int) -> int
    decreases j,
{
    if j <= 0 {
        0
    } else if 0 < j <= s.len() && is_ws(s[j - 1]) {
        rskip_ws(s, j - 1)
    } else {
        j
    }
}

/// `s` with leading and trailing whitespace removed.
pub open spec fn trimmed(s: Seq<char>) -> Seq<char> {
    let a = skip_ws(s, 0);
    let b = rskip_ws(s, s.len() as int);
    if b <= a {
        Seq::empty()
    } else {
        s.subrange(a, b)
    }
}

/// A decimal digit.
pub open spec fn is_digit(c: char) -> bool {
    48 <= c as u32 && c as u32 <= 57
}

pub open spec fn digit_val(c: char) -> int {
    c as u32 - 48
}

/// Value of a digit string read in base ten.
pub open spec fn dec_value(s: Seq<char>) -> int
    decreases s.len(),
{
    if s.len() == 0 {
        0
    } else {
        dec_value(s.drop_last()) * 10 + digit_val(s.last())
    }
}

pub open spec fn all_digits(s: Seq<char>) -> bool {
    forall|i: int| 0 <= i < s.len() ==> is_digit(s[i])
}

/// The unsigned value denoted by `s` in the manner of Rust's `u64` parsing:
/// an optional leading `'+'`, then one or more digits, value at most
/// `u64::MAX`; anything else denotes nothing.
pub open spec fn parsed_u64(s: Seq<char>) -> Option<int> {
    let t = if s.len() > 0 && s[0] == '+' {
        s.drop_first()
    } else {
        s
    };
    if t.len() > 0 && all_digits(t) && dec_value(t) <= u64::MAX {
        Some(dec_value(t))
    } else {
        None
    }
}

proof fn lemma_dec_value_nonneg(s: Seq<char>)
    requires
        all_digits(s),
    ensures
        dec_value(s) >= 0,
    decreases s.len(),
{
    if s.len() > 0 {
        assert(forall|i: int| 0 <= i < s.len() - 1 ==> #[trigger] s.drop_last()[i] == s[i]);
        lemma_dec_value_nonneg(s.drop_last());
    }
}

proof fn lemma_dec_value_prefix(s: Seq<char>, m: int)
    requires
        all_digits(s),
        0 <= m <= s.len(),
    ensures
        dec_value(s.subrange(0, m)) <= dec_value(s),
    decreases s.len() - m,
{
    if m == s.len() {
        assert(s.subrange(0, m) =~= s);
    } else {
        let p = s.subrange(0, m);
        let q = s.subrange(0, m + 1);
        assert(forall|i: int| 0 <= i < q.len() ==> #[trigger] q[i] == s[i]);
        assert(q.drop_last() =~= p);
        assert(forall|i: int| 0 <= i < p.len() ==> #[trigger] p[i] == s[i]);
        lemma_dec_value_nonneg(p);
        assert(dec_value(q) == dec_value(p) * 10 + digit_val(s[m]));
        lemma_dec_value_prefix(s, m + 1);
    }
}

/// Whether `c` is ASCII whitespace, as `is_ws` names it.
pub(crate) fn ws_char(c: char) -> (r: bool)
    ensures
        r == is_ws(c),
{
    let u = c as u32;
    u == 32 || u == 9 || u == 10 || u == 13 || u == 11 || u == 12
}

/// First non-whitespace position of `s`.
fn trim_start_idx(s: &str) -> (a: usize)
    ensures
        a == skip_ws(s@, 0),
        a <= s@.len(),
{
    let n = s.unicode_len();
    let mut a: usize = 0;
    while a < n
        invariant
            0 <= a <= n == s@.len(),
            skip_ws(s@, 0) == skip_ws(s@, a as int),
        decreases n - a,
    {
        if !ws_char(s.get_char(a)) {
            return a;
        }
        a += 1;
    }
    a
}

/// End of the last non-whitespace character of `s`.
fn trim_end_idx(s: &str) -> (b: usize)
    ensures
        b == rskip_ws(s@, s@.len() as int),
        b <= s@.len(),
{
    let n = s.unicode_len();
    let mut b: usize = n;
    while b > 0
        invariant
            0 <= b <= n == s@.len(),
            rskip_ws(s@, n as int) == rskip_ws(s@, b as int),
        decreases b,
    {
        if !ws_char(s.get_char(b - 1)) {
            return b;
        }
        b -= 1;
    }
    b
}

/// `s` with surrounding whitespace removed, as `trimmed` names it.
pub fn str_trim(s: &str) -> (r: &str)
    ensures
        r@ == trimmed(s@),
{
    let a = trim_start_idx(s);
    let b = trim_end_idx(s);
    if b <= a {
        let empty = s.substring_char(0, 0);
        proof {
            assert(empty@ =~= trimmed(s@));
        }
        return empty;
    }
    let r = s.substring_char(a, b);
    proof {
        assert(r@ =~= trimmed(s@));
    }
    r
}

/// Reads `s` as a `u64`, exactly as `parsed_u64` describes; `None` on any
/// malformed or overflowing field.
pub fn parse_u64(s: &str) -> (r: Option<u64>)
    ensures
        match parsed_u64(s@) {
            Some(v) => r is Some && r->0 == v,
            None => r is None,
        },
{
    let n = s.unicode_len();
    if n == 0 {
        return None;
    }
    let a2: usize = if s.get_char(0) == '+' {
        1
    } else {
        0
    };
    let ghost u = if s@[0] == '+' {
        s@.drop_first()
    } else {
        s@
    };
    proof {
        assert(u =~= s@.subrange(a2 as int, n as int));
    }
    if a2 == n {
        return None;
    }
    let mut value: u64 = 0;
    let mut j = a2;
    proof {
        assert(u.subrange(0, 0) =~= Seq::<char>::empty());
    }
    while j < n
        invariant
            a2 <= j <= n == s@.len(),
            a2 < n,
            a2 == 0 || a2 == 1,
            a2 == 1 <==> (s@.len() > 0 && s@[0] == '+'),
            u == (if s@[0] == '+' {
                s@.drop_first()
            } else {
                s@
            }),
            u =~= s@.subrange(a2 as int, n as int),
            forall|k: int| 0 <= k < j - a2 ==> is_digit(#[trigger] u[k]),
            value == dec_value(u.subrange(0, j - a2)),
        decreases n - j,
    {
        let c = s.get_char(j);
        let code = c as u32;
        if code < 48 || code > 57 {
            assert(!is_digit(u[j - a2]));
            return None;
        }
        let d = (code - 48) as u64;
        let ghost pre = u.subrange(0, j - a2);
        let ghost post = u.subrange(0, j - a2 + 1);
        proof {
            assert(post.drop_last() =~= pre);
            assert(post.last() == u[j - a2]);
            assert(dec_value(post) == dec_value(pre) * 10 + digit_val(u[j - a2]));
        }
        if value > (u64::MAX - d) / 10 {
            proof {
                assert(value * 10 + d > u64::MAX) by (nonlinear_arith)
                    requires
                        value > (u64::MAX - d) / 10,
                        d <= 9,
                ;
                if all_digits(u) {
                    lemma_dec_value_prefix(u, j - a2 + 1);
                    assert(dec_value(u) > u64::MAX);
                }
            }
            return None;
        }
        proof {
            assert(value * 10 + d <= u64::MAX) by (nonlinear_arith)
                requires
                    value <= (u64::MAX - d) / 10,
                    d <= 9,
            ;
        }
        value = value * 10 + d;
        j += 1;
    }
    proof {
        assert(u.subrange(0, n - a2) =~= u);
        assert(all_digits(u));
    }
    Some(value)
}

} // verus!

verus! {

/// Index of the first whitespace character of `s` at or after `i`; `s.len()`
/// if there is none.
pub open spec fn find_ws_from(s: Seq<char>, i: int) -> int
    decreases s.len() - i,
{
    if i < 0 || i >= s.len() {
        s.len() as int
    } else if is_ws(s[i]) {
        i
    } else {
        find_ws_from(s, i + 1)
    }
}

/// First whitespace position of `s` at or after `from`, as `find_ws_from`
/// names it.
pub fn find_ws(s: &str, from: usize) -> (r: usize)
    requires
        from <= s@.len(),
    ensures
        r == find_ws_from(s@, from as int),
        from <= r <= s@.len(),
{
    let n = s.unicode_len();
    let mut j = from;
    while j < n
        invariant
            from <= j <= n == s@.len(),
            find_ws_from(s@, from as int) == find_ws_from(s@, j as int),
        decreases n - j,
    {
        if ws_char(s.get_char(j)) {
            return j;
        }
        j += 1;
    }
    j
}

} // verus!
