use vstd::prelude::*;

use crate::reading::{BatteryReading, SourceError, Status};

verus! {

// --------------------------------------------------------------------------
// The shape of a source blob, as a specification.
//
// A blob is newline-separated lines. A line's key is the text before its
// first `=` (or the whole line when it has none); its value is the text
// between that `=` and a second `=` or the end of the line. A field is looked
// up by the first line whose key contains a marker as a substring: the files
// this format comes from are believed to contain each marker uniquely, so
// substring containment is the designed mechanism, not exact key equality.
// --------------------------------------------------------------------------

/// Position of the first occurrence of `c` in `s` at or after `i`, or
/// `s.len()` when there is none.
pub open spec fn find_from(s: Seq<char>, c: char, i: int) -> int
    decreases s.len() - i,
    when 0 <= i <= s.len()
{
    if i >= s.len() {
        s.len() as int
    } else if s[i] == c {
        i
    } else {
        find_from(s, c, i + 1)
    }
}

/// `find_from` returns the position of `c`, or the length; nothing before it
/// is `c`.
pub proof fn lemma_find_from(s: Seq<char>, c: char, i: int)
    requires
        0 <= i <= s.len(),
    ensures
        i <= find_from(s, c, i) <= s.len(),
        find_from(s, c, i) < s.len() ==> s[find_from(s, c, i)] == c,
        forall|k: int| i <= k < find_from(s, c, i) ==> s[k] != c,
    decreases s.len() - i,
{
    if i < s.len() && s[i] != c {
        lemma_find_from(s, c, i + 1);
    }
}

/// A position with `c` (or the end) and nothing but non-`c` before it is
/// exactly what `find_from` returns.
pub proof fn lemma_find_from_is(s: Seq<char>, c: char, i: int, n: int)
    requires
        0 <= i <= n <= s.len(),
        forall|k: int| i <= k < n ==> s[k] != c,
        n == s.len() || s[n] == c,
    ensures
        find_from(s, c, i) == n,
{
    lemma_find_from(s, c, i);
}

/// End of the line that starts at `start`: the next newline, or the end of
/// the blob.
pub open spec fn line_end(s: Seq<char>, start: int) -> int {
    find_from(s, '\n', start)
}

/// End of the key of the line that starts at `start`: its first `=`, or the
/// end of the line when it has none.
pub open spec fn key_end(s: Seq<char>, start: int) -> int {
    if find_from(s, '=', start) < line_end(s, start) {
        find_from(s, '=', start)
    } else {
        line_end(s, start)
    }
}

/// The key of the line that starts at `start`.
pub open spec fn line_key(s: Seq<char>, start: int) -> Seq<char> {
    s.subrange(start, key_end(s, start))
}

/// The value of the line that starts at `start`: the text between its first
/// `=` and its second `=` or the end of the line; nothing when the line has
/// no `=` at all.
pub open spec fn line_value(s: Seq<char>, start: int) -> Option<Seq<char>> {
    let le = line_end(s, start);
    let eq = find_from(s, '=', start);
    if eq < le {
        let ve = if find_from(s, '=', eq + 1) < le {
            find_from(s, '=', eq + 1)
        } else {
            le
        };
        Some(s.subrange(eq + 1, ve))
    } else {
        None
    }
}

/// `needle` occurs in `hay` at position `i`.
pub open spec fn contains_at(hay: Seq<char>, needle: Seq<char>, i: int) -> bool {
    0 <= i && i + needle.len() <= hay.len() && hay.subrange(i, i + needle.len()) == needle
}

/// `needle` occurs somewhere in `hay`.
pub open spec fn seq_contains(hay: Seq<char>, needle: Seq<char>) -> bool {
    exists|i: int| contains_at(hay, needle, i)
}

/// A line of the blob starts at `i`.
pub open spec fn is_line_start(s: Seq<char>, i: int) -> bool {
    0 <= i <= s.len() && (i == 0 || s[i - 1] == '\n')
}

/// A line starts at `i` and its key contains `marker`.
pub open spec fn line_matches(s: Seq<char>, marker: Seq<char>, i: int) -> bool {
    is_line_start(s, i) && seq_contains(line_key(s, i), marker)
}

/// Start of the first line at or after position `i` whose key contains
/// `marker`.
pub open spec fn first_match_from(s: Seq<char>, marker: Seq<char>, i: int) -> Option<int>
    decreases s.len() - i,
    when 0 <= i <= s.len()
{
    if line_matches(s, marker, i) {
        Some(i)
    } else if i >= s.len() {
        None
    } else {
        first_match_from(s, marker, i + 1)
    }
}

/// `first_match_from` finds a matching line and nothing before it matches;
/// when it finds none, no line at or after `i` matches.
pub proof fn lemma_first_match_from(s: Seq<char>, marker: Seq<char>, i: int)
    requires
        0 <= i <= s.len(),
    ensures
        match first_match_from(s, marker, i) {
            Some(m) => i <= m <= s.len() && line_matches(s, marker, m) && forall|k: int|
                i <= k < m ==> !line_matches(s, marker, k),
            None => forall|k: int| i <= k <= s.len() ==> !line_matches(s, marker, k),
        },
    decreases s.len() - i,
{
    if !line_matches(s, marker, i) && i < s.len() {
        lemma_first_match_from(s, marker, i + 1);
    }
}

/// The earliest matching line (or the absence of any) is exactly what
/// `first_match_from` returns.
pub proof fn lemma_first_match_is(s: Seq<char>, marker: Seq<char>, r: Option<int>)
    requires
        match r {
            Some(m) => 0 <= m <= s.len() && line_matches(s, marker, m) && forall|k: int|
                0 <= k < m ==> !line_matches(s, marker, k),
            None => forall|k: int| 0 <= k <= s.len() ==> !line_matches(s, marker, k),
        },
    ensures
        first_match_from(s, marker, 0) == r,
{
    lemma_first_match_from(s, marker, 0);
}

/// The value of the first line whose key contains `marker`, if such a line
/// exists and carries an `=`.
pub open spec fn field_value(s: Seq<char>, marker: Seq<char>) -> Option<Seq<char>> {
    match first_match_from(s, marker, 0) {
        Some(i) => line_value(s, i),
        None => None,
    }
}

// --------------------------------------------------------------------------
// Executable search, verified against the model above.
// --------------------------------------------------------------------------

/// First position of `c` in `s` at or after `from`, or the length when `c`
/// does not occur there.
fn find_char_from(s: &str, n: usize, c: char, from: usize) -> (r: usize)
    requires
        n == s@.len(),
        from <= n,
    ensures
        r == find_from(s@, c, from as int),
{
    let mut i = from;
    while i < n
        invariant
            from <= i <= n,
            n == s@.len(),
            forall|k: int| from <= k < i ==> s@[k] != c,
        decreases n - i,
    {
        if s.get_char(i) == c {
            proof {
                lemma_find_from_is(s@, c, from as int, i as int);
            }
            return i;
        }
        i = i + 1;
    }
    proof {
        lemma_find_from_is(s@, c, from as int, n as int);
    }
    n
}

/// Whether `marker` occurs in `s` at offset `off` of the range `lo..hi`.
fn matches_at(s: &str, n: usize, lo: usize, hi: usize, off: usize, marker: &str, mlen: usize) -> (r: bool)
    requires
        n == s@.len(),
        mlen == marker@.len(),
        lo <= hi <= n,
        off + mlen <= hi - lo,
    ensures
        r == contains_at(s@.subrange(lo as int, hi as int), marker@, off as int),
{
    let ghost hay = s@.subrange(lo as int, hi as int);
    let mut j: usize = 0;
    while j < mlen
        invariant
            j <= mlen,
            n == s@.len(),
            mlen == marker@.len(),
            lo <= hi <= n,
            off + mlen <= hi - lo,
            hay == s@.subrange(lo as int, hi as int),
            forall|k: int| 0 <= k < j ==> hay[off + k] == marker@[k],
        decreases mlen - j,
    {
        if s.get_char(lo + off + j) != marker.get_char(j) {
            proof {
                assert(hay[off + j] == s@[lo + off + j]);
                if contains_at(hay, marker@, off as int) {
                    assert(hay.subrange(off as int, off + mlen)[j as int] == hay[off + j]);
                }
            }
            return false;
        }
        j = j + 1;
    }
    proof {
        assert(hay.subrange(off as int, off + mlen as int) =~= marker@);
    }
    true
}

/// Whether `s[lo..hi]` contains `marker` (ranges in characters).
fn contains_in_range(s: &str, n: usize, lo: usize, hi: usize, marker: &str, mlen: usize) -> (r: bool)
    requires
        n == s@.len(),
        mlen == marker@.len(),
        lo <= hi <= n,
    ensures
        r == seq_contains(s@.subrange(lo as int, hi as int), marker@),
{
    let ghost hay = s@.subrange(lo as int, hi as int);
    let len = hi - lo;
    if mlen > len {
        proof {
            assert forall|i: int| !contains_at(hay, marker@, i) by {}
        }
        return false;
    }
    if mlen == 0 {
        proof {
            assert(contains_at(hay, marker@, 0)) by {
                assert(hay.subrange(0, 0) =~= marker@);
            }
        }
        return true;
    }
    let mut i: usize = 0;
    while i <= len - mlen
        invariant
            i <= len - mlen + 1,
            n == s@.len(),
            mlen == marker@.len(),
            lo <= hi <= n,
            1 <= mlen <= len,
            len == hi - lo,
            hay == s@.subrange(lo as int, hi as int),
            forall|k: int| 0 <= k < i ==> !contains_at(hay, marker@, k),
        decreases len - mlen - i + 1,
    {
        if matches_at(s, n, lo, hi, i, marker, mlen) {
            proof {
                assert(contains_at(hay, marker@, i as int));
            }
            return true;
        }
        i = i + 1;
    }
    proof {
        assert forall|k: int| !contains_at(hay, marker@, k) by {
            if 0 <= k <= len - mlen {
                assert(!contains_at(hay, marker@, k));
            }
        }
    }
    false
}

/// Start of the first line whose key contains `marker`, scanning the whole
/// blob.
fn find_marked_line(s: &str, n: usize, marker: &str) -> (r: Option<usize>)
    requires
        n == s@.len(),
    ensures
        match r {
            Some(p) => p <= n && first_match_from(s@, marker@, 0) == Some(p as int),
            None => first_match_from(s@, marker@, 0) is None,
        },
{
    let mlen = marker.unicode_len();
    let mut pos: usize = 0;
    loop
        invariant
            pos <= n,
            n == s@.len(),
            mlen == marker@.len(),
            is_line_start(s@, pos as int),
            forall|k: int| 0 <= k < pos ==> !line_matches(s@, marker@, k),
        decreases n - pos,
    {
        let le = find_char_from(s, n, '\n', pos);
        let eq = find_char_from(s, n, '=', pos);
        proof {
            lemma_find_from(s@, '\n', pos as int);
            lemma_find_from(s@, '=', pos as int);
        }
        let ke = if eq < le {
            eq
        } else {
            le
        };
        if contains_in_range(s, n, pos, ke, marker, mlen) {
            proof {
                lemma_first_match_is(s@, marker@, Some(pos as int));
            }
            return Some(pos);
        }
        proof {
            assert forall|k: int| pos < k <= le implies !line_matches(s@, marker@, k) by {
                assert(s@[k - 1] != '\n');
            }
        }
        if le >= n {
            proof {
                lemma_first_match_is(s@, marker@, None::<int>);
            }
            return None;
        }
        pos = le + 1;
    }
}

/// The raw value of the first line whose key contains `marker`: the text
/// between the line's first `=` and its second `=` or end of line.
fn extract_field<'a>(s: &'a str, n: usize, marker: &str) -> (r: Option<&'a str>)
    requires
        n == s@.len(),
    ensures
        match r {
            Some(v) => field_value(s@, marker@) == Some(v@),
            None => field_value(s@, marker@) is None,
        },
{
    match find_marked_line(s, n, marker) {
        None => None,
        Some(p) => {
            let le = find_char_from(s, n, '\n', p);
            let eq = find_char_from(s, n, '=', p);
            proof {
                lemma_find_from(s@, '\n', p as int);
                lemma_find_from(s@, '=', p as int);
            }
            if eq >= le {
                None
            } else {
                let e2 = find_char_from(s, n, '=', eq + 1);
                proof {
                    lemma_find_from(s@, '=', eq + 1);
                }
                let ve = if e2 < le {
                    e2
                } else {
                    le
                };
                Some(s.substring_char(eq + 1, ve))
            }
        },
    }
}

// --------------------------------------------------------------------------
// Decimal percentage values.
// --------------------------------------------------------------------------

/// A decimal digit.
pub open spec fn is_digit(c: char) -> bool {
    48 <= c as int <= 57
}

/// Every character of `v` is a decimal digit.
pub open spec fn all_digits(v: Seq<char>) -> bool {
    forall|i: int| 0 <= i < v.len() ==> is_digit(#[trigger] v[i])
}

/// Value of a digit sequence, most significant digit first.
pub open spec fn digits_val(v: Seq<char>) -> int
    decreases v.len(),
{
    if v.len() == 0 {
        0
    } else {
        digits_val(v.drop_last()) * 10 + (v.last() as int - 48)
    }
}

/// What a signed decimal `i8` field means: an optional sign, then at least
/// one digit, denoting a value in the range of `i8`.
pub open spec fn spec_parse_i8(v: Seq<char>) -> Option<i8> {
    let neg = v.len() > 0 && v[0] == '-';
    let digits = if v.len() > 0 && (v[0] == '-' || v[0] == '+') {
        v.drop_first()
    } else {
        v
    };
    if digits.len() > 0 && all_digits(digits) {
        let m = digits_val(digits);
        if neg && m <= 128 {
            Some((-m) as i8)
        } else if !neg && m <= 127 {
            Some(m as i8)
        } else {
            None
        }
    } else {
        None
    }
}

/// Appending a digit multiplies the value by ten and adds the digit.
proof fn lemma_digits_val_push(v: Seq<char>, c: char)
    ensures
        digits_val(v.push(c)) == digits_val(v) * 10 + (c as int - 48),
{
    assert(v.push(c).drop_last() =~= v);
    assert(v.push(c).last() == c);
}

/// Parse the whole of `v` as a signed decimal `i8`.
fn parse_i8(v: &str) -> (r: Option<i8>)
    ensures
        r == spec_parse_i8(v@),
{
    let n = v.unicode_len();
    if n == 0 {
        return None;
    }
    let first = v.get_char(0);
    let neg = first == '-';
    let off: usize = if first == '-' || first == '+' {
        1
    } else {
        0
    };
    let ghost digits = if off == 1 {
        v@.drop_first()
    } else {
        v@
    };
    if n == off {
        proof {
            assert(digits.len() == 0);
        }
        return None;
    }
    let mut i = off;
    let mut acc: u32 = 0;
    let mut big = false;
    while i < n
        invariant
            off <= i <= n,
            n == v@.len(),
            n > off,
            off == 0 || off == 1,
            off == 1 <==> (v@[0] == '-' || v@[0] == '+'),
            digits == (if off == 1 {
                v@.drop_first()
            } else {
                v@
            }),
            digits.len() == n - off,
            forall|k: int| 0 <= k < i - off ==> is_digit(#[trigger] digits[k]),
            !big ==> acc == digits_val(digits.take(i - off)) && acc <= 128,
            big ==> digits_val(digits.take(i - off)) > 128,
        decreases n - i,
    {
        let c = v.get_char(i);
        let cu = c as u32;
        proof {
            assert(digits[i - off] == v@[i as int]);
        }
        if cu < 48 || cu > 57 {
            proof {
                assert(!is_digit(digits[i - off]));
            }
            return None;
        }
        proof {
            assert(digits.take(i - off + 1) =~= digits.take(i - off).push(digits[i - off]));
            lemma_digits_val_push(digits.take(i - off), digits[i - off]);
        }
        if !big {
            let next = acc * 10 + (cu - 48);
            if next > 128 {
                big = true;
            } else {
                acc = next;
            }
        }
        i = i + 1;
    }
    proof {
        assert(digits.take(n - off) =~= digits);
    }
    if big {
        return None;
    }
    if neg {
        Some((-(acc as i32)) as i8)
    } else {
        if acc <= 127 {
            Some(acc as i8)
        } else {
            None
        }
    }
}

// --------------------------------------------------------------------------
// Status classification.
// --------------------------------------------------------------------------

/// A character folded within ASCII: uppercase letters map to their lowercase
/// code point, everything else stays itself.
pub open spec fn lower_char(c: char) -> int {
    if 65 <= c as int <= 90 {
        c as int + 32
    } else {
        c as int
    }
}

/// Case-insensitive equality of two character sequences, ASCII-folded.
pub open spec fn ci_eq(v: Seq<char>, w: Seq<char>) -> bool {
    v.len() == w.len() && forall|i: int|
        0 <= i < v.len() ==> lower_char(#[trigger] v[i]) == lower_char(w[i])
}

/// How a raw status field is classified: case-insensitively "charging" or
/// "discharging", and anything else kept verbatim.
pub open spec fn status_of(st: Status, v: Seq<char>) -> bool {
    match st {
        Status::Charging => ci_eq(v, "charging"@),
        Status::Discharging => ci_eq(v, "discharging"@),
        Status::Other(raw) => raw@ == v && !ci_eq(v, "charging"@) && !ci_eq(v, "discharging"@),
    }
}

/// Case-insensitive comparison of two strings, ASCII-folded.
fn ci_eq_exec(v: &str, w: &str) -> (r: bool)
    ensures
        r == ci_eq(v@, w@),
{
    let vn = v.unicode_len();
    let wn = w.unicode_len();
    if vn != wn {
        return false;
    }
    let mut i: usize = 0;
    while i < vn
        invariant
            i <= vn,
            vn == v@.len(),
            vn == w@.len(),
            forall|k: int| 0 <= k < i ==> lower_char(#[trigger] v@[k]) == lower_char(w@[k]),
        decreases vn - i,
    {
        let a = v.get_char(i) as u32;
        let b = w.get_char(i) as u32;
        let la = if 65 <= a && a <= 90 {
            a + 32
        } else {
            a
        };
        let lb = if 65 <= b && b <= 90 {
            b + 32
        } else {
            b
        };
        if la != lb {
            return false;
        }
        i = i + 1;
    }
    true
}

/// Classify a raw status field.
fn classify_status(v: &str) -> (st: Status)
    ensures
        status_of(st, v@),
{
    if ci_eq_exec(v, "charging") {
        Status::Charging
    } else if ci_eq_exec(v, "discharging") {
        Status::Discharging
    } else {
        Status::Other(v.to_owned())
    }
}

// --------------------------------------------------------------------------
// The reader.
// --------------------------------------------------------------------------

/// Parse one battery source blob into a reading.
///
/// The blob is newline-separated `KEY=VALUE` text. The reading takes its
/// capacity from the first line whose key contains `CAPACITY` (parsed as a
/// signed decimal percentage), its status from the first line whose key
/// contains `STATUS` (classified case-insensitively), and its name from the
/// first line whose key contains `NAME` (taken verbatim). A field that is
/// missing or does not parse is an error, never a silent default.
pub fn parse_reading(src: &str) -> (r: Result<BatteryReading, SourceError>)
    ensures
        ({
            let cap = field_value(src@, "CAPACITY"@);
            let stv = field_value(src@, "STATUS"@);
            let nmv = field_value(src@, "NAME"@);
            match r {
                Ok(reading) => {
                    &&& cap is Some
                    &&& spec_parse_i8(cap->0) is Some
                    &&& stv is Some
                    &&& nmv is Some
                    &&& reading.capacity == spec_parse_i8(cap->0)->0
                    &&& status_of(reading.status, stv->0)
                    &&& reading.name@ == nmv->0
                },
                Err(e) => {
                    &&& e is MalformedSource
                    &&& !(cap is Some && spec_parse_i8(cap->0) is Some && stv is Some
                        && nmv is Some)
                },
            }
        }),
{
    let n = src.unicode_len();
    let cap_str = match extract_field(src, n, "CAPACITY") {
        Some(v) => v,
        None => {
            return Err(SourceError::MalformedSource);
        },
    };
    let capacity = match parse_i8(cap_str) {
        Some(c) => c,
        None => {
            return Err(SourceError::MalformedSource);
        },
    };
    let st_str = match extract_field(src, n, "STATUS") {
        Some(v) => v,
        None => {
            return Err(SourceError::MalformedSource);
        },
    };
    let nm_str = match extract_field(src, n, "NAME") {
        Some(v) => v,
        None => {
            return Err(SourceError::MalformedSource);
        },
    };
    let status = classify_status(st_str);
    let name = nm_str.to_owned();
    Ok(BatteryReading { name, capacity, status })
}

} // verus!
