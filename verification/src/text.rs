//! Names and file names: trimming, length limits and unsafe characters.

use vstd::prelude::*;
use vstd::string::*;

verus! {

/// Unicode `White_Space`, as `char::is_whitespace` defines it.
pub open spec fn is_white_space(c: char) -> bool {
    let v = c as u32;
    ||| 0x09 <= v <= 0x0d
    ||| v == 0x20
    ||| v == 0x85
    ||| v == 0xa0
    ||| v == 0x1680
    ||| 0x2000 <= v <= 0x200a
    ||| v == 0x2028
    ||| v == 0x2029
    ||| v == 0x202f
    ||| v == 0x205f
    ||| v == 0x3000
}

pub fn white_space(c: char) -> (ws: bool)
    ensures
        ws == is_white_space(c),
{
    let v = c as u32;
    (0x09 <= v && v <= 0x0d) || v == 0x20 || v == 0x85 || v == 0xa0 || v == 0x1680 || (0x2000 <= v
        && v <= 0x200a) || v == 0x2028 || v == 0x2029 || v == 0x202f || v == 0x205f || v == 0x3000
}

/// `s` without its leading white space.
pub open spec fn trim_start(s: Seq<char>) -> Seq<char>
    decreases s.len(),
{
    if s.len() > 0 && is_white_space(s[0]) {
        trim_start(s.drop_first())
    } else {
        s
    }
}

/// `s` without its trailing white space.
pub open spec fn trim_end(s: Seq<char>) -> Seq<char>
    decreases s.len(),
{
    if s.len() > 0 && is_white_space(s.last()) {
        trim_end(s.drop_last())
    } else {
        s
    }
}

/// `str::trim`.
pub open spec fn trimmed(s: Seq<char>) -> Seq<char> {
    trim_end(trim_start(s))
}

/// At most the first `n` characters of `s`.
pub open spec fn prefix(s: Seq<char>, n: int) -> Seq<char> {
    if s.len() > n { s.take(n) } else { s }
}

/// The longest a project, track or clip name may be, in characters.
pub const MAX_NAME_CHARS: usize = 160;

/// A display name: trimmed, cut to 160 characters, or `fallback` when
/// nothing but white space was given.
pub open spec fn cleaned_name(value: Seq<char>, fallback: Seq<char>) -> Seq<char> {
    let t = trimmed(value);
    if t.len() == 0 { fallback } else { prefix(t, 160) }
}

proof fn lemma_trim_start(s: Seq<char>, a: int)
    requires
        0 <= a <= s.len(),
        forall|j: int| 0 <= j < a ==> is_white_space(#[trigger] s[j]),
        a == s.len() || !is_white_space(s[a]),
    ensures
        trim_start(s) == s.subrange(a, s.len() as int),
    decreases a,
{
    if a == 0 {
        assert(s.subrange(0, s.len() as int) =~= s);
    } else {
        let rest = s.drop_first();
        assert forall|j: int| 0 <= j < a - 1 implies is_white_space(#[trigger] rest[j]) by {
            assert(rest[j] == s[j + 1]);
        }
        if a - 1 < rest.len() {
            assert(rest[a - 1] == s[a]);
        }
        lemma_trim_start(rest, a - 1);
        assert(rest.subrange(a - 1, rest.len() as int) =~= s.subrange(a, s.len() as int));
    }
}

proof fn lemma_trim_end(s: Seq<char>, b: int)
    requires
        0 <= b <= s.len(),
        forall|j: int| b <= j < s.len() ==> is_white_space(#[trigger] s[j]),
        b == 0 || !is_white_space(s[b - 1]),
    ensures
        trim_end(s) == s.subrange(0, b),
    decreases s.len() - b,
{
    if b == s.len() {
        assert(s.subrange(0, b) =~= s);
    } else {
        let rest = s.drop_last();
        assert forall|j: int| b <= j < rest.len() implies is_white_space(#[trigger] rest[j]) by {
            assert(rest[j] == s[j]);
        }
        if b > 0 {
            assert(rest[b - 1] == s[b - 1]);
        }
        assert(is_white_space(s[s.len() - 1]));
        lemma_trim_end(rest, b);
        assert(rest.subrange(0, b) =~= s.subrange(0, b));
    }
}

/// `trimmed(s)` is the slice between the first and after the last
/// character that is not white space.
proof fn lemma_trimmed(s: Seq<char>, a: int, b: int)
    requires
        0 <= a <= b <= s.len(),
        forall|j: int| 0 <= j < a ==> is_white_space(#[trigger] s[j]),
        forall|j: int| b <= j < s.len() ==> is_white_space(#[trigger] s[j]),
        a == b ==> a == s.len(),
        a < b ==> !is_white_space(s[a]) && !is_white_space(s[b - 1]),
    ensures
        trimmed(s) == s.subrange(a, b),
{
    lemma_trim_start(s, a);
    let t = s.subrange(a, s.len() as int);
    assert forall|j: int| b - a <= j < t.len() implies is_white_space(#[trigger] t[j]) by {
        assert(t[j] == s[j + a]);
    }
    if b > a {
        assert(t[b - a - 1] == s[b - 1]);
    }
    lemma_trim_end(t, b - a);
    assert(t.subrange(0, b - a) =~= s.subrange(a, b));
}

/// Bounds `(a, b)` of `s` with its leading and trailing white space removed.
fn trim_bounds(s: &str) -> (bounds: (usize, usize))
    ensures
        0 <= bounds.0 <= bounds.1 <= s@.len(),
        trimmed(s@) == s@.subrange(bounds.0 as int, bounds.1 as int),
        forall|j: int| 0 <= j < bounds.0 ==> is_white_space(#[trigger] s@[j]),
        forall|j: int| bounds.1 <= j < s@.len() ==> is_white_space(#[trigger] s@[j]),
        bounds.0 == bounds.1 ==> bounds.0 == s@.len(),
        bounds.0 < bounds.1 ==> !is_white_space(s@[bounds.0 as int]) && !is_white_space(
            s@[bounds.1 - 1],
        ),
{
    let n = s.unicode_len();
    let mut a: usize = 0;
    while a < n && white_space(s.get_char(a))
        invariant
            n == s@.len(),
            a <= n,
            forall|j: int| 0 <= j < a ==> is_white_space(#[trigger] s@[j]),
        decreases n - a,
    {
        a = a + 1;
    }
    let mut b: usize = n;
    while b > a && white_space(s.get_char(b - 1))
        invariant
            n == s@.len(),
            a <= b <= n,
            forall|j: int| b <= j < n ==> is_white_space(#[trigger] s@[j]),
        decreases b - a,
    {
        b = b - 1;
    }
    proof {
        lemma_trimmed(s@, a as int, b as int);
    }
    (a, b)
}

/// A display name: `value` trimmed and cut to 160 characters, or `fallback`
/// when `value` holds nothing but white space.
pub fn clean_name(value: &str, fallback: &str) -> (name: String)
    ensures
        name@ == cleaned_name(value@, fallback@),
{
    let (a, b) = trim_bounds(value);
    if a == b {
        return String::from_str(fallback);
    }
    let end = if b - a > MAX_NAME_CHARS {
        a + MAX_NAME_CHARS
    } else {
        b
    };
    let name = String::from_str(value.substring_char(a, end));
    proof {
        let t = value@.subrange(a as int, b as int);
        assert(prefix(t, 160) =~= value@.subrange(a as int, end as int));
    }
    name
}

/// Characters that Windows does not allow in file names.
pub open spec fn is_reserved_in_file_name(c: char) -> bool {
    c == '<' || c == '>' || c == ':' || c == '"' || c == '/' || c == '\\' || c == '|' || c == '?'
        || c == '*'
}

pub open spec fn without_reserved(s: Seq<char>) -> Seq<char> {
    s.map_values(|c: char| if is_reserved_in_file_name(c) { '_' } else { c })
}

/// `s` without its trailing dots.
pub open spec fn trim_end_dots(s: Seq<char>) -> Seq<char>
    decreases s.len(),
{
    if s.len() > 0 && s.last() == '.' {
        trim_end_dots(s.drop_last())
    } else {
        s
    }
}

/// A file name for a project called `name`: reserved characters become
/// `_`, surrounding white space and trailing dots go, and an empty result
/// becomes "Sonema Project".
pub open spec fn safe_file_name(name: Seq<char>) -> Seq<char> {
    let t = trim_end_dots(trimmed(without_reserved(name)));
    if t.len() == 0 { "Sonema Project"@ } else { t }
}

proof fn lemma_trim_end_dots(s: Seq<char>, e: int)
    requires
        0 <= e <= s.len(),
        forall|j: int| e <= j < s.len() ==> #[trigger] s[j] == '.',
        e == 0 || s[e - 1] != '.',
    ensures
        trim_end_dots(s) == s.subrange(0, e),
    decreases s.len() - e,
{
    if e == s.len() {
        assert(s.subrange(0, e) =~= s);
    } else {
        let rest = s.drop_last();
        assert forall|j: int| e <= j < rest.len() implies #[trigger] rest[j] == '.' by {
            assert(rest[j] == s[j]);
        }
        if e > 0 {
            assert(rest[e - 1] == s[e - 1]);
        }
        assert(s[s.len() - 1] == '.');
        lemma_trim_end_dots(rest, e);
        assert(rest.subrange(0, e) =~= s.subrange(0, e));
    }
}

fn reserved_in_file_name(c: char) -> (reserved: bool)
    ensures
        reserved == is_reserved_in_file_name(c),
{
    c == '<' || c == '>' || c == ':' || c == '"' || c == '/' || c == '\\' || c == '|' || c == '?'
        || c == '*'
}

/// A file name for a project called `name`.
pub fn safe_filename(name: &str) -> (file_name: String)
    ensures
        file_name@ == safe_file_name(name@),
{
    let ghost s = name@;
    let ghost r = without_reserved(s);
    let (a, b) = trim_bounds(name);
    proof {
        // Replacing reserved characters keeps white space where it was.
        assert forall|j: int| 0 <= j < s.len() implies is_white_space(#[trigger] r[j])
            == is_white_space(s[j]) by {}
        lemma_trimmed(r, a as int, b as int);
    }
    let mut e: usize = b;
    while e > a && name.get_char(e - 1) == '.'
        invariant
            a <= e <= b,
            b <= s.len(),
            s == name@,
            forall|j: int| e <= j < b ==> #[trigger] s[j] == '.',
        decreases e - a,
    {
        e = e - 1;
    }
    let ghost t = r.subrange(a as int, b as int);
    proof {
        assert forall|j: int| e - a <= j < t.len() implies #[trigger] t[j] == '.' by {
            assert(t[j] == r[j + a]);
        }
        if e > a {
            assert(t[e - a - 1] == r[e - 1]);
        }
        lemma_trim_end_dots(t, e - a);
    }
    if e == a {
        return String::from_str("Sonema Project");
    }
    let mut out = String::new();
    let mut i: usize = a;
    proof {
        reveal_strlit("_");
    }
    while i < e
        invariant
            a <= i <= e,
            e <= s.len(),
            s == name@,
            r == without_reserved(s),
            out@ == r.subrange(a as int, i as int),
            "_"@ == seq!['_'],
        decreases e - i,
    {
        let c = name.get_char(i);
        if reserved_in_file_name(c) {
            out.append("_");
        } else {
            out.append(name.substring_char(i, i + 1));
        }
        proof {
            assert(out@ =~= r.subrange(a as int, i + 1));
        }
        i = i + 1;
    }
    proof {
        assert(t.subrange(0, e - a) =~= r.subrange(a as int, e as int));
    }
    out
}

/// `u64` plus a signed offset, saturating at both ends.
pub open spec fn offset_frame(value: u64, delta: i64) -> u64 {
    let sum = value + delta;
    if sum < 0 { 0 } else if sum > u64::MAX { u64::MAX } else { sum as u64 }
}

pub fn add_signed(value: u64, delta: i64) -> (moved: u64)
    ensures
        moved == offset_frame(value, delta),
{
    if delta < 0 {
        let magnitude: u64 = (-(delta as i128)) as u64;
        value.saturating_sub(magnitude)
    } else {
        value.saturating_add(delta as u64)
    }
}

/// The extension of a file name as `Path::extension` reads it: the text after
/// the last `.`, unless there is no `.` or the only one starts the name.
pub open spec fn file_extension(file_name: Seq<char>) -> Option<Seq<char>> {
    let dot = last_dot(file_name);
    if dot <= 0 { None } else { Some(file_name.subrange(dot + 1, file_name.len() as int)) }
}

/// The index of the last `.`, or -1.
pub open spec fn last_dot(s: Seq<char>) -> int
    decreases s.len(),
{
    if s.len() == 0 {
        -1
    } else if s.last() == '.' {
        s.len() - 1
    } else {
        last_dot(s.drop_last())
    }
}

pub open spec fn ascii_lower(c: char) -> char {
    if 'A' <= c && c <= 'Z' { ((c as u32) + 32) as char } else { c }
}

/// `str::eq_ignore_ascii_case`.
pub open spec fn equal_ignoring_ascii_case(a: Seq<char>, b: Seq<char>) -> bool {
    a.len() == b.len() && forall|i: int| 0 <= i < a.len() ==> ascii_lower(#[trigger] a[i])
        == ascii_lower(b[i])
}

fn lower_ascii(c: char) -> (lower: u32)
    ensures
        lower == ascii_lower(c) as u32,
{
    let v = c as u32;
    if 0x41 <= v && v <= 0x5a {
        v + 32
    } else {
        v
    }
}

/// Whether the file called `file_name` has extension `expected`, in any
/// ASCII case.
pub fn extension_is(file_name: &str, expected: &str) -> (matches: bool)
    ensures
        matches == match file_extension(file_name@) {
            Some(extension) => equal_ignoring_ascii_case(extension, expected@),
            None => false,
        },
{
    let ghost s = file_name@;
    let n = file_name.unicode_len();
    let mut i: usize = n;
    proof {
        assert(s.subrange(0, n as int) =~= s);
    }
    while i > 0 && file_name.get_char(i - 1) != '.'
        invariant
            i <= n,
            n == s.len(),
            s == file_name@,
            last_dot(s) == last_dot(s.subrange(0, i as int)),
        decreases i,
    {
        proof {
            assert(s.subrange(0, i - 1) =~= s.subrange(0, i as int).drop_last());
        }
        i = i - 1;
    }
    proof {
        if i > 0 {
            assert(s.subrange(0, i as int).last() == s[i - 1]);
        }
    }
    if i <= 1 {
        return false;
    }
    let dot = i - 1;
    let m = expected.unicode_len();
    if n - dot - 1 != m {
        proof {
            assert(s.subrange(dot + 1, n as int).len() != expected@.len());
        }
        return false;
    }
    let mut k: usize = 0;
    while k < m
        invariant
            dot + 1 + m == n,
            file_extension(s) == Some(s.subrange(dot + 1, n as int)),
            n == s.len(),
            m == expected@.len(),
            s == file_name@,
            k <= m,
            forall|j: int| 0 <= j < k ==> ascii_lower(#[trigger] s[dot + 1 + j]) == ascii_lower(
                expected@[j],
            ),
        decreases m - k,
    {
        if lower_ascii(file_name.get_char(dot + 1 + k)) != lower_ascii(expected.get_char(k)) {
            proof {
                let ext = s.subrange(dot + 1, n as int);
                assert(ext[k as int] == s[dot + 1 + k]);
                assert(ascii_lower(ext[k as int]) != ascii_lower(expected@[k as int]));
            }
            return false;
        }
        k = k + 1;
    }
    proof {
        let ext = s.subrange(dot + 1, n as int);
        assert forall|j: int| 0 <= j < ext.len() implies ascii_lower(#[trigger] ext[j])
            == ascii_lower(expected@[j]) by {
            assert(ext[j] == s[dot + 1 + j]);
        }
    }
    true
}

} // verus!
