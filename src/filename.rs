//! Turning a suggested name into one that is safe as a file name.
use vstd::prelude::*;
use vstd::string::*;
use crate::text::{push_char, push_str};

verus! {

/// A character that is Unicode `White_Space`.
pub open spec fn white_space(c: char) -> bool {
    let u = c as u32;
    (9 <= u <= 13) || u == 32 || u == 0x85 || u == 0xA0 || u == 0x1680 || (0x2000 <= u <= 0x200A)
        || u == 0x2028 || u == 0x2029 || u == 0x202F || u == 0x205F || u == 0x3000
}

/// Whether `c` is Unicode `White_Space`.
pub fn is_white_space(c: char) -> (r: bool)
    ensures
        r == white_space(c),
{
    let u = c as u32;
    (9 <= u && u <= 13) || u == 32 || u == 0x85 || u == 0xA0 || u == 0x1680 || (0x2000 <= u && u
        <= 0x200A) || u == 0x2028 || u == 0x2029 || u == 0x202F || u == 0x205F || u == 0x3000
}

/// A character that file systems refuse in a name.
pub open spec fn forbidden(c: char) -> bool {
    c == '/' || c == '\\' || c == ':' || c == '*' || c == '?' || c == '"' || c == '<' || c == '>'
        || c == '|'
}

/// `s` with each forbidden character replaced by `_`.
pub open spec fn sanitized(s: Seq<char>) -> Seq<char> {
    s.map_values(|c: char| if forbidden(c) { '_' } else { c })
}

/// `s` without its leading white space.
pub open spec fn trim_start(s: Seq<char>) -> Seq<char>
    decreases s.len(),
{
    if s.len() > 0 && white_space(s[0]) {
        trim_start(s.drop_first())
    } else {
        s
    }
}

/// `s` without its trailing white space.
pub open spec fn trim_end(s: Seq<char>) -> Seq<char>
    decreases s.len(),
{
    if s.len() > 0 && white_space(s.last()) {
        trim_end(s.drop_last())
    } else {
        s
    }
}

/// `s` without its leading dots.
pub open spec fn strip_dots(s: Seq<char>) -> Seq<char>
    decreases s.len(),
{
    if s.len() > 0 && s[0] == '.' {
        strip_dots(s.drop_first())
    } else {
        s
    }
}

/// The safe form of a name: forbidden characters become `_`, white space
/// around the name goes, and then leading dots go.
pub open spec fn cleared(s: Seq<char>) -> Seq<char> {
    strip_dots(trim_end(trim_start(sanitized(s))))
}

/// `s` without white space at either end.
pub open spec fn trim(s: Seq<char>) -> Seq<char> {
    trim_end(trim_start(s))
}

/// The characters of `s`.
fn chars_of(s: &str) -> (v: Vec<char>)
    ensures
        v@ == s@,
{
    let n = s.unicode_len();
    let mut v: Vec<char> = Vec::new();
    let mut i: usize = 0;
    while i < n
        invariant
            n == s@.len(),
            i <= n,
            v@ == s@.subrange(0, i as int),
        decreases n - i,
    {
        v.push(s.get_char(i));
        assert(s@.subrange(0, i + 1) =~= s@.subrange(0, i as int).push(s@[i as int]));
        i = i + 1;
    }
    assert(s@.subrange(0, n as int) =~= s@);
    v
}

/// The characters `v[lo..hi]` as a string.
fn string_of(v: &Vec<char>, lo: usize, hi: usize) -> (r: String)
    requires
        lo <= hi <= v@.len(),
    ensures
        r@ == v@.subrange(lo as int, hi as int),
{
    let mut r = String::new();
    let mut j: usize = lo;
    while j < hi
        invariant
            lo <= j <= hi <= v@.len(),
            r@ == v@.subrange(lo as int, j as int),
        decreases hi - j,
    {
        push_char(&mut r, v[j]);
        assert(v@.subrange(lo as int, j + 1) =~= v@.subrange(lo as int, j as int).push(v@[j as int]));
        j = j + 1;
    }
    r
}

/// Bounds of `v[lo..hi]` with white space at either end left out.
fn trim_bounds(v: &Vec<char>, lo: usize, hi: usize) -> (r: (usize, usize))
    requires
        lo <= hi <= v@.len(),
    ensures
        lo <= r.0 <= r.1 <= hi,
        v@.subrange(r.0 as int, r.1 as int) == trim(v@.subrange(lo as int, hi as int)),
{
    let mut a: usize = lo;
    while a < hi && is_white_space(v[a])
        invariant
            lo <= a <= hi <= v@.len(),
            trim_start(v@.subrange(lo as int, hi as int)) == trim_start(v@.subrange(a as int, hi as int)),
        decreases hi - a,
    {
        assert(v@.subrange(a as int, hi as int).drop_first() =~= v@.subrange(a + 1, hi as int));
        a = a + 1;
    }
    let ghost t = v@.subrange(a as int, hi as int);
    assert(trim_start(v@.subrange(lo as int, hi as int)) == t);
    let mut b: usize = hi;
    while b > a && is_white_space(v[b - 1])
        invariant
            lo <= a <= b <= hi <= v@.len(),
            t == v@.subrange(a as int, hi as int),
            trim_end(t) == trim_end(v@.subrange(a as int, b as int)),
        decreases b - a,
    {
        assert(v@.subrange(a as int, b as int).drop_last() =~= v@.subrange(a as int, b - 1));
        b = b - 1;
    }
    (a, b)
}

/// Makes `name` safe to use as a file name.
pub fn clear(name: &str) -> (r: String)
    ensures
        r@ == cleared(name@),
{
    let n = name.unicode_len();
    let mut v: Vec<char> = Vec::new();
    let mut i: usize = 0;
    while i < n
        invariant
            n == name@.len(),
            i <= n,
            v@ == sanitized(name@).subrange(0, i as int),
        decreases n - i,
    {
        let c = name.get_char(i);
        let d = if c == '/' || c == '\\' || c == ':' || c == '*' || c == '?' || c == '"' || c
            == '<' || c == '>' || c == '|' {
            '_'
        } else {
            c
        };
        v.push(d);
        assert(sanitized(name@).subrange(0, i + 1) =~= sanitized(name@).subrange(0, i as int).push(d));
        i = i + 1;
    }
    assert(v@ =~= sanitized(name@));
    assert(v@.subrange(0, n as int) =~= v@);
    let (lo, hi) = trim_bounds(&v, 0, n);
    let ghost u = v@.subrange(lo as int, hi as int);
    let mut k: usize = lo;
    while k < hi && v[k] == '.'
        invariant
            n == v@.len(),
            lo <= k <= hi <= n,
            u == v@.subrange(lo as int, hi as int),
            strip_dots(u) == strip_dots(v@.subrange(k as int, hi as int)),
        decreases hi - k,
    {
        assert(v@.subrange(k as int, hi as int).drop_first() =~= v@.subrange(k + 1, hi as int));
        k = k + 1;
    }
    string_of(&v, k, hi)
}

/// Name for what percent-decoding a text, then reading the bytes as UTF-8
/// with invalid sequences replaced, gives.
pub uninterp spec fn percent_decoded(s: Seq<char>) -> Seq<char>;

/// Relies on `percent_encoding::percent_decode_str` followed by
/// `PercentDecode::decode_utf8_lossy`: a result that depends on the text alone.
#[verifier::external_body]
fn decode_percent(s: &str) -> (r: String)
    ensures
        r@ == percent_decoded(s@),
{
    percent_encoding::percent_decode_str(s).decode_utf8_lossy().into_owned()
}

/// Name for the stem that `std::path::Path::file_stem` finds in a path.
pub uninterp spec fn file_stem_of(p: Seq<char>) -> Option<Seq<char>>;

/// Relies on `std::path::Path::file_stem`: the final component without its
/// extension, taken from the path text alone.
#[verifier::external_body]
fn path_file_stem(p: &str) -> (r: Option<String>)
    ensures
        match r {
            Some(s) => file_stem_of(p@) == Some(s@),
            None => file_stem_of(p@) is None,
        },
{
    std::path::Path::new(p).file_stem().and_then(|s| s.to_str()).map(|s| s.to_owned())
}

/// Name for the extension that `std::path::Path::extension` finds in a path.
pub uninterp spec fn extension_of(p: Seq<char>) -> Option<Seq<char>>;

/// Relies on `std::path::Path::extension`: the final component's extension,
/// taken from the path text alone.
#[verifier::external_body]
fn path_extension(p: &str) -> (r: Option<String>)
    ensures
        match r {
            Some(s) => extension_of(p@) == Some(s@),
            None => extension_of(p@) is None,
        },
{
    std::path::Path::new(p).extension().and_then(|s| s.to_str()).map(|s| s.to_owned())
}

/// Index of the first `c` in `s`, or the length of `s` when there is none.
pub open spec fn find(s: Seq<char>, c: char) -> int
    decreases s.len(),
{
    if s.len() == 0 || s[0] == c {
        0
    } else {
        1 + find(s.drop_first(), c)
    }
}

/// Index of the last `c` in `s`, or -1 when there is none.
pub open spec fn rfind(s: Seq<char>, c: char) -> int
    decreases s.len(),
{
    if s.len() == 0 {
        -1
    } else if s.last() == c {
        s.len() - 1
    } else {
        rfind(s.drop_last(), c)
    }
}

/// `s` begins with `p`.
pub open spec fn starts_with(s: Seq<char>, p: Seq<char>) -> bool {
    p.len() <= s.len() && s.subrange(0, p.len() as int) == p
}

/// `s` without `"` and spaces at either end.
pub open spec fn trim_quotes(s: Seq<char>) -> Seq<char>
    decreases s.len(),
{
    if s.len() > 0 && (s[0] == '"' || s[0] == ' ') {
        trim_quotes(s.drop_first())
    } else if s.len() > 0 && (s.last() == '"' || s.last() == ' ') {
        trim_quotes(s.drop_last())
    } else {
        s
    }
}

/// What follows the second `'` in `s`, if there are two.
pub open spec fn after_second_quote(s: Seq<char>) -> Option<Seq<char>> {
    let i = find(s, '\'');
    if i >= s.len() {
        None
    } else {
        let rest = s.subrange(i + 1, s.len() as int);
        let j = find(rest, '\'');
        if j >= rest.len() {
            None
        } else {
            Some(rest.subrange(j + 1, rest.len() as int))
        }
    }
}

/// The file name that one trimmed parameter of `Content-Disposition` gives:
/// the encoded form `filename*=charset'lang'name` or the plain `filename=name`.
pub open spec fn disposition_name(p: Seq<char>) -> Option<Seq<char>> {
    if starts_with(p, "filename*="@) {
        match after_second_quote(p) {
            Some(t) => Some(percent_decoded(t)),
            None => None,
        }
    } else if starts_with(p, "filename="@) {
        Some(percent_decoded(trim_quotes(p.subrange(9, p.len() as int))))
    } else {
        None
    }
}

/// The file name of the first `;`-separated parameter of `s` that gives one.
pub open spec fn header_name(s: Seq<char>) -> Option<Seq<char>>
    decreases s.len(),
{
    let i = find(s, ';');
    let found = disposition_name(trim(s.subrange(0, i)));
    if found is Some {
        found
    } else if 0 <= i < s.len() {
        header_name(s.subrange(i + 1, s.len() as int))
    } else {
        None
    }
}

proof fn lemma_find_bounds(s: Seq<char>, c: char)
    ensures
        0 <= find(s, c) <= s.len(),
        find(s, c) < s.len() ==> s[find(s, c)] == c,
        forall|k: int| 0 <= k < find(s, c) ==> s[k] != c,
    decreases s.len(),
{
    if s.len() > 0 && s[0] != c {
        lemma_find_bounds(s.drop_first(), c);
        assert forall|k: int| 0 <= k < find(s, c) implies s[k] != c by {
            if k > 0 {
                assert(s[k] == s.drop_first()[k - 1]);
            }
        }
    }
}

proof fn lemma_rfind_bounds(s: Seq<char>, c: char)
    ensures
        -1 <= rfind(s, c) < s.len(),
    decreases s.len(),
{
    if s.len() > 0 && s.last() != c {
        lemma_rfind_bounds(s.drop_last(), c);
    }
}

/// Position of the first `c` in `v[lo..hi]`, or `hi`.
fn find_char(v: &Vec<char>, lo: usize, hi: usize, c: char) -> (r: usize)
    requires
        lo <= hi <= v@.len(),
    ensures
        lo <= r <= hi,
        r - lo == find(v@.subrange(lo as int, hi as int), c),
{
    let mut k: usize = lo;
    while k < hi && v[k] != c
        invariant
            lo <= k <= hi <= v@.len(),
            find(v@.subrange(lo as int, hi as int), c) == (k - lo) + find(
                v@.subrange(k as int, hi as int),
                c,
            ),
        decreases hi - k,
    {
        assert(v@.subrange(k as int, hi as int).drop_first() =~= v@.subrange(k + 1, hi as int));
        k = k + 1;
    }
    k
}

/// Position after the last `c` in `v[lo..hi]`, or `lo`.
fn after_last_char(v: &Vec<char>, lo: usize, hi: usize, c: char) -> (r: usize)
    requires
        lo <= hi <= v@.len(),
    ensures
        lo <= r <= hi,
        r - lo == rfind(v@.subrange(lo as int, hi as int), c) + 1,
{
    let mut k: usize = hi;
    while k > lo && v[k - 1] != c
        invariant
            lo <= k <= hi <= v@.len(),
            rfind(v@.subrange(lo as int, hi as int), c) == rfind(v@.subrange(lo as int, k as int), c),
        decreases k - lo,
    {
        assert(v@.subrange(lo as int, k as int).drop_last() =~= v@.subrange(lo as int, k - 1));
        k = k - 1;
    }
    k
}

/// Whether `v[lo..hi]` begins with `p`.
fn starts_with_at(v: &Vec<char>, lo: usize, hi: usize, p: &str) -> (r: bool)
    requires
        lo <= hi <= v@.len(),
    ensures
        r == starts_with(v@.subrange(lo as int, hi as int), p@),
{
    let m = p.unicode_len();
    if m > hi - lo {
        return false;
    }
    let mut j: usize = 0;
    while j < m
        invariant
            m == p@.len(),
            lo + m <= hi <= v@.len(),
            j <= m,
            forall|k: int| 0 <= k < j ==> v@[lo + k] == p@[k],
        decreases m - j,
    {
        if v[lo + j] != p.get_char(j) {
            assert(v@.subrange(lo as int, hi as int).subrange(0, m as int)[j as int] != p@[j as int]);
            return false;
        }
        j = j + 1;
    }
    assert(v@.subrange(lo as int, hi as int).subrange(0, m as int) =~= p@);
    true
}

/// Bounds of `v[lo..hi]` with `"` and spaces at either end left out.
fn trim_quote_bounds(v: &Vec<char>, lo: usize, hi: usize) -> (r: (usize, usize))
    requires
        lo <= hi <= v@.len(),
    ensures
        lo <= r.0 <= r.1 <= hi,
        v@.subrange(r.0 as int, r.1 as int) == trim_quotes(v@.subrange(lo as int, hi as int)),
{
    let mut a: usize = lo;
    while a < hi && (v[a] == '"' || v[a] == ' ')
        invariant
            lo <= a <= hi <= v@.len(),
            trim_quotes(v@.subrange(lo as int, hi as int)) == trim_quotes(v@.subrange(a as int, hi as int)),
        decreases hi - a,
    {
        assert(v@.subrange(a as int, hi as int).drop_first() =~= v@.subrange(a + 1, hi as int));
        a = a + 1;
    }
    let mut b: usize = hi;
    while b > a && (v[b - 1] == '"' || v[b - 1] == ' ')
        invariant
            lo <= a <= b <= hi <= v@.len(),
            a < hi ==> !(v@[a as int] == '"' || v@[a as int] == ' '),
            trim_quotes(v@.subrange(lo as int, hi as int)) == trim_quotes(v@.subrange(a as int, b as int)),
        decreases b - a,
    {
        assert(v@.subrange(a as int, b as int)[0] == v@[a as int]);
        assert(v@.subrange(a as int, b as int).drop_last() =~= v@.subrange(a as int, b - 1));
        b = b - 1;
    }
    if a < b {
        assert(v@.subrange(a as int, b as int)[0] == v@[a as int]);
    }
    (a, b)
}

/// The file name that the trimmed parameter `v[a..b]` gives, if any.
fn disposition(v: &Vec<char>, a: usize, b: usize) -> (r: Option<String>)
    requires
        a <= b <= v@.len(),
    ensures
        match r {
            Some(s) => disposition_name(v@.subrange(a as int, b as int)) == Some(s@),
            None => disposition_name(v@.subrange(a as int, b as int)) is None,
        },
{
    let ghost p = v@.subrange(a as int, b as int);
    if starts_with_at(v, a, b, "filename*=") {
        let q1 = find_char(v, a, b, '\'');
        proof {
            lemma_find_bounds(p, '\'');
        }
        if q1 == b {
            return None;
        }
        let ghost rest = p.subrange(q1 - a + 1, p.len() as int);
        assert(rest =~= v@.subrange(q1 + 1, b as int));
        let q2 = find_char(v, q1 + 1, b, '\'');
        proof {
            lemma_find_bounds(rest, '\'');
        }
        if q2 == b {
            return None;
        }
        assert(rest.subrange(q2 - q1, rest.len() as int) =~= v@.subrange(q2 + 1, b as int));
        let t = string_of(v, q2 + 1, b);
        Some(decode_percent(t.as_str()))
    } else if starts_with_at(v, a, b, "filename=") {
        proof {
            reveal_strlit("filename=");
        }
        let (c, d) = trim_quote_bounds(v, a + 9, b);
        assert(p.subrange(9, p.len() as int) =~= v@.subrange(a + 9, b as int));
        let t = string_of(v, c, d);
        Some(decode_percent(t.as_str()))
    } else {
        None
    }
}

/// The file name that a `Content-Disposition` value gives: the first
/// parameter, in order, that names one.
pub fn parse(header: &str) -> (r: Option<String>)
    ensures
        match r {
            Some(s) => header_name(header@) == Some(s@),
            None => header_name(header@) is None,
        },
{
    let v = chars_of(header);
    let n = v.len();
    let mut pos: usize = 0;
    assert(v@.subrange(0, n as int) =~= v@);
    while pos <= n
        invariant
            n == v@.len(),
            v@ == header@,
            pos <= n,
            header_name(header@) == header_name(v@.subrange(pos as int, n as int)),
        decreases n - pos,
    {
        let ghost s = v@.subrange(pos as int, n as int);
        let i = find_char(&v, pos, n, ';');
        proof {
            lemma_find_bounds(s, ';');
        }
        assert(s.subrange(0, i - pos) =~= v@.subrange(pos as int, i as int));
        let (a, b) = trim_bounds(&v, pos, i);
        let found = disposition(&v, a, b);
        if found.is_some() {
            return found;
        }
        if i == n {
            return None;
        }
        assert(s.subrange(i - pos + 1, s.len() as int) =~= v@.subrange(i + 1, n as int));
        pos = i + 1;
    }
    None
}

/// Base of the file name: from `Content-Disposition`, else the stem of the
/// URL path, else `Download`.
pub open spec fn base_name(disposition: Option<Seq<char>>, path: Seq<char>) -> Seq<char> {
    let from_header = match disposition {
        Some(h) => header_name(h),
        None => None,
    };
    match from_header {
        Some(n) => n,
        None => match file_stem_of(path) {
            Some(s) => percent_decoded(s),
            None => "Download"@,
        },
    }
}

/// The subtype of a `Content-Type` value: after the last `/`, before any `;`.
pub open spec fn type_suffix(ct: Seq<char>) -> Seq<char> {
    let t = ct.subrange(rfind(ct, '/') + 1, ct.len() as int);
    t.subrange(0, find(t, ';'))
}

/// Extension of the file name: from `Content-Type`, else the extension of
/// the URL path, else `bin`.
pub open spec fn extension_name(content_type: Option<Seq<char>>, path: Seq<char>) -> Seq<char> {
    match content_type {
        Some(ct) => type_suffix(ct),
        None => match extension_of(path) {
            Some(e) => percent_decoded(e),
            None => "bin"@,
        },
    }
}

pub open spec fn opt_view(s: Option<&str>) -> Option<Seq<char>> {
    match s {
        Some(x) => Some(x@),
        None => None,
    }
}

/// The name to save a download under, from the response's
/// `Content-Disposition` and `Content-Type` values and the URL's path.
pub fn filename_from(disposition: Option<&str>, content_type: Option<&str>, url_path: &str) -> (r: String)
    ensures
        r@ == cleared(base_name(opt_view(disposition), url_path@)) + "."@ + cleared(
            extension_name(opt_view(content_type), url_path@),
        ),
{
    let from_header = match disposition {
        Some(h) => parse(h),
        None => None,
    };
    let base = match from_header {
        Some(n) => n,
        None => match path_file_stem(url_path) {
            Some(s) => decode_percent(s.as_str()),
            None => {
                let mut d = String::new();
                push_str(&mut d, "Download");
                d
            },
        },
    };
    let ext = match content_type {
        Some(ct) => {
            let v = chars_of(ct);
            let n = v.len();
            let a = after_last_char(&v, 0, n, '/');
            let b = find_char(&v, a, n, ';');
            proof {
                assert(v@.subrange(0, n as int) =~= v@);
                let t = v@.subrange(a as int, n as int);
                lemma_find_bounds(t, ';');
                assert(t.subrange(0, b - a) =~= v@.subrange(a as int, b as int));
            }
            string_of(&v, a, b)
        },
        None => match path_extension(url_path) {
            Some(e) => decode_percent(e.as_str()),
            None => {
                let mut d = String::new();
                push_str(&mut d, "bin");
                d
            },
        },
    };
    let mut r = clear(base.as_str());
    push_str(&mut r, ".");
    let e = clear(ext.as_str());
    push_str(&mut r, e.as_str());
    r
}

} // verus!
