//! What the metadata-only request tells: the size of the resource and
//! whether the server serves byte ranges.
use vstd::prelude::*;
use vstd::string::*;
use crate::outcome::DownloadError;
use crate::plan::{count_for, is_split, plan, tiles, Chunk};

verus! {

pub open spec fn is_digit(c: char) -> bool {
    '0' <= c <= '9'
}

/// Value of a string of decimal digits.
pub open spec fn digits_value(s: Seq<char>) -> int
    decreases s.len(),
{
    if s.len() == 0 {
        0
    } else {
        digits_value(s.drop_last()) * 10 + (s.last() as int - '0' as int)
    }
}

/// The digits of a number: the text without one leading `+`.
pub open spec fn unsigned_body(s: Seq<char>) -> Seq<char> {
    if s.len() > 0 && s[0] == '+' {
        s.drop_first()
    } else {
        s
    }
}

/// The text is an unsigned decimal number that fits in 64 bits: an optional
/// `+`, then one or more digits.
pub open spec fn parses_u64(s: Seq<char>) -> bool {
    let b = unsigned_body(s);
    &&& b.len() > 0
    &&& forall|i: int| 0 <= i < b.len() ==> is_digit(#[trigger] b[i])
    &&& digits_value(b) <= u64::MAX
}

/// Reads an unsigned decimal number, as the header `Content-Length` carries it.
pub fn parse_u64(s: &str) -> (r: Option<u64>)
    ensures
        parses_u64(s@) ==> r == Some(digits_value(unsigned_body(s@)) as u64),
        !parses_u64(s@) ==> r is None,
{
    let n = s.unicode_len();
    let mut i: usize = 0;
    if n > 0 && s.get_char(0) == '+' {
        i = 1;
    }
    let first = i;
    let ghost b = unsigned_body(s@);
    assert(b == s@.subrange(first as int, n as int));
    if i == n {
        return None;
    }
    let mut acc: u64 = 0;
    let mut over = false;
    while i < n
        invariant
            n == s@.len(),
            first <= i <= n,
            b == unsigned_body(s@),
            b == s@.subrange(first as int, n as int),
            forall|k: int| 0 <= k < i - first ==> is_digit(#[trigger] b[k]),
            !over ==> acc == digits_value(b.subrange(0, i - first)),
            over ==> digits_value(b.subrange(0, i - first)) > u64::MAX,
        decreases n - i,
    {
        let c = s.get_char(i);
        assert(c == b[i - first]);
        if !('0' <= c && c <= '9') {
            let ghost k = i - first;
            assert(0 <= k < b.len() && !is_digit(b[k]));
            assert(!(forall|j: int| 0 <= j < b.len() ==> is_digit(#[trigger] b[j])));
            return None;
        }
        let ghost pre = b.subrange(0, i - first);
        assert(b.subrange(0, i - first + 1).drop_last() == pre);
        let d = (c as u32 - '0' as u32) as u64;
        if !over {
            let next = acc as u128 * 10 + d as u128;
            if next > u64::MAX as u128 {
                over = true;
            } else {
                acc = next as u64;
            }
        }
        i = i + 1;
    }
    assert(b.subrange(0, n - first) == b);
    if over {
        None
    } else {
        Some(acc)
    }
}

/// The range-support header's value says that ranges are served in bytes.
pub open spec fn advertises_bytes(v: Option<Seq<u8>>) -> bool {
    v == Some(seq![98u8, 121u8, 116u8, 101u8, 115u8])
}

/// Whether the header `Accept-Ranges`, if present, has the value `bytes`.
pub fn ranges_supported(v: Option<&[u8]>) -> (r: bool)
    ensures
        r == advertises_bytes(
            match v {
                Some(x) => Some(x@),
                None => None,
            },
        ),
{
    match v {
        None => false,
        Some(x) => {
            let want: [u8; 5] = [98u8, 121u8, 116u8, 101u8, 115u8];
            if x.len() != 5 {
                return false;
            }
            let mut i: usize = 0;
            while i < 5
                invariant
                    x@.len() == 5,
                    v == Some(x),
                    want@ == seq![98u8, 121u8, 116u8, 101u8, 115u8],
                    i <= 5,
                    forall|k: int| 0 <= k < i ==> x@[k] == want@[k],
                decreases 5 - i,
            {
                if x[i] != want[i] {
                    assert(x@[i as int] != seq![98u8, 121u8, 116u8, 101u8, 115u8][i as int]);
                    return false;
                }
                i = i + 1;
            }
            assert(x@ == seq![98u8, 121u8, 116u8, 101u8, 115u8]);
            true
        },
    }
}

/// What a download task holds.
pub struct TaskView {
    pub url: Seq<char>,
    pub output: Seq<char>,
    pub total_size: u64,
    pub supports_range: bool,
}

/// A resource to fetch, as the probe found it; fixed once made.
pub struct DownloadTask {
    url: String,
    output: String,
    total_size: u64,
    supports_range: bool,
}

impl View for DownloadTask {
    type V = TaskView;

    closed spec fn view(&self) -> TaskView {
        TaskView {
            url: self.url@,
            output: self.output@,
            total_size: self.total_size,
            supports_range: self.supports_range,
        }
    }
}

/// Size that the `Content-Length` value gives, if it is a number.
pub open spec fn size_of_header(content_length: Option<Seq<char>>) -> Option<u64> {
    match content_length {
        Some(s) => if parses_u64(s) {
            Some(digits_value(unsigned_body(s)) as u64)
        } else {
            None
        },
        None => None,
    }
}

impl DownloadTask {
    pub open spec fn wf(&self) -> bool {
        self@.total_size > 0
    }

    /// Builds the task from the probe's headers. Fails with `InvalidResponse`
    /// when `Content-Length` is absent, not a number, or zero.
    pub fn from_headers(
        url: String,
        output: String,
        content_length: Option<&str>,
        accept_ranges: Option<&[u8]>,
    ) -> (r: Result<DownloadTask, DownloadError>)
        ensures
            ({
                let size = size_of_header(
                    match content_length {
                        Some(s) => Some(s@),
                        None => None,
                    },
                );
                &&& (size is None || size == Some(0u64)) ==> r == Err::<DownloadTask, DownloadError>(
                    DownloadError::InvalidResponse,
                )
                &&& (size matches Some(n) && n > 0) ==> (r matches Ok(t) && t@ == (TaskView {
                    url: url@,
                    output: output@,
                    total_size: size->0,
                    supports_range: advertises_bytes(
                        match accept_ranges {
                            Some(x) => Some(x@),
                            None => None,
                        },
                    ),
                }) && t.wf())
            }),
    {
        let size = match content_length {
            Some(s) => parse_u64(s),
            None => None,
        };
        match size {
            Some(n) => {
                if n == 0 {
                    Err(DownloadError::InvalidResponse)
                } else {
                    Ok(DownloadTask {
                        url,
                        output,
                        total_size: n,
                        supports_range: ranges_supported(accept_ranges),
                    })
                }
            },
            None => Err(DownloadError::InvalidResponse),
        }
    }

    pub fn url(&self) -> (r: &str)
        ensures
            r@ == self@.url,
    {
        self.url.as_str()
    }

    pub fn output(&self) -> (r: &str)
        ensures
            r@ == self@.output,
    {
        self.output.as_str()
    }

    pub fn total_size(&self) -> (r: u64)
        ensures
            r == self@.total_size,
    {
        self.total_size
    }

    pub fn supports_range(&self) -> (r: bool)
        ensures
            r == self@.supports_range,
    {
        self.supports_range
    }

    /// The byte ranges that the workers fetch.
    pub fn chunks(&self) -> (r: Vec<Chunk>)
        requires
            self.wf(),
        ensures
            is_split(r@, self@.total_size, count_for(self@.total_size, self@.supports_range)),
            tiles(r@, self@.total_size),
    {
        plan(self.total_size, self.supports_range)
    }
}

} // verus!
