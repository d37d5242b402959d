//! The interfaces through which the library reaches randomness, responses and input lines.

use vstd::prelude::*;
use vstd::string::StringExecFns;
use crate::text::{decimal, decimal_string};

verus! {

/// The number a uniform draw `sample` selects in `[min, max]`: `min` when the range
/// is empty or a single value, else `min + sample mod (max - min + 1)`.
pub open spec fn pick_in_range(min: int, max: int, sample: int) -> int {
    if min >= max {
        min
    } else {
        min + sample % (max - min + 1)
    }
}

/// Maps a raw 64-bit draw onto `[min, max]`.
pub fn pick_usize(min: usize, max: usize, sample: u64) -> (r: usize)
    ensures
        r == pick_in_range(min as int, max as int, sample as int),
        min <= max ==> min <= r <= max,
{
    if min >= max {
        return min;
    }
    let range: u128 = max as u128 - min as u128 + 1;
    let off: u128 = sample as u128 % range;
    (min as u128 + off) as usize
}

/// Maps a raw 64-bit draw onto `[min, max]`.
pub fn pick_u8(min: u8, max: u8, sample: u64) -> (r: u8)
    ensures
        r == pick_in_range(min as int, max as int, sample as int),
        min <= max ==> min <= r <= max,
{
    if min >= max {
        return min;
    }
    let range: u64 = max as u64 - min as u64 + 1;
    min + (sample % range) as u8
}

/// A source of random 64-bit words; the range helpers map one word onto a closed range.
pub trait Rand {
    /// Whether this source keeps to the specification of the draws below, recording
    /// each word it hands out in `drawn`. A verified source that does says so; for any
    /// other source it is false and nothing is claimed of the words.
    closed spec fn obeys_rand_spec() -> bool {
        false
    }

    /// The words this source has handed out so far, oldest first, for a source that
    /// keeps to the specification.
    closed spec fn drawn(&self) -> Seq<u64> {
        Seq::empty()
    }

    /// Hands out the next word, which joins the end of `drawn`.
    fn next_u64(&mut self) -> (w: u64)
        ensures
            Self::obeys_rand_spec() ==> final(self).drawn() == old(self).drawn().push(w),
    ;

    /// A number in `[min, max]`: `min` without drawing when `min >= max`, else one
    /// word is drawn and mapped onto the range by `pick_in_range`.
    fn random_range_usize(&mut self, min: usize, max: usize) -> (r: usize)
        ensures
            min >= max ==> r == min,
            min < max ==> min <= r <= max,
            Self::obeys_rand_spec() ==> {
                &&& min >= max ==> final(self).drawn() == old(self).drawn()
                &&& min < max ==> final(self).drawn().len() == old(self).drawn().len() + 1
                    && final(self).drawn() == old(self).drawn().push(final(self).drawn().last())
                    && r == pick_in_range(min as int, max as int, final(self).drawn().last() as int)
            },
    {
        if min >= max {
            return min;
        }
        let sample = self.next_u64();
        pick_usize(min, max, sample)
    }

    /// A number in `[min, max]`: `min` without drawing when `min >= max`, else one
    /// word is drawn and mapped onto the range by `pick_in_range`.
    fn random_range_u8(&mut self, min: u8, max: u8) -> (r: u8)
        ensures
            min >= max ==> r == min,
            min < max ==> min <= r <= max,
            Self::obeys_rand_spec() ==> {
                &&& min >= max ==> final(self).drawn() == old(self).drawn()
                &&& min < max ==> final(self).drawn().len() == old(self).drawn().len() + 1
                    && final(self).drawn() == old(self).drawn().push(final(self).drawn().last())
                    && r == pick_in_range(min as int, max as int, final(self).drawn().last() as int)
            },
    {
        if min >= max {
            return min;
        }
        let sample = self.next_u64();
        pick_u8(min, max, sample)
    }
}

/// A response to a latency probe over HTTP: its status and its headers.
pub trait HttpingResponse {
    /// Whether this response type keeps to the specification of `status` and `header`
    /// below, through `status_spec` and `header_spec`. A verified type that does says
    /// so; for any other type it is false and nothing is claimed of its answers.
    closed spec fn obeys_response_spec() -> bool {
        false
    }

    /// The HTTP status code of the response, for a type that keeps to the specification.
    closed spec fn status_spec(&self) -> u16 {
        0
    }

    /// The value of the header `name` in the response, if present, for a type that
    /// keeps to the specification.
    closed spec fn header_spec(&self, name: Seq<char>) -> Option<Seq<char>> {
        None
    }

    /// The HTTP status code.
    fn status(&self) -> (s: u16)
        ensures
            Self::obeys_response_spec() ==> s == self.status_spec(),
    ;

    /// The value of the header `name`, if present.
    fn header(&self, name: &str) -> (v: Option<&str>)
        ensures
            Self::obeys_response_spec() ==> match v {
                Some(t) => self.header_spec(name@) == Some(t@),
                None => self.header_spec(name@) is None,
            },
    ;
}

/// A failed network probe.
#[derive(Debug, Clone)]
pub enum NetworkError {
    /// The probe did not complete in time.
    Timeout,
    /// The connection could not be made; the text says why.
    ConnectionFailed(String),
    /// The server answered with this unexpected HTTP status.
    HttpStatus(u16),
    /// Any other failure; the text says what.
    Other(String),
}

/// The message shown for a network error.
pub open spec fn error_message(e: NetworkError) -> Seq<char> {
    match e {
        NetworkError::Timeout => "请求超时"@,
        NetworkError::ConnectionFailed(msg) => "连接失败: "@ + msg@,
        NetworkError::HttpStatus(code) => "HTTP 状态码错误: "@ + decimal(code as nat),
        NetworkError::Other(msg) => msg@,
    }
}

impl NetworkError {
    /// The message shown for this error.
    pub fn message(&self) -> (m: String)
        ensures
            m@ == error_message(*self),
    {
        match self {
            NetworkError::Timeout => "请求超时".to_owned(),
            NetworkError::ConnectionFailed(msg) => {
                let mut m = "连接失败: ".to_owned();
                m.append(msg.as_str());
                m
            },
            NetworkError::HttpStatus(code) => {
                let mut m = "HTTP 状态码错误: ".to_owned();
                let digits = decimal_string(*code as u64);
                m.append(digits.as_str());
                m
            },
            NetworkError::Other(msg) => msg.as_str().to_owned(),
        }
    }
}

/// A source of input lines: `read_line` appends the next line (with its line break)
/// to `buf` and returns how many bytes it read, 0 at the end.
pub trait LineReader {
    type Error;

    /// Whether this reader keeps to the specification of `read_line` below, recording
    /// the outcome of each read in `reads`. A verified reader that does says so; for any
    /// other reader it is false and nothing is claimed of its reads.
    closed spec fn obeys_reader_spec() -> bool {
        false
    }

    /// The outcomes of the reads made so far, oldest first, for a reader that keeps to
    /// the specification.
    closed spec fn reads(&self) -> Seq<Result<usize, Self::Error>> {
        Seq::empty()
    }

    fn read_line(&mut self, buf: &mut String) -> (r: Result<usize, Self::Error>)
        ensures
            Self::obeys_reader_spec() ==> final(self).reads() == old(self).reads().push(r),
    ;
}

/// Where the warnings of address parsing go: the text of each piece that does not
/// parse is handed to `warn`. Every `FnMut(&str)` closure is one.
pub trait WarningSink {
    /// Whether this sink keeps to the specification of `warn` below, recording each
    /// warning in `warned`. A verified sink that does says so; for any other sink it is
    /// false and nothing is claimed of the warnings it got.
    closed spec fn obeys_warning_spec() -> bool {
        false
    }

    /// The texts warned of so far, oldest first, for a sink that keeps to the
    /// specification.
    closed spec fn warned(&self) -> Seq<Seq<char>> {
        Seq::empty()
    }

    /// Whether the sink may be handed `text`.
    closed spec fn accepts(&self, text: &str) -> bool {
        true
    }

    /// Takes the warning `text`.
    fn warn(&mut self, text: &str)
        requires
            old(self).accepts(text),
        ensures
            Self::obeys_warning_spec() ==> final(self).warned() == old(self).warned().push(text@),
            forall|t: &str| old(self).accepts(t) ==> #[trigger] final(self).accepts(t),
    ;
}

impl<F: FnMut(&str)> WarningSink for F {
    open spec fn accepts(&self, text: &str) -> bool {
        call_requires(*self, (text,))
    }

    fn warn(&mut self, text: &str) {
        self(text);
    }
}

/// A sink that keeps the warnings it gets, in order.
pub struct WarningLog {
    /// The warnings received, oldest first.
    pub lines: Vec<String>,
}

impl WarningLog {
    /// An empty log.
    pub fn new() -> (l: Self)
        ensures
            l.lines@ == Seq::<String>::empty(),
    {
        WarningLog { lines: Vec::new() }
    }
}

impl WarningSink for WarningLog {
    open spec fn obeys_warning_spec() -> bool {
        true
    }

    open spec fn warned(&self) -> Seq<Seq<char>> {
        self.lines@.map_values(|t: String| t@)
    }

    open spec fn accepts(&self, text: &str) -> bool {
        true
    }

    fn warn(&mut self, text: &str) {
        self.lines.push(text.to_owned());
        assert(self.lines@.map_values(|t: String| t@) =~= old(self).lines@.map_values(|t: String| t@).push(text@));
    }
}

} // verus!
