//! Reading requests line by line, none longer than a limit.

use crate::json::{json_error_message, json_error_text};
use crate::text::{same, trimmed};
use vstd::prelude::*;
use vstd::string::StringExecFns;
use vstd::utf8::{decode_utf8, valid_utf8};

verus! {

/// The number of bytes that a request may have, its line end counted.
pub const MAX_REQUEST_BYTES: usize = 1_048_576;

/// `std::string::FromUtf8Error`, carried unopened.
#[verifier::external_type_specification]
#[verifier::external_body]
pub struct ExFromUtf8Error(std::string::FromUtf8Error);

/// What `std::string::FromUtf8Error` prints as.
pub uninterp spec fn utf8_error_text(err: std::string::FromUtf8Error) -> Seq<char>;

/// `String::from_utf8` takes bytes that are UTF-8, and gives the characters that they encode.
pub assume_specification[ String::from_utf8 ](raw: Vec<u8>) -> (res: Result<
    String,
    std::string::FromUtf8Error,
>)
    ensures
        match res {
            Ok(decoded) => valid_utf8(raw@) && decoded@ == decode_utf8(raw@),
            Err(_) => !valid_utf8(raw@),
        },
;

/// The text of a `FromUtf8Error`, from its `Display`.
#[verifier::external_body]
pub(crate) fn utf8_error_message(err: &std::string::FromUtf8Error) -> (text: String)
    ensures
        text@ == utf8_error_text(*err),
{
    err.to_string()
}

/// Why a client is no longer served.
#[derive(Debug)]
pub enum IpcError {
    /// The connection failed; in words.
    Io(String),
    /// An answer could not be written as JSON.
    Json(serde_json::Error),
    /// A request is not UTF-8.
    Utf8(std::string::FromUtf8Error),
    /// A request is longer than this many bytes.
    RequestTooLarge(usize),
}

/// The decimal digits of a number.
pub open spec fn decimal(n: nat) -> Seq<char>
    decreases n,
{
    if n < 10 {
        seq![(48 + n) as char]
    } else {
        decimal(n / 10).push((48 + n % 10) as char)
    }
}

fn digit(d: usize) -> (text: &'static str)
    requires
        d < 10,
    ensures
        text@ == seq![(48 + d) as char],
{
    proof {
        reveal_strlit("0");
        reveal_strlit("1");
        reveal_strlit("2");
        reveal_strlit("3");
        reveal_strlit("4");
        reveal_strlit("5");
        reveal_strlit("6");
        reveal_strlit("7");
        reveal_strlit("8");
        reveal_strlit("9");
    }
    match d {
        0 => "0",
        1 => "1",
        2 => "2",
        3 => "3",
        4 => "4",
        5 => "5",
        6 => "6",
        7 => "7",
        8 => "8",
        _ => "9",
    }
}

/// The decimal digits of a number.
fn decimal_text(n: usize) -> (text: String)
    ensures
        text@ == decimal(n as nat),
    decreases n,
{
    if n < 10 {
        digit(n).to_owned()
    } else {
        let text = decimal_text(n / 10).concat(digit(n % 10));
        assert(text@ =~= decimal(n as nat));
        text
    }
}

/// The words for a request that is longer than `limit` bytes.
pub open spec fn too_large_words(limit: nat) -> Seq<char> {
    "request exceeds "@ + decimal(limit) + " bytes"@
}

/// The words for a request that is longer than `limit` bytes.
pub(crate) fn too_large_message(limit: usize) -> (text: String)
    ensures
        text@ == too_large_words(limit as nat),
{
    "request exceeds ".to_owned().concat(decimal_text(limit).as_str()).concat(" bytes")
}

impl IpcError {
    /// The failure in words.
    pub open spec fn words(self) -> Seq<char> {
        match self {
            IpcError::Io(text) => "I/O error: "@ + text@,
            IpcError::Json(err) => "JSON error: "@ + json_error_text(err),
            IpcError::Utf8(err) => "UTF-8 error: "@ + utf8_error_text(err),
            IpcError::RequestTooLarge(limit) => too_large_words(limit as nat),
        }
    }

    /// The failure in words.
    pub fn message(&self) -> (text: String)
        ensures
            text@ == self.words(),
    {
        match self {
            IpcError::Io(text) => "I/O error: ".to_owned().concat(text.as_str()),
            IpcError::Json(err) => "JSON error: ".to_owned().concat(json_error_message(err).as_str()),
            IpcError::Utf8(err) => "UTF-8 error: ".to_owned().concat(
                utf8_error_message(err).as_str(),
            ),
            IpcError::RequestTooLarge(limit) => too_large_message(*limit),
        }
    }
}

/// What comes of the bytes read so far.
#[derive(Debug)]
pub enum LineStep {
    /// The line goes on.
    More,
    /// A line, with its end if it has one.
    Line(Vec<u8>),
    /// The line is longer than the limit.
    TooLarge,
    /// There are no more lines.
    End,
}

/// What comes of the bytes read so far.
pub enum LineFact {
    More,
    Line(Seq<u8>),
    TooLarge,
    End,
}

impl View for LineStep {
    type V = LineFact;

    open spec fn view(&self) -> LineFact {
        match *self {
            LineStep::More => LineFact::More,
            LineStep::Line(bytes) => LineFact::Line(bytes@),
            LineStep::TooLarge => LineFact::TooLarge,
            LineStep::End => LineFact::End,
        }
    }
}

/// The place of the first line end, or the length.
pub open spec fn line_end(bytes: Seq<u8>) -> int
    decreases bytes.len(),
{
    if bytes.len() == 0 || bytes[0] == 10 {
        0
    } else {
        1 + line_end(bytes.drop_first())
    }
}

/// Reading on: what is kept of the line, how many of the bytes at hand are taken, and what comes
/// of it. No bytes at hand means that none will follow.
pub open spec fn feed_step(kept: Seq<u8>, available: Seq<u8>) -> (Seq<u8>, int, LineFact) {
    let end = line_end(available);
    if available.len() == 0 {
        if kept.len() == 0 {
            (kept, 0, LineFact::End)
        } else {
            (Seq::empty(), 0, LineFact::Line(kept))
        }
    } else if end < available.len() {
        if kept.len() + end + 1 > MAX_REQUEST_BYTES {
            (kept, end + 1, LineFact::TooLarge)
        } else {
            (Seq::empty(), end + 1, LineFact::Line(kept + available.take(end + 1)))
        }
    } else if kept.len() + available.len() > MAX_REQUEST_BYTES {
        (kept, available.len() as int, LineFact::TooLarge)
    } else {
        (kept + available, available.len() as int, LineFact::More)
    }
}

proof fn lemma_line_end(bytes: Seq<u8>, at: int)
    requires
        0 <= at <= bytes.len(),
        at < bytes.len() ==> bytes[at] == 10,
        forall|j: int| 0 <= j < at ==> #[trigger] bytes[j] != 10,
    ensures
        line_end(bytes) == at,
    decreases bytes.len(),
{
    if bytes.len() > 0 && at > 0 {
        assert forall|j: int| 0 <= j < at - 1 implies #[trigger] bytes.drop_first()[j] != 10 by {
            assert(bytes.drop_first()[j] == bytes[j + 1]);
        }
        lemma_line_end(bytes.drop_first(), at - 1);
    }
}

/// The beginning of a line that is still being read.
#[derive(Debug)]
pub struct LineReader {
    pub kept: Vec<u8>,
}

impl LineReader {
    /// No line begun.
    pub fn new() -> (reader: LineReader)
        ensures
            reader.kept@ == Seq::<u8>::empty(),
    {
        LineReader { kept: Vec::new() }
    }

    /// Reads on with the bytes at hand, none meaning that none will follow; says how many were
    /// taken.
    pub fn read_bounded_line(&mut self, available: &[u8]) -> (res: (usize, LineStep))
        requires
            old(self).kept@.len() <= MAX_REQUEST_BYTES,
        ensures
            final(self).kept@.len() <= MAX_REQUEST_BYTES,
            feed_step(old(self).kept@, available@) == (final(self).kept@, res.0 as int, res.1@),
    {
        let n: usize = available.len();
        if n == 0 {
            if self.kept.len() == 0 {
                return (0, LineStep::End);
            }
            let line = self.take_kept();
            return (0, LineStep::Line(line));
        }
        let mut end: usize = 0;
        while end < n && available[end] != 10
            invariant
                n == available@.len(),
                end <= n,
                forall|j: int| 0 <= j < end ==> #[trigger] available@[j] != 10,
            decreases n - end,
        {
            end = end + 1;
        }
        proof {
            lemma_line_end(available@, end as int);
        }
        let consumed: usize = if end < n {
            end + 1
        } else {
            n
        };
        if consumed > MAX_REQUEST_BYTES - self.kept.len() {
            return (consumed, LineStep::TooLarge);
        }
        let ghost before = self.kept@;
        let mut i: usize = 0;
        assert(before + available@.take(0) =~= before);
        while i < consumed
            invariant
                i <= consumed <= available@.len(),
                self.kept@ == before + available@.take(i as int),
            decreases consumed - i,
        {
            self.kept.push(available[i]);
            i = i + 1;
            assert(available@.take(i as int) =~= available@.take(i - 1).push(available@[i - 1]));
        }
        if end < n {
            let line = self.take_kept();
            (consumed, LineStep::Line(line))
        } else {
            assert(available@.take(i as int) =~= available@);
            (consumed, LineStep::More)
        }
    }

    fn take_kept(&mut self) -> (line: Vec<u8>)
        ensures
            line@ == old(self).kept@,
            final(self).kept@ == Seq::<u8>::empty(),
    {
        let mut line: Vec<u8> = Vec::new();
        line.append(&mut self.kept);
        line
    }
}

/// The text of a line.
pub fn decode_line(line: Vec<u8>) -> (res: Result<String, IpcError>)
    ensures
        match res {
            Ok(text) => valid_utf8(line@) && text@ == decode_utf8(line@),
            Err(err) => !valid_utf8(line@) && err is Utf8,
        },
{
    match String::from_utf8(line) {
        Ok(text) => Ok(text),
        Err(err) => Err(IpcError::Utf8(err)),
    }
}

/// The request on a line, without the white space around it; none if there is nothing else.
pub fn request_on(line: &str) -> (request: Option<&str>)
    ensures
        match request {
            Some(text) => text@ == trimmed(line@) && text@.len() > 0,
            None => trimmed(line@).len() == 0,
        },
{
    let text = line.trim();
    proof {
        reveal_strlit("");
    }
    if same(text, "") {
        None
    } else {
        assert(text@.len() > 0) by {
            if text@.len() == 0 {
                assert(text@ =~= ""@);
            }
        }
        Some(text)
    }
}

/// What reading a whole stream gives first.
pub open spec fn read_stream(stream: Seq<u8>) -> LineFact {
    let end = line_end(stream);
    if stream.len() == 0 {
        LineFact::End
    } else if end < stream.len() {
        if end + 1 > MAX_REQUEST_BYTES {
            LineFact::TooLarge
        } else {
            LineFact::Line(stream.take(end + 1))
        }
    } else if stream.len() > MAX_REQUEST_BYTES {
        LineFact::TooLarge
    } else {
        LineFact::Line(stream)
    }
}

/// What reading a stream in pieces gives first.
pub open spec fn read_pieces(kept: Seq<u8>, pieces: Seq<Seq<u8>>) -> LineFact
    decreases pieces.len(),
{
    if pieces.len() == 0 {
        feed_step(kept, Seq::empty()).2
    } else {
        let (longer, _, fact) = feed_step(kept, pieces[0]);
        if fact is More {
            read_pieces(longer, pieces.drop_first())
        } else {
            fact
        }
    }
}

proof fn lemma_line_end_of_sum(a: Seq<u8>, b: Seq<u8>)
    requires
        line_end(a) == a.len(),
    ensures
        line_end(a + b) == a.len() + line_end(b),
    decreases a.len(),
{
    if a.len() > 0 {
        lemma_line_end_range(a.drop_first());
        lemma_line_end_of_sum(a.drop_first(), b);
        assert((a + b).drop_first() =~= a.drop_first() + b);
    } else {
        assert(a + b =~= b);
    }
}

proof fn lemma_line_end_range(a: Seq<u8>)
    ensures
        0 <= line_end(a) <= a.len(),
    decreases a.len(),
{
    if a.len() > 0 && a[0] != 10 {
        lemma_line_end_range(a.drop_first());
    }
}

proof fn lemma_line_end_stays(a: Seq<u8>, b: Seq<u8>)
    requires
        line_end(a) < a.len(),
    ensures
        line_end(a + b) == line_end(a),
    decreases a.len(),
{
    if a.len() > 0 && a[0] != 10 {
        lemma_line_end_stays(a.drop_first(), b);
        assert((a + b).drop_first() =~= a.drop_first() + b);
    }
}

proof fn lemma_pieces(kept: Seq<u8>, pieces: Seq<Seq<u8>>)
    requires
        line_end(kept) == kept.len(),
        kept.len() <= MAX_REQUEST_BYTES,
        forall|i: int| 0 <= i < pieces.len() ==> (#[trigger] pieces[i]).len() > 0,
    ensures
        read_pieces(kept, pieces) == read_stream(kept + pieces.flatten()),
    decreases pieces.len(),
{
    if pieces.len() == 0 {
        assert(kept + pieces.flatten() =~= kept);
    } else {
        let first = pieces[0];
        let rest = pieces.drop_first();
        assert(first.len() > 0);
        assert(pieces.flatten() == first + rest.flatten());
        assert(kept + (first + rest.flatten()) =~= (kept + first) + rest.flatten());
        lemma_line_end_range(first);
        lemma_line_end_of_sum(kept, first);
        let stream = kept + pieces.flatten();
        if line_end(first) < first.len() {
            lemma_line_end_stays(kept + first, rest.flatten());
            let end = line_end(first);
            assert(stream.take(kept.len() + end + 1) =~= kept + first.take(end + 1));
        } else {
            lemma_line_end_of_sum(kept + first, rest.flatten());
            lemma_line_end_range(rest.flatten());
            if kept.len() + first.len() <= MAX_REQUEST_BYTES {
                assert forall|i: int| 0 <= i < rest.len() implies (#[trigger] rest[i]).len() > 0 by {
                    assert(rest[i] == pieces[i + 1]);
                }
                lemma_pieces(kept + first, rest);
            }
        }
    }
}

/// However a stream comes in pieces, reading gives the same first: a line, the refusal of one
/// that is too long, or the end.
pub proof fn reading_does_not_depend_on_pieces(pieces: Seq<Seq<u8>>)
    requires
        forall|i: int| 0 <= i < pieces.len() ==> (#[trigger] pieces[i]).len() > 0,
    ensures
        read_pieces(Seq::empty(), pieces) == read_stream(pieces.flatten()),
{
    lemma_pieces(Seq::empty(), pieces);
    assert(Seq::<u8>::empty() + pieces.flatten() =~= pieces.flatten());
}

/// The stream holds no line end before this place.
pub open spec fn goes_on_to(stream: Seq<u8>, at: int) -> bool {
    forall|j: int| 0 <= j < at ==> #[trigger] stream[j] != 10
}

proof fn lemma_line_goes_on(bytes: Seq<u8>)
    ensures
        0 <= line_end(bytes) <= bytes.len(),
        goes_on_to(bytes, line_end(bytes)),
        line_end(bytes) < bytes.len() ==> bytes[line_end(bytes)] == 10,
    decreases bytes.len(),
{
    if bytes.len() > 0 && bytes[0] != 10 {
        let rest = bytes.drop_first();
        lemma_line_goes_on(rest);
        assert forall|j: int| 0 <= j < line_end(bytes) implies #[trigger] bytes[j] != 10 by {
            if j > 0 {
                assert(rest[j - 1] == bytes[j]);
            }
        }
    }
}

/// The first line of a stream is what stands up to its first line end, that end included, or all
/// of the stream if there is no line end. A line has at most 1,048,576 bytes: a stream without a
/// line end among so many is refused once there are more.
pub proof fn line_goes_up_to_its_end(stream: Seq<u8>)
    ensures
        match read_stream(stream) {
            LineFact::End => stream.len() == 0,
            LineFact::Line(line) => {
                &&& 0 < line.len() <= 1_048_576
                &&& line.is_prefix_of(stream)
                &&& goes_on_to(line, line.len() - 1)
                &&& line.last() == 10 || line == stream
            },
            LineFact::TooLarge => stream.len() > 1_048_576 && goes_on_to(stream, 1_048_576),
            LineFact::More => false,
        },
{
    lemma_line_goes_on(stream);
}

/// Reading on loses no byte and makes none up: the bytes taken join those that were kept, until
/// they make up a line, which is given whole with nothing kept. A line end closes the line, and
/// so does the end of the stream; more than 1,048,576 bytes without a line end are refused.
pub proof fn reading_on_loses_nothing(kept: Seq<u8>, available: Seq<u8>)
    requires
        goes_on_to(kept, kept.len() as int),
        kept.len() <= 1_048_576,
    ensures
        ({
            let (left, taken, fact) = feed_step(kept, available);
            &&& 0 <= taken <= available.len()
            &&& available.len() > 0 ==> {
                &&& taken > 0
                &&& goes_on_to(available, taken - 1)
                &&& available[taken - 1] == 10 || taken == available.len()
            }
            &&& match fact {
                LineFact::End => kept.len() == 0 && available.len() == 0 && left.len() == 0,
                LineFact::Line(line) => {
                    &&& line == kept + available.take(taken)
                    &&& 0 < line.len() <= 1_048_576
                    &&& left.len() == 0
                    &&& available.len() == 0 || line.last() == 10
                },
                LineFact::More => {
                    &&& available.len() > 0 && taken == available.len()
                    &&& left == kept + available
                    &&& goes_on_to(left, left.len() as int)
                    &&& left.len() <= 1_048_576
                },
                LineFact::TooLarge => {
                    &&& left == kept
                    &&& kept.len() + taken > 1_048_576
                },
            }
        }),
{
    lemma_line_goes_on(available);
    assert(available.take(available.len() as int) =~= available);
    assert(kept + available.take(0) =~= kept);
}

} // verus!
