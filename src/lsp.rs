use vstd::prelude::*;

verus! {

/// Error codes of the language-server protocol.
#[derive(Clone, Copy, Debug, PartialEq, Eq, Structural)]
pub enum ErrorCode {
    ParseError,
    InvalidRequest,
    MethodNotFound,
    InvalidParams,
    InternalError,
    ServerErrorStart,
    ServerErrorEnd,
    ServerNotInitialized,
    Unknown,
    RequestCanceled,
    ContentModified,
    ServerCancelled,
}

/// The numeric value of each code.
pub open spec fn code_value(e: ErrorCode) -> int {
    match e {
        ErrorCode::ParseError => -32700,
        ErrorCode::InvalidRequest => -32600,
        ErrorCode::MethodNotFound => -32601,
        ErrorCode::InvalidParams => -32602,
        ErrorCode::InternalError => -32603,
        ErrorCode::ServerErrorStart => -32099,
        ErrorCode::ServerErrorEnd => -32000,
        ErrorCode::ServerNotInitialized => -32002,
        ErrorCode::Unknown => -32001,
        ErrorCode::RequestCanceled => -32800,
        ErrorCode::ContentModified => -32801,
        ErrorCode::ServerCancelled => -32802,
    }
}

/// The code a number stands for; numbers without a code are `Unknown`.
pub open spec fn code_of(code: i32) -> ErrorCode {
    if code == -32700 {
        ErrorCode::ParseError
    } else if code == -32600 {
        ErrorCode::InvalidRequest
    } else if code == -32601 {
        ErrorCode::MethodNotFound
    } else if code == -32602 {
        ErrorCode::InvalidParams
    } else if code == -32603 {
        ErrorCode::InternalError
    } else if code == -32099 {
        ErrorCode::ServerErrorStart
    } else if code == -32000 {
        ErrorCode::ServerErrorEnd
    } else if code == -32002 {
        ErrorCode::ServerNotInitialized
    } else if code == -32800 {
        ErrorCode::RequestCanceled
    } else if code == -32801 {
        ErrorCode::ContentModified
    } else if code == -32802 {
        ErrorCode::ServerCancelled
    } else {
        ErrorCode::Unknown
    }
}

impl ErrorCode {
    pub fn code(&self) -> (r: i32)
        ensures
            r as int == code_value(*self),
    {
        match self {
            ErrorCode::ParseError => -32700,
            ErrorCode::InvalidRequest => -32600,
            ErrorCode::MethodNotFound => -32601,
            ErrorCode::InvalidParams => -32602,
            ErrorCode::InternalError => -32603,
            ErrorCode::ServerErrorStart => -32099,
            ErrorCode::ServerErrorEnd => -32000,
            ErrorCode::ServerNotInitialized => -32002,
            ErrorCode::Unknown => -32001,
            ErrorCode::RequestCanceled => -32800,
            ErrorCode::ContentModified => -32801,
            ErrorCode::ServerCancelled => -32802,
        }
    }
}

impl From<i32> for ErrorCode {
    fn from(code: i32) -> (r: ErrorCode) {
        if code == -32700 {
            ErrorCode::ParseError
        } else if code == -32600 {
            ErrorCode::InvalidRequest
        } else if code == -32601 {
            ErrorCode::MethodNotFound
        } else if code == -32602 {
            ErrorCode::InvalidParams
        } else if code == -32603 {
            ErrorCode::InternalError
        } else if code == -32099 {
            ErrorCode::ServerErrorStart
        } else if code == -32000 {
            ErrorCode::ServerErrorEnd
        } else if code == -32002 {
            ErrorCode::ServerNotInitialized
        } else if code == -32800 {
            ErrorCode::RequestCanceled
        } else if code == -32801 {
            ErrorCode::ContentModified
        } else if code == -32802 {
            ErrorCode::ServerCancelled
        } else {
            ErrorCode::Unknown
        }
    }
}

impl vstd::std_specs::convert::FromSpecImpl<i32> for ErrorCode {
    open spec fn obeys_from_spec() -> bool {
        true
    }

    open spec fn from_spec(code: i32) -> ErrorCode {
        code_of(code)
    }
}

/// Every code maps back to itself from its number.
pub proof fn lemma_code_round_trip(e: ErrorCode)
    ensures
        code_of(code_value(e) as i32) == e,
{
}

pub open spec fn is_digit(b: u8) -> bool {
    48 <= b <= 57
}

/// Value of a run of decimal digits.
pub open spec fn digits_value(s: Seq<u8>) -> nat
    decreases s.len(),
{
    if s.len() == 0 {
        0
    } else {
        digits_value(s.drop_last()) * 10 + (s.last() - 48) as nat
    }
}

/// Decimal digits of `n`, most significant first, without leading zeros.
pub open spec fn decimal(n: nat) -> Seq<u8>
    decreases n,
{
    if n < 10 {
        seq![(n + 48) as u8]
    } else {
        decimal(n / 10).push(((n % 10) + 48) as u8)
    }
}

pub open spec fn is_space(b: u8) -> bool {
    b == 32 || b == 9 || b == 10 || b == 11 || b == 12 || b == 13
}

/// `line[a..b]` is `line` without its leading and trailing ASCII white
/// space.
pub open spec fn trim_bounds(line: Seq<u8>, a: int, b: int) -> bool {
    &&& 0 <= a <= b <= line.len()
    &&& forall|j: int| 0 <= j < a ==> is_space(#[trigger] line[j])
    &&& forall|j: int| b <= j < line.len() ==> is_space(#[trigger] line[j])
    &&& a < line.len() ==> !is_space(line[a])
    &&& a < b ==> !is_space(line[b - 1])
}

/// `line` without its leading and trailing ASCII white space.
pub open spec fn trimmed(line: Seq<u8>) -> Seq<u8> {
    let (a, b) = choose|a: int, b: int| trim_bounds(line, a, b);
    line.subrange(a, b)
}

proof fn lemma_trim_bounds_unique(line: Seq<u8>, a1: int, b1: int, a2: int, b2: int)
    requires
        trim_bounds(line, a1, b1),
        trim_bounds(line, a2, b2),
    ensures
        a1 == a2 && b1 == b2,
{
    if a1 < a2 {
        assert(is_space(line[a1]));
    }
    if a2 < a1 {
        assert(is_space(line[a2]));
    }
    if a1 < line.len() {
        if b1 == a1 {
            assert(is_space(line[a1]));
        }
        if b2 == a2 {
            assert(is_space(line[a2]));
        }
    }
    if b1 < b2 {
        assert(is_space(line[b2 - 1]));
    }
    if b2 < b1 {
        assert(is_space(line[b1 - 1]));
    }
}

/// Text of a header name that gives the message length.
pub open spec fn content_length_name() -> Seq<u8> {
    seq![67u8, 111, 110, 116, 101, 110, 116, 45, 76, 101, 110, 103, 116, 104]
}

/// Position of the first ": " in `s`.
pub open spec fn separator_at(s: Seq<u8>, k: int) -> bool {
    0 <= k && k + 1 < s.len() && s[k] == 58 && s[k + 1] == 32
}

pub open spec fn first_separator(s: Seq<u8>, k: int) -> bool {
    separator_at(s, k) && forall|j: int| 0 <= j < k ==> !#[trigger] separator_at(s, j)
}

/// Value of an unsigned decimal number: an optional '+', then one or more
/// digits.
pub open spec fn number_value(s: Seq<u8>) -> Option<nat> {
    let digits = unsigned_part(s);
    if digits.len() > 0 && all_digits(digits) {
        Some(digits_value(digits))
    } else {
        None
    }
}

/// `s` without a leading '+'.
pub open spec fn unsigned_part(s: Seq<u8>) -> Seq<u8> {
    if s.len() > 0 && s[0] == 43 {
        s.drop_first()
    } else {
        s
    }
}

pub open spec fn all_digits(s: Seq<u8>) -> bool {
    forall|j: int| 0 <= j < s.len() ==> is_digit(#[trigger] s[j])
}

/// One line of a message header block.
#[derive(Clone, Copy, Debug, PartialEq, Eq, Structural)]
pub enum HeaderLine {
    /// The blank line that ends the header block.
    End,
    /// A `Content-Length` header with its value.
    ContentLength(usize),
    /// Any other line.
    Other,
}

/// Why a header block gives no message length.
#[derive(Clone, Copy, Debug, PartialEq, Eq, Structural)]
pub enum HeaderError {
    InvalidContentLength,
    MissingContentLength,
}

/// What one header line says: after trimming white space, an empty line ends
/// the block; `Content-Length: <n>` gives the length; any other line is
/// skipped.
pub open spec fn header_line_spec(line: Seq<u8>) -> Result<HeaderLine, HeaderError> {
    let h = trimmed(line);
    if h.len() == 0 {
        Ok(HeaderLine::End)
    } else if exists|k: int| first_separator(h, k) {
        let k = choose|k: int| first_separator(h, k);
        if h.subrange(0, k) == content_length_name() {
            match number_value(h.subrange(k + 2, h.len() as int)) {
                Some(v) => if v <= usize::MAX {
                    Ok(HeaderLine::ContentLength(v as usize))
                } else {
                    Err(HeaderError::InvalidContentLength)
                },
                None => Err(HeaderError::InvalidContentLength),
            }
        } else {
            Ok(HeaderLine::Other)
        }
    } else {
        Ok(HeaderLine::Other)
    }
}


fn trim(line: &Vec<u8>) -> (r: (usize, usize))
    ensures
        trim_bounds(line@, r.0 as int, r.1 as int),
{
    let n = line.len();
    let mut a: usize = 0;
    while a < n && (line[a] == 32 || line[a] == 9 || line[a] == 10 || line[a] == 11 || line[a] == 12 || line[a] == 13)
        invariant
            n == line@.len(),
            0 <= a <= n,
            forall|j: int| 0 <= j < a ==> is_space(#[trigger] line@[j]),
        decreases n - a,
    {
        a = a + 1;
    }
    let mut b: usize = n;
    while b > a && (line[b - 1] == 32 || line[b - 1] == 9 || line[b - 1] == 10 || line[b - 1] == 11 || line[b - 1] == 12
        || line[b - 1] == 13)
        invariant
            n == line@.len(),
            0 <= a <= b <= n,
            forall|j: int| 0 <= j < a ==> is_space(#[trigger] line@[j]),
            a < n ==> !is_space(line@[a as int]),
            forall|j: int| b <= j < n ==> is_space(#[trigger] line@[j]),
        decreases b,
    {
        b = b - 1;
    }
    (a, b)
}

fn is_content_length_name(line: &Vec<u8>, a: usize, k: usize) -> (r: bool)
    requires
        a <= k <= line@.len(),
    ensures
        r == (line@.subrange(a as int, k as int) == content_length_name()),
{
    let name: [u8; 14] = [67, 111, 110, 116, 101, 110, 116, 45, 76, 101, 110, 103, 116, 104];
    assert(name@ == content_length_name());
    if k - a != 14 {
        return false;
    }
    let mut i: usize = 0;
    while i < 14
        invariant
            a <= k <= line@.len(),
            k - a == 14,
            name@ == content_length_name(),
            0 <= i <= 14,
            forall|j: int| 0 <= j < i ==> line@[a + j] == name@[j],
        decreases 14 - i,
    {
        if line[a + i] != name[i] {
            assert(line@.subrange(a as int, k as int)[i as int] != content_length_name()[i as int]);
            return false;
        }
        i = i + 1;
    }
    assert(line@.subrange(a as int, k as int) =~= content_length_name());
    true
}

proof fn lemma_digits_value_grows(s: Seq<u8>, k: int)
    requires
        0 <= k <= s.len(),
        forall|j: int| 0 <= j < s.len() ==> is_digit(#[trigger] s[j]),
    ensures
        digits_value(s) >= digits_value(s.take(k)),
    decreases s.len(),
{
    if k < s.len() {
        assert(s.drop_last().take(k) == s.take(k));
        assert forall|j: int| 0 <= j < s.drop_last().len() implies is_digit(#[trigger] s.drop_last()[j]) by {
            assert(s.drop_last()[j] == s[j]);
        }
        lemma_digits_value_grows(s.drop_last(), k);
    } else {
        assert(s.take(k) == s);
    }
}

/// Value of the number in `line[a..b]`.
fn parse_number(line: &Vec<u8>, a: usize, b: usize) -> (r: Option<usize>)
    requires
        a <= b <= line@.len(),
    ensures
        r == match number_value(line@.subrange(a as int, b as int)) {
            Some(v) => if v <= usize::MAX {
                Some(v as usize)
            } else {
                None
            },
            None => None,
        },
{
    let ghost s = line@.subrange(a as int, b as int);
    let start = if a < b && line[a] == 43 { a + 1 } else { a };
    let ghost digits = line@.subrange(start as int, b as int);
    assert(digits == unsigned_part(s));
    if start == b {
        return None;
    }
    let mut i: usize = start;
    while i < b
        invariant
            start <= i <= b <= line@.len(),
            digits == line@.subrange(start as int, b as int),
            s == line@.subrange(a as int, b as int),
            digits == unsigned_part(s),
            forall|j: int| start <= j < i ==> is_digit(#[trigger] line@[j]),
        decreases b - i,
    {
        if !(48 <= line[i] && line[i] <= 57) {
            assert(!is_digit(digits[i - start]));
            return None;
        }
        i = i + 1;
    }
    assert forall|j: int| 0 <= j < digits.len() implies is_digit(#[trigger] digits[j]) by {
        assert(digits[j] == line@[start + j]);
    }
    let mut value: u128 = 0;
    let mut i: usize = start;
    while i < b
        invariant
            start <= i <= b <= line@.len(),
            digits == line@.subrange(start as int, b as int),
            s == line@.subrange(a as int, b as int),
            digits == unsigned_part(s),
            forall|j: int| 0 <= j < digits.len() ==> is_digit(#[trigger] digits[j]),
            value == digits_value(digits.take(i - start)),
            value <= usize::MAX,
        decreases b - i,
    {
        proof {
            assert(digits.take(i - start + 1).drop_last() == digits.take(i - start));
            assert(digits.take(i - start + 1).last() == line@[i as int]);
            assert(is_digit(digits[i - start]));
        }
        value = value * 10 + (line[i] - 48) as u128;
        if value > usize::MAX as u128 {
            proof {
                lemma_digits_value_grows(digits, i - start + 1);
            }
            return None;
        }
        i = i + 1;
    }
    assert(digits.take(b - start) == digits);
    Some(value as usize)
}

/// What one header line says (see `header_line_spec`).
pub fn parse_header_line(line: &Vec<u8>) -> (r: Result<HeaderLine, HeaderError>)
    ensures
        r == header_line_spec(line@),
{
    let (a, b) = trim(line);
    proof {
        let (a2, b2) = choose|a2: int, b2: int| trim_bounds(line@, a2, b2);
        lemma_trim_bounds_unique(line@, a as int, b as int, a2, b2);
    }
    let ghost h = line@.subrange(a as int, b as int);
    assert(trimmed(line@) == h);
    if a == b {
        return Ok(HeaderLine::End);
    }
    let mut k: usize = a;
    while k < b - 1 && !(line[k] == 58 && line[k + 1] == 32)
        invariant
            a <= k <= b,
            a < b <= line@.len(),
            h == line@.subrange(a as int, b as int),
            forall|j: int| 0 <= j < k - a ==> !#[trigger] separator_at(h, j),
        decreases b - k,
    {
        k = k + 1;
    }
    if k >= b - 1 {
        assert forall|j: int| 0 <= j implies !#[trigger] separator_at(h, j) by {
            if j >= k - a {
                assert(!(j + 1 < h.len()));
            }
        }
        return Ok(HeaderLine::Other);
    }
    let ghost ks = k - a;
    assert(first_separator(h, ks));
    proof {
        let k2 = choose|k2: int| first_separator(h, k2);
        if k2 < ks {
            assert(!separator_at(h, k2));
        }
        if ks < k2 {
            assert(!separator_at(h, ks));
        }
    }
    assert(h.subrange(0, ks) == line@.subrange(a as int, k as int));
    assert(h.subrange(ks + 2, h.len() as int) == line@.subrange(k + 2, b as int));
    if !is_content_length_name(line, a, k) {
        return Ok(HeaderLine::Other);
    }
    match parse_number(line, k + 2, b) {
        Some(v) => Ok(HeaderLine::ContentLength(v)),
        None => Err(HeaderError::InvalidContentLength),
    }
}

/// Message length a header block gives: lines are read up to the blank
/// line that ends the block; the last `Content-Length` wins.
pub open spec fn content_length_spec(lines: Seq<Seq<u8>>, size: Option<usize>) -> Result<usize, HeaderError>
    decreases lines.len(),
{
    if lines.len() == 0 {
        match size {
            Some(n) => Ok(n),
            None => Err(HeaderError::MissingContentLength),
        }
    } else {
        match header_line_spec(lines[0]) {
            Ok(HeaderLine::End) => match size {
                Some(n) => Ok(n),
                None => Err(HeaderError::MissingContentLength),
            },
            Ok(HeaderLine::ContentLength(n)) => content_length_spec(lines.drop_first(), Some(n)),
            Ok(HeaderLine::Other) => content_length_spec(lines.drop_first(), size),
            Err(e) => Err(e),
        }
    }
}

pub open spec fn lines_view(lines: Seq<Vec<u8>>) -> Seq<Seq<u8>> {
    lines.map_values(|l: Vec<u8>| l@)
}

/// Message length that the header lines `lines` give.
pub fn content_length(lines: &Vec<Vec<u8>>) -> (r: Result<usize, HeaderError>)
    ensures
        r == content_length_spec(lines_view(lines@), None),
{
    let mut size: Option<usize> = None;
    let mut i: usize = 0;
    assert(lines_view(lines@).subrange(0, lines@.len() as int) == lines_view(lines@));
    while i < lines.len()
        invariant
            0 <= i <= lines@.len(),
            content_length_spec(lines_view(lines@), None) == content_length_spec(
                lines_view(lines@).subrange(i as int, lines@.len() as int),
                size,
            ),
        decreases lines@.len() - i,
    {
        let ghost rest = lines_view(lines@).subrange(i as int, lines@.len() as int);
        assert(rest[0] == lines@[i as int]@);
        assert(rest.drop_first() == lines_view(lines@).subrange(i + 1, lines@.len() as int));
        match parse_header_line(&lines[i]) {
            Ok(HeaderLine::End) => {
                return match size {
                    Some(n) => Ok(n),
                    None => Err(HeaderError::MissingContentLength),
                };
            },
            Ok(HeaderLine::ContentLength(n)) => {
                size = Some(n);
            },
            Ok(HeaderLine::Other) => {},
            Err(e) => {
                return Err(e);
            },
        }
        i = i + 1;
    }
    match size {
        Some(n) => Ok(n),
        None => Err(HeaderError::MissingContentLength),
    }
}

fn push_decimal(out: &mut Vec<u8>, n: usize)
    ensures
        final(out)@ == old(out)@ + decimal(n as nat),
    decreases n,
{
    if n < 10 {
        out.push((n + 48) as u8);
    } else {
        push_decimal(out, n / 10);
        out.push(((n % 10) + 48) as u8);
    }
}

/// Text of the header that precedes a message body.
pub open spec fn header_prefix() -> Seq<u8> {
    content_length_name() + seq![58u8, 32]
}

/// A message as it goes on the wire: `Content-Length: <n>\\r\\n\\r\\n`
/// followed by the `n` bytes of `body`.
pub open spec fn framed(body: Seq<u8>) -> Seq<u8> {
    header_prefix() + decimal(body.len()) + seq![13u8, 10, 13, 10] + body
}

/// Frames `body` for sending.
pub fn frame_message(body: &Vec<u8>) -> (r: Vec<u8>)
    ensures
        r@ == framed(body@),
{
    let prefix: [u8; 16] = [67, 111, 110, 116, 101, 110, 116, 45, 76, 101, 110, 103, 116, 104, 58, 32];
    let mut out: Vec<u8> = Vec::new();
    let mut i: usize = 0;
    while i < 16
        invariant
            0 <= i <= 16,
            out@ == prefix@.take(i as int),
        decreases 16 - i,
    {
        out.push(prefix[i]);
        proof {
            assert(prefix@.take(i + 1) == prefix@.take(i as int).push(prefix@[i as int]));
        }
        i = i + 1;
    }
    assert(prefix@.take(16) =~= header_prefix());
    push_decimal(&mut out, body.len());
    out.push(13);
    out.push(10);
    out.push(13);
    out.push(10);
    let ghost head = out@;
    assert(head =~= header_prefix() + decimal(body@.len()) + seq![13u8, 10, 13, 10]);
    let mut j: usize = 0;
    while j < body.len()
        invariant
            0 <= j <= body@.len(),
            out@ == head + body@.take(j as int),
        decreases body@.len() - j,
    {
        out.push(body[j]);
        proof {
            assert(body@.take(j + 1) == body@.take(j as int).push(body@[j as int]));
        }
        j = j + 1;
    }
    assert(body@.take(j as int) == body@);
    out
}


/// Requests sent and not yet answered, each with what to do on its
/// response. Ids are handed out in increasing order, starting at zero.
pub struct PendingRequests<T> {
    next_id: u64,
    pending: Vec<(u64, T)>,
}

/// The pending requests as their contracts speak of them: the next id and
/// the (id, handler) pairs in the order the requests were sent.
pub ghost struct PendingView<T> {
    pub next_id: u64,
    pub pending: Seq<(u64, T)>,
}

impl<T> PendingView<T> {
    pub open spec fn wf(self) -> bool {
        &&& forall|i: int, j: int| 0 <= i < j < self.pending.len() ==> self.pending[i].0 < self.pending[j].0
        &&& forall|i: int| 0 <= i < self.pending.len() ==> self.pending[i].0 < self.next_id
    }

    pub open spec fn holds(self, id: u64) -> bool {
        exists|i: int| 0 <= i < self.pending.len() && self.pending[i].0 == id
    }
}

impl<T> View for PendingRequests<T> {
    type V = PendingView<T>;

    closed spec fn view(&self) -> PendingView<T> {
        PendingView { next_id: self.next_id, pending: self.pending@ }
    }
}

impl<T> PendingRequests<T> {
    pub fn new() -> (r: Self)
        ensures
            r@.wf(),
            r@.next_id == 0,
            r@.pending.len() == 0,
    {
        PendingRequests { next_id: 0, pending: Vec::new() }
    }

    /// Records a request and returns its id; `None` once the ids are used
    /// up.
    pub fn push(&mut self, handler: T) -> (r: Option<u64>)
        requires
            old(self)@.wf(),
        ensures
            final(self)@.wf(),
            old(self)@.next_id < u64::MAX ==> r == Some(old(self)@.next_id) && final(self)@.next_id
                == old(self)@.next_id + 1 && final(self)@.pending == old(self)@.pending.push(
                (old(self)@.next_id, handler),
            ),
            old(self)@.next_id == u64::MAX ==> r is None && final(self)@ == old(self)@,
    {
        if self.next_id == u64::MAX {
            return None;
        }
        let id = self.next_id;
        let ghost before = self.pending@;
        assert(self@.pending == before && self@.next_id == id);
        assert(forall|a: int, b: int| 0 <= a < b < before.len() ==> before[a].0 < before[b].0);
        assert(forall|a: int| 0 <= a < before.len() ==> before[a].0 < id);
        self.pending.push((id, handler));
        self.next_id = id + 1;
        proof {
            assert forall|a: int, b: int| 0 <= a < b < self.pending@.len() implies self.pending@[a].0 < self.pending@[b].0 by {
                if b < before.len() {
                    assert(before[a].0 < before[b].0);
                } else {
                    assert(before[a].0 < id);
                }
            }
            assert forall|a: int| 0 <= a < self.pending@.len() implies self.pending@[a].0 < self.next_id by {
                if a < before.len() {
                    assert(before[a].0 < id);
                }
            }
        }
        Some(id)
    }

    /// Takes the handler of request `id` out; `None` when no pending request
    /// has that id.
    pub fn take(&mut self, id: u64) -> (r: Option<T>)
        requires
            old(self)@.wf(),
        ensures
            final(self)@.wf(),
            final(self)@.next_id == old(self)@.next_id,
            match r {
                Some(h) => exists|i: int|
                    0 <= i < old(self)@.pending.len() && old(self)@.pending[i] == (id, h) && final(self)@.pending
                        == old(self)@.pending.remove(i),
                None => !old(self)@.holds(id) && final(self)@.pending == old(self)@.pending,
            },
    {
        let ghost before = self.pending@;
        assert(self@.pending == before);
        assert(forall|a: int, b: int| 0 <= a < b < before.len() ==> before[a].0 < before[b].0);
        assert(forall|a: int| 0 <= a < before.len() ==> before[a].0 < self.next_id);
        let n = self.pending.len();
        let mut i: usize = 0;
        while i < n && self.pending[i].0 != id
            invariant
                n == before.len(),
                self.pending@ == before,
                0 <= i <= n,
                forall|j: int| 0 <= j < i ==> before[j].0 != id,
            decreases n - i,
        {
            i = i + 1;
        }
        if i == n {
            return None;
        }
        let (_, handler) = self.pending.remove(i);
        proof {
            assert forall|a: int, b: int| 0 <= a < b < self.pending@.len() implies self.pending@[a].0 < self.pending@[b].0 by {
                let a2 = if a < i { a } else { a + 1 };
                let b2 = if b < i { b } else { b + 1 };
                assert(self.pending@[a] == before[a2] && self.pending@[b] == before[b2]);
                assert(before[a2].0 < before[b2].0);
            }
            assert forall|a: int| 0 <= a < self.pending@.len() implies self.pending@[a].0 < self.next_id by {
                let a2 = if a < i { a } else { a + 1 };
                assert(self.pending@[a] == before[a2]);
                assert(before[a2].0 < self.next_id);
            }
        }
        Some(handler)
    }

    pub fn len(&self) -> (r: usize)
        ensures
            r == self@.pending.len(),
    {
        self.pending.len()
    }
}


proof fn lemma_decimal(n: nat)
    ensures
        decimal(n).len() >= 1,
        all_digits(decimal(n)),
        digits_value(decimal(n)) == n,
    decreases n,
{
    if n >= 10 {
        lemma_decimal(n / 10);
        let d = decimal(n / 10);
        let e = decimal(n);
        assert(e == d.push(((n % 10) + 48) as u8));
        assert(e.drop_last() == d);
        assert forall|j: int| 0 <= j < e.len() implies is_digit(#[trigger] e[j]) by {
            if j < d.len() {
                assert(e[j] == d[j]);
            }
        }
        assert(e.last() == ((n % 10) + 48) as u8);
        assert((e.last() - 48) as nat == n % 10);
        assert(digits_value(e) == digits_value(d) * 10 + (n % 10));
        assert(n == (n / 10) * 10 + n % 10);
    } else {
        let e = decimal(n);
        assert(e.drop_last() =~= Seq::<u8>::empty());
        assert(digits_value(e.drop_last()) == 0);
        assert(e.last() == (n + 48) as u8);
        assert(digits_value(e) == digits_value(e.drop_last()) * 10 + (e.last() - 48) as nat);
    }
}

/// The header line that precedes a body of `n` bytes.
pub open spec fn length_line(n: nat) -> Seq<u8> {
    header_prefix() + decimal(n) + seq![13u8, 10]
}

/// Reading back the header of a framed message gives the body's length: the
/// framed bytes are the `Content-Length` line, a blank line and the body, and
/// those two header lines give the body's length.
pub proof fn lemma_framed_length_round_trip(body: Seq<u8>)
    requires
        body.len() <= usize::MAX,
    ensures
        framed(body) == length_line(body.len()) + seq![13u8, 10] + body,
        content_length_spec(seq![length_line(body.len()), seq![13u8, 10]], None) == Ok::<usize, HeaderError>(
            body.len() as usize,
        ),
{
    let n = body.len();
    let dec = decimal(n);
    lemma_decimal(n);
    let line = length_line(n);
    assert(framed(body) =~= line + seq![13u8, 10] + body);
    let h = header_prefix() + dec;
    assert(line == h + seq![13u8, 10]);
    assert(line.len() == h.len() + 2);
    assert(h.len() == 16 + dec.len());
    // the trimmed line is the line without its line break
    assert(is_digit(dec[dec.len() - 1]));
    assert(line[h.len() - 1] == dec[dec.len() - 1]);
    assert(trim_bounds(line, 0, h.len() as int)) by {
        assert(line[0] == 67);
        assert(line[h.len() as int] == 13 && line[h.len() as int + 1] == 10);
    }
    let (a2, b2) = choose|a2: int, b2: int| trim_bounds(line, a2, b2);
    lemma_trim_bounds_unique(line, 0, h.len() as int, a2, b2);
    assert(line.subrange(0, h.len() as int) =~= h);
    assert(trimmed(line) == h);
    // the first ": " follows the header name
    assert(first_separator(h, 14)) by {
        assert forall|j: int| 0 <= j < 14 implies !#[trigger] separator_at(h, j) by {
            assert(h[j] == content_length_name()[j]);
        }
    }
    let k = choose|k: int| first_separator(h, k);
    if k < 14 {
        assert(!separator_at(h, k));
    }
    if k > 14 {
        assert(!separator_at(h, 14));
    }
    assert(h.subrange(0, 14) =~= content_length_name());
    assert(h.subrange(16, h.len() as int) =~= dec);
    assert(unsigned_part(dec) == dec) by {
        assert(is_digit(dec[0]));
    }
    assert(header_line_spec(line) == Ok::<HeaderLine, HeaderError>(HeaderLine::ContentLength(n as usize)));
    // the blank line ends the block
    let blank = seq![13u8, 10];
    assert(trim_bounds(blank, 2, 2));
    let (a3, b3) = choose|a3: int, b3: int| trim_bounds(blank, a3, b3);
    lemma_trim_bounds_unique(blank, 2, 2, a3, b3);
    assert(trimmed(blank).len() == 0);
    let lines = seq![line, blank];
    assert(lines[0] == line);
    assert(lines.drop_first() =~= seq![blank]);
    assert(seq![blank][0] == blank);
    assert(header_line_spec(blank) == Ok::<HeaderLine, HeaderError>(HeaderLine::End));
    assert(content_length_spec(seq![blank], Some(n as usize)) == Ok::<usize, HeaderError>(n as usize));
    assert(content_length_spec(lines, None) == content_length_spec(lines.drop_first(), Some(n as usize)));
}

} // verus!
