use vstd::prelude::*;
use vstd::slice::{slice_subrange, slice_to_vec};

verus! {

/// Errors of the response reader.  A transport failure is fatal to the
/// current request; a protocol violation (malformed status line, header
/// line without a separator, unparsable length, or no terminator within
/// the line buffer's capacity) is a fatal parse error.  No retries
/// happen at this layer.
#[derive(Debug, Clone, Copy, PartialEq, Eq, Structural)]
pub enum HttpError {
    IoError,
    ProtocolError,
}

/// Capacity of the small fixed-size strings that hold captured header
/// values.
pub const HTTP_STRING_CAPACITY: usize = 32;

/// `s` cut down to the capacity of an HttpString.
pub open spec fn spec_truncated(s: Seq<u8>) -> Seq<u8> {
    if s.len() <= HTTP_STRING_CAPACITY {
        s
    } else {
        s.take(HTTP_STRING_CAPACITY as int)
    }
}

/// A small fixed-capacity byte string; bytes past the capacity are
/// dropped on construction.
#[derive(Debug, Clone)]
pub struct HttpString {
    data: Vec<u8>,
}

impl View for HttpString {
    type V = Seq<u8>;

    closed spec fn view(&self) -> Seq<u8> {
        self.data@
    }
}

impl HttpString {
    pub open spec fn wf(self) -> bool {
        self@.len() <= HTTP_STRING_CAPACITY
    }

    /// Keeps at most the capacity's worth of `bytes`.
    pub fn from_bytes(bytes: &[u8]) -> (r: HttpString)
        ensures
            r@ == spec_truncated(bytes@),
            r.wf(),
    {
        let len = if bytes.len() <= HTTP_STRING_CAPACITY {
            bytes.len()
        } else {
            HTTP_STRING_CAPACITY
        };
        let data = slice_to_vec(slice_subrange(bytes, 0, len));
        proof {
            assert(data@ =~= spec_truncated(bytes@));
        }
        HttpString { data }
    }

    pub fn as_bytes(&self) -> (r: &[u8])
        ensures
            r@ == self@,
    {
        self.data.as_slice()
    }

    pub fn len(&self) -> (r: usize)
        ensures
            r == self@.len(),
    {
        self.data.len()
    }
}

impl Default for HttpString {
    /// The empty string.
    fn default() -> (r: HttpString)
        ensures
            r@ == Seq::<u8>::empty(),
            r.wf(),
    {
        HttpString { data: Vec::new() }
    }
}

/// One caller-supplied request header: a name and a value.
#[derive(Debug, Clone)]
pub struct HeaderField {
    name: Vec<u8>,
    value: Vec<u8>,
}

impl View for HeaderField {
    type V = (Seq<u8>, Seq<u8>);

    closed spec fn view(&self) -> (Seq<u8>, Seq<u8>) {
        (self.name@, self.value@)
    }
}

impl HeaderField {
    pub fn new(name: &[u8], value: &[u8]) -> (r: HeaderField)
        ensures
            r@ == (name@, value@),
    {
        HeaderField { name: slice_to_vec(name), value: slice_to_vec(value) }
    }
}

/// Index of the first occurrence of `b` in `s` at or after `from`.
pub open spec fn find_byte(s: Seq<u8>, b: u8, from: int) -> Option<int>
    decreases s.len() - from when 0 <= from <= s.len()
{
    if from < 0 || from >= s.len() {
        None
    } else if s[from] == b {
        Some(from)
    } else {
        find_byte(s, b, from + 1)
    }
}

fn find_byte_from(s: &[u8], b: u8, from: usize) -> (r: Option<usize>)
    requires
        from <= s@.len(),
    ensures
        match r {
            Option::None => find_byte(s@, b, from as int) is None,
            Option::Some(j) => find_byte(s@, b, from as int) == Some(j as int) && from <= j
                < s@.len(),
        },
{
    let mut j = from;
    while j < s.len() && s[j] != b
        invariant
            from <= j <= s@.len(),
            find_byte(s@, b, from as int) == find_byte(s@, b, j as int),
        decreases s@.len() - j,
    {
        j = j + 1;
    }
    if j == s.len() {
        Option::None
    } else {
        Option::Some(j)
    }
}

/// ASCII whitespace, as header values and the version text are trimmed.
pub open spec fn is_ws(b: u8) -> bool {
    b == 0x20 || (0x09 <= b <= 0x0d)
}

/// Index of the first non-whitespace byte at or after `from`, or the
/// length when all of the rest is whitespace.
pub open spec fn first_non_ws(s: Seq<u8>, from: int) -> int
    decreases s.len() - from when 0 <= from <= s.len()
{
    if from < 0 || from >= s.len() {
        s.len() as int
    } else if is_ws(s[from]) {
        first_non_ws(s, from + 1)
    } else {
        from
    }
}

/// One past the index of the last non-whitespace byte before `upto`,
/// or 0 when all of it is whitespace.
pub open spec fn last_non_ws(s: Seq<u8>, upto: int) -> int
    decreases upto when 0 <= upto <= s.len()
{
    if upto <= 0 || upto > s.len() {
        0
    } else if is_ws(s[upto - 1]) {
        last_non_ws(s, upto - 1)
    } else {
        upto
    }
}

/// `s` with leading and trailing ASCII whitespace removed.
pub open spec fn trim_spec(s: Seq<u8>) -> Seq<u8> {
    let start = first_non_ws(s, 0);
    let end = last_non_ws(s, s.len() as int);
    if start <= end {
        s.subrange(start, end)
    } else {
        Seq::empty()
    }
}

proof fn lemma_first_non_ws_bounds(s: Seq<u8>, from: int)
    requires
        0 <= from <= s.len(),
    ensures
        from <= first_non_ws(s, from) <= s.len(),
    decreases s.len() - from,
{
    if from < s.len() && is_ws(s[from]) {
        lemma_first_non_ws_bounds(s, from + 1);
    }
}

proof fn lemma_last_non_ws_bounds(s: Seq<u8>, upto: int)
    requires
        0 <= upto <= s.len(),
    ensures
        0 <= last_non_ws(s, upto) <= upto,
    decreases upto,
{
    if upto > 0 && is_ws(s[upto - 1]) {
        lemma_last_non_ws_bounds(s, upto - 1);
    }
}

fn is_ws_byte(b: u8) -> (r: bool)
    ensures
        r == is_ws(b),
{
    b == 0x20 || (0x09 <= b && b <= 0x0d)
}

/// Strips leading and trailing ASCII whitespace.
pub fn trim_bytes(s: &[u8]) -> (r: Vec<u8>)
    ensures
        r@ == trim_spec(s@),
{
    let len = s.len();
    let mut start: usize = 0;
    while start < len && is_ws_byte(s[start])
        invariant
            start <= len,
            len == s@.len(),
            first_non_ws(s@, 0) == first_non_ws(s@, start as int),
        decreases len - start,
    {
        start = start + 1;
    }
    let mut end: usize = len;
    while end > start && is_ws_byte(s[end - 1])
        invariant
            start <= end <= len,
            len == s@.len(),
            last_non_ws(s@, len as int) == last_non_ws(s@, end as int),
        decreases end,
    {
        end = end - 1;
    }
    let r = slice_to_vec(slice_subrange(s, start, end));
    proof {
        lemma_first_non_ws_bounds(s@, start as int);
        lemma_last_non_ws_bounds(s@, end as int);
        if start < end {
            assert(first_non_ws(s@, 0) == start);
            assert(last_non_ws(s@, len as int) == end);
        } else {
            assert(r@ =~= trim_spec(s@));
        }
    }
    r
}

/// The byte with an ASCII capital letter folded to lower case.
pub open spec fn lower_byte(b: u8) -> u8 {
    if 0x41 <= b <= 0x5a {
        (b + 0x20) as u8
    } else {
        b
    }
}

/// Byte strings equal up to ASCII case, as header names compare.
pub open spec fn eq_ignore_case(a: Seq<u8>, b: Seq<u8>) -> bool {
    a.len() == b.len() && forall|i: int| 0 <= i < a.len() ==> lower_byte(a[i]) == lower_byte(b[i])
}

pub fn eq_ignore_ascii_case_bytes(a: &[u8], b: &[u8]) -> (r: bool)
    ensures
        r == eq_ignore_case(a@, b@),
{
    if a.len() != b.len() {
        return false;
    }
    let mut i: usize = 0;
    while i < a.len()
        invariant
            i <= a@.len(),
            a@.len() == b@.len(),
            forall|j: int| 0 <= j < i ==> lower_byte(a@[j]) == lower_byte(b@[j]),
        decreases a@.len() - i,
    {
        let x = a[i];
        let y = b[i];
        let lx = if 0x41 <= x && x <= 0x5a {
            x + 0x20
        } else {
            x
        };
        let ly = if 0x41 <= y && y <= 0x5a {
            y + 0x20
        } else {
            y
        };
        if lx != ly {
            return false;
        }
        i = i + 1;
    }
    true
}

/// The value of a string of ASCII decimal digits, most significant
/// first.
pub open spec fn dec_val(s: Seq<u8>) -> int
    decreases s.len(),
{
    if s.len() == 0 {
        0
    } else {
        dec_val(s.drop_last()) * 10 + (s.last() - 0x30)
    }
}

pub open spec fn all_digits(s: Seq<u8>) -> bool {
    forall|i: int| 0 <= i < s.len() ==> 0x30 <= #[trigger] s[i] <= 0x39
}

/// Parse of a nonempty all-digit string whose value fits under `max`;
/// anything else is rejected.
pub open spec fn parse_dec_spec(s: Seq<u8>, max: u32) -> Option<u32> {
    if s.len() > 0 && all_digits(s) && dec_val(s) <= max {
        Some(dec_val(s) as u32)
    } else {
        None
    }
}

proof fn lemma_dec_val_nonneg(s: Seq<u8>)
    requires
        all_digits(s),
    ensures
        dec_val(s) >= 0,
    decreases s.len(),
{
    if s.len() > 0 {
        assert(all_digits(s.drop_last()));
        lemma_dec_val_nonneg(s.drop_last());
    }
}

proof fn lemma_dec_val_prefix_le(s: Seq<u8>, k: int)
    requires
        all_digits(s),
        0 <= k <= s.len(),
    ensures
        dec_val(s.take(k)) <= dec_val(s),
    decreases s.len() - k,
{
    if k == s.len() {
        assert(s.take(k) =~= s);
    } else {
        assert(all_digits(s.take(k)));
        lemma_dec_val_nonneg(s.take(k));
        assert(s.take(k + 1).drop_last() =~= s.take(k));
        assert(s.take(k + 1).last() == s[k]);
        lemma_dec_val_prefix_le(s, k + 1);
    }
}

/// Parses an unsigned decimal integer bounded by `max`, rejecting the
/// empty string, any non-digit byte and any value past the bound.
pub fn parse_dec(s: &[u8], max: u32) -> (r: Option<u32>)
    ensures
        r == parse_dec_spec(s@, max),
{
    if s.len() == 0 {
        return Option::None;
    }
    let mut acc: u64 = 0;
    let mut i: usize = 0;
    while i < s.len()
        invariant
            0 < s@.len(),
            i <= s@.len(),
            all_digits(s@.take(i as int)),
            acc == dec_val(s@.take(i as int)),
            acc <= max,
        decreases s@.len() - i,
    {
        let b = s[i];
        if b < 0x30 || b > 0x39 {
            assert(!all_digits(s@));
            return Option::None;
        }
        let d = (b - 0x30) as u64;
        let next = acc * 10 + d;
        proof {
            assert(s@.take(i as int + 1).drop_last() =~= s@.take(i as int));
            assert(s@.take(i as int + 1).last() == s@[i as int]);
        }
        if next > max as u64 {
            proof {
                if all_digits(s@) {
                    lemma_dec_val_prefix_le(s@, i as int + 1);
                }
            }
            return Option::None;
        }
        acc = next;
        i = i + 1;
    }
    proof {
        assert(s@.take(s@.len() as int) =~= s@);
    }
    Option::Some(acc as u32)
}

/// The header name that carries the declared body length.
pub open spec fn content_length_name() -> Seq<u8> {
    seq![0x63u8, 0x6fu8, 0x6eu8, 0x74u8, 0x65u8, 0x6eu8, 0x74u8, 0x2du8, 0x6cu8, 0x65u8, 0x6eu8, 0x67u8, 0x74u8, 0x68u8]
}

fn make_content_length_name() -> (r: Vec<u8>)
    ensures
        r@ == content_length_name(),
{
    let mut v: Vec<u8> = Vec::new();
    v.push(0x63);
    v.push(0x6f);
    v.push(0x6e);
    v.push(0x74);
    v.push(0x65);
    v.push(0x6e);
    v.push(0x74);
    v.push(0x2d);
    v.push(0x6c);
    v.push(0x65);
    v.push(0x6e);
    v.push(0x67);
    v.push(0x74);
    v.push(0x68);
    proof {
        assert(v@ =~= content_length_name());
    }
    v
}

/// The header name that carries the content type.
pub open spec fn content_type_name() -> Seq<u8> {
    seq![0x63u8, 0x6fu8, 0x6eu8, 0x74u8, 0x65u8, 0x6eu8, 0x74u8, 0x2du8, 0x74u8, 0x79u8, 0x70u8, 0x65u8]
}

fn make_content_type_name() -> (r: Vec<u8>)
    ensures
        r@ == content_type_name(),
{
    let mut v: Vec<u8> = Vec::new();
    v.push(0x63);
    v.push(0x6f);
    v.push(0x6e);
    v.push(0x74);
    v.push(0x65);
    v.push(0x6e);
    v.push(0x74);
    v.push(0x2d);
    v.push(0x74);
    v.push(0x79);
    v.push(0x70);
    v.push(0x65);
    proof {
        assert(v@ =~= content_type_name());
    }
    v
}

/// The request-line prefix.
pub open spec fn get_prefix() -> Seq<u8> {
    seq![0x47u8, 0x45u8, 0x54u8, 0x20u8]
}

fn make_get_prefix() -> (r: Vec<u8>)
    ensures
        r@ == get_prefix(),
{
    let mut v: Vec<u8> = Vec::new();
    v.push(0x47);
    v.push(0x45);
    v.push(0x54);
    v.push(0x20);
    proof {
        assert(v@ =~= get_prefix());
    }
    v
}

/// The request-line suffix.
pub open spec fn http10_suffix() -> Seq<u8> {
    seq![0x20u8, 0x48u8, 0x54u8, 0x54u8, 0x50u8, 0x2fu8, 0x31u8, 0x2eu8, 0x30u8, 0x0du8, 0x0au8]
}

fn make_http10_suffix() -> (r: Vec<u8>)
    ensures
        r@ == http10_suffix(),
{
    let mut v: Vec<u8> = Vec::new();
    v.push(0x20);
    v.push(0x48);
    v.push(0x54);
    v.push(0x54);
    v.push(0x50);
    v.push(0x2f);
    v.push(0x31);
    v.push(0x2e);
    v.push(0x30);
    v.push(0x0d);
    v.push(0x0a);
    proof {
        assert(v@ =~= http10_suffix());
    }
    v
}

/// The host-header prefix.
pub open spec fn host_prefix() -> Seq<u8> {
    seq![0x48u8, 0x6fu8, 0x73u8, 0x74u8, 0x3au8, 0x20u8]
}

fn make_host_prefix() -> (r: Vec<u8>)
    ensures
        r@ == host_prefix(),
{
    let mut v: Vec<u8> = Vec::new();
    v.push(0x48);
    v.push(0x6f);
    v.push(0x73);
    v.push(0x74);
    v.push(0x3a);
    v.push(0x20);
    proof {
        assert(v@ =~= host_prefix());
    }
    v
}

/// The separator between a header name and its value.
pub open spec fn colon_space() -> Seq<u8> {
    seq![0x3au8, 0x20u8]
}

fn make_colon_space() -> (r: Vec<u8>)
    ensures
        r@ == colon_space(),
{
    let mut v: Vec<u8> = Vec::new();
    v.push(0x3a);
    v.push(0x20);
    proof {
        assert(v@ =~= colon_space());
    }
    v
}

/// The line terminator of the wire protocol.
pub open spec fn crlf() -> Seq<u8> {
    seq![0x0du8, 0x0au8]
}

fn make_crlf() -> (r: Vec<u8>)
    ensures
        r@ == crlf(),
{
    let mut v: Vec<u8> = Vec::new();
    v.push(0x0d);
    v.push(0x0a);
    proof {
        assert(v@ =~= crlf());
    }
    v
}

/// The space byte, the status line's token separator.
pub const SP: u8 = 0x20;

/// The colon byte, the header name/value separator.
pub const COLON: u8 = 0x3a;

/// Capacity of the reader's line buffer: a header line longer than
/// this without a terminator is a fatal protocol violation, which
/// bounds the scan.
pub const LINE_CAPACITY: usize = 1024;

/// `s` with one trailing carriage return stripped.
pub open spec fn strip_cr(s: Seq<u8>) -> Seq<u8> {
    if s.len() > 0 && s.last() == crate::buffer::CR {
        s.drop_last()
    } else {
        s
    }
}

/// The status line's second space-separated token, where the numeric
/// code stands; `None` when the line has no space at all.
pub open spec fn status_token(line: Seq<u8>) -> Option<Seq<u8>> {
    match find_byte(line, SP, 0) {
        Option::None => None,
        Option::Some(i) => match find_byte(line, SP, i + 1) {
            Option::None => Some(line.subrange(i + 1, line.len() as int)),
            Option::Some(j) => Some(line.subrange(i + 1, j)),
        },
    }
}

/// The numeric status code of a status line, or `None` when the line
/// is malformed.  The reason text after the code is discarded.
pub open spec fn parse_status_code(line: Seq<u8>) -> Option<u16> {
    match status_token(line) {
        Option::None => None,
        Option::Some(t) => match parse_dec_spec(t, 0xffff) {
            Option::None => None,
            Option::Some(v) => Some(v as u16),
        },
    }
}

/// A header line split at its first colon: the trimmed name and the
/// trimmed value, where the value runs to the next colon or to the end
/// of the line.  `None` when no colon is present.
pub open spec fn header_parts(line: Seq<u8>) -> Option<(Seq<u8>, Seq<u8>)> {
    match find_byte(line, COLON, 0) {
        Option::None => None,
        Option::Some(i) => {
            let name = trim_spec(line.take(i));
            let raw = match find_byte(line, COLON, i + 1) {
                Option::None => line.subrange(i + 1, line.len() as int),
                Option::Some(j) => line.subrange(i + 1, j),
            };
            Some((name, trim_spec(raw)))
        },
    }
}

/// Every wanted header whose name matches captures the value, by
/// position; the others keep what they had.
pub open spec fn spec_capture(
    vals: Seq<Seq<u8>>,
    wanted: Seq<Seq<u8>>,
    name: Seq<u8>,
    value: Seq<u8>,
) -> Seq<Seq<u8>>
    recommends
        vals.len() == wanted.len(),
{
    Seq::new(
        vals.len(),
        |i: int|
            if eq_ignore_case(name, wanted[i]) {
                spec_truncated(value)
            } else {
                vals[i]
            },
    )
}

/// States of the response reader.  `Failed` is reachable from every
/// state on a transport error or a protocol violation.
#[derive(Debug, Clone, Copy, PartialEq, Eq, Structural)]
pub enum ResponseState {
    AwaitingRequestSent,
    ReceivingHeaders,
    ReceivingBody,
    Complete,
    Failed,
}

/// The reader as the contracts see it.
#[verifier::ext_equal]
pub ghost struct ReaderModel {
    pub state: ResponseState,
    /// Whether the status line was already consumed.
    pub saw_status: bool,
    pub code: u16,
    pub content_length: u32,
    pub content_type: Seq<u8>,
    /// The caller-wanted header names, fixed at creation.
    pub wanted: Seq<Seq<u8>>,
    /// The captured values, one per wanted name.
    pub header_vals: Seq<Seq<u8>>,
    /// Bytes of the current, not yet terminated header line.
    pub pending: Seq<u8>,
    /// The line buffer's capacity.
    pub cap: int,
}

impl ReaderModel {
    pub open spec fn wf(self) -> bool {
        &&& 0 <= self.cap
        &&& self.pending.len() <= self.cap
        &&& forall|i: int|
            0 <= i < self.pending.len() ==> self.pending[i] != crate::buffer::NL
        &&& self.header_vals.len() == self.wanted.len()
    }
}

/// What one completed header-section line does to the reader.  The
/// first line must carry a numeric status code; a blank line ends the
/// header section; any other line is a header, where an unparsable
/// line, or an unparsable declared length, fails the response.
pub open spec fn spec_process_line(m: ReaderModel, line: Seq<u8>) -> ReaderModel {
    if !m.saw_status {
        match parse_status_code(line) {
            Option::None => ReaderModel { state: ResponseState::Failed, ..m },
            Option::Some(c) => ReaderModel { saw_status: true, code: c, ..m },
        }
    } else if line.len() == 0 {
        ReaderModel { state: ResponseState::ReceivingBody, ..m }
    } else {
        match header_parts(line) {
            Option::None => ReaderModel { state: ResponseState::Failed, ..m },
            Option::Some(p) => {
                if eq_ignore_case(p.0, content_length_name()) {
                    match parse_dec_spec(p.1, 0xffffffff) {
                        Option::None => ReaderModel { state: ResponseState::Failed, ..m },
                        Option::Some(v) => ReaderModel { content_length: v, ..m },
                    }
                } else if eq_ignore_case(p.0, content_type_name()) {
                    ReaderModel { content_type: spec_truncated(p.1), ..m }
                } else {
                    ReaderModel {
                        header_vals: spec_capture(m.header_vals, m.wanted, p.0, p.1),
                        ..m
                    }
                }
            },
        }
    }
}

/// What feeding `input` to the reader does, and which bytes come out
/// as body.  In the body state every byte is body output.  In the
/// headers state bytes accumulate until a terminator completes a line
/// and each line is processed in turn; the bytes after the blank line
/// are the first body output, and a line that outgrows the buffer
/// capacity fails the response.  The result is a function of the state
/// and the bytes alone, so how the stream fragments its bytes cannot
/// change what is parsed.
pub open spec fn spec_feed(m: ReaderModel, input: Seq<u8>) -> (ReaderModel, Seq<u8>)
    decreases input.len(),
{
    if m.state == ResponseState::ReceivingBody {
        (m, input)
    } else if m.state != ResponseState::ReceivingHeaders {
        (m, Seq::empty())
    } else if input.len() == 0 {
        (m, Seq::empty())
    } else if m.pending.len() >= m.cap {
        (ReaderModel { state: ResponseState::Failed, ..m }, Seq::empty())
    } else {
        let b = input[0];
        let rest = input.skip(1);
        if b == crate::buffer::NL {
            let m2 = spec_process_line(
                ReaderModel { pending: Seq::empty(), ..m },
                strip_cr(m.pending),
            );
            if m2.state == ResponseState::ReceivingBody {
                (m2, rest)
            } else if m2.state == ResponseState::Failed {
                (m2, Seq::empty())
            } else {
                spec_feed(m2, rest)
            }
        } else {
            spec_feed(ReaderModel { pending: m.pending.push(b), ..m }, rest)
        }
    }
}


/// Fragmentation cannot change what is parsed: feeding a stream in two
/// pieces leaves the reader exactly as feeding their concatenation
/// does, and yields the same body bytes in order, as long as the first
/// piece did not already fail the response.
pub proof fn lemma_feed_compose(m: ReaderModel, a: Seq<u8>, b: Seq<u8>)
    requires
        m.state == ResponseState::ReceivingHeaders || m.state == ResponseState::ReceivingBody,
        spec_feed(m, a).0.state != ResponseState::Failed,
    ensures
        ({
            let m1 = spec_feed(m, a).0;
            let o1 = spec_feed(m, a).1;
            let m2 = spec_feed(m1, b).0;
            let o2 = spec_feed(m1, b).1;
            spec_feed(m, a + b) == (m2, o1 + o2)
        }),
    decreases a.len(),
{
    if m.state == ResponseState::ReceivingBody {
        assert(a + b =~= spec_feed(m, a).1 + spec_feed(m, b).1);
    } else if a.len() == 0 {
        assert(a + b =~= b);
        assert(Seq::<u8>::empty() + spec_feed(m, b).1 =~= spec_feed(m, b).1);
    } else if m.pending.len() >= m.cap {
        assert(false);
    } else {
        let x = a[0];
        assert((a + b)[0] == x);
        assert((a + b).skip(1) =~= a.skip(1) + b);
        if x == crate::buffer::NL {
            let mm = spec_process_line(
                ReaderModel { pending: Seq::empty(), ..m },
                strip_cr(m.pending),
            );
            if mm.state == ResponseState::ReceivingBody {
                assert(spec_feed(m, a) == (mm, a.skip(1)));
                assert(spec_feed(mm, b) == (mm, b));
                assert(spec_feed(m, a + b) == (mm, (a + b).skip(1)));
                assert((a + b).skip(1) =~= a.skip(1) + b);
            } else if mm.state == ResponseState::Failed {
                assert(false);
            } else {
                assert(spec_feed(m, a) == spec_feed(mm, a.skip(1)));
                assert(spec_feed(m, a + b) == spec_feed(mm, (a + b).skip(1)));
                lemma_feed_compose(mm, a.skip(1), b);
            }
        } else {
            let mp = ReaderModel { pending: m.pending.push(x), ..m };
            assert(spec_feed(m, a) == spec_feed(mp, a.skip(1)));
            assert(spec_feed(m, a + b) == spec_feed(mp, (a + b).skip(1)));
            lemma_feed_compose(mp, a.skip(1), b);
        }
    }
}

/// Streaming reader of one response: consumes stream bytes as they
/// arrive, parses the status line and the headers with bounded memory,
/// and yields the body bytes.  One parsing state machine serves both a
/// blocking and a polled byte source: the owner hands every received
/// chunk to `feed` and reports the end of the stream with `eof`.
pub struct ResponseReader {
    state: ResponseState,
    saw_status: bool,
    code: u16,
    content_length: u32,
    content_type: HttpString,
    wanted: Vec<Vec<u8>>,
    headers: Vec<HttpString>,
    buffer: crate::buffer::ByteBuffer,
}

impl View for ResponseReader {
    type V = ReaderModel;

    closed spec fn view(&self) -> ReaderModel {
        ReaderModel {
            state: self.state,
            saw_status: self.saw_status,
            code: self.code,
            content_length: self.content_length,
            content_type: self.content_type@,
            wanted: self.wanted@.map_values(|w: Vec<u8>| w@),
            header_vals: self.headers@.map_values(|h: HttpString| h@),
            pending: self.buffer.contents(),
            cap: self.buffer.cap(),
        }
    }
}

impl ResponseReader {
    /// Representation facts the methods preserve.
    pub closed spec fn inv(self) -> bool {
        &&& self.buffer.wf()
        &&& self.buffer.read_pos() == 0
    }

    pub open spec fn wf(self) -> bool {
        self.inv() && self@.wf()
    }

    /// A fresh reader awaiting its request, capturing the values of the
    /// given header names.
    pub fn new(wanted_headers: Vec<Vec<u8>>) -> (r: ResponseReader)
        ensures
            r.wf(),
            r@.state == ResponseState::AwaitingRequestSent,
            r@.saw_status == false,
            r@.code == 0,
            r@.content_length == 0,
            r@.content_type == Seq::<u8>::empty(),
            r@.wanted == wanted_headers@.map_values(|w: Vec<u8>| w@),
            r@.header_vals.len() == wanted_headers@.len(),
            forall|i: int|
                0 <= i < r@.header_vals.len() ==> r@.header_vals[i] == Seq::<u8>::empty(),
            r@.pending == Seq::<u8>::empty(),
            r@.cap == LINE_CAPACITY,
    {
        let n = wanted_headers.len();
        let mut headers: Vec<HttpString> = Vec::new();
        let mut k: usize = 0;
        while k < n
            invariant
                k <= n,
                headers@.len() == k,
                forall|i: int| 0 <= i < k ==> headers@[i]@ == Seq::<u8>::empty(),
                forall|i: int| 0 <= i < k ==> headers@[i].wf(),
            decreases n - k,
        {
            headers.push(HttpString::default());
            k = k + 1;
        }
        ResponseReader {
            state: ResponseState::AwaitingRequestSent,
            saw_status: false,
            code: 0,
            content_length: 0,
            content_type: HttpString::default(),
            wanted: wanted_headers,
            headers,
            buffer: crate::buffer::ByteBuffer::new(LINE_CAPACITY),
        }
    }

    /// The owner reports that the request bytes were fully sent; the
    /// reader starts receiving headers.
    pub fn request_sent(&mut self)
        requires
            old(self).wf(),
            old(self)@.state == ResponseState::AwaitingRequestSent,
        ensures
            final(self).wf(),
            final(self)@ == (ReaderModel { state: ResponseState::ReceivingHeaders, ..old(self)@ }),
    {
        self.state = ResponseState::ReceivingHeaders;
    }

    /// The owner reports a transport error: fatal to the request, from
    /// any state.
    pub fn fail(&mut self)
        requires
            old(self).wf(),
        ensures
            final(self).wf(),
            final(self)@ == (ReaderModel { state: ResponseState::Failed, ..old(self)@ }),
    {
        self.state = ResponseState::Failed;
    }

    /// The owner reports the end of the stream: the end-of-body signal
    /// while receiving the body, and a protocol violation while the
    /// headers are still incomplete.
    pub fn eof(&mut self)
        requires
            old(self).wf(),
            old(self)@.state == ResponseState::ReceivingHeaders || old(self)@.state
                == ResponseState::ReceivingBody,
        ensures
            final(self).wf(),
            final(self)@ == (ReaderModel {
                state: if old(self)@.state == ResponseState::ReceivingBody {
                    ResponseState::Complete
                } else {
                    ResponseState::Failed
                },
                ..old(self)@
            }),
    {
        if matches!(self.state, ResponseState::ReceivingBody) {
            self.state = ResponseState::Complete;
        } else {
            self.state = ResponseState::Failed;
        }
    }

    /// Applies one completed header line.
    fn process_line(&mut self, line: &[u8])
        requires
            old(self).wf(),
            old(self)@.state == ResponseState::ReceivingHeaders,
        ensures
            final(self).wf(),
            final(self)@ == spec_process_line(old(self)@, line@),
            final(self)@.pending == old(self)@.pending,
    {
        if !self.saw_status {
            match parse_status_line(line) {
                Option::None => {
                    self.state = ResponseState::Failed;
                },
                Option::Some(c) => {
                    self.saw_status = true;
                    self.code = c;
                },
            }
            proof {
                assert(final(self)@ =~= spec_process_line(old(self)@, line@));
            }
            return ;
        }
        if line.len() == 0 {
            self.state = ResponseState::ReceivingBody;
            proof {
                assert(final(self)@ =~= spec_process_line(old(self)@, line@));
            }
            return ;
        }
        match find_byte_from(line, COLON, 0) {
            Option::None => {
                self.state = ResponseState::Failed;
                proof {
                    assert(final(self)@ =~= spec_process_line(old(self)@, line@));
                }
            },
            Option::Some(i) => {
                let name = trim_bytes(slice_subrange(line, 0, i));
                let vend = match find_byte_from(line, COLON, i + 1) {
                    Option::None => line.len(),
                    Option::Some(j) => j,
                };
                let value = trim_bytes(slice_subrange(line, i + 1, vend));
                proof {
                    assert(line@.subrange(0, i as int) =~= line@.take(i as int));
                }
                let cl = make_content_length_name();
                let ct = make_content_type_name();
                if eq_ignore_ascii_case_bytes(name.as_slice(), cl.as_slice()) {
                    match parse_dec(value.as_slice(), 0xffffffff) {
                        Option::None => {
                            self.state = ResponseState::Failed;
                        },
                        Option::Some(v) => {
                            self.content_length = v;
                        },
                    }
                    proof {
                        assert(final(self)@ =~= spec_process_line(old(self)@, line@));
                    }
                } else if eq_ignore_ascii_case_bytes(name.as_slice(), ct.as_slice()) {
                    self.content_type = HttpString::from_bytes(value.as_slice());
                    proof {
                        assert(final(self)@ =~= spec_process_line(old(self)@, line@));
                    }
                } else {
                    let n = self.wanted.len();
                    let mut k: usize = 0;
                    while k < n
                        invariant
                            k <= n,
                            n == self.wanted@.len(),
                            self.headers@.len() == n,
                            self.state == old(self).state,
                            self.saw_status == old(self).saw_status,
                            self.code == old(self).code,
                            self.content_length == old(self).content_length,
                            self.content_type == old(self).content_type,
                            self.wanted == old(self).wanted,
                            self.buffer == old(self).buffer,
                            old(self).wf(),
                            forall|j: int|
                                0 <= j < k ==> self.headers@[j]@ == (if eq_ignore_case(
                                    name@,
                                    old(self)@.wanted[j],
                                ) {
                                    spec_truncated(value@)
                                } else {
                                    old(self)@.header_vals[j]
                                }),
                            forall|j: int|
                                k <= j < n ==> self.headers@[j] == old(self).headers@[j],
                        decreases n - k,
                    {
                        if eq_ignore_ascii_case_bytes(name.as_slice(), self.wanted[k].as_slice()) {
                            let hv = HttpString::from_bytes(value.as_slice());
                            self.headers[k] = hv;
                        }
                        k = k + 1;
                    }
                    proof {
                        assert(self@.header_vals =~= spec_capture(
                            old(self)@.header_vals,
                            old(self)@.wanted,
                            name@,
                            value@,
                        ));
                        assert(final(self)@ =~= spec_process_line(old(self)@, line@));
                    }
                }
            },
        }
    }

    /// Hands freshly received stream bytes to the reader.  While
    /// headers are incoming the bytes are parsed; once the blank line
    /// is seen the rest come back as the first body chunk.  In the body
    /// state the bytes come back unchanged.  A protocol violation
    /// fails the response and returns the error.
    pub fn feed(&mut self, bytes: &[u8]) -> (r: Result<Vec<u8>, HttpError>)
        requires
            old(self).wf(),
            old(self)@.state == ResponseState::ReceivingHeaders || old(self)@.state
                == ResponseState::ReceivingBody,
        ensures
            final(self).wf(),
            ({
                let sf = spec_feed(old(self)@, bytes@);
                match r {
                    Ok(out) => final(self)@ == sf.0 && out@ == sf.1 && sf.0.state
                        != ResponseState::Failed,
                    Err(e) => final(self)@ == sf.0 && sf.0.state == ResponseState::Failed && e
                        == HttpError::ProtocolError,
                }
            }),
    {
        if matches!(self.state, ResponseState::ReceivingBody) {
            return Ok(slice_to_vec(bytes));
        }
        let ghost m0 = self@;
        proof {
            assert(bytes@.skip(0) =~= bytes@);
        }
        let len = bytes.len();
        let mut i: usize = 0;
        while i < len
            invariant
                i <= len,
                len == bytes@.len(),
                m0 == old(self)@,
                self.wf(),
                self@.state == ResponseState::ReceivingHeaders,
                spec_feed(m0, bytes@) == spec_feed(self@, bytes@.skip(i as int)),
            decreases len - i,
        {
            let ghost m_cur = self@;
            let ghost rest = bytes@.skip(i as int);
            proof {
                assert(rest[0] == bytes@[i as int]);
                assert(rest.skip(1) =~= bytes@.skip(i as int + 1));
            }
            let b = bytes[i];
            let blen = self.buffer.len();
            let bcap = self.buffer.capacity();
            if blen >= bcap {
                self.state = ResponseState::Failed;
                proof {
                    assert(self@ =~= (ReaderModel { state: ResponseState::Failed, ..m_cur }));
                    assert(spec_feed(m_cur, rest) == (self@, Seq::<u8>::empty()));
                }
                return Err(HttpError::ProtocolError);
            }
            if b == crate::buffer::NL {
                let ghost p = m_cur.pending;
                self.buffer.push_byte(crate::buffer::NL);
                proof {
                    crate::buffer::lemma_find_newline_push(p);
                }
                let line_opt = self.buffer.next_line();
                let line = match line_opt {
                    Option::Some(l) => l,
                    Option::None => {
                        proof {
                            assert(false);
                        }
                        vstd::pervasive::unreached()
                    },
                };
                proof {
                    assert(p.push(crate::buffer::NL).subrange(0, p.len() as int) =~= p);
                    assert(line@ == strip_cr(p));
                }
                self.buffer.clear();
                let ghost m_line = ReaderModel { pending: Seq::empty(), ..m_cur };
                proof {
                    assert(self@ =~= m_line);
                }
                self.process_line(line.as_slice());
                let ghost m2 = spec_process_line(m_line, strip_cr(p));
                proof {
                    assert(self@ == m2);
                }
                if matches!(self.state, ResponseState::ReceivingBody) {
                    let out = slice_to_vec(slice_subrange(bytes, i + 1, len));
                    proof {
                        assert(out@ =~= rest.skip(1));
                        assert(spec_feed(m_cur, rest) == (m2, rest.skip(1)));
                    }
                    return Ok(out);
                }
                if matches!(self.state, ResponseState::Failed) {
                    proof {
                        assert(spec_feed(m_cur, rest) == (m2, Seq::<u8>::empty()));
                    }
                    return Err(HttpError::ProtocolError);
                }
                proof {
                    assert(spec_feed(m_cur, rest) == spec_feed(m2, rest.skip(1)));
                }
            } else {
                let accepted = self.buffer.push_byte(b);
                proof {
                    assert(accepted);
                    assert(self@ =~= (ReaderModel { pending: m_cur.pending.push(b), ..m_cur }));
                }
            }
            i = i + 1;
        }
        proof {
            assert(bytes@.skip(len as int) =~= Seq::<u8>::empty());
        }
        Ok(Vec::new())
    }

    pub fn state(&self) -> (r: ResponseState)
        ensures
            r == self@.state,
    {
        self.state
    }

    pub fn code(&self) -> (r: u16)
        ensures
            r == self@.code,
    {
        self.code
    }

    pub fn content_length(&self) -> (r: u32)
        ensures
            r == self@.content_length,
    {
        self.content_length
    }

    pub fn content_type(&self) -> (r: &HttpString)
        ensures
            r@ == self@.content_type,
    {
        &self.content_type
    }

    /// The captured value of the wanted header at `i`.
    pub fn header(&self, i: usize) -> (r: &HttpString)
        requires
            i < self@.header_vals.len(),
        ensures
            r@ == self@.header_vals[i as int],
    {
        &self.headers[i]
    }
}

fn parse_status_line(line: &[u8]) -> (r: Option<u16>)
    ensures
        r == parse_status_code(line@),
{
    let n = line.len();
    match find_byte_from(line, SP, 0) {
        Option::None => Option::None,
        Option::Some(i) => {
            let end = match find_byte_from(line, SP, i + 1) {
                Option::None => n,
                Option::Some(j) => j,
            };
            let tok = slice_subrange(line, i + 1, end);
            match parse_dec(tok, 0xffff) {
                Option::None => Option::None,
                Option::Some(v) => Option::Some(v as u16),
            }
        },
    }
}

/// Appends `src` to `dst`.
fn extend_bytes(dst: &mut Vec<u8>, src: &[u8])
    ensures
        final(dst)@ == old(dst)@ + src@,
{
    let mut k: usize = 0;
    while k < src.len()
        invariant
            k <= src@.len(),
            dst@ == old(dst)@ + src@.take(k as int),
        decreases src@.len() - k,
    {
        dst.push(src[k]);
        k = k + 1;
        proof {
            assert(dst@ =~= old(dst)@ + src@.take(k as int));
        }
    }
    proof {
        assert(src@.take(src@.len() as int) =~= src@);
    }
}

/// The caller-supplied header lines, each `name: value` terminated.
pub open spec fn spec_header_block(hdrs: Seq<(Seq<u8>, Seq<u8>)>) -> Seq<u8>
    decreases hdrs.len(),
{
    if hdrs.len() == 0 {
        Seq::empty()
    } else {
        spec_header_block(hdrs.drop_last()) + hdrs.last().0 + colon_space() + hdrs.last().1
            + crlf()
    }
}

/// The request emitted for a resource: the request line, the host
/// header, the caller's extra headers, and the terminating blank line.
pub open spec fn spec_request(host: Seq<u8>, path: Seq<u8>, hdrs: Seq<(Seq<u8>, Seq<u8>)>) -> Seq<
    u8,
> {
    get_prefix() + path + http10_suffix() + host_prefix() + host + crlf() + spec_header_block(hdrs)
        + crlf() + crlf()
}

/// Builds the bytes of one request, which the owner of the stream
/// sends before `request_sent`.
pub fn build_request(host: &[u8], path: &[u8], extra: &Vec<HeaderField>) -> (r: Vec<u8>)
    ensures
        r@ == spec_request(host@, path@, extra@.map_values(|h: HeaderField| h@)),
{
    let mut out: Vec<u8> = Vec::new();
    let gp = make_get_prefix();
    extend_bytes(&mut out, gp.as_slice());
    extend_bytes(&mut out, path);
    let hs = make_http10_suffix();
    extend_bytes(&mut out, hs.as_slice());
    let hp = make_host_prefix();
    extend_bytes(&mut out, hp.as_slice());
    extend_bytes(&mut out, host);
    let nl = make_crlf();
    extend_bytes(&mut out, nl.as_slice());
    let ghost hmap = extra@.map_values(|h: HeaderField| h@);
    let ghost prefix = get_prefix() + path@ + http10_suffix() + host_prefix() + host@ + crlf();
    let n = extra.len();
    let mut k: usize = 0;
    while k < n
        invariant
            k <= n,
            n == extra@.len(),
            hmap == extra@.map_values(|h: HeaderField| h@),
            hmap.len() == n,
            out@ == prefix + spec_header_block(hmap.take(k as int)),
        decreases n - k,
    {
        let h = &extra[k];
        extend_bytes(&mut out, h.name.as_slice());
        let cs = make_colon_space();
        extend_bytes(&mut out, cs.as_slice());
        extend_bytes(&mut out, h.value.as_slice());
        let nl2 = make_crlf();
        extend_bytes(&mut out, nl2.as_slice());
        k = k + 1;
        proof {
            assert(hmap.take(k as int).drop_last() =~= hmap.take(k as int - 1));
            assert(hmap.take(k as int).last() == hmap[k as int - 1]);
            assert(out@ =~= prefix + spec_header_block(hmap.take(k as int)));
        }
    }
    let nl3 = make_crlf();
    extend_bytes(&mut out, nl3.as_slice());
    let nl4 = make_crlf();
    extend_bytes(&mut out, nl4.as_slice());
    proof {
        assert(hmap.take(n as int) =~= hmap);
        assert(out@ =~= spec_request(host@, path@, hmap));
    }
    out
}

/// The dot byte separating the octets of a host address.
pub const DOT: u8 = 0x2e;

/// The octets of a dotted-decimal host address: exactly four
/// dot-separated unsigned decimals, each at most 255; anything else is
/// rejected.
pub open spec fn spec_parse_ip(s: Seq<u8>) -> Option<(u8, u8, u8, u8)> {
    match find_byte(s, DOT, 0) {
        Option::None => None,
        Option::Some(a) => match find_byte(s, DOT, a + 1) {
            Option::None => None,
            Option::Some(b) => match find_byte(s, DOT, b + 1) {
                Option::None => None,
                Option::Some(c) => if find_byte(s, DOT, c + 1) is Some {
                    None
                } else {
                    let p0 = parse_dec_spec(s.take(a), 255);
                    let p1 = parse_dec_spec(s.subrange(a + 1, b), 255);
                    let p2 = parse_dec_spec(s.subrange(b + 1, c), 255);
                    let p3 = parse_dec_spec(s.subrange(c + 1, s.len() as int), 255);
                    if p0 is Some && p1 is Some && p2 is Some && p3 is Some {
                        Some(
                            (
                                p0.unwrap() as u8,
                                p1.unwrap() as u8,
                                p2.unwrap() as u8,
                                p3.unwrap() as u8,
                            ),
                        )
                    } else {
                        None
                    }
                },
            },
        },
    }
}

/// Parses a dotted-decimal host address into its four octets.
pub fn parse_ip(s: &[u8]) -> (r: Option<(u8, u8, u8, u8)>)
    ensures
        r == spec_parse_ip(s@),
{
    let n = s.len();
    let a = match find_byte_from(s, DOT, 0) {
        Option::None => {
            return Option::None;
        },
        Option::Some(i) => i,
    };
    let b = match find_byte_from(s, DOT, a + 1) {
        Option::None => {
            return Option::None;
        },
        Option::Some(i) => i,
    };
    let c = match find_byte_from(s, DOT, b + 1) {
        Option::None => {
            return Option::None;
        },
        Option::Some(i) => i,
    };
    if matches!(find_byte_from(s, DOT, c + 1), Option::Some(_)) {
        return Option::None;
    }
    let p0 = parse_dec(slice_subrange(s, 0, a), 255);
    let p1 = parse_dec(slice_subrange(s, a + 1, b), 255);
    let p2 = parse_dec(slice_subrange(s, b + 1, c), 255);
    let p3 = parse_dec(slice_subrange(s, c + 1, n), 255);
    proof {
        assert(s@.subrange(0, a as int) =~= s@.take(a as int));
    }
    match (p0, p1, p2, p3) {
        (Option::Some(o0), Option::Some(o1), Option::Some(o2), Option::Some(o3)) => Option::Some(
            (o0 as u8, o1 as u8, o2 as u8, o3 as u8),
        ),
        _ => Option::None,
    }
}

} // verus!
