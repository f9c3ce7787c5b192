//! Source stage: decodes raw input lines into typed radar events.
//!
//! A record is one or more fields separated by `;`. Each field, once
//! trimmed of whitespace, must be a non-empty string of binary digits
//! whose value fits in a byte. A record with any bad field is reported
//! whole as a parse fault; the fault of the first bad field wins.

use vstd::prelude::*;

verus! {

/// Why a field of a record failed to parse.
///
/// For one field the checks are ordered: an empty field is reported as
/// [`ParseFault::EmptyField`], then a character other than `0` or `1` as
/// [`ParseFault::InvalidDigit`], and only a well-formed string whose value
/// exceeds a byte as [`ParseFault::ValueOverflow`].
#[derive(Clone, Copy, Debug, PartialEq, Eq, Structural)]
pub enum ParseFault {
    EmptyField,
    InvalidDigit,
    ValueOverflow,
}

/// One event on the radar channel.
#[derive(Debug, PartialEq)]
pub enum RadarMessage {
    /// A successfully decoded record: one byte per field.
    Received(Vec<u8>),
    /// The whole record was rejected; the fault of its first bad field.
    ScanIntError(ParseFault),
    /// The underlying line source failed; its message is carried along.
    ScanIOError(String),
    /// The sentinel: the input is exhausted and nothing follows.
    EndOfData,
}

/// The mathematical shape of a radar event.
pub enum RadarModel {
    Received(Seq<u8>),
    ScanIntError(ParseFault),
    ScanIOError(Seq<char>),
    EndOfData,
}

impl View for RadarMessage {
    type V = RadarModel;

    open spec fn view(&self) -> RadarModel {
        match self {
            RadarMessage::Received(v) => RadarModel::Received(v@),
            RadarMessage::ScanIntError(f) => RadarModel::ScanIntError(*f),
            RadarMessage::ScanIOError(m) => RadarModel::ScanIOError(m@),
            RadarMessage::EndOfData => RadarModel::EndOfData,
        }
    }
}

impl DeepView for RadarMessage {
    type V = RadarModel;

    open spec fn deep_view(&self) -> RadarModel {
        self.view()
    }
}

/// One line handed to the source stage by its caller: either the text that
/// was read, or the message of the read failure.
#[derive(Debug)]
pub enum SourceLine {
    Text(String),
    ReadFailure(String),
}

/// The mathematical shape of an input line.
pub enum LineModel {
    Text(Seq<char>),
    ReadFailure(Seq<char>),
}

impl View for SourceLine {
    type V = LineModel;

    open spec fn view(&self) -> LineModel {
        match self {
            SourceLine::Text(s) => LineModel::Text(s@),
            SourceLine::ReadFailure(m) => LineModel::ReadFailure(m@),
        }
    }
}

impl DeepView for SourceLine {
    type V = LineModel;

    open spec fn deep_view(&self) -> LineModel {
        self.view()
    }
}

/// The whitespace characters that field trimming removes.
pub open spec fn is_ws(c: char) -> bool {
    c == ' ' || c == '\t' || c == '\n' || c == '\r' || c == '\x0c'
}

pub open spec fn is_bin_digit(c: char) -> bool {
    c == '0' || c == '1'
}

pub open spec fn bin_digit_val(c: char) -> int {
    if c == '1' {
        1
    } else {
        0
    }
}

pub open spec fn all_bin_digits(s: Seq<char>) -> bool {
    forall|i: int| 0 <= i < s.len() ==> is_bin_digit(#[trigger] s[i])
}

/// The unsigned value of a string of binary digits, most significant first.
pub open spec fn bin_val(s: Seq<char>) -> int
    decreases s.len(),
{
    if s.len() == 0 {
        0
    } else {
        2 * bin_val(s.drop_last()) + bin_digit_val(s.last())
    }
}

pub open spec fn trim_start_rec(s: Seq<char>) -> Seq<char>
    decreases s.len(),
{
    if s.len() > 0 && is_ws(s.first()) {
        trim_start_rec(s.drop_first())
    } else {
        s
    }
}

pub open spec fn trim_end_rec(s: Seq<char>) -> Seq<char>
    decreases s.len(),
{
    if s.len() > 0 && is_ws(s.last()) {
        trim_end_rec(s.drop_last())
    } else {
        s
    }
}

/// A field with leading and trailing whitespace removed.
pub open spec fn trim_spec(s: Seq<char>) -> Seq<char> {
    trim_end_rec(trim_start_rec(s))
}

/// Splitting a record on `;`, scanning left to right with the field
/// gathered so far in `acc`. An empty record yields one empty field.
pub open spec fn split_at_seps(s: Seq<char>, acc: Seq<char>) -> Seq<Seq<char>>
    decreases s.len(),
{
    if s.len() == 0 {
        seq![acc]
    } else if s.first() == ';' {
        seq![acc] + split_at_seps(s.drop_first(), Seq::empty())
    } else {
        split_at_seps(s.drop_first(), acc.push(s.first()))
    }
}

pub open spec fn split_fields(s: Seq<char>) -> Seq<Seq<char>> {
    split_at_seps(s, Seq::empty())
}

/// The fault of one already-trimmed field, or `None` if it parses.
pub open spec fn field_fault(f: Seq<char>) -> Option<ParseFault> {
    if f.len() == 0 {
        Some(ParseFault::EmptyField)
    } else if !all_bin_digits(f) {
        Some(ParseFault::InvalidDigit)
    } else if bin_val(f) > 255 {
        Some(ParseFault::ValueOverflow)
    } else {
        None
    }
}

/// The first fault among a record's fields, in field order.
pub open spec fn fields_fault(fs: Seq<Seq<char>>) -> Option<ParseFault>
    decreases fs.len(),
{
    if fs.len() == 0 {
        None
    } else if field_fault(trim_spec(fs.first())) is Some {
        field_fault(trim_spec(fs.first()))
    } else {
        fields_fault(fs.drop_first())
    }
}

/// The byte values of a record all of whose fields parse.
pub open spec fn line_values(s: Seq<char>) -> Seq<u8> {
    Seq::new(split_fields(s).len(), |k: int| bin_val(trim_spec(split_fields(s)[k])) as u8)
}

/// What the source stage reports for one line of text.
pub open spec fn scan_model(s: Seq<char>) -> RadarModel {
    match fields_fault(split_fields(s)) {
        Some(f) => RadarModel::ScanIntError(f),
        None => RadarModel::Received(line_values(s)),
    }
}

/// What the source stage reports for one input line.
pub open spec fn line_radar_model(l: LineModel) -> RadarModel {
    match l {
        LineModel::Text(s) => scan_model(s),
        LineModel::ReadFailure(m) => RadarModel::ScanIOError(m),
    }
}

/// The whole radar stream for a run: one event per input line, in input
/// order, closed by the end-of-data sentinel.
pub open spec fn source_model(lines: Seq<LineModel>) -> Seq<RadarModel> {
    Seq::new(
        lines.len() + 1,
        |i: int|
            if i < lines.len() {
                line_radar_model(lines[i])
            } else {
                RadarModel::EndOfData
            },
    )
}

/// Does this radar event report a reading? A record or read fault? The
/// sentinel?
pub open spec fn received_p() -> spec_fn(RadarModel) -> bool {
    |m: RadarModel| m is Received
}

pub open spec fn scan_error_p() -> spec_fn(RadarModel) -> bool {
    |m: RadarModel| m is ScanIntError || m is ScanIOError
}

pub open spec fn end_p() -> spec_fn(RadarModel) -> bool {
    |m: RadarModel| m is EndOfData
}

/// A well-formed radar stream: non-empty, the sentinel is its last event
/// and appears nowhere else.
pub open spec fn wf_radar(rs: Seq<RadarModel>) -> bool {
    &&& rs.len() > 0
    &&& rs.last() is EndOfData
    &&& forall|i: int| 0 <= i < rs.len() - 1 ==> !(#[trigger] rs[i] is EndOfData)
}

proof fn lemma_bin_val_nonneg(s: Seq<char>)
    ensures
        bin_val(s) >= 0,
    decreases s.len(),
{
    if s.len() > 0 {
        lemma_bin_val_nonneg(s.drop_last());
    }
}

proof fn lemma_bin_val_prefix(s: Seq<char>, i: int)
    requires
        0 <= i <= s.len(),
    ensures
        bin_val(s.take(i)) <= bin_val(s),
    decreases s.len(),
{
    if i == s.len() {
        assert(s.take(i) =~= s);
    } else {
        lemma_bin_val_prefix(s.drop_last(), i);
        assert(s.take(i) =~= s.drop_last().take(i));
        lemma_bin_val_nonneg(s.drop_last());
    }
}

fn ws_char(c: char) -> (r: bool)
    ensures
        r == is_ws(c),
{
    c == ' ' || c == '\t' || c == '\n' || c == '\r' || c == '\x0c'
}

fn line_chars(line: &str) -> (r: Vec<char>)
    ensures
        r@ == line@,
{
    let n = line.unicode_len();
    let mut out: Vec<char> = Vec::new();
    let mut i: usize = 0;
    while i < n
        invariant
            i <= n,
            n == line@.len(),
            out@ =~= line@.take(i as int),
        decreases n - i,
    {
        out.push(line.get_char(i));
        i = i + 1;
    }
    assert(out@ =~= line@);
    out
}

fn split_line(chars: &Vec<char>) -> (r: Vec<Vec<char>>)
    ensures
        r.deep_view() == split_fields(chars@),
{
    let mut fields: Vec<Vec<char>> = Vec::new();
    let mut cur: Vec<char> = Vec::new();
    let n = chars.len();
    let mut i: usize = 0;
    proof {
        assert(chars@.skip(0) =~= chars@);
        assert(fields.deep_view() + split_at_seps(chars@, cur@) =~~= split_fields(chars@));
    }
    while i < n
        invariant
            i <= n,
            n == chars@.len(),
            fields.deep_view() + split_at_seps(chars@.skip(i as int), cur@) == split_fields(
                chars@,
            ),
        decreases n - i,
    {
        let ghost rest = chars@.skip(i as int);
        assert(rest.first() == chars@[i as int]);
        assert(rest.drop_first() =~= chars@.skip(i as int + 1));
        if chars[i] == ';' {
            let ghost fprev = fields.deep_view();
            let ghost cprev = cur@;
            let done = cur;
            cur = Vec::new();
            fields.push(done);
            proof {
                assert(done.deep_view() =~= cprev);
                assert(fields.deep_view() =~~= fprev.push(cprev));
                assert(split_at_seps(rest, cprev) == seq![cprev] + split_at_seps(
                    chars@.skip(i as int + 1),
                    cur@,
                ));
                assert(fprev.push(cprev) + split_at_seps(chars@.skip(i as int + 1), cur@)
                    =~~= fprev + split_at_seps(rest, cprev));
            }
        } else {
            let c = chars[i];
            cur.push(c);
        }
        i = i + 1;
    }
    assert(chars@.skip(n as int) =~= Seq::<char>::empty());
    let ghost fprev = fields.deep_view();
    let ghost cprev = cur@;
    let done = cur;
    fields.push(done);
    proof {
        assert(done.deep_view() =~= cprev);
        assert(fields.deep_view() =~~= fprev.push(cprev));
        assert(fprev.push(cprev) =~~= fprev + split_at_seps(Seq::<char>::empty(), cprev));
        assert(fields.deep_view() =~~= split_fields(chars@));
    }
    fields
}

fn trim_field(f: &Vec<char>) -> (r: Vec<char>)
    ensures
        r@ == trim_spec(f@),
{
    let n = f.len();
    let mut a: usize = 0;
    while a < n && ws_char(f[a])
        invariant
            a <= n,
            n == f@.len(),
            forall|j: int| 0 <= j < a ==> is_ws(#[trigger] f@[j]),
        decreases n - a,
    {
        a = a + 1;
    }
    proof {
        lemma_trim_start(f@, a as int);
    }
    let mut b: usize = n;
    while b > a && ws_char(f[b - 1])
        invariant
            a <= b <= n,
            n == f@.len(),
            forall|j: int| b <= j < n ==> is_ws(#[trigger] f@[j]),
            trim_start_rec(f@) == f@.skip(a as int),
        decreases b,
    {
        b = b - 1;
    }
    proof {
        lemma_trim_end(f@.skip(a as int), b - a as int);
    }
    let mut out: Vec<char> = Vec::new();
    let mut i: usize = a;
    while i < b
        invariant
            a <= i <= b <= n,
            n == f@.len(),
            out@ =~= f@.subrange(a as int, i as int),
        decreases b - i,
    {
        out.push(f[i]);
        i = i + 1;
    }
    proof {
        assert(f@.skip(a as int).take(b - a as int) =~= f@.subrange(a as int, b as int));
        assert(out@ =~= trim_spec(f@));
    }
    out
}

proof fn lemma_trim_start(s: Seq<char>, k: int)
    requires
        0 <= k <= s.len(),
        forall|j: int| 0 <= j < k ==> is_ws(#[trigger] s[j]),
        k < s.len() ==> !is_ws(s[k]),
    ensures
        trim_start_rec(s) == s.skip(k),
    decreases k,
{
    if k == 0 {
        assert(s.skip(0) =~= s);
    } else {
        lemma_trim_start(s.drop_first(), k - 1);
        assert(s.drop_first().skip(k - 1) =~= s.skip(k));
    }
}

proof fn lemma_trim_end(s: Seq<char>, k: int)
    requires
        0 <= k <= s.len(),
        forall|j: int| k <= j < s.len() ==> is_ws(#[trigger] s[j]),
        k > 0 ==> !is_ws(s[k - 1]),
    ensures
        trim_end_rec(s) == s.take(k),
    decreases s.len(),
{
    if k == s.len() {
        if s.len() == 0 {
            assert(s.take(k) =~= s);
        } else {
            assert(s.take(k) =~= s);
        }
    } else {
        assert(is_ws(s.last()));
        lemma_trim_end(s.drop_last(), k);
        assert(s.drop_last().take(k) =~= s.take(k));
    }
}

/// Parses one already-trimmed field as a binary byte value.
fn parse_field(f: &Vec<char>) -> (r: Result<u8, ParseFault>)
    ensures
        match r {
            Ok(b) => field_fault(f@) is None && b == bin_val(f@),
            Err(e) => field_fault(f@) == Some(e),
        },
{
    let n = f.len();
    if n == 0 {
        return Err(ParseFault::EmptyField);
    }
    let mut i: usize = 0;
    while i < n
        invariant
            i <= n,
            n == f@.len(),
            forall|j: int| 0 <= j < i ==> is_bin_digit(#[trigger] f@[j]),
        decreases n - i,
    {
        let c = f[i];
        if c != '0' && c != '1' {
            return Err(ParseFault::InvalidDigit);
        }
        i = i + 1;
    }
    let mut acc: u32 = 0;
    let mut i: usize = 0;
    while i < n
        invariant
            i <= n,
            n == f@.len(),
            all_bin_digits(f@),
            acc == bin_val(f@.take(i as int)),
            acc <= 255,
        decreases n - i,
    {
        let d: u32 = if f[i] == '1' {
            1
        } else {
            0
        };
        proof {
            assert(f@.take(i as int + 1).drop_last() =~= f@.take(i as int));
            assert(f@.take(i as int + 1).last() == f@[i as int]);
        }
        acc = 2 * acc + d;
        if acc > 255 {
            proof {
                lemma_bin_val_prefix(f@, i as int + 1);
            }
            return Err(ParseFault::ValueOverflow);
        }
        i = i + 1;
    }
    proof {
        assert(f@.take(n as int) =~= f@);
    }
    Ok(acc as u8)
}

/// Decodes one line of text into a radar event: the byte values of every
/// field, or the fault of the first field that fails.
pub fn parse_line(line: &str) -> (r: RadarMessage)
    ensures
        r@ == scan_model(line@),
{
    let chars = line_chars(line);
    let fields = split_line(&chars);
    let ghost fdv = fields.deep_view();
    let mut values: Vec<u8> = Vec::new();
    let n = fields.len();
    let mut i: usize = 0;
    proof {
        assert(fdv.skip(0) =~= fdv);
    }
    while i < n
        invariant
            i <= n,
            n == fdv.len(),
            fdv == fields.deep_view(),
            fdv == split_fields(line@),
            fields@.len() == n,
            forall|k: int| 0 <= k < n ==> #[trigger] fields@[k]@ == fdv[k],
            fields_fault(fdv.skip(i as int)) == fields_fault(fdv),
            values@.len() == i,
            forall|k: int|
                0 <= k < i ==> #[trigger] values@[k] == bin_val(trim_spec(fdv[k])) as u8,
        decreases n - i,
    {
        let ghost rest = fdv.skip(i as int);
        assert(rest.first() == fdv[i as int]);
        assert(rest.drop_first() =~= fdv.skip(i as int + 1));
        let trimmed = trim_field(&fields[i]);
        match parse_field(&trimmed) {
            Ok(b) => {
                values.push(b);
            },
            Err(e) => {
                return RadarMessage::ScanIntError(e);
            },
        }
        i = i + 1;
    }
    proof {
        assert(fdv.skip(n as int) =~= Seq::<Seq<char>>::empty());
        assert(values@ =~= line_values(line@));
    }
    RadarMessage::Received(values)
}

impl Clone for RadarMessage {
    /// A clone carries the same model value.
    fn clone(&self) -> (r: Self)
        ensures
            r@ == self@,
    {
        match self {
            RadarMessage::Received(v) => {
                let w = v.clone();
                proof {
                    assert(w@ =~= v@);
                }
                RadarMessage::Received(w)
            },
            RadarMessage::ScanIntError(f) => RadarMessage::ScanIntError(*f),
            RadarMessage::ScanIOError(m) => RadarMessage::ScanIOError(m.clone()),
            RadarMessage::EndOfData => RadarMessage::EndOfData,
        }
    }
}

/// One tick of the source stage: the event for the next input line, and
/// whether that event was the closing sentinel.
pub fn radar_step(next: Option<&SourceLine>) -> (r: (RadarMessage, bool))
    ensures
        r.0@ == match next {
            Some(l) => line_radar_model(l@),
            None => RadarModel::EndOfData,
        },
        r.1 == (next is None),
{
    match next {
        Some(line) => match line {
            SourceLine::Text(s) => (parse_line(s.as_str()), false),
            SourceLine::ReadFailure(m) => (RadarMessage::ScanIOError(m.clone()), false),
        },
        None => (RadarMessage::EndOfData, true),
    }
}

/// The whole source stage on a finite input: one event per line in input
/// order, closed by exactly one sentinel.
pub fn source_stage(lines: &Vec<SourceLine>) -> (r: Vec<RadarMessage>)
    ensures
        r.deep_view() == source_model(lines.deep_view()),
{
    let ghost ldv = lines.deep_view();
    let mut out: Vec<RadarMessage> = Vec::new();
    let n = lines.len();
    let mut i: usize = 0;
    while i < n
        invariant
            i <= n,
            n == ldv.len(),
            ldv == lines.deep_view(),
            lines@.len() == n,
            forall|k: int| 0 <= k < n ==> #[trigger] lines@[k]@ == ldv[k],
            out.deep_view().len() == i,
            forall|k: int|
                0 <= k < i ==> #[trigger] out.deep_view()[k] == line_radar_model(ldv[k]),
        decreases n - i,
    {
        let (msg, _end) = radar_step(Some(&lines[i]));
        let ghost odv = out.deep_view();
        out.push(msg);
        proof {
            assert(out.deep_view() =~= odv.push(msg@));
        }
        i = i + 1;
    }
    let (msg, _end) = radar_step(None);
    let ghost odv = out.deep_view();
    out.push(msg);
    proof {
        assert(out.deep_view() =~= odv.push(msg@));
        assert(out.deep_view() =~= source_model(ldv));
    }
    out
}

/// The stream the source stage emits is well formed, whatever the input.
pub proof fn lemma_source_wf(lines: Seq<LineModel>)
    ensures
        wf_radar(source_model(lines)),
        source_model(lines).len() == lines.len() + 1,
{
    let rs = source_model(lines);
    assert forall|i: int| 0 <= i < rs.len() - 1 implies !(#[trigger] rs[i] is EndOfData) by {
        assert(rs[i] == line_radar_model(lines[i]));
    }
}

} // verus!
