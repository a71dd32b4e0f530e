//! The serial protocol of the TEC controller board: the commands sent to it,
//! how one response line is framed out of the byte stream and decoded, and
//! how the readout line and the configuration acknowledgment are read.
//!
//! Numbers stay in their decimal text: a field is accepted when its text is
//! a float literal of the grammar `f32::from_str` documents, and the caller
//! turns accepted text into a float.

use vstd::prelude::*;
use vstd::utf8::{valid_utf8, decode_utf8};
use crate::number::{
    digits_value, float_char, float_literal_chars, is_digit, is_float_literal,
    lemma_float_literal_chars, lemma_plain_number_shape, parse_u8_chars, plain_number, u8_literal,
    without_plus,
};
use crate::text::{
    chars_equal, chars_of, find_char, index_of, is_ascii_letter, joined, lemma_index_of,
    lemma_joined_ends, lemma_residue_concat, lemma_residue_drops, lemma_residue_keeps,
    lemma_split_joined, lemma_split_on_ellipsis_pair, lemma_split_on_ellipsis_single,
    lemma_words_joined, numeric_residue, residue_chars, slice_chars, split_chars,
    split_chars_on_ellipsis, split_on, split_on_ellipsis, string_from_chars, trim, trim_chars,
    unicode_alphabetic, unicode_white_space, views_match, words, words_of,
};

verus! {

// ---------------------------------------------------------------- commands

/// The command that asks the board for one readout line.
pub fn readout_command() -> (c: &'static str)
    ensures
        c@ == "o"@,
{
    "o"
}

/// The command that enables the TEC output.
pub fn enable_command() -> (c: &'static str)
    ensures
        c@ == "A"@,
{
    "A"
}

/// The command that disables the TEC output.
pub fn disable_command() -> (c: &'static str)
    ensures
        c@ == "a"@,
{
    "a"
}

/// The acknowledgment the board gives of a simple command: the command in
/// angle brackets.
pub open spec fn ack_of(command: Seq<char>) -> Seq<char> {
    "<"@ + command + ">"@
}

/// The acknowledgment expected for `command`.
pub fn expected_ack(command: &str) -> (a: String)
    ensures
        a@ == ack_of(command@),
{
    let mut a = String::new();
    a.append("<");
    a.append(command);
    a.append(">");
    a
}

/// Whether `response` is the acknowledgment of `command`.
pub fn ack_matches(response: &str, command: &str) -> (r: bool)
    ensures
        r == (response@ == ack_of(command@)),
{
    let expected = expected_ack(command);
    let got = String::from_str(response);
    got == expected
}

/// The configuration command for six numbers already written out:
/// `<t_set p i d t_min t_max>`.
pub open spec fn config_command_text(
    t_set: Seq<char>,
    p: Seq<char>,
    i: Seq<char>,
    d: Seq<char>,
    t_min: Seq<char>,
    t_max: Seq<char>,
) -> Seq<char> {
    "<"@ + t_set + " "@ + p + " "@ + i + " "@ + d + " "@ + t_min + " "@ + t_max + ">"@
}

/// Frames the configuration command from the six numbers' text.
pub fn frame_config_command(
    t_set: &str,
    p: &str,
    i: &str,
    d: &str,
    t_min: &str,
    t_max: &str,
) -> (c: String)
    ensures
        c@ == config_command_text(t_set@, p@, i@, d@, t_min@, t_max@),
{
    let mut c = String::new();
    c.append("<");
    c.append(t_set);
    c.append(" ");
    c.append(p);
    c.append(" ");
    c.append(i);
    c.append(" ");
    c.append(d);
    c.append(" ");
    c.append(t_min);
    c.append(" ");
    c.append(t_max);
    c.append(">");
    c
}

/// Whether `s` holds no space.
pub open spec fn has_no_space(s: Seq<char>) -> bool {
    forall|k: int| 0 <= k < s.len() ==> s[k] != ' '
}

/// The configuration command is the six texts, verbatim, between `<` and
/// `>`, one space apart: where none of them holds a space, cutting what
/// stands between the brackets at each space gives back the six texts, in
/// the order set point, P, I, D, lower limit, upper limit.
pub proof fn lemma_config_command_fields(
    t_set: Seq<char>,
    p: Seq<char>,
    i: Seq<char>,
    d: Seq<char>,
    t_min: Seq<char>,
    t_max: Seq<char>,
)
    requires
        has_no_space(t_set),
        has_no_space(p),
        has_no_space(i),
        has_no_space(d),
        has_no_space(t_min),
        has_no_space(t_max),
    ensures
        ({
            let c = config_command_text(t_set, p, i, d, t_min, t_max);
            &&& c.len() >= 2
            &&& c[0] == '<'
            &&& c.last() == '>'
            &&& split_on(c.subrange(1, c.len() - 1), ' ') == seq![t_set, p, i, d, t_min, t_max]
        }),
{
    reveal_strlit("<");
    reveal_strlit(">");
    reveal_strlit(" ");
    let ss = seq![t_set, p, i, d, t_min, t_max];
    let s1 = seq![t_set];
    let s2 = seq![t_set, p];
    let s3 = seq![t_set, p, i];
    let s4 = seq![t_set, p, i, d];
    let s5 = seq![t_set, p, i, d, t_min];
    assert(s2.drop_last() =~= s1);
    assert(s3.drop_last() =~= s2);
    assert(s4.drop_last() =~= s3);
    assert(s5.drop_last() =~= s4);
    assert(ss.drop_last() =~= s5);
    let sp = seq![' '];
    assert(joined(s1, ' ') == t_set);
    assert(joined(s2, ' ') == t_set + sp + p);
    assert(joined(s3, ' ') == t_set + sp + p + sp + i);
    assert(joined(s4, ' ') == t_set + sp + p + sp + i + sp + d);
    assert(joined(s5, ' ') == t_set + sp + p + sp + i + sp + d + sp + t_min);
    assert(joined(ss, ' ') == t_set + sp + p + sp + i + sp + d + sp + t_min + sp + t_max);
    let c = config_command_text(t_set, p, i, d, t_min, t_max);
    assert(" "@ =~= sp);
    assert(c =~= seq!['<'] + joined(ss, ' ') + seq!['>']);
    assert(c.subrange(1, c.len() - 1) =~= joined(ss, ' '));
    assert forall|n: int, k: int| 0 <= n < ss.len() && 0 <= k < ss[n].len() implies #[trigger] ss[n][k]
        != ' ' by {
        if n == 0 {
            assert(ss[n] == t_set);
        } else if n == 1 {
            assert(ss[n] == p);
        } else if n == 2 {
            assert(ss[n] == i);
        } else if n == 3 {
            assert(ss[n] == d);
        } else if n == 4 {
            assert(ss[n] == t_min);
        } else {
            assert(ss[n] == t_max);
        }
    }
    lemma_split_joined(ss, ' ');
}

// ---------------------------------------------------------- line framing

/// Where a [`LineReader`] stands.
#[derive(Clone, Copy, PartialEq, Eq, Structural, Debug)]
pub enum LineState {
    /// More bytes belong to the line.
    Reading,
    /// A carriage return was read: one more read decides whether a line
    /// feed belongs to the line.
    AfterCarriageReturn,
    /// The line is complete.
    Complete,
}

/// Collects the bytes of one response line as they are read one by one. A
/// line ends at a line feed, or at a carriage return; a line feed read right
/// after the carriage return is kept, any other byte read then is dropped.
pub struct LineReader {
    buffer: Vec<u8>,
    state: LineState,
}

/// What a [`LineReader`] holds: the bytes so far and where it stands.
pub struct LineReaderView {
    pub bytes: Seq<u8>,
    pub state: LineState,
}

impl View for LineReader {
    type V = LineReaderView;

    closed spec fn view(&self) -> LineReaderView {
        LineReaderView { bytes: self.buffer@, state: self.state }
    }
}

/// The state after byte `b` is read while a line is being read.
pub open spec fn state_after_byte(b: u8) -> LineState {
    if b == 10 {
        LineState::Complete
    } else if b == 13 {
        LineState::AfterCarriageReturn
    } else {
        LineState::Reading
    }
}

impl LineReader {
    /// An empty reader, reading.
    pub fn new() -> (r: LineReader)
        ensures
            r@.bytes == Seq::<u8>::empty(),
            r@.state == LineState::Reading,
    {
        LineReader { buffer: Vec::new(), state: LineState::Reading }
    }

    /// Takes one byte of the line: it is kept, and a line feed completes the
    /// line while a carriage return asks for one more read. Once the line
    /// is complete, or a carriage return waits for its next read, a byte
    /// pushed is ignored.
    pub fn push_byte(&mut self, b: u8)
        ensures
            old(self)@.state == LineState::Reading ==> final(self)@ == (LineReaderView {
                bytes: old(self)@.bytes.push(b),
                state: state_after_byte(b),
            }),
            old(self)@.state != LineState::Reading ==> final(self)@ == old(self)@,
    {
        if self.state != LineState::Reading {
            return;
        }
        self.buffer.push(b);
        self.state = if b == 10 {
            LineState::Complete
        } else if b == 13 {
            LineState::AfterCarriageReturn
        } else {
            LineState::Reading
        };
    }

    /// Takes the outcome of the read after a carriage return: `Some(b)` if
    /// one byte came. A line feed is kept; the line is complete either way.
    /// Called in any other state, it changes nothing.
    pub fn after_carriage_return(&mut self, next: Option<u8>)
        ensures
            old(self)@.state == LineState::AfterCarriageReturn ==> final(self)@ == (LineReaderView {
                bytes: if next == Some(10u8) {
                    old(self)@.bytes.push(10u8)
                } else {
                    old(self)@.bytes
                },
                state: LineState::Complete,
            }),
            old(self)@.state != LineState::AfterCarriageReturn ==> final(self)@ == old(self)@,
    {
        if self.state != LineState::AfterCarriageReturn {
            return;
        }
        if next == Some(10u8) {
            self.buffer.push(10u8);
        }
        self.state = LineState::Complete;
    }

    /// Where the reader stands.
    pub fn state(&self) -> (s: LineState)
        ensures
            s == self@.state,
    {
        self.state
    }

    /// The bytes collected so far.
    pub fn bytes(&self) -> (b: &Vec<u8>)
        ensures
            b@ == self@.bytes,
    {
        &self.buffer
    }
}

/// Whether a read has waited too long for its line: more than `timeout_ms`
/// milliseconds, `elapsed_ns` nanoseconds having passed since it began.
pub fn response_timed_out(elapsed_ns: u128, timeout_ms: u64) -> (r: bool)
    ensures
        r == (elapsed_ns > timeout_ms * 1_000_000),
{
    let limit_ns: u128 = (timeout_ms as u128) * 1_000_000;
    elapsed_ns > limit_ns
}

/// Whether `b` ends a line: a line feed or a carriage return.
pub open spec fn is_line_end(b: u8) -> bool {
    b == 10 || b == 13
}

/// The reader after the bytes of `stream` were pushed one by one from an
/// empty reader.
pub open spec fn read_all(stream: Seq<u8>) -> LineReaderView
    decreases stream.len(),
{
    if stream.len() == 0 {
        LineReaderView { bytes: Seq::empty(), state: LineState::Reading }
    } else {
        let r = read_all(stream.drop_last());
        LineReaderView { bytes: r.bytes.push(stream.last()), state: state_after_byte(stream.last()) }
    }
}

/// Pushing the bytes of a stream one by one keeps the reader reading up to
/// the first line end, and that byte stops it with exactly the bytes up to
/// it: a line feed completes the line, a carriage return waits for the next
/// read.
pub proof fn lemma_reader_stops_at_first_line_end(stream: Seq<u8>, t: int)
    requires
        0 <= t < stream.len(),
        is_line_end(stream[t]),
        forall|j: int| 0 <= j < t ==> !is_line_end(#[trigger] stream[j]),
    ensures
        forall|j: int| 0 <= j <= t ==> (#[trigger] read_all(stream.take(j))).state == LineState::Reading,
        read_all(stream.take(t + 1)).bytes == stream.take(t + 1),
        read_all(stream.take(t + 1)).state == (if stream[t] == 10 {
            LineState::Complete
        } else {
            LineState::AfterCarriageReturn
        }),
    decreases t,
{
    lemma_read_all_bytes(stream.take(t + 1));
    assert(stream.take(t + 1).drop_last() =~= stream.take(t));
    assert forall|j: int| 0 <= j <= t implies (#[trigger] read_all(stream.take(j))).state
        == LineState::Reading by {
        if j > 0 {
            assert(stream.take(j).drop_last() =~= stream.take(j - 1));
            assert(stream.take(j).last() == stream[j - 1]);
            assert(!is_line_end(stream[j - 1]));
        }
    }
}

proof fn lemma_read_all_bytes(stream: Seq<u8>)
    ensures
        read_all(stream).bytes == stream,
    decreases stream.len(),
{
    if stream.len() > 0 {
        lemma_read_all_bytes(stream.drop_last());
        assert(stream.drop_last().push(stream.last()) =~= stream);
    }
}

/// The text `String::from_utf8_lossy` makes of `bytes`.
pub uninterp spec fn utf8_lossy(bytes: Seq<u8>) -> Seq<char>;

/// `String::from_utf8_lossy`: the text of `bytes` with every invalid
/// sequence replaced by U+FFFD. The contract names the result and states the
/// documented case: bytes that are valid UTF-8 give their decoding.
#[verifier::external_body]
fn from_utf8_lossy(bytes: &[u8]) -> (s: String)
    ensures
        s@ == utf8_lossy(bytes@),
        valid_utf8(bytes@) ==> s@ == decode_utf8(bytes@),
{
    String::from_utf8_lossy(bytes).into_owned()
}

/// The text of one response line: its bytes decoded (invalid UTF-8
/// replaced) and trimmed of white space at both ends.
pub fn decode_response(bytes: &[u8]) -> (s: String)
    ensures
        s@ == trim(utf8_lossy(bytes@)),
        valid_utf8(bytes@) ==> s@ == trim(decode_utf8(bytes@)),
{
    let raw = from_utf8_lossy(bytes);
    let chars = chars_of(raw.as_str());
    let trimmed = trim_chars(&chars);
    string_from_chars(&trimmed)
}

// ------------------------------------------------------------ readout line

/// The numeric fields of a readout line.
#[derive(Clone, Copy, PartialEq, Eq, Structural, Debug)]
pub enum ReadoutField {
    TSet,
    P,
    I,
    D,
    TMin,
    TMax,
    TMeasured,
    Pwm,
}

/// Why a readout line was refused.
#[derive(Clone, Copy, PartialEq, Eq, Structural, Debug)]
pub enum ReadoutError {
    /// Fewer than nine `=`-separated sections; `found` is how many.
    NotEnoughSections { found: usize },
    /// The text of this field is not a float literal.
    InvalidNumber { field: ReadoutField },
    /// The range section does not split into exactly two parts at `...`.
    InvalidTemperatureRange,
    /// The over-current section is not a `u8` literal.
    InvalidOcNumber,
    /// The over-current section is a number other than 0 or 1.
    InvalidOcValue,
}

/// The fields of a readout line, each number as the text that was accepted.
#[derive(Debug)]
pub struct ReadoutText {
    pub t_set: String,
    pub p: String,
    pub i: String,
    pub d: String,
    pub t_min: String,
    pub t_max: String,
    pub t_measured: String,
    pub oc: bool,
    pub pwm: String,
}

/// What a [`ReadoutText`] holds.
pub struct ReadoutTextView {
    pub t_set: Seq<char>,
    pub p: Seq<char>,
    pub i: Seq<char>,
    pub d: Seq<char>,
    pub t_min: Seq<char>,
    pub t_max: Seq<char>,
    pub t_measured: Seq<char>,
    pub oc: bool,
    pub pwm: Seq<char>,
}

impl View for ReadoutText {
    type V = ReadoutTextView;

    open spec fn view(&self) -> ReadoutTextView {
        ReadoutTextView {
            t_set: self.t_set@,
            p: self.p@,
            i: self.i@,
            d: self.d@,
            t_min: self.t_min@,
            t_max: self.t_max@,
            t_measured: self.t_measured@,
            oc: self.oc,
            pwm: self.pwm@,
        }
    }
}

/// The number text of section `k` of a line cut at `=`: the section without
/// its letters and white space.
pub open spec fn section_text(sections: Seq<Seq<char>>, k: int) -> Seq<char> {
    numeric_residue(sections[k])
}

/// What a readout line says. The trimmed line is cut at every `=`; it needs
/// at least nine sections. Sections 1 to 4 are the set point and the P, I,
/// D gains; section 5 is the range `min...max`; section 6 the measured
/// temperature; section 7 the over-current flag (`0` or `1`); section 8 the
/// PWM effort. Each section is read without its letters and white space,
/// and the fields are checked in that order: the first that fails names the
/// error.
pub open spec fn readout_of(line: Seq<char>) -> Result<ReadoutTextView, ReadoutError> {
    let sections = split_on(trim(line), '=');
    if sections.len() < 9 {
        Err(ReadoutError::NotEnoughSections { found: sections.len() as usize })
    } else if !is_float_literal(section_text(sections, 1)) {
        Err(ReadoutError::InvalidNumber { field: ReadoutField::TSet })
    } else if !is_float_literal(section_text(sections, 2)) {
        Err(ReadoutError::InvalidNumber { field: ReadoutField::P })
    } else if !is_float_literal(section_text(sections, 3)) {
        Err(ReadoutError::InvalidNumber { field: ReadoutField::I })
    } else if !is_float_literal(section_text(sections, 4)) {
        Err(ReadoutError::InvalidNumber { field: ReadoutField::D })
    } else {
        let range = split_on_ellipsis(section_text(sections, 5));
        if range.len() != 2 {
            Err(ReadoutError::InvalidTemperatureRange)
        } else if !is_float_literal(range[0]) {
            Err(ReadoutError::InvalidNumber { field: ReadoutField::TMin })
        } else if !is_float_literal(range[1]) {
            Err(ReadoutError::InvalidNumber { field: ReadoutField::TMax })
        } else if !is_float_literal(section_text(sections, 6)) {
            Err(ReadoutError::InvalidNumber { field: ReadoutField::TMeasured })
        } else {
            match u8_literal(section_text(sections, 7)) {
                None => Err(ReadoutError::InvalidOcNumber),
                Some(oc) => if oc > 1 {
                    Err(ReadoutError::InvalidOcValue)
                } else if !is_float_literal(section_text(sections, 8)) {
                    Err(ReadoutError::InvalidNumber { field: ReadoutField::Pwm })
                } else {
                    Ok(
                        ReadoutTextView {
                            t_set: section_text(sections, 1),
                            p: section_text(sections, 2),
                            i: section_text(sections, 3),
                            d: section_text(sections, 4),
                            t_min: range[0],
                            t_max: range[1],
                            t_measured: section_text(sections, 6),
                            oc: oc == 1,
                            pwm: section_text(sections, 8),
                        },
                    )
                },
            }
        }
    }
}

/// The result of [`parse_readout`], seen through the views.
pub open spec fn readout_result_view(r: Result<ReadoutText, ReadoutError>) -> Result<
    ReadoutTextView,
    ReadoutError,
> {
    match r {
        Ok(t) => Ok(t@),
        Err(e) => Err(e),
    }
}

/// Reads one readout line from the board.
pub fn parse_readout(response: &str) -> (r: Result<ReadoutText, ReadoutError>)
    ensures
        readout_result_view(r) == readout_of(response@),
{
    let chars = chars_of(response);
    let trimmed = trim_chars(&chars);
    let sections = split_chars(&trimmed, '=');
    let ghost gs = split_on(trim(response@), '=');
    if sections.len() < 9 {
        return Err(ReadoutError::NotEnoughSections { found: sections.len() });
    }
    let t_set = residue_chars(&sections[1]);
    if !float_literal_chars(&t_set) {
        return Err(ReadoutError::InvalidNumber { field: ReadoutField::TSet });
    }
    let p = residue_chars(&sections[2]);
    if !float_literal_chars(&p) {
        return Err(ReadoutError::InvalidNumber { field: ReadoutField::P });
    }
    let i = residue_chars(&sections[3]);
    if !float_literal_chars(&i) {
        return Err(ReadoutError::InvalidNumber { field: ReadoutField::I });
    }
    let d = residue_chars(&sections[4]);
    if !float_literal_chars(&d) {
        return Err(ReadoutError::InvalidNumber { field: ReadoutField::D });
    }
    let range_text = residue_chars(&sections[5]);
    let range = split_chars_on_ellipsis(&range_text);
    if range.len() != 2 {
        return Err(ReadoutError::InvalidTemperatureRange);
    }
    if !float_literal_chars(&range[0]) {
        return Err(ReadoutError::InvalidNumber { field: ReadoutField::TMin });
    }
    if !float_literal_chars(&range[1]) {
        return Err(ReadoutError::InvalidNumber { field: ReadoutField::TMax });
    }
    let t_measured = residue_chars(&sections[6]);
    if !float_literal_chars(&t_measured) {
        return Err(ReadoutError::InvalidNumber { field: ReadoutField::TMeasured });
    }
    let oc_text = residue_chars(&sections[7]);
    let oc = match parse_u8_chars(&oc_text) {
        None => {
            return Err(ReadoutError::InvalidOcNumber);
        },
        Some(v) => v,
    };
    if oc > 1 {
        return Err(ReadoutError::InvalidOcValue);
    }
    let pwm = residue_chars(&sections[8]);
    if !float_literal_chars(&pwm) {
        return Err(ReadoutError::InvalidNumber { field: ReadoutField::Pwm });
    }
    Ok(
        ReadoutText {
            t_set: string_from_chars(&t_set),
            p: string_from_chars(&p),
            i: string_from_chars(&i),
            d: string_from_chars(&d),
            t_min: string_from_chars(&range[0]),
            t_max: string_from_chars(&range[1]),
            t_measured: string_from_chars(&t_measured),
            oc: oc == 1,
            pwm: string_from_chars(&pwm),
        },
    )
}

/// A label around the `=` signs of a readout line: ASCII letters and spaces.
pub open spec fn is_label(s: Seq<char>) -> bool {
    forall|k: int| 0 <= k < s.len() ==> is_ascii_letter(#[trigger] s[k]) || s[k] == ' '
}

/// The text of an over-current flag.
pub open spec fn flag_text(oc: bool) -> Seq<char> {
    if oc { seq!['1'] } else { seq!['0'] }
}

/// The sections of the readout line the board writes for `r`: `labels[0]`
/// before the first `=`, and each field followed by the label of the next.
pub open spec fn readout_sections(labels: Seq<Seq<char>>, r: ReadoutTextView) -> Seq<Seq<char>> {
    seq![
        labels[0],
        r.t_set + labels[1],
        r.p + labels[2],
        r.i + labels[3],
        r.d + labels[4],
        r.t_min + seq!['.', '.', '.'] + r.t_max + labels[5],
        r.t_measured + labels[6],
        flag_text(r.oc) + labels[7],
        r.pwm,
    ]
}

/// The readout line the board writes for `r`, e.g.
/// `Tset=25.00 Kp=5.50 Ki=2.50 Kd=0.50 Trange=0.00...35.00 Tmeas=24.87 OC=1 PWM=-12.3`.
pub open spec fn readout_line(labels: Seq<Seq<char>>, r: ReadoutTextView) -> Seq<char> {
    joined(readout_sections(labels, r), '=')
}

proof fn lemma_plain_chars(s: Seq<char>)
    requires
        plain_number(s),
    ensures
        forall|k: int|
            0 <= k < s.len() ==> !unicode_alphabetic(#[trigger] s[k]) && !unicode_white_space(s[k])
                && s[k] != '=',
{
    assert forall|k: int| 0 <= k < s.len() implies !unicode_alphabetic(#[trigger] s[k])
        && !unicode_white_space(s[k]) && s[k] != '=' by {
        assert(is_digit(s[k]) || s[k] == '.' || s[k] == '+' || s[k] == '-');
    }
}

proof fn lemma_field_residue(v: Seq<char>, label: Seq<char>)
    requires
        plain_number(v),
        is_label(label),
    ensures
        numeric_residue(v + label) == v,
{
    lemma_plain_chars(v);
    lemma_residue_concat(v, label);
    lemma_residue_keeps(v);
    lemma_residue_drops(label);
    assert(v + Seq::<char>::empty() =~= v);
}

/// A readout line written by the board is read back as the fields it was
/// written from: numbers as plain float literals, the lower temperature
/// limit not ending in a dot, labels of ASCII letters and spaces, the first
/// starting with a letter.
pub proof fn lemma_readout_round_trip(labels: Seq<Seq<char>>, r: ReadoutTextView)
    requires
        labels.len() == 8,
        forall|k: int| 0 <= k < 8 ==> is_label(#[trigger] labels[k]),
        labels[0].len() > 0,
        is_ascii_letter(labels[0][0]),
        plain_number(r.t_set),
        plain_number(r.p),
        plain_number(r.i),
        plain_number(r.d),
        plain_number(r.t_min),
        plain_number(r.t_max),
        plain_number(r.t_measured),
        plain_number(r.pwm),
        r.t_min.last() != '.',
    ensures
        readout_of(readout_line(labels, r)) == Ok::<ReadoutTextView, ReadoutError>(r),
{
    let ss = readout_sections(labels, r);
    let line = readout_line(labels, r);
    lemma_plain_number_shape(r.t_set);
    lemma_plain_number_shape(r.p);
    lemma_plain_number_shape(r.i);
    lemma_plain_number_shape(r.d);
    lemma_plain_number_shape(r.t_min);
    lemma_plain_number_shape(r.t_max);
    lemma_plain_number_shape(r.t_measured);
    lemma_plain_number_shape(r.pwm);
    lemma_plain_chars(r.t_set);
    lemma_plain_chars(r.p);
    lemma_plain_chars(r.i);
    lemma_plain_chars(r.d);
    lemma_plain_chars(r.t_min);
    lemma_plain_chars(r.t_max);
    lemma_plain_chars(r.t_measured);
    lemma_plain_chars(r.pwm);
    let range = r.t_min + seq!['.', '.', '.'] + r.t_max;
    // no section holds `=`
    assert forall|i: int, k: int| 0 <= i < ss.len() && 0 <= k < ss[i].len() implies #[trigger] ss[i][k]
        != '=' by {
        if i == 0 {
            assert(is_label(labels[0]));
        } else if i == 8 {
        } else {
            assert(is_label(labels[i]));
            let v = if i == 1 {
                r.t_set
            } else if i == 2 {
                r.p
            } else if i == 3 {
                r.i
            } else if i == 4 {
                r.d
            } else if i == 5 {
                range
            } else if i == 6 {
                r.t_measured
            } else {
                flag_text(r.oc)
            };
            assert(ss[i] == v + labels[i]);
            if k < v.len() {
                assert(ss[i][k] == v[k]);
                if i == 5 {
                    if k < r.t_min.len() {
                        assert(range[k] == r.t_min[k]);
                    } else if k >= r.t_min.len() + 3 {
                        assert(range[k] == r.t_max[k - r.t_min.len() - 3]);
                    }
                }
            } else {
                assert(ss[i][k] == labels[i][k - v.len()]);
            }
        }
    }
    lemma_split_joined(ss, '=');
    // the line is its own trim
    lemma_joined_ends(ss, '=');
    assert(line[0] == labels[0][0]);
    assert(line.last() == r.pwm.last());
    assert(trim(line) == line);
    assert(split_on(trim(line), '=') == ss);
    // the numbers of the sections
    lemma_field_residue(r.t_set, labels[1]);
    lemma_field_residue(r.p, labels[2]);
    lemma_field_residue(r.i, labels[3]);
    lemma_field_residue(r.d, labels[4]);
    lemma_field_residue(r.t_measured, labels[6]);
    lemma_plain_chars(r.pwm);
    lemma_residue_keeps(r.pwm);
    // the range
    assert forall|k: int| 0 <= k < range.len() implies !unicode_alphabetic(#[trigger] range[k])
        && !unicode_white_space(range[k]) by {
        if k < r.t_min.len() {
            assert(range[k] == r.t_min[k]);
        } else if k >= r.t_min.len() + 3 {
            assert(range[k] == r.t_max[k - r.t_min.len() - 3]);
        }
    }
    lemma_residue_concat(range, labels[5]);
    lemma_residue_keeps(range);
    lemma_residue_drops(labels[5]);
    assert(range + Seq::<char>::empty() =~= range);
    assert(section_text(ss, 5) == range);
    lemma_split_on_ellipsis_pair(r.t_min, r.t_max);
    lemma_split_on_ellipsis_single(r.t_max);
    assert(split_on_ellipsis(range) =~= seq![r.t_min, r.t_max]);
    // the flag
    let f = flag_text(r.oc);
    lemma_residue_concat(f, labels[7]);
    lemma_residue_keeps(f);
    lemma_residue_drops(labels[7]);
    assert(f + Seq::<char>::empty() =~= f);
    assert(section_text(ss, 7) == f);
    assert(without_plus(f) == f);
    assert(f.drop_last() =~= Seq::<char>::empty());
    assert(digits_value(f.drop_last()) == 0);
    assert(f.last() == if r.oc { '1' } else { '0' });
    assert(digits_value(f) == if r.oc { 1nat } else { 0nat });
    assert(u8_literal(f) == Some(if r.oc { 1u8 } else { 0u8 }));
}

// ------------------------------------------------- configuration acknowledgment

/// The parameters the board names in its configuration acknowledgment.
#[derive(Clone, Copy, PartialEq, Eq, Structural, Debug)]
pub enum ConfigKey {
    TSet,
    P,
    I,
    D,
    TMin,
    TMax,
}

/// The name the board gives to `key` in its acknowledgment.
pub open spec fn key_name(key: ConfigKey) -> Seq<char> {
    match key {
        ConfigKey::TSet => seq!['e', 'T', 'z', 'c'],
        ConfigKey::P => seq!['e', 'K', 'p'],
        ConfigKey::I => seq!['e', 'K', 'i'],
        ConfigKey::D => seq!['e', 'K', 'd'],
        ConfigKey::TMin => seq!['e', 'T', 'm', 'i', 'n'],
        ConfigKey::TMax => seq!['e', 'T', 'm', 'a', 'x'],
    }
}

/// The value that the word `w` gives to the parameter named `name`: `w` is
/// `name=value` at its first `=`, and `value` is a float literal.
pub open spec fn word_value(w: Seq<char>, name: Seq<char>) -> Option<Seq<char>> {
    match index_of(w, '=') {
        Some(k) => if w.take(k as int) == name && is_float_literal(w.skip(k + 1int)) {
            Some(w.skip(k + 1int))
        } else {
            None
        },
        None => None,
    }
}

/// The value the words `ws` give to the parameter named `name`: the last
/// word that gives it one wins.
pub open spec fn value_in_words(ws: Seq<Seq<char>>, name: Seq<char>) -> Option<Seq<char>>
    decreases ws.len(),
{
    if ws.len() == 0 {
        None
    } else {
        match word_value(ws.last(), name) {
            Some(v) => Some(v),
            None => value_in_words(ws.drop_last(), name),
        }
    }
}

/// The value the acknowledgment `response` gives to `key`.
pub open spec fn ack_value(response: Seq<char>, key: ConfigKey) -> Option<Seq<char>> {
    value_in_words(words(response), key_name(key))
}

/// The parameters a configuration acknowledgment sets, each as the text of
/// its value; a parameter it does not set keeps its default.
#[derive(Debug)]
pub struct ConfigAck {
    pub t_set: Option<String>,
    pub p: Option<String>,
    pub i: Option<String>,
    pub d: Option<String>,
    pub t_min: Option<String>,
    pub t_max: Option<String>,
}

/// The text in an optional string.
pub open spec fn opt_view(o: Option<String>) -> Option<Seq<char>> {
    match o {
        Some(s) => Some(s@),
        None => None,
    }
}

impl ConfigAck {
    /// The value this acknowledgment gives to `key`.
    pub open spec fn value(&self, key: ConfigKey) -> Option<Seq<char>> {
        match key {
            ConfigKey::TSet => opt_view(self.t_set),
            ConfigKey::P => opt_view(self.p),
            ConfigKey::I => opt_view(self.i),
            ConfigKey::D => opt_view(self.d),
            ConfigKey::TMin => opt_view(self.t_min),
            ConfigKey::TMax => opt_view(self.t_max),
        }
    }
}

fn name_matches(name: &Vec<char>, key: ConfigKey) -> (r: bool)
    ensures
        r == (name@ == key_name(key)),
{
    match key {
        ConfigKey::TSet => chars_equal(name, &['e', 'T', 'z', 'c']),
        ConfigKey::P => chars_equal(name, &['e', 'K', 'p']),
        ConfigKey::I => chars_equal(name, &['e', 'K', 'i']),
        ConfigKey::D => chars_equal(name, &['e', 'K', 'd']),
        ConfigKey::TMin => chars_equal(name, &['e', 'T', 'm', 'i', 'n']),
        ConfigKey::TMax => chars_equal(name, &['e', 'T', 'm', 'a', 'x']),
    }
}

/// The key that `name` names, if any.
fn key_named(name: &Vec<char>) -> (r: Option<ConfigKey>)
    ensures
        r matches Some(k) ==> name@ == key_name(k),
        r is None ==> forall|k: ConfigKey| name@ != #[trigger] key_name(k),
{
    if name_matches(name, ConfigKey::TSet) {
        Some(ConfigKey::TSet)
    } else if name_matches(name, ConfigKey::P) {
        Some(ConfigKey::P)
    } else if name_matches(name, ConfigKey::I) {
        Some(ConfigKey::I)
    } else if name_matches(name, ConfigKey::D) {
        Some(ConfigKey::D)
    } else if name_matches(name, ConfigKey::TMin) {
        Some(ConfigKey::TMin)
    } else if name_matches(name, ConfigKey::TMax) {
        Some(ConfigKey::TMax)
    } else {
        assert forall|k: ConfigKey| name@ != #[trigger] key_name(k) by {
            match k {
                ConfigKey::TSet => {},
                ConfigKey::P => {},
                ConfigKey::I => {},
                ConfigKey::D => {},
                ConfigKey::TMin => {},
                ConfigKey::TMax => {},
            }
        }
        None
    }
}

proof fn lemma_distinct_key_names(a: ConfigKey, b: ConfigKey)
    requires
        a != b,
    ensures
        key_name(a) != key_name(b),
{
    if key_name(a) == key_name(b) {
        let n = key_name(a);
        assert(n.len() == key_name(b).len());
        match a {
            ConfigKey::TSet => {},
            ConfigKey::P => { assert(n[2] == key_name(b)[2]); },
            ConfigKey::I => { assert(n[2] == key_name(b)[2]); },
            ConfigKey::D => { assert(n[2] == key_name(b)[2]); },
            ConfigKey::TMin => { assert(n[3] == key_name(b)[3]); },
            ConfigKey::TMax => { assert(n[3] == key_name(b)[3]); },
        }
    }
}

/// Reads the configuration acknowledgment `response`: every word
/// `name=value` whose value is a float literal sets the parameter `name`
/// names (the last such word for a parameter wins); other words are
/// ignored. It never fails.
pub fn parse_config_acknowledgment(response: &str) -> (a: ConfigAck)
    ensures
        forall|k: ConfigKey| #[trigger] a.value(k) == ack_value(response@, k),
{
    let chars = chars_of(response);
    let ws = words_of(&chars);
    let ghost gw = words(response@);
    let mut ack = ConfigAck { t_set: None, p: None, i: None, d: None, t_min: None, t_max: None };
    let mut n: usize = 0;
    assert(gw.take(0) =~= Seq::<Seq<char>>::empty());
    while n < ws.len()
        invariant
            views_match(ws@, gw),
            gw == words(response@),
            n <= ws.len(),
            forall|k: ConfigKey| #[trigger] ack.value(k) == value_in_words(gw.take(n as int), key_name(k)),
        decreases ws.len() - n,
    {
        let w = &ws[n];
        let ghost before = ack;
        assert(gw.take(n + 1).drop_last() =~= gw.take(n as int));
        assert(gw.take(n + 1).last() == w@);
        match find_char(w, '=') {
            Some(eq) => {
                let name = slice_chars(w, 0, eq);
                let value = slice_chars(w, eq + 1, w.len());
                assert(name@ == w@.take(eq as int));
                assert(value@ == w@.skip(eq + 1));
                if float_literal_chars(&value) {
                    match key_named(&name) {
                        Some(key) => {
                            let text = string_from_chars(&value);
                            match key {
                                ConfigKey::TSet => { ack.t_set = Some(text); },
                                ConfigKey::P => { ack.p = Some(text); },
                                ConfigKey::I => { ack.i = Some(text); },
                                ConfigKey::D => { ack.d = Some(text); },
                                ConfigKey::TMin => { ack.t_min = Some(text); },
                                ConfigKey::TMax => { ack.t_max = Some(text); },
                            }
                            assert forall|k: ConfigKey| #[trigger] ack.value(k) == value_in_words(gw.take(n + 1), key_name(k)) by {
                                if k != key {
                                    lemma_distinct_key_names(k, key);
                                    assert(word_value(w@, key_name(k)) is None);
                                    assert(ack.value(k) == before.value(k));
                                } else {
                                    assert(word_value(w@, key_name(k)) == Some(value@));
                                }
                            }
                        },
                        None => {
                            assert forall|k: ConfigKey| #[trigger] ack.value(k) == value_in_words(gw.take(n + 1), key_name(k)) by {
                                assert(word_value(w@, key_name(k)) is None);
                            }
                        },
                    }
                } else {
                    assert forall|k: ConfigKey| #[trigger] ack.value(k) == value_in_words(gw.take(n + 1), key_name(k)) by {
                        assert(word_value(w@, key_name(k)) is None);
                    }
                }
            },
            None => {
                assert forall|k: ConfigKey| #[trigger] ack.value(k) == value_in_words(gw.take(n + 1), key_name(k)) by {
                    assert(word_value(w@, key_name(k)) is None);
                }
            },
        }
        n = n + 1;
    }
    assert(gw.take(ws.len() as int) =~= gw);
    ack
}

/// The position of `key` among the six parameters.
pub open spec fn key_position(key: ConfigKey) -> int {
    match key {
        ConfigKey::TSet => 0,
        ConfigKey::P => 1,
        ConfigKey::I => 2,
        ConfigKey::D => 3,
        ConfigKey::TMin => 4,
        ConfigKey::TMax => 5,
    }
}

/// The key at position `i` among the six parameters.
pub open spec fn key_at(i: int) -> ConfigKey {
    if i == 0 {
        ConfigKey::TSet
    } else if i == 1 {
        ConfigKey::P
    } else if i == 2 {
        ConfigKey::I
    } else if i == 3 {
        ConfigKey::D
    } else if i == 4 {
        ConfigKey::TMin
    } else {
        ConfigKey::TMax
    }
}

/// The words of an acknowledgment of all six parameters, in order:
/// `eTzc=v0`, `eKp=v1`, and so on.
pub open spec fn ack_words(values: Seq<Seq<char>>) -> Seq<Seq<char>> {
    Seq::new(6, |i: int| key_name(key_at(i)) + seq!['='] + values[i])
}

/// The acknowledgment the board writes of the six values, separated by
/// single spaces, e.g. `eTzc=20 eKp=5.5 eKi=2.5 eKd=0.5 eTmin=0 eTmax=35`.
pub open spec fn ack_line(values: Seq<Seq<char>>) -> Seq<char> {
    joined(ack_words(values), ' ')
}

proof fn lemma_word_value(name: Seq<char>, value: Seq<char>, other: ConfigKey)
    requires
        forall|k: int| 0 <= k < name.len() ==> #[trigger] name[k] != '=',
        is_float_literal(value),
    ensures
        word_value(name + seq!['='] + value, key_name(other)) == if name == key_name(other) {
            Some(value)
        } else {
            None::<Seq<char>>
        },
{
    let w = name + seq!['='] + value;
    assert forall|j: int| 0 <= j < name.len() implies w[j] != '=' by {
        assert(w[j] == name[j]);
    }
    lemma_index_of(w, '=', name.len() as int);
    assert(w.take(name.len() as int) =~= name);
    assert(w.skip(name.len() + 1int) =~= value);
}

/// An acknowledgment of six float literals gives each parameter its value.
pub proof fn lemma_ack_round_trip(values: Seq<Seq<char>>)
    requires
        values.len() == 6,
        forall|i: int| 0 <= i < 6 ==> is_float_literal(#[trigger] values[i]),
    ensures
        forall|key: ConfigKey| ack_value(ack_line(values), key) == Some(
            #[trigger] values[key_position(key)],
        ),
{
    let ws = ack_words(values);
    assert forall|i: int| 0 <= i < 6 implies (#[trigger] ws[i]).len() > 0 by {
        assert(ws[i] == key_name(key_at(i)) + seq!['='] + values[i]);
    }
    assert forall|i: int, k: int| 0 <= i < ws.len() && 0 <= k < ws[i].len() implies !unicode_white_space(
        #[trigger] ws[i][k],
    ) by {
        let name = key_name(key_at(i));
        let v = values[i];
        lemma_float_literal_chars(v);
        assert(ws[i] == name + seq!['='] + v);
        if k < name.len() {
            assert(ws[i][k] == name[k]);
        } else if k > name.len() {
            assert(ws[i][k] == v[k - name.len() - 1]);
            assert(float_char(v[k - name.len() - 1]));
        }
    }
    lemma_words_joined(ws);
    let all = words(ack_line(values));
    assert(all == ws);
    assert forall|key: ConfigKey| ack_value(ack_line(values), key) == Some(
        #[trigger] values[key_position(key)],
    ) by {
        let target = key_name(key);
        assert forall|i: int| 0 <= i < 6 implies #[trigger] word_value(ws[i], target) == if key_at(i)
            == key {
            Some(values[i])
        } else {
            None::<Seq<char>>
        } by {
            let name = key_name(key_at(i));
            assert(forall|k: int| 0 <= k < name.len() ==> #[trigger] name[k] != '=');
            lemma_word_value(name, values[i], key);
            if key_at(i) != key {
                lemma_distinct_key_names(key_at(i), key);
            }
        }
        let w5 = ws;
        let w4 = w5.drop_last();
        let w3 = w4.drop_last();
        let w2 = w3.drop_last();
        let w1 = w2.drop_last();
        let w0 = w1.drop_last();
        assert(w0.drop_last() =~= Seq::<Seq<char>>::empty());
        assert(w5.last() == ws[5]);
        assert(w4.last() == ws[4]);
        assert(w3.last() == ws[3]);
        assert(w2.last() == ws[2]);
        assert(w1.last() == ws[1]);
        assert(w0.last() == ws[0]);
        assert(word_value(ws[0], target) == if key_at(0) == key { Some(values[0]) } else { None::<Seq<char>> });
        assert(word_value(ws[1], target) == if key_at(1) == key { Some(values[1]) } else { None::<Seq<char>> });
        assert(word_value(ws[2], target) == if key_at(2) == key { Some(values[2]) } else { None::<Seq<char>> });
        assert(word_value(ws[3], target) == if key_at(3) == key { Some(values[3]) } else { None::<Seq<char>> });
        assert(word_value(ws[4], target) == if key_at(4) == key { Some(values[4]) } else { None::<Seq<char>> });
        assert(word_value(ws[5], target) == if key_at(5) == key { Some(values[5]) } else { None::<Seq<char>> });
        assert(value_in_words(w0.drop_last(), target) is None);
        assert(value_in_words(w0, target) == if key_at(0) == key { Some(values[0]) } else { None::<Seq<char>> });
        assert(value_in_words(w1, target) == if key_at(1) == key { Some(values[1]) } else { value_in_words(w0, target) });
        assert(value_in_words(w2, target) == if key_at(2) == key { Some(values[2]) } else { value_in_words(w1, target) });
        assert(value_in_words(w3, target) == if key_at(3) == key { Some(values[3]) } else { value_in_words(w2, target) });
        assert(value_in_words(w4, target) == if key_at(4) == key { Some(values[4]) } else { value_in_words(w3, target) });
        assert(value_in_words(w5, target) == if key_at(5) == key { Some(values[5]) } else { value_in_words(w4, target) });
        match key {
            ConfigKey::TSet => {},
            ConfigKey::P => {},
            ConfigKey::I => {},
            ConfigKey::D => {},
            ConfigKey::TMin => {},
            ConfigKey::TMax => {},
        }
    }
}

} // verus!
