//! Text for the terminal: values rendered plainly or styled, messages of a
//! kind, error reports and table columns.
use vstd::prelude::*;

use crate::text::strings_view;
use colored::ColoredString;
use vstd::string::StringExecFns;
use vstd::utf8::encode_utf8;

verus! {

/// A value that renders as text, plainly or styled for the terminal.
pub trait AsFormatted {
    /// The plain text of the value.
    spec fn unformatted(&self) -> Seq<char>;

    /// The length in bytes of the plain text.
    fn unformatted_len(&self) -> (r: usize)
        ensures
            r == encode_utf8(self.unformatted()).len(),
    {
        self.as_unformatted().as_str().as_bytes().len()
    }

    /// The plain text.
    fn as_unformatted(&self) -> (r: String)
        ensures
            r@ == self.unformatted(),
    ;

    /// The text styled for the terminal; plain unless a type says otherwise.
    fn as_formatted(&self) -> String {
        self.as_unformatted()
    }
}

pub open spec fn digit_char(d: nat) -> char {
    seq!['0', '1', '2', '3', '4', '5', '6', '7', '8', '9'][d as int]
}

/// The decimal digits of `n`, most significant first.
pub open spec fn decimal(n: nat) -> Seq<char>
    decreases n,
{
    if n < 10 {
        seq![digit_char(n)]
    } else {
        decimal(n / 10).push(digit_char(n % 10))
    }
}

/// The decimal form of `n`, with a leading `-` when it is negative.
pub open spec fn signed_decimal(n: int) -> Seq<char> {
    if n < 0 {
        seq!['-'] + decimal((-n) as nat)
    } else {
        decimal(n as nat)
    }
}

fn digit_str(d: u64) -> (r: &'static str)
    requires
        d < 10,
    ensures
        r@ == seq![digit_char(d as nat)],
{
    proof {
        reveal_strlit("0");
        reveal_strlit("1");
        reveal_strlit("2");
        reveal_strlit("3");
        reveal_strlit("4");
        reveal_strlit("5");
        reveal_strlit("6");
        reveal_strlit("7");
        reveal_strlit("8");
        reveal_strlit("9");
    }
    let r = match d {
        0 => "0",
        1 => "1",
        2 => "2",
        3 => "3",
        4 => "4",
        5 => "5",
        6 => "6",
        7 => "7",
        8 => "8",
        _ => "9",
    };
    assert(r@ =~= seq![digit_char(d as nat)]);
    r
}

/// `n` in decimal.
pub fn decimal_string(n: u64) -> (r: String)
    ensures
        r@ == decimal(n as nat),
    decreases n,
{
    if n < 10 {
        String::from_str(digit_str(n))
    } else {
        let mut r = decimal_string(n / 10);
        r.append(digit_str(n % 10));
        assert(r@ =~= decimal((n / 10) as nat).push(digit_char((n % 10) as nat)));
        r
    }
}

/// `n` in decimal, with a leading `-` when it is negative.
pub fn signed_decimal_string(n: i64) -> (r: String)
    ensures
        r@ == signed_decimal(n as int),
{
    if n < 0 {
        let magnitude: u64 = (0i128 - n as i128) as u64;
        let mut r = String::from_str("-");
        proof {
            reveal_strlit("-");
        }
        let digits = decimal_string(magnitude);
        r.append(digits.as_str());
        assert(r@ =~= signed_decimal(n as int));
        r
    } else {
        decimal_string(n as u64)
    }
}

impl AsFormatted for i32 {
    open spec fn unformatted(&self) -> Seq<char> {
        signed_decimal(*self as int)
    }

    fn as_unformatted(&self) -> (r: String) {
        signed_decimal_string(*self as i64)
    }
}

impl AsFormatted for i64 {
    open spec fn unformatted(&self) -> Seq<char> {
        signed_decimal(*self as int)
    }

    fn as_unformatted(&self) -> (r: String) {
        signed_decimal_string(*self)
    }
}

impl AsFormatted for u32 {
    open spec fn unformatted(&self) -> Seq<char> {
        decimal(*self as nat)
    }

    fn as_unformatted(&self) -> (r: String) {
        decimal_string(*self as u64)
    }
}

impl AsFormatted for u64 {
    open spec fn unformatted(&self) -> Seq<char> {
        decimal(*self as nat)
    }

    fn as_unformatted(&self) -> (r: String) {
        decimal_string(*self)
    }
}

impl AsFormatted for String {
    open spec fn unformatted(&self) -> Seq<char> {
        self@
    }

    fn unformatted_len(&self) -> (r: usize) {
        self.as_str().as_bytes().len()
    }

    fn as_unformatted(&self) -> (r: String) {
        let r = self.clone();
        assert(r@ == self@);
        assert(r@ == self.unformatted());
        r
    }
}

impl<'a> AsFormatted for &'a str {
    open spec fn unformatted(&self) -> Seq<char> {
        (*self)@
    }

    fn unformatted_len(&self) -> (r: usize) {
        (*self).as_bytes().len()
    }

    fn as_unformatted(&self) -> (r: String) {
        let r = String::from_str(*self);
        assert(r@ == self.unformatted());
        r
    }
}

impl AsFormatted for bool {
    /// A star for `true`, nothing for `false`.
    open spec fn unformatted(&self) -> Seq<char> {
        if *self {
            seq!['*']
        } else {
            Seq::empty()
        }
    }

    fn as_unformatted(&self) -> (r: String) {
        proof {
            reveal_strlit("*");
        }
        let r = if *self {
            String::from_str("*")
        } else {
            String::new()
        };
        assert(r@ =~= self.unformatted());
        r
    }
}

impl<T: AsFormatted> AsFormatted for Option<T> {
    /// The value's text, or nothing.
    open spec fn unformatted(&self) -> Seq<char> {
        match self {
            Some(v) => v.unformatted(),
            None => Seq::empty(),
        }
    }

    fn as_unformatted(&self) -> (r: String) {
        match self {
            Some(v) => v.as_unformatted(),
            None => String::new(),
        }
    }
}

/// The kind of a message, which decides its style.
#[derive(Debug, Default, Clone, Copy, PartialEq, Eq, Structural)]
pub enum MessageKind {
    #[default]
    Default,
    Info,
    Success,
    Warning,
    Error,
    Hint,
}

/// A line of text of some kind.
#[derive(Debug, Default, PartialEq, Eq)]
pub struct Message {
    kind: MessageKind,
    message: String,
}

impl View for Message {
    type V = (MessageKind, Seq<char>);

    closed spec fn view(&self) -> (MessageKind, Seq<char>) {
        (self.kind, self.message@)
    }
}

impl Message {
    fn of_kind<T: AsFormatted>(kind: MessageKind, value: T) -> (r: Message)
        ensures
            r@ == (kind, value.unformatted()),
    {
        Message { kind, message: value.as_unformatted() }
    }

    /// A plain message.
    pub fn new<T: AsFormatted>(value: T) -> (r: Message)
        ensures
            r@ == (MessageKind::Default, value.unformatted()),
    {
        Self::of_kind(MessageKind::Default, value)
    }

    /// A message shown in bright cyan.
    pub fn info<T: AsFormatted>(value: T) -> (r: Message)
        ensures
            r@ == (MessageKind::Info, value.unformatted()),
    {
        Self::of_kind(MessageKind::Info, value)
    }

    /// A message shown in bright green.
    pub fn success<T: AsFormatted>(value: T) -> (r: Message)
        ensures
            r@ == (MessageKind::Success, value.unformatted()),
    {
        Self::of_kind(MessageKind::Success, value)
    }

    /// A message shown in bright yellow.
    pub fn warning<T: AsFormatted>(value: T) -> (r: Message)
        ensures
            r@ == (MessageKind::Warning, value.unformatted()),
    {
        Self::of_kind(MessageKind::Warning, value)
    }

    /// A message shown in bright red.
    pub fn error<T: AsFormatted>(value: T) -> (r: Message)
        ensures
            r@ == (MessageKind::Error, value.unformatted()),
    {
        Self::of_kind(MessageKind::Error, value)
    }

    /// A message shown dimmed.
    pub fn hint<T: AsFormatted>(value: T) -> (r: Message)
        ensures
            r@ == (MessageKind::Hint, value.unformatted()),
    {
        Self::of_kind(MessageKind::Hint, value)
    }
}

#[verifier::external_type_specification]
#[verifier::external_body]
pub struct ExColoredString(colored::ColoredString);

/// Relies on `colored::Colorize::bright_cyan`. Whether the colour shows depends
/// on the environment, so nothing is claimed of the text.
#[verifier::external_body]
fn bright_cyan(s: &str) -> ColoredString {
    colored::Colorize::bright_cyan(s)
}

/// Relies on `colored::Colorize::bright_green`; nothing is claimed.
#[verifier::external_body]
fn bright_green(s: &str) -> ColoredString {
    colored::Colorize::bright_green(s)
}

/// Relies on `colored::Colorize::bright_yellow`; nothing is claimed.
#[verifier::external_body]
fn bright_yellow(s: &str) -> ColoredString {
    colored::Colorize::bright_yellow(s)
}

/// Relies on `colored::Colorize::bright_red`; nothing is claimed.
#[verifier::external_body]
fn bright_red(s: &str) -> ColoredString {
    colored::Colorize::bright_red(s)
}

/// Relies on `colored::Colorize::white`; nothing is claimed.
#[verifier::external_body]
fn white(s: &str) -> ColoredString {
    colored::Colorize::white(s)
}

/// Relies on `colored::Colorize::dimmed` on a styled string; nothing is claimed.
#[verifier::external_body]
fn dimmed(s: ColoredString) -> ColoredString {
    colored::Colorize::dimmed(s)
}

/// Relies on `colored::Colorize::bold` on a styled string; nothing is claimed.
#[verifier::external_body]
fn bold(s: ColoredString) -> ColoredString {
    colored::Colorize::bold(s)
}

/// Relies on `Display` for `colored::ColoredString`: the text with the escape
/// codes of its style where the environment allows colour. Nothing is claimed.
#[verifier::external_body]
fn rendered(s: &ColoredString) -> String {
    s.to_string()
}

/// `s` dimmed, as hints are shown.
pub fn dimmed_text(s: &str) -> String {
    rendered(&dimmed(white(s)))
}

/// `s` in bold, as table headers are shown.
pub fn bold_text(s: &str) -> String {
    rendered(&bold(white(s)))
}

impl AsFormatted for Message {
    closed spec fn unformatted(&self) -> Seq<char> {
        self.message@
    }

    fn unformatted_len(&self) -> (r: usize) {
        self.message.as_str().as_bytes().len()
    }

    fn as_unformatted(&self) -> (r: String) {
        let r = self.message.clone();
        assert(r@ == self.unformatted());
        r
    }

    /// A plain message stays as it is; the others take the style of their kind.
    fn as_formatted(&self) -> String {
        let text = self.message.as_str();
        match self.kind {
            MessageKind::Default => self.message.clone(),
            MessageKind::Info => rendered(&bright_cyan(text)),
            MessageKind::Success => rendered(&bright_green(text)),
            MessageKind::Warning => rendered(&bright_yellow(text)),
            MessageKind::Error => rendered(&bright_red(text)),
            MessageKind::Hint => dimmed_text(text),
        }
    }
}

/// `Caused by:`
pub open spec fn caused_by() -> Seq<char> {
    seq!['C', 'a', 'u', 's', 'e', 'd', ' ', 'b', 'y', ':']
}

/// The line for the cause numbered `n`: `  (n) cause`.
pub open spec fn cause_line(n: nat, cause: Seq<char>) -> Seq<char> {
    seq![' ', ' ', '('] + decimal(n) + seq![')', ' '] + cause
}

/// The lines of an error report: the message, then, where there are causes,
/// `Caused by:` and one numbered line for each cause, nearest first.
pub open spec fn report_lines(message: Seq<char>, causes: Seq<Seq<char>>) -> Seq<Seq<char>> {
    if causes.len() == 0 {
        seq![message]
    } else {
        seq![message, caused_by()] + Seq::new(
            causes.len(),
            |i: int| cause_line((i + 1) as nat, causes[i]),
        )
    }
}

/// The plain lines of a report on an error with the given message and causes.
pub fn error_report_lines(message: &String, causes: &Vec<String>) -> (r: Vec<String>)
    ensures
        strings_view(r@) == report_lines(message@, strings_view(causes@)),
{
    let mut r: Vec<String> = Vec::new();
    r.push(message.clone());
    if causes.len() == 0 {
        assert(strings_view(r@) =~= report_lines(message@, strings_view(causes@)));
        return r;
    }
    proof {
        reveal_strlit("Caused by:");
    }
    let heading = String::from_str("Caused by:");
    assert(heading@ =~= caused_by());
    r.push(heading);
    let ghost cs = strings_view(causes@);
    assert(strings_view(r@) =~= seq![message@, caused_by()] + Seq::new(
        0,
        |k: int| cause_line((k + 1) as nat, cs[k]),
    ));
    let mut i: usize = 0;
    while i < causes.len()
        invariant
            i <= causes@.len(),
            cs == strings_view(causes@),
            strings_view(r@) == seq![message@, caused_by()] + Seq::new(
                i as nat,
                |k: int| cause_line((k + 1) as nat, cs[k]),
            ),
        decreases causes@.len() - i,
    {
        let ghost prev = strings_view(r@);
        proof {
            reveal_strlit("  (");
            reveal_strlit(") ");
        }
        let mut line = String::from_str("  (");
        let ghost open_part = line@;
        assert(open_part =~= seq![' ', ' ', '(']);
        let number = decimal_string((i + 1) as u64);
        assert((i + 1) as u64 as nat == (i + 1) as nat);
        line.append(number.as_str());
        let close = ") ";
        assert(close@ =~= seq![')', ' ']);
        line.append(close);
        line.append(causes[i].as_str());
        assert(cs[i as int] == causes@[i as int]@);
        assert(line@ =~= seq![' ', ' ', '('] + decimal((i + 1) as nat) + seq![')', ' '] + cs[i as int]);
        r.push(line);
        assert(strings_view(r@) =~= prev.push(cause_line((i + 1) as nat, cs[i as int])));
        assert(strings_view(r@) =~= seq![message@, caused_by()] + Seq::new(
            (i + 1) as nat,
            |k: int| cause_line((k + 1) as nat, cs[k]),
        ));
        i = i + 1;
    }
    r
}

/// The lines joined, with a line break between each two.
pub open spec fn joined_lines(lines: Seq<Seq<char>>) -> Seq<char>
    decreases lines.len(),
{
    if lines.len() == 0 {
        Seq::empty()
    } else if lines.len() == 1 {
        lines[0]
    } else {
        joined_lines(lines.drop_last()) + seq!['\n'] + lines.last()
    }
}

/// The lines joined, with a line break between each two.
pub fn join_lines(lines: &Vec<String>) -> (r: String)
    ensures
        r@ == joined_lines(strings_view(lines@)),
{
    let mut r = String::new();
    let mut i: usize = 0;
    while i < lines.len()
        invariant
            i <= lines@.len(),
            r@ == joined_lines(strings_view(lines@).take(i as int)),
        decreases lines@.len() - i,
    {
        let ghost sv = strings_view(lines@);
        assert(sv.take(i + 1).drop_last() =~= sv.take(i as int));
        assert(sv.take(i + 1).last() == lines@[i as int]@);
        assert(sv.take(i + 1).len() == i + 1);
        let ghost before = r@;
        if i > 0 {
            proof {
                reveal_strlit("\n");
            }
            let br = "\n";
            assert(br@ =~= seq!['\n']);
            r.append(br);
            r.append(lines[i].as_str());
            assert(r@ =~= before + seq!['\n'] + lines@[i as int]@);
        } else {
            assert(r@ =~= Seq::<char>::empty());
            r.append(lines[i].as_str());
            assert(r@ =~= lines@[i as int]@);
        }
        assert(r@ =~= joined_lines(sv.take(i + 1)));
        i = i + 1;
    }
    assert(strings_view(lines@).take(i as int) =~= strings_view(lines@));
    r
}

#[verifier::external_type_specification]
#[verifier::external_body]
pub struct ExIoError(std::io::Error);

/// Relies on `Display` for `std::io::Error`: its message. Nothing is claimed
/// of the text.
#[verifier::external_body]
pub(crate) fn io_error_message(e: &std::io::Error) -> String {
    e.to_string()
}

/// A report on an error as the terminal shows it: the lines of
/// `error_report_lines`, the message in red and the rest dimmed, one per line.
pub fn format_error_report(message: &String, causes: &Vec<String>) -> String {
    let lines = error_report_lines(message, causes);
    let mut styled: Vec<String> = Vec::new();
    let mut i: usize = 0;
    while i < lines.len()
        invariant
            i <= lines@.len(),
        decreases lines@.len() - i,
    {
        if i == 0 {
            styled.push(rendered(&bright_red(lines[i].as_str())));
        } else {
            styled.push(dimmed_text(lines[i].as_str()));
        }
        i = i + 1;
    }
    join_lines(&styled)
}

/// A value that shows as a record: its fields under headers, some of them
/// only in a given mode.
pub trait ObjectFormatter: Sized {
    type Header: 'static + Clone + AsFormatted;
    type Mode: 'static + Clone;
    type Output: AsFormatted;

    /// The headers shown in `mode`, or by default.
    fn headers(mode: Option<Self::Mode>) -> Vec<Self::Header>;

    /// The headers shown by default.
    fn default_headers() -> Vec<Self::Header> {
        Self::headers(None)
    }

    /// The headers shown in `mode`.
    fn headers_with_mode(mode: Self::Mode) -> Vec<Self::Header> {
        Self::headers(Some(mode))
    }

    /// The value under `header`.
    fn format_value(&self, mode: Option<Self::Mode>, header: &Self::Header) -> Self::Output;
}

pub open spec fn rows_view(rows: Seq<Vec<usize>>) -> Seq<Seq<usize>> {
    rows.map_values(|row: Vec<usize>| row@)
}

pub open spec fn min_len(a: int, b: int) -> int {
    if a < b {
        a
    } else {
        b
    }
}

/// Each width widened to the matching entry of `row`; as many as both have.
pub open spec fn widened(w: Seq<usize>, row: Seq<usize>) -> Seq<usize> {
    Seq::new(
        min_len(w.len() as int, row.len() as int) as nat,
        |j: int|
            if w[j] >= row[j] {
                w[j]
            } else {
                row[j]
            },
    )
}

/// `count` zero widths, widened by each row in turn.
pub open spec fn column_widths(count: nat, rows: Seq<Seq<usize>>) -> Seq<usize>
    decreases rows.len(),
{
    if rows.len() == 0 {
        Seq::new(count, |j: int| 0usize)
    } else {
        widened(column_widths(count, rows.drop_last()), rows.last())
    }
}

fn widen(w: &Vec<usize>, row: &Vec<usize>) -> (r: Vec<usize>)
    ensures
        r@ == widened(w@, row@),
{
    let n = if w.len() < row.len() {
        w.len()
    } else {
        row.len()
    };
    let mut r: Vec<usize> = Vec::new();
    let mut j: usize = 0;
    while j < n
        invariant
            n == min_len(w@.len() as int, row@.len() as int),
            j <= n,
            r@ == widened(w@, row@).take(j as int),
        decreases n - j,
    {
        if w[j] >= row[j] {
            r.push(w[j]);
        } else {
            r.push(row[j]);
        }
        assert(r@ =~= widened(w@, row@).take(j + 1));
        j = j + 1;
    }
    assert(widened(w@, row@).take(j as int) =~= widened(w@, row@));
    r
}

/// Each width is at least the entry of `row` in its column.
pub open spec fn covers(w: Seq<usize>, row: Seq<usize>) -> bool {
    w.len() <= row.len() && forall|j: int| 0 <= j < w.len() ==> w[j] >= #[trigger] row[j]
}

proof fn lemma_widened_covers(w: Seq<usize>, row: Seq<usize>, other: Seq<usize>)
    ensures
        covers(widened(w, row), row),
        covers(w, other) ==> covers(widened(w, row), other),
{
    let n = widened(w, row);
    assert forall|j: int| 0 <= j < n.len() implies n[j] >= w[j] && n[j] >= row[j] by {}
}

/// The width of each column of a table: the largest size among its header
/// and its values. There are as many columns as the header and every row
/// have; each width is at least every size in its column.
pub fn compute_column_count(header_sizes: &Vec<usize>, value_sizes: &Vec<Vec<usize>>) -> (r: Vec<
    usize,
>)
    ensures
        r@ == column_widths(
            header_sizes@.len(),
            seq![header_sizes@] + rows_view(value_sizes@),
        ),
        covers(r@, header_sizes@),
        forall|k: int| 0 <= k < value_sizes@.len() ==> covers(r@, #[trigger] value_sizes@[k]@),
{
    let ghost rows = seq![header_sizes@] + rows_view(value_sizes@);
    let mut w: Vec<usize> = Vec::new();
    let mut j: usize = 0;
    while j < header_sizes.len()
        invariant
            j <= header_sizes@.len(),
            w@ == Seq::new(j as nat, |q: int| 0usize),
        decreases header_sizes@.len() - j,
    {
        w.push(0);
        assert(w@ =~= Seq::new((j + 1) as nat, |q: int| 0usize));
        j = j + 1;
    }
    assert(rows.take(0) =~= Seq::<Seq<usize>>::empty());
    assert(column_widths(header_sizes@.len(), rows.take(0)) == w@);
    let ghost zeros = w@;
    w = widen(&w, header_sizes);
    proof {
        lemma_widened_covers(zeros, header_sizes@, header_sizes@);
    }
    assert(rows.take(1).drop_last() =~= rows.take(0));
    assert(rows.take(1).last() == header_sizes@);
    assert(w@ == column_widths(header_sizes@.len(), rows.take(1)));
    let mut k: usize = 0;
    while k < value_sizes.len()
        invariant
            rows == seq![header_sizes@] + rows_view(value_sizes@),
            k <= value_sizes@.len(),
            w@ == column_widths(header_sizes@.len(), rows.take(k + 1)),
            covers(w@, header_sizes@),
            forall|q: int| 0 <= q < k ==> covers(w@, #[trigger] value_sizes@[q]@),
        decreases value_sizes@.len() - k,
    {
        let ghost old_w = w@;
        w = widen(&w, &value_sizes[k]);
        assert(rows.take(k + 2).drop_last() =~= rows.take(k + 1));
        assert(rows.take(k + 2).last() == value_sizes@[k as int]@);
        proof {
            lemma_widened_covers(old_w, value_sizes@[k as int]@, header_sizes@);
            assert forall|q: int| 0 <= q < k + 1 implies covers(w@, #[trigger] value_sizes@[q]@) by {
                lemma_widened_covers(old_w, value_sizes@[k as int]@, value_sizes@[q]@);
            }
        }
        k = k + 1;
    }
    assert(rows.take(k + 1) =~= rows);
    w
}

/// The greatest of `sizes`, or zero where there are none.
pub fn widest(sizes: &Vec<usize>) -> (r: usize)
    ensures
        forall|i: int| 0 <= i < sizes@.len() ==> sizes@[i] <= r,
        sizes@.len() == 0 ==> r == 0,
        sizes@.len() > 0 ==> exists|i: int| 0 <= i < sizes@.len() && sizes@[i] == r,
{
    let mut r: usize = 0;
    let mut i: usize = 0;
    while i < sizes.len()
        invariant
            i <= sizes@.len(),
            forall|q: int| 0 <= q < i ==> sizes@[q] <= r,
            i == 0 ==> r == 0,
            i > 0 ==> exists|q: int| 0 <= q < i && sizes@[q] == r,
        decreases sizes@.len() - i,
    {
        if sizes[i] > r || i == 0 {
            r = sizes[i];
        }
        i = i + 1;
    }
    r
}

/// `n` spaces.
pub open spec fn spaces(n: int) -> Seq<char> {
    Seq::new(if n > 0 { n as nat } else { 0 }, |i: int| ' ')
}

fn push_spaces(s: &mut String, n: usize)
    ensures
        final(s)@ == old(s)@ + spaces(n as int),
{
    let mut i: usize = 0;
    while i < n
        invariant
            i <= n,
            s@ == old(s)@ + spaces(i as int),
        decreases n - i,
    {
        proof {
            reveal_strlit(" ");
        }
        s.append(" ");
        assert(s@ =~= old(s)@ + spaces(i + 1));
        i = i + 1;
    }
}

/// `s` followed by spaces up to `width` characters, as `{:<width}` pads.
pub fn pad_right(s: &str, width: usize) -> (r: String)
    ensures
        r@ == s@ + spaces(width - s@.len()),
{
    let mut r = String::from_str(s);
    let n = s.unicode_len();
    if n < width {
        push_spaces(&mut r, width - n);
    } else {
        assert(r@ =~= s@ + spaces(width - s@.len()));
    }
    r
}

/// A table cell: the styled text, padded so that its plain text of
/// `plain_len` bytes fills `width`; the escape codes of the style, the bytes
/// beyond the plain text, take no room.
pub fn format_cell(formatted: &str, plain_len: usize, width: usize) -> (r: String)
    requires
        plain_len <= width,
    ensures
        r@ == formatted@ + spaces(width - plain_len + encode_utf8(formatted@).len() - formatted@.len()),
{
    let room = width - plain_len;
    let bytes = formatted.as_bytes().len();
    let chars = formatted.unicode_len();
    let mut r = String::from_str(formatted);
    if chars <= room {
        push_spaces(&mut r, room - chars);
        let ghost mid = r@;
        push_spaces(&mut r, bytes);
        assert(spaces((room - chars) as int) + spaces(bytes as int) =~= spaces(
            room - chars + bytes,
        ));
        assert(r@ =~= formatted@ + spaces(room - chars + bytes));
    } else if bytes > chars - room {
        push_spaces(&mut r, bytes - (chars - room));
    } else {
        assert(r@ =~= formatted@ + spaces(room + bytes - chars));
    }
    r
}

/// The parts joined, with `sep` between each two.
pub open spec fn joined_with(parts: Seq<Seq<char>>, sep: Seq<char>) -> Seq<char>
    decreases parts.len(),
{
    if parts.len() == 0 {
        Seq::empty()
    } else if parts.len() == 1 {
        parts[0]
    } else {
        joined_with(parts.drop_last(), sep) + sep + parts.last()
    }
}

/// The parts joined, with `sep` between each two.
pub fn join_with(parts: &Vec<String>, sep: &str) -> (r: String)
    ensures
        r@ == joined_with(strings_view(parts@), sep@),
{
    let mut r = String::new();
    let mut i: usize = 0;
    while i < parts.len()
        invariant
            i <= parts@.len(),
            r@ == joined_with(strings_view(parts@).take(i as int), sep@),
        decreases parts@.len() - i,
    {
        let ghost sv = strings_view(parts@);
        assert(sv.take(i + 1).drop_last() =~= sv.take(i as int));
        assert(sv.take(i + 1).last() == parts@[i as int]@);
        assert(sv.take(i + 1).len() == i + 1);
        let ghost before = r@;
        if i > 0 {
            r.append(sep);
            r.append(parts[i].as_str());
            assert(r@ =~= before + sep@ + parts@[i as int]@);
        } else {
            assert(r@ =~= Seq::<char>::empty());
            r.append(parts[i].as_str());
            assert(r@ =~= parts@[i as int]@);
        }
        i = i + 1;
    }
    assert(strings_view(parts@).take(i as int) =~= strings_view(parts@));
    r
}

} // verus!
