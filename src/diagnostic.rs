use vstd::prelude::*;
use vstd::string::StringExecFns;

verus! {

/// A staged source diagnostic: what went wrong and where in the source.
#[derive(Debug, Clone)]
pub struct ErrorData {
    pub error_type: String,
    pub line: u32,
    pub pos: u16,
    pub len: u16,
    pub lexeme: String,
    pub file: String,
}

/// The abstract content of an `ErrorData`, its texts as character sequences.
pub struct ErrorView {
    pub kind: Seq<char>,
    pub line: u32,
    pub pos: u16,
    pub len: u16,
    pub lexeme: Seq<char>,
    pub file: Seq<char>,
}

impl View for ErrorData {
    type V = ErrorView;

    open spec fn view(&self) -> ErrorView {
        ErrorView {
            kind: self.error_type@,
            line: self.line,
            pos: self.pos,
            len: self.len,
            lexeme: self.lexeme@,
            file: self.file@,
        }
    }
}

impl ErrorData {
    pub fn new(
        error_type: String,
        line: u32,
        pos: u16,
        len: u16,
        lexeme: String,
        file: String,
    ) -> (r: Self)
        ensures
            r.error_type == error_type,
            r.line == line,
            r.pos == pos,
            r.len == len,
            r.lexeme == lexeme,
            r.file == file,
    {
        ErrorData { error_type, line, pos, len, lexeme, file }
    }
}

/// What `{:?}` prints for a string: the text quoted, with escapes.
pub uninterp spec fn debug_of(s: Seq<char>) -> Seq<char>;

/// Relies on `<str as Debug>::fmt` through `format!("{:?}")`: the quoted,
/// escaped form of the text, which depends on the text alone.
#[verifier::external_body]
fn debug_text(s: &str) -> (r: String)
    ensures
        r@ == debug_of(s@),
{
    format!("{:?}", s)
}

pub open spec fn digit_char(d: nat) -> char {
    if d == 0 { '0' }
    else if d == 1 { '1' }
    else if d == 2 { '2' }
    else if d == 3 { '3' }
    else if d == 4 { '4' }
    else if d == 5 { '5' }
    else if d == 6 { '6' }
    else if d == 7 { '7' }
    else if d == 8 { '8' }
    else { '9' }
}

/// The decimal digits of `n`, most significant first, without leading zeros.
pub open spec fn decimal(n: nat) -> Seq<char>
    decreases n,
{
    if n < 10 {
        seq![digit_char(n)]
    } else {
        decimal(n / 10) + seq![digit_char(n % 10)]
    }
}

/// `n` copies of `c`.
pub open spec fn repeat_char(c: char, n: nat) -> Seq<char> {
    Seq::new(n, |i: int| c)
}

/// The report of `e` with reason `msg`, the file name shown as `file_shown`.
pub open spec fn report_text(e: ErrorView, file_shown: Seq<char>, msg: Seq<char>) -> Seq<char> {
    let gutter = repeat_char(' ', decimal(e.line as nat).len());
    "Error in "@ + file_shown + " for the reason:\n"@
        + "  "@ + gutter + " |\n"@
        + "  "@ + decimal(e.line as nat) + " | "@ + e.lexeme + "\n"@
        + "  "@ + gutter + " | "@ + repeat_char(' ', e.pos as nat)
            + repeat_char('^', e.len as nat) + "\n"@
        + "["@ + e.kind + "] "@ + msg + "\n"@
}

/// The rendered report of `e`, the file name quoted, ending with the reason `msg`.
pub open spec fn diagnostic_text(e: ErrorView, msg: Seq<char>) -> Seq<char> {
    report_text(e, debug_of(e.file), msg)
}

fn digit_str(d: u32) -> (r: &'static str)
    requires
        d < 10,
    ensures
        r@ == seq![digit_char(d as nat)],
{
    proof {
        reveal_strlit("0");
        reveal_strlit("1");
        reveal_strlit("2");
        reveal_strlit("3");
        reveal_strlit("4");
        reveal_strlit("5");
        reveal_strlit("6");
        reveal_strlit("7");
        reveal_strlit("8");
        reveal_strlit("9");
    }
    if d == 0 { "0" }
    else if d == 1 { "1" }
    else if d == 2 { "2" }
    else if d == 3 { "3" }
    else if d == 4 { "4" }
    else if d == 5 { "5" }
    else if d == 6 { "6" }
    else if d == 7 { "7" }
    else if d == 8 { "8" }
    else { "9" }
}

/// Appends the decimal digits of `n` to `out`.
pub fn push_decimal(out: &mut String, n: u32)
    ensures
        final(out)@ == old(out)@ + decimal(n as nat),
    decreases n,
{
    if n < 10 {
        out.append(digit_str(n));
    } else {
        push_decimal(out, n / 10);
        out.append(digit_str(n % 10));
        proof {
            assert(final(out)@ == old(out)@ + decimal(n as nat));
        }
    }
}

/// Appends `n` copies of the one-character text `c` to `out`.
fn push_repeat(out: &mut String, c: &str, n: usize)
    requires
        c@.len() == 1,
    ensures
        final(out)@ == old(out)@ + repeat_char(c@[0], n as nat),
{
    let mut i: usize = 0;
    while i < n
        invariant
            i <= n,
            c@.len() == 1,
            out@ == old(out)@ + repeat_char(c@[0], i as nat),
        decreases n - i,
    {
        out.append(c);
        i = i + 1;
        assert(out@ =~= old(out)@ + repeat_char(c@[0], i as nat));
    }
}

/// Renders the report for `e` with reason `msg`: the file name quoted, the
/// source line with its number, a caret run under the span, then the
/// bracketed kind.
pub fn render(e: &ErrorData, msg: &str) -> (r: String)
    ensures
        r@ == diagnostic_text(e@, msg@),
{
    let shown = debug_text(e.file.as_str());
    render_report(e, shown.as_str(), msg)
}

/// The report for `e` with reason `msg`, showing the file name as `file_shown`.
pub fn render_report(e: &ErrorData, file_shown: &str, msg: &str) -> (r: String)
    ensures
        r@ == report_text(e@, file_shown@, msg@),
{
    let mut digits = String::new();
    push_decimal(&mut digits, e.line);
    let width: usize = digits.as_str().unicode_len();
    proof {
        reveal_strlit(" ");
        reveal_strlit("^");
    }
    let mut out = String::from_str("Error in ");
    out.append(file_shown);
    out.append(" for the reason:\n");
    out.append("  ");
    push_repeat(&mut out, " ", width);
    out.append(" |\n");
    out.append("  ");
    out.append(digits.as_str());
    out.append(" | ");
    out.append(e.lexeme.as_str());
    out.append("\n");
    out.append("  ");
    push_repeat(&mut out, " ", width);
    out.append(" | ");
    push_repeat(&mut out, " ", e.pos as usize);
    push_repeat(&mut out, "^", e.len as usize);
    out.append("\n");
    out.append("[");
    out.append(e.error_type.as_str());
    out.append("] ");
    out.append(msg);
    out.append("\n");
    out
}

} // verus!
