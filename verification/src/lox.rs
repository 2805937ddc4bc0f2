//! Diagnostics, and a whole run of a program.

use crate::ast::{stmts_view, tokens_view, Expr, ExprV, Stmt, StmtV};
use crate::interpreter::{
    initial_state, result_view, run, values_view, ErrorV, Interpreter, InterpreterError, StateV,
};
use crate::number::{functional, oracle, reading, reads, ArithOp};
use crate::parser::{errors_view, program, ParseErrorV, Parser};
use crate::scanner::{lemma_scan_well_ended, scan, texts_view, Lexer};
use crate::token::{LiteralValue, Token, TokenType, TokenV, ValueV};
use vstd::prelude::*;
use vstd::string::*;

verus! {

/// The character of a decimal digit.
pub open spec fn digit(d: nat) -> char {
    if d == 0 {
        '0'
    } else if d == 1 {
        '1'
    } else if d == 2 {
        '2'
    } else if d == 3 {
        '3'
    } else if d == 4 {
        '4'
    } else if d == 5 {
        '5'
    } else if d == 6 {
        '6'
    } else if d == 7 {
        '7'
    } else if d == 8 {
        '8'
    } else {
        '9'
    }
}

/// A natural number in decimal, without leading zeros.
pub open spec fn digits(n: nat) -> Seq<char>
    decreases n,
{
    if n < 10 {
        seq![digit(n)]
    } else {
        digits(n / 10).push(digit(n % 10))
    }
}

/// A whole number in decimal, with `-` before a negative one.
pub open spec fn decimal(n: int) -> Seq<char> {
    if n < 0 {
        seq!['-'] + digits((-n) as nat)
    } else {
        digits(n as nat)
    }
}

/// The line that reports an error: the line number in square brackets, the
/// place, and the message.
pub open spec fn report_text(line: int, place: Seq<char>, message: Seq<char>) -> Seq<char> {
    "[ "@ + decimal(line) + "] Error "@ + place + ": "@ + message
}

/// The report of an error on a line.
pub open spec fn error_text(line: int, message: Seq<char>) -> Seq<char> {
    report_text(line, Seq::empty(), message)
}

/// The report of an error at a token: at the end of the input for the
/// token that ends it, else at the token's text.
pub open spec fn error_token_text(token: TokenV, message: Seq<char>) -> Seq<char> {
    if token.token_type == TokenType::Eof {
        report_text(token.line, "at end"@, message)
    } else {
        report_text(token.line, " at '"@ + token.lexeme + "'"@, message)
    }
}

fn digit_char(d: u64) -> (c: char)
    requires
        d < 10,
    ensures
        c == digit(d as nat),
{
    if d == 0 {
        '0'
    } else if d == 1 {
        '1'
    } else if d == 2 {
        '2'
    } else if d == 3 {
        '3'
    } else if d == 4 {
        '4'
    } else if d == 5 {
        '5'
    } else if d == 6 {
        '6'
    } else if d == 7 {
        '7'
    } else if d == 8 {
        '8'
    } else {
        '9'
    }
}

/// Appends a natural number in decimal.
fn push_digits(out: &mut String, n: u64)
    ensures
        final(out)@ == old(out)@ + digits(n as nat),
    decreases n,
{
    if n < 10 {
        out.push(digit_char(n));
        assert(out@ =~= old(out)@ + digits(n as nat));
    } else {
        push_digits(out, n / 10);
        out.push(digit_char(n % 10));
        assert(out@ =~= old(out)@ + digits(n as nat));
    }
}

/// Appends a whole number in decimal.
fn push_decimal(out: &mut String, n: i32)
    ensures
        final(out)@ == old(out)@ + decimal(n as int),
{
    if n < 0 {
        out.push('-');
        let m: u64 = (-(n as i64)) as u64;
        push_digits(out, m);
        assert(out@ =~= old(out)@ + decimal(n as int));
    } else {
        push_digits(out, n as u64);
    }
}

/// The statement that is run in place of a program that could not be
/// parsed as a whole: the expression `nil`.
pub open spec fn placeholder() -> Seq<StmtV> {
    seq![StmtV::Expression { expression: ExprV::Literal { value: ValueV::Nil } }]
}

/// The reports of the errors that the parser noted.
pub open spec fn parse_reports(errors: Seq<ParseErrorV>) -> Seq<Seq<char>> {
    Seq::new(errors.len(), |i: int| error_token_text(errors[i].token, errors[i].message))
}

/// What a run of a program shows: the reports of the errors found in its
/// text, the values it printed, and its value or the reason it stopped.
#[derive(Debug)]
pub struct Outcome {
    pub reports: Vec<String>,
    pub printed: Vec<LiteralValue>,
    pub result: Result<LiteralValue, InterpreterError>,
}

/// The driver: an interpreter that lives as long as the driver, so that
/// what one run declares the next can use, and the mark of a run that met
/// an error.
#[derive(Debug)]
pub struct Lox {
    pub had_error: bool,
    pub interpreter: Interpreter,
}

/// What running the text `source` in the state `st` shows and leaves: the
/// text is scanned and parsed; where the parser gave up a declaration, the
/// placeholder is run in place of the program.
pub open spec fn run_text(
    read: spec_fn(Seq<char>) -> u64,
    sem: spec_fn(ArithOp, u64, u64) -> u64,
    source: Seq<char>,
    st: StateV,
) -> (Seq<Seq<char>>, (Result<ValueV, ErrorV>, StateV)) {
    let (tokens, scan_reports) = scan(read, source);
    let (statements, errors) = program(tokens, 0);
    let chosen = if errors.len() > 0 {
        placeholder()
    } else {
        statements
    };
    (
        scan_reports + parse_reports(errors),
        run(sem, chosen, StateV { output: Seq::empty(), ..st }),
    )
}

impl Lox {
    pub fn new() -> (r: Lox)
        ensures
            !r.had_error,
            r.interpreter@ == initial_state(),
    {
        Lox { had_error: false, interpreter: Interpreter::new() }
    }

    /// Scans, parses and runs a program. The values it prints are handed
    /// back, not written; the interpreter keeps what the program declared.
    pub fn run<P: Fn(String) -> u64, A: Fn(ArithOp, u64, u64) -> u64>(
        &mut self,
        source: String,
        read: &P,
        arith: &A,
    ) -> (r: Outcome)
        requires
            reads(read),
            functional(arith),
        ensures
            ({
                let (reports, (result, st)) = run_text(
                    reading(read),
                    oracle(arith),
                    source@,
                    old(self).interpreter@,
                );
                &&& texts_view(r.reports@) == reports
                &&& result_view(r.result) == result
                &&& values_view(r.printed@) == st.output
                &&& final(self).interpreter@ == (StateV { output: Seq::empty(), ..st })
                &&& final(self).had_error == (old(self).had_error || reports.len() > 0
                    || result is Err)
            }),
    {
        let ghost text = source@;
        let mut lexer = Lexer::new(source);
        lexer.scan_tokens(read);
        assert(texts_view(lexer.errors@) =~= scan(reading(read), text).1);
        assert(tokens_view(lexer.tokens@) =~= scan(reading(read), text).0);
        let Lexer { source: _, tokens, errors, start: _, current: _, line: _ } = lexer;
        let mut reports = errors;
        let ghost scanned = texts_view(reports@);
        let ghost ts = tokens_view(tokens@);
        proof {
            lemma_scan_well_ended(reading(read), text, 0, 1);
        }
        let mut parser = Parser::new(tokens);
        assert(errors_view(parser.errors@) =~= Seq::<ParseErrorV>::empty());
        let mut statements = parser.declarations();
        let ghost noted = errors_view(parser.errors@);
        assert(noted =~= program(ts, 0).1);
        if parser.had_error() {
            statements = Vec::new();
            statements.push(Stmt::new_expression(Expr::new_literal(LiteralValue::Nil)));
            assert(stmts_view(statements@) =~= placeholder());
        }
        let mut i: usize = 0;
        assert(parse_reports(noted).take(0) =~= Seq::<Seq<char>>::empty());
        assert(texts_view(reports@) =~= scanned + parse_reports(noted).take(0));
        while i < parser.errors.len()
            invariant
                i <= parser.errors@.len(),
                noted == errors_view(parser.errors@),
                texts_view(reports@) == scanned + parse_reports(noted).take(i as int),
            decreases parser.errors.len() - i,
        {
            let report = Lox::error_token(
                &parser.errors[i].token,
                parser.errors[i].message.as_str(),
            );
            let ghost before = texts_view(reports@);
            reports.push(report);
            assert(texts_view(reports@) =~= before.push(report@));
            assert(parse_reports(noted).take(i + 1) =~= parse_reports(noted).take(i as int).push(
                parse_reports(noted)[i as int],
            ));
            assert(texts_view(reports@) =~= scanned + parse_reports(noted).take(i + 1));
            i = i + 1;
        }
        assert(parse_reports(noted).take(i as int) =~= parse_reports(noted));
        self.interpreter.output = Vec::new();
        assert(values_view(self.interpreter.output@) =~= Seq::<ValueV>::empty());
        let result = self.interpreter.interpret(&statements, arith);
        let mut printed: Vec<LiteralValue> = Vec::new();
        std::mem::swap(&mut printed, &mut self.interpreter.output);
        assert(values_view(self.interpreter.output@) =~= Seq::<ValueV>::empty());
        if reports.len() > 0 || result.is_err() {
            self.had_error = true;
        }
        Outcome { reports, printed, result }
    }

    /// The report of an error on a line.
    pub fn error(line: i32, message: &str) -> (r: String)
        ensures
            r@ == error_text(line as int, message@),
    {
        let r = Lox::report(line, "", message);
        proof {
            reveal_strlit("");
            assert(""@ =~= Seq::<char>::empty());
        }
        r
    }

    /// The report of an error at a token.
    pub fn error_token(token: &Token, message: &str) -> (r: String)
        ensures
            r@ == error_token_text(token@, message@),
    {
        if token.token_type == TokenType::Eof {
            Lox::report(token.line, "at end", message)
        } else {
            let place = " at '".to_owned().concat(token.lexeme.as_str()).concat("'");
            Lox::report(token.line, place.as_str(), message)
        }
    }

    /// The line that reports an error.
    pub fn report(line: i32, report_where: &str, message: &str) -> (r: String)
        ensures
            r@ == report_text(line as int, report_where@, message@),
    {
        let mut out = "[ ".to_owned();
        push_decimal(&mut out, line);
        out.append("] Error ");
        out.append(report_where);
        out.append(": ");
        out.append(message);
        assert(out@ =~= report_text(line as int, report_where@, message@));
        out
    }
}

} // verus!
