use vstd::prelude::*;
use vstd::string::StringSliceAdditionalSpecFns;

use crate::layout::{EMAIL_SIZE, USERNAME_SIZE};
use crate::row::{padded, Row, RowError};

verus! {

/// Commands that start with a dot and are not statements.
#[derive(Clone, Copy, Debug, PartialEq, Eq, Structural)]
pub enum MetaCommand {
    Exit,
    Unrecognized,
}

/// Why an input line is not a statement.
#[derive(Clone, Copy, Debug, PartialEq, Eq, Structural)]
pub enum PrepareError {
    /// An insert without exactly an id, a username and an email.
    SyntaxError,
    /// A username or an email longer than its field.
    StringTooLong,
    /// Neither an insert nor a select.
    UnrecognizedStatement,
    /// An id that is not an unsigned 32-bit number.
    InvalidId,
}

impl PrepareError {
    /// The text shown for the error.
    pub open spec fn spec_message(&self) -> Seq<char> {
        match self {
            PrepareError::SyntaxError => "Syntax error: Expected 'insert <id> <username> <email>'"@,
            PrepareError::StringTooLong => "String is too long."@,
            PrepareError::UnrecognizedStatement => "Unrecognized statement."@,
            PrepareError::InvalidId => "ID must be positive."@,
        }
    }

    /// The text shown for the error.
    pub fn message(&self) -> (r: String)
        ensures
            r@ == self.spec_message(),
    {
        match self {
            PrepareError::SyntaxError => "Syntax error: Expected 'insert <id> <username> <email>'".to_owned(),
            PrepareError::StringTooLong => "String is too long.".to_owned(),
            PrepareError::UnrecognizedStatement => "Unrecognized statement.".to_owned(),
            PrepareError::InvalidId => "ID must be positive.".to_owned(),
        }
    }
}

/// The two statements: scan all rows, or append one.
#[derive(Debug)]
pub enum Statement {
    Select,
    Insert(Row),
}

/// An input line: a meta command, or a statement and how preparing it went.
#[derive(Debug)]
pub enum InputType {
    Meta(MetaCommand),
    Statement(Result<Statement, PrepareError>),
}

/// The whitespace-separated words of a text, as bytes.
pub uninterp spec fn words_of(text: Seq<u8>) -> Seq<Seq<u8>>;

/// Relies on `str::split_whitespace`: the words of `s`, each handed back
/// as its bytes, in order.
#[verifier::external_body]
fn split_words(s: &str) -> (r: Vec<Vec<u8>>)
    ensures
        r@.len() == words_of(s.spec_bytes()).len(),
        forall|i: int| 0 <= i < r@.len() ==> (#[trigger] r@[i])@ == words_of(s.spec_bytes())[i],
{
    let mut r = Vec::new();
    for w in s.split_whitespace() {
        r.push(w.as_bytes().to_vec());
    }
    r
}

/// `b` begins with `p`.
pub open spec fn has_prefix(b: Seq<u8>, p: Seq<u8>) -> bool {
    p.len() <= b.len() && b.take(p.len() as int) == p
}

pub open spec fn select_word() -> Seq<u8> {
    seq![115u8, 101u8, 108u8, 101u8, 99u8, 116u8]
}

pub open spec fn insert_word() -> Seq<u8> {
    seq![105u8, 110u8, 115u8, 101u8, 114u8, 116u8]
}

pub open spec fn exit_command() -> Seq<u8> {
    seq![46u8, 101u8, 120u8, 105u8, 116u8]
}

/// The value of a string of decimal digits.
pub open spec fn digits_value(d: Seq<u8>) -> nat
    decreases d.len(),
{
    if d.len() == 0 {
        0
    } else {
        digits_value(d.drop_last()) * 10 + (d.last() - 48) as nat
    }
}

pub open spec fn is_digit(c: u8) -> bool {
    48 <= c <= 57
}

pub open spec fn all_digits(d: Seq<u8>) -> bool {
    forall|i: int| 0 <= i < d.len() ==> #[trigger] is_digit(d[i])
}

/// The digits of an unsigned number's text: past one leading `+`, if any.
pub open spec fn unsigned_digits(b: Seq<u8>) -> Seq<u8> {
    if b.len() > 0 && b[0] == 43 {
        b.drop_first()
    } else {
        b
    }
}

/// The unsigned 32-bit number that `b` writes in decimal, with an optional
/// leading `+`; `None` where `b` writes none.
pub open spec fn u32_of(b: Seq<u8>) -> Option<u32> {
    let d = unsigned_digits(b);
    if d.len() > 0 && all_digits(d) && digits_value(d) <= u32::MAX {
        Some(digits_value(d) as u32)
    } else {
        None
    }
}

/// Whether `b` begins with `p`.
fn starts_with(b: &[u8], p: &[u8]) -> (r: bool)
    ensures
        r == has_prefix(b@, p@),
{
    if p.len() > b.len() {
        return false;
    }
    let mut i: usize = 0;
    while i < p.len()
        invariant
            p@.len() <= b@.len(),
            i <= p@.len(),
            forall|j: int| 0 <= j < i ==> b@[j] == p@[j],
        decreases p@.len() - i,
    {
        if b[i] != p[i] {
            assert(b@.take(p@.len() as int)[i as int] != p@[i as int]);
            return false;
        }
        i = i + 1;
    }
    assert(b@.take(p@.len() as int) =~= p@);
    true
}

/// Reads an unsigned 32-bit decimal number, with an optional leading `+`.
pub fn parse_u32(b: &[u8]) -> (r: Option<u32>)
    ensures
        r == u32_of(b@),
{
    let start: usize = if b.len() > 0 && b[0] == 43u8 {
        1
    } else {
        0
    };
    let ghost d = unsigned_digits(b@);
    assert(d =~= b@.subrange(start as int, b@.len() as int));
    if start == b.len() {
        return None;
    }
    let cap: u64 = 0x1_0000_0000;
    let mut acc: u64 = 0;
    let mut i: usize = start;
    while i < b.len()
        invariant
            start <= i <= b@.len(),
            d == b@.subrange(start as int, b@.len() as int),
            d == unsigned_digits(b@),
            cap == u32::MAX + 1,
            all_digits(d.take(i - start)),
            acc == if digits_value(d.take(i - start)) < cap {
                digits_value(d.take(i - start))
            } else {
                cap as nat
            },
        decreases b@.len() - i,
    {
        let c = b[i];
        if c < 48u8 || c > 57u8 {
            assert(d[i - start] == b@[i as int]);
            assert(!is_digit(d[i - start]));
            assert(!all_digits(d));
            return None;
        }
        let ghost prev = d.take(i - start);
        let ghost next = d.take(i - start + 1);
        assert(next.drop_last() =~= prev);
        assert(next.last() == c);
        let v: u64 = (c - 48u8) as u64;
        acc = if acc >= cap {
            cap
        } else if acc * 10 + v >= cap {
            cap
        } else {
            acc * 10 + v
        };
        proof {
            assert(digits_value(next) == digits_value(prev) * 10 + v);
            if digits_value(prev) >= cap {
                assert(digits_value(prev) * 10 + v >= cap) by (nonlinear_arith)
                    requires
                        digits_value(prev) >= cap,
                ;
            }
            assert forall|j: int| 0 <= j < next.len() implies #[trigger] is_digit(next[j]) by {
                if j < prev.len() {
                    assert(next[j] == prev[j]);
                }
            }
        }
        i = i + 1;
    }
    assert(d.take(i - start) =~= d);
    if acc >= cap {
        None
    } else {
        Some(acc as u32)
    }
}

/// What preparing the words of an insert gives.
pub open spec fn insert_of(words: Seq<Seq<u8>>) -> Result<(u32, Seq<u8>, Seq<u8>), PrepareError> {
    if words.len() != 4 {
        Err(PrepareError::SyntaxError)
    } else if u32_of(words[1]) is None {
        Err(PrepareError::InvalidId)
    } else if words[2].len() > USERNAME_SIZE || words[3].len() > EMAIL_SIZE {
        Err(PrepareError::StringTooLong)
    } else {
        Ok((u32_of(words[1]).unwrap(), padded(words[2], USERNAME_SIZE as nat), padded(words[3], EMAIL_SIZE as nat)))
    }
}

/// The statement prepared from `r` is the one that `spec` describes.
pub open spec fn statement_matches(r: Result<Statement, PrepareError>, spec: Result<(u32, Seq<u8>, Seq<u8>), PrepareError>) -> bool {
    match spec {
        Err(e) => r == Err::<Statement, PrepareError>(e),
        Ok((id, u, e)) => r matches Ok(Statement::Insert(row)) && row.wf() && row.id == id && row.username@ == u && row.email@ == e,
    }
}

/// `r` is what preparing the line with bytes `b` gives: a select where it
/// begins with `select`, else an insert where it begins with `insert`, else
/// an unrecognized statement.
pub open spec fn prepared(b: Seq<u8>, r: Result<Statement, PrepareError>) -> bool {
    if has_prefix(b, select_word()) {
        r matches Ok(Statement::Select)
    } else if has_prefix(b, insert_word()) {
        statement_matches(r, insert_of(words_of(b)))
    } else {
        r == Err::<Statement, PrepareError>(PrepareError::UnrecognizedStatement)
    }
}

impl Statement {
    /// Prepares an insert from the words of its line: `insert`, the id, the
    /// username and the email.
    pub fn prepare_insert(words: &Vec<Vec<u8>>) -> (r: Result<Statement, PrepareError>)
        ensures
            statement_matches(r, insert_of(words@.map_values(|w: Vec<u8>| w@))),
    {
        let ghost ws = words@.map_values(|w: Vec<u8>| w@);
        if words.len() != 4 {
            return Err(PrepareError::SyntaxError);
        }
        assert(ws[1] == words@[1]@ && ws[2] == words@[2]@ && ws[3] == words@[3]@);
        let id = match parse_u32(words[1].as_slice()) {
            Some(id) => id,
            None => {
                return Err(PrepareError::InvalidId);
            },
        };
        match Row::new(id, words[2].as_slice(), words[3].as_slice()) {
            Ok(row) => Ok(Statement::Insert(row)),
            Err(RowError::StringTooLong) => Err(PrepareError::StringTooLong),
        }
    }

    /// Prepares the statement of a line: a select where it begins with
    /// `select`, an insert where it begins with `insert`.
    pub fn prepare(input: &str) -> (r: Result<Statement, PrepareError>)
        ensures
            prepared(input.spec_bytes(), r),
    {
        let b = input.as_bytes();
        let select = vec![115u8, 101u8, 108u8, 101u8, 99u8, 116u8];
        let insert = vec![105u8, 110u8, 115u8, 101u8, 114u8, 116u8];
        assert(select@ =~= select_word());
        assert(insert@ =~= insert_word());
        if starts_with(b, select.as_slice()) {
            Ok(Statement::Select)
        } else if starts_with(b, insert.as_slice()) {
            let words = split_words(input);
            assert(words@.map_values(|w: Vec<u8>| w@) =~= words_of(input.spec_bytes()));
            Statement::prepare_insert(&words)
        } else {
            Err(PrepareError::UnrecognizedStatement)
        }
    }
}

impl MetaCommand {
    /// The meta command of a line that begins with a dot: `.exit`, or an
    /// unrecognized one; `None` for any other line.
    pub fn parse(input: &str) -> (r: Option<MetaCommand>)
        ensures
            r is Some <==> has_prefix(input.spec_bytes(), seq![46u8]),
            r is Some ==> (r == Some(MetaCommand::Exit) <==> input.spec_bytes() == exit_command()),
    {
        let b = input.as_bytes();
        if b.len() > 0 && b[0] == 46u8 {
            assert(b@.take(1) =~= seq![46u8]);
            let exit = vec![46u8, 101u8, 120u8, 105u8, 116u8];
            assert(exit@ =~= exit_command());
            if b.len() == exit.len() && starts_with(b, exit.as_slice()) {
                assert(b@ =~= b@.take(5));
                Some(MetaCommand::Exit)
            } else {
                proof {
                    if b@ == exit_command() {
                        assert(b@.take(5) =~= b@);
                    }
                }
                Some(MetaCommand::Unrecognized)
            }
        } else {
            proof {
                if has_prefix(b@, seq![46u8]) {
                    assert(b@.take(1)[0] == 46u8);
                }
            }
            None
        }
    }
}

impl InputType {
    /// Sorts a line: a meta command where it begins with a dot, else the
    /// statement prepared from it.
    pub fn parse(input: &str) -> (r: InputType)
        ensures
            r is Meta <==> has_prefix(input.spec_bytes(), seq![46u8]),
            r matches InputType::Meta(m) ==> (m == MetaCommand::Exit <==> input.spec_bytes()
                == exit_command()),
            r matches InputType::Statement(s) ==> prepared(input.spec_bytes(), s),
    {
        match MetaCommand::parse(input) {
            Some(meta) => InputType::Meta(meta),
            None => InputType::Statement(Statement::prepare(input)),
        }
    }
}

} // verus!
