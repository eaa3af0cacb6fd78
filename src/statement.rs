//! Statements: `insert <id> <username> <email>` and `select`, and running
//! them against a table.
use vstd::prelude::*;
use vstd::utf8::encode_utf8;
use crate::layout::{EMAIL_SIZE, LEAF_NODE_MAX_CELLS, USERNAME_SIZE};
use crate::row::{zero_padded, Row, RowView};
use crate::table::{appended, closed_store, ExecuteError, Table};

verus! {

#[derive(Debug, Clone, Copy, PartialEq, Eq)]
pub enum StatementType {
    Insert,
    Select,
}

#[derive(Debug, Clone, Copy, PartialEq, Eq)]
pub enum PrepareError {
    /// The text starts with no known keyword.
    UnrecognizedStatement,
    /// An insert whose arguments do not parse.
    SyntaxError,
    /// A username or email longer than its field.
    StringTooLong,
    /// An insert with a negative id.
    NegativeId,
}

#[derive(Debug, Clone, PartialEq, Eq)]
pub struct Statement {
    pub statement_type: StatementType,
    /// The row to insert; present for an insert only.
    pub row_to_insert: Option<Row>,
}

/// The tokens that `scan_fmt` takes from `input` for the placeholders of `format`.
pub uninterp spec fn scanned(input: Seq<char>, format: Seq<char>) -> Seq<Seq<char>>;

/// Relies on `scan_fmt::parse::scan`: the tokens matched by the placeholders
/// of `format` in `input`, in order; they depend on the two strings alone.
/// Only the insert format is admitted: `scan` panics on some other formats
/// (an unterminated regex field, for one).
#[verifier::external_body]
fn scan_tokens(input: &str, format: &str) -> (r: Vec<String>)
    requires
        format@ == insert_format(),
    ensures
        r@.map_values(|t: String| t@) == scanned(input@, format@),
{
    scan_fmt::parse::scan(input, format).collect()
}

/// The value of a nonempty run of decimal digits.
pub open spec fn digits_value(s: Seq<char>) -> int
    decreases s.len(),
{
    if s.len() == 0 {
        0
    } else {
        digits_value(s.drop_last()) * 10 + (s.last() as u32 - '0' as u32)
    }
}

pub open spec fn is_digits(s: Seq<char>) -> bool {
    &&& s.len() > 0
    &&& forall|i: int| 0 <= i < s.len() ==> '0' <= #[trigger] s[i] && s[i] <= '9'
}

/// An optional `+` or `-` sign followed by decimal digits, read as an `i32`;
/// `None` for any other text or a value out of range.
pub open spec fn decimal_i32(s: Seq<char>) -> Option<i32> {
    let signed = s.len() > 0 && (s[0] == '-' || s[0] == '+');
    let body = if signed { s.skip(1) } else { s };
    let v = if signed && s[0] == '-' { -digits_value(body) } else { digits_value(body) };
    if is_digits(body) && i32::MIN <= v && v <= i32::MAX {
        Some(v as i32)
    } else {
        None
    }
}

/// Relies on `<i32 as FromStr>::from_str`: an optional sign, then decimal digits only, in range.
#[verifier::external_body]
fn parse_i32(s: &str) -> (r: Option<i32>)
    ensures
        r == decimal_i32(s@),
{
    s.parse::<i32>().ok()
}

/// Relies on `str::starts_with`: whether `prefix` begins `s`.
#[verifier::external_body]
fn has_prefix(s: &str, prefix: &str) -> (r: bool)
    ensures
        r == starts_with(s@, prefix@),
{
    s.starts_with(prefix)
}

/// Relies on `<str as PartialEq>::eq`: whether the two strings are equal.
#[verifier::external_body]
fn str_eq(a: &str, b: &str) -> (r: bool)
    ensures
        r == (a@ == b@),
{
    a == b
}

pub open spec fn starts_with(s: Seq<char>, prefix: Seq<char>) -> bool {
    prefix.len() <= s.len() && s.subrange(0, prefix.len() as int) == prefix
}

/// What the arguments of an insert give: its row, or the error.
pub open spec fn insert_outcome(tokens: Seq<Seq<char>>) -> Result<RowView, PrepareError> {
    if tokens.len() < 3 || decimal_i32(tokens[0]) is None || tokens[1].len() == 0
        || tokens[2].len() == 0 {
        Err(PrepareError::SyntaxError)
    } else if decimal_i32(tokens[0])->0 < 0 {
        Err(PrepareError::NegativeId)
    } else if encode_utf8(tokens[1]).len() > USERNAME_SIZE || encode_utf8(tokens[2]).len()
        > EMAIL_SIZE {
        Err(PrepareError::StringTooLong)
    } else {
        Ok(
            RowView {
                id: decimal_i32(tokens[0])->0 as u32,
                username: zero_padded(encode_utf8(tokens[1]), USERNAME_SIZE as nat),
                email: zero_padded(encode_utf8(tokens[2]), EMAIL_SIZE as nat),
            },
        )
    }
}

/// An insert statement is the outcome of its arguments.
pub open spec fn is_insert_outcome(r: Result<Statement, PrepareError>, tokens: Seq<Seq<char>>) -> bool {
    match r {
        Ok(s) => {
            &&& insert_outcome(tokens) is Ok
            &&& s.statement_type == StatementType::Insert
            &&& s.row_to_insert matches Some(row) && row@ == insert_outcome(tokens)->Ok_0
            &&& s.wf()
        },
        Err(e) => insert_outcome(tokens) == Err::<RowView, PrepareError>(e),
    }
}

pub open spec fn insert_format() -> Seq<char> {
    "insert {d} {} {}"@
}

impl Statement {
    /// An insert carries a row with full-width fields.
    pub open spec fn wf(&self) -> bool {
        self.statement_type == StatementType::Insert ==> (self.row_to_insert matches Some(r)
            && r@.wf())
    }

    /// Builds an insert from its scanned arguments: an id, a username and an email.
    pub fn from_insert_tokens(tokens: &Vec<String>) -> (r: Result<Statement, PrepareError>)
        ensures
            is_insert_outcome(r, tokens@.map_values(|t: String| t@)),
    {
        let ghost ts = tokens@.map_values(|t: String| t@);
        if tokens.len() < 3 {
            return Err(PrepareError::SyntaxError);
        }
        let id = parse_i32(tokens[0].as_str());
        let username = tokens[1].as_str();
        let email = tokens[2].as_str();
        assert(ts[0] == tokens@[0]@ && ts[1] == username@ && ts[2] == email@);
        let id = match id {
            Some(id) => id,
            None => {
                return Err(PrepareError::SyntaxError);
            },
        };
        if username.is_empty() || email.is_empty() {
            return Err(PrepareError::SyntaxError);
        }
        if id < 0 {
            return Err(PrepareError::NegativeId);
        }
        let username_bytes = username.as_bytes();
        let email_bytes = email.as_bytes();
        match Row::from_fields(id as u32, username_bytes, email_bytes) {
            Some(row) => Ok(Statement { statement_type: StatementType::Insert, row_to_insert: Some(row) }),
            None => Err(PrepareError::StringTooLong),
        }
    }

    /// Parses an insert statement: `insert <id> <username> <email>`.
    pub fn prepare_insert(statement_text: &str) -> (r: Result<Statement, PrepareError>)
        ensures
            is_insert_outcome(r, scanned(statement_text@, insert_format())),
    {
        let format = "insert {d} {} {}";
        proof {
            reveal_strlit("insert {d} {} {}");
        }
        let tokens = scan_tokens(statement_text, format);
        Self::from_insert_tokens(&tokens)
    }

    /// Parses a statement by its leading keyword.
    pub fn prepare(statement_text: &str) -> (r: Result<Statement, PrepareError>)
        ensures
            starts_with(statement_text@, "insert"@) ==> is_insert_outcome(
                r,
                scanned(statement_text@, insert_format()),
            ),
            !starts_with(statement_text@, "insert"@) && starts_with(statement_text@, "select"@)
                ==> r == Ok::<Statement, PrepareError>(
                Statement { statement_type: StatementType::Select, row_to_insert: None },
            ),
            !starts_with(statement_text@, "insert"@) && !starts_with(statement_text@, "select"@)
                ==> r == Err::<Statement, PrepareError>(PrepareError::UnrecognizedStatement),
    {
        if has_prefix(statement_text, "insert") {
            return Self::prepare_insert(statement_text);
        }
        if has_prefix(statement_text, "select") {
            return Ok(Statement { statement_type: StatementType::Select, row_to_insert: None });
        }
        Err(PrepareError::UnrecognizedStatement)
    }
}

/// Runs an insert statement: its row is appended to the table, or
/// `TableFull` comes back and the table is left as it was.
pub fn execute_insert(statement: &Statement, table: &mut Table) -> (r: Result<(), ExecuteError>)
    requires
        old(table).wf(),
        statement.row_to_insert matches Some(row) && row@.wf(),
    ensures
        final(table).wf(),
        r is Err <==> old(table).rows().len() >= LEAF_NODE_MAX_CELLS,
        r is Err ==> r == Err::<(), ExecuteError>(ExecuteError::TableFull)
            && final(table).pager.same_contents(&old(table).pager),
        r is Ok ==> final(table).root() == appended(
            old(table).root(),
            statement.row_to_insert->0@,
        ),
        r is Ok ==> final(table).rows() == old(table).rows().push(statement.row_to_insert->0@),
        final(table).pager.store@ == old(table).pager.store@,
{
    match &statement.row_to_insert {
        Some(row) => table.insert(row),
        None => Ok(()),
    }
}

/// Runs a select statement: the table's rows in cell order.
pub fn execute_select(statement: &Statement, table: &mut Table) -> (r: Vec<Row>)
    requires
        old(table).wf(),
    ensures
        final(table).wf(),
        final(table).pager.same_contents(&old(table).pager),
        r@.map_values(|x: Row| x@) == old(table).rows(),
{
    table.select()
}

/// Runs a statement: an insert yields no rows, a select yields the table's rows.
pub fn execute_statement(statement: &Statement, table: &mut Table) -> (r: Result<
    Vec<Row>,
    ExecuteError,
>)
    requires
        old(table).wf(),
        statement.wf(),
    ensures
        final(table).wf(),
        statement.statement_type == StatementType::Select ==> {
            &&& final(table).pager.same_contents(&old(table).pager)
            &&& r matches Ok(rows) && rows@.map_values(|x: Row| x@) == old(table).rows()
        },
        statement.statement_type == StatementType::Insert ==> {
            &&& (r is Err <==> old(table).rows().len() >= LEAF_NODE_MAX_CELLS)
            &&& (r is Err ==> r == Err::<Vec<Row>, ExecuteError>(ExecuteError::TableFull)
                && final(table).pager.same_contents(&old(table).pager))
            &&& (r matches Ok(rows) ==> rows@.len() == 0 && final(table).rows() == old(
                table,
            ).rows().push(statement.row_to_insert->0@))
        },
{
    match statement.statement_type {
        StatementType::Insert => match execute_insert(statement, table) {
            Ok(()) => Ok(Vec::new()),
            Err(e) => Err(e),
        },
        StatementType::Select => Ok(execute_select(statement, table)),
    }
}

/// Runs a meta command. `.exit` closes the table, flushing every resident
/// page into its store; any other command is unknown.
pub fn do_meta_command(command: &str, table: &mut Table) -> (r: Result<(), ()>)
    requires
        old(table).wf(),
    ensures
        final(table).wf(),
        r is Ok <==> command@ == ".exit"@,
        r is Ok ==> final(table).pager.store@ == closed_store(old(table).pager),
        r is Ok ==> final(table).rows() == old(table).rows(),
        r is Err ==> *final(table) == *old(table),
{
    if str_eq(command, ".exit") {
        table.close();
        Ok(())
    } else {
        Err(())
    }
}

} // verus!
