//! The library's error type and its mathematical view.

use vstd::prelude::*;
use vstd::string::StringExecFns;
use crate::text::{dec, hex, numbered, push_dec, push_hex, quoted_in};

verus! {

/// The content hash of a compiled plan.
#[derive(Debug, Clone, Copy, PartialEq, Eq, Hash)]
pub struct PlanHash(pub [u8; 32]);

/// What can go wrong, with the text a caller shows.
#[derive(Debug, Clone, PartialEq, Eq)]
pub enum Error {
    Unsupported(String),
    Corrupt(String),
    TypeMismatch(String),
    Bind(String),
    Config(String),
    Schema(String),
    Internal(String),
    Busy,
    WrongParamCount { expected: u64, got: u64 },
    UnknownPlan(PlanHash),
    PlanInvalidated,
    DbFull,
    WriteConflict,
    PrimaryKeyViolation { table: String },
    UniqueViolation { table: String, constraint: String },
    NotNullViolation { table: String, column: String },
    CheckViolation { table: String, column: String, expr: String },
}

/// The view of an [`Error`]: the same variants over sequences and integers.
pub enum Fault {
    Unsupported(Seq<char>),
    Corrupt(Seq<char>),
    TypeMismatch(Seq<char>),
    Bind(Seq<char>),
    Config(Seq<char>),
    Schema(Seq<char>),
    Internal(Seq<char>),
    Busy,
    WrongParamCount { expected: int, got: int },
    UnknownPlan(Seq<u8>),
    PlanInvalidated,
    DbFull,
    WriteConflict,
    PrimaryKeyViolation { table: Seq<char> },
    UniqueViolation { table: Seq<char>, constraint: Seq<char> },
    NotNullViolation { table: Seq<char>, column: Seq<char> },
    CheckViolation { table: Seq<char>, column: Seq<char>, expr: Seq<char> },
}

/// Results of the library.
pub type Result<T> = std::result::Result<T, Error>;

impl View for PlanHash {
    type V = Seq<u8>;

    open spec fn view(&self) -> Seq<u8> {
        self.0@
    }
}

impl View for Error {
    type V = Fault;

    open spec fn view(&self) -> Fault {
        match *self {
            Error::Unsupported(m) => Fault::Unsupported(m@),
            Error::Corrupt(m) => Fault::Corrupt(m@),
            Error::TypeMismatch(m) => Fault::TypeMismatch(m@),
            Error::Bind(m) => Fault::Bind(m@),
            Error::Config(m) => Fault::Config(m@),
            Error::Schema(m) => Fault::Schema(m@),
            Error::Internal(m) => Fault::Internal(m@),
            Error::Busy => Fault::Busy,
            Error::WrongParamCount { expected, got } => Fault::WrongParamCount {
                expected: expected as int,
                got: got as int,
            },
            Error::UnknownPlan(h) => Fault::UnknownPlan(h@),
            Error::PlanInvalidated => Fault::PlanInvalidated,
            Error::DbFull => Fault::DbFull,
            Error::WriteConflict => Fault::WriteConflict,
            Error::PrimaryKeyViolation { table } => Fault::PrimaryKeyViolation { table: table@ },
            Error::UniqueViolation { table, constraint } => Fault::UniqueViolation {
                table: table@,
                constraint: constraint@,
            },
            Error::NotNullViolation { table, column } => Fault::NotNullViolation {
                table: table@,
                column: column@,
            },
            Error::CheckViolation { table, column, expr } => Fault::CheckViolation {
                table: table@,
                column: column@,
                expr: expr@,
            },
        }
    }
}

/// The text of a fault.
pub open spec fn fault_text(f: Fault) -> Seq<char> {
    match f {
        Fault::Unsupported(m) => m,
        Fault::Corrupt(m) => m,
        Fault::TypeMismatch(m) => m,
        Fault::Bind(m) => m,
        Fault::Config(m) => m,
        Fault::Schema(m) => m,
        Fault::Internal(m) => m,
        Fault::Busy => "busy: held by another owner"@,
        Fault::WrongParamCount { expected, got } => "expected "@ + dec(expected as nat)
            + " parameters, got "@ + dec(got as nat),
        Fault::UnknownPlan(h) => "unknown plan "@ + hex(h),
        Fault::PlanInvalidated => "plan invalidated by a schema change"@,
        Fault::DbFull => "database is full"@,
        Fault::WriteConflict => "write conflict"@,
        Fault::PrimaryKeyViolation { table } => "primary key violation in `"@ + table + "`"@,
        Fault::UniqueViolation { table, constraint } => "unique violation in `"@ + table + "` on "@
            + constraint,
        Fault::NotNullViolation { table, column } => "NOT NULL violation in `"@ + table + "`.`"@
            + column + "`"@,
        Fault::CheckViolation { table, column, expr } => "CHECK violation in `"@ + table + "`.`"@
            + column + "`: "@ + expr,
    }
}

impl Error {
    /// The text of the error.
    pub fn message(&self) -> (r: String)
        ensures
            r@ == fault_text(self@),
    {
        match self {
            Error::Unsupported(m) => m.clone(),
            Error::Corrupt(m) => m.clone(),
            Error::TypeMismatch(m) => m.clone(),
            Error::Bind(m) => m.clone(),
            Error::Config(m) => m.clone(),
            Error::Schema(m) => m.clone(),
            Error::Internal(m) => m.clone(),
            Error::Busy => String::from_str("busy: held by another owner"),
            Error::WrongParamCount { expected, got } => {
                let mut s = numbered("expected ", *expected as u128, " parameters, got ");
                push_dec(&mut s, *got as u128);
                s
            },
            Error::UnknownPlan(h) => {
                let mut s = String::from_str("unknown plan ");
                push_hex(&mut s, h.0.as_slice());
                s
            },
            Error::PlanInvalidated => String::from_str("plan invalidated by a schema change"),
            Error::DbFull => String::from_str("database is full"),
            Error::WriteConflict => String::from_str("write conflict"),
            Error::PrimaryKeyViolation { table } => quoted_in("primary key violation in `", table.as_str(), "`"),
            Error::UniqueViolation { table, constraint } => {
                let mut s = quoted_in("unique violation in `", table.as_str(), "` on ");
                s.append(constraint.as_str());
                s
            },
            Error::NotNullViolation { table, column } => {
                let mut s = quoted_in("NOT NULL violation in `", table.as_str(), "`.`");
                s.append(column.as_str());
                s.append("`");
                s
            },
            Error::CheckViolation { table, column, expr } => {
                let mut s = quoted_in("CHECK violation in `", table.as_str(), "`.`");
                s.append(column.as_str());
                s.append("`: ");
                s.append(expr.as_str());
                s
            },
        }
    }
}

} // verus!
