//! Errors of the reader: a kind, and the last position of successfully read
//! data when it was detected.
use vstd::prelude::*;
use vstd::string::*;
use crate::property::Fault;
use crate::text::{decimal, push_decimal};

verus! {

/// A decoding error.
#[derive(Debug, Clone)]
pub struct Error {
    /// Last position of successfully read data when the error was detected.
    pub pos: u64,
    /// What went wrong.
    pub kind: ErrorKind,
}

/// The kinds of decoding errors.
#[derive(Debug, Clone)]
pub enum ErrorKind {
    /// A name or string property is not valid UTF-8; it holds how many of
    /// its bytes were valid before the first invalid one.
    FromUtf8Error(usize),
    /// The data does not start with the magic preamble.
    InvalidMagic,
    /// Corrupted or inconsistent data: a length or an offset that does not
    /// match what was read.
    DataError(String),
    /// A value that cannot stand where it was found (a specialization of
    /// `DataError`).
    UnexpectedValue(String),
    /// The data ended in the middle of a field.
    UnexpectedEof,
    /// A feature that this reader does not decode.
    Unimplemented(String),
}

/// The fault that an error kind reports.
pub open spec fn kind_fault(k: ErrorKind) -> Fault {
    match k {
        ErrorKind::FromUtf8Error(_) => Fault::Utf8,
        ErrorKind::InvalidMagic => Fault::Magic,
        ErrorKind::DataError(_) => Fault::Data,
        ErrorKind::UnexpectedValue(_) => Fault::Unexpected,
        ErrorKind::UnexpectedEof => Fault::Eof,
        ErrorKind::Unimplemented(_) => Fault::Unimplemented,
    }
}

impl Error {
    /// An error of the given kind detected after position `pos`.
    pub fn new(pos: u64, kind: ErrorKind) -> (r: Error)
        ensures
            r.pos == pos,
            r.kind == kind,
    {
        Error { pos, kind }
    }

    /// An error for a fault found at `pos`.
    pub fn from_fault(pos: usize, f: Fault) -> (r: Error)
        requires
            !(f is Utf8),
        ensures
            r.pos == pos,
            kind_fault(r.kind) == f,
    {
        let kind = match f {
            Fault::Eof => ErrorKind::UnexpectedEof,
            Fault::Utf8 => ErrorKind::FromUtf8Error(0),
            Fault::Magic => ErrorKind::InvalidMagic,
            Fault::Data => ErrorKind::DataError("lengths, offsets or compressed data do not match".to_string()),
            Fault::Unexpected => ErrorKind::UnexpectedValue("unknown type tag or encoding".to_string()),
            Fault::Unimplemented => ErrorKind::Unimplemented("unsupported feature".to_string()),
        };
        Error { pos: pos as u64, kind }
    }

    /// A UTF-8 error at `pos`, after `valid_up_to` valid bytes.
    pub fn utf8(pos: usize, valid_up_to: usize) -> (r: Error)
        ensures
            r.pos == pos,
            r.kind == ErrorKind::FromUtf8Error(valid_up_to),
    {
        Error { pos: pos as u64, kind: ErrorKind::FromUtf8Error(valid_up_to) }
    }

    /// A short description of the kind of error.
    pub fn description(&self) -> (r: &'static str)
        ensures
            r@ == match self.kind {
                ErrorKind::FromUtf8Error(_) => "Invalid UTF-8 data"@,
                ErrorKind::InvalidMagic => "Got an invalid magic header"@,
                ErrorKind::DataError(_) => "Got an invalid data"@,
                ErrorKind::UnexpectedValue(_) => "Invalid value in FBX data"@,
                ErrorKind::UnexpectedEof => "Unexpected EOF"@,
                ErrorKind::Unimplemented(_) => "Attempt to use unimplemented feature"@,
            },
    {
        match self.kind {
            ErrorKind::FromUtf8Error(_) => "Invalid UTF-8 data",
            ErrorKind::InvalidMagic => "Got an invalid magic header",
            ErrorKind::DataError(_) => "Got an invalid data",
            ErrorKind::UnexpectedValue(_) => "Invalid value in FBX data",
            ErrorKind::UnexpectedEof => "Unexpected EOF",
            ErrorKind::Unimplemented(_) => "Attempt to use unimplemented feature",
        }
    }

    /// The error as a line of text, with the position where it applies.
    pub fn message(&self) -> (r: String)
        ensures
            r@ == match self.kind {
                ErrorKind::FromUtf8Error(k) => "UTF-8 conversion error at pos="@ + decimal(self.pos as nat)
                    + ": invalid byte after "@ + decimal(k as nat) + " valid bytes"@,
                ErrorKind::InvalidMagic => "Invalid magic header at pos="@ + decimal(self.pos as nat)
                    + ": Non-FBX or corrupted data?"@,
                ErrorKind::DataError(m) => "Invalid data at pos="@ + decimal(self.pos as nat) + ": "@ + m@,
                ErrorKind::UnexpectedValue(m) => "Got an unexpected value at pos="@ + decimal(self.pos as nat) + ": "@
                    + m@,
                ErrorKind::UnexpectedEof => "Unexpected EOF at pos="@ + decimal(self.pos as nat),
                ErrorKind::Unimplemented(m) => "Unimplemented feature: "@ + m@,
            },
    {
        let mut r = String::new();
        match &self.kind {
            ErrorKind::FromUtf8Error(k) => {
                r.append("UTF-8 conversion error at pos=");
                push_decimal(&mut r, self.pos);
                r.append(": invalid byte after ");
                push_decimal(&mut r, *k as u64);
                r.append(" valid bytes");
            },
            ErrorKind::InvalidMagic => {
                r.append("Invalid magic header at pos=");
                push_decimal(&mut r, self.pos);
                r.append(": Non-FBX or corrupted data?");
            },
            ErrorKind::DataError(m) => {
                r.append("Invalid data at pos=");
                push_decimal(&mut r, self.pos);
                r.append(": ");
                r.append(m.as_str());
            },
            ErrorKind::UnexpectedValue(m) => {
                r.append("Got an unexpected value at pos=");
                push_decimal(&mut r, self.pos);
                r.append(": ");
                r.append(m.as_str());
            },
            ErrorKind::UnexpectedEof => {
                r.append("Unexpected EOF at pos=");
                push_decimal(&mut r, self.pos);
            },
            ErrorKind::Unimplemented(m) => {
                r.append("Unimplemented feature: ");
                r.append(m.as_str());
            },
        }
        assert(r@ =~= match self.kind {
            ErrorKind::FromUtf8Error(k) => "UTF-8 conversion error at pos="@ + decimal(self.pos as nat)
                    + ": invalid byte after "@ + decimal(k as nat) + " valid bytes"@,
            ErrorKind::InvalidMagic => "Invalid magic header at pos="@ + decimal(self.pos as nat)
                + ": Non-FBX or corrupted data?"@,
            ErrorKind::DataError(m) => "Invalid data at pos="@ + decimal(self.pos as nat) + ": "@ + m@,
            ErrorKind::UnexpectedValue(m) => "Got an unexpected value at pos="@ + decimal(self.pos as nat) + ": "@
                + m@,
            ErrorKind::UnexpectedEof => "Unexpected EOF at pos="@ + decimal(self.pos as nat),
            ErrorKind::Unimplemented(m) => "Unimplemented feature: "@ + m@,
        });
        r
    }
}

} // verus!
