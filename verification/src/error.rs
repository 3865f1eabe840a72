//! What can go wrong while the `shfs` binary is analysed.

use vstd::prelude::*;

verus! {

/// `elf::ParseError`, the reason the ELF parser gives for refusing a file. It
/// is carried through, never looked into.
#[verifier::external_type_specification]
#[verifier::external_body]
pub struct ExParseError(elf::ParseError);

/// `std::io::Error`, the reason the operating system gives for a failed read.
/// It is carried through, never looked into.
#[verifier::external_type_specification]
#[verifier::external_body]
pub struct ExIoError(std::io::Error);

/// An error of the analysis.
#[derive(Debug)]
pub enum ShfsError {
    /// There is no file at the path of the binary.
    BinaryNotFound { path: String },
    /// The file is there but could not be read.
    ReadError { path: String, source: std::io::Error },
    /// The file, or a section of it, is not well-formed ELF.
    ElfParseError(elf::ParseError),
    /// The file has no `.text` section or no program headers.
    ExecSegmentNotFound,
    /// A section that the analysis needs is missing.
    SectionNotFound { name: String },
    /// No loadable segment covers the address.
    AddressNotLoadable { addr: u64 },
    /// The function's name does not occur in `.rodata`.
    StringNotFound { name: String },
    /// No instruction of `.text` refers to the function's name.
    StringRefNotFound { name: String },
    /// No function start was found before a reference.
    PrologueNotFound { name: String },
}

/// The mathematical value of a [`ShfsError`].
pub enum ErrorModel {
    BinaryNotFound { path: Seq<char> },
    ReadError { path: Seq<char>, source: std::io::Error },
    ElfParseError(elf::ParseError),
    ExecSegmentNotFound,
    SectionNotFound { name: Seq<char> },
    AddressNotLoadable { addr: u64 },
    StringNotFound { name: Seq<char> },
    StringRefNotFound { name: Seq<char> },
    PrologueNotFound { name: Seq<char> },
}

impl View for ShfsError {
    type V = ErrorModel;

    open spec fn view(&self) -> ErrorModel {
        match *self {
            ShfsError::BinaryNotFound { path } => ErrorModel::BinaryNotFound { path: path@ },
            ShfsError::ReadError { path, source } => ErrorModel::ReadError { path: path@, source },
            ShfsError::ElfParseError(e) => ErrorModel::ElfParseError(e),
            ShfsError::ExecSegmentNotFound => ErrorModel::ExecSegmentNotFound,
            ShfsError::SectionNotFound { name } => ErrorModel::SectionNotFound { name: name@ },
            ShfsError::AddressNotLoadable { addr } => ErrorModel::AddressNotLoadable { addr },
            ShfsError::StringNotFound { name } => ErrorModel::StringNotFound { name: name@ },
            ShfsError::StringRefNotFound { name } => ErrorModel::StringRefNotFound { name: name@ },
            ShfsError::PrologueNotFound { name } => ErrorModel::PrologueNotFound { name: name@ },
        }
    }
}

/// The value of an error is of the same kind and has the same parts.
pub proof fn errors_show_their_parts(error: ShfsError)
    ensures
        match error {
            ShfsError::BinaryNotFound { path } => error@ == (ErrorModel::BinaryNotFound {
                path: path@,
            }),
            ShfsError::ReadError { path, source } => error@ == (ErrorModel::ReadError {
                path: path@,
                source,
            }),
            ShfsError::ElfParseError(e) => error@ == ErrorModel::ElfParseError(e),
            ShfsError::ExecSegmentNotFound => error@ == ErrorModel::ExecSegmentNotFound,
            ShfsError::SectionNotFound { name } => error@ == (ErrorModel::SectionNotFound {
                name: name@,
            }),
            ShfsError::AddressNotLoadable { addr } => error@ == (ErrorModel::AddressNotLoadable {
                addr,
            }),
            ShfsError::StringNotFound { name } => error@ == (ErrorModel::StringNotFound {
                name: name@,
            }),
            ShfsError::StringRefNotFound { name } => error@ == (ErrorModel::StringRefNotFound {
                name: name@,
            }),
            ShfsError::PrologueNotFound { name } => error@ == (ErrorModel::PrologueNotFound {
                name: name@,
            }),
        },
{
}

/// A result with its value and its error taken by their mathematical values.
pub open spec fn modelled<T: DeepView>(result: Result<T, ShfsError>) -> Result<T::V, ErrorModel> {
    match result {
        Ok(value) => Ok(value.deep_view()),
        Err(e) => Err(e@),
    }
}

/// The value of a result succeeds and fails as the result does, with the value
/// of what it holds.
pub proof fn results_show_what_they_hold<T: DeepView>(result: Result<T, ShfsError>)
    ensures
        match (result, modelled(result)) {
            (Ok(value), Ok(model)) => model == value.deep_view(),
            (Err(e), Err(model)) => model == e@,
            _ => false,
        },
{
}

} // verus!
