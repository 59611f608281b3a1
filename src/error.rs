use vstd::prelude::*;

verus! {

#[verifier::external_type_specification]
#[verifier::external_body]
pub struct ExIoError(std::io::Error);

/// The errors of setting up a database.
#[derive(Debug)]
pub enum DbError {
    IoError(std::io::Error),
    InvalidBlockSize,
    InvalidBufferSize,
}

} // verus!
