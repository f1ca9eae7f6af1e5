use vstd::prelude::*;

verus! {

/// The failure kinds that core operations report. Every fallible operation of
/// this library returns one of these; nothing is silently swallowed or retried.
#[derive(Clone, Copy, Debug, PartialEq, Eq, Structural)]
pub enum ErrorKind {
    /// The requested entry does not exist.
    NotFound,
    /// The path resolves to a directory where a file operation was requested,
    /// or a directory operation was refused (recursive flag missing, copy of a
    /// directory).
    IsDirectory,
    /// The target entry already exists and overwriting was not requested.
    EntryExists,
    /// A blob does not have the shape its scheme demands: wrong number of
    /// delimited fields, a field that is not valid base64, or an IV field of
    /// the wrong size.
    Malformed,
    /// The stored tag does not match the tag recomputed from the ciphertext:
    /// wrong key or tampered data. Decryption is not attempted in this case.
    AuthenticationFailed,
    /// The tag matched but the payload did not decrypt to a cleartext string;
    /// this indicates a deeper bug and is kept distinct from
    /// `AuthenticationFailed` to aid diagnosis.
    DecryptFailed,
    /// A directory or file operation failed.
    IoError,
    /// An operation was attempted before a key was established.
    NoKey,
}

impl ErrorKind {
    /// The description that `message` returns for each kind.
    pub open spec fn message_spec(self) -> Seq<char> {
        match self {
            ErrorKind::NotFound => "Entry does not exist"@,
            ErrorKind::IsDirectory => "Entry is a directory"@,
            ErrorKind::EntryExists => "Entry already exists"@,
            ErrorKind::Malformed => "Malformed entry"@,
            ErrorKind::AuthenticationFailed => "Mac did not match with calculated mac. Key is probably wrong or data was corrupted"@,
            ErrorKind::DecryptFailed => "Could not decrypt. Is the key correct?"@,
            ErrorKind::IoError => "An error occurred during a file operation"@,
            ErrorKind::NoKey => "No key given"@,
        }
    }

    /// A short human-readable description of the failure.
    pub fn message(&self) -> (r: &'static str)
        ensures
            r@ == self.message_spec(),
    {
        match self {
            ErrorKind::NotFound => "Entry does not exist",
            ErrorKind::IsDirectory => "Entry is a directory",
            ErrorKind::EntryExists => "Entry already exists",
            ErrorKind::Malformed => "Malformed entry",
            ErrorKind::AuthenticationFailed => "Mac did not match with calculated mac. Key is probably wrong or data was corrupted",
            ErrorKind::DecryptFailed => "Could not decrypt. Is the key correct?",
            ErrorKind::IoError => "An error occurred during a file operation",
            ErrorKind::NoKey => "No key given",
        }
    }
}

} // verus!
