//! Errors of the driver.

use vstd::prelude::*;
use vstd::string::*;
use vstd::std_specs::convert::FromSpecImpl;

verus! {

/// `std::io::Error`, taken as it comes: only its text is read.
#[verifier::external_type_specification]
#[verifier::external_body]
pub struct ExIoError(std::io::Error);

/// `std::string::FromUtf8Error`, taken as it comes: only its text is read.
#[verifier::external_type_specification]
#[verifier::external_body]
pub struct ExFromUtf8Error(std::string::FromUtf8Error);

/// What stands before the text of a failed input or output operation.
pub const IO_ERROR: &'static str = "IO error: ";

/// What stands before the text of a failed decoding of UTF-8.
pub const UTF8_ERROR: &'static str = "UTF8 error: ";

/// What stands before the message of a failed run.
pub const ERROR_PREFIX: &'static str = "ERROR: ";

/// The one line that reports a failed run.
pub fn error_line(message: &str) -> (r: String)
    ensures
        r@ == ERROR_PREFIX@ + message@,
{
    ERROR_PREFIX.to_owned().concat(message)
}

/// What went wrong, as it is shown to the user.
pub struct AppError {
    message: String,
}

impl View for AppError {
    type V = Seq<char>;

    closed spec fn view(&self) -> Seq<char> {
        self.message@
    }
}

impl AppError {
    /// The error that shows `message`.
    pub fn new(message: &str) -> (r: AppError)
        ensures
            r@ == message@,
    {
        AppError { message: message.to_owned() }
    }

    /// An input or output operation failed; `detail` says how.
    pub fn io(detail: &str) -> (r: AppError)
        ensures
            r@ == IO_ERROR@ + detail@,
    {
        AppError { message: IO_ERROR.to_owned().concat(detail) }
    }

    /// Bytes that should have been text were not UTF-8; `detail` says where.
    pub fn utf8(detail: &str) -> (r: AppError)
        ensures
            r@ == UTF8_ERROR@ + detail@,
    {
        AppError { message: UTF8_ERROR.to_owned().concat(detail) }
    }
}

impl From<std::io::Error> for AppError {
    /// The error that shows the text of `value` behind its prefix.
    fn from(value: std::io::Error) -> (r: Self)
        ensures
            exists|text: String| #[trigger]
                vstd::string::to_string_from_display_ensures::<std::io::Error>(
                    &value,
                    text,
                ) && r@ == IO_ERROR@ + text@,
    {
        let text = value.to_string();
        AppError::io(text.as_str())
    }
}

impl FromSpecImpl<std::io::Error> for AppError {
    /// The text is what `to_string` gives for the error, which vstd states as a
    /// relation and not as a function: `from` carries its own clause.
    open spec fn obeys_from_spec() -> bool {
        false
    }

    open spec fn from_spec(value: std::io::Error) -> Self {
        arbitrary()
    }
}

impl From<std::string::FromUtf8Error> for AppError {
    /// The error that shows the text of `value` behind its prefix.
    fn from(value: std::string::FromUtf8Error) -> (r: Self)
        ensures
            exists|text: String| #[trigger]
                vstd::string::to_string_from_display_ensures::<std::string::FromUtf8Error>(
                    &value,
                    text,
                ) && r@ == UTF8_ERROR@ + text@,
    {
        let text = value.to_string();
        AppError::utf8(text.as_str())
    }
}

impl FromSpecImpl<std::string::FromUtf8Error> for AppError {
    /// The text is what `to_string` gives for the error, which vstd states as a
    /// relation and not as a function: `from` carries its own clause.
    open spec fn obeys_from_spec() -> bool {
        false
    }

    open spec fn from_spec(value: std::string::FromUtf8Error) -> Self {
        arbitrary()
    }
}

impl From<AppError> for String {
    fn from(value: AppError) -> (r: Self)
        ensures
            r@ == value@,
    {
        value.message
    }
}

impl FromSpecImpl<AppError> for String {
    open spec fn obeys_from_spec() -> bool {
        true
    }

    closed spec fn from_spec(value: AppError) -> Self {
        value.message
    }
}

} // verus!
