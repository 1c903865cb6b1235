//! What a run can end in other than a healthy probe.

use vstd::prelude::*;

verus! {

/// A failed probe, a configuration that cannot be used, or a fault of the tool itself.
#[derive(Debug)]
pub enum AppError {
    /// The probe ran and the target is not healthy.
    Failure(String),
    /// The arguments or the configuration cannot be used.
    InvalidConfig(String),
    /// Something went wrong that neither the target nor the caller is to blame for.
    Internal(String),
}

/// The result of an operation that can end in an [`AppError`].
pub type Result<T> = core::result::Result<T, AppError>;

/// An [`AppError`] with its message as a sequence of characters.
pub enum ErrorView {
    Failure(Seq<char>),
    InvalidConfig(Seq<char>),
    Internal(Seq<char>),
}

impl View for AppError {
    type V = ErrorView;

    open spec fn view(&self) -> ErrorView {
        match self {
            AppError::Failure(message) => ErrorView::Failure(message@),
            AppError::InvalidConfig(message) => ErrorView::InvalidConfig(message@),
            AppError::Internal(message) => ErrorView::Internal(message@),
        }
    }
}

impl ErrorView {
    /// The message, whatever the kind.
    pub open spec fn message(self) -> Seq<char> {
        match self {
            ErrorView::Failure(message) => message,
            ErrorView::InvalidConfig(message) => message,
            ErrorView::Internal(message) => message,
        }
    }

    /// The exit code that the kind stands for.
    pub open spec fn code(self) -> int {
        match self {
            ErrorView::Failure(_) => 1,
            ErrorView::InvalidConfig(_) => 3,
            ErrorView::Internal(_) => 4,
        }
    }
}

/// The error of a result, if it is one.
pub open spec fn fault<T>(r: Result<T>) -> Option<ErrorView> {
    match r {
        Ok(_) => None,
        Err(error) => Some(error@),
    }
}

/// The first error of two checks that are made one after the other.
pub open spec fn first_fault(a: Option<ErrorView>, b: Option<ErrorView>) -> Option<ErrorView> {
    match a {
        Some(error) => Some(error),
        None => b,
    }
}

/// An invalid configuration with this message.
pub open spec fn config_fault(message: Seq<char>) -> Option<ErrorView> {
    Some(ErrorView::InvalidConfig(message))
}

/// A failed probe with this message.
pub open spec fn failure_fault(message: Seq<char>) -> Option<ErrorView> {
    Some(ErrorView::Failure(message))
}

/// The first error that a check finds in a list.
pub open spec fn first_of<T>(s: Seq<T>, check: spec_fn(T) -> Option<ErrorView>) -> Option<ErrorView>
    decreases s.len(),
{
    if s.len() == 0 {
        None
    } else {
        first_fault(check(s[0]), first_of(s.skip(1), check))
    }
}

/// The first error of a list is that of the first item with one.
pub proof fn lemma_first_of<T>(s: Seq<T>, check: spec_fn(T) -> Option<ErrorView>, i: int)
    requires
        0 <= i <= s.len(),
        forall|j: int| 0 <= j < i ==> check(#[trigger] s[j]) is None,
        i < s.len() ==> check(s[i]) is Some,
    ensures
        first_of(s, check) == if i < s.len() {
            check(s[i])
        } else {
            None
        },
    decreases s.len(),
{
    if s.len() > 0 && i > 0 {
        let t = s.skip(1);
        assert(check(s[0]) is None);
        assert forall|j: int| 0 <= j < i - 1 implies check(#[trigger] t[j]) is None by {
            assert(t[j] == s[j + 1]);
        }
        lemma_first_of(t, check, i - 1);
    }
}

/// A list without an error holds no item with one.
pub proof fn lemma_first_of_none<T>(s: Seq<T>, check: spec_fn(T) -> Option<ErrorView>)
    requires
        first_of(s, check) is None,
    ensures
        forall|i: int| 0 <= i < s.len() ==> check(#[trigger] s[i]) is None,
    decreases s.len(),
{
    if s.len() > 0 {
        let t = s.skip(1);
        lemma_first_of_none(t, check);
        assert forall|i: int| 0 <= i < s.len() implies check(#[trigger] s[i]) is None by {
            if i > 0 {
                assert(s[i] == t[i - 1]);
            }
        }
    }
}

/// How a process ends: its exit code and the line that it writes to standard error, if any.
#[derive(Debug)]
pub struct Exit {
    pub code: i32,
    pub line: Option<String>,
}

impl AppError {
    /// A failed probe.
    pub fn failure(message: String) -> (r: AppError)
        ensures
            r@ == ErrorView::Failure(message@),
    {
        AppError::Failure(message)
    }

    /// Arguments or a configuration that cannot be used.
    pub fn invalid_config(message: String) -> (r: AppError)
        ensures
            r@ == ErrorView::InvalidConfig(message@),
    {
        AppError::InvalidConfig(message)
    }

    /// A fault of the tool itself.
    pub fn internal(message: String) -> (r: AppError)
        ensures
            r@ == ErrorView::Internal(message@),
    {
        AppError::Internal(message)
    }

    /// The message.
    pub fn to_string(&self) -> (r: String)
        ensures
            r@ == self@.message(),
    {
        match self {
            AppError::Failure(message) => message.clone(),
            AppError::InvalidConfig(message) => message.clone(),
            AppError::Internal(message) => message.clone(),
        }
    }

    /// The exit code: 1 for a failed probe, 3 for a configuration that cannot be used, 4 for an
    /// internal error.
    pub fn exit_code(&self) -> (r: i32)
        ensures
            r == self@.code(),
            r == match self {
                AppError::Failure(_) => 1i32,
                AppError::InvalidConfig(_) => 3,
                AppError::Internal(_) => 4,
            },
    {
        match self {
            AppError::Failure(_) => 1,
            AppError::InvalidConfig(_) => 3,
            AppError::Internal(_) => 4,
        }
    }

    /// How the process ends on this error: with the code of the error, and with its message as
    /// the line to print unless `quiet` asks for silence.
    pub fn print_and_exit_code_with_quiet(&self, quiet: bool) -> (r: Exit)
        ensures
            r.code == self@.code(),
            quiet ==> r.line is None,
            !quiet ==> (r.line matches Some(line) && line@ == self@.message()),
    {
        let line = if quiet {
            None
        } else {
            Some(self.to_string())
        };
        Exit { code: self.exit_code(), line }
    }
}

/// A process that ends on an error never ends with the code of a healthy probe, and the code
/// tells the kind of the error.
pub proof fn lemma_exit_codes_tell_kinds(a: ErrorView, b: ErrorView)
    ensures
        a.code() != 0,
        a.code() == b.code() <==> {
            ||| a is Failure && b is Failure
            ||| a is InvalidConfig && b is InvalidConfig
            ||| a is Internal && b is Internal
        },
{
}

} // verus!
