use vstd::prelude::*;

verus! {

/// State that the runtime is in after an instruction was executed.
#[derive(Clone, Copy, PartialEq, Eq, Structural, Debug)]
pub enum GarnishLangRuntimeState {
    Running,
    End,
}

/// Information returned by the runtime after executing an instruction.
#[derive(Clone, Copy, PartialEq, Eq, Structural, Debug)]
pub struct GarnishLangRuntimeInfo {
    state: GarnishLangRuntimeState,
}

impl GarnishLangRuntimeInfo {
    /// The state this information was created with.
    pub closed spec fn state_of(&self) -> GarnishLangRuntimeState {
        self.state
    }

    pub fn new(state: GarnishLangRuntimeState) -> (info: Self)
        ensures
            info.state_of() == state,
    {
        GarnishLangRuntimeInfo { state }
    }

    pub fn get_state(&self) -> (state: GarnishLangRuntimeState)
        ensures
            state == self.state_of(),
    {
        self.state
    }
}

/// An error carrying a message and, optionally, the error that caused it.
#[derive(Clone, Debug)]
pub struct NestedError<T> {
    message: String,
    caused_by: Option<T>,
}

/// Errors produced by the runtime.
pub type GarnishLangRuntimeError<T> = NestedError<T>;

/// Result of a runtime operation.
pub type GarnishLangRuntimeResult<N, T = ()> = Result<T, GarnishLangRuntimeError<N>>;

/// Result whose error is a nested error.
pub type NestableResult<T, E> = Result<T, NestedError<E>>;

impl<T> NestedError<T> {
    /// The message of this error.
    pub closed spec fn message_of(&self) -> Seq<char> {
        self.message@
    }

    /// The error that caused this one, if any.
    pub closed spec fn cause_of(&self) -> Option<T> {
        self.caused_by
    }

    pub fn new(message: String) -> (e: Self)
        ensures
            e.message_of() == message@,
            e.cause_of() is None,
    {
        NestedError { message, caused_by: None }
    }

    pub fn get_message(&self) -> (m: &String)
        ensures
            m@ == self.message_of(),
    {
        &self.message
    }

    pub fn get_cause(&self) -> (c: &Option<T>)
        ensures
            *c == self.cause_of(),
    {
        &self.caused_by
    }
}

/// Creates a runtime error with the given message and no cause.
pub fn error<E>(message: String) -> (e: GarnishLangRuntimeError<E>)
    ensures
        e.message_of() == message@,
        e.cause_of() is None,
{
    GarnishLangRuntimeError::new(message)
}

/// Conversion of a result into one whose error is a nested error.
pub trait NestInto<T, E>: Sized {
    fn nest_into(self) -> NestableResult<T, E>;
}

impl<T, E> NestInto<T, E> for Result<T, E> {
    /// An `Ok` value is kept; an error becomes the cause of a nested error with an empty message.
    fn nest_into(self) -> (r: NestableResult<T, E>)
        ensures
            match self {
                Ok(v) => r == Ok::<T, NestedError<E>>(v),
                Err(e) => r is Err && r->Err_0.message_of() == Seq::<char>::empty()
                    && r->Err_0.cause_of() == Some(e),
            },
    {
        match self {
            Err(e) => Err(NestedError { message: String::new(), caused_by: Some(e) }),
            Ok(v) => Ok(v),
        }
    }
}

} // verus!
