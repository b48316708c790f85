//! What the asynchronous loader subsystem reports back into the
//! engine: its failure taxonomy and the completion status of a movie
//! load. The fetch loops themselves live with the host; the engine only
//! consumes these outcomes.
use vstd::prelude::*;

verus! {

/// Why a load failed (carrying the collaborating subsystem's message as
/// text where it had one).
#[derive(Clone, Debug)]
pub enum Error {
    /// The load was cancelled.
    Cancelled,
    /// A loader of another kind was spawned as the root-movie loader.
    NotRootMovieLoader,
    /// A loader of another kind was spawned as a movie loader.
    NotMovieLoader,
    /// A loader of another kind was spawned as a form loader.
    NotFormLoader,
    /// A loader of another kind was spawned as a variable loader.
    NotLoadVarsLoader,
    /// A loader of another kind was spawned as a markup loader.
    NotXmlLoader,
    /// The movie could not be fetched.
    FetchError(String),
    /// The fetched container was invalid.
    InvalidSwf(String),
    /// The fetched markup was not valid text.
    InvalidXmlEncoding(String),
    /// The network failed.
    NetworkError(String),
    /// No network backend is available.
    NetworkUnavailable,
    /// Script run on completion failed.
    Avm1Error(String),
}

impl Error {
    /// A short description, for diagnostics.
    pub fn describe(&self) -> (r: &'static str)
        ensures
            r@ == spec_error_text(*self),
    {
        match self {
            Error::Cancelled => "load cancelled",
            Error::NotRootMovieLoader => "not a root movie loader",
            Error::NotMovieLoader => "not a movie loader",
            Error::NotFormLoader => "not a form loader",
            Error::NotLoadVarsLoader => "not a variable loader",
            Error::NotXmlLoader => "not a markup loader",
            Error::FetchError(_) => "could not fetch movie",
            Error::InvalidSwf(_) => "invalid movie container",
            Error::InvalidXmlEncoding(_) => "invalid markup encoding",
            Error::NetworkError(_) => "network error",
            Error::NetworkUnavailable => "network unavailable",
            Error::Avm1Error(_) => "error running script",
        }
    }
}

pub open spec fn spec_error_text(e: Error) -> Seq<char> {
    match e {
        Error::Cancelled => "load cancelled"@,
        Error::NotRootMovieLoader => "not a root movie loader"@,
        Error::NotMovieLoader => "not a movie loader"@,
        Error::NotFormLoader => "not a form loader"@,
        Error::NotLoadVarsLoader => "not a variable loader"@,
        Error::NotXmlLoader => "not a markup loader"@,
        Error::FetchError(_) => "could not fetch movie"@,
        Error::InvalidSwf(_) => "invalid movie container"@,
        Error::InvalidXmlEncoding(_) => "invalid markup encoding"@,
        Error::NetworkError(_) => "network error"@,
        Error::NetworkUnavailable => "network unavailable"@,
        Error::Avm1Error(_) => "error running script"@,
    }
}

/// The completion status of a loading movie.
#[derive(Clone, Copy, PartialEq, Eq, Structural, Debug)]
pub enum LoaderStatus {
    /// The movie has not been loaded yet.
    Pending,
    /// The movie loaded successfully.
    Succeeded,
    /// An error occurred while loading the movie.
    Failed,
}

impl LoaderStatus {
    /// How a finished fetch settles a pending load; a load already
    /// settled keeps its status.
    pub fn settle(self, success: bool) -> (r: LoaderStatus)
        ensures
            self is Pending ==> r == (if success {
                LoaderStatus::Succeeded
            } else {
                LoaderStatus::Failed
            }),
            !(self is Pending) ==> r == self,
    {
        match self {
            LoaderStatus::Pending => if success {
                LoaderStatus::Succeeded
            } else {
                LoaderStatus::Failed
            },
            other => other,
        }
    }
}

} // verus!
