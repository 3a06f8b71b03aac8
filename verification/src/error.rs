//! The ways a translation can fail.

use vstd::prelude::*;

verus! {

/// Why a translation did not produce a text.
#[derive(Debug, PartialEq, Eq)]
pub enum TranslationError {
    /// The cancellation signal was observed.
    Cancelled,
    /// The endpoint answered that too many requests were made.
    RateLimited,
    /// The endpoint refused the request or asked for a captcha.
    Blocked,
    /// The endpoint answered with something that is not a translation.
    InvalidResponse(String),
    /// The request did not get through.
    Network(String),
    /// The caller handed over something that cannot be translated.
    InvalidInput(String),
}

/// The mathematical form of a [`TranslationError`].
pub ghost enum Failure {
    Cancelled,
    RateLimited,
    Blocked,
    InvalidResponse(Seq<char>),
    Network(Seq<char>),
    InvalidInput(Seq<char>),
}

impl View for TranslationError {
    type V = Failure;

    open spec fn view(&self) -> Failure {
        match self {
            TranslationError::Cancelled => Failure::Cancelled,
            TranslationError::RateLimited => Failure::RateLimited,
            TranslationError::Blocked => Failure::Blocked,
            TranslationError::InvalidResponse(reason) => Failure::InvalidResponse(reason@),
            TranslationError::Network(reason) => Failure::Network(reason@),
            TranslationError::InvalidInput(reason) => Failure::InvalidInput(reason@),
        }
    }
}

impl Failure {
    /// A failure that may go away when the request is made again.
    pub open spec fn is_transient(self) -> bool {
        self is RateLimited || self is Network
    }

    /// The text shown to a user for this failure.
    pub open spec fn message(self) -> Seq<char> {
        match self {
            Failure::Cancelled => "cancelled"@,
            Failure::RateLimited => "provider rate limited"@,
            Failure::Blocked => "provider blocked or captcha detected"@,
            Failure::InvalidResponse(reason) => reason,
            Failure::Network(reason) => reason,
            Failure::InvalidInput(reason) => reason,
        }
    }
}

impl Clone for TranslationError {
    fn clone(&self) -> (out: Self)
        ensures
            out@ == self@,
    {
        match self {
            TranslationError::Cancelled => TranslationError::Cancelled,
            TranslationError::RateLimited => TranslationError::RateLimited,
            TranslationError::Blocked => TranslationError::Blocked,
            TranslationError::InvalidResponse(reason) => TranslationError::InvalidResponse(
                reason.clone(),
            ),
            TranslationError::Network(reason) => TranslationError::Network(reason.clone()),
            TranslationError::InvalidInput(reason) => TranslationError::InvalidInput(
                reason.clone(),
            ),
        }
    }
}

/// The mathematical form of what a translation step hands back.
pub open spec fn outcome_view(outcome: Result<String, TranslationError>) -> Result<
    Seq<char>,
    Failure,
> {
    match outcome {
        Ok(text) => Ok(text@),
        Err(error) => Err(error@),
    }
}

impl TranslationError {
    /// Whether the request is worth making again.
    pub fn is_transient(&self) -> (r: bool)
        ensures
            r == self@.is_transient(),
    {
        match self {
            TranslationError::RateLimited => true,
            TranslationError::Network(_) => true,
            _ => false,
        }
    }

    /// The text shown to a user for this failure.
    pub fn message(&self) -> (text: String)
        ensures
            text@ == self@.message(),
    {
        match self {
            TranslationError::Cancelled => "cancelled".to_owned(),
            TranslationError::RateLimited => "provider rate limited".to_owned(),
            TranslationError::Blocked => "provider blocked or captcha detected".to_owned(),
            TranslationError::InvalidResponse(reason) => reason.clone(),
            TranslationError::Network(reason) => reason.clone(),
            TranslationError::InvalidInput(reason) => reason.clone(),
        }
    }
}

} // verus!
