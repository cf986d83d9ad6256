use vstd::prelude::*;
use vstd::string::StringExecFns;

verus! {

/// Everything that can end a run.
#[derive(Debug)]
pub enum AppError {
    ApiError(String),
    RateLimited,
    InvalidRiotId,
    PlayerNotFound(String),
    NoRankedGames,
    ConfigError(String),
    HttpError(String),
    JsonError(String),
}

/// The text shown to the user for an error.
pub open spec fn error_text(e: AppError) -> Seq<char> {
    match e {
        AppError::ApiError(s) => "API error: "@ + s@,
        AppError::RateLimited => "Rate limit exceeded, please try again later"@,
        AppError::InvalidRiotId => "Invalid Riot ID format. Use format: Name#TAG"@,
        AppError::PlayerNotFound(s) => "Player not found: "@ + s@,
        AppError::NoRankedGames => "No ranked games found for this player"@,
        AppError::ConfigError(s) => "Configuration error: "@ + s@,
        AppError::HttpError(s) => "HTTP error: "@ + s@,
        AppError::JsonError(s) => "JSON parsing error: "@ + s@,
    }
}

impl AppError {
    /// The text shown to the user for this error.
    pub fn message(&self) -> (r: String)
        ensures
            r@ == error_text(*self),
    {
        match self {
            AppError::ApiError(s) => String::from_str("API error: ").concat(s.as_str()),
            AppError::RateLimited => String::from_str("Rate limit exceeded, please try again later"),
            AppError::InvalidRiotId => String::from_str("Invalid Riot ID format. Use format: Name#TAG"),
            AppError::PlayerNotFound(s) => String::from_str("Player not found: ").concat(s.as_str()),
            AppError::NoRankedGames => String::from_str("No ranked games found for this player"),
            AppError::ConfigError(s) => String::from_str("Configuration error: ").concat(s.as_str()),
            AppError::HttpError(s) => String::from_str("HTTP error: ").concat(s.as_str()),
            AppError::JsonError(s) => String::from_str("JSON parsing error: ").concat(s.as_str()),
        }
    }
}

} // verus!
