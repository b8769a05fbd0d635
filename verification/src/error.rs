//! The library's error type.
use vstd::prelude::*;

verus! {

/// Errors of the library, each with its message.
#[derive(Debug, PartialEq, Eq)]
pub enum NarouError {
    Io(String),
    Yaml(String),
    Http(String),
    Platform(String),
    Regex(String),
    Database(String),
    SuspendDownload(String),
    NotFound(String),
    InvalidTarget(String),
    Conversion(String),
    SiteSetting(String),
    DownloadBudgetExpired { next_section_index: usize },
    DownloadResumeCorrupt(String),
    Unsupported(String),
    Login(String),
}

impl NarouError {
    /// The detail text the error carries.
    pub open spec fn detail(self) -> Seq<char> {
        match self {
            NarouError::Io(m) => m@,
            NarouError::Yaml(m) => m@,
            NarouError::Http(m) => m@,
            NarouError::Platform(m) => m@,
            NarouError::Regex(m) => m@,
            NarouError::Database(m) => m@,
            NarouError::SuspendDownload(m) => m@,
            NarouError::NotFound(m) => m@,
            NarouError::InvalidTarget(m) => m@,
            NarouError::Conversion(m) => m@,
            NarouError::SiteSetting(m) => m@,
            NarouError::DownloadBudgetExpired { .. } => Seq::empty(),
            NarouError::DownloadResumeCorrupt(m) => m@,
            NarouError::Unsupported(m) => m@,
            NarouError::Login(m) => m@,
        }
    }

    /// The detail text of the error (the part after the kind's label).
    pub fn detail_text(&self) -> (r: String)
        ensures
            r@ == self.detail(),
    {
        match self {
            NarouError::Io(m) => m.clone(),
            NarouError::Yaml(m) => m.clone(),
            NarouError::Http(m) => m.clone(),
            NarouError::Platform(m) => m.clone(),
            NarouError::Regex(m) => m.clone(),
            NarouError::Database(m) => m.clone(),
            NarouError::SuspendDownload(m) => m.clone(),
            NarouError::NotFound(m) => m.clone(),
            NarouError::InvalidTarget(m) => m.clone(),
            NarouError::Conversion(m) => m.clone(),
            NarouError::SiteSetting(m) => m.clone(),
            NarouError::DownloadBudgetExpired { .. } => String::new(),
            NarouError::DownloadResumeCorrupt(m) => m.clone(),
            NarouError::Unsupported(m) => m.clone(),
            NarouError::Login(m) => m.clone(),
        }
    }
}

} // verus!
