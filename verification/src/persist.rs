use vstd::prelude::*;

verus! {

/// The settings kept between sessions; a setting that was never saved is `None`.
#[derive(Debug, Clone)]
pub struct PersistentConfig {
    pub theme: Option<String>,
    pub language: Option<String>,
    pub mode: Option<String>,
    pub time_duration: Option<u64>,
    pub word_count: Option<usize>,
    pub punctuation: Option<bool>,
    pub numbers: Option<bool>,
}

impl Default for PersistentConfig {
    /// Nothing saved.
    fn default() -> (r: Self)
        ensures
            r.theme is None,
            r.language is None,
            r.mode is None,
            r.time_duration is None,
            r.word_count is None,
            r.punctuation is None,
            r.numbers is None,
    {
        PersistentConfig {
            theme: None,
            language: None,
            mode: None,
            time_duration: None,
            word_count: None,
            punctuation: None,
            numbers: None,
        }
    }
}

} // verus!
