use vstd::prelude::*;

verus! {

/// Errors reported by the library.
#[derive(Debug)]
pub enum GenieError {
    /// A feature that has not been written yet; holds the full message.
    NotImplemented(String),
    /// The model produced only whitespace.
    NoOutput,
    /// The embedder produced vectors of dimension zero, or none at all.
    NoVectors,
    /// A retrieval result lacked the named column.
    MissingColumn(String),
    /// A document question was asked without a `--doc` or `--txt` path.
    NoDocumentPath,
}

/// The message of an error, as it is shown to the user.
pub open spec fn error_message(e: GenieError) -> Seq<char> {
    match e {
        GenieError::NotImplemented(m) => m@,
        GenieError::NoOutput => "generation produced no output"@,
        GenieError::NoVectors => "embedder returned no vectors"@,
        GenieError::MissingColumn(c) => "missing "@ + c@ + " column"@,
        GenieError::NoDocumentPath => "no --doc/--txt path"@,
    }
}

impl GenieError {
    /// The message of this error, as it is shown to the user.
    pub fn message(&self) -> (m: String)
        ensures
            m@ == error_message(*self),
    {
        match self {
            GenieError::NotImplemented(m) => m.clone(),
            GenieError::NoOutput => "generation produced no output".to_string(),
            GenieError::NoVectors => "embedder returned no vectors".to_string(),
            GenieError::MissingColumn(c) => {
                let mut m = "missing ".to_string();
                m.append(c.as_str());
                m.append(" column");
                m
            },
            GenieError::NoDocumentPath => "no --doc/--txt path".to_string(),
        }
    }
}

} // verus!
