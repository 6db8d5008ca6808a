//! The records a suggestion works on: skills, the user's input and the judge's request.

use vstd::prelude::*;

use crate::error::JevxError;
use crate::text::{chars_of, string_from_chars, trim, trim_chars};

verus! {

pub const SUGGESTION_SCHEMA_VERSION: u8 = 2;

/// A skill found on disk. `path` is the file's path as text.
#[derive(Debug, Clone, PartialEq, Eq)]
pub struct SkillRecord {
    pub id: String,
    pub name: String,
    pub description: String,
    pub path: String,
    pub source: String,
}

/// The text of each field, in declaration order.
pub open spec fn skill_view(s: SkillRecord) -> (Seq<char>, Seq<char>, Seq<char>, Seq<char>, Seq<char>) {
    (s.id@, s.name@, s.description@, s.path@, s.source@)
}

impl SkillRecord {
    /// A copy of the record, field for field.
    pub fn duplicate(&self) -> (res: SkillRecord)
        ensures
            skill_view(res) == skill_view(*self),
    {
        SkillRecord {
            id: self.id.clone(),
            name: self.name.clone(),
            description: self.description.clone(),
            path: self.path.clone(),
            source: self.source.clone(),
        }
    }

    /// A skill whose display name is its id.
    pub fn new(id: String, description: String, path: String, source: String) -> (res: SkillRecord)
        ensures
            res.id@ == id@,
            res.name@ == id@,
            res.description@ == description@,
            res.path@ == path@,
            res.source@ == source@,
    {
        SkillRecord { name: id.clone(), id, description, path, source }
    }
}

/// What the user asked, and from where.
#[derive(Debug, Clone, PartialEq, Eq)]
pub struct SuggestInput {
    pub prompt: String,
    pub cwd: String,
    pub explicit_skill: Option<String>,
}

pub open spec fn opt_string_view(v: Option<String>) -> Option<Seq<char>> {
    match v {
        Some(s) => Some(s@),
        None => None,
    }
}

impl SuggestInput {
    pub fn new(prompt: String, cwd: String) -> (res: SuggestInput)
        ensures
            res.prompt@ == prompt@,
            res.cwd@ == cwd@,
            res.explicit_skill is None,
    {
        SuggestInput { prompt, cwd, explicit_skill: None }
    }

    /// The input read from its JSON fields: the prompt is trimmed and must not be empty;
    /// a missing working directory is `.`.
    pub fn from_fields(prompt: &str, cwd: Option<String>, explicit_skill: Option<String>) -> (res:
        Result<SuggestInput, JevxError>)
        ensures
            trim(prompt@).len() == 0 <==> res is Err,
            res matches Err(e) ==> e matches JevxError::InvalidInput(m) && m@
                == "prompt must not be empty"@,
            res matches Ok(input) ==> {
                &&& input.prompt@ == trim(prompt@)
                &&& input.cwd@ == (match cwd {
                    Some(c) => c@,
                    None => "."@,
                })
                &&& opt_string_view(input.explicit_skill) == opt_string_view(explicit_skill)
            },
    {
        let chars = chars_of(prompt);
        let t = trim_chars(&chars);
        if t.len() == 0 {
            return Err(JevxError::invalid_input("prompt must not be empty"));
        }
        let cwd = match cwd {
            Some(c) => c,
            None => ".".to_owned(),
        };
        Ok(SuggestInput { prompt: string_from_chars(&t), cwd, explicit_skill })
    }
}

#[derive(Debug, Clone, Copy, PartialEq, Eq, Structural)]
pub enum CandidateDecision {
    Selected,
    Explicit,
    /// The judge chose no candidate (reported as `none`).
    NoMatch,
    NoCandidates,
    Error,
}

/// A candidate as the judge sees it.
#[derive(Debug, Clone)]
pub struct JudgeCandidate {
    pub id: String,
    pub name: String,
    pub description: String,
}

/// What is sent to the judge: the redacted state and the candidates.
#[derive(Debug, Clone)]
pub struct JudgeRequest {
    pub state: String,
    pub candidates: Vec<JudgeCandidate>,
}

} // verus!
