//! Answering clarification questions: refuse, fall back to the suggested
//! default, or look the question up in recorded answers.
use vstd::prelude::*;

use crate::assertions::{debug_quote, debug_quoted};
use crate::text::{push_str, str_eq};

verus! {

/// Why a question got no answer.
#[derive(Debug, Clone, PartialEq, Eq)]
pub enum KnowledgeError {
    NoBackendConfigured,
    NoAnswer { question: String },
    Other { message: String },
}

/// The message of a knowledge error; a question is shown quoted as
/// `{:?}` renders it.
pub open spec fn knowledge_error_text(e: KnowledgeError) -> Seq<char> {
    match e {
        KnowledgeError::NoBackendConfigured => "no knowledge backend configured"@,
        KnowledgeError::NoAnswer { question } => "no answer recorded for question "@ + debug_quoted(question@),
        KnowledgeError::Other { message } => message@,
    }
}

impl KnowledgeError {
    /// The error's message.
    pub fn message(&self) -> (s: String)
        ensures
            s@ == knowledge_error_text(*self),
    {
        match self {
            KnowledgeError::NoBackendConfigured => {
                let mut s = String::new();
                push_str(&mut s, "no knowledge backend configured");
                s
            },
            KnowledgeError::NoAnswer { question } => {
                let mut s = String::new();
                push_str(&mut s, "no answer recorded for question ");
                let q = debug_quote(question.as_str());
                push_str(&mut s, q.as_str());
                s
            },
            KnowledgeError::Other { message } => {
                let mut s = String::new();
                push_str(&mut s, message.as_str());
                s
            },
        }
    }
}

/// Why the clarify tool could not answer: the knowledge base's error.
#[derive(Debug, Clone, PartialEq, Eq)]
pub enum ClarifyError {
    Knowledge(KnowledgeError),
}

impl ClarifyError {
    /// The message of the underlying knowledge error.
    pub fn message(&self) -> (s: String)
        ensures
            match *self {
                ClarifyError::Knowledge(k) => s@ == knowledge_error_text(k),
            },
    {
        match self {
            ClarifyError::Knowledge(k) => k.message(),
        }
    }
}

/// The arguments of the clarify tool.
#[derive(Debug, Clone, PartialEq, Eq)]
pub struct ClarifyArgs {
    pub question: String,
    pub default: Option<String>,
}

/// A backend that answers nothing.
pub struct RefuseKnowledgeBase;

impl RefuseKnowledgeBase {
    /// Every question is refused.
    pub fn ask(&self, question: &str, default: Option<&str>) -> (r: Result<String, KnowledgeError>)
        ensures
            r == Err::<String, KnowledgeError>(KnowledgeError::NoBackendConfigured),
    {
        Err(KnowledgeError::NoBackendConfigured)
    }
}

/// A backend that answers with the suggested default.
pub struct DefaultOnlyKnowledgeBase;

impl DefaultOnlyKnowledgeBase {
    /// The default when there is one; otherwise `NoAnswer`.
    pub fn ask(&self, question: &str, default: Option<&str>) -> (r: Result<String, KnowledgeError>)
        ensures
            match default {
                Some(d) => r matches Ok(a) && a@ == d@,
                None => r matches Err(KnowledgeError::NoAnswer { question: q }) && q@ == question@,
            },
    {
        match default {
            Some(d) => Ok(d.to_owned()),
            None => Err(KnowledgeError::NoAnswer { question: question.to_owned() }),
        }
    }
}

/// A backend with recorded answers.
pub struct MapKnowledgeBase {
    answers: Vec<(String, String)>,
}

/// The answer of the last entry for `question`.
pub open spec fn last_answer(entries: Seq<(Seq<char>, Seq<char>)>, question: Seq<char>) -> Option<Seq<char>>
    decreases entries.len(),
{
    if entries.len() == 0 {
        None
    } else if entries.last().0 == question {
        Some(entries.last().1)
    } else {
        last_answer(entries.drop_last(), question)
    }
}

impl MapKnowledgeBase {
    /// The question-to-answer map: for a question recorded more than once,
    /// the last answer.
    pub closed spec fn answers_view(&self) -> Map<Seq<char>, Seq<char>> {
        Map::new(
            |q: Seq<char>| last_answer(crate::workflow::pairs_view(self.answers@), q) is Some,
            |q: Seq<char>| last_answer(crate::workflow::pairs_view(self.answers@), q)->0,
        )
    }

    /// A backend answering from `answers` (question, answer); a question
    /// listed twice keeps its last answer.
    pub fn new(answers: Vec<(String, String)>) -> (r: Self)
        ensures
            forall|q: Seq<char>| #[trigger] r.answers_view().contains_key(q) == (last_answer(
                crate::workflow::pairs_view(answers@),
                q,
            ) is Some),
            forall|q: Seq<char>| r.answers_view().contains_key(q) ==> #[trigger] r.answers_view()[q] == last_answer(
                crate::workflow::pairs_view(answers@),
                q,
            )->0,
    {
        MapKnowledgeBase { answers }
    }

    /// The recorded answer to `question`, or `NoAnswer`.
    pub fn ask(&self, question: &str, default: Option<&str>) -> (r: Result<String, KnowledgeError>)
        ensures
            self.answers_view().contains_key(question@) ==> (r matches Ok(a) && a@ == self.answers_view()[question@]),
            !self.answers_view().contains_key(question@) ==> (r matches Err(KnowledgeError::NoAnswer { question: q })
                && q@ == question@),
    {
        let ghost pv = crate::workflow::pairs_view(self.answers@);
        let mut i: usize = self.answers.len();
        assert(pv.take(i as int) =~= pv);
        while i > 0
            invariant
                i <= self.answers@.len(),
                pv == crate::workflow::pairs_view(self.answers@),
                last_answer(pv, question@) == last_answer(pv.take(i as int), question@),
            decreases i,
        {
            proof {
                assert(pv.take(i as int).drop_last() =~= pv.take(i - 1));
                assert(pv.take(i as int).last() == pv[i - 1]);
            }
            if str_eq(self.answers[i - 1].0.as_str(), question) {
                return Ok(self.answers[i - 1].1.as_str().to_owned());
            }
            i -= 1;
        }
        Err(KnowledgeError::NoAnswer { question: question.to_owned() })
    }
}

} // verus!
