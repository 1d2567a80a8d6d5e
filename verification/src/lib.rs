//! Core library for Ailly.
use vstd::prelude::*;

pub mod assertions;
pub mod bash;
pub mod calibration;
pub mod clarify;
pub mod conversation;
pub mod enrichment;
pub mod eval;
pub mod fs_errors;
pub mod fs_tools;
pub mod knowledge;
pub mod namespace;
pub mod permissions;
pub mod project;
pub mod range;
pub mod report;
pub mod script_runner;
pub mod skills;
pub mod template;
pub mod template_value;
pub mod text;
pub mod tool_definitions;
pub mod tools;
pub mod web;
pub mod web_config;
pub mod web_fetch;
pub mod web_search;
pub mod workflow;

verus! {

/// A greeting message produced by Ailly.
pub struct Greeting {
    text: String,
}

impl Greeting {
    /// The greeting's text as a sequence of characters.
    pub closed spec fn text_view(&self) -> Seq<char> {
        self.text@
    }

    /// Creates a new [`Greeting`] with the given text.
    pub fn new(text: &str) -> (g: Self)
        ensures
            g.text_view() == text@,
    {
        Greeting { text: text.to_owned() }
    }

    /// Returns the greeting text.
    pub fn text(&self) -> (t: &str)
        ensures
            t@ == self.text_view(),
    {
        self.text.as_str()
    }
}

} // verus!
