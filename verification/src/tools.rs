//! Tool dispatch: one tool call in, one tool result out.
use vstd::prelude::*;

use crate::conversation::{Content, ContentBlock};
use crate::text::str_eq;

verus! {

/// A tool call that could not be served.
#[derive(Debug, Clone, PartialEq, Eq)]
pub enum ToolError {
    /// No scripted reply is left for the tool.
    NoopExhausted { name: String, call_index: usize },
    /// The block handed over is not a tool call.
    NotAToolUse,
}

/// Serves tool calls.
pub trait ToolExecutor {
    /// The result of the tool call `call`.
    fn execute(&mut self, call: &ContentBlock) -> Result<ContentBlock, ToolError>;
}

/// The scripts as plain values: tool name to the replies left, in order.
pub open spec fn scripts_view(s: Seq<(String, Vec<String>)>) -> Seq<(Seq<char>, Seq<Seq<char>>)> {
    s.map_values(|e: (String, Vec<String>)| (e.0@, crate::bash::strings_view(e.1@)))
}

/// The replies scripted for `name` (the entry listed last wins).
pub open spec fn script_of(s: Seq<(Seq<char>, Seq<Seq<char>>)>, name: Seq<char>) -> Option<Seq<Seq<char>>>
    decreases s.len(),
{
    if s.len() == 0 {
        None
    } else if s.last().0 == name {
        Some(s.last().1)
    } else {
        script_of(s.drop_last(), name)
    }
}

/// A tool executor that replies from scripts, in order, per tool name.
pub struct NoopToolExecutor {
    scripts: Vec<(String, Vec<String>)>,
}

impl NoopToolExecutor {
    /// The replies left for each tool.
    pub closed spec fn view(&self) -> Map<Seq<char>, Seq<Seq<char>>> {
        Map::new(
            |n: Seq<char>| script_of(scripts_view(self.scripts@), n) is Some,
            |n: Seq<char>| script_of(scripts_view(self.scripts@), n)->0,
        )
    }

    /// An executor with no scripts.
    pub fn new() -> (r: Self)
        ensures
            r.view() == Map::<Seq<char>, Seq<Seq<char>>>::empty(),
    {
        let r = NoopToolExecutor { scripts: Vec::new() };
        assert(r.view() =~= Map::<Seq<char>, Seq<Seq<char>>>::empty());
        r
    }

    /// An executor with the replies of `scripts` (tool name, replies); a
    /// tool listed twice keeps its last replies.
    pub fn from_scripts(scripts: Vec<(String, Vec<String>)>) -> (r: Self)
        ensures
            forall|n: Seq<char>| #[trigger] r.view().contains_key(n) == (script_of(scripts_view(scripts@), n) is Some),
            forall|n: Seq<char>| r.view().contains_key(n) ==> #[trigger] r.view()[n] == script_of(scripts_view(scripts@), n)->0,
    {
        NoopToolExecutor { scripts }
    }

    fn last_index(&self, name: &str) -> (r: Option<usize>)
        ensures
            match r {
                Some(i) => i < self.scripts@.len() && self.scripts@[i as int].0@ == name@
                    && script_of(scripts_view(self.scripts@), name@) == Some(scripts_view(self.scripts@)[i as int].1)
                    && forall|j: int| i < j < self.scripts@.len() ==> self.scripts@[j].0@ != name@,
                None => script_of(scripts_view(self.scripts@), name@) is None,
            },
    {
        let ghost sv = scripts_view(self.scripts@);
        let mut i: usize = self.scripts.len();
        assert(sv.take(i as int) =~= sv);
        while i > 0
            invariant
                i <= self.scripts@.len(),
                sv == scripts_view(self.scripts@),
                script_of(sv, name@) == script_of(sv.take(i as int), name@),
                forall|j: int| i <= j < self.scripts@.len() ==> self.scripts@[j].0@ != name@,
            decreases i,
        {
            proof {
                assert(sv.take(i as int).drop_last() =~= sv.take(i - 1));
                assert(sv.take(i as int).last() == sv[i - 1]);
            }
            if str_eq(self.scripts[i - 1].0.as_str(), name) {
                return Some(i - 1);
            }
            i -= 1;
        }
        None
    }
}

proof fn lemma_script_of_update(s: Seq<(Seq<char>, Seq<Seq<char>>)>, i: int, v: Seq<Seq<char>>, q: Seq<char>)
    requires
        0 <= i < s.len(),
        forall|j: int| i < j < s.len() ==> s[j].0 != s[i].0,
    ensures
        script_of(s.update(i, (s[i].0, v)), q) == if q == s[i].0 { Some(v) } else { script_of(s, q) },
    decreases s.len(),
{
    let u = s.update(i, (s[i].0, v));
    if i == s.len() - 1 {
        assert(u.drop_last() =~= s.drop_last());
    } else {
        assert(u.drop_last() =~= s.drop_last().update(i, (s[i].0, v)));
        assert(u.last() == s.last());
        lemma_script_of_update(s.drop_last(), i, v, q);
    }
}

impl ToolExecutor for NoopToolExecutor {
    /// Replies to a tool call with the next scripted reply for its tool,
    /// echoing the call's id; a tool with no reply left is `NoopExhausted`.
    fn execute(&mut self, call: &ContentBlock) -> (r: Result<ContentBlock, ToolError>)
        ensures
            match *call {
                ContentBlock::ToolUse { id, name, .. } => match old(self).view().contains_key(name@)
                    && old(self).view()[name@].len() > 0 {
                    true => r matches Ok(ContentBlock::ToolResult { tool_use_id, content: Content::Text(reply), is_error })
                        && tool_use_id@ == id@ && reply@ == old(self).view()[name@][0] && is_error is None
                        && final(self).view() == old(self).view().insert(name@, old(self).view()[name@].drop_first()),
                    false => r matches Err(ToolError::NoopExhausted { name: n, call_index }) && n@ == name@
                        && call_index == 0 && final(self).view() == old(self).view(),
                },
                _ => r == Err::<ContentBlock, ToolError>(ToolError::NotAToolUse) && final(self).view() == old(self).view(),
            },
    {
        match call {
            ContentBlock::ToolUse { id, name, .. } => {
                let ghost sv = scripts_view(self.scripts@);
                match self.last_index(name.as_str()) {
                    Some(i) => {
                        if self.scripts[i].1.len() == 0 {
                            return Err(ToolError::NoopExhausted { name: name.clone(), call_index: 0 });
                        }
                        let mut entry = self.scripts.remove(i);
                        let reply = entry.1.remove(0);
                        let ghost rest = crate::bash::strings_view(entry.1@);
                        self.scripts.insert(i, entry);
                        proof {
                            let nv = scripts_view(self.scripts@);
                            assert(crate::bash::strings_view(old(self).scripts@[i as int].1@).drop_first() =~= rest);
                            assert(nv =~= sv.update(i as int, (sv[i as int].0, rest)));
                            assert forall|q: Seq<char>| #[trigger] script_of(nv, q) == if q == name@ { Some(rest) } else { script_of(sv, q) } by {
                                lemma_script_of_update(sv, i as int, rest, q);
                            }
                            assert(self.view() =~= old(self).view().insert(name@, old(self).view()[name@].drop_first()));
                        }
                        Ok(ContentBlock::ToolResult { tool_use_id: id.clone(), content: Content::Text(reply), is_error: None })
                    },
                    None => Err(ToolError::NoopExhausted { name: name.clone(), call_index: 0 }),
                }
            },
            _ => Err(ToolError::NotAToolUse),
        }
    }
}

} // verus!
