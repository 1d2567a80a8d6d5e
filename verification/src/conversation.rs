//! The conversation model that assertions read: messages, their content
//! blocks, tool calls with YAML arguments, and per-message traces.
use vstd::prelude::*;

use crate::text::{chars_eq, chars_of};

verus! {

/// A YAML value, as tool-call arguments and assertion expectations carry it.
/// A number is held as its canonical text (`1`, `-3`, `2.5`).
#[derive(Debug)]
pub enum YamlValue {
    Null,
    Bool(bool),
    Number(String),
    Str(String),
    Sequence(Vec<YamlValue>),
    Mapping(Vec<(YamlValue, YamlValue)>),
    Tagged(String, Box<YamlValue>),
}

/// The mathematical form of a [`YamlValue`].
pub enum YamlView {
    Null,
    Bool(bool),
    Number(Seq<char>),
    Str(Seq<char>),
    Sequence(Seq<YamlView>),
    Mapping(Seq<(YamlView, YamlView)>),
    Tagged(Seq<char>, Box<YamlView>),
}

/// The view of a YAML value.
pub open spec fn yaml_view(v: YamlValue) -> YamlView
    decreases v, 0int,
{
    match v {
        YamlValue::Null => YamlView::Null,
        YamlValue::Bool(b) => YamlView::Bool(b),
        YamlValue::Number(n) => YamlView::Number(n@),
        YamlValue::Str(s) => YamlView::Str(s@),
        YamlValue::Sequence(items) => YamlView::Sequence(items_view(items@)),
        YamlValue::Mapping(entries) => YamlView::Mapping(entries_view(entries@)),
        YamlValue::Tagged(tag, inner) => YamlView::Tagged(tag@, Box::new(yaml_view(*inner))),
    }
}

/// The views of a sequence of YAML values.
pub open spec fn items_view(items: Seq<YamlValue>) -> Seq<YamlView>
    decreases items, 1int,
{
    if items.len() == 0 {
        Seq::empty()
    } else {
        seq![yaml_view(items[0])] + items_view(items.subrange(1, items.len() as int))
    }
}

/// The views of a sequence of YAML mapping entries.
pub open spec fn entries_view(entries: Seq<(YamlValue, YamlValue)>) -> Seq<(YamlView, YamlView)>
    decreases entries, 1int,
{
    if entries.len() == 0 {
        Seq::empty()
    } else {
        seq![(yaml_view(entries[0].0), yaml_view(entries[0].1))] + entries_view(
            entries.subrange(1, entries.len() as int),
        )
    }
}


/// [`items_view`] keeps length and maps element-wise.
pub proof fn lemma_items_view(items: Seq<YamlValue>)
    ensures
        items_view(items).len() == items.len(),
        forall|i: int| 0 <= i < items.len() ==> #[trigger] items_view(items)[i] == yaml_view(items[i]),
    decreases items.len(),
{
    if items.len() > 0 {
        let rest = items.subrange(1, items.len() as int);
        lemma_items_view(rest);
        assert forall|i: int| 0 <= i < items.len() implies #[trigger] items_view(items)[i]
            == yaml_view(items[i]) by {
            if i > 0 {
                assert(rest[i - 1] == items[i]);
            }
        }
    }
}

/// [`entries_view`] keeps length and maps element-wise.
pub proof fn lemma_entries_view(entries: Seq<(YamlValue, YamlValue)>)
    ensures
        entries_view(entries).len() == entries.len(),
        forall|i: int|
            0 <= i < entries.len() ==> #[trigger] entries_view(entries)[i] == (
                yaml_view(entries[i].0),
                yaml_view(entries[i].1),
            ),
    decreases entries.len(),
{
    if entries.len() > 0 {
        let rest = entries.subrange(1, entries.len() as int);
        lemma_entries_view(rest);
        assert forall|i: int| 0 <= i < entries.len() implies #[trigger] entries_view(entries)[i]
            == (yaml_view(entries[i].0), yaml_view(entries[i].1)) by {
            if i > 0 {
                assert(rest[i - 1] == entries[i]);
            }
        }
    }
}

/// Structural equality of two YAML values.
#[verifier::loop_isolation(false)]
pub fn yaml_eq(a: &YamlValue, b: &YamlValue) -> (r: bool)
    ensures
        r == (yaml_view(*a) == yaml_view(*b)),
    decreases *a,
{
    match (a, b) {
        (YamlValue::Null, YamlValue::Null) => true,
        (YamlValue::Bool(x), YamlValue::Bool(y)) => *x == *y,
        (YamlValue::Number(x), YamlValue::Number(y)) => {
            let xs = chars_of(x.as_str());
            let ys = chars_of(y.as_str());
            chars_eq(xs.as_slice(), ys.as_slice())
        },
        (YamlValue::Str(x), YamlValue::Str(y)) => {
            let xs = chars_of(x.as_str());
            let ys = chars_of(y.as_str());
            chars_eq(xs.as_slice(), ys.as_slice())
        },
        (YamlValue::Sequence(xs), YamlValue::Sequence(ys)) => {
            proof {
                lemma_items_view(xs@);
                lemma_items_view(ys@);
            }
            if xs.len() != ys.len() {
                return false;
            }
            let mut i: usize = 0;
            while i < xs.len()
                invariant
                    i <= xs@.len() == ys@.len(),
                    items_view(xs@).len() == xs@.len(),
                    items_view(ys@).len() == ys@.len(),
                    forall|k: int| 0 <= k < xs@.len() ==> #[trigger] items_view(xs@)[k] == yaml_view(xs@[k]),
                    forall|k: int| 0 <= k < ys@.len() ==> #[trigger] items_view(ys@)[k] == yaml_view(ys@[k]),
                    forall|k: int| 0 <= k < i ==> items_view(xs@)[k] == items_view(ys@)[k],
                decreases xs.len() - i,
            {
                proof {
                    assert(decreases_to!(*a => xs@[i as int]));
                }
                if !yaml_eq(&xs[i], &ys[i]) {
                    assert(items_view(xs@)[i as int] != items_view(ys@)[i as int]);
                    return false;
                }
                i += 1;
            }
            assert(items_view(xs@) =~= items_view(ys@));
            true
        },
        (YamlValue::Mapping(xs), YamlValue::Mapping(ys)) => {
            proof {
                lemma_entries_view(xs@);
                lemma_entries_view(ys@);
            }
            if xs.len() != ys.len() {
                return false;
            }
            let mut i: usize = 0;
            while i < xs.len()
                invariant
                    i <= xs@.len() == ys@.len(),
                    entries_view(xs@).len() == xs@.len(),
                    entries_view(ys@).len() == ys@.len(),
                    forall|k: int|
                        0 <= k < xs@.len() ==> #[trigger] entries_view(xs@)[k] == (
                            yaml_view(xs@[k].0),
                            yaml_view(xs@[k].1),
                        ),
                    forall|k: int|
                        0 <= k < ys@.len() ==> #[trigger] entries_view(ys@)[k] == (
                            yaml_view(ys@[k].0),
                            yaml_view(ys@[k].1),
                        ),
                    forall|k: int| 0 <= k < i ==> entries_view(xs@)[k] == entries_view(ys@)[k],
                decreases xs.len() - i,
            {
                proof {
                    assert(decreases_to!(*a => xs@[i as int].0));
                    assert(decreases_to!(*a => xs@[i as int].1));
                }
                let same = yaml_eq(&xs[i].0, &ys[i].0) && yaml_eq(&xs[i].1, &ys[i].1);
                if !same {
                    assert(entries_view(xs@)[i as int] != entries_view(ys@)[i as int]);
                    return false;
                }
                i += 1;
            }
            assert(entries_view(xs@) =~= entries_view(ys@));
            true
        },
        (YamlValue::Tagged(t1, v1), YamlValue::Tagged(t2, v2)) => {
            let a1 = chars_of(t1.as_str());
            let a2 = chars_of(t2.as_str());
            chars_eq(a1.as_slice(), a2.as_slice()) && yaml_eq(&**v1, &**v2)
        },
        _ => false,
    }
}


/// The value of the first entry of `entries` whose key is `key`.
pub open spec fn lookup_yaml(entries: Seq<(YamlView, YamlView)>, key: YamlView) -> Option<YamlView>
    decreases entries.len(),
{
    if entries.len() == 0 {
        None
    } else if entries[0].0 == key {
        Some(entries[0].1)
    } else {
        lookup_yaml(entries.drop_first(), key)
    }
}

/// Whether `expected` is a subset of `actual`: every key of an expected
/// mapping is in the actual mapping with a value that is (recursively) a
/// subset; any other value must be equal.
pub open spec fn yaml_subset(expected: YamlView, actual: YamlView) -> bool
    decreases expected, 0int,
{
    match expected {
        YamlView::Mapping(em) => match actual {
            YamlView::Mapping(am) => all_entries_subset(em, am),
            _ => false,
        },
        _ => expected == actual,
    }
}

/// Whether every entry of `em` is matched in `am`.
pub open spec fn all_entries_subset(em: Seq<(YamlView, YamlView)>, am: Seq<(YamlView, YamlView)>) -> bool
    decreases em, 1int,
{
    if em.len() == 0 {
        true
    } else {
        entry_subset(em[0], am) && all_entries_subset(em.subrange(1, em.len() as int), am)
    }
}

/// Whether the key of `entry` is in `am` with a value that `entry`'s value is a subset of.
pub open spec fn entry_subset(entry: (YamlView, YamlView), am: Seq<(YamlView, YamlView)>) -> bool
    decreases entry, 2int,
{
    match lookup_yaml(am, entry.0) {
        Some(av) => yaml_subset(entry.1, av),
        None => false,
    }
}

proof fn lemma_all_entries_subset(em: Seq<(YamlView, YamlView)>, am: Seq<(YamlView, YamlView)>)
    ensures
        all_entries_subset(em, am) == forall|i: int| 0 <= i < em.len() ==> #[trigger] entry_subset(em[i], am),
    decreases em.len(),
{
    if em.len() > 0 {
        let rest = em.subrange(1, em.len() as int);
        lemma_all_entries_subset(rest, am);
        if all_entries_subset(em, am) {
            assert forall|i: int| 0 <= i < em.len() implies #[trigger] entry_subset(em[i], am) by {
                if i > 0 {
                    assert(rest[i - 1] == em[i]);
                }
            }
        }
        if forall|i: int| 0 <= i < em.len() ==> #[trigger] entry_subset(em[i], am) {
            assert(entry_subset(em[0], am));
            assert forall|i: int| 0 <= i < rest.len() implies #[trigger] entry_subset(rest[i], am) by {
                assert(rest[i] == em[i + 1]);
            }
        }
    }
}

pub(crate) fn find_entry<'a>(am: &'a Vec<(YamlValue, YamlValue)>, key: &YamlValue) -> (r: Option<&'a YamlValue>)
    ensures
        match lookup_yaml(entries_view(am@), yaml_view(*key)) {
            Some(v) => r matches Some(x) && yaml_view(*x) == v,
            None => r is None,
        },
{
    proof {
        lemma_entries_view(am@);
    }
    let ghost ev = entries_view(am@);
    let mut i: usize = 0;
    assert(ev.skip(0) =~= ev);
    while i < am.len()
        invariant
            i <= am@.len(),
            ev == entries_view(am@),
            ev.len() == am@.len(),
            forall|k: int| 0 <= k < am@.len() ==> #[trigger] ev[k] == (yaml_view(am@[k].0), yaml_view(am@[k].1)),
            lookup_yaml(ev, yaml_view(*key)) == lookup_yaml(ev.skip(i as int), yaml_view(*key)),
        decreases am.len() - i,
    {
        let ghost rest = ev.skip(i as int);
        assert(rest[0] == ev[i as int]);
        if yaml_eq(&am[i].0, key) {
            return Some(&am[i].1);
        }
        assert(rest.drop_first() =~= ev.skip(i + 1));
        i += 1;
    }
    None
}

/// Whether `expected` is a subset of `actual` (see [`yaml_subset`]).
#[verifier::loop_isolation(false)]
pub fn yaml_subset_match(expected: &YamlValue, actual: &YamlValue) -> (r: bool)
    ensures
        r == yaml_subset(yaml_view(*expected), yaml_view(*actual)),
    decreases *expected,
{
    match (expected, actual) {
        (YamlValue::Mapping(em), YamlValue::Mapping(am)) => {
            proof {
                lemma_entries_view(em@);
                lemma_all_entries_subset(entries_view(em@), entries_view(am@));
            }
            let mut i: usize = 0;
            while i < em.len()
                invariant
                    i <= em@.len(),
                    forall|k: int| 0 <= k < i ==> #[trigger] entry_subset(entries_view(em@)[k], entries_view(am@)),
                decreases em.len() - i,
            {
                let ok = match find_entry(am, &em[i].0) {
                    Some(av) => {
                        proof {
                            assert(decreases_to!(*expected => em@[i as int].1));
                        }
                        yaml_subset_match(&em[i].1, av)
                    },
                    None => false,
                };
                if !ok {
                    assert(!entry_subset(entries_view(em@)[i as int], entries_view(am@)));
                    return false;
                }
                i += 1;
            }
            true
        },
        (YamlValue::Mapping(_), _) => false,
        _ => yaml_eq(expected, actual),
    }
}

} // verus!

verus! {

/// Who authored a message.
#[derive(Debug, Clone, Copy, PartialEq, Eq, Structural)]
pub enum Role {
    System,
    User,
    Assistant,
}

/// One block of a structured message body.
#[derive(Debug)]
pub enum ContentBlock {
    Text { text: String },
    ToolUse { id: String, name: String, input: YamlValue },
    ToolResult { tool_use_id: String, content: Content, is_error: Option<bool> },
    Thinking { text: String },
    Image { media_type: String, data: String },
}

/// A message body: plain text or a list of blocks.
#[derive(Debug)]
pub enum Content {
    Text(String),
    Blocks(Vec<ContentBlock>),
}

/// Token usage reported for one model call.
#[derive(Debug, Clone, Copy, PartialEq, Eq, Structural)]
pub struct TokenCounts {
    pub input: u64,
    pub output: u64,
    pub cache_hit: Option<u64>,
    pub cache_write: Option<u64>,
}

/// Timing and usage attached to a message produced by a model call.
#[derive(Debug, Clone, Copy, PartialEq, Eq, Structural)]
pub struct Trace {
    pub latency_ms: u64,
    pub tokens: TokenCounts,
}

/// One turn of a conversation. An assistant turn with no body is a blank
/// slot still to be filled.
#[derive(Debug)]
pub struct Message {
    pub role: Role,
    pub body: Option<Content>,
    pub cache: bool,
    pub trace: Option<Trace>,
}

/// Variable bindings of a conversation, keyed by name.
#[derive(Debug)]
pub struct BindingMap {
    pub entries: Vec<(String, YamlValue)>,
}

/// Conversation header.
#[derive(Debug)]
pub struct Meta {
    pub model: String,
    pub debug: bool,
    pub assembly: Option<String>,
    pub binding: BindingMap,
}

/// A conversation: its header and its turns in order.
#[derive(Debug)]
pub struct Conversation {
    pub meta: Meta,
    pub session: Vec<Message>,
}

/// The binding entries as plain values.
pub open spec fn binding_view(b: BindingMap) -> Seq<(Seq<char>, YamlView)> {
    b.entries@.map_values(|e: (String, YamlValue)| (e.0@, yaml_view(e.1)))
}

/// The value of the first binding entry named `key`.
pub open spec fn lookup_binding(entries: Seq<(Seq<char>, YamlView)>, key: Seq<char>) -> Option<YamlView>
    decreases entries.len(),
{
    if entries.len() == 0 {
        None
    } else if entries[0].0 == key {
        Some(entries[0].1)
    } else {
        lookup_binding(entries.drop_first(), key)
    }
}

impl BindingMap {
    /// An empty binding map.
    pub fn new() -> (b: Self)
        ensures
            binding_view(b) == Seq::<(Seq<char>, YamlView)>::empty(),
    {
        let b = BindingMap { entries: Vec::new() };
        assert(binding_view(b) =~= Seq::<(Seq<char>, YamlView)>::empty());
        b
    }

    /// Bind `key` to `value`: an existing binding of `key` is replaced in
    /// place, otherwise the binding is appended.
    pub fn insert(&mut self, key: &str, value: YamlValue)
        ensures
            lookup_binding(binding_view(*final(self)), key@) == Some(yaml_view(value)),
            forall|q: Seq<char>|
                q != key@ ==> #[trigger] lookup_binding(binding_view(*final(self)), q)
                    == lookup_binding(binding_view(*old(self)), q),
    {
        let ghost old_view = binding_view(*self);
        let ghost vv = yaml_view(value);
        let k = chars_of(key);
        let mut i: usize = 0;
        while i < self.entries.len()
            invariant
                i <= self.entries@.len(),
                old_view == binding_view(*self),
                old_view == binding_view(*old(self)),
                old_view.len() == self.entries@.len(),
                k@ == key@,
                vv == yaml_view(value),
                forall|j: int| 0 <= j < i ==> old_view[j].0 != key@,
            decreases self.entries.len() - i,
        {
            let ek = chars_of(self.entries[i].0.as_str());
            if chars_eq(ek.as_slice(), k.as_slice()) {
                proof {
                    assert(old_view[i as int].0 == key@);
                }
                let pair = (key.to_owned(), value);
                let ghost pv = pair;
                self.entries.set(i, pair);
                proof {
                    let nv = binding_view(*self);
                    assert(pv.0@ == key@ && yaml_view(pv.1) == vv);
                    assert(nv[i as int] == (key@, vv));
                    assert(nv =~= old_view.update(i as int, (key@, vv)));
                    assert forall|q: Seq<char>| #[trigger] lookup_binding(nv, q) == if q == key@ { Some(vv) } else { lookup_binding(old_view, q) } by {
                        lemma_lookup_binding_update(old_view, i as int, key@, vv, q);
                    }
                }
                return;
            }
            i += 1;
        }
        let pair = (key.to_owned(), value);
        let ghost pv = pair;
        self.entries.push(pair);
        proof {
            let nv = binding_view(*self);
            assert(pv.0@ == key@ && yaml_view(pv.1) == vv);
            assert(nv =~= old_view.push((key@, vv)));
            assert forall|q: Seq<char>| #[trigger] lookup_binding(nv, q) == if q == key@ { Some(vv) } else { lookup_binding(old_view, q) } by {
                lemma_lookup_binding_push(old_view, key@, vv, q);
            }
        }
    }
}

proof fn lemma_lookup_binding_update(e: Seq<(Seq<char>, YamlView)>, i: int, key: Seq<char>, v: YamlView, q: Seq<char>)
    requires
        0 <= i < e.len(),
        e[i].0 == key,
        forall|k: int| 0 <= k < i ==> e[k].0 != key,
    ensures
        lookup_binding(e.update(i, (key, v)), q) == if q == key { Some(v) } else { lookup_binding(e, q) },
    decreases e.len(),
{
    let u = e.update(i, (key, v));
    if i == 0 {
        assert(u.drop_first() =~= e.drop_first());
    } else {
        assert(u.drop_first() =~= e.drop_first().update(i - 1, (key, v)));
        assert forall|k: int| 0 <= k < i - 1 implies e.drop_first()[k].0 != key by {
            assert(e.drop_first()[k] == e[k + 1]);
        }
        lemma_lookup_binding_update(e.drop_first(), i - 1, key, v, q);
        assert(u[0] == e[0]);
    }
}

proof fn lemma_lookup_binding_push(e: Seq<(Seq<char>, YamlView)>, key: Seq<char>, v: YamlView, q: Seq<char>)
    requires
        forall|k: int| 0 <= k < e.len() ==> e[k].0 != key,
    ensures
        lookup_binding(e.push((key, v)), q) == if q == key { Some(v) } else { lookup_binding(e, q) },
    decreases e.len(),
{
    let u = e.push((key, v));
    if e.len() > 0 {
        assert(u.drop_first() =~= e.drop_first().push((key, v)));
        assert(u[0] == e[0]);
        assert forall|k: int| 0 <= k < e.drop_first().len() implies e.drop_first()[k].0 != key by {
            assert(e.drop_first()[k] == e[k + 1]);
        }
        lemma_lookup_binding_push(e.drop_first(), key, v, q);
    } else {
        assert(u.drop_first() =~= e);
    }
}

} // verus!

verus! {

/// The texts of the `Text` blocks, in order.
pub open spec fn block_texts(blocks: Seq<ContentBlock>) -> Seq<Seq<char>>
    decreases blocks.len(),
{
    if blocks.len() == 0 {
        Seq::empty()
    } else {
        let r = block_texts(blocks.drop_last());
        match blocks.last() {
            ContentBlock::Text { text } => r.push(text@),
            _ => r,
        }
    }
}

/// The parts joined by single newlines.
pub open spec fn join_lines(parts: Seq<Seq<char>>) -> Seq<char>
    decreases parts.len(),
{
    if parts.len() == 0 {
        Seq::empty()
    } else if parts.len() == 1 {
        parts[0]
    } else {
        join_lines(parts.drop_last()) + seq!['\n'] + parts.last()
    }
}

/// The text a message body carries: the text itself, or the `Text` blocks
/// joined by newlines (other blocks contribute nothing).
pub open spec fn content_text(c: Content) -> Seq<char> {
    match c {
        Content::Text(t) => t@,
        Content::Blocks(bs) => join_lines(block_texts(bs@)),
    }
}

/// The text of the last assistant message that has a body, if any.
pub open spec fn final_text(session: Seq<Message>) -> Option<Seq<char>>
    decreases session.len(),
{
    if session.len() == 0 {
        None
    } else {
        let m = session.last();
        if m.role == Role::Assistant && m.body is Some {
            Some(content_text(m.body->0))
        } else {
            final_text(session.drop_last())
        }
    }
}

/// The `ToolUse` blocks among `blocks`, in order.
pub open spec fn block_tool_uses(blocks: Seq<ContentBlock>) -> Seq<ContentBlock>
    decreases blocks.len(),
{
    if blocks.len() == 0 {
        Seq::empty()
    } else {
        let r = block_tool_uses(blocks.drop_last());
        if blocks.last() is ToolUse {
            r.push(blocks.last())
        } else {
            r
        }
    }
}

/// The tool calls of one message: those of a block body, whatever the role.
pub open spec fn message_tool_uses(m: Message) -> Seq<ContentBlock> {
    match m.body {
        Some(Content::Blocks(bs)) => block_tool_uses(bs@),
        _ => Seq::empty(),
    }
}

/// Every tool call of a session, in message order and block order.
pub open spec fn tool_uses(session: Seq<Message>) -> Seq<ContentBlock>
    decreases session.len(),
{
    if session.len() == 0 {
        Seq::empty()
    } else {
        tool_uses(session.drop_last()) + message_tool_uses(session.last())
    }
}

/// The name of a tool call (empty for any other block).
pub open spec fn tool_name(b: ContentBlock) -> Seq<char> {
    match b {
        ContentBlock::ToolUse { name, .. } => name@,
        _ => Seq::empty(),
    }
}

/// Which per-trace quantity [`sum_traces`] adds up.
#[derive(Debug, Clone, Copy, PartialEq, Eq, Structural)]
pub enum TraceMeasure {
    InputTokens,
    OutputTokens,
    /// Input plus output tokens, saturating at `u64::MAX` per trace.
    TotalTokens,
    /// Tokens served from the prompt cache (zero when not reported).
    CacheHitTokens,
    Latency,
}

/// The quantity `m` of one trace.
pub open spec fn measure_of(t: Trace, m: TraceMeasure) -> nat {
    match m {
        TraceMeasure::InputTokens => t.tokens.input as nat,
        TraceMeasure::OutputTokens => t.tokens.output as nat,
        TraceMeasure::TotalTokens => if t.tokens.input + t.tokens.output > u64::MAX {
            u64::MAX as nat
        } else {
            (t.tokens.input + t.tokens.output) as nat
        },
        TraceMeasure::CacheHitTokens => match t.tokens.cache_hit {
            Some(n) => n as nat,
            None => 0,
        },
        TraceMeasure::Latency => t.latency_ms as nat,
    }
}

/// The sum of quantity `m` over the messages that carry a trace.
pub open spec fn trace_total(session: Seq<Message>, m: TraceMeasure) -> nat
    decreases session.len(),
{
    if session.len() == 0 {
        0
    } else {
        trace_total(session.drop_last(), m) + match session.last().trace {
            Some(t) => measure_of(t, m),
            None => 0,
        }
    }
}

proof fn lemma_join_push(parts: Seq<Seq<char>>, x: Seq<char>)
    ensures
        join_lines(parts.push(x)) == if parts.len() == 0 {
            x
        } else {
            join_lines(parts) + seq!['\n'] + x
        },
{
    assert(parts.push(x).drop_last() =~= parts);
}

/// The text of `c` (see [`content_text`]).
pub fn content_text_of(c: &Content) -> (r: String)
    ensures
        r@ == content_text(*c),
{
    match c {
        Content::Text(t) => t.clone(),
        Content::Blocks(bs) => {
            let mut out = String::new();
            let mut any = false;
            let mut j: usize = 0;
            while j < bs.len()
                invariant
                    j <= bs@.len(),
                    out@ == join_lines(block_texts(bs@.take(j as int))),
                    any == (block_texts(bs@.take(j as int)).len() > 0),
                decreases bs.len() - j,
            {
                proof {
                    assert(bs@.take(j + 1).drop_last() =~= bs@.take(j as int));
                }
                match &bs[j] {
                    ContentBlock::Text { text } => {
                        proof {
                            lemma_join_push(block_texts(bs@.take(j as int)), text@);
                        }
                        if any {
                            out.push('\n');
                        }
                        crate::text::push_str(&mut out, text.as_str());
                        any = true;
                    },
                    _ => {},
                }
                j += 1;
            }
            assert(bs@.take(bs@.len() as int) =~= bs@);
            out
        },
    }
}

/// Text of the final filled assistant turn: the last assistant message
/// with a body, rendered by [`content_text`]; `None` when there is none.
pub fn final_assistant_text(conversation: &Conversation) -> (r: Option<String>)
    ensures
        match final_text(conversation.session@) {
            Some(t) => r matches Some(s) && s@ == t,
            None => r is None,
        },
{
    let session = &conversation.session;
    let mut i: usize = session.len();
    assert(session@.take(i as int) =~= session@);
    while i > 0
        invariant
            i <= session@.len(),
            session@ == conversation.session@,
            final_text(session@) == final_text(session@.take(i as int)),
        decreases i,
    {
        let m = &session[i - 1];
        proof {
            assert(session@.take(i as int).last() == session@[i - 1]);
            assert(session@.take(i as int).drop_last() =~= session@.take(i - 1));
        }
        if m.role == Role::Assistant {
            match &m.body {
                Some(body) => {
                    let t = content_text_of(body);
                    assert(final_text(session@.take(i as int)) == Some(content_text(*body)));
                    return Some(t);
                },
                None => {},
            }
        }
        i -= 1;
    }
    None
}

/// Every tool call of the session, in order (see [`tool_uses`]).
pub fn extract_tool_uses(conversation: &Conversation) -> (r: Vec<&ContentBlock>)
    ensures
        r@.len() == tool_uses(conversation.session@).len(),
        forall|k: int| 0 <= k < r@.len() ==> *r@[k] == tool_uses(conversation.session@)[k],
{
    let session = &conversation.session;
    let mut out: Vec<&ContentBlock> = Vec::new();
    let mut i: usize = 0;
    while i < session.len()
        invariant
            i <= session@.len(),
            out@.len() == tool_uses(session@.take(i as int)).len(),
            forall|k: int| 0 <= k < out@.len() ==> *out@[k] == tool_uses(session@.take(i as int))[k],
        decreases session.len() - i,
    {
        let ghost before = tool_uses(session@.take(i as int));
        proof {
            assert(session@.take(i + 1).drop_last() =~= session@.take(i as int));
        }
        match &session[i].body {
            Some(Content::Blocks(blocks)) => {
                let mut j: usize = 0;
                while j < blocks.len()
                    invariant
                        j <= blocks@.len(),
                        out@.len() == before.len() + block_tool_uses(blocks@.take(j as int)).len(),
                        forall|k: int| 0 <= k < out@.len() ==> *out@[k] == (before + block_tool_uses(blocks@.take(j as int)))[k],
                    decreases blocks.len() - j,
                {
                    proof {
                        assert(blocks@.take(j + 1).drop_last() =~= blocks@.take(j as int));
                    }
                    let b = &blocks[j];
                    match b {
                        ContentBlock::ToolUse { .. } => {
                            out.push(b);
                            proof {
                                assert(before + block_tool_uses(blocks@.take(j + 1)) =~= (before + block_tool_uses(blocks@.take(j as int))).push(blocks@[j as int]));
                            }
                        },
                        _ => {},
                    }
                    j += 1;
                }
                assert(blocks@.take(blocks@.len() as int) =~= blocks@);
            },
            _ => {},
        }
        proof {
            assert(tool_uses(session@.take(i + 1)) =~= before + message_tool_uses(session@[i as int]));
        }
        i += 1;
    }
    assert(session@.take(session@.len() as int) =~= session@);
    out
}

/// The name of a tool call.
pub fn tool_use_name(block: &ContentBlock) -> (r: &str)
    requires
        *block is ToolUse,
    ensures
        r@ == tool_name(*block),
{
    match block {
        ContentBlock::ToolUse { name, .. } => name.as_str(),
        _ => "",
    }
}

/// Sum of quantity `m` over every message that carries a trace, whatever
/// its role (see [`trace_total`]).
pub fn sum_traces(conversation: &Conversation, m: TraceMeasure) -> (r: u128)
    ensures
        r == trace_total(conversation.session@, m),
{
    let session = &conversation.session;
    let mut total: u128 = 0;
    let mut i: usize = 0;
    while i < session.len()
        invariant
            i <= session@.len(),
            total == trace_total(session@.take(i as int), m),
            total <= i * 0xFFFF_FFFF_FFFF_FFFFu128,
        decreases session.len() - i,
    {
        proof {
            assert(session@.take(i + 1).drop_last() =~= session@.take(i as int));
        }
        match &session[i].trace {
            Some(t) => {
                let x: u64 = match m {
                    TraceMeasure::InputTokens => t.tokens.input,
                    TraceMeasure::OutputTokens => t.tokens.output,
                    TraceMeasure::TotalTokens => t.tokens.input.saturating_add(t.tokens.output),
                    TraceMeasure::CacheHitTokens => match t.tokens.cache_hit {
                        Some(n) => n,
                        None => 0,
                    },
                    TraceMeasure::Latency => t.latency_ms,
                };
                total = total + x as u128;
            },
            None => {},
        }
        i += 1;
    }
    assert(session@.take(session@.len() as int) =~= session@);
    total
}

} // verus!

verus! {

proof fn lemma_block_tool_uses_are_calls(blocks: Seq<ContentBlock>)
    ensures
        forall|k: int| 0 <= k < block_tool_uses(blocks).len() ==> #[trigger] block_tool_uses(blocks)[k] is ToolUse,
    decreases blocks.len(),
{
    if blocks.len() > 0 {
        lemma_block_tool_uses_are_calls(blocks.drop_last());
    }
}

/// Every element of [`tool_uses`] is a tool call.
pub proof fn lemma_tool_uses_are_calls(session: Seq<Message>)
    ensures
        forall|k: int| 0 <= k < tool_uses(session).len() ==> #[trigger] tool_uses(session)[k] is ToolUse,
    decreases session.len(),
{
    if session.len() > 0 {
        lemma_tool_uses_are_calls(session.drop_last());
        let m = session.last();
        match m.body {
            Some(Content::Blocks(bs)) => lemma_block_tool_uses_are_calls(bs@),
            _ => {},
        }
        let a = tool_uses(session.drop_last());
        let b = message_tool_uses(m);
        assert forall|k: int| 0 <= k < tool_uses(session).len() implies #[trigger] tool_uses(session)[k] is ToolUse by {
            if k < a.len() {
                assert(tool_uses(session)[k] == a[k]);
            } else {
                assert(tool_uses(session)[k] == b[k - a.len()]);
            }
        }
    }
}

} // verus!
