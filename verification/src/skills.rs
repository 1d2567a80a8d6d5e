//! Skills: validated names and descriptions, and `SKILL.md` frontmatter handling.
use vstd::prelude::*;
use vstd::utf8::encode_utf8;

use crate::text::{chars_eq, chars_of, str_eq, string_of, trim, trim_bounds, trim_end, trim_end_bound};

verus! {

/// Longest accepted skill name, in bytes.
pub const SKILL_NAME_MAX: usize = 64;

/// Longest accepted skill description, in bytes.
pub const SKILL_DESCRIPTION_MAX: usize = 1024;

/// Whether `c` may appear in a segment of a skill name.
pub open spec fn is_name_char(c: char) -> bool {
    ('a' <= c && c <= 'z') || ('0' <= c && c <= '9') || c == '-'
}

/// Whether `raw` has an empty `:`-separated segment: it starts or ends
/// with `:`, or holds `::`.
pub open spec fn has_empty_segment(raw: Seq<char>) -> bool {
    raw.len() > 0 && (raw[0] == ':' || raw.last() == ':' || exists|i: int|
        0 <= i < raw.len() - 1 && #[trigger] raw[i] == ':' && raw[i + 1] == ':')
}

/// The reason `raw` is not a valid skill name, if it is not one.
pub open spec fn name_problem(raw: Seq<char>) -> Option<Seq<char>> {
    if raw.len() == 0 {
        Some("must be non-empty"@)
    } else if encode_utf8(raw).len() > SKILL_NAME_MAX {
        Some("must be 64 characters or fewer"@)
    } else if exists|i: int| 0 <= i < raw.len() && !is_name_char(#[trigger] raw[i]) && raw[i] != ':' {
        Some("must contain only lowercase ASCII letters, digits, `-`, and `:`"@)
    } else if has_empty_segment(raw) {
        Some("must not have an empty `:`-separated segment"@)
    } else {
        None
    }
}

/// The reason `raw` is not a valid skill description, if it is not one.
pub open spec fn description_problem(raw: Seq<char>) -> Option<Seq<char>> {
    if raw.len() == 0 {
        Some("must be non-empty"@)
    } else if encode_utf8(raw).len() > SKILL_DESCRIPTION_MAX {
        Some("must be 1024 characters or fewer"@)
    } else {
        None
    }
}

/// A validated skill name: 1 to 64 bytes, one segment of `a-z`, `0-9` and
/// `-`, or several joined by `:` (`<plugin>:<name>`), none of them empty.
#[derive(Debug, PartialEq, Eq)]
pub struct SkillName(String);

impl Clone for SkillName {
    fn clone(&self) -> (r: Self)
        ensures
            r@ == self@,
    {
        SkillName(self.0.clone())
    }
}

/// A validated skill description: 1 to 1024 bytes.
#[derive(Debug, Clone, PartialEq, Eq)]
pub struct SkillDescription(String);

/// The body of a `SKILL.md`, after its frontmatter.
#[derive(Debug, Clone, PartialEq, Eq)]
pub struct SkillBody(String);

/// Where a skill was read from.
#[derive(Debug, Clone, PartialEq, Eq)]
pub struct SkillSource(pub String);

impl View for SkillName {
    type V = Seq<char>;

    closed spec fn view(&self) -> Seq<char> {
        self.0@
    }
}

impl View for SkillDescription {
    type V = Seq<char>;

    closed spec fn view(&self) -> Seq<char> {
        self.0@
    }
}

impl View for SkillBody {
    type V = Seq<char>;

    closed spec fn view(&self) -> Seq<char> {
        self.0@
    }
}

/// Failures in resolving or parsing a skill.
#[derive(Debug, Clone)]
pub enum SkillError {
    Missing { name: SkillName, search_path: String },
    NameMismatch { expected: SkillName, found: String },
    FrontmatterMissing { name: SkillName, field: &'static str },
    FrontmatterInvalid { name: SkillName, field: &'static str, reason: String },
    FrontmatterParse { name: SkillName, message: String },
    Read { name: SkillName, path: String, message: String },
    InvalidName { raw: String, reason: String },
    InvalidDescription { reason: String },
}

impl SkillName {
    /// Validates `raw` as a skill name.
    pub fn try_from(raw: &str) -> (r: Result<SkillName, SkillError>)
        ensures
            match name_problem(raw@) {
                None => r matches Ok(n) && n@ == raw@,
                Some(reason) => r matches Err(SkillError::InvalidName { raw: x, reason: y })
                    && x@ == raw@ && y@ == reason,
            },
    {
        if raw.is_empty() {
            return Err(
                SkillError::InvalidName {
                    raw: raw.to_owned(),
                    reason: "must be non-empty".to_owned(),
                },
            );
        }
        if raw.as_bytes().len() > SKILL_NAME_MAX {
            return Err(
                SkillError::InvalidName {
                    raw: raw.to_owned(),
                    reason: "must be 64 characters or fewer".to_owned(),
                },
            );
        }
        let cs = chars_of(raw);
        let mut i: usize = 0;
        while i < cs.len()
            invariant
                i <= cs@.len(),
                cs@ == raw@,
                raw@.len() != 0,
                encode_utf8(raw@).len() <= SKILL_NAME_MAX,
                forall|k: int| 0 <= k < i ==> is_name_char(#[trigger] cs@[k]) || cs@[k] == ':',
            decreases cs.len() - i,
        {
            let c = cs[i];
            if !(('a' <= c && c <= 'z') || ('0' <= c && c <= '9') || c == '-' || c == ':') {
                assert(!is_name_char(raw@[i as int]) && raw@[i as int] != ':');
                return Err(
                    SkillError::InvalidName {
                        raw: raw.to_owned(),
                        reason: "must contain only lowercase ASCII letters, digits, `-`, and `:`".to_owned(),
                    },
                );
            }
            i += 1;
        }
        assert(!exists|k: int| 0 <= k < raw@.len() && !is_name_char(#[trigger] raw@[k]) && raw@[k] != ':');
        let n = cs.len();
        let mut empty = cs[0] == ':' || cs[n - 1] == ':';
        let mut j: usize = 0;
        while j < n - 1 && !empty
            invariant
                n == cs@.len() >= 1,
                j < n,
                cs@ == raw@,
                empty == (cs@[0] == ':' || cs@[n - 1] == ':' || exists|k: int|
                    0 <= k < j && #[trigger] cs@[k] == ':' && cs@[k + 1] == ':'),
            decreases n - j,
        {
            if cs[j] == ':' && cs[j + 1] == ':' {
                empty = true;
            }
            j += 1;
        }
        assert(cs@.last() == cs@[n - 1]);
        if empty {
            proof {
                if !(cs@[0] == ':' || cs@[n - 1] == ':') {
                    let k = choose|k: int| 0 <= k < j && #[trigger] cs@[k] == ':' && cs@[k + 1] == ':';
                    assert(raw@[k] == ':' && raw@[k + 1] == ':');
                }
                assert(has_empty_segment(raw@));
            }
            return Err(
                SkillError::InvalidName {
                    raw: raw.to_owned(),
                    reason: "must not have an empty `:`-separated segment".to_owned(),
                },
            );
        }
        assert(!has_empty_segment(raw@));
        Ok(SkillName(raw.to_owned()))
    }

    /// The name.
    pub fn as_str(&self) -> (s: &str)
        ensures
            s@ == self@,
    {
        self.0.as_str()
    }

    /// The name's text, as its `Display` rendering gives it.
    pub fn to_string(&self) -> (s: String)
        ensures
            s@ == self@,
    {
        self.0.clone()
    }
}

impl SkillDescription {
    /// Validates `raw` as a skill description.
    pub fn try_from(raw: &str) -> (r: Result<SkillDescription, SkillError>)
        ensures
            match description_problem(raw@) {
                None => r matches Ok(d) && d@ == raw@,
                Some(reason) => r matches Err(SkillError::InvalidDescription { reason: y })
                    && y@ == reason,
            },
    {
        if raw.is_empty() {
            return Err(SkillError::InvalidDescription { reason: "must be non-empty".to_owned() });
        }
        if raw.as_bytes().len() > SKILL_DESCRIPTION_MAX {
            return Err(
                SkillError::InvalidDescription {
                    reason: "must be 1024 characters or fewer".to_owned(),
                },
            );
        }
        Ok(SkillDescription(raw.to_owned()))
    }

    /// The description.
    pub fn as_str(&self) -> (s: &str)
        ensures
            s@ == self@,
    {
        self.0.as_str()
    }
}

impl SkillBody {
    /// The body text.
    pub fn as_str(&self) -> (s: &str)
        ensures
            s@ == self@,
    {
        self.0.as_str()
    }
}

impl SkillSource {
    /// The path the skill was read from.
    pub fn as_path(&self) -> (s: &str)
        ensures
            s@ == self.0@,
    {
        self.0.as_str()
    }
}


/// `s` without its leading byte-order marks, `\n` and `\r`.
pub open spec fn strip_lead(s: Seq<char>) -> Seq<char>
    decreases s.len(),
{
    if s.len() > 0 && (s[0] == '\u{feff}' || s[0] == '\n' || s[0] == '\r') {
        strip_lead(s.drop_first())
    } else {
        s
    }
}

/// `s` without its leading `\n` and `\r`.
pub open spec fn strip_newlines(s: Seq<char>) -> Seq<char>
    decreases s.len(),
{
    if s.len() > 0 && (s[0] == '\n' || s[0] == '\r') {
        strip_newlines(s.drop_first())
    } else {
        s
    }
}

/// Whether `s` holds `---` at `j`.
pub open spec fn dashes_at(s: Seq<char>, j: int) -> bool {
    0 <= j && j + 3 <= s.len() && s[j] == '-' && s[j + 1] == '-' && s[j + 2] == '-'
}

/// Whether what follows position `k` of `s` is nothing, or starts a new line.
pub open spec fn line_ends_at(s: Seq<char>, k: int) -> bool {
    k == s.len() || (k < s.len() && s[k] == '\n') || (k + 1 < s.len() && s[k] == '\r' && s[k
        + 1] == '\n')
}

/// Length of the fence `---\n` or `---\r\n` that opens `s`, if one does.
pub open spec fn open_fence_len(s: Seq<char>) -> Option<int> {
    if dashes_at(s, 0) && s.len() > 3 && s[3] == '\n' {
        Some(4)
    } else if dashes_at(s, 0) && s.len() > 4 && s[3] == '\r' && s[4] == '\n' {
        Some(5)
    } else {
        None
    }
}

/// Whether a closing fence, `---` alone on its line, starts at `j` of `s`.
pub open spec fn closing_fence_at(s: Seq<char>, j: int) -> bool {
    dashes_at(s, j) && (j == 0 || s[j - 1] == '\n') && line_ends_at(s, j + 3)
}

/// First `j >= from` at which a closing fence starts.
pub open spec fn find_fence(s: Seq<char>, from: int) -> Option<int>
    decreases s.len() - from,
{
    if from < 0 || from >= s.len() {
        None
    } else if closing_fence_at(s, from) {
        Some(from)
    } else {
        find_fence(s, from + 1)
    }
}

/// Length of the closing fence (with its line break) at the start of `s`.
pub open spec fn close_fence_len(s: Seq<char>) -> int {
    if s.len() > 3 && s[3] == '\n' {
        4
    } else if s.len() > 4 && s[3] == '\r' && s[4] == '\n' {
        5
    } else {
        3
    }
}

/// The frontmatter text and the body of a `SKILL.md`, if it opens with a fence
/// and has a closing one.
pub open spec fn spec_split_frontmatter(raw: Seq<char>) -> Option<(Seq<char>, Seq<char>)> {
    let s0 = strip_lead(raw);
    match open_fence_len(s0) {
        None => None,
        Some(k) => {
            let a = s0.skip(k);
            match find_fence(a, 0) {
                None => None,
                Some(c) => {
                    let rest = a.skip(c);
                    Some((a.take(c), strip_newlines(rest.skip(close_fence_len(rest)))))
                },
            }
        },
    }
}

proof fn lemma_strip_lead_skip(s: Seq<char>, i: int)
    requires
        0 <= i <= s.len(),
        forall|k: int|
            0 <= k < i ==> (#[trigger] s[k] == '\u{feff}' || s[k] == '\n' || s[k] == '\r'),
    ensures
        strip_lead(s) == strip_lead(s.skip(i)),
    decreases i,
{
    if i > 0 {
        assert(s[0] == '\u{feff}' || s[0] == '\n' || s[0] == '\r');
        assert forall|k: int| 0 <= k < i - 1 implies (#[trigger] s.drop_first()[k] == '\u{feff}'
            || s.drop_first()[k] == '\n' || s.drop_first()[k] == '\r') by {
            assert(s.drop_first()[k] == s[k + 1]);
        }
        lemma_strip_lead_skip(s.drop_first(), i - 1);
        assert(s.drop_first().skip(i - 1) =~= s.skip(i));
    } else {
        assert(s.skip(0) =~= s);
    }
}

proof fn lemma_strip_newlines_skip(s: Seq<char>, i: int)
    requires
        0 <= i <= s.len(),
        forall|k: int| 0 <= k < i ==> (#[trigger] s[k] == '\n' || s[k] == '\r'),
    ensures
        strip_newlines(s) == strip_newlines(s.skip(i)),
    decreases i,
{
    if i > 0 {
        assert(s[0] == '\n' || s[0] == '\r');
        assert forall|k: int| 0 <= k < i - 1 implies (#[trigger] s.drop_first()[k] == '\n'
            || s.drop_first()[k] == '\r') by {
            assert(s.drop_first()[k] == s[k + 1]);
        }
        lemma_strip_newlines_skip(s.drop_first(), i - 1);
        assert(s.drop_first().skip(i - 1) =~= s.skip(i));
    } else {
        assert(s.skip(0) =~= s);
    }
}

fn closing_fence_at_exec(s: &[char], j: usize) -> (b: bool)
    ensures
        b == closing_fence_at(s@, j as int),
{
    if j >= s.len() || s.len() - j < 3 {
        return false;
    }
    if !(s[j] == '-' && s[j + 1] == '-' && s[j + 2] == '-') {
        return false;
    }
    if j > 0 && s[j - 1] != '\n' {
        return false;
    }
    let k = j + 3;
    k == s.len() || (k < s.len() && s[k] == '\n') || (k + 1 < s.len() && s[k] == '\r' && s[k
        + 1] == '\n')
}

/// Index (in characters) of the first closing fence of `after_open`: a `---`
/// alone on its line.
pub fn find_closing_fence(after_open: &[char]) -> (r: Option<usize>)
    ensures
        match find_fence(after_open@, 0) {
            Some(c) => r == Some(c as usize),
            None => r is None,
        },
{
    let mut j: usize = 0;
    while j < after_open.len()
        invariant
            j <= after_open@.len(),
            find_fence(after_open@, 0) == find_fence(after_open@, j as int),
        decreases after_open.len() - j,
    {
        if closing_fence_at_exec(after_open, j) {
            return Some(j);
        }
        j += 1;
    }
    None
}

proof fn lemma_find_fence_bounds(s: Seq<char>, from: int)
    ensures
        find_fence(s, from) matches Some(c) ==> from <= c && c + 3 <= s.len() && dashes_at(s, c),
    decreases s.len() - from,
{
    if !(from < 0 || from >= s.len()) && !closing_fence_at(s, from) {
        lemma_find_fence_bounds(s, from + 1);
    }
}

/// Splits a `SKILL.md` into its frontmatter text and its body. The first
/// non-empty line must be `---`, followed by YAML, followed by a closing
/// `---`; the body is what follows the closing fence, with leading newlines
/// removed. A missing fence is [`SkillError::FrontmatterMissing`] with field `---`.
pub fn split_frontmatter(raw: &str, expected_name: &SkillName) -> (r: Result<
    (String, String),
    SkillError,
>)
    ensures
        match spec_split_frontmatter(raw@) {
            Some((yaml, body)) => r matches Ok((y, b)) && y@ == yaml && b@ == body,
            None => r matches Err(SkillError::FrontmatterMissing { name, field })
                && name@ == expected_name@ && field@ == "---"@,
        },
{
    let t = chars_of(raw);
    let mut i: usize = 0;
    while i < t.len() && (t[i] == '\u{feff}' || t[i] == '\n' || t[i] == '\r')
        invariant
            i <= t@.len(),
            forall|k: int|
                0 <= k < i ==> (#[trigger] t@[k] == '\u{feff}' || t@[k] == '\n' || t@[k]
                    == '\r'),
        decreases t.len() - i,
    {
        i += 1;
    }
    let ghost s0 = t@.skip(i as int);
    proof {
        lemma_strip_lead_skip(t@, i as int);
        if s0.len() > 0 {
            assert(s0[0] == t@[i as int]);
        }
        assert(strip_lead(s0) == s0);
    }
    let rest = &t.as_slice()[i..t.len()];
    assert(rest@ =~= s0);
    let k: usize = if rest.len() > 3 && rest[0] == '-' && rest[1] == '-' && rest[2] == '-'
        && rest[3] == '\n' {
        4
    } else if rest.len() > 4 && rest[0] == '-' && rest[1] == '-' && rest[2] == '-' && rest[3]
        == '\r' && rest[4] == '\n' {
        5
    } else {
        return Err(SkillError::FrontmatterMissing { name: expected_name.clone(), field: "---" });
    };
    let a = &rest[k..rest.len()];
    assert(a@ =~= s0.skip(k as int));
    let c = match find_closing_fence(a) {
        Some(c) => c,
        None => return Err(
            SkillError::FrontmatterMissing { name: expected_name.clone(), field: "---" },
        ),
    };
    proof {
        lemma_find_fence_bounds(a@, 0);
    }
    let yaml = &a[0..c];
    assert(yaml@ =~= a@.take(c as int));
    let after = &a[c..a.len()];
    assert(after@ =~= a@.skip(c as int));
    let fl: usize = if after.len() > 3 && after[3] == '\n' {
        4
    } else if after.len() > 4 && after[3] == '\r' && after[4] == '\n' {
        5
    } else {
        3
    };
    let tail = &after[fl..after.len()];
    assert(tail@ =~= after@.skip(fl as int));
    let mut b: usize = 0;
    while b < tail.len() && (tail[b] == '\n' || tail[b] == '\r')
        invariant
            b <= tail@.len(),
            forall|q: int| 0 <= q < b ==> (#[trigger] tail@[q] == '\n' || tail@[q] == '\r'),
        decreases tail.len() - b,
    {
        b += 1;
    }
    proof {
        lemma_strip_newlines_skip(tail@, b as int);
        let u = tail@.skip(b as int);
        if u.len() > 0 {
            assert(u[0] == tail@[b as int]);
        }
        assert(strip_newlines(u) == u);
    }
    let body = &tail[b..tail.len()];
    assert(body@ =~= tail@.skip(b as int));
    Ok((string_of(yaml), string_of(body)))
}


/// The two frontmatter fields a `SKILL.md` must declare, as the YAML gave them.
#[derive(Debug, Clone, Default)]
pub struct SkillFrontmatter {
    pub name: Option<String>,
    pub description: Option<String>,
}

/// A skill: a validated name and description, its body, and where it came from.
#[derive(Debug, Clone)]
pub struct Skill {
    pub name: SkillName,
    pub description: SkillDescription,
    pub body: SkillBody,
    pub source: SkillSource,
}

impl Skill {
    /// The skill's name.
    pub fn name(&self) -> (r: &SkillName)
        ensures
            r@ == self.name@,
    {
        &self.name
    }

    /// The skill's description.
    pub fn description(&self) -> (r: &SkillDescription)
        ensures
            r@ == self.description@,
    {
        &self.description
    }

    /// The skill's body.
    pub fn body(&self) -> (r: &SkillBody)
        ensures
            r@ == self.body@,
    {
        &self.body
    }

    /// Where the skill was read from.
    pub fn source(&self) -> (r: &SkillSource)
        ensures
            r == &self.source,
    {
        &self.source
    }

    /// Builds a skill from its parsed frontmatter (`Err` carries the YAML
    /// parser's message) and the body that followed it, checking that the
    /// frontmatter declares a valid `name` equal to `expected_name` and a valid
    /// `description` (trimmed). The body loses its trailing whitespace.
    pub fn from_frontmatter(
        source: SkillSource,
        frontmatter: Result<SkillFrontmatter, String>,
        body: &str,
        expected_name: &SkillName,
    ) -> (r: Result<Skill, SkillError>)
        ensures
            match frontmatter {
                Err(msg) => r matches Err(SkillError::FrontmatterParse { name, message })
                    && name@ == expected_name@ && message@ == msg@,
                Ok(fm) => match (fm.name, fm.description) {
                    (None, _) => r matches Err(SkillError::FrontmatterMissing { name, field })
                        && name@ == expected_name@ && field@ == "name"@,
                    (Some(_), None) => r matches Err(SkillError::FrontmatterMissing { name, field })
                        && name@ == expected_name@ && field@ == "description"@,
                    (Some(n), Some(d)) => if name_problem(n@) is Some {
                        r matches Err(SkillError::FrontmatterInvalid { name, field, reason })
                            && name@ == expected_name@ && field@ == "name"@ && reason@
                            == name_problem(n@)->0
                    } else if n@ != expected_name@ {
                        r matches Err(SkillError::NameMismatch { expected, found })
                            && expected@ == expected_name@ && found@ == n@
                    } else if description_problem(trim(d@)) is Some {
                        r matches Err(SkillError::FrontmatterInvalid { name, field, reason })
                            && name@ == expected_name@ && field@ == "description"@ && reason@
                            == description_problem(trim(d@))->0
                    } else {
                        r matches Ok(skill) && skill.name@ == n@ && skill.description@ == trim(
                            d@,
                        ) && skill.body@ == trim_end(body@) && skill.source == source
                    },
                },
            },
    {
        let fm = match frontmatter {
            Err(message) => return Err(
                SkillError::FrontmatterParse { name: expected_name.clone(), message },
            ),
            Ok(fm) => fm,
        };
        let name_raw = match fm.name {
            None => return Err(
                SkillError::FrontmatterMissing { name: expected_name.clone(), field: "name" },
            ),
            Some(n) => n,
        };
        let description_raw = match fm.description {
            None => return Err(
                SkillError::FrontmatterMissing { name: expected_name.clone(), field: "description" },
            ),
            Some(d) => d,
        };
        let parsed_name = match SkillName::try_from(name_raw.as_str()) {
            Ok(n) => n,
            Err(SkillError::InvalidName { reason, .. }) => return Err(
                SkillError::FrontmatterInvalid { name: expected_name.clone(), field: "name", reason },
            ),
            Err(other) => return Err(other),
        };
        if !str_eq(parsed_name.as_str(), expected_name.as_str()) {
            return Err(SkillError::NameMismatch { expected: expected_name.clone(), found: name_raw });
        }
        let dchars = chars_of(description_raw.as_str());
        let (a, b) = trim_bounds(dchars.as_slice(), 0, dchars.len());
        assert(dchars@.subrange(0, dchars@.len() as int) =~= dchars@);
        let piece = &dchars.as_slice()[a..b];
        assert(piece@ =~= dchars@.subrange(a as int, b as int));
        let trimmed = string_of(piece);
        let description = match SkillDescription::try_from(trimmed.as_str()) {
            Ok(d) => d,
            Err(SkillError::InvalidDescription { reason }) => return Err(
                SkillError::FrontmatterInvalid {
                    name: expected_name.clone(),
                    field: "description",
                    reason,
                },
            ),
            Err(other) => return Err(other),
        };
        let bchars = chars_of(body);
        let e = trim_end_bound(bchars.as_slice(), 0, bchars.len());
        assert(bchars@.subrange(0, bchars@.len() as int) =~= bchars@);
        let bpiece = &bchars.as_slice()[0..e];
        assert(bpiece@ =~= bchars@.subrange(0, e as int));
        let body_text = string_of(bpiece);
        Ok(
            Skill {
                name: parsed_name,
                description,
                body: SkillBody(body_text),
                source,
            },
        )
    }
}

/// Looks skills up by name.
pub trait SkillRepository {
    /// The skill named `name`.
    fn get(&self, name: &SkillName) -> Result<Skill, SkillError>;
}

/// A repository with no skills: every lookup is [`SkillError::Missing`].
pub struct NullSkillRepository;

impl SkillRepository for NullSkillRepository {
    fn get(&self, name: &SkillName) -> (r: Result<Skill, SkillError>)
        ensures
            r matches Err(SkillError::Missing { name: n, search_path }) && n@ == name@
                && search_path@ == "<no skill repository configured>"@,
    {
        Err(
            SkillError::Missing {
                name: name.clone(),
                search_path: "<no skill repository configured>".to_owned(),
            },
        )
    }
}

} // verus!
