//! The `bash` tool: its output formatting and the classifier that rates a
//! shell command as read-only, safe, or unsafe.
use vstd::prelude::*;
use vstd::utf8::{decode_utf8, valid_utf8};

use crate::permissions::Classification;
use crate::text::{
    chars_eq, chars_of, char_width, dec_int, push_decimal_i64, push_str, str_eq, utf8_len,
    width_of, lemma_utf8_len_push,
};

verus! {

/// `std::path::PathBuf`, carried through as the shell's working directory.
#[verifier::external_type_specification]
#[verifier::external_body]
pub struct ExPathBuf(std::path::PathBuf);

/// `Duration::clone`: `Duration` is `Copy`, so the clone is the same value.
pub assume_specification[ <core::time::Duration as Clone>::clone ](d: &core::time::Duration) -> (r: core::time::Duration)
    ensures
        r == *d,
;

/// `PathBuf::clone`; nothing is claimed of the copy.
pub assume_specification[ <std::path::PathBuf as Clone>::clone ](p: &std::path::PathBuf) -> std::path::PathBuf;

/// The shell tool: runs a command with `bash -c` in `cwd`, bounded by `timeout`.
#[derive(Debug, Clone)]
pub struct Bash {
    pub cwd: std::path::PathBuf,
    pub timeout: core::time::Duration,
}

impl Bash {
    /// The tool's registered name.
    pub const NAME: &'static str = "bash";

    /// A shell tool working in `cwd` with the given timeout.
    pub fn new(cwd: std::path::PathBuf, timeout: core::time::Duration) -> (b: Self)
        ensures
            b.cwd == cwd,
            b.timeout == timeout,
    {
        Bash { cwd, timeout }
    }
}

/// The arguments of one `bash` call.
#[derive(Debug, Clone)]
pub struct BashArgs {
    pub command: String,
    pub description: Option<String>,
}

/// Why a `bash` call produced no output.
#[derive(Debug, Clone)]
pub enum BashError {
    Spawn { message: String },
    Wait { message: String },
    Timeout { elapsed: core::time::Duration },
}

/// Largest output, in bytes, kept before truncation.
pub const OUTPUT_CAP: u64 = 32768;

/// The characters that `String::from_utf8_lossy` decodes from `bytes`.
pub uninterp spec fn lossy_utf8(bytes: Seq<u8>) -> Seq<char>;

/// `String::from_utf8_lossy`: decodes `bytes`, replacing each invalid sequence
/// with U+FFFD; a valid UTF-8 input decodes exactly.
#[verifier::external_body]
fn from_utf8_lossy(bytes: &[u8]) -> (s: String)
    ensures
        s@ == lossy_utf8(bytes@),
        valid_utf8(bytes@) ==> s@ == decode_utf8(bytes@),
{
    String::from_utf8_lossy(bytes).into_owned()
}

/// Number of leading characters of `s` whose UTF-8 encoding fits in `cap` bytes.
pub open spec fn fit_len(s: Seq<char>, cap: int) -> int
    decreases s.len(),
{
    if s.len() == 0 || char_width(s[0]) > cap {
        0
    } else {
        1 + fit_len(s.drop_first(), cap - char_width(s[0]))
    }
}

/// `s` without its trailing `\n`s.
pub open spec fn trim_newlines_end(s: Seq<char>) -> Seq<char>
    decreases s.len(),
{
    if s.len() > 0 && s.last() == '\n' {
        trim_newlines_end(s.drop_last())
    } else {
        s
    }
}

/// What the `bash` tool reports for a finished command: stdout, then stderr
/// under a `--- stderr ---` marker when there is any, cut to [`OUTPUT_CAP`]
/// bytes (at a character boundary, marked `[truncated]`), trailing newlines
/// removed, and an `[exit: <code>]` footer.
pub open spec fn bash_report(stdout: Seq<char>, stderr: Option<Seq<char>>, code: int) -> Seq<char> {
    let content = match stderr {
        None => stdout,
        Some(e) => stdout + "\n--- stderr ---\n"@ + e,
    };
    let truncated = utf8_len(content) > OUTPUT_CAP;
    let kept = if truncated {
        content.take(fit_len(content, OUTPUT_CAP as int))
    } else {
        content
    };
    let body = trim_newlines_end(kept);
    (if truncated {
        body + "\n[truncated]"@
    } else {
        body
    }) + "\n\n[exit: "@ + dec_int(code) + "]"@
}

proof fn lemma_fit_len(s: Seq<char>, cap: int, k: int, used: int)
    requires
        0 <= k <= s.len(),
        used == utf8_len(s.take(k)),
        used <= cap,
    ensures
        fit_len(s, cap) == k + fit_len(s.skip(k), cap - used),
    decreases k,
{
    if k > 0 {
        assert(s.take(k) =~= seq![s[0]] + s.drop_first().take(k - 1));
        crate::text::lemma_utf8_len_concat(seq![s[0]], s.drop_first().take(k - 1));
        assert(seq![s[0]].drop_first() =~= Seq::<char>::empty());
        assert(utf8_len(seq![s[0]]) == char_width(s[0]) + utf8_len(Seq::<char>::empty()));
        lemma_fit_len(s.drop_first(), cap - char_width(s[0]), k - 1, used - char_width(s[0]));
        assert(s.drop_first().skip(k - 1) =~= s.skip(k));
    } else {
        assert(s.skip(0) =~= s);
    }
}

proof fn lemma_trim_newlines_end(s: Seq<char>, e: int)
    requires
        0 <= e <= s.len(),
        forall|k: int| e <= k < s.len() ==> #[trigger] s[k] == '\n',
        e == 0 || s[e - 1] != '\n',
    ensures
        trim_newlines_end(s) == s.take(e),
    decreases s.len() - e,
{
    if s.len() > e {
        assert(s.last() == '\n');
        assert(s.drop_last().take(e) =~= s.take(e));
        lemma_trim_newlines_end(s.drop_last(), e);
    } else {
        assert(s.take(e) =~= s);
        if e > 0 {
            assert(s.last() == s[e - 1]);
        }
    }
}

fn push_chars(out: &mut String, v: &[char], lo: usize, hi: usize)
    requires
        lo <= hi <= v@.len(),
    ensures
        final(out)@ == old(out)@ + v@.subrange(lo as int, hi as int),
{
    let mut i = lo;
    while i < hi
        invariant
            lo <= i <= hi <= v@.len(),
            out@ == old(out)@ + v@.subrange(lo as int, i as int),
        decreases hi - i,
    {
        out.push(v[i]);
        i += 1;
        assert(v@.subrange(lo as int, i as int) =~= v@.subrange(lo as int, i - 1).push(v@[i - 1]));
    }
}

/// Formats a finished command's output as [`bash_report`] describes.
pub fn format_bash_output(stdout_bytes: &[u8], stderr_bytes: &[u8], code: i32) -> (s: String)
    ensures
        s@ == bash_report(
            lossy_utf8(stdout_bytes@),
            if stderr_bytes@.len() == 0 {
                None
            } else {
                Some(lossy_utf8(stderr_bytes@))
            },
            code as int,
        ),
{
    let stdout = from_utf8_lossy(stdout_bytes);
    let mut content = chars_of(stdout.as_str());
    if stderr_bytes.len() > 0 {
        let stderr = from_utf8_lossy(stderr_bytes);
        let mut marker = chars_of("\n--- stderr ---\n");
        let mut err_chars = chars_of(stderr.as_str());
        content.append(&mut marker);
        content.append(&mut err_chars);
    }
    let ghost full = content@;
    proof {
        if stderr_bytes@.len() != 0 {
            assert(full =~= lossy_utf8(stdout_bytes@) + "\n--- stderr ---\n"@ + lossy_utf8(stderr_bytes@));
        }
    }
    let mut used: u64 = 0;
    let mut i: usize = 0;
    let mut truncated = false;
    while i < content.len()
        invariant_except_break
            i <= content@.len(),
            used == utf8_len(content@.take(i as int)),
            used <= OUTPUT_CAP,
            !truncated,
        ensures
            i <= content@.len(),
            truncated ==> utf8_len(content@) > OUTPUT_CAP && fit_len(content@, OUTPUT_CAP as int) == i,
            !truncated ==> i == content@.len() && utf8_len(content@.take(i as int)) <= OUTPUT_CAP,
        decreases content.len() - i,
    {
        let w = width_of(content[i]) as u64;
        proof {
            assert(content@.take(i + 1) =~= content@.take(i as int).push(content@[i as int]));
            lemma_utf8_len_push(content@.take(i as int), content@[i as int]);
        }
        if used + w > OUTPUT_CAP {
            proof {
                lemma_fit_len(content@, OUTPUT_CAP as int, i as int, used as int);
                assert(content@.skip(i as int)[0] == content@[i as int]);
                assert(content@ =~= content@.take(i + 1) + content@.skip(i + 1));
                crate::text::lemma_utf8_len_concat(content@.take(i + 1), content@.skip(i + 1));
            }
            truncated = true;
            break;
        }
        used = used + w;
        i += 1;
    }
    proof {
        if !truncated {
            assert(content@.take(i as int) =~= content@);
        }
    }
    let k = i;
    let ghost kept = content@.take(k as int);
    let mut e = k;
    while e > 0 && content[e - 1] == '\n'
        invariant
            e <= k <= content@.len(),
            kept == content@.take(k as int),
            forall|q: int| e <= q < k ==> #[trigger] kept[q] == '\n',
        decreases e,
    {
        e -= 1;
    }
    proof {
        lemma_trim_newlines_end(kept, e as int);
        assert(kept.take(e as int) =~= content@.subrange(0, e as int));
    }
    let mut out = String::new();
    push_chars(&mut out, content.as_slice(), 0, e);
    if truncated {
        push_str(&mut out, "\n[truncated]");
    }
    push_str(&mut out, "\n\n[exit: ");
    push_decimal_i64(&mut out, code as i64);
    push_str(&mut out, "]");
    proof {
        assert(Seq::<char>::empty() + content@.subrange(0, e as int) =~= content@.subrange(0, e as int));
    }
    out
}


/// A check that can demote a built-in rule to [`Classification::Unsafe`].
#[derive(Clone, Copy, Debug, PartialEq, Eq, Structural)]
pub enum Inspector {
    /// Any non-flag argument that resolves outside the working directory.
    PathArgs,
    /// `--force`, `-f` or `--force-with-lease`.
    GitPushFlags,
    /// `-delete`, `-exec` or `-execdir`.
    FindFlags,
}

/// A built-in classification for a command head.
#[derive(Clone, Copy, Debug, PartialEq, Eq, Structural)]
pub struct BuiltinRule {
    pub classification: Classification,
    pub inspector: Option<Inspector>,
}

/// The built-in rule for a command head (one word, or two words joined by a space).
pub open spec fn builtin(head: Seq<char>) -> Option<BuiltinRule> {
    if head == "git status"@ {
        Some(BuiltinRule { classification: Classification::Read, inspector: None })
    } else if head == "git log"@ {
        Some(BuiltinRule { classification: Classification::Read, inspector: None })
    } else if head == "git diff"@ {
        Some(BuiltinRule { classification: Classification::Read, inspector: None })
    } else if head == "git show"@ {
        Some(BuiltinRule { classification: Classification::Read, inspector: None })
    } else if head == "git branch"@ {
        Some(BuiltinRule { classification: Classification::Read, inspector: None })
    } else if head == "git remote"@ {
        Some(BuiltinRule { classification: Classification::Read, inspector: None })
    } else if head == "git add"@ {
        Some(BuiltinRule { classification: Classification::Safe, inspector: Some(Inspector::PathArgs) })
    } else if head == "git commit"@ {
        Some(BuiltinRule { classification: Classification::Safe, inspector: None })
    } else if head == "git restore"@ {
        Some(BuiltinRule { classification: Classification::Safe, inspector: Some(Inspector::PathArgs) })
    } else if head == "git checkout"@ {
        Some(BuiltinRule { classification: Classification::Safe, inspector: None })
    } else if head == "git fetch"@ {
        Some(BuiltinRule { classification: Classification::Safe, inspector: None })
    } else if head == "git pull"@ {
        Some(BuiltinRule { classification: Classification::Safe, inspector: None })
    } else if head == "git push"@ {
        Some(BuiltinRule { classification: Classification::Safe, inspector: Some(Inspector::GitPushFlags) })
    } else if head == "git clone"@ {
        Some(BuiltinRule { classification: Classification::Unsafe, inspector: None })
    } else if head == "cargo build"@ {
        Some(BuiltinRule { classification: Classification::Safe, inspector: None })
    } else if head == "cargo test"@ {
        Some(BuiltinRule { classification: Classification::Safe, inspector: None })
    } else if head == "cargo check"@ {
        Some(BuiltinRule { classification: Classification::Safe, inspector: None })
    } else if head == "cargo fmt"@ {
        Some(BuiltinRule { classification: Classification::Safe, inspector: None })
    } else if head == "cargo clippy"@ {
        Some(BuiltinRule { classification: Classification::Safe, inspector: None })
    } else if head == "cargo publish"@ {
        Some(BuiltinRule { classification: Classification::Unsafe, inspector: None })
    } else if head == "npm install"@ {
        Some(BuiltinRule { classification: Classification::Safe, inspector: None })
    } else if head == "npm run"@ {
        Some(BuiltinRule { classification: Classification::Safe, inspector: None })
    } else if head == "npm test"@ {
        Some(BuiltinRule { classification: Classification::Safe, inspector: None })
    } else if head == "npm publish"@ {
        Some(BuiltinRule { classification: Classification::Unsafe, inspector: None })
    } else if head == "ls"@ {
        Some(BuiltinRule { classification: Classification::Read, inspector: Some(Inspector::PathArgs) })
    } else if head == "pwd"@ {
        Some(BuiltinRule { classification: Classification::Read, inspector: None })
    } else if head == "echo"@ {
        Some(BuiltinRule { classification: Classification::Read, inspector: None })
    } else if head == "printf"@ {
        Some(BuiltinRule { classification: Classification::Read, inspector: None })
    } else if head == "cat"@ {
        Some(BuiltinRule { classification: Classification::Read, inspector: Some(Inspector::PathArgs) })
    } else if head == "head"@ {
        Some(BuiltinRule { classification: Classification::Read, inspector: Some(Inspector::PathArgs) })
    } else if head == "tail"@ {
        Some(BuiltinRule { classification: Classification::Read, inspector: Some(Inspector::PathArgs) })
    } else if head == "wc"@ {
        Some(BuiltinRule { classification: Classification::Read, inspector: Some(Inspector::PathArgs) })
    } else if head == "file"@ {
        Some(BuiltinRule { classification: Classification::Read, inspector: Some(Inspector::PathArgs) })
    } else if head == "stat"@ {
        Some(BuiltinRule { classification: Classification::Read, inspector: Some(Inspector::PathArgs) })
    } else if head == "which"@ {
        Some(BuiltinRule { classification: Classification::Read, inspector: None })
    } else if head == "whereis"@ {
        Some(BuiltinRule { classification: Classification::Read, inspector: None })
    } else if head == "tree"@ {
        Some(BuiltinRule { classification: Classification::Read, inspector: Some(Inspector::PathArgs) })
    } else if head == "date"@ {
        Some(BuiltinRule { classification: Classification::Read, inspector: None })
    } else if head == "env"@ {
        Some(BuiltinRule { classification: Classification::Read, inspector: None })
    } else if head == "grep"@ {
        Some(BuiltinRule { classification: Classification::Read, inspector: Some(Inspector::PathArgs) })
    } else if head == "rg"@ {
        Some(BuiltinRule { classification: Classification::Read, inspector: Some(Inspector::PathArgs) })
    } else if head == "find"@ {
        Some(BuiltinRule { classification: Classification::Read, inspector: Some(Inspector::FindFlags) })
    } else if head == "mkdir"@ {
        Some(BuiltinRule { classification: Classification::Safe, inspector: Some(Inspector::PathArgs) })
    } else if head == "touch"@ {
        Some(BuiltinRule { classification: Classification::Safe, inspector: Some(Inspector::PathArgs) })
    } else if head == "cp"@ {
        Some(BuiltinRule { classification: Classification::Safe, inspector: Some(Inspector::PathArgs) })
    } else if head == "mv"@ {
        Some(BuiltinRule { classification: Classification::Safe, inspector: Some(Inspector::PathArgs) })
    } else if head == "rm"@ {
        Some(BuiltinRule { classification: Classification::Safe, inspector: Some(Inspector::PathArgs) })
    } else if head == "chmod"@ {
        Some(BuiltinRule { classification: Classification::Safe, inspector: Some(Inspector::PathArgs) })
    } else if head == "make"@ {
        Some(BuiltinRule { classification: Classification::Safe, inspector: None })
    } else if head == "curl"@ {
        Some(BuiltinRule { classification: Classification::Unsafe, inspector: None })
    } else if head == "wget"@ {
        Some(BuiltinRule { classification: Classification::Unsafe, inspector: None })
    } else if head == "ssh"@ {
        Some(BuiltinRule { classification: Classification::Unsafe, inspector: None })
    } else if head == "scp"@ {
        Some(BuiltinRule { classification: Classification::Unsafe, inspector: None })
    } else if head == "rsync"@ {
        Some(BuiltinRule { classification: Classification::Unsafe, inspector: None })
    } else if head == "nc"@ {
        Some(BuiltinRule { classification: Classification::Unsafe, inspector: None })
    } else if head == "sudo"@ {
        Some(BuiltinRule { classification: Classification::Unsafe, inspector: None })
    } else if head == "su"@ {
        Some(BuiltinRule { classification: Classification::Unsafe, inspector: None })
    } else {
        None
    }
}

fn builtin_exec(head: &str) -> (r: Option<BuiltinRule>)
    ensures
        r == builtin(head@),
{
    if str_eq(head, "git status") {
        Some(BuiltinRule { classification: Classification::Read, inspector: None })
    } else if str_eq(head, "git log") {
        Some(BuiltinRule { classification: Classification::Read, inspector: None })
    } else if str_eq(head, "git diff") {
        Some(BuiltinRule { classification: Classification::Read, inspector: None })
    } else if str_eq(head, "git show") {
        Some(BuiltinRule { classification: Classification::Read, inspector: None })
    } else if str_eq(head, "git branch") {
        Some(BuiltinRule { classification: Classification::Read, inspector: None })
    } else if str_eq(head, "git remote") {
        Some(BuiltinRule { classification: Classification::Read, inspector: None })
    } else if str_eq(head, "git add") {
        Some(BuiltinRule { classification: Classification::Safe, inspector: Some(Inspector::PathArgs) })
    } else if str_eq(head, "git commit") {
        Some(BuiltinRule { classification: Classification::Safe, inspector: None })
    } else if str_eq(head, "git restore") {
        Some(BuiltinRule { classification: Classification::Safe, inspector: Some(Inspector::PathArgs) })
    } else if str_eq(head, "git checkout") {
        Some(BuiltinRule { classification: Classification::Safe, inspector: None })
    } else if str_eq(head, "git fetch") {
        Some(BuiltinRule { classification: Classification::Safe, inspector: None })
    } else if str_eq(head, "git pull") {
        Some(BuiltinRule { classification: Classification::Safe, inspector: None })
    } else if str_eq(head, "git push") {
        Some(BuiltinRule { classification: Classification::Safe, inspector: Some(Inspector::GitPushFlags) })
    } else if str_eq(head, "git clone") {
        Some(BuiltinRule { classification: Classification::Unsafe, inspector: None })
    } else if str_eq(head, "cargo build") {
        Some(BuiltinRule { classification: Classification::Safe, inspector: None })
    } else if str_eq(head, "cargo test") {
        Some(BuiltinRule { classification: Classification::Safe, inspector: None })
    } else if str_eq(head, "cargo check") {
        Some(BuiltinRule { classification: Classification::Safe, inspector: None })
    } else if str_eq(head, "cargo fmt") {
        Some(BuiltinRule { classification: Classification::Safe, inspector: None })
    } else if str_eq(head, "cargo clippy") {
        Some(BuiltinRule { classification: Classification::Safe, inspector: None })
    } else if str_eq(head, "cargo publish") {
        Some(BuiltinRule { classification: Classification::Unsafe, inspector: None })
    } else if str_eq(head, "npm install") {
        Some(BuiltinRule { classification: Classification::Safe, inspector: None })
    } else if str_eq(head, "npm run") {
        Some(BuiltinRule { classification: Classification::Safe, inspector: None })
    } else if str_eq(head, "npm test") {
        Some(BuiltinRule { classification: Classification::Safe, inspector: None })
    } else if str_eq(head, "npm publish") {
        Some(BuiltinRule { classification: Classification::Unsafe, inspector: None })
    } else if str_eq(head, "ls") {
        Some(BuiltinRule { classification: Classification::Read, inspector: Some(Inspector::PathArgs) })
    } else if str_eq(head, "pwd") {
        Some(BuiltinRule { classification: Classification::Read, inspector: None })
    } else if str_eq(head, "echo") {
        Some(BuiltinRule { classification: Classification::Read, inspector: None })
    } else if str_eq(head, "printf") {
        Some(BuiltinRule { classification: Classification::Read, inspector: None })
    } else if str_eq(head, "cat") {
        Some(BuiltinRule { classification: Classification::Read, inspector: Some(Inspector::PathArgs) })
    } else if str_eq(head, "head") {
        Some(BuiltinRule { classification: Classification::Read, inspector: Some(Inspector::PathArgs) })
    } else if str_eq(head, "tail") {
        Some(BuiltinRule { classification: Classification::Read, inspector: Some(Inspector::PathArgs) })
    } else if str_eq(head, "wc") {
        Some(BuiltinRule { classification: Classification::Read, inspector: Some(Inspector::PathArgs) })
    } else if str_eq(head, "file") {
        Some(BuiltinRule { classification: Classification::Read, inspector: Some(Inspector::PathArgs) })
    } else if str_eq(head, "stat") {
        Some(BuiltinRule { classification: Classification::Read, inspector: Some(Inspector::PathArgs) })
    } else if str_eq(head, "which") {
        Some(BuiltinRule { classification: Classification::Read, inspector: None })
    } else if str_eq(head, "whereis") {
        Some(BuiltinRule { classification: Classification::Read, inspector: None })
    } else if str_eq(head, "tree") {
        Some(BuiltinRule { classification: Classification::Read, inspector: Some(Inspector::PathArgs) })
    } else if str_eq(head, "date") {
        Some(BuiltinRule { classification: Classification::Read, inspector: None })
    } else if str_eq(head, "env") {
        Some(BuiltinRule { classification: Classification::Read, inspector: None })
    } else if str_eq(head, "grep") {
        Some(BuiltinRule { classification: Classification::Read, inspector: Some(Inspector::PathArgs) })
    } else if str_eq(head, "rg") {
        Some(BuiltinRule { classification: Classification::Read, inspector: Some(Inspector::PathArgs) })
    } else if str_eq(head, "find") {
        Some(BuiltinRule { classification: Classification::Read, inspector: Some(Inspector::FindFlags) })
    } else if str_eq(head, "mkdir") {
        Some(BuiltinRule { classification: Classification::Safe, inspector: Some(Inspector::PathArgs) })
    } else if str_eq(head, "touch") {
        Some(BuiltinRule { classification: Classification::Safe, inspector: Some(Inspector::PathArgs) })
    } else if str_eq(head, "cp") {
        Some(BuiltinRule { classification: Classification::Safe, inspector: Some(Inspector::PathArgs) })
    } else if str_eq(head, "mv") {
        Some(BuiltinRule { classification: Classification::Safe, inspector: Some(Inspector::PathArgs) })
    } else if str_eq(head, "rm") {
        Some(BuiltinRule { classification: Classification::Safe, inspector: Some(Inspector::PathArgs) })
    } else if str_eq(head, "chmod") {
        Some(BuiltinRule { classification: Classification::Safe, inspector: Some(Inspector::PathArgs) })
    } else if str_eq(head, "make") {
        Some(BuiltinRule { classification: Classification::Safe, inspector: None })
    } else if str_eq(head, "curl") {
        Some(BuiltinRule { classification: Classification::Unsafe, inspector: None })
    } else if str_eq(head, "wget") {
        Some(BuiltinRule { classification: Classification::Unsafe, inspector: None })
    } else if str_eq(head, "ssh") {
        Some(BuiltinRule { classification: Classification::Unsafe, inspector: None })
    } else if str_eq(head, "scp") {
        Some(BuiltinRule { classification: Classification::Unsafe, inspector: None })
    } else if str_eq(head, "rsync") {
        Some(BuiltinRule { classification: Classification::Unsafe, inspector: None })
    } else if str_eq(head, "nc") {
        Some(BuiltinRule { classification: Classification::Unsafe, inspector: None })
    } else if str_eq(head, "sudo") {
        Some(BuiltinRule { classification: Classification::Unsafe, inspector: None })
    } else if str_eq(head, "su") {
        Some(BuiltinRule { classification: Classification::Unsafe, inspector: None })
    } else {
        None
    }
}

/// Index past a run of spaces and tabs starting at `j`.
pub open spec fn skip_blanks(s: Seq<char>, j: int) -> int
    decreases s.len() - j,
{
    if 0 <= j < s.len() && (s[j] == ' ' || s[j] == '\t') {
        skip_blanks(s, j + 1)
    } else {
        j
    }
}

/// Whether the `>` at `i` (or `>>`) redirects into an absolute path.
pub open spec fn redirects_to_root(s: Seq<char>, i: int) -> bool {
    let j0 = if i + 1 < s.len() && s[i + 1] == '>' {
        i + 2
    } else {
        i + 1
    };
    let j = skip_blanks(s, j0);
    0 <= j < s.len() && s[j] == '/'
}

/// The quoting state after reading `t`: inside single quotes, inside double
/// quotes, and whether the next character is escaped. Outside quotes a
/// backslash escapes the next character; `'` opens and closes single quotes
/// outside double quotes, and `"` double quotes outside single quotes.
pub open spec fn quote_state(t: Seq<char>) -> (bool, bool, bool)
    decreases t.len(),
{
    if t.len() == 0 {
        (false, false, false)
    } else {
        let (sq, dq, esc) = quote_state(t.drop_last());
        let c = t.last();
        if esc {
            (sq, dq, false)
        } else if !sq && !dq && c == '\\' {
            (sq, dq, true)
        } else if !dq && c == '\'' {
            (!sq, dq, false)
        } else if !sq && c == '"' {
            (sq, !dq, false)
        } else {
            (sq, dq, false)
        }
    }
}

/// Whether a compound marker starts at `i`: a backtick, `$(`, `&&`, `|`
/// (so also `||`), `;`, or a redirect (`>` or `>>`) into an absolute path.
pub open spec fn marker_at(s: Seq<char>, i: int) -> bool {
    let c = s[i];
    ||| c == '`'
    ||| c == '$' && i + 1 < s.len() && s[i + 1] == '('
    ||| c == '&' && i + 1 < s.len() && s[i + 1] == '&'
    ||| c == '|'
    ||| c == ';'
    ||| c == '>' && redirects_to_root(s, i)
}

/// Whether a compound marker starts at `i` outside quotes and unescaped.
pub open spec fn live_marker(s: Seq<char>, i: int) -> bool {
    0 <= i < s.len() && quote_state(s.take(i)) == (false, false, false) && marker_at(s, i)
}

/// The scan that finds a live marker from `i`, given the quoting state there.
spec fn compound_from(s: Seq<char>, i: int, in_single: bool, in_double: bool) -> bool
    decreases s.len() - i,
{
    if i < 0 || i >= s.len() {
        false
    } else {
        let c = s[i];
        if !in_single && !in_double && c == '\\' && i + 1 < s.len() {
            compound_from(s, i + 2, in_single, in_double)
        } else if !in_double && c == '\'' {
            compound_from(s, i + 1, !in_single, in_double)
        } else if !in_single && c == '"' {
            compound_from(s, i + 1, in_single, !in_double)
        } else if in_single || in_double {
            compound_from(s, i + 1, in_single, in_double)
        } else if c == '`' {
            true
        } else if c == '$' && i + 1 < s.len() && s[i + 1] == '(' {
            true
        } else if c == '&' && i + 1 < s.len() && s[i + 1] == '&' {
            true
        } else if c == '|' || c == ';' {
            true
        } else if c == '>' && redirects_to_root(s, i) {
            true
        } else {
            compound_from(s, i + 1, in_single, in_double)
        }
    }
}

/// Whether `command` chains, substitutes, pipes or redirects to an absolute
/// path: a compound marker appears outside quotes, unescaped.
pub open spec fn has_compound(command: Seq<char>) -> bool {
    exists|i: int| #[trigger] live_marker(command, i)
}

proof fn lemma_quote_state_step(s: Seq<char>, j: int)
    requires
        0 <= j < s.len(),
    ensures
        quote_state(s.take(j + 1)) == ({
            let (sq, dq, esc) = quote_state(s.take(j));
            let c = s[j];
            if esc {
                (sq, dq, false)
            } else if !sq && !dq && c == '\\' {
                (sq, dq, true)
            } else if !dq && c == '\'' {
                (!sq, dq, false)
            } else if !sq && c == '"' {
                (sq, !dq, false)
            } else {
                (sq, dq, false)
            }
        }),
{
    assert(s.take(j + 1).drop_last() =~= s.take(j));
    assert(s.take(j + 1).last() == s[j]);
}

/// The scan from a position it reaches finds exactly the live markers from
/// there on.
proof fn lemma_compound_from_live(s: Seq<char>, j: int, sq: bool, dq: bool)
    requires
        0 <= j <= s.len(),
        quote_state(s.take(j)) == (sq, dq, false),
    ensures
        compound_from(s, j, sq, dq) <==> exists|i: int| j <= i && #[trigger] live_marker(s, i),
    decreases s.len() - j,
{
    if j == s.len() {
        return;
    }
    lemma_quote_state_step(s, j);
    let c = s[j];
    if !sq && !dq && c == '\\' && j + 1 < s.len() {
        lemma_quote_state_step(s, j + 1);
        lemma_compound_from_live(s, j + 2, sq, dq);
        assert forall|i: int| j <= i && #[trigger] live_marker(s, i) implies j + 2 <= i by {
            if i == j + 1 {
                assert(quote_state(s.take(j + 1)).2);
            }
        }
    } else if !sq && !dq && c == '\\' {
        assert forall|i: int| j <= i && #[trigger] live_marker(s, i) implies false by {
            assert(i == j);
        }
        assert(!compound_from(s, j + 1, sq, dq));
        assert(!compound_from(s, j, sq, dq));
    } else if !dq && c == '\'' {
        lemma_compound_from_live(s, j + 1, !sq, dq);
        assert forall|i: int| j <= i && #[trigger] live_marker(s, i) implies j + 1 <= i by {}
    } else if !sq && c == '"' {
        lemma_compound_from_live(s, j + 1, sq, !dq);
        assert forall|i: int| j <= i && #[trigger] live_marker(s, i) implies j + 1 <= i by {}
    } else if sq || dq {
        lemma_compound_from_live(s, j + 1, sq, dq);
        assert forall|i: int| j <= i && #[trigger] live_marker(s, i) implies j + 1 <= i by {}
    } else if marker_at(s, j) {
        assert(live_marker(s, j));
        assert(compound_from(s, j, sq, dq));
    } else {
        lemma_compound_from_live(s, j + 1, sq, dq);
        assert forall|i: int| j <= i && #[trigger] live_marker(s, i) implies j + 1 <= i by {}
    }
}

/// Whether `command` holds a compound marker outside quotes, unescaped (see
/// [`has_compound`]).
pub fn has_compound_marker(command: &str) -> (b: bool)
    ensures
        b == has_compound(command@),
{
    proof {
        assert(command@.take(0) =~= Seq::<char>::empty());
        lemma_compound_from_live(command@, 0, false, false);
    }
    let s = chars_of(command);
    let n = s.len();
    let mut i: usize = 0;
    let mut in_single = false;
    let mut in_double = false;
    while i < n
        invariant
            n == s@.len(),
            s@ == command@,
            has_compound(command@) == compound_from(s@, i as int, in_single, in_double),
        decreases n + 1 - i,
    {
        let c = s[i];
        if !in_single && !in_double && c == '\\' && i + 1 < n {
            i += 2;
            continue;
        }
        if !in_double && c == '\'' {
            in_single = !in_single;
            i += 1;
            continue;
        }
        if !in_single && c == '"' {
            in_double = !in_double;
            i += 1;
            continue;
        }
        if in_single || in_double {
            i += 1;
            continue;
        }
        if c == '`' {
            return true;
        }
        if c == '$' && i + 1 < n && s[i + 1] == '(' {
            return true;
        }
        if c == '&' && i + 1 < n && s[i + 1] == '&' {
            return true;
        }
        if c == '|' || c == ';' {
            return true;
        }
        if c == '>' {
            let mut j = i + 1;
            if j < n && s[j] == '>' {
                j += 1;
            }
            let ghost j0 = j;
            while j < n && (s[j] == ' ' || s[j] == '\t')
                invariant
                    j0 <= j <= n,
                    n == s@.len(),
                    skip_blanks(s@, j0 as int) == skip_blanks(s@, j as int),
                decreases n - j,
            {
                j += 1;
            }
            if j < n && s[j] == '/' {
                return true;
            }
        }
        i += 1;
    }
    false
}

/// Folds one path segment into normalized components: empty and `.` vanish,
/// `..` drops the last component (if any), anything else is appended.
pub open spec fn flush(parts: Seq<Seq<char>>, seg: Seq<char>) -> Seq<Seq<char>> {
    if seg.len() == 0 || seg == seq!['.'] {
        parts
    } else if seg == seq!['.', '.'] {
        if parts.len() > 0 {
            parts.drop_last()
        } else {
            parts
        }
    } else {
        parts.push(seg)
    }
}

/// Normalized components of `p[i..]`, continuing from `parts` with the
/// partial segment `seg` (what `Path::components` yields, folded as `pop` on
/// `..` and ignoring `.`).
pub open spec fn norm_walk(p: Seq<char>, i: int, parts: Seq<Seq<char>>, seg: Seq<char>) -> Seq<
    Seq<char>,
>
    decreases p.len() - i,
{
    if i < 0 || i >= p.len() {
        flush(parts, seg)
    } else if p[i] == '/' {
        norm_walk(p, i + 1, flush(parts, seg), Seq::empty())
    } else {
        norm_walk(p, i + 1, parts, seg.push(p[i]))
    }
}

/// Whether `p` is absolute.
pub open spec fn is_abs(p: Seq<char>) -> bool {
    p.len() > 0 && p[0] == '/'
}

/// Whether `a` is a prefix of `b`.
pub open spec fn is_prefix(a: Seq<Seq<char>>, b: Seq<Seq<char>>) -> bool {
    a.len() <= b.len() && b.take(a.len() as int) == a
}

/// Whether `token`, taken relative to `cwd` unless absolute and then
/// normalized, lies outside the normalized `cwd`.
pub open spec fn escapes_cwd(token: Seq<char>, cwd: Seq<char>) -> bool {
    let cwd_parts = norm_walk(cwd, 0, Seq::empty(), Seq::empty());
    let cand_root = is_abs(token) || is_abs(cwd);
    let cand_parts = if is_abs(token) {
        norm_walk(token, 0, Seq::empty(), Seq::empty())
    } else {
        norm_walk(token, 0, cwd_parts, Seq::empty())
    };
    !(if is_abs(cwd) == cand_root {
        is_prefix(cwd_parts, cand_parts)
    } else {
        !is_abs(cwd) && cwd_parts.len() == 0
    })
}

/// The character sequences of a list of character vectors.
pub open spec fn parts_view(v: Seq<Vec<char>>) -> Seq<Seq<char>> {
    v.map_values(|x: Vec<char>| x@)
}

fn flush_exec(parts: &mut Vec<Vec<char>>, seg: Vec<char>)
    ensures
        parts_view(final(parts)@) == flush(parts_view(old(parts)@), seg@),
{
    let ghost sv = seg@;
    if seg.len() == 0 || (seg.len() == 1 && seg[0] == '.') {
        proof {
            if sv.len() == 1 {
                assert(sv =~= seq!['.']);
            }
        }
    } else if seg.len() == 2 && seg[0] == '.' && seg[1] == '.' {
        assert(sv =~= seq!['.', '.']);
        if parts.len() > 0 {
            parts.pop();
            assert(parts_view(parts@) =~= parts_view(old(parts)@).drop_last());
        }
    } else {
        proof {
            if sv.len() == 1 {
                assert(sv != seq!['.']) by {
                    assert(seq!['.'][0] == '.');
                }
            }
            if sv.len() == 2 {
                assert(sv != seq!['.', '.']) by {
                    assert(seq!['.', '.'][0] == '.');
                    assert(seq!['.', '.'][1] == '.');
                }
            }
        }
        parts.push(seg);
        assert(parts_view(parts@) =~= parts_view(old(parts)@).push(sv));
    }
}

/// Appends the normalized components of `p` to `parts`.
fn walk_into(p: &[char], parts: &mut Vec<Vec<char>>)
    ensures
        parts_view(final(parts)@) == norm_walk(p@, 0, parts_view(old(parts)@), Seq::empty()),
{
    let mut seg: Vec<char> = Vec::new();
    let mut i: usize = 0;
    while i < p.len()
        invariant
            i <= p@.len(),
            norm_walk(p@, 0, parts_view(old(parts)@), Seq::empty()) == norm_walk(
                p@,
                i as int,
                parts_view(parts@),
                seg@,
            ),
        decreases p.len() - i,
    {
        if p[i] == '/' {
            let done = seg;
            seg = Vec::new();
            flush_exec(parts, done);
        } else {
            seg.push(p[i]);
        }
        i += 1;
    }
    flush_exec(parts, seg);
}

fn parts_eq_prefix(a: &Vec<Vec<char>>, b: &Vec<Vec<char>>) -> (r: bool)
    ensures
        r == is_prefix(parts_view(a@), parts_view(b@)),
{
    if a.len() > b.len() {
        return false;
    }
    let mut i: usize = 0;
    while i < a.len()
        invariant
            i <= a@.len() <= b@.len(),
            forall|k: int| 0 <= k < i ==> #[trigger] a@[k]@ == b@[k]@,
        decreases a.len() - i,
    {
        if !chars_eq(a[i].as_slice(), b[i].as_slice()) {
            assert(parts_view(b@).take(a@.len() as int)[i as int] != parts_view(a@)[i as int]);
            return false;
        }
        i += 1;
    }
    assert(parts_view(b@).take(a@.len() as int) =~= parts_view(a@));
    true
}

/// Whether `token` resolves outside `cwd` (see [`escapes_cwd`]).
pub fn path_escapes_cwd(token: &str, cwd: &str) -> (b: bool)
    ensures
        b == escapes_cwd(token@, cwd@),
{
    let t = chars_of(token);
    let c = chars_of(cwd);
    let mut cwd_parts: Vec<Vec<char>> = Vec::new();
    walk_into(c.as_slice(), &mut cwd_parts);
    assert(parts_view(Seq::<Vec<char>>::empty()) =~= Seq::<Seq<char>>::empty());
    let token_abs = t.len() > 0 && t[0] == '/';
    let cwd_abs = c.len() > 0 && c[0] == '/';
    let cand_root = token_abs || cwd_abs;
    let mut cand: Vec<Vec<char>> = Vec::new();
    if !token_abs {
        let mut k: usize = 0;
        while k < cwd_parts.len()
            invariant
                k <= cwd_parts@.len(),
                parts_view(cand@) == parts_view(cwd_parts@).take(k as int),
            decreases cwd_parts.len() - k,
        {
            let piece = crate::text::copy_chars(cwd_parts[k].as_slice());
            let ghost before = cand@;
            cand.push(piece);
            assert(cand@ == before.push(piece));
            assert(parts_view(cand@) =~= parts_view(before).push(cwd_parts@[k as int]@));
            assert(parts_view(cwd_parts@).take(k + 1) =~= parts_view(cwd_parts@).take(k as int).push(
                cwd_parts@[k as int]@,
            ));
            k += 1;
        }
        assert(parts_view(cwd_parts@).take(cwd_parts@.len() as int) =~= parts_view(cwd_parts@));
    }
    walk_into(t.as_slice(), &mut cand);
    let inside = if cwd_abs == cand_root {
        parts_eq_prefix(&cwd_parts, &cand)
    } else {
        !cwd_abs && cwd_parts.len() == 0
    };
    !inside
}


/// The character sequences of a list of strings.
pub open spec fn strings_view(v: Seq<String>) -> Seq<Seq<char>> {
    v.map_values(|s: String| s@)
}

/// The words `shlex::split` splits `command` into (`None` on a lexing error).
pub uninterp spec fn shell_words(command: Seq<char>) -> Option<Seq<Seq<char>>>;

/// `shlex::split`: the shell words of `command`, or `None` when it cannot be lexed.
#[verifier::external_body]
fn shlex_split(command: &str) -> (r: Option<Vec<String>>)
    ensures
        match r {
            Some(v) => shell_words(command@) == Some(strings_view(v@)),
            None => shell_words(command@) is None,
        },
{
    shlex::split(command)
}

/// The command line `shlex::try_join` quotes `words` into (`None` when it refuses).
pub uninterp spec fn shell_joined(words: Seq<Seq<char>>) -> Option<Seq<char>>;

/// `shlex::try_join`: the words quoted where needed and joined by single spaces,
/// or `None` when quoting fails.
#[verifier::external_body]
fn shlex_try_join(words: &Vec<String>) -> (r: Option<String>)
    ensures
        match r {
            Some(s) => shell_joined(strings_view(words@)) == Some(s@),
            None => shell_joined(strings_view(words@)) is None,
        },
{
    shlex::try_join(words.iter().map(|w| w.as_str())).ok()
}

/// Whether a `globset::GlobSet` holding `pattern` as its only glob builds:
/// the glob parses and its matcher compiles.
pub uninterp spec fn glob_compiles(pattern: Seq<char>) -> bool;

/// Whether the `globset::GlobSet` built from `pattern` matches `candidate`.
pub uninterp spec fn glob_matches(pattern: Seq<char>, candidate: Seq<char>) -> bool;

/// The longest glob, in characters, that this library hands to `globset`.
/// Building a set runs `AhoCorasick::new(..).unwrap()` on the glob's literal
/// parts, which fails only when the automaton's state count overflows; a
/// glob this short stays far below that.
pub const GLOB_LEN_LIMIT: usize = 1048576;

/// Whether `pattern` is a glob this library accepts: not longer than
/// [`GLOB_LEN_LIMIT`], and its matcher builds.
pub open spec fn glob_usable(pattern: Seq<char>) -> bool {
    pattern.len() <= GLOB_LEN_LIMIT && glob_compiles(pattern)
}

/// Builds a `globset::GlobSet` holding only `pattern` (`Glob::new`, then
/// `GlobSetBuilder::build`, which reports a matcher that does not compile
/// as an error) and tells whether that succeeded.
#[verifier::external_body]
fn glob_is_valid(pattern: &str) -> (b: bool)
    requires
        pattern@.len() <= GLOB_LEN_LIMIT,
    ensures
        b == glob_compiles(pattern@),
{
    match globset::Glob::new(pattern) {
        Ok(g) => globset::GlobSetBuilder::new().add(g).build().is_ok(),
        Err(_) => false,
    }
}

/// Whether `pattern` is a glob this library accepts (see [`glob_usable`]).
pub fn glob_is_usable(pattern: &str) -> (b: bool)
    ensures
        b == glob_usable(pattern@),
{
    if pattern.unicode_len() > GLOB_LEN_LIMIT {
        false
    } else {
        glob_is_valid(pattern)
    }
}

/// `GlobSet::is_match` of `candidate` on the set built from `pattern`.
#[verifier::external_body]
pub(crate) fn glob_is_match(pattern: &str, candidate: &str) -> (b: bool)
    requires
        glob_usable(pattern@),
    ensures
        b == glob_matches(pattern@, candidate@),
{
    match globset::Glob::new(pattern) {
        Ok(g) => match globset::GlobSetBuilder::new().add(g).build() {
            Ok(set) => set.is_match(candidate),
            Err(_) => false,
        },
        Err(_) => false,
    }
}

/// Whether `t` is a flag (starts with `-`).
pub open spec fn is_flag(t: Seq<char>) -> bool {
    t.len() > 0 && t[0] == '-'
}

/// Whether `t` forces a `git push`.
pub open spec fn is_force_flag(t: Seq<char>) -> bool {
    t == "--force"@ || t == "-f"@ || t == "--force-with-lease"@
}

/// Whether `t` makes `find` delete or execute.
pub open spec fn is_find_action(t: Seq<char>) -> bool {
    t == "-delete"@ || t == "-exec"@ || t == "-execdir"@
}

/// The classification a built-in rule gives, after its inspector looks at
/// the arguments `rest`.
pub open spec fn inspect(rule: BuiltinRule, rest: Seq<Seq<char>>, cwd: Seq<char>) -> Classification {
    match rule.inspector {
        None => rule.classification,
        Some(Inspector::PathArgs) => if exists|i: int|
            0 <= i < rest.len() && !is_flag(#[trigger] rest[i]) && escapes_cwd(rest[i], cwd) {
            Classification::Unsafe
        } else {
            rule.classification
        },
        Some(Inspector::GitPushFlags) => if exists|i: int|
            0 <= i < rest.len() && is_force_flag(#[trigger] rest[i]) {
            Classification::Unsafe
        } else {
            rule.classification
        },
        Some(Inspector::FindFlags) => if exists|i: int|
            0 <= i < rest.len() && is_find_action(#[trigger] rest[i]) {
            Classification::Unsafe
        } else {
            rule.classification
        },
    }
}

/// The built-in rule for `tokens` and where its arguments start: the
/// two-word head is tried before the first word alone.
pub open spec fn find_rule(tokens: Seq<Seq<char>>) -> Option<(BuiltinRule, int)> {
    if tokens.len() >= 2 && builtin(tokens[0] + seq![' '] + tokens[1]) is Some {
        Some((builtin(tokens[0] + seq![' '] + tokens[1])->0, 2))
    } else if tokens.len() >= 1 && builtin(tokens[0]) is Some {
        Some((builtin(tokens[0])->0, 1))
    } else {
        None
    }
}

/// The class of the first override whose glob matches `joined`.
pub open spec fn first_override(overrides: Seq<(Seq<char>, Classification)>, joined: Seq<char>) -> Option<
    Classification,
>
    decreases overrides.len(),
{
    if overrides.len() == 0 {
        None
    } else if glob_matches(overrides[0].0, joined) {
        Some(overrides[0].1)
    } else {
        first_override(overrides.drop_first(), joined)
    }
}

/// The override that applies to `tokens`, matched against their shell-quoted join.
pub open spec fn override_for(overrides: Seq<(Seq<char>, Classification)>, tokens: Seq<Seq<char>>) -> Option<
    Classification,
> {
    if overrides.len() == 0 {
        None
    } else {
        match shell_joined(tokens) {
            None => None,
            Some(j) => first_override(overrides, j),
        }
    }
}

/// How a `bash` call with the given `command` argument is classified. No
/// string command, a command that does not lex or has no words, and a
/// compound command are all unsafe; otherwise the first matching override
/// decides, then the built-in rule (with its inspector); an unknown head is
/// unsafe.
pub open spec fn classify_command(
    cwd: Seq<char>,
    overrides: Seq<(Seq<char>, Classification)>,
    command: Option<Seq<char>>,
) -> Classification {
    match command {
        None => Classification::Unsafe,
        Some(c) => match shell_words(c) {
            None => Classification::Unsafe,
            Some(tokens) => if tokens.len() == 0 || has_compound(c) {
                Classification::Unsafe
            } else {
                match override_for(overrides, tokens) {
                    Some(cl) => cl,
                    None => match find_rule(tokens) {
                        None => Classification::Unsafe,
                        Some((rule, start)) => inspect(rule, tokens.skip(start), cwd),
                    },
                }
            },
        },
    }
}

/// The view of an optional string slice.
pub open spec fn opt_str_view(o: Option<&str>) -> Option<Seq<char>> {
    match o {
        Some(s) => Some(s@),
        None => None,
    }
}

/// The character-sequence view of override rules.
pub open spec fn overrides_view(v: Seq<(String, Classification)>) -> Seq<(Seq<char>, Classification)> {
    v.map_values(|e: (String, Classification)| (e.0@, e.1))
}

fn inspect_exec(rule: BuiltinRule, tokens: &Vec<String>, start: usize, cwd: &str) -> (c: Classification)
    requires
        start <= tokens@.len(),
    ensures
        c == inspect(rule, strings_view(tokens@).skip(start as int), cwd@),
{
    let ghost rest = strings_view(tokens@).skip(start as int);
    match rule.inspector {
        None => rule.classification,
        Some(ins) => {
            let mut i = start;
            while i < tokens.len()
                invariant
                    start <= i <= tokens@.len(),
                    rest == strings_view(tokens@).skip(start as int),
                    rule.inspector == Some(ins),
                    forall|k: int| 0 <= k < i - start ==> !(match ins {
                        Inspector::PathArgs => !is_flag(#[trigger] rest[k]) && escapes_cwd(rest[k], cwd@),
                        Inspector::GitPushFlags => is_force_flag(rest[k]),
                        Inspector::FindFlags => is_find_action(rest[k]),
                    }),
                decreases tokens.len() - i,
            {
                let t = tokens[i].as_str();
                assert(rest[i - start] == t@);
                let hit = match ins {
                    Inspector::PathArgs => !is_flag_exec(t) && path_escapes_cwd(t, cwd),
                    Inspector::GitPushFlags => str_eq(t, "--force") || str_eq(t, "-f") || str_eq(
                        t,
                        "--force-with-lease",
                    ),
                    Inspector::FindFlags => str_eq(t, "-delete") || str_eq(t, "-exec") || str_eq(
                        t,
                        "-execdir",
                    ),
                };
                if hit {
                    return Classification::Unsafe;
                }
                i += 1;
            }
            rule.classification
        },
    }
}

fn is_flag_exec(t: &str) -> (b: bool)
    ensures
        b == is_flag(t@),
{
    let cs = chars_of(t);
    cs.len() > 0 && cs[0] == '-'
}


fn find_rule_exec(tokens: &Vec<String>) -> (r: Option<(BuiltinRule, usize)>)
    ensures
        match find_rule(strings_view(tokens@)) {
            Some((rule, start)) => r == Some((rule, start as usize)),
            None => r is None,
        },
{
    let ghost ts = strings_view(tokens@);
    if tokens.len() >= 2 {
        let mut head = String::new();
        push_str(&mut head, tokens[0].as_str());
        head.push(' ');
        push_str(&mut head, tokens[1].as_str());
        assert(head@ =~= ts[0] + seq![' '] + ts[1]);
        if let Some(rule) = builtin_exec(head.as_str()) {
            return Some((rule, 2));
        }
    }
    if tokens.len() >= 1 {
        if let Some(rule) = builtin_exec(tokens[0].as_str()) {
            return Some((rule, 1));
        }
    }
    None
}

fn first_override_exec(overrides: &Vec<(String, Classification)>, joined: &str) -> (r: Option<
    Classification,
>)
    requires
        forall|i: int| 0 <= i < overrides@.len() ==> glob_usable(#[trigger] overrides@[i].0@),
    ensures
        r == first_override(overrides_view(overrides@), joined@),
{
    let mut i: usize = 0;
    assert(overrides_view(overrides@).skip(0) =~= overrides_view(overrides@));
    while i < overrides.len()
        invariant
            i <= overrides@.len(),
            forall|k: int| 0 <= k < overrides@.len() ==> glob_usable(#[trigger] overrides@[k].0@),
            first_override(overrides_view(overrides@), joined@) == first_override(
                overrides_view(overrides@).skip(i as int),
                joined@,
            ),
        decreases overrides.len() - i,
    {
        let ghost rest = overrides_view(overrides@).skip(i as int);
        assert(rest[0] == (overrides@[i as int].0@, overrides@[i as int].1));
        if glob_is_match(overrides[i].0.as_str(), joined) {
            return Some(overrides[i].1);
        }
        assert(rest.drop_first() =~= overrides_view(overrides@).skip(i + 1));
        i += 1;
    }
    None
}

/// Classifies `bash` calls: overrides first, then the built-in table.
pub struct BashClassifier {
    cwd: String,
    overrides: Vec<(String, Classification)>,
}

impl BashClassifier {
    #[verifier::type_invariant]
    spec fn patterns_compile(self) -> bool {
        forall|i: int| 0 <= i < self.overrides@.len() ==> glob_usable(#[trigger] self.overrides@[i].0@)
    }

    /// The working directory that path arguments are resolved against.
    pub closed spec fn cwd_view(&self) -> Seq<char> {
        self.cwd@
    }

    /// The override rules, in the order they are tried.
    pub closed spec fn rules(&self) -> Seq<(Seq<char>, Classification)> {
        overrides_view(self.overrides@)
    }

    /// A classifier with the built-in table and no overrides.
    pub fn with_defaults(cwd: &str) -> (c: Self)
        ensures
            c.cwd_view() == cwd@,
            c.rules() == Seq::<(Seq<char>, Classification)>::empty(),
    {
        let c = BashClassifier { cwd: cwd.to_owned(), overrides: Vec::new() };
        assert(c.rules() =~= Seq::<(Seq<char>, Classification)>::empty());
        c
    }

    /// A builder for a classifier with overrides.
    pub fn builder(cwd: &str) -> (b: BashClassifierBuilder)
        ensures
            b.cwd_view() == cwd@,
            b.rules() == Seq::<(Seq<char>, Classification)>::empty(),
    {
        let b = BashClassifierBuilder { cwd: cwd.to_owned(), overrides: Vec::new() };
        assert(b.rules() =~= Seq::<(Seq<char>, Classification)>::empty());
        b
    }

    /// Classifies a call whose `command` argument is `command` (`None` when the
    /// arguments carry no string `command`), as [`classify_command`] describes.
    pub fn classify(&self, command: Option<&str>) -> (c: Classification)
        ensures
            c == classify_command(self.cwd_view(), self.rules(), opt_str_view(command)),
    {
        proof {
            use_type_invariant(self);
        }
        let command = match command {
            Some(c) => c,
            None => return Classification::Unsafe,
        };
        let tokens = match shlex_split(command) {
            Some(t) => t,
            None => return Classification::Unsafe,
        };
        if tokens.len() == 0 {
            return Classification::Unsafe;
        }
        if has_compound_marker(command) {
            return Classification::Unsafe;
        }
        if self.overrides.len() > 0 {
            if let Some(joined) = shlex_try_join(&tokens) {
                if let Some(class) = first_override_exec(&self.overrides, joined.as_str()) {
                    return class;
                }
            }
        }
        match find_rule_exec(&tokens) {
            None => Classification::Unsafe,
            Some((rule, start)) => {
                assert(strings_view(tokens@).len() == tokens@.len());
                inspect_exec(rule, &tokens, start, self.cwd.as_str())
            },
        }
    }
}

/// Collects override rules for a [`BashClassifier`].
pub struct BashClassifierBuilder {
    cwd: String,
    overrides: Vec<(String, Classification)>,
}

impl BashClassifierBuilder {
    #[verifier::type_invariant]
    spec fn patterns_compile(self) -> bool {
        forall|i: int| 0 <= i < self.overrides@.len() ==> glob_usable(#[trigger] self.overrides@[i].0@)
    }

    /// The working directory the classifier will use.
    pub closed spec fn cwd_view(&self) -> Seq<char> {
        self.cwd@
    }

    /// The override rules collected so far, in the order they will be tried.
    pub closed spec fn rules(&self) -> Seq<(Seq<char>, Classification)> {
        overrides_view(self.overrides@)
    }

    fn push(self, pattern: &str, class: Classification) -> (b: Self)
        requires
            glob_usable(pattern@),
        ensures
            b.cwd_view() == self.cwd_view(),
            b.rules() == self.rules().push((pattern@, class)),
    {
        proof {
            use_type_invariant(&self);
        }
        let BashClassifierBuilder { cwd, mut overrides } = self;
        let ghost before = overrides@;
        overrides.push((pattern.to_owned(), class));
        assert(overrides_view(overrides@) =~= overrides_view(before).push((pattern@, class)));
        assert forall|i: int| 0 <= i < overrides@.len() implies glob_usable(
            #[trigger] overrides@[i].0@,
        ) by {
            if i < before.len() {
                assert(overrides@[i] == before[i]);
            }
        }
        BashClassifierBuilder { cwd, overrides }
    }

    /// Classifies commands matching `pattern` as read-only (the pattern must compile).
    pub fn allow_read(self, pattern: &str) -> (b: Self)
        requires
            glob_usable(pattern@),
        ensures
            b.cwd_view() == self.cwd_view(),
            b.rules() == self.rules().push((pattern@, Classification::Read)),
    {
        self.push(pattern, Classification::Read)
    }

    /// Classifies commands matching `pattern` as safe (the pattern must compile).
    pub fn allow_safe(self, pattern: &str) -> (b: Self)
        requires
            glob_usable(pattern@),
        ensures
            b.cwd_view() == self.cwd_view(),
            b.rules() == self.rules().push((pattern@, Classification::Safe)),
    {
        self.push(pattern, Classification::Safe)
    }

    /// Classifies commands matching `pattern` as unsafe (the pattern must compile).
    pub fn deny_unsafe(self, pattern: &str) -> (b: Self)
        requires
            glob_usable(pattern@),
        ensures
            b.cwd_view() == self.cwd_view(),
            b.rules() == self.rules().push((pattern@, Classification::Unsafe)),
    {
        self.push(pattern, Classification::Unsafe)
    }

    /// Adds a rule for `pattern` when it compiles; `Err` hands the builder
    /// back unchanged when it does not.
    pub fn with_rule(self, pattern: &str, class: Classification) -> (r: Result<Self, Self>)
        ensures
            glob_usable(pattern@) ==> (r matches Ok(b) && b.cwd_view() == self.cwd_view()
                && b.rules() == self.rules().push((pattern@, class))),
            !glob_usable(pattern@) ==> (r matches Err(b) && b.cwd_view() == self.cwd_view()
                && b.rules() == self.rules()),
    {
        if glob_is_usable(pattern) {
            Ok(
                match class {
                    Classification::Read => self.allow_read(pattern),
                    Classification::Safe => self.allow_safe(pattern),
                    Classification::Unsafe => self.deny_unsafe(pattern),
                },
            )
        } else {
            Err(self)
        }
    }

    /// The classifier with the collected overrides.
    pub fn build(self) -> (c: BashClassifier)
        ensures
            c.cwd_view() == self.cwd_view(),
            c.rules() == self.rules(),
    {
        proof {
            use_type_invariant(&self);
        }
        let BashClassifierBuilder { cwd, overrides } = self;
        BashClassifier { cwd, overrides }
    }
}

} // verus!
