//! Where Codex's hook configuration lives, the commands the tool installs there, and how
//! the tool recognises its own handlers among the user's.

use vstd::prelude::*;

use crate::discovery::{find_chars, first_occurrence};
use crate::path::{file_name, file_name_of, join_path, push_path};
use crate::redaction::{trim_set, trim_set_vec};
use crate::text::{
    append_chars, chars_of, concat3, eq_lit, starts_with, string_from_chars, trim, trim_chars,
    vviews, words, split_whitespace,
};

verus! {

#[derive(Debug, Clone, Copy, PartialEq, Eq, Structural)]
pub enum HookScope {
    User,
    Project,
}

/// What installing the hooks needs. Paths are text.
#[derive(Debug, Clone)]
pub struct HookInstallOptions {
    pub scope: HookScope,
    pub repo: String,
    pub home: String,
    pub codex_home: Option<String>,
    pub executable: String,
    pub records_path: String,
    pub state_dir: String,
    pub allow_review_content: bool,
    pub allow_compact_context: bool,
    pub dry_run: bool,
}

#[derive(Debug, Clone)]
pub struct HookUninstallOptions {
    pub scope: HookScope,
    pub repo: String,
    pub home: String,
    pub codex_home: Option<String>,
    pub dry_run: bool,
}

/// The project's `.codex/hooks.json`, or the user's `hooks.json` under `CODEX_HOME`
/// (by default `~/.codex`).
pub open spec fn spec_hook_config_path(scope: HookScope, repo: Seq<char>, home: Seq<char>, codex_home: Option<Seq<char>>) -> Seq<char> {
    match scope {
        HookScope::Project => push_path(repo, ".codex/hooks.json"@),
        HookScope::User => push_path(
            match codex_home {
                Some(c) => c,
                None => push_path(home, ".codex"@),
            },
            "hooks.json"@,
        ),
    }
}

pub open spec fn opt_str(v: Option<&str>) -> Option<Seq<char>> {
    match v {
        Some(s) => Some(s@),
        None => None,
    }
}

pub fn hook_config_path(scope: HookScope, repo: &str, home: &str, codex_home: Option<&str>) -> (res: String)
    ensures
        res@ == spec_hook_config_path(scope, repo@, home@, opt_str(codex_home)),
{
    match scope {
        HookScope::Project => join_path(repo, ".codex/hooks.json"),
        HookScope::User => {
            let base = match codex_home {
                Some(c) => c.to_owned(),
                None => join_path(home, ".codex"),
            };
            join_path(base.as_str(), "hooks.json")
        },
    }
}

// ---------------------------------------------------------------------------------------
// Shell quoting
// ---------------------------------------------------------------------------------------

/// The body of a single-quoted shell word: each `'` becomes `'\''`.
pub open spec fn quote_body(s: Seq<char>) -> Seq<char>
    decreases s.len(),
{
    if s.len() == 0 {
        seq![]
    } else {
        quote_body(s.drop_last()) + if s.last() == '\'' {
            seq!['\'', '\\', '\'', '\'']
        } else {
            seq![s.last()]
        }
    }
}

pub open spec fn spec_shell_quote(s: Seq<char>) -> Seq<char> {
    seq!['\''] + quote_body(s) + seq!['\'']
}

/// A path as one single-quoted shell word.
pub fn shell_quote(path: &str) -> (res: String)
    ensures
        res@ == spec_shell_quote(path@),
{
    let p = chars_of(path);
    let mut out: Vec<char> = Vec::new();
    out.push('\'');
    let mut i: usize = 0;
    while i < p.len()
        invariant
            i <= p.len(),
            out@ == seq!['\''] + quote_body(p@.take(i as int)),
        decreases p.len() - i,
    {
        proof {
            assert(p@.take(i + 1).drop_last() =~= p@.take(i as int));
        }
        if p[i] == '\'' {
            out.push('\'');
            out.push('\\');
            out.push('\'');
            out.push('\'');
        } else {
            out.push(p[i]);
        }
        proof {
            assert(out@ =~= seq!['\''] + quote_body(p@.take(i + 1)));
        }
        i = i + 1;
    }
    out.push('\'');
    proof {
        assert(p@.take(i as int) =~= p@);
    }
    string_from_chars(&out)
}

// ---------------------------------------------------------------------------------------
// The installed commands
// ---------------------------------------------------------------------------------------

/// The command lines the installed hooks run.
#[derive(Debug, Clone)]
pub struct HookCommands {
    pub shadow: String,
    pub compact_assist: String,
    pub pre_compact: String,
    pub review_prompt: String,
    pub review_final: String,
    pub review_diff: String,
}

pub open spec fn managed_flag() -> Seq<char> {
    "--jevx-managed"@
}

/// The command lines for an executable, its records file and its state directory. Every
/// command ends with the managed flag; the pre-compaction command adds
/// `--allow-compact-context` when that is allowed, and the review commands add
/// `--allow-content` when review content is allowed.
pub open spec fn is_hook_commands(c: HookCommands, executable: Seq<char>, records: Seq<char>, state_dir: Seq<char>, allow_review_content: bool, allow_compact_context: bool) -> bool {
    let exe = spec_shell_quote(executable);
    let flag = if allow_review_content { " --allow-content"@ } else { Seq::<char>::empty() };
    let compact = exe + " hooks compact-assist --state-dir "@ + spec_shell_quote(state_dir) + " "@ + managed_flag();
    &&& c.shadow@ == exe + " hooks shadow --output "@ + spec_shell_quote(records) + " "@ + managed_flag()
    &&& c.compact_assist@ == compact
    &&& c.pre_compact@ == (if allow_compact_context { compact + " --allow-compact-context"@ } else { compact })
    &&& c.review_prompt@ == exe + " hooks review --target prompt"@ + flag + " "@ + managed_flag()
    &&& c.review_final@ == exe + " hooks review --target final-answer"@ + flag + " "@ + managed_flag()
    &&& c.review_diff@ == exe + " hooks review --target diff"@ + flag + " "@ + managed_flag()
}

fn join_parts(parts: &Vec<Vec<char>>) -> (res: String)
    ensures
        res@ == crate::text::concat_all(vviews(parts@)),
{
    let mut v: Vec<char> = Vec::new();
    let mut i: usize = 0;
    while i < parts.len()
        invariant
            i <= parts.len(),
            v@ == crate::text::concat_all(vviews(parts@).take(i as int)),
        decreases parts.len() - i,
    {
        append_chars(&mut v, &parts[i]);
        proof {
            assert(vviews(parts@).take(i + 1).drop_last() =~= vviews(parts@).take(i as int));
        }
        i = i + 1;
    }
    proof {
        assert(vviews(parts@).take(i as int) =~= vviews(parts@));
    }
    string_from_chars(&v)
}

proof fn lemma_concat_all_five(a: Seq<char>, b: Seq<char>, c: Seq<char>, d: Seq<char>, e: Seq<char>)
    ensures
        crate::text::concat_all(seq![a, b, c, d, e]) == a + b + c + d + e,
{
    crate::text::lemma_concat_all_four(a, b, c, d);
    assert(seq![a, b, c, d, e].drop_last() =~= seq![a, b, c, d]);
}

fn command(exe: &String, middle: &str, arg: &str, tail: &str) -> (res: String)
    ensures
        res@ == exe@ + middle@ + arg@ + tail@ + managed_flag(),
{
    let parts = vec![chars_of(exe.as_str()), chars_of(middle), chars_of(arg), chars_of(tail), chars_of("--jevx-managed")];
    proof {
        assert(vviews(parts@) =~= seq![exe@, middle@, arg@, tail@, managed_flag()]);
        lemma_concat_all_five(exe@, middle@, arg@, tail@, managed_flag());
    }
    join_parts(&parts)
}

pub fn hook_commands(executable: &str, records_path: &str, state_dir: &str, allow_review_content: bool, allow_compact_context: bool) -> (res: HookCommands)
    ensures
        is_hook_commands(res, executable@, records_path@, state_dir@, allow_review_content, allow_compact_context),
{
    let exe = shell_quote(executable);
    let records = shell_quote(records_path);
    let state = shell_quote(state_dir);
    proof {
        reveal_strlit("");
        reveal_strlit(" ");
    }
    let shadow = command(&exe, " hooks shadow --output ", records.as_str(), " ");
    let compact_assist = command(&exe, " hooks compact-assist --state-dir ", state.as_str(), " ");
    let pre_compact = if allow_compact_context {
        concat3(compact_assist.as_str(), " --allow-compact-context", "")
    } else {
        compact_assist.clone()
    };
    let flag: &str = if allow_review_content { " --allow-content" } else { "" };
    let review_prompt = command(&exe, " hooks review --target prompt", flag, " ");
    let review_final = command(&exe, " hooks review --target final-answer", flag, " ");
    let review_diff = command(&exe, " hooks review --target diff", flag, " ");
    proof {
        assert(pre_compact@ =~= (if allow_compact_context {
            compact_assist@ + " --allow-compact-context"@
        } else {
            compact_assist@
        }));
        assert(flag@ =~= (if allow_review_content { " --allow-content"@ } else { Seq::<char>::empty() }));
    }
    HookCommands { shadow, compact_assist, pre_compact, review_prompt, review_final, review_diff }
}

// ---------------------------------------------------------------------------------------
// Recognising the tool's handlers
// ---------------------------------------------------------------------------------------

/// The arguments name one of the tool's hook subcommands.
pub open spec fn is_tool_subcommand(args: Seq<char>) -> bool {
    args == "shadow"@ || starts_with(args, "shadow "@) || args == "review"@ || starts_with(args, "review "@)
        || args == "compact-assist"@ || starts_with(args, "compact-assist "@)
}

/// A handler is the tool's own when it is a `command` handler whose command line is
/// `<executable> hooks <subcommand> ...`, the executable's file name being `jevx` or the
/// arguments carrying the managed flag.
pub open spec fn spec_is_tool_handler(handler_type: Option<Seq<char>>, command: Option<Seq<char>>) -> bool {
    match (handler_type, command) {
        (Some(t), Some(c)) => t == "command"@ && match first_occurrence(c, " hooks "@, 0) {
            Some(p) => {
                let exe = trim_set(trim(c.take(p)), seq!['\'']);
                let args = c.skip(p + 7);
                (file_name(exe) == Some("jevx"@) || words(args).contains(managed_flag()))
                    && is_tool_subcommand(args)
            },
            None => false,
        },
        _ => false,
    }
}

fn contains_word(ws: &Vec<Vec<char>>, w: &str) -> (res: bool)
    ensures
        res == vviews(ws@).contains(w@),
{
    let mut i: usize = 0;
    while i < ws.len()
        invariant
            i <= ws.len(),
            forall|k: int| 0 <= k < i ==> vviews(ws@)[k] != w@,
        decreases ws.len() - i,
    {
        if eq_lit(&ws[i], w) {
            assert(vviews(ws@)[i as int] == w@);
            return true;
        }
        i = i + 1;
    }
    false
}

fn is_tool_subcommand_exec(args: &[char]) -> (res: bool)
    ensures
        res == is_tool_subcommand(args@),
{
    eq_lit(args, "shadow") || crate::text::starts_with_chars(args, &chars_of("shadow ")) || eq_lit(args, "review")
        || crate::text::starts_with_chars(args, &chars_of("review ")) || eq_lit(args, "compact-assist")
        || crate::text::starts_with_chars(args, &chars_of("compact-assist "))
}

pub fn is_tool_handler(handler_type: Option<&str>, command: Option<&str>) -> (res: bool)
    ensures
        res == spec_is_tool_handler(opt_str(handler_type), opt_str(command)),
{
    let (t, c) = match (handler_type, command) {
        (Some(t), Some(c)) => (t, c),
        _ => return false,
    };
    let tc = chars_of(t);
    if !eq_lit(&tc, "command") {
        return false;
    }
    let cc = chars_of(c);
    let needle = chars_of(" hooks ");
    proof {
        reveal_strlit(" hooks ");
        assert(needle@.len() == 7);
    }
    let p = match find_chars(&cc, &needle) {
        Some(p) => p,
        None => return false,
    };
    assert(p + needle@.len() <= cc@.len());
    assert(p + 7 <= cc.len());
    let head = crate::text::slice_vec(&cc, 0, p);
    let args = crate::text::slice_vec(&cc, p + 7, cc.len());
    proof {
        assert(head@ =~= c@.take(p as int));
        assert(args@ =~= c@.skip(p + 7));
    }
    let trimmed = trim_chars(&head);
    let quote: [char; 1] = ['\''];
    proof {
        assert(quote@ =~= seq!['\'']);
    }
    let exe = trim_set_vec(&trimmed, &quote);
    let exe_s = string_from_chars(&exe);
    let is_binary = match file_name_of(exe_s.as_str()) {
        Some(n) => {
            let nc = chars_of(n.as_str());
            eq_lit(&nc, "jevx")
        },
        None => false,
    };
    let ws = split_whitespace(&args);
    let managed = contains_word(&ws, "--jevx-managed");
    let sub = is_tool_subcommand_exec(&args);
    proof {
        assert(exe_s@ == trim_set(trim(c@.take(p as int)), seq!['\'']));
        assert(first_occurrence(c@, " hooks "@, 0) == Some(p as int));
        assert(is_binary == (file_name(exe_s@) == Some("jevx"@)));
    }
    (is_binary || managed) && sub
}

} // verus!
