//! Activating a profile: the shell script that starts a subshell with the
//! profile's variables, setup commands, prompt and cleanup, or the `export`
//! lines that set the variables in the current shell.
use vstd::prelude::*;

use crate::config::{pair_views, EnvMap, ProfileConfig};
use crate::installer::{removal_command, ManagerKind};
use crate::text::{
    chars_of, decimal, has_char, join, join_strings, push_char, push_decimal, same_text,
    trim_end_matches, trim_end_matching, views,
};

verus! {

/// How a profile is activated.
#[derive(Debug, PartialEq, Eq, Structural, Clone, Copy)]
pub enum ActivationMode {
    /// Start a subshell that has the profile applied.
    Subshell,
    /// Print `export` lines for the current shell to evaluate.
    Export,
}

// ---------------------------------------------------------------------------
// Variables

/// A copy of the variables, entry for entry.
pub fn build_env_exports(env: &EnvMap) -> (r: EnvMap)
    ensures
        r.pairs() == env.pairs(),
        r@ == env@,
{
    let mut r = EnvMap::new();
    let entries = env.entries();
    let n = entries.len();
    for i in 0..n
        invariant
            n == entries@.len(),
            pair_views(entries@) == env.pairs(),
            r.pairs() == env.pairs().take(i as int),
            crate::config::distinct_keys(env.pairs()),
    {
        let ghost before = r.pairs();
        proof {
            crate::config::lemma_pairs_to_map(before);
            assert(!r@.dom().contains(env.pairs()[i as int].0)) by {
                if r@.dom().contains(env.pairs()[i as int].0) {
                    let j = choose|j: int| 0 <= j < before.len() && before[j].0 == env.pairs()[i as int].0;
                    assert(env.pairs()[j].0 == env.pairs()[i as int].0);
                }
            }
        }
        r.insert(entries[i].0.clone(), entries[i].1.clone());
        assert(env.pairs().take(i + 1) == env.pairs().take(i as int).push(env.pairs()[i as int]));
    }
    assert(env.pairs().take(n as int) == env.pairs());
    r
}

// ---------------------------------------------------------------------------
// Quoting for the shell

/// A value must be quoted when it holds a space, a double quote, a dollar
/// sign or a backslash.
pub open spec fn needs_quotes(s: Seq<char>) -> bool {
    s.contains(' ') || s.contains('"') || s.contains('$') || s.contains('\\')
}

/// A character as it is written between double quotes: backslash, double
/// quote and dollar sign get a backslash before them.
pub open spec fn escape_char(c: char) -> Seq<char> {
    if c == '\\' || c == '"' || c == '$' {
        seq!['\\', c]
    } else {
        seq![c]
    }
}

/// Each character of `s` as it is written between double quotes.
pub open spec fn escape_chars(s: Seq<char>) -> Seq<char>
    decreases s.len(),
{
    if s.len() == 0 {
        Seq::empty()
    } else {
        escape_char(s[0]) + escape_chars(s.drop_first())
    }
}

/// `s` as a shell word: unchanged when it needs no quotes, else in double
/// quotes with backslash, double quote and dollar sign escaped.
pub open spec fn escape(s: Seq<char>) -> Seq<char> {
    if needs_quotes(s) {
        seq!['"'] + escape_chars(s) + seq!['"']
    } else {
        s
    }
}

/// Escaping a concatenation escapes each part.
pub proof fn lemma_escape_chars_append(a: Seq<char>, b: Seq<char>)
    ensures
        escape_chars(a + b) == escape_chars(a) + escape_chars(b),
    decreases a.len(),
{
    if a.len() == 0 {
        assert(a + b == b);
    } else {
        lemma_escape_chars_append(a.drop_first(), b);
        assert((a + b).drop_first() == a.drop_first() + b);
    }
}

/// `s` as a shell word (see `escape`).
pub fn escape_value(s: &str) -> (r: String)
    ensures
        r@ == escape(s@),
{
    let quote = has_char(s, ' ') || has_char(s, '"') || has_char(s, '$') || has_char(s, '\\');
    if !quote {
        return s.to_string();
    }
    let x = chars_of(s);
    let mut r = String::new();
    push_char(&mut r, '"');
    let n = x.len();
    assert(x@.take(0) == Seq::<char>::empty());
    for i in 0..n
        invariant
            n == x@.len(),
            r@ == seq!['"'] + escape_chars(x@.take(i as int)),
    {
        let c = x[i];
        if c == '\\' || c == '"' || c == '$' {
            push_char(&mut r, '\\');
        }
        push_char(&mut r, c);
        proof {
            assert(x@.take(i + 1) == x@.take(i as int) + seq![c]);
            lemma_escape_chars_append(x@.take(i as int), seq![c]);
            assert(seq![c].drop_first() == Seq::<char>::empty());
            assert(escape_chars(seq![c]) == escape_char(c) + escape_chars(Seq::<char>::empty()));
        }
    }
    push_char(&mut r, '"');
    assert(x@.take(n as int) == x@);
    r
}

/// What the shell reads from the characters between a pair of double
/// quotes: a backslash before `$`, a backquote, `"`, a backslash or a newline
/// stands for that character (a newline so escaped is dropped); any other
/// character stands for itself.
pub open spec fn read_double_quoted(w: Seq<char>) -> Seq<char>
    decreases w.len(),
{
    if w.len() >= 2 && w[0] == '\\' && (w[1] == '$' || w[1] == '`' || w[1] == '"' || w[1] == '\\'
        || w[1] == '\n') {
        if w[1] == '\n' {
            read_double_quoted(w.skip(2))
        } else {
            seq![w[1]] + read_double_quoted(w.skip(2))
        }
    } else if w.len() == 0 {
        Seq::empty()
    } else {
        seq![w[0]] + read_double_quoted(w.drop_first())
    }
}

/// Whether `c` occurs unescaped in the characters between a pair of double
/// quotes, scanning as the shell does: a backslash makes the character after
/// it stand for itself.
pub open spec fn has_unescaped(w: Seq<char>, c: char) -> bool
    decreases w.len(),
{
    if w.len() == 0 {
        false
    } else if w[0] == '\\' {
        if w.len() >= 2 {
            has_unescaped(w.skip(2), c)
        } else {
            false
        }
    } else {
        w[0] == c || has_unescaped(w.drop_first(), c)
    }
}

/// An escaped value is one shell word: between its quotes no double quote
/// or dollar sign is unescaped, nor a backquote when the value holds none,
/// so the word ends at its closing quote and nothing in it is expanded.
pub proof fn lemma_escape_is_one_word(s: Seq<char>)
    ensures
        !has_unescaped(escape_chars(s), '"'),
        !has_unescaped(escape_chars(s), '$'),
        !s.contains('`') ==> !has_unescaped(escape_chars(s), '`'),
    decreases s.len(),
{
    if s.len() > 0 {
        let c = s[0];
        let rest = s.drop_first();
        if !s.contains('`') {
            assert(!rest.contains('`')) by {
                if rest.contains('`') {
                    let i = choose|i: int| 0 <= i < rest.len() && rest[i] == '`';
                    assert(s[i + 1] == '`');
                }
            }
            assert(c != '`') by {
                assert(s[0] == c);
            }
        }
        lemma_escape_is_one_word(rest);
        let w = escape_chars(s);
        assert(w == escape_char(c) + escape_chars(rest));
        if c == '\\' || c == '"' || c == '$' {
            assert(w.skip(2) == escape_chars(rest));
        } else {
            assert(w.drop_first() == escape_chars(rest));
        }
    }
}

/// A quoted value reads back as the value, provided it holds no backquote
/// (the shell would run what stands between backquotes).
pub proof fn lemma_escape_reads_back(s: Seq<char>)
    requires
        !s.contains('`'),
    ensures
        needs_quotes(s) ==> escape(s) == seq!['"'] + escape_chars(s) + seq!['"'],
        !needs_quotes(s) ==> escape(s) == s,
        read_double_quoted(escape_chars(s)) == s,
    decreases s.len(),
{
    if s.len() > 0 {
        let c = s[0];
        let rest = s.drop_first();
        assert(!rest.contains('`')) by {
            if rest.contains('`') {
                let i = choose|i: int| 0 <= i < rest.len() && rest[i] == '`';
                assert(s[i + 1] == '`');
            }
        }
        lemma_escape_reads_back(rest);
        let w = escape_chars(s);
        assert(w == escape_char(c) + escape_chars(rest));
        if c == '\\' || c == '"' || c == '$' {
            assert(w.skip(2) == escape_chars(rest));
        } else {
            assert(c != '`');
            assert(w.drop_first() == escape_chars(rest));
        }
        assert(s == seq![c] + rest);
    }
}

/// A value holding a space, a double quote, a dollar sign or a backslash is
/// written as one double-quoted word: it starts and ends with `"`, no `"`
/// inside is unescaped, and (when it holds no backquote) the shell reads it
/// back as the value. Any other value is written as it is.
pub proof fn lemma_special_values_are_quoted(s: Seq<char>)
    ensures
        (s.contains(' ') || s.contains('"') || s.contains('$') || s.contains('\\')) ==> {
            let w = escape(s);
            &&& w.len() >= 2
            &&& w[0] == '"'
            &&& w[w.len() - 1] == '"'
            &&& !has_unescaped(w.subrange(1, w.len() - 1), '"')
            &&& !s.contains('`') ==> read_double_quoted(w.subrange(1, w.len() - 1)) == s
        },
        !(s.contains(' ') || s.contains('"') || s.contains('$') || s.contains('\\')) ==> escape(s)
            == s,
{
    if s.contains(' ') || s.contains('"') || s.contains('$') || s.contains('\\') {
        let e = escape_chars(s);
        let w = escape(s);
        assert(w == seq!['"'] + e + seq!['"']);
        assert(w.subrange(1, w.len() - 1) =~= e);
        lemma_escape_is_one_word(s);
        if !s.contains('`') {
            lemma_escape_reads_back(s);
        }
    }
}

// ---------------------------------------------------------------------------
// The subshell

/// `"export K=V; "` for each variable, in order, both sides escaped.
pub open spec fn export_commands(pairs: Seq<(Seq<char>, Seq<char>)>) -> Seq<char>
    decreases pairs.len(),
{
    if pairs.len() == 0 {
        Seq::empty()
    } else {
        export_commands(pairs.drop_last()) + "export "@ + escape(pairs.last().0) + "="@ + escape(
            pairs.last().1,
        ) + "; "@
    }
}

/// The prompt prefix that marks a shell of the profile `name`.
pub open spec fn ps1_prefix(name: Seq<char>) -> Seq<char> {
    "(envforge:"@ + name + ") "@
}

/// The temporary file that holds the shell's start-up commands.
pub open spec fn rc_path(name: Seq<char>, pid: nat) -> Seq<char> {
    "/tmp/envforge_"@ + name + "_"@ + decimal(pid)
}

/// The temporary directory that zsh reads its start-up file from.
pub open spec fn zdotdir(name: Seq<char>, pid: nat) -> Seq<char> {
    rc_path(name, pid) + "_zd"@
}

/// The characters after the last `/` of `p`.
pub open spec fn last_segment(p: Seq<char>) -> Seq<char>
    decreases p.len(),
{
    if p.len() == 0 || p.last() == '/' {
        Seq::empty()
    } else {
        last_segment(p.drop_last()).push(p.last())
    }
}

/// The last component of the path `p`, skipping empty and `.` components.
pub open spec fn last_component(p: Seq<char>) -> Option<Seq<char>>
    decreases p.len(),
{
    if p.len() == 0 {
        None
    } else if p.last() == '/' {
        last_component(p.drop_last())
    } else {
        let seg = last_segment(p);
        if seg == seq!['.'] {
            last_component(p.take(p.len() - seg.len()))
        } else {
            Some(seg)
        }
    }
}

/// The file name of the path `p` (`Path::file_name`): its last component,
/// unless there is none or it is `..`.
pub open spec fn file_name(p: Seq<char>) -> Option<Seq<char>> {
    match last_component(p) {
        Some(c) => if c == seq!['.', '.'] {
            None
        } else {
            Some(c)
        },
        None => None,
    }
}

/// The name of the user's shell: the file name of its path, else `bash`.
pub open spec fn shell_name(shell: Seq<char>) -> Seq<char> {
    match file_name(shell) {
        Some(n) => n,
        None => "bash"@,
    }
}

/// The shells whose start-up files are handled.
#[derive(Debug, PartialEq, Eq, Structural, Clone, Copy)]
pub enum ShellKind {
    Bash,
    Zsh,
    Other,
}

/// The kind of shell a shell name denotes.
pub open spec fn shell_kind(name: Seq<char>) -> ShellKind {
    if name == "bash"@ {
        ShellKind::Bash
    } else if name == "zsh"@ {
        ShellKind::Zsh
    } else {
        ShellKind::Other
    }
}

/// The start-up file that bash reads: the user's own, then the prompt prefix.
pub open spec fn bash_rc(name: Seq<char>) -> Seq<char> {
    "source ~/.bashrc 2>/dev/null\nPS1=\""@ + ps1_prefix(name) + "$PS1\"\n"@
}

/// The start-up file that zsh reads: the user's own, then the prompt prefix.
pub open spec fn zsh_rc(name: Seq<char>) -> Seq<char> {
    "source ~/.zshrc 2>/dev/null\nPS1=\""@ + ps1_prefix(name) + "$PS1\"\n"@
}

/// The command that starts the shell with the prompt prefix.
pub open spec fn shell_invocation(shell: Seq<char>, name: Seq<char>, pid: nat) -> Seq<char> {
    match shell_kind(shell_name(shell)) {
        ShellKind::Bash => "exec "@ + shell + " --rcfile "@ + rc_path(name, pid),
        ShellKind::Zsh => "export ZDOTDIR="@ + zdotdir(name, pid) + "; exec "@ + shell,
        ShellKind::Other => "export PS1=\""@ + ps1_prefix(name) + "$PS1\"; exec "@ + shell,
    }
}

/// The command that removes the shell's temporary start-up files.
pub open spec fn file_cleanup(shell: Seq<char>, name: Seq<char>, pid: nat) -> Seq<char> {
    match shell_kind(shell_name(shell)) {
        ShellKind::Bash => "rm -f "@ + rc_path(name, pid),
        ShellKind::Zsh => "rm -rf "@ + zdotdir(name, pid),
        ShellKind::Other => Seq::empty(),
    }
}

/// What the exit trap would run: the file cleanup, then the removal of the
/// packages this activation installed.
///
/// The script starts the user's shell with `exec`, so `sh` is replaced and
/// never reaches its own exit: this trap is set but never runs, and the
/// packages it names are not removed. The temporary start-up files are
/// removed by the caller once the shell has ended.
pub open spec fn trap_body(
    shell: Seq<char>,
    name: Seq<char>,
    pid: nat,
    installed: Seq<Seq<char>>,
    manager: Option<ManagerKind>,
) -> Seq<char> {
    let files = file_cleanup(shell, name, pid);
    let first = if files.len() > 0 {
        files + "; "@
    } else {
        Seq::empty()
    };
    let removal = match manager {
        Some(k) => if installed.len() > 0 {
            removal_command(k, installed)
        } else {
            Seq::empty()
        },
        None => Seq::empty(),
    };
    first + removal
}

/// The `trap '...' EXIT; ` command, or nothing when there is nothing to clean.
///
/// The script starts the user's shell with `exec`, so `sh` is replaced and
/// never reaches its own exit: this trap is set but never runs, and the
/// packages it names are not removed. The temporary start-up files are
/// removed by the caller once the shell has ended.
pub open spec fn cleanup_trap(
    shell: Seq<char>,
    name: Seq<char>,
    pid: nat,
    installed: Seq<Seq<char>>,
    manager: Option<ManagerKind>,
) -> Seq<char> {
    let body = trap_body(shell, name, pid, installed, manager);
    if body.len() == 0 {
        Seq::empty()
    } else {
        "trap '"@ + trim_end_matches(body, "; "@) + "' EXIT; "@
    }
}

/// A one-element sequence holding `s` when `s` is not empty, else nothing.
pub open spec fn part(s: Seq<char>) -> Seq<Seq<char>> {
    if s.len() > 0 {
        seq![s]
    } else {
        Seq::empty()
    }
}

/// `s` without its trailing `; ` separators, when `s` is not empty; else nothing.
pub open spec fn trimmed_part(s: Seq<char>) -> Seq<Seq<char>> {
    if s.len() > 0 {
        seq![trim_end_matches(s, "; "@)]
    } else {
        Seq::empty()
    }
}

/// The script given to `sh -c`: the exports, the setup commands, the
/// cleanup trap (which never runs, see `trap_body`) and the `exec` of the
/// shell, each present only when not empty, separated by `; `.
pub open spec fn subshell_script(
    pairs: Seq<(Seq<char>, Seq<char>)>,
    setup: Seq<Seq<char>>,
    name: Seq<char>,
    shell: Seq<char>,
    pid: nat,
    installed: Seq<Seq<char>>,
    manager: Option<ManagerKind>,
) -> Seq<char> {
    let exports = export_commands(pairs);
    let trap = cleanup_trap(shell, name, pid, installed, manager);
    join(
        trimmed_part(exports) + part(join(setup, "; "@)) + trimmed_part(trap) + seq![
            shell_invocation(shell, name, pid),
        ],
        "; "@,
    )
}

/// The temporary start-up files to write before the subshell starts.
pub enum StartupFiles {
    /// None: the prompt is set on the command line.
    Nothing,
    /// A bash start-up file.
    BashRc { path: String, contents: String },
    /// A directory for zsh, and the start-up file in it.
    ZshDir { dir: String, rc_file: String, contents: String },
}

/// Everything that starting the subshell involves.
pub struct SubshellPlan {
    /// The name of the user's shell.
    pub shell_name: String,
    /// Files to write first.
    pub files: StartupFiles,
    /// The script to run with `sh -c`.
    pub script: String,
    /// The command line of the one process to start: `sh -c <script>`.
    pub command: Vec<String>,
    /// The start-up file to remove afterwards.
    pub rc_path: String,
    /// The zsh directory to remove afterwards.
    pub zdotdir: String,
}

/// What activation does.
pub enum Activation {
    /// Start a subshell.
    Subshell(SubshellPlan),
    /// Print the exports.
    Export(ExportPlan),
}

/// The output of the export mode.
pub struct ExportPlan {
    /// `export K=V` for each variable, in order.
    pub lines: Vec<String>,
    /// Whether to warn that the setup commands are not run.
    pub setup_skipped: bool,
}

/// The file name of the path `shell`, else `bash`.
pub fn shell_name_of(shell: &str) -> (r: String)
    ensures
        r@ == shell_name(shell@),
{
    let x = chars_of(shell);
    let mut end = x.len();
    assert(x@.take(end as int) == x@);
    let mut found: Option<String> = None;
    loop
        invariant_except_break
            found is None,
        invariant
            end <= x@.len(),
            x@ == shell@,
            last_component(x@.take(end as int)) == last_component(shell@),
        ensures
            match found {
                Some(s) => last_component(shell@) == Some(s@),
                None => last_component(shell@) is None,
            },
        decreases end,
    {
        if end == 0 {
            break;
        }
        let ghost p = x@.take(end as int);
        if x[end - 1] == '/' {
            assert(p.drop_last() == x@.take(end - 1));
            end = end - 1;
        } else {
            let mut start = end - 1;
            while start > 0 && x[start - 1] != '/'
                invariant
                    start < end <= x@.len(),
                    forall|j: int| start <= j < end ==> x@[j] != '/',
                decreases start,
            {
                start = start - 1;
            }
            proof {
                lemma_last_segment(x@, start as int, end as int);
            }
            let seg = end - start;
            if seg == 1 && x[start] == '.' {
                proof {
                    assert(last_segment(p) =~= seq!['.']);
                    assert(p.take(p.len() - 1) == x@.take(start as int));
                }
                end = start;
            } else {
                let mut s = String::new();
                for i in start..end
                    invariant
                        start <= end <= x@.len(),
                        s@ == x@.subrange(start as int, i as int),
                {
                    push_char(&mut s, x[i]);
                    assert(x@.subrange(start as int, i + 1) == x@.subrange(start as int, i as int).push(x@[i as int]));
                }
                proof {
                    assert(last_segment(p) == x@.subrange(start as int, end as int));
                    if seg == 1 {
                        assert(last_segment(p) != seq!['.']) by {
                            assert(last_segment(p)[0] == x@[start as int]);
                        }
                    } else {
                        assert(last_segment(p).len() != 1);
                    }
                }
                found = Some(s);
                break;
            }
        }
    }
    match found {
        Some(s) => {
            let dotdot = same_text(s.as_str(), "..");
            proof {
                reveal_strlit("..");
                assert(".."@ =~= seq!['.', '.']);
            }
            if dotdot {
                "bash".to_string()
            } else {
                s
            }
        },
        None => "bash".to_string(),
    }
}

/// The characters after the last `/` of a prefix of `x` are those from the
/// position after that `/`.
pub proof fn lemma_last_segment(x: Seq<char>, start: int, end: int)
    requires
        0 <= start < end <= x.len(),
        forall|j: int| start <= j < end ==> x[j] != '/',
        start == 0 || x[start - 1] == '/',
    ensures
        last_segment(x.take(end)) == x.subrange(start, end),
    decreases end - start,
{
    let p = x.take(end);
    assert(p.drop_last() == x.take(end - 1));
    if end - 1 > start {
        lemma_last_segment(x, start, end - 1);
    } else {
        let q = x.take(end - 1);
        if start > 0 {
            assert(q.last() == '/');
        }
        assert(last_segment(q) == Seq::<char>::empty());
    }
    assert(x.subrange(start, end) == x.subrange(start, end - 1).push(x[end - 1]));
}

fn export_commands_of(env: &EnvMap) -> (r: String)
    ensures
        r@ == export_commands(env.pairs()),
{
    let entries = env.entries();
    let n = entries.len();
    let mut r = String::new();
    assert(env.pairs().take(0) == Seq::<(Seq<char>, Seq<char>)>::empty());
    for i in 0..n
        invariant
            n == entries@.len(),
            pair_views(entries@) == env.pairs(),
            r@ == export_commands(env.pairs().take(i as int)),
    {
        let k = escape_value(entries[i].0.as_str());
        let v = escape_value(entries[i].1.as_str());
        r.append("export ");
        r.append(k.as_str());
        r.append("=");
        r.append(v.as_str());
        r.append("; ");
        proof {
            let t = env.pairs().take(i + 1);
            assert(t.drop_last() == env.pairs().take(i as int));
            assert(t.last() == env.pairs()[i as int]);
        }
    }
    assert(env.pairs().take(n as int) == env.pairs());
    r
}

fn push_ps1_prefix(s: &mut String, name: &str)
    ensures
        final(s)@ == old(s)@ + ps1_prefix(name@),
{
    s.append("(envforge:");
    s.append(name);
    s.append(") ");
}

fn rc_path_of(name: &str, pid: u32) -> (r: String)
    ensures
        r@ == rc_path(name@, pid as nat),
{
    let mut r = "/tmp/envforge_".to_string();
    r.append(name);
    r.append("_");
    push_decimal(&mut r, pid as u64);
    r
}

fn trap_of(
    shell: &str,
    kind: ShellKind,
    rc: &str,
    zd: &str,
    name: &str,
    pid: u32,
    installed: &[String],
    manager: Option<ManagerKind>,
) -> (r: String)
    requires
        kind == shell_kind(shell_name(shell@)),
        rc@ == rc_path(name@, pid as nat),
        zd@ == zdotdir(name@, pid as nat),
    ensures
        r@ == cleanup_trap(shell@, name@, pid as nat, views(installed@), manager),
{
    let mut body = String::new();
    match kind {
        ShellKind::Bash => {
            body.append("rm -f ");
            body.append(rc);
            body.append("; ");
        },
        ShellKind::Zsh => {
            body.append("rm -rf ");
            body.append(zd);
            body.append("; ");
        },
        ShellKind::Other => {},
    }
    proof {
        let files = file_cleanup(shell@, name@, pid as nat);
        if kind == ShellKind::Other {
            assert(files.len() == 0);
            assert(body@ =~= Seq::<char>::empty());
        } else {
            assert(files.len() > 0);
        }
    }
    match manager {
        Some(k) => {
            if installed.len() > 0 {
                let cmd = k.removal_script(installed);
                body.append(cmd.as_str());
            }
        },
        None => {},
    }
    assert(body@ =~= trap_body(shell@, name@, pid as nat, views(installed@), manager));
    if body.as_str().is_empty() {
        return String::new();
    }
    let trimmed = trim_end_matching(body.as_str(), "; ");
    let mut r = "trap '".to_string();
    r.append(trimmed.as_str());
    r.append("' EXIT; ");
    r
}

/// The plan for starting a subshell of the profile `config` with the user's
/// shell `shell` from process `pid`; `installed` are the packages this
/// activation installed, which the exit trap names with `manager` (a trap
/// that never runs, see `trap_body`).
pub fn subshell_plan(
    config: &ProfileConfig,
    shell: &str,
    pid: u32,
    installed: &[String],
    manager: Option<ManagerKind>,
) -> (r: SubshellPlan)
    ensures
        is_subshell_plan(r, *config, shell@, pid as nat, views(installed@), manager),
{
    let name = config.name.as_str();
    let sname = shell_name_of(shell);
    let kind = if same_text(sname.as_str(), "bash") {
        ShellKind::Bash
    } else if same_text(sname.as_str(), "zsh") {
        ShellKind::Zsh
    } else {
        ShellKind::Other
    };
    let exports = export_commands_of(&config.env);
    let setup = join_strings(config.setup.as_slice(), "; ");
    let rc = rc_path_of(name, pid);
    let mut zd = rc.clone();
    zd.append("_zd");
    let (files, invoke) = match kind {
        ShellKind::Bash => {
            let mut contents = "source ~/.bashrc 2>/dev/null\nPS1=\"".to_string();
            push_ps1_prefix(&mut contents, name);
            contents.append("$PS1\"\n");
            let mut invoke = "exec ".to_string();
            invoke.append(shell);
            invoke.append(" --rcfile ");
            invoke.append(rc.as_str());
            (StartupFiles::BashRc { path: rc.clone(), contents }, invoke)
        },
        ShellKind::Zsh => {
            let mut contents = "source ~/.zshrc 2>/dev/null\nPS1=\"".to_string();
            push_ps1_prefix(&mut contents, name);
            contents.append("$PS1\"\n");
            let mut rc_file = zd.clone();
            rc_file.append("/.zshrc");
            let mut invoke = "export ZDOTDIR=".to_string();
            invoke.append(zd.as_str());
            invoke.append("; exec ");
            invoke.append(shell);
            (StartupFiles::ZshDir { dir: zd.clone(), rc_file, contents }, invoke)
        },
        ShellKind::Other => {
            let mut invoke = "export PS1=\"".to_string();
            push_ps1_prefix(&mut invoke, name);
            invoke.append("$PS1\"; exec ");
            invoke.append(shell);
            (StartupFiles::Nothing, invoke)
        },
    };
    let trap = trap_of(shell, kind, rc.as_str(), zd.as_str(), name, pid, installed, manager);
    let mut parts: Vec<String> = Vec::new();
    if !exports.as_str().is_empty() {
        parts.push(trim_end_matching(exports.as_str(), "; "));
    }
    if !setup.as_str().is_empty() {
        parts.push(setup);
    }
    if !trap.as_str().is_empty() {
        parts.push(trim_end_matching(trap.as_str(), "; "));
    }
    parts.push(invoke);
    let script = join_strings(parts.as_slice(), "; ");
    proof {
        let ex = export_commands(config.env.pairs());
        let tr = cleanup_trap(shell@, config.name@, pid as nat, views(installed@), manager);
        assert(views(parts@) =~= trimmed_part(ex) + part(join(views(config.setup@), "; "@))
            + trimmed_part(tr) + seq![invoke@]);
    }
    let command = crate::executor::shell_command(script.as_str());
    SubshellPlan { shell_name: sname, files, script, command, rc_path: rc, zdotdir: zd }
}


/// The plan starts the shell `shell` for the profile `config` from process
/// `pid`, with the (never run) exit trap naming `installed` and `manager`.
pub open spec fn is_subshell_plan(
    plan: SubshellPlan,
    config: ProfileConfig,
    shell: Seq<char>,
    pid: nat,
    installed: Seq<Seq<char>>,
    manager: Option<ManagerKind>,
) -> bool {
    &&& plan.shell_name@ == shell_name(shell)
    &&& views(plan.command@) == crate::executor::shell_argv(plan.script@)
    &&& plan.script@ == subshell_script(
        config.env.pairs(),
        views(config.setup@),
        config.name@,
        shell,
        pid,
        installed,
        manager,
    )
    &&& plan.rc_path@ == rc_path(config.name@, pid)
    &&& plan.zdotdir@ == zdotdir(config.name@, pid)
    &&& match shell_kind(shell_name(shell)) {
        ShellKind::Bash => plan.files matches StartupFiles::BashRc { path, contents } && path@
            == rc_path(config.name@, pid) && contents@ == bash_rc(config.name@),
        ShellKind::Zsh => plan.files matches StartupFiles::ZshDir { dir, rc_file, contents }
            && dir@ == zdotdir(config.name@, pid) && rc_file@ == zdotdir(config.name@, pid)
            + "/.zshrc"@ && contents@ == zsh_rc(config.name@),
        ShellKind::Other => plan.files matches StartupFiles::Nothing,
    }
}

/// `export K=V` for each variable, in order, name and value escaped so that
/// evaluating the line sets the variable to its exact value.
pub open spec fn export_lines(pairs: Seq<(Seq<char>, Seq<char>)>) -> Seq<Seq<char>> {
    pairs.map_values(|p: (Seq<char>, Seq<char>)| "export "@ + escape(p.0) + "="@ + escape(p.1))
}

/// The output of the export mode: one `export` line per variable, and a
/// warning when the profile has setup commands, which this mode does not run.
pub fn export_plan(config: &ProfileConfig) -> (r: ExportPlan)
    ensures
        views(r.lines@) == export_lines(config.env.pairs()),
        r.setup_skipped == (config.setup@.len() > 0),
{
    let exports = build_env_exports(&config.env);
    let entries = exports.entries();
    let n = entries.len();
    let mut lines: Vec<String> = Vec::new();
    for i in 0..n
        invariant
            n == entries@.len(),
            pair_views(entries@) == config.env.pairs(),
            views(lines@) == export_lines(config.env.pairs().take(i as int)),
    {
        let k = escape_value(entries[i].0.as_str());
        let v = escape_value(entries[i].1.as_str());
        let mut line = "export ".to_string();
        line.append(k.as_str());
        line.append("=");
        line.append(v.as_str());
        let ghost before = views(lines@);
        lines.push(line);
        proof {
            assert(pair_views(entries@)[i as int] == (entries@[i as int].0@, entries@[i as int].1@));
            assert(views(lines@) == before.push(line@));
            assert(config.env.pairs().take(i + 1)[i as int] == config.env.pairs()[i as int]);
            assert(views(lines@) =~= export_lines(config.env.pairs().take(i + 1)));
        }
    }
    assert(config.env.pairs().take(n as int) == config.env.pairs());
    ExportPlan { lines, setup_skipped: config.setup.len() > 0 }
}

/// What activating the profile `config` in `mode` does: start the user's
/// shell `shell` from process `pid` (the never-run exit trap naming `installed` with
/// `manager`), or print the exports.
pub fn activate_environment(
    config: &ProfileConfig,
    mode: ActivationMode,
    shell: &str,
    pid: u32,
    installed: &[String],
    manager: Option<ManagerKind>,
) -> (r: Activation)
    ensures
        match mode {
            ActivationMode::Subshell => r matches Activation::Subshell(plan) && is_subshell_plan(
                plan,
                *config,
                shell@,
                pid as nat,
                views(installed@),
                manager,
            ),
            ActivationMode::Export => r matches Activation::Export(plan) && views(plan.lines@)
                == export_lines(config.env.pairs()) && plan.setup_skipped == (config.setup@.len()
                > 0),
        },
{
    match mode {
        ActivationMode::Subshell => Activation::Subshell(
            subshell_plan(config, shell, pid, installed, manager),
        ),
        ActivationMode::Export => Activation::Export(export_plan(config)),
    }
}

/// Why the subshell failed.
#[derive(Debug, PartialEq, Eq, Structural, Clone, Copy)]
pub enum ActivationError {
    /// The subshell exited with a failure status.
    SubshellFailed { code: Option<i32> },
}

impl ActivationError {
    /// The message shown for the failure.
    pub fn message(&self) -> (r: String)
        ensures
            match self {
                ActivationError::SubshellFailed { code } => r@ == "subshell exited with code: "@
                    + crate::executor::debug_code(*code),
            },
    {
        match self {
            ActivationError::SubshellFailed { code } => {
                let mut m = "subshell exited with code: ".to_string();
                match code {
                    Some(c) => {
                        m.append("Some(");
                        crate::text::push_signed_decimal(&mut m, *c as i64);
                        m.append(")");
                    },
                    None => {
                        m.append("None");
                    },
                }
                m
            },
        }
    }
}

/// The result of the activation, from how the subshell ended.
pub fn subshell_result(success: bool, code: Option<i32>) -> (r: Result<(), ActivationError>)
    ensures
        success ==> r is Ok,
        !success ==> r == Err::<(), ActivationError>(ActivationError::SubshellFailed { code }),
{
    if success {
        Ok(())
    } else {
        Err(ActivationError::SubshellFailed { code })
    }
}

// ---------------------------------------------------------------------------
// Packages of an activation

/// The packages of `packages` whose flag in `present` is false, in order.
pub open spec fn missing_packages(packages: Seq<Seq<char>>, present: Seq<bool>) -> Seq<Seq<char>>
    decreases packages.len(),
{
    if packages.len() == 0 {
        Seq::empty()
    } else {
        let rest = missing_packages(packages.drop_last(), present);
        if present[packages.len() - 1] {
            rest
        } else {
            rest.push(packages.last())
        }
    }
}

/// The packages of `packages` whose result in `results` is a success, in order.
pub open spec fn succeeded_packages(packages: Seq<Seq<char>>, results: Seq<bool>) -> Seq<Seq<char>>
    decreases packages.len(),
{
    missing_packages(packages, results.map_values(|b: bool| !b))
}

/// The packages to install: those of `packages` that are not already
/// installed, where `installed[i]` tells whether `packages[i]` is.
pub fn packages_to_install(packages: &[String], installed: &[bool]) -> (r: Vec<String>)
    requires
        packages@.len() == installed@.len(),
    ensures
        views(r@) == missing_packages(views(packages@), installed@),
{
    let mut r: Vec<String> = Vec::new();
    let n = packages.len();
    assert(views(packages@.take(0)) =~= Seq::<Seq<char>>::empty());
    for i in 0..n
        invariant
            n == packages@.len(),
            n == installed@.len(),
            views(r@) == missing_packages(views(packages@.take(i as int)), installed@),
    {
        proof {
            let t = views(packages@.take(i + 1));
            assert(t.drop_last() == views(packages@.take(i as int)));
            assert(t.last() == packages@[i as int]@);
        }
        if !installed[i] {
            r.push(packages[i].clone());
            assert(views(r@) =~= missing_packages(views(packages@.take(i + 1)), installed@));
        }
    }
    assert(packages@.take(n as int) == packages@);
    r
}

/// The packages that were installed: those of `to_install` whose install
/// result is a success.
pub fn newly_installed(to_install: &[String], results: &[Result<(), String>]) -> (r: Vec<String>)
    requires
        to_install@.len() == results@.len(),
    ensures
        views(r@) == succeeded_packages(
            views(to_install@),
            results@.map_values(|x: Result<(), String>| x is Ok),
        ),
{
    let ghost oks = results@.map_values(|x: Result<(), String>| x is Ok);
    let ghost failed = oks.map_values(|b: bool| !b);
    let mut r: Vec<String> = Vec::new();
    let n = to_install.len();
    assert(views(to_install@.take(0)) =~= Seq::<Seq<char>>::empty());
    for i in 0..n
        invariant
            n == to_install@.len(),
            n == results@.len(),
            oks == results@.map_values(|x: Result<(), String>| x is Ok),
            failed == oks.map_values(|b: bool| !b),
            views(r@) == missing_packages(views(to_install@.take(i as int)), failed),
    {
        proof {
            let t = views(to_install@.take(i + 1));
            assert(t.drop_last() == views(to_install@.take(i as int)));
            assert(t.last() == to_install@[i as int]@);
            assert(failed[i as int] == !(results@[i as int] is Ok));
        }
        if results[i].is_ok() {
            r.push(to_install[i].clone());
            assert(views(r@) =~= missing_packages(views(to_install@.take(i + 1)), failed));
        }
    }
    assert(to_install@.take(n as int) == to_install@);
    r
}

/// Every package in `missing_packages(packages, present)` is one of
/// `packages` whose flag is false.
pub proof fn lemma_missing_packages(packages: Seq<Seq<char>>, present: Seq<bool>, j: int)
    requires
        packages.len() <= present.len(),
        0 <= j < missing_packages(packages, present).len(),
    ensures
        exists|i: int|
            0 <= i < packages.len() && packages[i] == missing_packages(packages, present)[j]
                && !present[i],
    decreases packages.len(),
{
    let rest = missing_packages(packages.drop_last(), present);
    if j < rest.len() {
        lemma_missing_packages(packages.drop_last(), present, j);
        let i = choose|i: int|
            0 <= i < packages.drop_last().len() && packages.drop_last()[i] == rest[j]
                && !present[i];
        assert(packages[i] == packages.drop_last()[i]);
    } else {
        assert(packages[packages.len() - 1] == packages.last());
    }
}

/// The cleanup removes only packages this activation installed: each
/// package that the install step reports as installed is a package of the
/// profile that was not installed before and whose install succeeded.
pub proof fn lemma_only_new_packages_removed(
    packages: Seq<Seq<char>>,
    present: Seq<bool>,
    results: Seq<bool>,
    j: int,
)
    requires
        packages.len() == present.len(),
        results.len() == missing_packages(packages, present).len(),
        0 <= j < succeeded_packages(missing_packages(packages, present), results).len(),
    ensures
        exists|i: int|
            0 <= i < packages.len() && packages[i] == succeeded_packages(
                missing_packages(packages, present),
                results,
            )[j] && !present[i],
        exists|k: int|
            0 <= k < results.len() && results[k] && missing_packages(packages, present)[k]
                == succeeded_packages(missing_packages(packages, present), results)[j],
{
    let to_install = missing_packages(packages, present);
    let failed = results.map_values(|b: bool| !b);
    lemma_missing_packages(to_install, failed, j);
    let k = choose|k: int|
        0 <= k < to_install.len() && to_install[k] == missing_packages(to_install, failed)[j]
            && !failed[k];
    lemma_missing_packages(packages, present, k);
}

} // verus!
