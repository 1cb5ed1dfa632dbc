//! The command that resumes a session, and how it is shown to a shell.
//!
//! Paths and arguments are byte strings, as the operating system keeps them.

use vstd::prelude::*;
use vstd::utf8::encode_utf8;
use crate::scan::Session;
use crate::text::{trim, trimmed};

verus! {

/// The byte `/`, which separates path components.
pub const SLASH: u8 = 47;

/// The byte `'`.
pub const QUOTE: u8 = 39;

/// The byte `\`.
pub const BACKSLASH: u8 = 92;

/// The UTF-8 bytes of a text.
pub open spec fn text(s: &str) -> Seq<u8> {
    encode_utf8(s@)
}

/// The UTF-8 bytes of a text.
pub fn text_bytes(s: &str) -> (r: Vec<u8>)
    ensures
        r@ == text(s),
{
    s.as_bytes_vec()
}

/// Appends the bytes `src` to `dst`.
pub fn append_bytes(dst: &mut Vec<u8>, src: &Vec<u8>)
    ensures
        final(dst)@ == old(dst)@ + src@,
{
    let ghost start = dst@;
    let mut i: usize = 0;
    while i < src.len()
        invariant
            i <= src.len(),
            dst@ == start + src@.take(i as int),
        decreases src.len() - i,
    {
        assert(src@.take(i + 1) =~= src@.take(i as int).push(src@[i as int]));
        dst.push(src[i]);
        i = i + 1;
    }
    assert(src@.take(i as int) =~= src@);
}

/// Copies a byte string.
pub fn copy_bytes(src: &Vec<u8>) -> (r: Vec<u8>)
    ensures
        r@ == src@,
{
    let mut r: Vec<u8> = Vec::new();
    append_bytes(&mut r, src);
    assert(r@ =~= src@);
    r
}

/// `rel` taken relative to `base`: an absolute `rel` stands alone, otherwise
/// it follows `base`, with a `/` between them unless `base` is empty or ends
/// in one.
pub open spec fn join(base: Seq<u8>, rel: Seq<u8>) -> Seq<u8> {
    if rel.len() > 0 && rel[0] == SLASH {
        rel
    } else if base.len() == 0 || base.last() == SLASH {
        base + rel
    } else {
        base.push(SLASH) + rel
    }
}

/// Joins `rel` onto `base`, as a path.
pub fn join_path(base: &Vec<u8>, rel: &Vec<u8>) -> (r: Vec<u8>)
    ensures
        r@ == join(base@, rel@),
{
    if rel.len() > 0 && rel[0] == SLASH {
        return copy_bytes(rel);
    }
    let mut r = copy_bytes(base);
    if base.len() > 0 && base[base.len() - 1] != SLASH {
        r.push(SLASH);
    }
    append_bytes(&mut r, rel);
    r
}

/// `s` with each `'` written as `'\''`, so that it can stand between single
/// quotes.
pub open spec fn escape_quotes(s: Seq<u8>) -> Seq<u8>
    decreases s.len(),
{
    if s.len() == 0 {
        s
    } else {
        escape_quotes(s.drop_last()) + if s.last() == QUOTE {
            seq![QUOTE, BACKSLASH, QUOTE, QUOTE]
        } else {
            seq![s.last()]
        }
    }
}

/// `s` quoted for a POSIX shell: between single quotes, with its own single
/// quotes escaped. The empty string becomes `''`.
pub open spec fn quoted(s: Seq<u8>) -> Seq<u8> {
    seq![QUOTE] + escape_quotes(s) + seq![QUOTE]
}

/// Quotes `s` for a POSIX shell.
pub fn sh_quote(s: &Vec<u8>) -> (r: Vec<u8>)
    ensures
        r@ == quoted(s@),
{
    let mut r: Vec<u8> = Vec::new();
    r.push(QUOTE);
    let mut i: usize = 0;
    while i < s.len()
        invariant
            i <= s.len(),
            r@ == seq![QUOTE] + escape_quotes(s@.take(i as int)),
        decreases s.len() - i,
    {
        assert(s@.take(i + 1).drop_last() =~= s@.take(i as int));
        if s[i] == QUOTE {
            r.push(QUOTE);
            r.push(BACKSLASH);
            r.push(QUOTE);
            r.push(QUOTE);
        } else {
            r.push(s[i]);
        }
        i = i + 1;
        assert(r@ =~= seq![QUOTE] + escape_quotes(s@.take(i as int)));
    }
    assert(s@.take(i as int) =~= s@);
    r.push(QUOTE);
    assert(r@ =~= quoted(s@));
    r
}

/// The text that the bytes `b` read as, with each run of bytes that is not
/// UTF-8 replaced by U+FFFD.
pub uninterp spec fn lossy_text(b: Seq<u8>) -> Seq<char>;

/// Relies on `String::from_utf8_lossy`: the text that the bytes read as,
/// which depends on the bytes alone.
#[verifier::external_body]
fn from_utf8_lossy(b: &Vec<u8>) -> (r: String)
    ensures
        r@ == lossy_text(b@),
{
    String::from_utf8_lossy(b.as_slice()).into_owned()
}

/// Quotes `s` for a POSIX shell, as text.
pub fn sh_quote_lossy(s: &Vec<u8>) -> (r: String)
    ensures
        r@ == lossy_text(quoted(s@)),
{
    let q = sh_quote(s);
    from_utf8_lossy(&q)
}

/// The views of a sequence of byte strings.
pub open spec fn words_view(v: Seq<Vec<u8>>) -> Seq<Seq<u8>> {
    v.map_values(|w: Vec<u8>| w@)
}

/// A program with its arguments.
pub struct Cmd {
    pub program: Vec<u8>,
    pub args: Vec<Vec<u8>>,
}

/// `words`, each quoted and read as text, separated by single spaces.
pub open spec fn shell_line(words: Seq<Seq<u8>>) -> Seq<char>
    decreases words.len(),
{
    if words.len() == 0 {
        Seq::empty()
    } else if words.len() == 1 {
        lossy_text(quoted(words[0]))
    } else {
        shell_line(words.drop_last()) + seq![' '] + lossy_text(quoted(words.last()))
    }
}

impl Cmd {
    /// The program followed by its arguments.
    pub open spec fn words(&self) -> Seq<Seq<u8>> {
        seq![self.program@] + words_view(self.args@)
    }

    /// The command as a line for a POSIX shell, every word quoted.
    pub fn as_shell_string(&self) -> (r: String)
        ensures
            r@ == shell_line(self.words()),
    {
        let mut line = sh_quote_lossy(&self.program);
        assert(self.words().take(1) =~= seq![self.program@]);
        let mut i: usize = 0;
        while i < self.args.len()
            invariant
                i <= self.args.len(),
                line@ == shell_line(self.words().take(i + 1)),
            decreases self.args.len() - i,
        {
            let word = sh_quote_lossy(&self.args[i]);
            let ghost before = line@;
            line.append(" ");
            line.append(word.as_str());
            proof {
                reveal_strlit(" ");
                let w = self.words().take(i + 2);
                assert(w.drop_last() =~= self.words().take(i + 1));
                assert(w.last() == self.args@[i as int]@);
                assert(line@ =~= before + seq![' '] + word@);
            }
            i = i + 1;
        }
        assert(self.words().take(i + 1) =~= self.words());
        line
    }
}

/// Pushes the bytes of `s` onto `args`.
fn push_text(args: &mut Vec<Vec<u8>>, s: &str)
    ensures
        words_view(final(args)@) == words_view(old(args)@).push(text(s)),
{
    args.push(text_bytes(s));
    assert(words_view(args@) =~= words_view(old(args)@).push(text(s)));
}

/// Pushes a copy of `w` onto `args`.
fn push_word(args: &mut Vec<Vec<u8>>, w: &Vec<u8>)
    ensures
        words_view(final(args)@) == words_view(old(args)@).push(w@),
{
    args.push(copy_bytes(w));
    assert(words_view(args@) =~= words_view(old(args)@).push(w@));
}

/// The command that opens a new tmux window in `start_dir` and runs `cmd`
/// there.
pub open spec fn tmux_words(start_dir: Seq<u8>, cmd: Cmd) -> Seq<Seq<u8>> {
    seq![text("new-window"), text("-c"), start_dir, cmd.program@] + words_view(cmd.args@)
}

/// Wraps `cmd` into a command that runs it in a new tmux window opened in
/// `start_dir`.
pub fn tmux_new_window_cmd(start_dir: &Vec<u8>, cmd: &Cmd) -> (r: Cmd)
    ensures
        r.program@ == text("tmux"),
        words_view(r.args@) == tmux_words(start_dir@, *cmd),
{
    let mut args: Vec<Vec<u8>> = Vec::new();
    push_text(&mut args, "new-window");
    push_text(&mut args, "-c");
    push_word(&mut args, start_dir);
    push_word(&mut args, &cmd.program);
    let ghost head = words_view(args@);
    let mut i: usize = 0;
    while i < cmd.args.len()
        invariant
            i <= cmd.args.len(),
            words_view(args@) == head + words_view(cmd.args@).take(i as int),
        decreases cmd.args.len() - i,
    {
        push_word(&mut args, &cmd.args[i]);
        i = i + 1;
        assert(words_view(args@) =~= head + words_view(cmd.args@).take(i as int));
    }
    assert(words_view(cmd.args@).take(i as int) =~= words_view(cmd.args@));
    Cmd { program: text_bytes("tmux"), args }
}

/// Name of the directory where a tool keeps its state.
pub const DOT_CODEX_DIR: &'static str = ".codex";

/// Name of a worktree's git directory, or of the file that points to it.
pub const DOT_GIT: &'static str = ".git";

/// The directories below the home directory that the sandbox may use.
pub open spec fn home_dirs(home: Seq<u8>) -> Seq<Seq<u8>> {
    seq![
        join(home, text(".cargo")),
        join(home, text(".rustup")),
        join(home, text("Library/Caches/Mozilla.sccache")),
        join(home, text(".npm")),
    ]
}

/// The directories that the sandbox is given where they exist, in order:
/// the session's state directory, those below the home directory (if one is
/// known), and two shared scratch directories.
pub open spec fn optional_dir_list(cwd: Seq<u8>, home: Option<Seq<u8>>) -> Seq<Seq<u8>> {
    seq![join(cwd, text(DOT_CODEX_DIR))] + (match home {
        Some(h) => home_dirs(h),
        None => Seq::empty(),
    }) + seq![text("/tmp"), text("/var/folders")]
}

/// The view of a byte string that may be absent.
pub open spec fn bytes_opt(b: Option<Vec<u8>>) -> Option<Seq<u8>> {
    match b {
        Some(v) => Some(v@),
        None => None,
    }
}

/// Pushes `rel` joined onto `base`.
fn push_joined(args: &mut Vec<Vec<u8>>, base: &Vec<u8>, rel: &str)
    ensures
        words_view(final(args)@) == words_view(old(args)@).push(join(base@, text(rel))),
{
    let r = text_bytes(rel);
    args.push(join_path(base, &r));
    assert(words_view(args@) =~= words_view(old(args)@).push(join(base@, text(rel))));
}

/// The directories to look for before building the command, as
/// `optional_dir_list` gives them.
pub fn optional_dirs(cwd: &Vec<u8>, home: &Option<Vec<u8>>) -> (r: Vec<Vec<u8>>)
    ensures
        words_view(r@) == optional_dir_list(cwd@, bytes_opt(*home)),
{
    let mut r: Vec<Vec<u8>> = Vec::new();
    push_joined(&mut r, cwd, DOT_CODEX_DIR);
    match home {
        Some(h) => {
            push_joined(&mut r, h, ".cargo");
            push_joined(&mut r, h, ".rustup");
            push_joined(&mut r, h, "Library/Caches/Mozilla.sccache");
            push_joined(&mut r, h, ".npm");
        },
        None => {},
    }
    push_text(&mut r, "/tmp");
    push_text(&mut r, "/var/folders");
    assert(words_view(r@) =~= optional_dir_list(cwd@, bytes_opt(*home)));
    r
}

/// What the filesystem says about the directories the command may be given.
pub struct SandboxProbes {
    /// The git directory of the repository, if it has one.
    pub repo_git_dir: Option<Vec<u8>>,
    /// The git directory of the session's working directory, if it has one.
    pub cwd_git_dir: Option<Vec<u8>>,
    /// For each of the optional directories, in order, whether it is a
    /// directory.
    pub is_dir: Vec<bool>,
}

/// The options that every resumed session runs with.
pub open spec fn codex_options() -> Seq<Seq<u8>> {
    seq![
        text("--search"),
        text("-a"),
        text("on-failure"),
        text("-s"),
        text("workspace-write"),
        text("--config"),
        text("model=gpt-5.2-codex"),
        text("--config"),
        text("model_reasoning_effort=high"),
        text("--config"),
        text("sandbox_workspace_write.network_access=true"),
    ]
}

/// The arguments that give the sandbox access to `dir`.
pub open spec fn add_dir(dir: Seq<u8>) -> Seq<Seq<u8>> {
    seq![text("--add-dir"), dir]
}

/// The arguments that give the sandbox access to `dir`, if there is one.
pub open spec fn add_dir_opt(dir: Option<Seq<u8>>) -> Seq<Seq<u8>> {
    match dir {
        Some(d) => add_dir(d),
        None => Seq::empty(),
    }
}

/// The arguments that give the sandbox access to those of `dirs` that
/// `present` marks as directories.
pub open spec fn add_present_dirs(dirs: Seq<Seq<u8>>, present: Seq<bool>) -> Seq<Seq<u8>>
    decreases dirs.len(),
{
    if dirs.len() == 0 {
        Seq::empty()
    } else {
        add_present_dirs(dirs.drop_last(), present.drop_last()) + if present[dirs.len() - 1] {
            add_dir(dirs.last())
        } else {
            Seq::empty()
        }
    }
}

/// The arguments of the command that resumes the session `id`, created in
/// `cwd`, with sandbox access to the repository, the state directory
/// `codexdir`, `cwd`, their git directories and the optional directories
/// that exist.
pub open spec fn codex_arg_list(
    repo: Seq<u8>,
    codexdir: Seq<u8>,
    cwd: Seq<u8>,
    id: Seq<u8>,
    home: Option<Seq<u8>>,
    repo_git_dir: Option<Seq<u8>>,
    cwd_git_dir: Option<Seq<u8>>,
    is_dir: Seq<bool>,
) -> Seq<Seq<u8>> {
    codex_options() + add_dir(repo) + add_dir_opt(repo_git_dir) + add_dir(codexdir) + add_dir(cwd)
        + seq![text("--cd"), cwd] + add_dir_opt(cwd_git_dir) + add_present_dirs(
        optional_dir_list(cwd, home),
        is_dir,
    ) + seq![text("resume"), id]
}

/// Pushes the arguments that give the sandbox access to `dir`.
fn push_add_dir(args: &mut Vec<Vec<u8>>, dir: &Vec<u8>)
    ensures
        words_view(final(args)@) == words_view(old(args)@) + add_dir(dir@),
{
    push_text(args, "--add-dir");
    push_word(args, dir);
    assert(words_view(args@) =~= words_view(old(args)@) + add_dir(dir@));
}

/// Pushes the arguments that give the sandbox access to `dir`, if there is
/// one.
fn push_add_dir_opt(args: &mut Vec<Vec<u8>>, dir: &Option<Vec<u8>>)
    ensures
        words_view(final(args)@) == words_view(old(args)@) + add_dir_opt(bytes_opt(*dir)),
{
    match dir {
        Some(d) => push_add_dir(args, d),
        None => {
            assert(words_view(args@) =~= words_view(old(args)@) + add_dir_opt(bytes_opt(*dir)));
        },
    }
}

/// Builds the command that resumes `session`, with sandbox access to `repo`,
/// to `codexdir`, to the session's directory, to their git directories and
/// to the optional directories that `probes` found.
pub fn build_codex_cmd(
    repo: &Vec<u8>,
    codexdir: &Vec<u8>,
    session: &Session,
    home: &Option<Vec<u8>>,
    probes: &SandboxProbes,
) -> (r: Cmd)
    requires
        probes.is_dir@.len() == optional_dir_list(encode_utf8(session.cwd@), bytes_opt(*home)).len(),
    ensures
        r.program@ == text("codex"),
        words_view(r.args@) == codex_arg_list(
            repo@,
            codexdir@,
            encode_utf8(session.cwd@),
            encode_utf8(session.id@),
            bytes_opt(*home),
            bytes_opt(probes.repo_git_dir),
            bytes_opt(probes.cwd_git_dir),
            probes.is_dir@,
        ),
{
    let cwd = session.cwd.as_str().as_bytes_vec();
    let id = session.id.as_str().as_bytes_vec();
    let mut args: Vec<Vec<u8>> = Vec::new();
    push_text(&mut args, "--search");
    push_text(&mut args, "-a");
    push_text(&mut args, "on-failure");
    push_text(&mut args, "-s");
    push_text(&mut args, "workspace-write");
    push_text(&mut args, "--config");
    push_text(&mut args, "model=gpt-5.2-codex");
    push_text(&mut args, "--config");
    push_text(&mut args, "model_reasoning_effort=high");
    push_text(&mut args, "--config");
    push_text(&mut args, "sandbox_workspace_write.network_access=true");
    assert(words_view(args@) =~= codex_options());

    push_add_dir(&mut args, repo);
    push_add_dir_opt(&mut args, &probes.repo_git_dir);
    push_add_dir(&mut args, codexdir);
    push_add_dir(&mut args, &cwd);
    push_text(&mut args, "--cd");
    push_word(&mut args, &cwd);
    push_add_dir_opt(&mut args, &probes.cwd_git_dir);

    let dirs = optional_dirs(&cwd, home);
    let ghost head = words_view(args@);
    let ghost dv = words_view(dirs@);
    let mut i: usize = 0;
    while i < dirs.len()
        invariant
            i <= dirs.len(),
            dv == words_view(dirs@),
            dirs@.len() == probes.is_dir@.len(),
            words_view(args@) == head + add_present_dirs(dv.take(i as int), probes.is_dir@.take(i as int)),
        decreases dirs.len() - i,
    {
        let ghost before = words_view(args@);
        if probes.is_dir[i] {
            push_add_dir(&mut args, &dirs[i]);
        }
        proof {
            let d = dv.take(i + 1);
            let p = probes.is_dir@.take(i + 1);
            assert(d.drop_last() =~= dv.take(i as int));
            assert(p.drop_last() =~= probes.is_dir@.take(i as int));
            assert(d.last() == dirs@[i as int]@);
            assert(p[d.len() - 1] == probes.is_dir@[i as int]);
            assert(words_view(args@) =~= head + add_present_dirs(d, p));
        }
        i = i + 1;
    }
    assert(dv.take(i as int) =~= dv);
    assert(probes.is_dir@.take(i as int) =~= probes.is_dir@);

    push_text(&mut args, "resume");
    push_word(&mut args, &id);
    assert(words_view(args@) =~= codex_arg_list(
        repo@,
        codexdir@,
        cwd@,
        id@,
        bytes_opt(*home),
        bytes_opt(probes.repo_git_dir),
        bytes_opt(probes.cwd_git_dir),
        probes.is_dir@,
    ));
    Cmd { program: text_bytes("codex"), args }
}

/// The text of `s` before its first newline.
pub open spec fn first_line(s: Seq<char>) -> Seq<char>
    decreases s.len(),
{
    if s.len() == 0 || s[0] == '\n' {
        Seq::empty()
    } else {
        seq![s[0]] + first_line(s.drop_first())
    }
}

/// The text that opens a gitfile's line.
pub open spec fn gitdir_prefix() -> Seq<char> {
    seq!['g', 'i', 't', 'd', 'i', 'r', ':']
}

/// The git directory that a gitfile's text names, as written: its first
/// line, trimmed, is `gitdir:` followed by a path that is not blank.
pub open spec fn gitdir_target(content: Seq<char>) -> Option<Seq<char>> {
    let line = trim(first_line(content));
    if line.len() >= 7 && line.take(7) == gitdir_prefix() && trim(line.skip(7)).len() > 0 {
        Some(trim(line.skip(7)))
    } else {
        None
    }
}

/// The git directory that a gitfile in `worktree` names, taken relative to
/// `worktree`.
pub open spec fn gitdir_from_text(worktree: Seq<u8>, content: Seq<char>) -> Option<Seq<u8>> {
    match gitdir_target(content) {
        Some(g) => Some(join(worktree, encode_utf8(g))),
        None => None,
    }
}

/// Reads the git directory out of the text of the gitfile of `worktree`.
pub fn git_dir_from_gitfile(worktree: &Vec<u8>, content: &str) -> (r: Option<Vec<u8>>)
    ensures
        bytes_opt(r) == gitdir_from_text(worktree@, content@),
{
    let n = content.unicode_len();
    let mut k: usize = 0;
    assert(content@.skip(0) =~= content@);
    while k < n && content.get_char(k) != '\n'
        invariant
            n == content@.len(),
            k <= n,
            first_line(content@) == content@.take(k as int) + first_line(content@.skip(k as int)),
        decreases n - k,
    {
        assert(content@.skip(k as int).drop_first() =~= content@.skip(k + 1));
        assert(content@.take(k + 1) =~= content@.take(k as int) + seq![content@[k as int]]);
        k = k + 1;
        assert(first_line(content@) =~= content@.take(k as int) + first_line(content@.skip(k as int)));
    }
    assert(first_line(content@) =~= content@.take(k as int));
    let line = trimmed(content.substring_char(0, k));
    let m = line.as_str().unicode_len();
    if m < 7 {
        return None;
    }
    let l = line.as_str();
    if !(l.get_char(0) == 'g' && l.get_char(1) == 'i' && l.get_char(2) == 't' && l.get_char(3)
        == 'd' && l.get_char(4) == 'i' && l.get_char(5) == 'r' && l.get_char(6) == ':') {
        proof {
            if line@.take(7) == gitdir_prefix() {
                assert(line@.take(7)[0] == line@[0]);
                assert(line@.take(7)[1] == line@[1]);
                assert(line@.take(7)[2] == line@[2]);
                assert(line@.take(7)[3] == line@[3]);
                assert(line@.take(7)[4] == line@[4]);
                assert(line@.take(7)[5] == line@[5]);
                assert(line@.take(7)[6] == line@[6]);
            }
        }
        return None;
    }
    assert(line@.take(7) =~= gitdir_prefix());
    let rest = l.substring_char(7, m);
    assert(rest@ =~= line@.skip(7));
    let target = trimmed(rest);
    if target.as_str().is_empty() {
        return None;
    }
    let bytes = target.as_str().as_bytes_vec();
    Some(join_path(worktree, &bytes))
}

/// What the filesystem holds at `.git` in a worktree, looked at without
/// following links.
pub enum DotGit {
    /// A directory: the git directory itself.
    Directory,
    /// A regular file, with its text, or `None` where it could not be read.
    File(Option<String>),
    /// Nothing, or something else.
    Other,
}

/// The git directory of `worktree`, given what its `.git` is: the `.git`
/// directory itself, or the directory that a `.git` file names.
pub open spec fn git_dir_of(worktree: Seq<u8>, dot_git: DotGit) -> Option<Seq<u8>> {
    match dot_git {
        DotGit::Directory => Some(join(worktree, text(DOT_GIT))),
        DotGit::File(Some(t)) => gitdir_from_text(worktree, t@),
        _ => None,
    }
}

/// The path of the `.git` entry of `worktree`.
pub fn dot_git_path(worktree: &Vec<u8>) -> (r: Vec<u8>)
    ensures
        r@ == join(worktree@, text(DOT_GIT)),
{
    let name = text_bytes(DOT_GIT);
    join_path(worktree, &name)
}

/// Finds the git directory of `worktree`, given what its `.git` is. Where a
/// `.git` file names it, it is used only if it is a directory, which the
/// caller checks.
pub fn git_dir_for_worktree(worktree: &Vec<u8>, dot_git: DotGit) -> (r: Option<Vec<u8>>)
    ensures
        bytes_opt(r) == git_dir_of(worktree@, dot_git),
{
    match dot_git {
        DotGit::Directory => Some(dot_git_path(worktree)),
        DotGit::File(Some(t)) => git_dir_from_gitfile(worktree, t.as_str()),
        _ => None,
    }
}

/// The exit status that stands for a failure.
pub const FAILURE: u8 = 1;

/// The exit status to pass on for a child's exit `code`: the code itself
/// where it fits in a byte, a failure otherwise (also when the child was
/// ended by a signal and has no code).
pub fn exit_code(code: Option<i32>) -> (r: u8)
    ensures
        r == (match code {
            Some(c) => if 0 <= c <= 255 {
                c as u8
            } else {
                FAILURE
            },
            None => FAILURE,
        }),
{
    match code {
        Some(c) => if 0 <= c && c <= 255 {
            c as u8
        } else {
            FAILURE
        },
        None => FAILURE,
    }
}

} // verus!
