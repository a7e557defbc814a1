//! The decisions of the `launchkeeper` command-line tool that do not need a
//! database or launchd: `--env` parsing, log tails, which commands need the
//! runner and where it is found, absolute paths, the `status` table, the
//! confirmations, and the field edits of `set`.

use vstd::prelude::*;

use crate::commands::{copy_opt, copy_strings};
use crate::env::{env_map, env_set, env_unset, unique_keys};
use crate::fmt::{exit_code, exit_code_text, join, uptime, uptime_text};
use crate::i18n::{line_piece, lines_of};
use crate::json::{LogsJson, log_stream};
use crate::model::{JobStatus, Run, Task};
use crate::paths::{join_path, joined, lexical_normalize, lexically_normal};
use crate::state::RUNNER_NAME;
use crate::text::{
    chars_of, copy_string, debug_text, dec, find_char, has_suffix, int_text, lemma_first_index_is,
    lower_seq, lowercased, push_char, push_chars, push_i64, push_str, push_u64, quoted_after,
    quoted_message, slice_vec, split_once, string_of, string_of_chars, trim, trimmed, vec_eq_str,
};
use crate::trigger_args::{duration_result, parse_duration, split_all, texts};

verus! {

/// The texts of a list of character vectors.
pub open spec fn views(vs: Seq<Vec<char>>) -> Seq<Seq<char>> {
    vs.map_values(|x: Vec<char>| x@)
}

/// `v` split at every `c`, empty pieces included: `str::split`.
pub fn split_chars(v: &Vec<char>, c: char) -> (r: Vec<Vec<char>>)
    ensures
        views(r@) == split_all(v@, c),
{
    let mut r: Vec<Vec<char>> = Vec::new();
    let mut p: usize = 0;
    assert(v@.subrange(0, v@.len() as int) =~= v@);
    assert(views(r@) =~= Seq::<Seq<char>>::empty());
    loop
        invariant
            p <= v@.len(),
            views(r@) + split_all(v@.subrange(p as int, v@.len() as int), c) == split_all(v@, c),
        decreases v@.len() - p,
    {
        let ghost rest = v@.subrange(p as int, v@.len() as int);
        let mut q = p;
        while q < v.len() && v[q] != c
            invariant
                p <= q <= v@.len(),
                forall|k: int| p <= k < q ==> v@[k] != c,
            decreases v@.len() - q,
        {
            q = q + 1;
        }
        proof {
            assert forall|k: int| 0 <= k < q - p implies rest[k] != c by {
                assert(rest[k] == v@[p + k]);
            }
            if q < v@.len() {
                assert(rest[q - p] == v@[q as int]);
            }
            lemma_first_index_is(rest, c, q - p);
        }
        let piece = slice_vec(v, p, q);
        let ghost before = views(r@);
        r.push(piece);
        assert(views(r@) =~= before.push(piece@));
        if q >= v.len() {
            assert(rest.subrange(0, rest.len() as int) =~= rest);
            assert(piece@ =~= rest);
            assert(split_all(rest, c) == seq![rest]);
            assert(views(r@) =~= before + split_all(rest, c));
            return r;
        }
        proof {
            assert(piece@ =~= rest.subrange(0, q - p));
            assert(rest.subrange(q - p + 1, rest.len() as int) =~= v@.subrange(
                q + 1,
                v@.len() as int,
            ));
            assert(split_all(rest, c) == seq![rest.subrange(0, q - p)] + split_all(
                rest.subrange(q - p + 1, rest.len() as int),
                c,
            ));
            assert(views(r@) + split_all(v@.subrange(q + 1, v@.len() as int), c) =~= before
                + split_all(rest, c));
        }
        p = q + 1;
    }
}

/// `str::lines` of `v`: split at `\n`, no final empty line, and a `\r`
/// right before a `\n` dropped with it.
pub fn lines_vec(v: &Vec<char>) -> (r: Vec<Vec<char>>)
    ensures
        views(r@) == lines_of(v@),
{
    let pieces = split_chars(v, '\n');
    let ghost ps = views(pieces@);
    proof {
        crate::text::lemma_first_index(v@, '\n');
    }
    assert(ps.len() >= 1) by {
        match crate::text::first_index(v@, '\n') {
            Some(i) => {
                assert(split_all(v@, '\n').len() >= 1);
            },
            None => {},
        }
    }
    let n = if pieces[pieces.len() - 1].len() == 0 {
        pieces.len() - 1
    } else {
        pieces.len()
    };
    assert(ps.last() == pieces@[pieces.len() - 1]@);
    let ghost want = lines_of(v@);
    assert(want.len() == n);
    let mut r: Vec<Vec<char>> = Vec::new();
    let mut i: usize = 0;
    while i < n
        invariant
            i <= n == want.len(),
            n <= pieces@.len(),
            ps == views(pieces@),
            ps == split_all(v@, '\n'),
            want == lines_of(v@),
            r@.len() == i,
            forall|j: int| 0 <= j < i ==> (#[trigger] r@[j])@ == line_piece(ps, j),
        decreases n - i,
    {
        let line = &pieces[i];
        let end = if i + 1 < pieces.len() && line.len() > 0 && line[line.len() - 1] == '\r' {
            line.len() - 1
        } else {
            line.len()
        };
        let l = slice_vec(line, 0, end);
        assert(l@ == line_piece(ps, i as int)) by {
            assert(ps[i as int] == line@);
            if i + 1 < pieces.len() && line@.len() > 0 && line@.last() == '\r' {
                assert(line@.drop_last() =~= l@);
            } else {
                assert(line@ =~= l@);
            }
        }
        r.push(l);
        i = i + 1;
    }
    assert(views(r@) =~= want) by {
        assert forall|j: int| 0 <= j < n implies views(r@)[j] == want[j] by {
            assert(r@[j]@ == line_piece(ps, j));
        }
    }
    r
}

/// What `logs --tail n` shows of `content`, and whether that cut anything:
/// the last `n` lines, joined by `\n`, with the final `\n` kept when the
/// content had one. `n == 0` shows nothing.
pub open spec fn tail_of(content: Seq<char>, n: nat) -> (Seq<char>, bool) {
    if n == 0 {
        (Seq::empty(), content.len() > 0)
    } else {
        let ls = lines_of(content);
        if ls.len() <= n {
            (content, false)
        } else {
            let body = join(ls.subrange(ls.len() - n, ls.len() as int), seq!['\n']);
            (
                if has_suffix(content, seq!['\n']) {
                    body.push('\n')
                } else {
                    body
                },
                true,
            )
        }
    }
}

/// [`tail_of`]: keeps only the last `n` lines of `content`, and says
/// whether it actually cut.
pub fn tail_lines(content: &str, n: usize) -> (r: (String, bool))
    ensures
        r.0@ == tail_of(content@, n as nat).0,
        r.1 == tail_of(content@, n as nat).1,
{
    let v = chars_of(content);
    if n == 0 {
        return (String::new(), v.len() > 0);
    }
    let lines = lines_vec(&v);
    let ghost ls = views(lines@);
    if lines.len() <= n {
        let mut s = String::new();
        push_chars(&mut s, &v);
        assert(s@ =~= content@);
        return (s, false);
    }
    let total = lines.len();
    let from = total - n;
    let ghost kept = ls.subrange(from as int, ls.len() as int);
    let mut s = String::new();
    let mut k: usize = 0;
    while k < n
        invariant
            k <= n,
            from + n == total,
            total == lines@.len(),
            ls == views(lines@),
            kept == ls.subrange(from as int, ls.len() as int),
            s@ == join(kept.subrange(0, k as int), seq!['\n']),
        decreases n - k,
    {
        let ghost before = kept.subrange(0, k as int);
        if k > 0 {
            push_char(&mut s, '\n');
        }
        push_chars(&mut s, &lines[from + k]);
        proof {
            let after = kept.subrange(0, k + 1);
            assert(kept[k as int] == lines@[from + k]@);
            assert(after.drop_last() =~= before);
            assert(after.last() == kept[k as int]);
            if k == 0 {
                assert(join(after, seq!['\n']) == after[0]);
                assert(s@ =~= after[0]);
            } else {
                assert(s@ =~= join(before, seq!['\n']) + seq!['\n'] + after.last());
            }
        }
        k = k + 1;
    }
    assert(kept.subrange(0, n as int) =~= kept);
    assert(s@ == join(kept, seq!['\n']));
    assert(lines_of(content@) == ls);
    assert(kept == lines_of(content@).subrange(lines_of(content@).len() - n, lines_of(content@).len() as int));
    let ends = v.len() > 0 && v[v.len() - 1] == '\n';
    assert(ends == has_suffix(content@, seq!['\n'])) by {
        assert(v@ == content@);
        if v@.len() >= 1 {
            let last = v@.subrange(v@.len() - 1, v@.len() as int);
            assert(last =~= seq![v@[v@.len() - 1]]);
            assert(last[0] == v@[v@.len() - 1]);
            assert(seq!['\n'][0] == '\n');
            if v@[v@.len() - 1] == '\n' {
                assert(last =~= seq!['\n']);
            }
        }
    }
    if ends {
        push_char(&mut s, '\n');
    }
    (s, true)
}

// ---------------------------------------------------------------------------
// `--env KEY=VALUE`
// ---------------------------------------------------------------------------

/// What `--env <s>` means: the text before the first `=` is the key, the
/// rest the value; no `=` or an empty key is refused.
pub open spec fn env_kv_of(s: Seq<char>) -> Result<(Seq<char>, Seq<char>), Seq<char>> {
    match split_once(s, '=') {
        None => Err("--env 格式错误: "@ + debug_text(s) + "，期望 KEY=VALUE"@),
        Some((k, v)) => if k.len() == 0 {
            Err("--env 键不能为空: "@ + debug_text(s))
        } else {
            Ok((k, v))
        },
    }
}

/// Parses one `--env KEY=VALUE`: [`env_kv_of`].
pub fn parse_env_kv(s: &str) -> (r: Result<(String, String), String>)
    ensures
        match (r, env_kv_of(s@)) {
            (Ok((k, v)), Ok((a, b))) => k@ == a && v@ == b,
            (Err(e), Err(m)) => e@ == m,
            _ => false,
        },
{
    let c = chars_of(s);
    let found = find_char(&c, '=');
    match found {
        None => Err(quoted_message("--env 格式错误: ", s, "，期望 KEY=VALUE")),
        Some(i) => {
            if i == 0 {
                return Err(quoted_after("--env 键不能为空: ", s));
            }
            let n = c.len();
            assert(i < n);
            let k = slice_vec(&c, 0, i);
            let v = slice_vec(&c, i + 1, n);
            Ok((string_of_chars(&k), string_of_chars(&v)))
        },
    }
}

// ---------------------------------------------------------------------------
// Which commands need the runner
// ---------------------------------------------------------------------------

/// The subcommands of `launchkeeper`.
#[derive(Debug, Clone, Copy, PartialEq, Eq, Structural)]
pub enum CmdKind {
    Add,
    SetFields,
    SetTrigger,
    List,
    Show,
    Enable,
    Disable,
    Remove,
    Run,
    Start,
    Stop,
    Restart,
    Logs,
    Runs,
    Plist,
    Status,
    Agents,
    Adopt,
    Unadopt,
    Interpreters,
    Completions,
    Explain,
    Docs,
    AiPrompt,
    Ai,
    Config,
}

/// The commands that write a plist (`add`, `set`, `set-trigger`, `enable`,
/// `plist`, `start`, `restart`, `adopt`, even with `--dry-run`) or exec the
/// runner (`run`). Everything else works where no runner is installed.
pub open spec fn runner_needed(cmd: CmdKind) -> bool {
    match cmd {
        CmdKind::Add | CmdKind::SetFields | CmdKind::SetTrigger | CmdKind::Enable | CmdKind::Plist
        | CmdKind::Run | CmdKind::Start | CmdKind::Restart | CmdKind::Adopt => true,
        _ => false,
    }
}

/// Whether `cmd` needs a runner binary: [`runner_needed`].
pub fn needs_runner(cmd: CmdKind) -> (b: bool)
    ensures
        b == runner_needed(cmd),
{
    match cmd {
        CmdKind::Add | CmdKind::SetFields | CmdKind::SetTrigger | CmdKind::Enable | CmdKind::Plist
        | CmdKind::Run | CmdKind::Start | CmdKind::Restart | CmdKind::Adopt => true,
        _ => false,
    }
}

// ---------------------------------------------------------------------------
// Where the CLI finds the runner
// ---------------------------------------------------------------------------

/// The installed-layout paths probed, in order, when nothing was named:
/// next to this executable, then `<exe dir>/../libexec/`.
pub open spec fn runner_candidates_of(exe_dir: Seq<char>) -> Seq<Seq<char>> {
    seq![
        joined(exe_dir, RUNNER_NAME@),
        joined(joined(joined(exe_dir, ".."@), "libexec"@), RUNNER_NAME@),
    ]
}

/// [`runner_candidates_of`] `exe_dir`.
pub fn runner_candidates(exe_dir: &str) -> (r: Vec<String>)
    ensures
        r@.len() == 2,
        r@[0]@ == runner_candidates_of(exe_dir@)[0],
        r@[1]@ == runner_candidates_of(exe_dir@)[1],
{
    let a = join_path(exe_dir, RUNNER_NAME);
    let up = join_path(exe_dir, "..");
    let lib = join_path(up.as_str(), "libexec");
    let b = join_path(lib.as_str(), RUNNER_NAME);
    let mut r: Vec<String> = Vec::new();
    r.push(a);
    r.push(b);
    r
}

/// The first of `cands` marked present in `present` (a missing mark counts
/// as absent).
pub open spec fn first_present(cands: Seq<Seq<char>>, present: Seq<bool>) -> Option<Seq<char>>
    decreases cands.len(),
{
    if cands.len() == 0 {
        None
    } else if present.len() > 0 && present[0] {
        Some(cands[0])
    } else {
        first_present(cands.drop_first(), if present.len() > 0 {
            present.drop_first()
        } else {
            present
        })
    }
}

/// `--runner` > a non-empty `LAUNCHKEEPER_RUNNER` > the first installed
/// layout that holds a runner. `explicit` and `env` are returned without
/// being probed, so a wrong explicit path is reported as that path.
/// `present[i]` says whether candidate `i` of [`runner_candidates_of`]
/// exists.
pub open spec fn runner_source_of(
    explicit: Option<Seq<char>>,
    env: Option<Seq<char>>,
    exe_dir: Seq<char>,
    present: Seq<bool>,
) -> Option<Seq<char>> {
    if explicit is Some {
        explicit
    } else if env is Some && env->0.len() > 0 {
        env
    } else {
        first_present(runner_candidates_of(exe_dir), present)
    }
}

/// [`runner_source_of`].
pub fn locate_runner_source(
    explicit: Option<&str>,
    env: Option<&str>,
    exe_dir: &str,
    present: &[bool],
) -> (r: Option<String>)
    ensures
        match (r, runner_source_of(
            crate::state::opt_view(explicit),
            crate::state::opt_view(env),
            exe_dir@,
            present@,
        )) {
            (Some(a), Some(b)) => a@ == b,
            (None, None) => true,
            _ => false,
        },
{
    if let Some(p) = explicit {
        return Some(string_of(p));
    }
    if let Some(p) = env {
        if chars_of(p).len() > 0 {
            return Some(string_of(p));
        }
    }
    let cands = runner_candidates(exe_dir);
    let ghost cs = runner_candidates_of(exe_dir@);
    proof {
        reveal_with_fuel(first_present, 3);
        assert(cs.drop_first() =~= seq![cs[1]]);
        assert(seq![cs[1]].drop_first() =~= Seq::<Seq<char>>::empty());
        if present@.len() > 0 {
            assert(present@.drop_first().len() > 0 ==> present@.drop_first()[0] == present@[1]);
        }
    }
    if present.len() > 0 && present[0] {
        return Some(copy_string(&cands[0]));
    }
    if present.len() > 1 && present[1] {
        return Some(copy_string(&cands[1]));
    }
    None
}

// ---------------------------------------------------------------------------
// `logs`
// ---------------------------------------------------------------------------

/// Which run `logs --last <last>` reads out of `runs` (newest first), or
/// why it cannot.
pub open spec fn log_run_of(runs: Seq<Run>, name: Seq<char>, last: nat) -> Result<Run, Seq<char>> {
    if last == 0 {
        Err("--last 必须 >= 1"@)
    } else if last > runs.len() {
        Err("任务 "@ + name + " 没有第 "@ + dec(last) + " 近的运行记录"@)
    } else {
        Ok(runs[last - 1])
    }
}

/// The run `logs --last <last>` reads: [`log_run_of`].
pub fn pick_log_run(runs: &Vec<Run>, name: &str, last: usize) -> (r: Result<usize, String>)
    ensures
        match (r, log_run_of(runs@, name@, last as nat)) {
            (Ok(i), Ok(run)) => i < runs@.len() && runs@[i as int] == run,
            (Err(e), Err(m)) => e@ == m,
            _ => false,
        },
{
    if last == 0 {
        return Err(string_of("--last 必须 >= 1"));
    }
    if last > runs.len() {
        let mut m = string_of("任务 ");
        push_str(&mut m, name);
        push_str(&mut m, " 没有第 ");
        push_u64(&mut m, last as u64);
        push_str(&mut m, " 近的运行记录");
        return Err(m);
    }
    Ok(last - 1)
}

/// The `logs --json` object for a run whose captured `content` was read
/// from the stdout or stderr file, cut by `--tail` when given.
pub open spec fn logs_json_of(run: Run, err: bool, content: Seq<char>, tail: Option<usize>, j: LogsJson) -> bool {
    &&& j.run_id == run.id
    &&& j.stream@ == (if err { "stderr"@ } else { "stdout"@ })
    &&& j.path@ == (if err { run.stderr_path@ } else { run.stdout_path@ })
    &&& match tail {
        Some(n) => j.content@ == tail_of(content, n as nat).0 && j.truncated == tail_of(content, n as nat).1,
        None => j.content@ == content && !j.truncated,
    }
}

/// [`logs_json_of`].
pub fn logs_json(run: &Run, err: bool, content: &str, tail: Option<usize>) -> (j: LogsJson)
    ensures
        logs_json_of(*run, err, content@, tail, j),
{
    let (shown, truncated) = match tail {
        Some(n) => tail_lines(content, n),
        None => (string_of(content), false),
    };
    LogsJson {
        run_id: run.id,
        stream: log_stream(err),
        path: if err {
            copy_string(&run.stderr_path)
        } else {
            copy_string(&run.stdout_path)
        },
        content: shown,
        truncated,
    }
}

// ---------------------------------------------------------------------------
// Confirmations and `status`
// ---------------------------------------------------------------------------

/// Whether an answer to a `[y/N]` question is a yes: `y` or `yes`, in any
/// case, surrounded by any white space.
pub open spec fn is_yes(answer: Seq<char>) -> bool {
    let a = lower_seq(trim(answer));
    a == "y"@ || a == "yes"@
}

/// [`is_yes`].
pub fn confirmed(answer: &str) -> (b: bool)
    ensures
        b == is_yes(answer@),
{
    let a = lowercased(&trimmed(&chars_of(answer)));
    vec_eq_str(&a, "y") || vec_eq_str(&a, "yes")
}

/// One row of the human `status` table: name, kind, enabled, loaded, pid,
/// uptime, launchd state, last result.
pub open spec fn status_row_of(
    name: Seq<char>,
    is_service: bool,
    enabled: bool,
    job: Option<JobStatus>,
    uptime_secs: Option<i64>,
    last: Option<Run>,
) -> Seq<Seq<char>> {
    seq![
        name,
        if is_service { "服务"@ } else { "定时"@ },
        if enabled { "✓"@ } else { "–"@ },
        if job is Some { "✓"@ } else { "–"@ },
        match job {
            Some(j) => match j.pid {
                Some(p) => dec(p as nat),
                None => "-"@,
            },
            None => "-"@,
        },
        match uptime_secs {
            Some(s) => uptime_text(if s < 0 { 0 } else { s as nat }),
            None => "-"@,
        },
        match job {
            Some(j) => j.state@,
            None => "-"@,
        },
        match last {
            Some(r) => "exit "@ + exit_code_text(r),
            None => "-"@,
        },
    ]
}

/// [`status_row_of`].
pub fn status_row(
    name: &str,
    is_service: bool,
    enabled: bool,
    job: Option<&JobStatus>,
    uptime_secs: Option<i64>,
    last: Option<&Run>,
) -> (r: Vec<String>)
    ensures
        texts(r@) == status_row_of(
            name@,
            is_service,
            enabled,
            match job {
                Some(j) => Some(*j),
                None => None,
            },
            uptime_secs,
            match last {
                Some(l) => Some(*l),
                None => None,
            },
        ),
{
    let mut r: Vec<String> = Vec::new();
    r.push(string_of(name));
    r.push(string_of(if is_service { "服务" } else { "定时" }));
    r.push(string_of(if enabled { "✓" } else { "–" }));
    r.push(string_of(if job.is_some() { "✓" } else { "–" }));
    let pid = match job {
        Some(j) => match j.pid {
            Some(p) => {
                let mut s = String::new();
                push_u64(&mut s, p as u64);
                assert(s@ =~= dec(p as nat));
                s
            },
            None => string_of("-"),
        },
        None => string_of("-"),
    };
    r.push(pid);
    r.push(
        match uptime_secs {
            Some(s) => uptime(s),
            None => string_of("-"),
        },
    );
    r.push(
        match job {
            Some(j) => copy_string(&j.state),
            None => string_of("-"),
        },
    );
    let last_text = match last {
        Some(run) => {
            let mut s = string_of("exit ");
            let c = exit_code(run);
            push_str(&mut s, c.as_str());
            s
        },
        None => string_of("-"),
    };
    r.push(last_text);
    assert(texts(r@) =~= status_row_of(
        name@,
        is_service,
        enabled,
        match job {
            Some(j) => Some(*j),
            None => None,
        },
        uptime_secs,
        match last {
            Some(l) => Some(*l),
            None => None,
        },
    ));
    r
}

/// The API key `ai key set` stores from what one line of stdin gave:
/// nothing read at all, or only white space, is refused.
pub open spec fn secret_of(read: usize, line: Seq<char>) -> Result<Seq<char>, Seq<char>> {
    if read == 0 {
        Err("没有从标准输入读到任何内容"@)
    } else if trim(line).len() == 0 {
        Err("API Key 不能为空"@)
    } else {
        Ok(trim(line))
    }
}

/// [`secret_of`]: `read` is how many bytes the line read returned.
pub fn secret_from_input(read: usize, line: &str) -> (r: Result<String, String>)
    ensures
        match (r, secret_of(read, line@)) {
            (Ok(k), Ok(t)) => k@ == t,
            (Err(e), Err(m)) => e@ == m,
            _ => false,
        },
{
    if read == 0 {
        return Err(string_of("没有从标准输入读到任何内容"));
    }
    let t = trimmed(&chars_of(line));
    if t.len() == 0 {
        Err(string_of("API Key 不能为空"))
    } else {
        Ok(string_of_chars(&t))
    }
}

// ---------------------------------------------------------------------------
// Turning off somebody else's LaunchAgent
// ---------------------------------------------------------------------------

/// Whether turning an external agent off turns off somebody else's
/// software: it is not Launchkeeper's own, and adoption was refused for a
/// reason (an Apple or Homebrew label, a program inside an app bundle, a
/// job launchd starts on events).
pub open spec fn foreign(managed: bool, refusal: Option<&str>) -> bool {
    !managed && refusal is Some
}

/// [`foreign`].
pub fn is_foreign_agent(managed: bool, refusal: Option<&str>) -> (b: bool)
    ensures
        b == foreign(managed, refusal),
{
    !managed && refusal.is_some()
}

/// The reason shown for a refusal, `不可接管` when none was given.
pub open spec fn reason_text(refusal: Option<&str>) -> Seq<char> {
    match refusal {
        Some(r) => r@,
        None => "不可接管"@,
    }
}

/// The warning `off <label>` prints before unloading a foreign agent.
pub open spec fn warning_text(label: Seq<char>, refusal: Option<&str>, path: Seq<char>) -> Seq<char> {
    "警告："@ + label + " 是别的软件自己装的 LaunchAgent（自动更新、云同步、后台助手一类），Launchkeeper 并没有接管它。\n不可接管的原因："@
        + reason_text(refusal)
        + "\n禁用它很可能让那个软件不再自动更新 / 不再同步，甚至直接不能用。\nplist 文件不会被改动（还在 "@
        + path + "），只是从 launchd 卸载；想恢复就执行 `launchkeeper on "@ + label + "`。"@
}

/// [`warning_text`].
pub fn foreign_disable_warning(label: &str, refusal: Option<&str>, path: &str) -> (w: String)
    ensures
        w@ == warning_text(label@, refusal, path@),
{
    let mut w = string_of("警告：");
    push_str(&mut w, label);
    push_str(
        &mut w,
        " 是别的软件自己装的 LaunchAgent（自动更新、云同步、后台助手一类），Launchkeeper 并没有接管它。\n不可接管的原因：",
    );
    push_str(
        &mut w,
        match refusal {
            Some(r) => r,
            None => "不可接管",
        },
    );
    push_str(
        &mut w,
        "\n禁用它很可能让那个软件不再自动更新 / 不再同步，甚至直接不能用。\nplist 文件不会被改动（还在 ",
    );
    push_str(&mut w, path);
    push_str(&mut w, "），只是从 launchd 卸载；想恢复就执行 `launchkeeper on ");
    push_str(&mut w, label);
    push_str(&mut w, "`。");
    w
}

/// What `off <label> --json` answers instead of asking, for a foreign
/// agent without `--yes`: a non-interactive caller never blocks on stdin.
pub open spec fn refusal_message(label: Seq<char>, refusal: Option<&str>) -> Seq<char> {
    label + " 不是 Launchkeeper 管理的任务，而是别的软件的 LaunchAgent（"@ + reason_text(refusal)
        + "）；--json 模式下禁用它必须加 --yes"@
}

/// [`refusal_message`].
pub fn foreign_disable_refusal(label: &str, refusal: Option<&str>) -> (m: String)
    ensures
        m@ == refusal_message(label@, refusal),
{
    let mut m = string_of(label);
    push_str(&mut m, " 不是 Launchkeeper 管理的任务，而是别的软件的 LaunchAgent（");
    push_str(
        &mut m,
        match refusal {
            Some(r) => r,
            None => "不可接管",
        },
    );
    push_str(&mut m, "）；--json 模式下禁用它必须加 --yes");
    m
}

/// One row of the human `list` table: name, trigger, enabled, and the
/// newest run as its local start time and exit code.
pub open spec fn list_row_of(
    name: Seq<char>,
    trigger_text: Seq<char>,
    enabled: bool,
    last: Option<(Seq<char>, Run)>,
) -> Seq<Seq<char>> {
    seq![
        name,
        trigger_text,
        if enabled { "✓"@ } else { "–"@ },
        match last {
            Some((started, r)) => started + " (exit "@ + exit_code_text(r) + ")"@,
            None => "-"@,
        },
    ]
}

/// [`list_row_of`]; `last` pairs the newest run with its start time as
/// the terminal shows it.
pub fn list_row(name: &str, trigger_text: &str, enabled: bool, last: Option<(&str, &Run)>) -> (r:
    Vec<String>)
    ensures
        texts(r@) == list_row_of(
            name@,
            trigger_text@,
            enabled,
            match last {
                Some((t, run)) => Some((t@, *run)),
                None => None,
            },
        ),
{
    let mut r: Vec<String> = Vec::new();
    r.push(string_of(name));
    r.push(string_of(trigger_text));
    r.push(string_of(if enabled { "✓" } else { "–" }));
    let last_text = match last {
        Some((started, run)) => {
            let mut s = string_of(started);
            push_str(&mut s, " (exit ");
            let c = exit_code(run);
            push_str(&mut s, c.as_str());
            push_str(&mut s, ")");
            s
        },
        None => string_of("-"),
    };
    r.push(last_text);
    assert(texts(r@) =~= list_row_of(
        name@,
        trigger_text@,
        enabled,
        match last {
            Some((t, run)) => Some((t@, *run)),
            None => None,
        },
    ));
    r
}

/// One row of the human `agents` table: label, trigger, loaded, pid, and
/// whether it can be adopted (or why not).
pub open spec fn agent_row_of(
    label: Seq<char>,
    trigger_text: Seq<char>,
    loaded: bool,
    pid: Option<u32>,
    refusal: Option<&str>,
) -> Seq<Seq<char>> {
    seq![
        label,
        trigger_text,
        if loaded { "✓"@ } else { "–"@ },
        match pid {
            Some(p) => dec(p as nat),
            None => "-"@,
        },
        match refusal {
            None => "可接管"@,
            Some(r) => "否："@ + r@,
        },
    ]
}

/// [`agent_row_of`].
pub fn agent_row(
    label: &str,
    trigger_text: &str,
    loaded: bool,
    pid: Option<u32>,
    refusal: Option<&str>,
) -> (r: Vec<String>)
    ensures
        texts(r@) == agent_row_of(label@, trigger_text@, loaded, pid, refusal),
{
    let mut r: Vec<String> = Vec::new();
    r.push(string_of(label));
    r.push(string_of(trigger_text));
    r.push(string_of(if loaded { "✓" } else { "–" }));
    let p = match pid {
        Some(p) => {
            let mut s = String::new();
            push_u64(&mut s, p as u64);
            assert(s@ =~= dec(p as nat));
            s
        },
        None => string_of("-"),
    };
    r.push(p);
    let verdict = match refusal {
        None => string_of("可接管"),
        Some(why) => {
            let mut s = string_of("否：");
            push_str(&mut s, why);
            s
        },
    };
    r.push(verdict);
    assert(texts(r@) =~= agent_row_of(label@, trigger_text@, loaded, pid, refusal));
    r
}

/// What `run <name>` says when the task is not loaded into launchd.
pub fn not_enabled_message(name: &str) -> (m: String)
    ensures
        m@ == "任务 "@ + name@ + " 未启用，无法通过 launchd 运行；用 --direct 直接跑，或先 `enable "@
            + name@ + "`"@,
{
    let mut m = string_of("任务 ");
    push_str(&mut m, name);
    push_str(&mut m, " 未启用，无法通过 launchd 运行；用 --direct 直接跑，或先 `enable ");
    push_str(&mut m, name);
    push_str(&mut m, "`");
    m
}

/// What `run <name> --direct --json` reports when the script failed.
pub fn direct_run_failure(code: i32) -> (m: String)
    ensures
        m@ == "脚本以退出码 "@ + int_text(code as int) + " 结束"@,
{
    let mut m = string_of("脚本以退出码 ");
    push_i64(&mut m, code as i64);
    push_str(&mut m, " 结束");
    m
}

// ---------------------------------------------------------------------------
// `set`: editing a task in place
// ---------------------------------------------------------------------------

/// `p` made absolute against the working directory `cwd` without
/// resolving symlinks: joined onto `cwd` unless it is absolute already,
/// then cleaned up lexically.
pub open spec fn absolute_from(p: Seq<char>, cwd: Seq<char>) -> Seq<char> {
    lexically_normal(joined(cwd, p))
}

/// [`absolute_from`]. A chosen symlink path (a stable `~/bin/task` pointing
/// at a versioned script) stays what it is, so a plist never outlives the
/// link.
pub fn absolute_path_from(p: &str, cwd: &str) -> (r: String)
    ensures
        r@ == absolute_from(p@, cwd@),
{
    let j = join_path(cwd, p);
    lexical_normalize(j.as_str())
}

/// The edits one `set` makes. Paths are already absolute; `script_path`
/// and `args` are what the run configuration becomes when the edit touches
/// it.
#[derive(Debug, Clone, PartialEq, Eq)]
pub struct SetEdits {
    pub display_name: Option<String>,
    pub description: Option<String>,
    pub working_dir: Option<String>,
    pub script_path: Option<String>,
    pub args: Option<Vec<String>>,
    /// `KEY=VALUE` pairs merged into the environment, in order.
    pub env: Vec<(String, String)>,
    /// Keys removed from the environment, after the merge.
    pub unset_env: Vec<String>,
    /// When non-empty, replaces the whole tag list.
    pub tags: Vec<String>,
    pub timeout: Option<String>,
    pub no_timeout: bool,
    pub favorite: bool,
    pub no_favorite: bool,
    pub notify: bool,
    pub no_notify: bool,
    pub keep_alive: bool,
    pub no_keep_alive: bool,
}

/// The text of an optional string.
pub open spec fn opt_text(o: Option<String>) -> Option<Seq<char>> {
    match o {
        Some(s) => Some(s@),
        None => None,
    }
}

/// `m` with each pair of `sets` merged in, in order.
pub open spec fn env_sets(m: Map<Seq<char>, Seq<char>>, sets: Seq<(String, String)>) -> Map<
    Seq<char>,
    Seq<char>,
>
    decreases sets.len(),
{
    if sets.len() == 0 {
        m
    } else {
        env_sets(m, sets.drop_last()).insert(sets.last().0@, sets.last().1@)
    }
}

/// `m` without the keys of `keys`.
pub open spec fn env_unsets(m: Map<Seq<char>, Seq<char>>, keys: Seq<String>) -> Map<
    Seq<char>,
    Seq<char>,
>
    decreases keys.len(),
{
    if keys.len() == 0 {
        m
    } else {
        env_unsets(m, keys.drop_last()).remove(keys.last()@)
    }
}

/// A switch with an on and an off flag: off wins, then on, else unchanged.
pub open spec fn switched(old: bool, on: bool, off: bool) -> bool {
    if off {
        false
    } else if on {
        true
    } else {
        old
    }
}

/// The timeout a `set` with a timeout text that parses leaves.
pub open spec fn new_timeout(old: Option<u32>, e: SetEdits) -> Option<u32> {
    if e.no_timeout {
        None
    } else {
        match e.timeout {
            Some(t) => match duration_result(t@) {
                Ok(v) => Some(v),
                Err(_) => old,
            },
            None => old,
        }
    }
}

/// The complaint about the timeout text, when it does not parse.
pub open spec fn timeout_error(e: SetEdits) -> Option<Seq<char>> {
    if e.no_timeout {
        None
    } else {
        match e.timeout {
            Some(t) => match duration_result(t@) {
                Err(m) => Some(m),
                Ok(_) => None,
            },
            None => None,
        }
    }
}

/// `t` is `old` with the edits `e` applied at `now_ms`: only what was
/// given changes.
pub open spec fn edited(old: Task, e: SetEdits, now_ms: i64, t: Task) -> bool {
    &&& t.name == old.name
    &&& t.display_name@ == (match e.display_name {
        Some(v) => v@,
        None => old.display_name@,
    })
    &&& opt_text(t.description) == (if e.description is Some {
        opt_text(e.description)
    } else {
        opt_text(old.description)
    })
    &&& opt_text(t.working_dir) == (if e.working_dir is Some {
        opt_text(e.working_dir)
    } else {
        opt_text(old.working_dir)
    })
    &&& t.script_path@ == (match e.script_path {
        Some(v) => v@,
        None => old.script_path@,
    })
    &&& texts(t.args@) == (match e.args {
        Some(v) => texts(v@),
        None => texts(old.args@),
    })
    &&& unique_keys(t.env@)
    &&& env_map(t.env@) == env_unsets(env_sets(env_map(old.env@), e.env@), e.unset_env@)
    &&& texts(t.tags@) == (if e.tags@.len() > 0 {
        texts(e.tags@)
    } else {
        texts(old.tags@)
    })
    &&& t.timeout_secs == new_timeout(old.timeout_secs, e)
    &&& t.favorite == switched(old.favorite, e.favorite, e.no_favorite)
    &&& t.notify_on_fail == switched(old.notify_on_fail, e.notify, e.no_notify)
    &&& t.keep_alive == switched(old.keep_alive, e.keep_alive, e.no_keep_alive)
    &&& t.trigger == old.trigger
    &&& t.created_at_ms == old.created_at_ms
    &&& t.updated_at_ms == now_ms
    &&& t.adopted == old.adopted
    &&& t.plist_path == old.plist_path
}

/// No flag of `set` given at all.
pub open spec fn no_edits(e: SetEdits) -> bool {
    &&& e.display_name is None
    &&& e.description is None
    &&& e.working_dir is None
    &&& e.script_path is None
    &&& e.args is None
    &&& e.env@.len() == 0
    &&& e.unset_env@.len() == 0
    &&& e.tags@.len() == 0
    &&& e.timeout is None
    &&& !e.no_timeout
    &&& !e.favorite
    &&& !e.no_favorite
    &&& !e.notify
    &&& !e.no_notify
    &&& !e.keep_alive
    &&& !e.no_keep_alive
}

/// Only flags that were given change anything: a `set` with none leaves
/// every field as it was but the update time.
pub proof fn an_empty_set_changes_only_the_update_time(old: Task, e: SetEdits, now_ms: i64, t: Task)
    requires
        no_edits(e),
        edited(old, e, now_ms, t),
    ensures
        t.name == old.name,
        t.display_name@ == old.display_name@,
        opt_text(t.description) == opt_text(old.description),
        opt_text(t.working_dir) == opt_text(old.working_dir),
        t.script_path@ == old.script_path@,
        texts(t.args@) == texts(old.args@),
        env_map(t.env@) == env_map(old.env@),
        texts(t.tags@) == texts(old.tags@),
        t.timeout_secs == old.timeout_secs,
        t.favorite == old.favorite,
        t.notify_on_fail == old.notify_on_fail,
        t.keep_alive == old.keep_alive,
        t.trigger == old.trigger,
        t.created_at_ms == old.created_at_ms,
        t.updated_at_ms == now_ms,
{
    assert(env_sets(env_map(old.env@), e.env@) == env_map(old.env@));
    assert(env_unsets(env_map(old.env@), e.unset_env@) == env_map(old.env@));
}

/// Replaces `s` with `with`, when given.
fn replace_text(s: &mut String, with: &Option<String>)
    ensures
        final(s)@ == (match with {
            Some(v) => v@,
            None => old(s)@,
        }),
{
    if let Some(v) = with {
        *s = copy_string(v);
    }
}

/// Replaces `s` with `with`, when given.
fn replace_opt(s: &mut Option<String>, with: &Option<String>)
    ensures
        opt_text(*final(s)) == (if with is Some {
            opt_text(*with)
        } else {
            opt_text(*old(s))
        }),
{
    if with.is_some() {
        *s = copy_opt(with);
    }
}

/// Replaces `v` with `with`, when given.
fn replace_list(v: &mut Vec<String>, with: &Option<Vec<String>>)
    ensures
        texts(final(v)@) == (match with {
            Some(w) => texts(w@),
            None => texts(old(v)@),
        }),
{
    if let Some(w) = with {
        *v = copy_strings(w);
    }
}

/// [`switched`].
fn switch(old: bool, on: bool, off: bool) -> (b: bool)
    ensures
        b == switched(old, on, off),
{
    if off {
        false
    } else if on {
        true
    } else {
        old
    }
}

/// Merges `sets` into the environment, in order, then removes `unsets`.
fn edit_env(env: &mut Vec<(String, String)>, sets: &Vec<(String, String)>, unsets: &Vec<String>)
    requires
        unique_keys(old(env)@),
    ensures
        unique_keys(final(env)@),
        env_map(final(env)@) == env_unsets(env_sets(env_map(old(env)@), sets@), unsets@),
{
    let ghost old_env = env@;
    let mut i: usize = 0;
    assert(sets@.take(0) =~= Seq::<(String, String)>::empty());
    while i < sets.len()
        invariant
            i <= sets@.len(),
            unique_keys(env@),
            env_map(env@) == env_sets(env_map(old_env), sets@.take(i as int)),
        decreases sets@.len() - i,
    {
        env_set(env, &sets[i].0, &sets[i].1);
        proof {
            let upto = sets@.take(i + 1);
            assert(upto.drop_last() =~= sets@.take(i as int));
            assert(upto.last() == sets@[i as int]);
        }
        i = i + 1;
    }
    assert(sets@.take(sets@.len() as int) =~= sets@);
    let ghost merged = env_map(env@);
    let mut j: usize = 0;
    assert(unsets@.take(0) =~= Seq::<String>::empty());
    while j < unsets.len()
        invariant
            j <= unsets@.len(),
            unique_keys(env@),
            env_map(env@) == env_unsets(merged, unsets@.take(j as int)),
        decreases unsets@.len() - j,
    {
        env_unset(env, &unsets[j]);
        proof {
            let upto = unsets@.take(j + 1);
            assert(upto.drop_last() =~= unsets@.take(j as int));
            assert(upto.last() == unsets@[j as int]);
        }
        j = j + 1;
    }
    assert(unsets@.take(unsets@.len() as int) =~= unsets@);
}

/// Applies the edits of `set` to `task`. When the timeout text does not
/// parse, the task is left as it was and the complaint returned.
pub fn apply_edits(task: &mut Task, e: &SetEdits, now_ms: i64) -> (r: Result<(), String>)
    requires
        unique_keys(old(task).env@),
    ensures
        timeout_error(*e) is Some ==> (r matches Err(m) && m@ == timeout_error(*e)->0
            && *final(task) == *old(task)),
        timeout_error(*e) is None ==> (r is Ok && edited(*old(task), *e, now_ms, *final(task))),
{
    let mut timeout = task.timeout_secs;
    if e.no_timeout {
        timeout = None;
    } else if let Some(t) = &e.timeout {
        match parse_duration(t.as_str()) {
            Ok(v) => timeout = Some(v),
            Err(m) => return Err(m),
        }
    }
    replace_text(&mut task.display_name, &e.display_name);
    replace_opt(&mut task.description, &e.description);
    replace_opt(&mut task.working_dir, &e.working_dir);
    replace_text(&mut task.script_path, &e.script_path);
    replace_list(&mut task.args, &e.args);
    let mut env: Vec<(String, String)> = Vec::new();
    std::mem::swap(&mut env, &mut task.env);
    edit_env(&mut env, &e.env, &e.unset_env);
    task.env = env;
    if e.tags.len() > 0 {
        task.tags = copy_strings(&e.tags);
    }
    task.timeout_secs = timeout;
    task.favorite = switch(task.favorite, e.favorite, e.no_favorite);
    task.notify_on_fail = switch(task.notify_on_fail, e.notify, e.no_notify);
    task.keep_alive = switch(task.keep_alive, e.keep_alive, e.no_keep_alive);
    task.updated_at_ms = now_ms;
    Ok(())
}

/// The `set` flags are switches, not toggles: an on-flag (`--notify`,
/// `--favorite`, `--keep-alive`) leaves its field on whatever it was, the
/// matching `--no-` flag leaves it off and wins when both are given, and a
/// field whose flags are both absent keeps its value.
pub proof fn set_flags_switch_rather_than_toggle(old: Task, e: SetEdits, now_ms: i64, t: Task)
    requires
        edited(old, e, now_ms, t),
    ensures
        e.no_notify ==> !t.notify_on_fail,
        e.notify && !e.no_notify ==> t.notify_on_fail,
        !e.notify && !e.no_notify ==> t.notify_on_fail == old.notify_on_fail,
        e.no_favorite ==> !t.favorite,
        e.favorite && !e.no_favorite ==> t.favorite,
        !e.favorite && !e.no_favorite ==> t.favorite == old.favorite,
        e.no_keep_alive ==> !t.keep_alive,
        e.keep_alive && !e.no_keep_alive ==> t.keep_alive,
        !e.keep_alive && !e.no_keep_alive ==> t.keep_alive == old.keep_alive,
{
}

} // verus!
