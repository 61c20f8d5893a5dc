//! Recognising the hook commands the application installs into the Codex configuration.
use vstd::prelude::*;

use crate::text::{
    chars_of, char_is_space, is_quote, is_space, lower_char, lower_seq, matches_at, occurs_at, push_char,
    quote_trim_bounds, seq_contains, trim_quote_back, trim_quote_front, string_of, text_contains, trim_quotes, vec_contains,
};

verus! {

/// `s` with every `/` turned into `\`.
pub open spec fn backslashed(s: Seq<char>) -> Seq<char> {
    s.map_values(|c: char| if c == '/' { '\\' } else { c })
}

/// A path as it is compared: outer quotes removed, `/` written as `\`, ASCII letters in lower
/// case.
pub open spec fn normalized_path(s: Seq<char>) -> Seq<char> {
    lower_seq(backslashed(trim_quotes(s)))
}

/// The argument that marks a command run by a Codex hook.
pub open spec fn hook_arg() -> Seq<char> {
    "--hook-event"@
}

/// The file name of the hook receiver script.
pub open spec fn hook_script_name() -> Seq<char> {
    "codextray-hook.ps1"@
}

/// The executable name of the application, in lower case.
pub open spec fn exe_name() -> Seq<char> {
    "codextray.exe"@
}

/// Whether the command names the executable `exe`.
pub open spec fn mentions_exe(command: Seq<char>, exe: Seq<char>) -> bool {
    seq_contains(normalized_path(command), normalized_path(exe))
}

/// Whether the command names the hook receiver script.
pub open spec fn mentions_hook_wrapper(command: Seq<char>) -> bool {
    seq_contains(normalized_path(command), hook_script_name())
}

/// Whether the command names an executable called `codextray.exe`.
pub open spec fn mentions_codextray_exe(command: Seq<char>) -> bool {
    seq_contains(normalized_path(command), exe_name())
}

/// Whether `s[i..j]` is a maximal run of non-white-space characters (a word of
/// `split_whitespace`).
pub open spec fn is_word(s: Seq<char>, i: int, j: int) -> bool {
    &&& 0 <= i < j <= s.len()
    &&& (i == 0 || is_space(s[i - 1]))
    &&& (j == s.len() || is_space(s[j]))
    &&& forall|k: int| i <= k < j ==> !is_space(#[trigger] s[k])
}

/// Whether one word of the command, without its quotes, is the hook argument.
pub open spec fn has_hook_arg_word(command: Seq<char>) -> bool {
    exists|i: int, j: int| is_word(command, i, j) && trim_quotes(command.subrange(i, j)) == hook_arg()
}

/// Whether the command is the hook command of the executable `exe`: it names `exe` and either
/// the receiver script or the hook argument.
pub open spec fn command_matches_exe(command: Seq<char>, exe: Seq<char>) -> bool {
    mentions_exe(command, exe) && (mentions_hook_wrapper(command) || has_hook_arg_word(command))
}

/// Whether the command is a hook command of any copy of the application.
pub open spec fn is_any_codextray_command(command: Seq<char>) -> bool {
    mentions_hook_wrapper(command) || (mentions_codextray_exe(command) && seq_contains(
        command,
        hook_arg(),
    ))
}

/// The characters of a path as it is compared (see [`normalized_path`]).
pub fn normalized_path_chars(value: &str) -> (r: Vec<char>)
    ensures
        r@ == normalized_path(value@),
{
    let v = chars_of(value);
    let (from, to) = quote_trim_bounds(&v, 0, v.len());
    assert(v@.subrange(0, v@.len() as int) =~= v@);
    let mut out: Vec<char> = Vec::new();
    let mut i: usize = from;
    while i < to
        invariant
            from <= i <= to <= v.len(),
            v@ == value@,
            v@.subrange(from as int, to as int) == trim_quotes(value@),
            out@ == normalized_path(value@).take(i - from),
        decreases to - i,
    {
        let c = v[i];
        let d = if c == '/' {
            '\\'
        } else {
            c
        };
        out.push(lower_char(d));
        i += 1;
        assert(out@ =~= normalized_path(value@).take(i - from));
    }
    assert(normalized_path(value@).take(to - from) =~= normalized_path(value@));
    out
}

/// The text of a path as it is compared (see [`normalized_path`]).
pub fn normalized_path_text(value: &str) -> (r: String)
    ensures
        r@ == normalized_path(value@),
{
    let v = normalized_path_chars(value);
    string_of(&v)
}

/// Whether the command names the executable `exe`.
pub fn command_mentions_current_exe(command: &str, exe: &str) -> (r: bool)
    ensures
        r == mentions_exe(command@, exe@),
{
    let c = normalized_path_chars(command);
    let e = normalized_path_chars(exe);
    vec_contains(&c, &e)
}

/// Whether the command names the hook receiver script.
pub fn command_mentions_hook_wrapper(command: &str) -> (r: bool)
    ensures
        r == mentions_hook_wrapper(command@),
{
    let c = normalized_path_chars(command);
    let n = chars_of("codextray-hook.ps1");
    vec_contains(&c, &n)
}

/// Whether the command names an executable called `codextray.exe`.
pub fn command_mentions_codextray_exe(command: &str) -> (r: bool)
    ensures
        r == mentions_codextray_exe(command@),
{
    let c = normalized_path_chars(command);
    let n = chars_of("codextray.exe");
    vec_contains(&c, &n)
}

/// Whether one word of the command, without its quotes, is the hook argument.
pub fn command_has_hook_arg_word(command: &str) -> (r: bool)
    ensures
        r == has_hook_arg_word(command@),
{
    let s = chars_of(command);
    let arg = chars_of("--hook-event");
    let n = s.len();
    let mut i: usize = 0;
    while i < n
        invariant
            n == s.len(),
            s@ == command@,
            arg@ == hook_arg(),
            i <= n,
            i == 0 || i == n || is_space(s@[i - 1]) || is_space(s@[i as int]),
            forall|a: int, b: int|
                is_word(s@, a, b) && a < i ==> trim_quotes(#[trigger] s@.subrange(a, b)) != hook_arg(),
            forall|a: int, b: int| #![trigger is_word(s@, a, b)]
                is_word(s@, a, b) && a < i ==> b <= i,
        decreases n - i,
    {
        if char_is_space(s[i]) {
            proof {
                assert forall|a: int, b: int| #![trigger is_word(s@, a, b)]
                    is_word(s@, a, b) && a < i + 1 implies b <= i + 1 && (a < i || !(a == i)) by {
                    if a == i {
                        assert(!is_space(s@[a]));
                    }
                }
            }
            i += 1;
        } else {
            let start = i;
            while i < n && !char_is_space(s[i])
                invariant
                    n == s.len(),
                    start <= i <= n,
                    forall|k: int| start <= k < i ==> !is_space(#[trigger] s@[k]),
                decreases n - i,
            {
                i += 1;
            }
            proof {
                // `start` begins a word: the character before it is white space (or none).
                assert(!is_space(s@[start as int]));
                assert(is_word(s@, start as int, i as int));
            }
            let (qa, qb) = quote_trim_bounds(&s, start, i);
            let word_is_arg = qb - qa == arg.len() && matches_at(&s, &arg, qa);
            proof {
                if qb - qa == arg.len() {
                    assert(s@.subrange(qa as int, qb as int) =~= s@.subrange(
                        qa as int,
                        qa + arg.len(),
                    ));
                }
            }
            if word_is_arg {
                return true;
            }
            proof {
                assert forall|a: int, b: int| #![trigger is_word(s@, a, b)]
                    is_word(s@, a, b) && a < i implies b <= i && trim_quotes(s@.subrange(a, b))
                    != hook_arg() by {
                    if a >= start {
                        if a > start {
                            assert(!is_space(s@[a - 1]));
                        }
                        assert(a == start);
                        if b < i {
                            assert(!is_space(s@[b]));
                        }
                        if b > i {
                            assert(i < n);
                            assert(is_space(s@[i as int]));
                        }
                        assert(b == i);
                    }
                }
            }
        }
    }
    proof {
        if has_hook_arg_word(command@) {
            let (a, b) = choose|a: int, b: int|
                is_word(command@, a, b) && trim_quotes(command@.subrange(a, b)) == hook_arg();
            assert(is_word(s@, a, b));
        }
    }
    false
}

/// Whether the command is the hook command of the executable `exe`.
pub fn command_matches_current_exe(command: &str, exe: &str) -> (r: bool)
    ensures
        r == command_matches_exe(command@, exe@),
{
    command_mentions_current_exe(command, exe) && (command_mentions_hook_wrapper(command)
        || command_has_hook_arg_word(command))
}

/// Whether the command is a hook command of any copy of the application.
pub fn command_is_any_codextray(command: &str) -> (r: bool)
    ensures
        r == is_any_codextray_command(command@),
{
    command_mentions_hook_wrapper(command) || (command_mentions_codextray_exe(command)
        && text_contains(command, "--hook-event"))
}

/// The hook command installed for the executable: PowerShell runs the receiver script with the
/// executable as argument; both paths are quoted for the shell of the platform.
pub open spec fn hook_command(script: Seq<char>, exe: Seq<char>, windows: bool) -> Seq<char> {
    "powershell.exe -NoLogo -NoProfile -NonInteractive -ExecutionPolicy Bypass -File "@
        + shell_quoted(script, windows) + " -Executable "@ + shell_quoted(exe, windows)
}

/// `s` with every occurrence of `c` replaced by `rep`.
pub open spec fn escape_char(s: Seq<char>, c: char, rep: Seq<char>) -> Seq<char>
    decreases s.len(),
{
    if s.len() == 0 {
        s
    } else if s.last() == c {
        escape_char(s.drop_last(), c, rep) + rep
    } else {
        escape_char(s.drop_last(), c, rep).push(s.last())
    }
}

/// A path quoted for the shell: in double quotes with `"` escaped on Windows, in single quotes
/// with `'` escaped elsewhere.
pub open spec fn shell_quoted(path: Seq<char>, windows: bool) -> Seq<char> {
    if windows {
        seq!['"'] + escape_char(path, '"', "\\\""@) + seq!['"']
    } else {
        seq!['\''] + escape_char(path, '\'', "'\\''"@) + seq!['\'']
    }
}

/// A path quoted for the shell (see [`shell_quoted`]).
pub fn shell_quoted_path(path: &str, windows: bool) -> (r: String)
    ensures
        r@ == shell_quoted(path@, windows),
{
    let v = chars_of(path);
    let quote = if windows {
        '"'
    } else {
        '\''
    };
    let rep = if windows {
        "\\\""
    } else {
        "'\\''"
    };
    let mut out = String::new();
    push_char(&mut out, quote);
    let mut i: usize = 0;
    while i < v.len()
        invariant
            v@ == path@,
            i <= v.len(),
            out@ == seq![quote] + escape_char(path@.take(i as int), quote, rep@),
        decreases v.len() - i,
    {
        assert(path@.take(i + 1).drop_last() =~= path@.take(i as int));
        if v[i] == quote {
            out.append(rep);
            assert(out@ =~= seq![quote] + escape_char(path@.take(i + 1), quote, rep@));
        } else {
            push_char(&mut out, v[i]);
            assert(out@ =~= seq![quote] + escape_char(path@.take(i + 1), quote, rep@));
        }
        i += 1;
    }
    assert(path@.take(v.len() as int) =~= path@);
    push_char(&mut out, quote);
    out
}

/// The hook command installed for the executable `exe` with receiver script `script`.
pub fn codextray_hook_command(script: &str, exe: &str, windows: bool) -> (r: String)
    ensures
        r@ == hook_command(script@, exe@, windows),
{
    let mut out = String::from_str(
        "powershell.exe -NoLogo -NoProfile -NonInteractive -ExecutionPolicy Bypass -File ",
    );
    let a = shell_quoted_path(script, windows);
    out.append(a.as_str());
    out.append(" -Executable ");
    let b = shell_quoted_path(exe, windows);
    out.append(b.as_str());
    out
}

/// Whether no character of `s` is a quote character.
pub open spec fn quote_free(s: Seq<char>) -> bool {
    forall|k: int| 0 <= k < s.len() ==> !is_quote(#[trigger] s[k])
}

proof fn lemma_escape_absent(s: Seq<char>, c: char, rep: Seq<char>)
    requires
        forall|k: int| 0 <= k < s.len() ==> #[trigger] s[k] != c,
    ensures
        escape_char(s, c, rep) == s,
    decreases s.len(),
{
    if s.len() > 0 {
        lemma_escape_absent(s.drop_last(), c, rep);
        assert(s.drop_last().push(s.last()) =~= s);
    }
}

proof fn lemma_trim_back_after(a: Seq<char>, b: Seq<char>)
    requires
        a.len() > 0,
        !is_quote(a.last()),
    ensures
        trim_quote_back(a + b) == a + trim_quote_back(b),
    decreases b.len(),
{
    if b.len() == 0 {
        assert(a + b =~= a);
        assert(a + trim_quote_back(b) =~= a);
    } else if is_quote(b.last()) {
        assert((a + b).drop_last() =~= a + b.drop_last());
        lemma_trim_back_after(a, b.drop_last());
    } else {
        assert((a + b).last() == b.last());
    }
}

proof fn lemma_trim_quote_free(s: Seq<char>)
    requires
        quote_free(s),
    ensures
        trim_quote_front(s) == s,
        trim_quote_back(s) == s,
{
    if s.len() > 0 {
        assert(!is_quote(s[0]));
        assert(!is_quote(s[s.len() - 1]));
    }
}

/// A match inside a part of `hay` is a match inside `hay`, after both are normalised.
proof fn lemma_contains_in_part(hay: Seq<char>, off: int, part: Seq<char>, x: Seq<char>)
    requires
        0 <= off,
        off + part.len() <= hay.len(),
        hay.subrange(off, off + part.len()) == part,
        seq_contains(lower_seq(backslashed(part)), x),
    ensures
        seq_contains(lower_seq(backslashed(hay)), x),
{
    let i = choose|i: int| occurs_at(lower_seq(backslashed(part)), x, i);
    let h = lower_seq(backslashed(hay));
    let p = lower_seq(backslashed(part));
    assert forall|k: int| 0 <= k < x.len() implies h[off + i + k] == x[k] by {
        assert(p.subrange(i, i + x.len())[k] == x[k]);
        assert(hay[off + i + k] == hay.subrange(off, off + part.len())[i + k]);
    }
    assert(h.subrange(off + i, off + i + x.len()) =~= x);
    assert(occurs_at(h, x, off + i));
}

/// A command that [`hook_command`] builds from a receiver script and an executable, both
/// free of quote characters, names that executable and the receiver script, provided the
/// script's path does.
pub proof fn lemma_built_command_recognised(script: Seq<char>, exe: Seq<char>, windows: bool)
    requires
        quote_free(script),
        quote_free(exe),
        seq_contains(normalized_path(script), hook_script_name()),
    ensures
        mentions_exe(hook_command(script, exe, windows), exe),
        mentions_hook_wrapper(hook_command(script, exe, windows)),
{
    let q = if windows { '"' } else { '\'' };
    let rep: Seq<char> = if windows { "\\\""@ } else { "'\\''"@ };
    lemma_escape_absent(script, q, rep);
    lemma_escape_absent(exe, q, rep);
    lemma_trim_quote_free(script);
    lemma_trim_quote_free(exe);
    let pre = "powershell.exe -NoLogo -NoProfile -NonInteractive -ExecutionPolicy Bypass -File "@;
    let mid = " -Executable "@;
    reveal_strlit("powershell.exe -NoLogo -NoProfile -NonInteractive -ExecutionPolicy Bypass -File ");
    reveal_strlit(" -Executable ");
    let a = pre + seq![q] + script + seq![q] + mid;
    let b = seq![q] + exe + seq![q];
    let c = hook_command(script, exe, windows);
    let sp: int = pre.len() as int + 1;
    assert(c =~= a + b);
    assert(a.last() == ' ');
    assert(c[0] == 'p');
    assert(trim_quote_front(c) == c);
    lemma_trim_back_after(a, b);
    let t = trim_quote_back(b);
    assert(b.drop_last() =~= seq![q] + exe);
    if exe.len() > 0 {
        assert((seq![q] + exe).last() == exe.last());
        assert(!is_quote(exe[exe.len() - 1]));
        assert(is_quote(b.last()));
        assert(t == trim_quote_back(b.drop_last()));
        assert(t == seq![q] + exe);
        let tc = a + t;
        let ea: int = a.len() as int + 1;
        assert(tc.subrange(ea, ea + exe.len()) =~= exe);
        assert(trim_quotes(exe) == exe);
        let ne = lower_seq(backslashed(exe));
        assert(ne.subrange(0, ne.len() as int) =~= ne);
        assert(occurs_at(ne, normalized_path(exe), 0));
        lemma_contains_in_part(tc, ea, exe, normalized_path(exe));
        assert(tc.subrange(sp, sp + script.len()) =~= script);
        lemma_contains_in_part(tc, sp, script, hook_script_name());
    } else {
        let tc = a + t;
        assert(trim_quotes(exe) == exe);
        assert(normalized_path(c).subrange(0, 0) =~= normalized_path(exe));
        assert(occurs_at(normalized_path(c), normalized_path(exe), 0));
        assert(tc.subrange(sp, sp + script.len()) =~= script);
        lemma_contains_in_part(tc, sp, script, hook_script_name());
    }
}

} // verus!
