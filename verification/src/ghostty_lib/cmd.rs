//! Shell quoting and the command lines used to run commands locally or over SSH.
use vstd::prelude::*;

use crate::ghostty_lib::remote::{RemoteConfig, ssh_target_of};
use crate::ghostty_lib::worktree::single_quoted;
use crate::text::{
    append_chars, chars_of, join, join_strings, replace_char, replace_char_chars, str_views,
    string_of, trim, trim_chars,
};

verus! {

/// `char::is_alphanumeric`: the Unicode `Alphabetic` or `Numeric` property.
pub uninterp spec fn unicode_alphanumeric(c: char) -> bool;

/// An ASCII letter or digit.
pub open spec fn ascii_alphanumeric(c: char) -> bool {
    ('a' <= c <= 'z') || ('A' <= c <= 'Z') || ('0' <= c <= '9')
}

/// Calls `char::is_alphanumeric`; its result is named by
/// `unicode_alphanumeric`. Among ASCII characters the Unicode `Alphabetic`
/// and `Numeric` properties hold exactly of the letters and digits.
#[verifier::external_body]
fn char_is_alphanumeric(c: char) -> (b: bool)
    ensures
        b == unicode_alphanumeric(c),
        c <= '\x7f' ==> (b == ascii_alphanumeric(c)),
{
    c.is_alphanumeric()
}

/// A character that needs no quoting for the shell: alphanumeric or one of `- _ / . :`.
pub open spec fn is_plain_char(c: char) -> bool {
    unicode_alphanumeric(c) || c == '-' || c == '_' || c == '/' || c == '.' || c == ':'
}

/// Every character of `s` needs no quoting.
pub open spec fn is_plain_word(s: Seq<char>) -> bool {
    forall|i: int| 0 <= i < s.len() ==> is_plain_char(#[trigger] s[i])
}

/// Every character of `s` is ASCII.
pub open spec fn ascii_text(s: Seq<char>) -> bool {
    forall|i: int| 0 <= i < s.len() ==> s[i] <= '\x7f'
}

/// An ASCII character that needs no quoting: an ASCII letter or digit, or
/// one of `- _ / . :`.
pub open spec fn ascii_plain_char(c: char) -> bool {
    ascii_alphanumeric(c) || c == '-' || c == '_' || c == '/' || c == '.' || c == ':'
}

/// Every character of `s` is an ASCII character that needs no quoting.
pub open spec fn ascii_plain_word(s: Seq<char>) -> bool {
    forall|i: int| 0 <= i < s.len() ==> ascii_plain_char(#[trigger] s[i])
}

/// `s` as one shell word: unchanged when `plain`, else single-quoted with
/// inner single quotes written `'\''`.
pub open spec fn shell_word(s: Seq<char>, plain: bool) -> Seq<char> {
    if plain {
        s
    } else {
        single_quoted(s)
    }
}

/// Where a POSIX shell is while reading a word: outside quotes, inside
/// single quotes, or just after a backslash outside quotes.
pub enum ShellState {
    Bare,
    Quoted,
    Escaped,
}

/// The text a POSIX shell reads from the word characters `s`, starting in
/// state `st`, with the state it ends in. Outside quotes `'` opens a quote
/// and `\\` takes the next character literally; inside quotes every
/// character but `'` is literal and `'` closes the quote. (Only the
/// characters that quoting produces, and plain characters, are modelled.)
pub open spec fn shell_read(s: Seq<char>, st: ShellState) -> (Seq<char>, ShellState)
    decreases s.len(),
{
    if s.len() == 0 {
        (Seq::empty(), st)
    } else {
        let c = s[0];
        let rest = s.drop_first();
        match st {
            ShellState::Bare => if c == '\'' {
                shell_read(rest, ShellState::Quoted)
            } else if c == '\\' {
                shell_read(rest, ShellState::Escaped)
            } else {
                let r = shell_read(rest, ShellState::Bare);
                (seq![c] + r.0, r.1)
            },
            ShellState::Quoted => if c == '\'' {
                shell_read(rest, ShellState::Bare)
            } else {
                let r = shell_read(rest, ShellState::Quoted);
                (seq![c] + r.0, r.1)
            },
            ShellState::Escaped => {
                let r = shell_read(rest, ShellState::Bare);
                (seq![c] + r.0, r.1)
            },
        }
    }
}

/// Reading a concatenation reads one part, then the other from where the
/// first left off.
pub proof fn lemma_shell_read_concat(a: Seq<char>, b: Seq<char>, st: ShellState)
    ensures
        shell_read(a + b, st) == ({
            let ra = shell_read(a, st);
            let rb = shell_read(b, ra.1);
            (ra.0 + rb.0, rb.1)
        }),
    decreases a.len(),
{
    if a.len() == 0 {
        assert(a + b =~= b);
    } else {
        assert((a + b).drop_first() =~= a.drop_first() + b);
        assert((a + b)[0] == a[0]);
        let next = match st {
            ShellState::Bare => if a[0] == '\'' {
                ShellState::Quoted
            } else if a[0] == '\\' {
                ShellState::Escaped
            } else {
                ShellState::Bare
            },
            ShellState::Quoted => if a[0] == '\'' {
                ShellState::Bare
            } else {
                ShellState::Quoted
            },
            ShellState::Escaped => ShellState::Bare,
        };
        lemma_shell_read_concat(a.drop_first(), b, next);
        let ra = shell_read(a.drop_first(), next);
        let rb = shell_read(b, ra.1);
        assert(seq![a[0]] + ra.0 + rb.0 =~= seq![a[0]] + (ra.0 + rb.0));
    }
}

/// Inside single quotes, the escaped text reads as the text itself and
/// leaves the quote open.
pub proof fn lemma_read_single_escaped(s: Seq<char>)
    ensures
        shell_read(replace_char(s, '\'', "'\\''"@), ShellState::Quoted) == (s, ShellState::Quoted),
    decreases s.len(),
{
    reveal_strlit("'\\''");
    if s.len() > 0 {
        let pre = s.drop_last();
        lemma_read_single_escaped(pre);
        let piece = if s.last() == '\'' {
            "'\\''"@
        } else {
            seq![s.last()]
        };
        lemma_shell_read_concat(replace_char(pre, '\'', "'\\''"@), piece, ShellState::Quoted);
        if s.last() == '\'' {
            let q = "'\\''"@;
            let q3 = seq!['\''];
            let q2 = seq!['\'', '\''];
            let q1 = seq!['\\', '\'', '\''];
            assert(q =~= seq!['\'', '\\', '\'', '\'']);
            assert(q.drop_first() =~= q1);
            assert(q1.drop_first() =~= q2);
            assert(q2.drop_first() =~= q3);
            assert(q3.drop_first() =~= Seq::<char>::empty());
            assert(shell_read(Seq::<char>::empty(), ShellState::Quoted) == (Seq::<char>::empty(), ShellState::Quoted));
            assert(shell_read(q3, ShellState::Bare) == (Seq::<char>::empty(), ShellState::Quoted));
            assert(shell_read(q2, ShellState::Escaped) == (seq!['\''], ShellState::Quoted)) by {
                assert(seq!['\''] + Seq::<char>::empty() =~= seq!['\'']);
            }
            assert(shell_read(q1, ShellState::Bare) == (seq!['\''], ShellState::Quoted));
            assert(shell_read(q, ShellState::Quoted) == (seq!['\''], ShellState::Quoted));
        } else {
            assert(seq![s.last()].drop_first() =~= Seq::<char>::empty());
            assert(shell_read(Seq::<char>::empty(), ShellState::Quoted) == (Seq::<char>::empty(), ShellState::Quoted));
            assert(seq![s.last()] + Seq::<char>::empty() =~= seq![s.last()]);
            assert(shell_read(seq![s.last()], ShellState::Quoted) == (seq![s.last()], ShellState::Quoted));
        }
        assert(pre + seq![s.last()] =~= s);
        assert(replace_char(s, '\'', "'\\''"@) == replace_char(pre, '\'', "'\\''"@) + piece);
    } else {
        assert(replace_char(s, '\'', "'\\''"@) =~= Seq::<char>::empty());
    }
}

/// Plain characters read as themselves outside quotes.
proof fn lemma_read_plain(s: Seq<char>)
    requires
        is_plain_word(s),
        !unicode_alphanumeric('\''),
        !unicode_alphanumeric('\\'),
    ensures
        shell_read(s, ShellState::Bare) == (s, ShellState::Bare),
    decreases s.len(),
{
    if s.len() > 0 {
        assert(is_plain_char(s[0]));
        assert(is_plain_word(s.drop_first()));
        lemma_read_plain(s.drop_first());
        assert(s =~= seq![s[0]] + s.drop_first());
    } else {
        assert(s =~= Seq::<char>::empty());
    }
}

/// The shell word for `s`.
pub open spec fn shell_escaped(s: Seq<char>) -> Seq<char> {
    shell_word(s, is_plain_word(s))
}

/// Whether every character of `s` needs no quoting.
/// Among ASCII text, exactly the ASCII letters and digits and `- _ / . :`
/// need no quoting.
pub fn plain_word(s: &str) -> (b: bool)
    ensures
        b == is_plain_word(s@),
        ascii_text(s@) ==> (b == ascii_plain_word(s@)),
{
    let v = chars_of(s);
    let mut i: usize = 0;
    while i < v.len()
        invariant
            i <= v.len(),
            v@ == s@,
            forall|j: int| 0 <= j < i ==> is_plain_char(#[trigger] s@[j]),
            ascii_text(s@) ==> forall|j: int| 0 <= j < i ==> ascii_plain_char(#[trigger] s@[j]),
        decreases v.len() - i,
    {
        let c = v[i];
        if !(char_is_alphanumeric(c) || c == '-' || c == '_' || c == '/' || c == '.' || c == ':') {
            assert(!is_plain_char(s@[i as int]));
            assert(ascii_text(s@) ==> !ascii_plain_char(s@[i as int]));
            return false;
        }
        assert(ascii_text(s@) ==> ascii_plain_char(s@[i as int]));
        i = i + 1;
    }
    true
}

/// `s` as one shell word given whether it needs quoting (`plain` = it does not).
pub fn shell_quote(s: &str, plain: bool) -> (r: String)
    ensures
        r@ == shell_word(s@, plain),
{
    if plain {
        String::from_str(s)
    } else {
        let v = chars_of(s);
        let e = replace_char_chars(&v, '\'', &chars_of("'\\''"));
        let mut r = String::from_str("'");
        append_chars(&mut r, &e);
        r.append("'");
        r
    }
}

/// The shell reads `shell_escape(s)` back as exactly `s`, as one word that
/// ends outside quotes; `'` and `\\` are not alphanumeric, so a word
/// holding them is always quoted. (`plain_word` on `"'"` and on `"\\"`
/// establishes both conditions: they are ASCII and not plain.)
pub proof fn law_shell_escape_reads_back(s: Seq<char>)
    requires
        !unicode_alphanumeric('\''),
        !unicode_alphanumeric('\\'),
    ensures
        shell_read(shell_escaped(s), ShellState::Bare) == (s, ShellState::Bare),
{
    if is_plain_word(s) {
        assert forall|i: int| 0 <= i < s.len() implies s[i] != '\'' && s[i] != '\\' by {
            assert(is_plain_char(s[i]));
        }
        lemma_read_plain(s);
    } else {
        law_single_quoted_reads_back(s);
    }
}

/// The shell reads the single-quoted form of `s` back as exactly `s`.
pub proof fn law_single_quoted_reads_back(s: Seq<char>)
    ensures
        shell_read(single_quoted(s), ShellState::Bare) == (s, ShellState::Bare),
{
    reveal_strlit("'");
    let body = replace_char(s, '\'', "'\\''"@);
    lemma_read_single_escaped(s);
    assert(single_quoted(s) =~= seq!['\''] + (body + seq!['\'']));
    lemma_shell_read_concat(seq!['\''], body + seq!['\''], ShellState::Bare);
    lemma_shell_read_concat(body, seq!['\''], ShellState::Quoted);
    assert(seq!['\''].drop_first() =~= Seq::<char>::empty());
    assert(shell_read(Seq::<char>::empty(), ShellState::Bare) == (Seq::<char>::empty(), ShellState::Bare));
    assert(shell_read(seq!['\''], ShellState::Quoted) == (Seq::<char>::empty(), ShellState::Bare));
    assert(shell_read(Seq::<char>::empty(), ShellState::Quoted) == (Seq::<char>::empty(), ShellState::Quoted));
    assert(shell_read(seq!['\''], ShellState::Bare) == (Seq::<char>::empty(), ShellState::Quoted));
    assert(s + Seq::<char>::empty() =~= s);
    assert(Seq::<char>::empty() + s =~= s);
}

/// Quotes `s` for the shell unless it is made only of safe characters.
pub fn shell_escape(s: &str) -> (r: String)
    ensures
        r@ == shell_escaped(s@),
        ascii_text(s@) ==> r@ == shell_word(s@, ascii_plain_word(s@)),
{
    let plain = plain_word(s);
    shell_quote(s, plain)
}

/// A command line: each argument as a shell word, separated by spaces.
pub open spec fn shell_joined(args: Seq<Seq<char>>) -> Seq<char> {
    join(args.map_values(|a: Seq<char>| shell_escaped(a)), " "@)
}

/// A command line of ASCII arguments: each argument as a shell word, left
/// bare exactly when it is made of ASCII letters, digits and `- _ / . :`.
pub open spec fn ascii_shell_joined(args: Seq<Seq<char>>) -> Seq<char> {
    join(args.map_values(|a: Seq<char>| shell_word(a, ascii_plain_word(a))), " "@)
}

/// Joins arguments into one shell command line.
pub fn shell_join(args: &Vec<String>) -> (r: String)
    ensures
        r@ == shell_joined(str_views(args@)),
        (forall|k: int| 0 <= k < args@.len() ==> ascii_text(#[trigger] args@[k]@)) ==> r@
            == ascii_shell_joined(str_views(args@)),
{
    let mut words: Vec<String> = Vec::new();
    let mut i: usize = 0;
    while i < args.len()
        invariant
            i <= args.len(),
            words@.len() == i,
            forall|k: int| 0 <= k < i ==> #[trigger] words@[k]@ == shell_escaped(args@[k]@),
            forall|k: int|
                0 <= k < i ==> ascii_text(args@[k]@) ==> #[trigger] words@[k]@ == shell_word(
                    args@[k]@,
                    ascii_plain_word(args@[k]@),
                ),
        decreases args.len() - i,
    {
        words.push(shell_escape(args[i].as_str()));
        i = i + 1;
    }
    assert(str_views(words@) =~= str_views(args@).map_values(|a: Seq<char>| shell_escaped(a)));
    proof {
        if forall|k: int| 0 <= k < args@.len() ==> ascii_text(#[trigger] args@[k]@) {
            assert(str_views(words@) =~= str_views(args@).map_values(
                |a: Seq<char>| shell_word(a, ascii_plain_word(a)),
            ));
        }
    }
    join_strings(&words, " ")
}

/// `target` with `@` and `.` replaced by `_`.
pub open spec fn socket_tag(target: Seq<char>) -> Seq<char> {
    replace_char(replace_char(target, '@', "_"@), '.', "_"@)
}

/// SSH ControlMaster socket path for connection multiplexing, under the
/// temporary directory `tmp`.
pub open spec fn control_path(tmp: Seq<char>, target: Seq<char>) -> Seq<char> {
    tmp + "/ghostreelite-ssh-"@ + socket_tag(target)
}

/// SSH ControlMaster socket path for connection multiplexing.
/// All SSH calls reuse a single connection per host.
pub fn ssh_control_path(tmp: &str, target: &str) -> (r: String)
    ensures
        r@ == control_path(tmp@, target@),
{
    let t = chars_of(target);
    let underscore = chars_of("_");
    let a = replace_char_chars(&t, '@', &underscore);
    let b = replace_char_chars(&a, '.', &underscore);
    let mut r = String::from_str(tmp);
    r.append("/ghostreelite-ssh-");
    append_chars(&mut r, &b);
    r
}

/// The SSH options for connection multiplexing.
pub open spec fn mux_args(tmp: Seq<char>, target: Seq<char>) -> Seq<Seq<char>> {
    seq![
        "-o"@,
        "ControlMaster=auto"@,
        "-o"@,
        "ControlPath="@ + control_path(tmp, target),
        "-o"@,
        "ControlPersist=60"@,
        "-o"@,
        "ConnectTimeout=5"@,
    ]
}

/// Common SSH args for multiplexing.
pub fn ssh_mux_args(tmp: &str, target: &str) -> (r: Vec<String>)
    ensures
        str_views(r@) == mux_args(tmp@, target@),
{
    let ctl = ssh_control_path(tmp, target);
    let mut path_opt = String::from_str("ControlPath=");
    path_opt.append(ctl.as_str());
    let mut v: Vec<String> = Vec::new();
    v.push(String::from_str("-o"));
    v.push(String::from_str("ControlMaster=auto"));
    v.push(String::from_str("-o"));
    v.push(path_opt);
    v.push(String::from_str("-o"));
    v.push(String::from_str("ControlPersist=60"));
    v.push(String::from_str("-o"));
    v.push(String::from_str("ConnectTimeout=5"));
    assert(str_views(v@) =~= mux_args(tmp@, target@));
    v
}

/// The program and arguments that run `args`: over SSH (with multiplexing) as
/// one shell command line when `remote` is given, else directly; `None` for an
/// empty local command.
pub open spec fn command_line_of(args: Seq<Seq<char>>, remote: Option<crate::ghostty_lib::remote::RemoteView>, tmp: Seq<char>) -> Option<Seq<Seq<char>>> {
    match remote {
        Some(r) => Some(
            seq!["ssh"@] + mux_args(tmp, ssh_target_of(r)) + seq![ssh_target_of(r), shell_joined(args)],
        ),
        None => if args.len() == 0 {
            None
        } else {
            Some(args)
        },
    }
}

/// The command line with which a command runs, capturing its output.
pub fn command_line(args: &Vec<String>, remote: Option<&RemoteConfig>, tmp: &str) -> (r: Option<Vec<String>>)
    ensures
        match r {
            Some(v) => command_line_of(
                str_views(args@),
                match remote {
                    Some(rc) => Some(rc@),
                    None => None,
                },
                tmp@,
            ) == Some(str_views(v@)),
            None => command_line_of(
                str_views(args@),
                match remote {
                    Some(rc) => Some(rc@),
                    None => None,
                },
                tmp@,
            ) is None,
        },
{
    match remote {
        Some(r) => {
            let target = r.ssh_target();
            let remote_cmd = shell_join(args);
            let mut v: Vec<String> = Vec::new();
            v.push(String::from_str("ssh"));
            let mux = ssh_mux_args(tmp, target.as_str());
            let mut i: usize = 0;
            while i < mux.len()
                invariant
                    i <= mux.len(),
                    str_views(v@) == seq!["ssh"@] + str_views(mux@).take(i as int),
                decreases mux.len() - i,
            {
                let ghost before = str_views(v@);
                v.push(mux[i].clone());
                assert(str_views(v@) =~= before.push(mux@[i as int]@));
                assert(str_views(mux@).take(i + 1) =~= str_views(mux@).take(i as int).push(
                    mux@[i as int]@,
                ));
                i = i + 1;
            }
            assert(str_views(mux@).take(i as int) =~= str_views(mux@));
            let ghost before = str_views(v@);
            v.push(target);
            v.push(remote_cmd);
            assert(str_views(v@) =~= before + seq![ssh_target_of(r@), shell_joined(str_views(args@))]);
            Some(v)
        },
        None => {
            if args.len() == 0 {
                None
            } else {
                let mut v: Vec<String> = Vec::new();
                let mut i: usize = 0;
                while i < args.len()
                    invariant
                        i <= args.len(),
                        v@.len() == i,
                        forall|k: int| 0 <= k < i ==> #[trigger] v@[k]@ == args@[k]@,
                    decreases args.len() - i,
                {
                    v.push(args[i].clone());
                    i = i + 1;
                }
                assert(str_views(v@) =~= str_views(args@));
                Some(v)
            }
        },
    }
}

/// The program and arguments that run `args` interactively: `ssh -t <target>
/// <command line>` when `remote` is given, else directly; `None` for an empty
/// local command.
pub open spec fn interactive_line_of(args: Seq<Seq<char>>, remote: Option<crate::ghostty_lib::remote::RemoteView>) -> Option<Seq<Seq<char>>> {
    match remote {
        Some(r) => Some(seq!["ssh"@, "-t"@, ssh_target_of(r), shell_joined(args)]),
        None => if args.len() == 0 {
            None
        } else {
            Some(args)
        },
    }
}

/// The command line with which a command runs interactively.
pub fn interactive_command_line(args: &Vec<String>, remote: Option<&RemoteConfig>) -> (r: Option<Vec<String>>)
    ensures
        match r {
            Some(v) => interactive_line_of(
                str_views(args@),
                match remote {
                    Some(rc) => Some(rc@),
                    None => None,
                },
            ) == Some(str_views(v@)),
            None => interactive_line_of(
                str_views(args@),
                match remote {
                    Some(rc) => Some(rc@),
                    None => None,
                },
            ) is None,
        },
{
    match remote {
        Some(r) => {
            let mut v: Vec<String> = Vec::new();
            v.push(String::from_str("ssh"));
            v.push(String::from_str("-t"));
            v.push(r.ssh_target());
            v.push(shell_join(args));
            assert(str_views(v@) =~= seq!["ssh"@, "-t"@, ssh_target_of(r@), shell_joined(str_views(args@))]);
            Some(v)
        },
        None => {
            if args.len() == 0 {
                None
            } else {
                let mut v: Vec<String> = Vec::new();
                let mut i: usize = 0;
                while i < args.len()
                    invariant
                        i <= args.len(),
                        v@.len() == i,
                        forall|k: int| 0 <= k < i ==> #[trigger] v@[k]@ == args@[k]@,
                    decreases args.len() - i,
                {
                    v.push(args[i].clone());
                    i = i + 1;
                }
                assert(str_views(v@) =~= str_views(args@));
                Some(v)
            }
        },
    }
}

/// What a finished command gives: its output when it succeeded, else the
/// trimmed error detail (its error output, or its output when that is empty).
pub open spec fn outcome_of(success: bool, stdout: Seq<char>, stderr: Seq<char>) -> Result<Seq<char>, Seq<char>> {
    if success {
        Ok(stdout)
    } else if stderr.len() == 0 {
        Err(trim(stdout))
    } else {
        Err(trim(stderr))
    }
}

/// Interprets a finished command: `Ok(stdout)` on success, else `Err(detail)`.
pub fn command_outcome(success: bool, stdout: &str, stderr: &str) -> (r: Result<String, String>)
    ensures
        match r {
            Ok(o) => outcome_of(success, stdout@, stderr@) == Ok::<Seq<char>, Seq<char>>(o@),
            Err(e) => outcome_of(success, stdout@, stderr@) == Err::<Seq<char>, Seq<char>>(e@),
        },
{
    if success {
        Ok(String::from_str(stdout))
    } else {
        let err = chars_of(stderr);
        if err.len() == 0 {
            Err(string_of(&trim_chars(&chars_of(stdout))))
        } else {
            Err(string_of(&trim_chars(&err)))
        }
    }
}

} // verus!
