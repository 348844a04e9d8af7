//! The AppleScript programs that drive Ghostty: opening tabs and splits that
//! attach to zmx sessions, focusing terminals, and reading their ids.
use vstd::prelude::*;

use crate::ghostty_lib::remote::{RemoteConfig, RemoteView, ssh_target_of, uses_mosh};
use crate::text::{chars_of, join, replace_char, replace_char_chars, string_of, trim, trim_chars};

verus! {

// ---------------------------------------------------------------------------
// Escaping
// ---------------------------------------------------------------------------

/// `s` escaped for the inside of an AppleScript double-quoted string:
/// backslashes doubled first, then double quotes preceded by a backslash.
pub open spec fn applescript_escaped(s: Seq<char>) -> Seq<char> {
    replace_char(replace_char(s, '\\', "\\\\"@), '"', "\\\""@)
}

/// `s` escaped for the inside of a single-quoted shell string: each `'`
/// becomes `'\''`.
pub open spec fn single_escaped(s: Seq<char>) -> Seq<char> {
    replace_char(s, '\'', "'\\''"@)
}

/// The text an AppleScript string literal holds when its body is `s`, read
/// from the state `escaped` (just after a backslash or not), with the state
/// it ends in; `None` when an unescaped `"` would end the literal inside `s`.
pub open spec fn applescript_read(s: Seq<char>, escaped: bool) -> Option<(Seq<char>, bool)>
    decreases s.len(),
{
    if s.len() == 0 {
        Some((Seq::empty(), escaped))
    } else {
        let c = s[0];
        let rest = s.drop_first();
        if escaped || (c != '\\' && c != '"') {
            match applescript_read(rest, false) {
                Some(r) => Some((seq![c] + r.0, r.1)),
                None => None,
            }
        } else if c == '\\' {
            applescript_read(rest, true)
        } else {
            None
        }
    }
}

/// Reading a concatenation reads one part, then the other from where the
/// first left off.
pub proof fn lemma_applescript_read_concat(a: Seq<char>, b: Seq<char>, escaped: bool)
    ensures
        applescript_read(a + b, escaped) == match applescript_read(a, escaped) {
            Some(ra) => match applescript_read(b, ra.1) {
                Some(rb) => Some((ra.0 + rb.0, rb.1)),
                None => None,
            },
            None => None,
        },
    decreases a.len(),
{
    if a.len() == 0 {
        assert(a + b =~= b);
        match applescript_read(b, escaped) {
            Some(rb) => {
                assert(Seq::<char>::empty() + rb.0 =~= rb.0);
            },
            None => {},
        }
    } else {
        assert((a + b).drop_first() =~= a.drop_first() + b);
        assert((a + b)[0] == a[0]);
        let c = a[0];
        let next = !escaped && c == '\\';
        lemma_applescript_read_concat(a.drop_first(), b, next);
        match applescript_read(a.drop_first(), next) {
            Some(ra) => match applescript_read(b, ra.1) {
                Some(rb) => {
                    assert(seq![c] + ra.0 + rb.0 =~= seq![c] + (ra.0 + rb.0));
                },
                None => {},
            },
            None => {},
        }
    }
}

/// Replacing in a concatenation replaces in each part.
pub proof fn lemma_replace_concat(x: Seq<char>, y: Seq<char>, c: char, rep: Seq<char>)
    ensures
        replace_char(x + y, c, rep) == replace_char(x, c, rep) + replace_char(y, c, rep),
    decreases y.len(),
{
    if y.len() == 0 {
        assert(x + y =~= x);
        assert(replace_char(x, c, rep) + Seq::<char>::empty() =~= replace_char(x, c, rep));
    } else {
        lemma_replace_concat(x, y.drop_last(), c, rep);
        assert((x + y).drop_last() =~= x + y.drop_last());
        assert((x + y).last() == y.last());
        let piece = if y.last() == c {
            rep
        } else {
            seq![y.last()]
        };
        assert(replace_char(x, c, rep) + replace_char(y.drop_last(), c, rep) + piece =~= replace_char(x, c, rep)
            + (replace_char(y.drop_last(), c, rep) + piece));
    }
}

/// Replacing in a single character.
pub proof fn lemma_replace_single(x: char, c: char, rep: Seq<char>)
    ensures
        replace_char(seq![x], c, rep) == (if x == c {
            rep
        } else {
            seq![x]
        }),
{
    assert(seq![x].drop_last() =~= Seq::<char>::empty());
    assert(replace_char(Seq::<char>::empty(), c, rep) =~= Seq::<char>::empty());
    assert(Seq::<char>::empty() + rep =~= rep);
    assert(Seq::<char>::empty() + seq![x] =~= seq![x]);
}

/// An AppleScript string literal whose body is `applescript_escape(s)` holds
/// exactly `s`: no character of `s` ends the literal early, and the body does
/// not end on a pending backslash.
pub proof fn law_applescript_escape_reads_back(s: Seq<char>)
    ensures
        applescript_read(applescript_escaped(s), false) == Some((s, false)),
    decreases s.len(),
{
    reveal_strlit("\\\\");
    reveal_strlit("\\\"");
    if s.len() == 0 {
        assert(applescript_escaped(s) =~= Seq::<char>::empty());
    } else {
        let pre = s.drop_last();
        let c = s.last();
        law_applescript_escape_reads_back(pre);
        assert(pre.push(c) =~= s);
        let once = replace_char(s, '\\', "\\\\"@);
        let p1 = if c == '\\' {
            "\\\\"@
        } else {
            seq![c]
        };
        assert(once == replace_char(pre, '\\', "\\\\"@) + p1);
        lemma_replace_concat(replace_char(pre, '\\', "\\\\"@), p1, '"', "\\\""@);
        let piece = replace_char(p1, '"', "\\\""@);
        assert(applescript_escaped(s) == applescript_escaped(pre) + piece);
        let e = Seq::<char>::empty();
        assert(applescript_read(e, false) == Some((e, false)));
        if c == '\\' {
            let bs = seq!['\\', '\\'];
            assert(p1 =~= bs);
            lemma_replace_single('\\', '"', "\\\""@);
            assert(piece =~= bs) by {
                assert(bs =~= seq!['\\'] + seq!['\\']);
                lemma_replace_concat(seq!['\\'], seq!['\\'], '"', "\\\""@);
            }
            assert(bs.drop_first() =~= seq!['\\']);
            assert(seq!['\\'].drop_first() =~= e);
            assert(applescript_read(seq!['\\'], true) == Some((seq!['\\'], false))) by {
                assert(seq!['\\'] + e =~= seq!['\\']);
            }
            assert(applescript_read(piece, false) == Some((seq!['\\'], false)));
        } else if c == '"' {
            let q = seq!['\\', '"'];
            assert(p1 =~= seq!['"']);
            lemma_replace_single('"', '"', "\\\""@);
            assert(piece =~= q);
            assert(q.drop_first() =~= seq!['"']);
            assert(seq!['"'].drop_first() =~= e);
            assert(applescript_read(seq!['"'], true) == Some((seq!['"'], false))) by {
                assert(seq!['"'] + e =~= seq!['"']);
            }
            assert(applescript_read(piece, false) == Some((seq!['"'], false)));
        } else {
            lemma_replace_single(c, '"', "\\\""@);
            assert(piece =~= seq![c]);
            assert(seq![c].drop_first() =~= e);
            assert(applescript_read(piece, false) == Some((seq![c], false))) by {
                assert(seq![c] + e =~= seq![c]);
            }
        }
        lemma_applescript_read_concat(applescript_escaped(pre), piece, false);
    }
}

/// `s` with every `c` replaced by `rep`, as a string.
fn replaced(s: &str, c: char, rep: &str) -> (r: String)
    ensures
        r@ == replace_char(s@, c, rep@),
{
    string_of(&replace_char_chars(&chars_of(s), c, &chars_of(rep)))
}

/// Escape a string for AppleScript double-quoted string.
pub fn applescript_escape(s: &str) -> (r: String)
    ensures
        r@ == applescript_escaped(s@),
{
    let a = replaced(s, '\\', "\\\\");
    replaced(a.as_str(), '"', "\\\"")
}

/// Escape for single-quoted shell strings.
pub fn shell_escape_single(s: &str) -> (r: String)
    ensures
        r@ == single_escaped(s@),
{
    replaced(s, '\'', "'\\''")
}

// ---------------------------------------------------------------------------
// The command typed into a new terminal
// ---------------------------------------------------------------------------

/// `cd <path> && zmx attach <session>`, both escaped for single quotes.
pub open spec fn attach_line(session_name: Seq<char>, worktree_path: Seq<char>) -> Seq<char> {
    "cd "@ + single_escaped(worktree_path) + " && zmx attach "@ + single_escaped(session_name)
}

/// The shell command for an interactive session: the attach line run locally,
/// or wrapped in `mosh <target> -- sh -c '...'` or `ssh <target> -t '...'`.
pub open spec fn interactive_command(
    session_name: Seq<char>,
    worktree_path: Seq<char>,
    remote: Option<RemoteView>,
) -> Seq<char> {
    let inner = attach_line(session_name, worktree_path);
    match remote {
        Some(r) => if uses_mosh(r) {
            "mosh "@ + ssh_target_of(r) + " -- sh -c '"@ + inner + "'"@
        } else {
            "ssh "@ + ssh_target_of(r) + " -t '"@ + inner + "'"@
        },
        None => inner,
    }
}

/// The model of an optional remote.
pub open spec fn remote_view(remote: Option<&RemoteConfig>) -> Option<RemoteView> {
    match remote {
        Some(r) => Some(r@),
        None => None,
    }
}

/// The attach line for a session and worktree.
fn attach_line_string(session_name: &str, worktree_path: &str) -> (r: String)
    ensures
        r@ == attach_line(session_name@, worktree_path@),
{
    let mut r = String::from_str("cd ");
    r.append(shell_escape_single(worktree_path).as_str());
    r.append(" && zmx attach ");
    r.append(shell_escape_single(session_name).as_str());
    r
}

/// Build the shell command string for an interactive session.
/// Used by all script builders to avoid duplication.
pub fn build_interactive_command(
    session_name: &str,
    worktree_path: &str,
    remote: Option<&RemoteConfig>,
) -> (r: String)
    ensures
        r@ == interactive_command(session_name@, worktree_path@, remote_view(remote)),
{
    let inner = attach_line_string(session_name, worktree_path);
    match remote {
        Some(rc) => {
            let target = rc.ssh_target();
            let mut r = if rc.use_mosh() {
                String::from_str("mosh ")
            } else {
                String::from_str("ssh ")
            };
            r.append(target.as_str());
            if rc.use_mosh() {
                r.append(" -- sh -c '");
            } else {
                r.append(" -t '");
            }
            r.append(inner.as_str());
            r.append("'");
            r
        },
        None => inner,
    }
}

// ---------------------------------------------------------------------------
// Scripts that open tabs and splits
// ---------------------------------------------------------------------------

/// The script lines that set the working directory of a new surface.
pub open spec fn working_dir_line(path: Seq<char>) -> Seq<char> {
    "    set initial working directory of cfg to \""@ + applescript_escaped(path) + "\""@
}

/// The end shared by the scripts that open a terminal: type the command,
/// press enter, and give back the new terminal's id.
pub open spec fn input_tail(command: Seq<char>) -> Seq<char> {
    "    delay 0.5\n    input text \""@ + applescript_escaped(command)
        + "\" to newTerm\n    send key \"enter\" to newTerm\n    return id of newTerm\nend tell"@
}

/// The script that splits the focused terminal in `direction` and attaches
/// the new terminal to the session; a local split starts in the worktree.
pub open spec fn split_script(
    session_name: Seq<char>,
    worktree_path: Seq<char>,
    direction: Seq<char>,
    remote: Option<RemoteView>,
) -> Seq<char> {
    match remote {
        Some(_) => "tell application \"Ghostty\"\n    set t to focused terminal of selected tab of front window\n    set newTerm to split t direction "@
            + direction + "\n"@ + input_tail(
            interactive_command(session_name, worktree_path, remote),
        ),
        None => "tell application \"Ghostty\"\n    set t to focused terminal of selected tab of front window\n    set cfg to new surface configuration\n"@
            + working_dir_line(worktree_path) + "\n    set newTerm to split t direction "@ + direction
            + " with configuration cfg\n"@ + input_tail("zmx attach "@ + single_escaped(session_name)),
    }
}

/// The script that opens a new tab and attaches it to the session; a local
/// tab starts in the worktree.
pub open spec fn tab_script(
    session_name: Seq<char>,
    worktree_path: Seq<char>,
    remote: Option<RemoteView>,
) -> Seq<char> {
    match remote {
        Some(_) => "tell application \"Ghostty\"\n    set newTab to new tab in front window\n    set newTerm to focused terminal of newTab\n"@
            + input_tail(interactive_command(session_name, worktree_path, remote)),
        None => "tell application \"Ghostty\"\n    set cfg to new surface configuration\n"@
            + working_dir_line(worktree_path)
            + "\n    set newTab to new tab in front window with configuration cfg\n    set newTerm to focused terminal of newTab\n"@
            + input_tail("zmx attach "@ + single_escaped(session_name)),
    }
}

/// The tail of a script: type `command` into `newTerm`, press enter, return its id.
fn input_tail_string(command: &str) -> (r: String)
    ensures
        r@ == input_tail(command@),
{
    let mut r = String::from_str("    delay 0.5\n    input text \"");
    r.append(applescript_escape(command).as_str());
    r.append("\" to newTerm\n    send key \"enter\" to newTerm\n    return id of newTerm\nend tell");
    r
}

/// The line that sets the initial working directory of `cfg`.
fn working_dir_line_string(path: &str) -> (r: String)
    ensures
        r@ == working_dir_line(path@),
{
    let mut r = String::from_str("    set initial working directory of cfg to \"");
    r.append(applescript_escape(path).as_str());
    r.append("\"");
    r
}

/// `zmx attach <session>` with the name escaped for single quotes.
fn zmx_attach_string(session_name: &str) -> (r: String)
    ensures
        r@ == "zmx attach "@ + single_escaped(session_name@),
{
    let mut r = String::from_str("zmx attach ");
    r.append(shell_escape_single(session_name).as_str());
    r
}

/// Build AppleScript to create a split with the right command.
pub fn build_split_script(
    session_name: &str,
    worktree_path: &str,
    direction: &str,
    remote: Option<&RemoteConfig>,
) -> (r: String)
    ensures
        r@ == split_script(session_name@, worktree_path@, direction@, remote_view(remote)),
{
    match remote {
        Some(_) => {
            let command = build_interactive_command(session_name, worktree_path, remote);
            let mut r = String::from_str(
                "tell application \"Ghostty\"\n    set t to focused terminal of selected tab of front window\n    set newTerm to split t direction ",
            );
            r.append(direction);
            r.append("\n");
            r.append(input_tail_string(command.as_str()).as_str());
            r
        },
        None => {
            let mut r = String::from_str(
                "tell application \"Ghostty\"\n    set t to focused terminal of selected tab of front window\n    set cfg to new surface configuration\n",
            );
            r.append(working_dir_line_string(worktree_path).as_str());
            r.append("\n    set newTerm to split t direction ");
            r.append(direction);
            r.append(" with configuration cfg\n");
            r.append(input_tail_string(zmx_attach_string(session_name).as_str()).as_str());
            r
        },
    }
}

/// Build AppleScript to create a new tab.
pub fn build_tab_script(session_name: &str, worktree_path: &str, remote: Option<&RemoteConfig>) -> (r:
    String)
    ensures
        r@ == tab_script(session_name@, worktree_path@, remote_view(remote)),
{
    match remote {
        Some(_) => {
            let command = build_interactive_command(session_name, worktree_path, remote);
            let mut r = String::from_str(
                "tell application \"Ghostty\"\n    set newTab to new tab in front window\n    set newTerm to focused terminal of newTab\n",
            );
            r.append(input_tail_string(command.as_str()).as_str());
            r
        },
        None => {
            let mut r = String::from_str(
                "tell application \"Ghostty\"\n    set cfg to new surface configuration\n",
            );
            r.append(working_dir_line_string(worktree_path).as_str());
            r.append(
                "\n    set newTab to new tab in front window with configuration cfg\n    set newTerm to focused terminal of newTab\n",
            );
            r.append(input_tail_string(zmx_attach_string(session_name).as_str()).as_str());
            r
        },
    }
}

/// The script that opens a worktree: a split in `split_direction` when one is
/// given, otherwise a new tab.
pub open spec fn open_script(
    session_name: Seq<char>,
    worktree_path: Seq<char>,
    split_direction: Option<Seq<char>>,
    remote: Option<RemoteView>,
) -> Seq<char> {
    match split_direction {
        Some(dir) => split_script(session_name, worktree_path, dir, remote),
        None => tab_script(session_name, worktree_path, remote),
    }
}

/// The characters of an optional string slice.
pub open spec fn opt_str_view(o: Option<&str>) -> Option<Seq<char>> {
    match o {
        Some(s) => Some(s@),
        None => None,
    }
}

/// Open a worktree in Ghostty: the AppleScript that creates a split when
/// `split_direction` is given, otherwise a new tab, and returns the terminal
/// ID of the new terminal.
pub fn open(
    session_name: &str,
    worktree_path: &str,
    split_direction: Option<&str>,
    remote: Option<&RemoteConfig>,
) -> (r: String)
    ensures
        r@ == open_script(session_name@, worktree_path@, opt_str_view(split_direction), remote_view(remote)),
{
    match split_direction {
        Some(dir) => build_split_script(session_name, worktree_path, dir, remote),
        None => build_tab_script(session_name, worktree_path, remote),
    }
}

/// The script that focuses terminal `tid`, splits it in `direction` and
/// attaches the new terminal to the session.
pub open spec fn split_at_script(
    terminal_id: Seq<char>,
    session_name: Seq<char>,
    worktree_path: Seq<char>,
    direction: Seq<char>,
    remote: Option<RemoteView>,
) -> Seq<char> {
    "tell application \"Ghostty\"\n    set t to first terminal whose id is \""@ + applescript_escaped(terminal_id)
        + "\"\n    focus t\n    set newTerm to split t direction "@ + direction + "\n"@ + input_tail(
        interactive_command(session_name, worktree_path, remote),
    )
}

/// Split an existing terminal by ID: the AppleScript that returns the new
/// terminal's ID.
pub fn split_at(
    terminal_id: &str,
    session_name: &str,
    worktree_path: &str,
    direction: &str,
    remote: Option<&RemoteConfig>,
) -> (r: String)
    ensures
        r@ == split_at_script(terminal_id@, session_name@, worktree_path@, direction@, remote_view(remote)),
{
    let command = build_interactive_command(session_name, worktree_path, remote);
    let mut r = String::from_str("tell application \"Ghostty\"\n    set t to first terminal whose id is \"");
    r.append(applescript_escape(terminal_id).as_str());
    r.append("\"\n    focus t\n    set newTerm to split t direction ");
    r.append(direction);
    r.append("\n");
    r.append(input_tail_string(command.as_str()).as_str());
    r
}

// ---------------------------------------------------------------------------
// Scripts that ask about or act on existing terminals
// ---------------------------------------------------------------------------

/// The script that answers `ok` when terminal `tid` exists and `gone` otherwise.
pub open spec fn exists_script(terminal_id: Seq<char>) -> Seq<char> {
    "tell application \"Ghostty\"\n    try\n        set t to first terminal whose id is \""@
        + applescript_escaped(terminal_id)
        + "\"\n        return \"ok\"\n    on error\n        return \"gone\"\n    end try\nend tell"@
}

/// The AppleScript that checks whether a terminal with the given ID still exists.
pub fn terminal_exists_script(terminal_id: &str) -> (r: String)
    ensures
        r@ == exists_script(terminal_id@),
{
    let mut r = String::from_str(
        "tell application \"Ghostty\"\n    try\n        set t to first terminal whose id is \"",
    );
    r.append(applescript_escape(terminal_id).as_str());
    r.append("\"\n        return \"ok\"\n    on error\n        return \"gone\"\n    end try\nend tell");
    r
}

/// Check if a terminal still exists, from the (trimmed) output of its
/// existence script: it does only when the script ran and answered `ok`.
pub fn terminal_exists(script_output: Option<&str>) -> (b: bool)
    ensures
        b == (opt_str_view(script_output) == Some("ok"@)),
{
    match script_output {
        Some(out) => crate::text::str_eq(out, "ok"),
        None => false,
    }
}

/// The script that focuses terminal `tid`.
pub open spec fn focus_script(terminal_id: Seq<char>) -> Seq<char> {
    "tell application \"Ghostty\"\n    set t to first terminal whose id is \""@ + applescript_escaped(terminal_id)
        + "\"\n    focus t\nend tell"@
}

/// Focus an existing terminal by ID (brings its tab to front): the AppleScript.
pub fn focus_terminal(terminal_id: &str) -> (r: String)
    ensures
        r@ == focus_script(terminal_id@),
{
    let mut r = String::from_str("tell application \"Ghostty\"\n    set t to first terminal whose id is \"");
    r.append(applescript_escape(terminal_id).as_str());
    r.append("\"\n    focus t\nend tell");
    r
}

/// The script that equalizes the splits of the focused tab.
pub open spec fn equalize_script() -> Seq<char> {
    "tell application \"Ghostty\"\n    set t to focused terminal of selected tab of front window\n    perform action \"equalize_splits\" on t\nend tell"@
}

/// Build AppleScript to equalize splits.
pub fn equalize_splits() -> (r: String)
    ensures
        r@ == equalize_script(),
{
    String::from_str(
        "tell application \"Ghostty\"\n    set t to focused terminal of selected tab of front window\n    perform action \"equalize_splits\" on t\nend tell",
    )
}

/// The script that gives the id of the focused terminal of the front window.
pub open spec fn focused_id_script() -> Seq<char> {
    "tell application \"Ghostty\"\n    set t to focused terminal of selected tab of front window\n    return id of t\nend tell"@
}

/// Get the focused terminal ID in the front window: the AppleScript.
pub fn focused_terminal_id() -> (r: String)
    ensures
        r@ == focused_id_script(),
{
    String::from_str(
        "tell application \"Ghostty\"\n    set t to focused terminal of selected tab of front window\n    return id of t\nend tell",
    )
}

// ---------------------------------------------------------------------------
// Surface configuration: working directory and environment variables
// ---------------------------------------------------------------------------

/// One environment variable as an AppleScript string: `"KEY=VALUE"`.
pub open spec fn env_item(kv: (Seq<char>, Seq<char>)) -> Seq<char> {
    "\""@ + applescript_escaped(kv.0) + "="@ + applescript_escaped(kv.1) + "\""@
}

/// The AppleScript list of environment variables: `{"K=V", "K2=V2"}`.
pub open spec fn env_list(env_vars: Seq<(Seq<char>, Seq<char>)>) -> Seq<char> {
    "{"@ + join(env_vars.map_values(|kv: (Seq<char>, Seq<char>)| env_item(kv)), ", "@) + "}"@
}

/// The lines that configure a new surface: its working directory when one is
/// given, then its environment variables when there are any.
pub open spec fn config_lines(
    working_dir: Option<Seq<char>>,
    env_vars: Seq<(Seq<char>, Seq<char>)>,
) -> Seq<Seq<char>> {
    (match working_dir {
        Some(wd) => seq![working_dir_line(wd)],
        None => Seq::<Seq<char>>::empty(),
    }) + (if env_vars.len() == 0 {
        Seq::<Seq<char>>::empty()
    } else {
        seq!["    set environment variables of cfg to "@ + env_list(env_vars)]
    })
}

/// The configuration block: the configuration lines joined by newlines
/// (empty when there are none).
pub open spec fn config_block_of(
    working_dir: Option<Seq<char>>,
    env_vars: Seq<(Seq<char>, Seq<char>)>,
) -> Seq<char> {
    join(config_lines(working_dir, env_vars), "\n"@)
}

/// The models of a list of environment variables.
pub open spec fn env_views(env_vars: Seq<(String, String)>) -> Seq<(Seq<char>, Seq<char>)> {
    env_vars.map_values(|kv: (String, String)| (kv.0@, kv.1@))
}

/// The AppleScript list of environment variables, `{"K=V", ...}`.
pub fn env_list_string(env_vars: &Vec<(String, String)>) -> (r: String)
    ensures
        r@ == env_list(env_views(env_vars@)),
{
    let ghost items = env_views(env_vars@).map_values(|kv: (Seq<char>, Seq<char>)| env_item(kv));
    let mut r = String::from_str("{");
    let mut i: usize = 0;
    while i < env_vars.len()
        invariant
            i <= env_vars.len(),
            items == env_views(env_vars@).map_values(|kv: (Seq<char>, Seq<char>)| env_item(kv)),
            r@ == "{"@ + join(items.take(i as int), ", "@),
        decreases env_vars.len() - i,
    {
        assert(items.take(i + 1).drop_last() =~= items.take(i as int));
        if i > 0 {
            r.append(", ");
        } else {
            assert(items.take(1) =~= seq![items[0]]);
        }
        let (k, v) = &env_vars[i];
        r.append("\"");
        r.append(applescript_escape(k.as_str()).as_str());
        r.append("=");
        r.append(applescript_escape(v.as_str()).as_str());
        r.append("\"");
        i = i + 1;
    }
    assert(items.take(i as int) =~= items);
    r.append("}");
    r
}

/// The surface configuration block for a working directory and environment
/// variables, one line each, joined by newlines.
pub fn config_block(working_dir: Option<&str>, env_vars: &Vec<(String, String)>) -> (r: String)
    ensures
        r@ == config_block_of(opt_str_view(working_dir), env_views(env_vars@)),
{
    let mut lines: Vec<String> = Vec::new();
    match working_dir {
        Some(wd) => lines.push(working_dir_line_string(wd)),
        None => {},
    }
    if env_vars.len() > 0 {
        let mut line = String::from_str("    set environment variables of cfg to ");
        line.append(env_list_string(env_vars).as_str());
        lines.push(line);
    }
    assert(crate::text::str_views(lines@) =~= config_lines(opt_str_view(working_dir), env_views(env_vars@)));
    crate::text::join_strings(&lines, "\n")
}

/// The script that opens a new tab configured by `config` and types `command` into it.
pub open spec fn tab_with_config_script(command: Seq<char>, config: Seq<char>) -> Seq<char> {
    "tell application \"Ghostty\"\n    set cfg to new surface configuration\n"@ + config
        + "\n    set newTab to new tab in front window with configuration cfg\n    set newTerm to focused terminal of newTab\n"@
        + input_tail(command)
}

/// Create a new Ghostty tab with explicit surface configuration: the
/// AppleScript. It uses env vars and working dir from surface config, but runs
/// the command via `input text` + `send key` to avoid Ghostty's login shell
/// wrapping, and returns the terminal ID.
pub fn create_tab_with_config(command: &str, working_dir: Option<&str>, env_vars: &Vec<(String, String)>) -> (r:
    String)
    ensures
        r@ == tab_with_config_script(
            command@,
            config_block_of(opt_str_view(working_dir), env_views(env_vars@)),
        ),
{
    let mut r = String::from_str("tell application \"Ghostty\"\n    set cfg to new surface configuration\n");
    r.append(config_block(working_dir, env_vars).as_str());
    r.append(
        "\n    set newTab to new tab in front window with configuration cfg\n    set newTerm to focused terminal of newTab\n",
    );
    r.append(input_tail_string(command).as_str());
    r
}

/// The script that splits terminal `tid` in `direction` with a new surface
/// configured by `config`, and types `command` into it.
pub open spec fn split_with_config_script(
    terminal_id: Seq<char>,
    direction: Seq<char>,
    command: Seq<char>,
    config: Seq<char>,
) -> Seq<char> {
    "tell application \"Ghostty\"\n    set t to first terminal whose id is \""@ + applescript_escaped(terminal_id)
        + "\"\n    focus t\n    set cfg to new surface configuration\n"@ + config
        + "\n    set newTerm to split t direction "@ + direction + " with configuration cfg\n"@
        + input_tail(command)
}

/// Split an existing terminal with explicit surface configuration: the
/// AppleScript, which returns the new terminal ID.
pub fn split_with_config(
    terminal_id: &str,
    direction: &str,
    command: &str,
    working_dir: Option<&str>,
    env_vars: &Vec<(String, String)>,
) -> (r: String)
    ensures
        r@ == split_with_config_script(
            terminal_id@,
            direction@,
            command@,
            config_block_of(opt_str_view(working_dir), env_views(env_vars@)),
        ),
{
    let mut r = String::from_str("tell application \"Ghostty\"\n    set t to first terminal whose id is \"");
    r.append(applescript_escape(terminal_id).as_str());
    r.append("\"\n    focus t\n    set cfg to new surface configuration\n");
    r.append(config_block(working_dir, env_vars).as_str());
    r.append("\n    set newTerm to split t direction ");
    r.append(direction);
    r.append(" with configuration cfg\n");
    r.append(input_tail_string(command).as_str());
    r
}

// ---------------------------------------------------------------------------
// Running scripts
// ---------------------------------------------------------------------------

/// Whether Ghostty can be driven: only on macOS, inside Ghostty
/// (`TERM_PROGRAM` is `ghostty`).
pub fn is_available(on_macos: bool, term_program: Option<&str>) -> (b: bool)
    ensures
        b == (on_macos && opt_str_view(term_program) == Some("ghostty"@)),
{
    if !on_macos {
        return false;
    }
    match term_program {
        Some(v) => crate::text::str_eq(v, "ghostty"),
        None => false,
    }
}

/// What running a script gives: its trimmed output when `osascript`
/// succeeded, else the trimmed error output.
pub open spec fn script_outcome_of(success: bool, stdout: Seq<char>, stderr: Seq<char>) -> Result<
    Seq<char>,
    Seq<char>,
> {
    if success {
        Ok(trim(stdout))
    } else {
        Err(trim(stderr))
    }
}

/// Interprets a finished `osascript`: `Ok(trimmed stdout)` on success, else
/// `Err(trimmed stderr)`.
pub fn script_outcome(success: bool, stdout: &str, stderr: &str) -> (r: Result<String, String>)
    ensures
        match r {
            Ok(o) => script_outcome_of(success, stdout@, stderr@) == Ok::<Seq<char>, Seq<char>>(o@),
            Err(e) => script_outcome_of(success, stdout@, stderr@) == Err::<Seq<char>, Seq<char>>(e@),
        },
{
    if success {
        Ok(string_of(&trim_chars(&chars_of(stdout))))
    } else {
        Err(string_of(&trim_chars(&chars_of(stderr))))
    }
}

} // verus!
