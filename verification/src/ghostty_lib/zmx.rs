//! zmx sessions: parsing `zmx list`, naming, and choosing sessions.
use vstd::prelude::*;

use crate::lines::{free_of, lemma_split_join};
use crate::sort::{sort_by_num_key, sort_by_str_key, stable_sort_num, stable_sort_str};
use crate::text::{
    chars_eq, chars_of, chars_strip_prefix, dec, dec_chars, append_chars, has_prefix,
    lemma_dec_injective, lines, lines_of, parse_u32, parse_u32_chars, split_chars, split_on,
    split_once, split_once_chars, starts_with, str_eq, str_views, string_of, strip_prefix,
    trim_start, trim_start_chars, views, join, lemma_find_first_at,
};

verus! {

/// One session reported by `zmx list`.
#[derive(Debug, Clone)]
pub struct ZmxSession {
    pub name: String,
    pub pid: Option<String>,
    pub clients: u32,
    pub started_in: Option<String>,
}

/// The model of a [`ZmxSession`].
pub struct SessionView {
    pub name: Seq<char>,
    pub pid: Option<Seq<char>>,
    pub clients: u32,
    pub started_in: Option<Seq<char>>,
}

/// The characters of an optional string.
pub open spec fn opt_chars(o: Option<String>) -> Option<Seq<char>> {
    match o {
        Some(s) => Some(s@),
        None => None,
    }
}

impl View for ZmxSession {
    type V = SessionView;

    open spec fn view(&self) -> SessionView {
        SessionView {
            name: self.name@,
            pid: opt_chars(self.pid),
            clients: self.clients,
            started_in: opt_chars(self.started_in),
        }
    }
}

/// The models of a list of sessions.
pub open spec fn session_views(s: Seq<ZmxSession>) -> Seq<SessionView> {
    s.map_values(|x: ZmxSession| x@)
}

/// The name of a session.
pub open spec fn name_of(s: ZmxSession) -> Seq<char> {
    s.name@
}

impl ZmxSession {
    /// A session is attached while at least one client is connected.
    pub fn is_attached(&self) -> (b: bool)
        ensures
            b == (self.clients > 0),
    {
        self.clients > 0
    }

    /// A copy with the same contents.
    pub fn duplicate(&self) -> (r: ZmxSession)
        ensures
            r == *self,
            r@ == self@,
    {
        ZmxSession {
            name: self.name.clone(),
            pid: match &self.pid {
                Some(p) => Some(p.clone()),
                None => None,
            },
            clients: self.clients,
            started_in: match &self.started_in {
                Some(p) => Some(p.clone()),
                None => None,
            },
        }
    }
}

// ---------------------------------------------------------------------------
// Parsing `zmx list`
// ---------------------------------------------------------------------------

/// A line with the marker of the current session (`"→ "` or `"→\t"`) removed,
/// then leading whitespace removed.
pub open spec fn strip_marker(line: Seq<char>) -> Seq<char> {
    let rest = match strip_prefix(line, "\u{2192} "@) {
        Some(r) => r,
        None => match strip_prefix(line, "\u{2192}\t"@) {
            Some(r) => r,
            None => line,
        },
    };
    trim_start(rest)
}

/// The value of the last `key=value` field named `key`.
pub open spec fn field_value(fields: Seq<Seq<char>>, key: Seq<char>) -> Option<Seq<char>>
    decreases fields.len(),
{
    if fields.len() == 0 {
        None
    } else {
        match split_once(fields.last(), '=') {
            Some(kv) => if kv.0 == key {
                Some(kv.1)
            } else {
                field_value(fields.drop_last(), key)
            },
            None => field_value(fields.drop_last(), key),
        }
    }
}

/// A line that can describe a session: not empty, not the "no sessions" notice.
pub open spec fn is_session_line(line: Seq<char>) -> bool {
    line.len() > 0 && !has_prefix(line, "no sessions"@)
}

/// The client count of a session line: its `clients` field as a `u32`, else 0.
pub open spec fn clients_of(fields: Seq<Seq<char>>) -> u32 {
    match field_value(fields, "clients"@) {
        Some(c) => match parse_u32(c) {
            Some(n) => n,
            None => 0,
        },
        None => 0,
    }
}

/// The session a line describes: tab-separated `key=value` fields, of which
/// `session_name` is required; the marker of the current session is ignored.
pub open spec fn parse_session_line(line: Seq<char>) -> Option<SessionView> {
    session_of_fields(strip_marker(line))
}

/// The session that tab-separated `key=value` fields describe; a field
/// `session_name` is required, and the last field with a key counts.
pub open spec fn session_of_fields(body: Seq<char>) -> Option<SessionView> {
    let fields = split_on(body, '\t');
    match field_value(fields, "session_name"@) {
        None => None,
        Some(name) => Some(
            SessionView {
                name,
                pid: field_value(fields, "pid"@),
                clients: clients_of(fields),
                started_in: field_value(fields, "started_in"@),
            },
        ),
    }
}

/// The sessions described by a list of lines, in order.
pub open spec fn parse_session_lines(ls: Seq<Seq<char>>) -> Seq<SessionView>
    decreases ls.len(),
{
    if ls.len() == 0 {
        Seq::empty()
    } else {
        let prev = parse_session_lines(ls.drop_last());
        if is_session_line(ls.last()) {
            match parse_session_line(ls.last()) {
                Some(s) => prev.push(s),
                None => prev,
            }
        } else {
            prev
        }
    }
}

/// The sessions that `zmx list` output describes.
pub open spec fn parse_zmx_output(output: Seq<char>) -> Seq<SessionView> {
    parse_session_lines(lines_of(output))
}

/// The value of the last `key=value` field named `key`.
fn lookup_field(fields: &Vec<Vec<char>>, key: &Vec<char>) -> (r: Option<Vec<char>>)
    ensures
        match r {
            Some(v) => field_value(views(fields@), key@) == Some(v@),
            None => field_value(views(fields@), key@) is None,
        },
{
    let mut j = fields.len();
    assert(views(fields@).take(j as int) =~= views(fields@));
    while j > 0
        invariant
            j <= fields.len(),
            field_value(views(fields@).take(j as int), key@) == field_value(views(fields@), key@),
        decreases j,
    {
        let ghost pre = views(fields@).take(j as int);
        assert(pre.drop_last() =~= views(fields@).take(j - 1));
        assert(pre.last() == fields@[j - 1]@);
        match split_once_chars(&fields[j - 1], '=') {
            Some((k, v)) => {
                if chars_eq(&k, key) {
                    return Some(v);
                }
            },
            None => {},
        }
        j = j - 1;
    }
    None
}

/// Parses one `zmx list` line into a session.
fn parse_line(line: &Vec<char>) -> (r: Option<ZmxSession>)
    ensures
        match r {
            Some(s) => parse_session_line(line@) == Some(s@),
            None => parse_session_line(line@) is None,
        },
{
    let arrow_space = chars_of("\u{2192} ");
    let arrow_tab = chars_of("\u{2192}\t");
    let rest = match chars_strip_prefix(line, &arrow_space) {
        Some(r) => r,
        None => match chars_strip_prefix(line, &arrow_tab) {
            Some(r) => r,
            None => line.clone(),
        },
    };
    let body = trim_start_chars(&rest);
    assert(body@ == strip_marker(line@));
    parse_fields(&body)
}

/// Parses tab-separated `key=value` fields into a session.
pub fn parse_fields(body: &Vec<char>) -> (r: Option<ZmxSession>)
    ensures
        match r {
            Some(s) => session_of_fields(body@) == Some(s@),
            None => session_of_fields(body@) is None,
        },
{
    let fields = split_chars(body, '\t');
    let name = match lookup_field(&fields, &chars_of("session_name")) {
        Some(n) => n,
        None => {
            return None;
        },
    };
    let pid = match lookup_field(&fields, &chars_of("pid")) {
        Some(p) => Some(string_of(&p)),
        None => None,
    };
    let clients = match lookup_field(&fields, &chars_of("clients")) {
        Some(c) => match parse_u32_chars(&c) {
            Some(n) => n,
            None => 0,
        },
        None => 0,
    };
    let started_in = match lookup_field(&fields, &chars_of("started_in")) {
        Some(p) => Some(string_of(&p)),
        None => None,
    };
    Some(ZmxSession { name: string_of(&name), pid, clients, started_in })
}

/// Parse zmx list output: tab-separated key=value pairs per line.
/// Note: zmx prefixes the current session with "→ " when run inside a session.
pub fn parse_zmx_list(output: &str) -> (r: Vec<ZmxSession>)
    ensures
        session_views(r@) == parse_zmx_output(output@),
{
    let chars = chars_of(output);
    let ls = lines(&chars);
    let no_sessions = chars_of("no sessions");
    let mut r: Vec<ZmxSession> = Vec::new();
    let mut i: usize = 0;
    assert(views(ls@).take(0) =~= Seq::<Seq<char>>::empty());
    assert(session_views(r@) =~= Seq::<SessionView>::empty());
    while i < ls.len()
        invariant
            i <= ls.len(),
            views(ls@) == lines_of(output@),
            no_sessions@ == "no sessions"@,
            session_views(r@) == parse_session_lines(views(ls@).take(i as int)),
        decreases ls.len() - i,
    {
        let ghost pre = views(ls@).take(i + 1);
        assert(pre.drop_last() =~= views(ls@).take(i as int));
        assert(pre.last() == ls@[i as int]@);
        let line = &ls[i];
        if line.len() > 0 && !starts_with(line, &no_sessions) {
            match parse_line(line) {
                Some(s) => {
                    let ghost before = session_views(r@);
                    r.push(s);
                    assert(session_views(r@) =~= before.push(s@));
                },
                None => {},
            }
        }
        i = i + 1;
    }
    assert(views(ls@).take(i as int) =~= views(ls@));
    r
}

/// The sessions that a run of `zmx list` reports: those of its output, or
/// none when the command failed (`None`).
pub open spec fn listed_sessions(output: Option<Seq<char>>) -> Seq<SessionView> {
    match output {
        Some(o) => parse_zmx_output(o),
        None => Seq::empty(),
    }
}

/// The command that lists the zmx sessions.
pub fn list_command() -> (r: Vec<String>)
    ensures
        str_views(r@) == seq!["zmx"@, "list"@],
{
    let mut v: Vec<String> = Vec::new();
    v.push(String::from_str("zmx"));
    v.push(String::from_str("list"));
    assert(str_views(v@) =~= seq!["zmx"@, "list"@]);
    v
}

/// List all zmx sessions, from the output of the list command (`None` when
/// it failed, which counts as no sessions).
pub fn list_sessions(output: Option<&str>) -> (r: Vec<ZmxSession>)
    ensures
        session_views(r@) == listed_sessions(
            match output {
                Some(o) => Some(o@),
                None => None,
            },
        ),
{
    match output {
        Some(o) => parse_zmx_list(o),
        None => {
            let r: Vec<ZmxSession> = Vec::new();
            assert(session_views(r@) =~= Seq::<SessionView>::empty());
            r
        },
    }
}

/// Kill a zmx session: the command that does it.
pub fn kill_session(name: &str) -> (r: Vec<String>)
    ensures
        str_views(r@) == seq!["zmx"@, "kill"@, name@],
{
    let mut v: Vec<String> = Vec::new();
    v.push(String::from_str("zmx"));
    v.push(String::from_str("kill"));
    v.push(String::from_str(name));
    assert(str_views(v@) =~= seq!["zmx"@, "kill"@, name@]);
    v
}

// ---------------------------------------------------------------------------
// Names
// ---------------------------------------------------------------------------

/// `repo.branch`.
pub open spec fn session_name_of(repo_name: Seq<char>, branch: Seq<char>) -> Seq<char> {
    repo_name + "."@ + branch
}

/// A session belongs to a group named `base` when it is `base` itself or `base.<anything>`.
pub open spec fn in_group(name: Seq<char>, base: Seq<char>) -> bool {
    name == base || has_prefix(name, base + "."@)
}

/// Base session name from repo name and branch.
/// Uses dot separator since zmx uses names as socket filenames (no slashes).
pub fn session_name(repo_name: &str, branch: &str) -> (r: String)
    ensures
        r@ == session_name_of(repo_name@, branch@),
{
    let mut s = String::from_str(repo_name);
    s.append(".");
    s.append(branch);
    s
}

/// `base.`
pub(crate) fn dotted(base: &str) -> (r: Vec<char>)
    ensures
        r@ == base@ + "."@,
{
    let mut s = String::from_str(base);
    s.append(".");
    chars_of(s.as_str())
}

/// Whether `name` is `base` or starts with `base.` (given as `base_dot`).
pub(crate) fn is_in_group(name: &String, base: &Vec<char>, base_dot: &Vec<char>) -> (b: bool)
    ensures
        b == (name@ == base@ || has_prefix(name@, base_dot@)),
{
    let n = chars_of(name.as_str());
    chars_eq(&n, base) || starts_with(&n, base_dot)
}

/// The first session named `name`.
pub open spec fn first_named(ss: Seq<ZmxSession>, name: Seq<char>) -> Option<ZmxSession>
    decreases ss.len(),
{
    if ss.len() == 0 {
        None
    } else if ss[0].name@ == name {
        Some(ss[0])
    } else {
        first_named(ss.drop_first(), name)
    }
}

/// Find a zmx session by name among the listed sessions.
pub fn find_session(name: &str, sessions: &Vec<ZmxSession>) -> (r: Option<ZmxSession>)
    ensures
        match first_named(sessions@, name@) {
            Some(s) => r is Some && r->0@ == s@,
            None => r is None,
        },
{
    let mut i: usize = 0;
    assert(sessions@.skip(0) =~= sessions@);
    while i < sessions.len()
        invariant
            i <= sessions.len(),
            first_named(sessions@.skip(i as int), name@) == first_named(sessions@, name@),
        decreases sessions.len() - i,
    {
        assert(sessions@.skip(i as int).drop_first() =~= sessions@.skip(i + 1));
        assert(sessions@.skip(i as int)[0] == sessions@[i as int]);
        if str_eq(sessions[i].name.as_str(), name) {
            return Some(sessions[i].duplicate());
        }
        i = i + 1;
    }
    None
}

/// `cd '<dir>' && exec ${SHELL:-sh}`
pub open spec fn cd_and_shell(worktree_path: Seq<char>) -> Seq<char> {
    "cd '"@ + worktree_path + "' && exec ${SHELL:-sh}"@
}

/// The characters of `cd '<dir>' && exec ${SHELL:-sh}`.
fn cd_and_shell_string(worktree_path: &str) -> (r: String)
    ensures
        r@ == cd_and_shell(worktree_path@),
{
    let mut s = String::from_str("cd '");
    s.append(worktree_path);
    s.append("' && exec ${SHELL:-sh}");
    s
}

/// Build the zmx attach command for a worktree session.
/// Passes the command to zmx attach so it creates-and-attaches in one step.
/// Note: if the client disconnects, the session dies because zmx ties the
/// session lifecycle to the initial command.
pub fn attach_command(session_name: &str, worktree_path: &str) -> (r: Vec<String>)
    ensures
        str_views(r@) == seq![
            "zmx"@,
            "attach"@,
            session_name@,
            "sh"@,
            "-c"@,
            cd_and_shell(worktree_path@),
        ],
{
    let mut v: Vec<String> = Vec::new();
    v.push(String::from_str("zmx"));
    v.push(String::from_str("attach"));
    v.push(String::from_str(session_name));
    v.push(String::from_str("sh"));
    v.push(String::from_str("-c"));
    v.push(cd_and_shell_string(worktree_path));
    assert(str_views(v@) =~= seq![
        "zmx"@,
        "attach"@,
        session_name@,
        "sh"@,
        "-c"@,
        cd_and_shell(worktree_path@),
    ]);
    v
}

/// Decides how to make sure a zmx session exists: `None` when a listed session
/// already has the name, else the `zmx run` command that creates it daemonized
/// in the worktree directory with the default shell.
pub fn ensure_session(session_name: &str, worktree_path: &str, sessions: &Vec<ZmxSession>) -> (r:
    Option<Vec<String>>)
    ensures
        first_named(sessions@, session_name@) is Some ==> r is None,
        first_named(sessions@, session_name@) is None ==> r is Some && str_views(r->0@) == seq![
            "zmx"@,
            "run"@,
            session_name@,
            "sh"@,
            "-c"@,
            cd_and_shell(worktree_path@),
        ],
{
    if find_session(session_name, sessions).is_some() {
        return None;
    }
    let mut v: Vec<String> = Vec::new();
    v.push(String::from_str("zmx"));
    v.push(String::from_str("run"));
    v.push(String::from_str(session_name));
    v.push(String::from_str("sh"));
    v.push(String::from_str("-c"));
    v.push(cd_and_shell_string(worktree_path));
    assert(str_views(v@) =~= seq![
        "zmx"@,
        "run"@,
        session_name@,
        "sh"@,
        "-c"@,
        cd_and_shell(worktree_path@),
    ]);
    Some(v)
}

// ---------------------------------------------------------------------------
// Choosing sessions
// ---------------------------------------------------------------------------

/// Keeps the sessions whose names are in the group `base`.
fn filter_group(base: &str, sessions: Vec<ZmxSession>) -> (r: Vec<ZmxSession>)
    ensures
        r@ == sessions@.filter(|s: ZmxSession| in_group(s.name@, base@)),
{
    let base_chars = chars_of(base);
    let base_dot = dotted(base);
    let ghost orig = sessions@;
    let mut sessions = sessions;
    let mut r: Vec<ZmxSession> = Vec::new();
    let ghost mut n: int = 0;
    assert(orig.skip(0) =~= orig);
    proof {
        reveal(Seq::filter);
        assert(orig.take(0).filter(|s: ZmxSession| in_group(s.name@, base@)) =~= r@);
    }
    while sessions.len() > 0
        invariant
            0 <= n <= orig.len(),
            sessions@ == orig.skip(n),
            r@ == orig.take(n).filter(|s: ZmxSession| in_group(s.name@, base@)),
            base_chars@ == base@,
            base_dot@ == base@ + "."@,
        decreases sessions.len(),
    {
        let s = sessions.remove(0);
        assert(s == orig[n]);
        assert(sessions@ =~= orig.skip(n + 1));
        proof {
            crate::sort::lemma_filter_push(orig.take(n), s, |s: ZmxSession| in_group(s.name@, base@));
            assert(orig.take(n + 1) =~= orig.take(n).push(s));
        }
        if is_in_group(&s.name, &base_chars, &base_dot) {
            r.push(s);
        }
        proof {
            n = n + 1;
        }
    }
    assert(orig.take(n) =~= orig);
    r
}

/// Sorts sessions by name, keeping the order of equal names.
pub fn sort_sessions_by_name(sessions: Vec<ZmxSession>) -> (r: Vec<ZmxSession>)
    ensures
        stable_sort_str(r@, sessions@, |s: ZmxSession| s.name@),
        r@.len() == sessions@.len(),
{
    let mut keys: Vec<Vec<char>> = Vec::new();
    let mut i: usize = 0;
    while i < sessions.len()
        invariant
            i <= sessions.len(),
            keys@.len() == i,
            forall|j: int| 0 <= j < i ==> keys@[j]@ == sessions@[j].name@,
        decreases sessions.len() - i,
    {
        keys.push(chars_of(sessions[i].name.as_str()));
        i = i + 1;
    }
    sort_by_str_key(sessions, keys, Ghost(|s: ZmxSession| s.name@))
}

/// Find all sessions belonging to a worktree (base + numbered: foo.main, foo.main.2, etc.),
/// sorted by name so the base comes first.
pub fn find_worktree_sessions(repo_name: &str, branch: &str, sessions: Vec<ZmxSession>) -> (r: Vec<
    ZmxSession,
>)
    ensures
        stable_sort_str(
            r@,
            sessions@.filter(
                |s: ZmxSession| in_group(s.name@, session_name_of(repo_name@, branch@)),
            ),
            |s: ZmxSession| s.name@,
        ),
{
    let base = session_name(repo_name, branch);
    let matches = filter_group(base.as_str(), sessions);
    sort_sessions_by_name(matches)
}

/// The number after `prefix.` in a session name, or 0 when there is none.
pub open spec fn suffix_number(name: Seq<char>, prefix: Seq<char>) -> u128 {
    match strip_prefix(name, prefix + "."@) {
        Some(rest) => match parse_u32(rest) {
            Some(n) => n as u128,
            None => 0,
        },
        None => 0,
    }
}

/// The number after `prefix.` (given as `prefix_dot`) in a session name, or 0.
fn suffix_number_of(name: &String, prefix_dot: &Vec<char>) -> (r: u128)
    ensures
        r == (match strip_prefix(name@, prefix_dot@) {
            Some(rest) => match parse_u32(rest) {
                Some(n) => n as u128,
                None => 0,
            },
            None => 0,
        }),
{
    let n = chars_of(name.as_str());
    match chars_strip_prefix(&n, prefix_dot) {
        Some(rest) => match parse_u32_chars(&rest) {
            Some(k) => k as u128,
            None => 0,
        },
        None => 0,
    }
}

/// Find all sessions of a gmx session group `prefix` (the session `prefix`
/// and `prefix.<anything>`), sorted by numeric suffix: name.1, name.2, name.10
/// (not alphabetical); names without a numeric suffix count as 0.
pub fn find_sessions_by_prefix(prefix: &str, sessions: Vec<ZmxSession>) -> (r: Vec<ZmxSession>)
    ensures
        stable_sort_num(
            r@,
            sessions@.filter(|s: ZmxSession| in_group(s.name@, prefix@)),
            |s: ZmxSession| suffix_number(s.name@, prefix@),
        ),
{
    let prefix_dot = dotted(prefix);
    let matches = filter_group(prefix, sessions);
    let mut keys: Vec<u128> = Vec::new();
    let mut i: usize = 0;
    while i < matches.len()
        invariant
            i <= matches.len(),
            prefix_dot@ == prefix@ + "."@,
            keys@.len() == i,
            forall|j: int| 0 <= j < i ==> keys@[j] == suffix_number(matches@[j].name@, prefix@),
        decreases matches.len() - i,
    {
        keys.push(suffix_number_of(&matches[i].name, &prefix_dot));
        i = i + 1;
    }
    sort_by_num_key(matches, keys, Ghost(|s: ZmxSession| suffix_number(s.name@, prefix@)))
}

/// `base.i`
pub open spec fn numbered_name(base: Seq<char>, i: nat) -> Seq<char> {
    base + "."@ + dec(i)
}

/// Some listed session has the name `name`.
pub open spec fn name_taken(sessions: Seq<ZmxSession>, name: Seq<char>) -> bool {
    exists|k: int| 0 <= k < sessions.len() && sessions[k].name@ == name
}

/// `r` is `base.i` for the least `i >= 2` not taken by a listed session.
pub open spec fn is_next_numbered_name(r: Seq<char>, base: Seq<char>, sessions: Seq<ZmxSession>) -> bool {
    exists|i: nat|
        #![trigger numbered_name(base, i)]
        i >= 2 && r == numbered_name(base, i) && !name_taken(sessions, numbered_name(base, i))
            && forall|j: nat| 2 <= j < i ==> name_taken(sessions, #[trigger] numbered_name(base, j))
}

/// Different numbers give different names.
pub proof fn lemma_numbered_name_injective(base: Seq<char>, a: nat, b: nat)
    ensures
        numbered_name(base, a) == numbered_name(base, b) ==> a == b,
{
    if numbered_name(base, a) == numbered_name(base, b) {
        let p = base + "."@;
        assert(dec(a) =~= numbered_name(base, a).skip(p.len() as int));
        assert(dec(b) =~= numbered_name(base, b).skip(p.len() as int));
        lemma_dec_injective(a, b);
    }
}

/// If `base.2 .. base.(i-1)` are all taken then there are at least `i - 2` sessions.
pub proof fn lemma_taken_bound(base: Seq<char>, sessions: Seq<ZmxSession>, i: nat)
    requires
        i >= 2,
        forall|j: nat| 2 <= j < i ==> name_taken(sessions, #[trigger] numbered_name(base, j)),
    ensures
        i - 2 <= sessions.len(),
{
    let x = vstd::set_lib::set_int_range(2, i as int);
    vstd::set_lib::lemma_int_range(2, i as int);
    let f = |j: int|
        choose|k: int| 0 <= k < sessions.len() && sessions[k].name@ == numbered_name(base, j as nat);
    assert forall|j: int| #[trigger] x.contains(j) implies 0 <= f(j) < sessions.len()
        && sessions[f(j)].name@ == numbered_name(base, j as nat) by {
        assert(name_taken(sessions, numbered_name(base, j as nat)));
    }
    assert(vstd::relations::injective_on(f, x)) by {
        assert forall|a: int, b: int| x.contains(a) && x.contains(b) && #[trigger] f(a) == #[trigger] f(
            b,
        ) implies a == b by {
            lemma_numbered_name_injective(base, a as nat, b as nat);
        }
    }
    let y = x.map(f);
    vstd::set_lib::lemma_map_size(x, y, f);
    let z = vstd::set_lib::set_int_range(0, sessions.len() as int);
    vstd::set_lib::lemma_int_range(0, sessions.len() as int);
    assert(y.subset_of(z));
    vstd::set_lib::lemma_len_subset(y, z);
}

/// `base.i` as a string.
fn numbered_name_string(base: &str, i: u128) -> (r: String)
    ensures
        r@ == numbered_name(base@, i as nat),
{
    let mut s = String::from_str(base);
    s.append(".");
    let d = dec_chars(i);
    append_chars(&mut s, &d);
    s
}

/// Whether some listed session is named `name`.
pub(crate) fn is_taken(sessions: &Vec<ZmxSession>, name: &String) -> (b: bool)
    ensures
        b == name_taken(sessions@, name@),
{
    let mut k: usize = 0;
    while k < sessions.len()
        invariant
            k <= sessions.len(),
            forall|m: int| 0 <= m < k ==> sessions@[m].name@ != name@,
        decreases sessions.len() - k,
    {
        if str_eq(sessions[k].name.as_str(), name.as_str()) {
            return true;
        }
        k = k + 1;
    }
    false
}

/// Generate the next available session name from a base prefix.
/// Always uses numbered suffixes (.2, .3, etc.) since .1 is the first pane.
pub fn next_session_name_from_base(base: &str, sessions: &Vec<ZmxSession>) -> (r: String)
    ensures
        is_next_numbered_name(r@, base@, sessions@),
{
    let mut i: u128 = 2;
    loop
        invariant
            2 <= i <= sessions.len() + 2,
            forall|j: nat| 2 <= j < i ==> name_taken(sessions@, #[trigger] numbered_name(base@, j)),
        decreases sessions.len() + 2 - i,
    {
        let candidate = numbered_name_string(base, i);
        if !is_taken(sessions, &candidate) {
            return candidate;
        }
        proof {
            assert forall|j: nat| 2 <= j < i + 1 implies name_taken(
                sessions@,
                #[trigger] numbered_name(base@, j),
            ) by {}
            lemma_taken_bound(base@, sessions@, (i + 1) as nat);
        }
        i = i + 1;
    }
}

/// A copy of a session list with the same contents.
pub fn copy_sessions(v: &Vec<ZmxSession>) -> (r: Vec<ZmxSession>)
    ensures
        r@ == v@,
{
    let mut r: Vec<ZmxSession> = Vec::new();
    let mut i: usize = 0;
    while i < v.len()
        invariant
            i <= v.len(),
            r@ == v@.take(i as int),
        decreases v.len() - i,
    {
        r.push(v[i].duplicate());
        assert(v@.take(i + 1) =~= v@.take(i as int).push(v@[i as int]));
        i = i + 1;
    }
    assert(v@.take(i as int) =~= v@);
    r
}

/// The name for a new session of the group `base`: `base` itself while no
/// listed session has it, else the next free numbered name.
pub open spec fn is_new_session_name(r: Seq<char>, base: Seq<char>, sessions: Seq<ZmxSession>) -> bool {
    &&& !name_taken(sessions, base) ==> r == base
    &&& name_taken(sessions, base) ==> is_next_numbered_name(r, base, sessions)
}

/// Generate the next available session name for a worktree: `repo.branch`
/// while no session has it, else `repo.branch.2`, `repo.branch.3`, and so on.
pub fn next_session_name(repo_name: &str, branch: &str, sessions: &Vec<ZmxSession>) -> (r: String)
    ensures
        !name_taken(sessions@, session_name_of(repo_name@, branch@)) ==> r@ == session_name_of(
            repo_name@,
            branch@,
        ),
        name_taken(sessions@, session_name_of(repo_name@, branch@)) ==> is_next_numbered_name(
            r@,
            session_name_of(repo_name@, branch@),
            sessions@,
        ),
{
    let base = session_name(repo_name, branch);
    if !is_taken(sessions, &base) {
        return base;
    }
    next_session_name_from_base(base.as_str(), sessions)
}

// ---------------------------------------------------------------------------
// Paths
// ---------------------------------------------------------------------------

/// A path piece that names something (not empty, not `.`).
pub open spec fn is_named_piece(p: Seq<char>) -> bool {
    p.len() > 0 && p != "."@
}

/// The last naming piece of a path split at `/`.
pub open spec fn last_named_piece(pieces: Seq<Seq<char>>) -> Option<Seq<char>>
    decreases pieces.len(),
{
    if pieces.len() == 0 {
        None
    } else if is_named_piece(pieces.last()) {
        Some(pieces.last())
    } else {
        last_named_piece(pieces.drop_last())
    }
}

/// `Path::file_name`: the last component of the path when it is a normal
/// component (not `..`); trailing slashes and `.` components are skipped.
pub open spec fn file_name(path: Seq<char>) -> Option<Seq<char>> {
    match last_named_piece(split_on(path, '/')) {
        Some(p) => if p == ".."@ {
            None
        } else {
            Some(p)
        },
        None => None,
    }
}

/// The repo name of a path: its file name, else the path itself.
pub open spec fn repo_name_of(path: Seq<char>) -> Seq<char> {
    match file_name(path) {
        Some(f) => f,
        None => path,
    }
}

/// `Path::file_name` of a path given as a string.
pub fn path_file_name(path: &str) -> (r: Option<String>)
    ensures
        match r {
            Some(f) => file_name(path@) == Some(f@),
            None => file_name(path@) is None,
        },
{
    let chars = chars_of(path);
    let pieces = split_chars(&chars, '/');
    let dot = chars_of(".");
    let dotdot = chars_of("..");
    let mut j = pieces.len();
    assert(views(pieces@).take(j as int) =~= views(pieces@));
    while j > 0
        invariant
            j <= pieces.len(),
            dot@ == "."@,
            dotdot@ == ".."@,
            views(pieces@) == split_on(path@, '/'),
            last_named_piece(views(pieces@).take(j as int)) == last_named_piece(
                views(pieces@),
            ),
        decreases j,
    {
        let ghost pre = views(pieces@).take(j as int);
        assert(pre.drop_last() =~= views(pieces@).take(j - 1));
        assert(pre.last() == pieces@[j - 1]@);
        let p = &pieces[j - 1];
        if p.len() > 0 && !chars_eq(p, &dot) {
            if chars_eq(p, &dotdot) {
                return None;
            }
            return Some(string_of(p));
        }
        j = j - 1;
    }
    None
}

/// Extract repo name from a path.
pub fn repo_name_from_path(path: &str) -> (r: String)
    ensures
        r@ == repo_name_of(path@),
{
    match path_file_name(path) {
        Some(f) => f,
        None => String::from_str(path),
    }
}

// ---------------------------------------------------------------------------
// What a session line's fields give
// ---------------------------------------------------------------------------

/// A field `key=value`.
pub open spec fn render_field(kv: (Seq<char>, Seq<char>)) -> Seq<char> {
    kv.0 + "="@ + kv.1
}

/// The fields `kvs`, written `key=value` and separated by tabs.
pub open spec fn fields_text(kvs: Seq<(Seq<char>, Seq<char>)>) -> Seq<char> {
    join(kvs.map_values(|kv: (Seq<char>, Seq<char>)| render_field(kv)), "\t"@)
}

/// A field that reads back: no tab in it, no `=` in its key.
pub open spec fn field_ok(kv: (Seq<char>, Seq<char>)) -> bool {
    free_of(kv.0, '\t') && free_of(kv.0, '=') && free_of(kv.1, '\t')
}

/// Some field has key `key`.
pub open spec fn has_key(kvs: Seq<(Seq<char>, Seq<char>)>, key: Seq<char>) -> bool {
    exists|i: int| 0 <= i < kvs.len() && (#[trigger] kvs[i]).0 == key
}

/// Field `i` is the last with key `key`.
pub open spec fn last_with(kvs: Seq<(Seq<char>, Seq<char>)>, key: Seq<char>, i: int) -> bool {
    0 <= i < kvs.len() && kvs[i].0 == key && forall|j: int| i < j < kvs.len() ==> (#[trigger] kvs[j]).0 != key
}

/// A field splits at its first `=` into its key and value.
proof fn lemma_split_field(kv: (Seq<char>, Seq<char>))
    requires
        free_of(kv.0, '='),
    ensures
        split_once(render_field(kv), '=') == Some(kv),
{
    reveal_strlit("=");
    let s = render_field(kv);
    let n = kv.0.len() as int;
    assert(s[n] == '=');
    assert forall|j: int| 0 <= j < n implies s[j] != '=' by {
        assert(s[j] == kv.0[j]);
    }
    lemma_find_first_at(s, '=', n);
    assert(s.take(n) =~= kv.0);
    assert(s.skip(n + 1) =~= kv.1);
}

/// The value that the last field with `key` carries, looked up in the
/// written fields.
proof fn lemma_field_value(kvs: Seq<(Seq<char>, Seq<char>)>, key: Seq<char>)
    requires
        forall|i: int| 0 <= i < kvs.len() ==> free_of((#[trigger] kvs[i]).0, '='),
    ensures
        ({
            let fv = field_value(kvs.map_values(|kv: (Seq<char>, Seq<char>)| render_field(kv)), key);
            &&& !has_key(kvs, key) ==> fv is None
            &&& forall|i: int| last_with(kvs, key, i) ==> fv == Some(kvs[i].1)
        }),
    decreases kvs.len(),
{
    let ps = kvs.map_values(|kv: (Seq<char>, Seq<char>)| render_field(kv));
    if kvs.len() > 0 {
        let d = kvs.drop_last();
        let n = kvs.len() - 1;
        assert forall|i: int| 0 <= i < d.len() implies free_of((#[trigger] d[i]).0, '=') by {
            assert(d[i] == kvs[i]);
        }
        lemma_field_value(d, key);
        assert(ps.drop_last() =~= d.map_values(|kv: (Seq<char>, Seq<char>)| render_field(kv)));
        assert(free_of(kvs[n].0, '='));
        lemma_split_field(kvs[n]);
        assert(ps.last() == render_field(kvs[n]));
        if kvs[n].0 == key {
            assert(has_key(kvs, key));
            assert forall|i: int| last_with(kvs, key, i) implies i == n by {
                if i < n {
                    assert(kvs[n].0 != key);
                }
            }
        } else {
            assert(!has_key(kvs, key) ==> !has_key(d, key)) by {
                if has_key(d, key) {
                    let i = choose|i: int| 0 <= i < d.len() && (#[trigger] d[i]).0 == key;
                    assert(kvs[i] == d[i]);
                }
            }
            assert forall|i: int| last_with(kvs, key, i) implies last_with(d, key, i) by {
                assert(i < n);
                assert(d[i] == kvs[i]);
                assert forall|j: int| i < j < d.len() implies (#[trigger] d[j]).0 != key by {
                    assert(d[j] == kvs[j]);
                }
            }
        }
    }
}

/// A session line read field by field: it describes a session exactly when
/// it has a `session_name` field, and each of the session's fields is the
/// value of the last field with its own key (`pid` and `started_in` absent
/// without such a field, `clients` 0 without one or when not a number).
pub proof fn law_session_fields(kvs: Seq<(Seq<char>, Seq<char>)>)
    requires
        forall|i: int| 0 <= i < kvs.len() ==> field_ok(#[trigger] kvs[i]),
    ensures
        ({
            let s = session_of_fields(fields_text(kvs));
            &&& s is Some <==> has_key(kvs, "session_name"@)
            &&& forall|i: int| #[trigger] last_with(kvs, "session_name"@, i) ==> s->0.name == kvs[i].1
            &&& s is Some ==> {
                &&& (!has_key(kvs, "pid"@) ==> s->0.pid is None)
                &&& (forall|i: int| #[trigger] last_with(kvs, "pid"@, i) ==> s->0.pid == Some(kvs[i].1))
                &&& (!has_key(kvs, "started_in"@) ==> s->0.started_in is None)
                &&& (forall|i: int| #[trigger] last_with(kvs, "started_in"@, i) ==> s->0.started_in == Some(
                    kvs[i].1,
                ))
                &&& (!has_key(kvs, "clients"@) ==> s->0.clients == 0)
                &&& (forall|i: int| #[trigger] last_with(kvs, "clients"@, i) ==> s->0.clients == match parse_u32(
                    kvs[i].1,
                ) {
                    Some(n) => n,
                    None => 0,
                })
            }
        }),
{
    reveal_strlit("\t");
    let ps = kvs.map_values(|kv: (Seq<char>, Seq<char>)| render_field(kv));
    assert("\t"@ =~= seq!['\t']);
    assert forall|i: int| 0 <= i < kvs.len() implies free_of((#[trigger] kvs[i]).0, '=') by {
        assert(field_ok(kvs[i]));
    }
    if kvs.len() > 0 {
        assert forall|i: int| 0 <= i < ps.len() implies free_of(#[trigger] ps[i], '\t') by {
            assert(field_ok(kvs[i]));
            reveal_strlit("=");
            let p = ps[i];
            assert(p == kvs[i].0 + "="@ + kvs[i].1);
            assert forall|j: int| 0 <= j < p.len() implies p[j] != '\t' by {
                if j < kvs[i].0.len() {
                    assert(p[j] == kvs[i].0[j]);
                } else if j > kvs[i].0.len() {
                    assert(p[j] == kvs[i].1[j - kvs[i].0.len() - 1]);
                }
            }
        }
        lemma_split_join(ps, '\t');
        assert(split_on(fields_text(kvs), '\t') == ps);
        lemma_field_value(kvs, "session_name"@);
        lemma_field_value(kvs, "pid"@);
        lemma_field_value(kvs, "started_in"@);
        lemma_field_value(kvs, "clients"@);
        if has_key(kvs, "session_name"@) {
            let i = choose|i: int| 0 <= i < kvs.len() && (#[trigger] kvs[i]).0 == "session_name"@;
            lemma_last_with_exists(kvs, "session_name"@, i);
        }
    } else {
        assert(fields_text(kvs) =~= Seq::<char>::empty());
        assert(split_on(Seq::<char>::empty(), '\t') =~= seq![Seq::<char>::empty()]);
        let e = seq![Seq::<char>::empty()];
        assert(split_once(Seq::<char>::empty(), '=') is None);
        assert(e.drop_last() =~= Seq::<Seq<char>>::empty());
        assert(e.last() == Seq::<char>::empty());
        assert(field_value(e.drop_last(), "session_name"@) is None);
        assert(field_value(e, "session_name"@) is None);
    }
}

/// Where some field has the key, a last one has it.
proof fn lemma_last_with_exists(kvs: Seq<(Seq<char>, Seq<char>)>, key: Seq<char>, i: int)
    requires
        0 <= i < kvs.len(),
        kvs[i].0 == key,
    ensures
        exists|m: int| #[trigger] last_with(kvs, key, m),
    decreases kvs.len() - i,
{
    if last_with(kvs, key, i) {
    } else {
        let j = choose|j: int| i < j < kvs.len() && (#[trigger] kvs[j]).0 == key;
        lemma_last_with_exists(kvs, key, j);
    }
}

} // verus!
