//! How a worktree and its session are shown in the list and in the picker.
use vstd::prelude::*;

use crate::ghostty_lib::worktree::{Worktree, WorktreeView, WorktreeWorkingTree};
use crate::ghostty_lib::zmx::ZmxSession;
use crate::paint::{dimmed, esc_free, green, lemma_dec_plain, lemma_no_reset, lemma_shows_concat, lemma_shows_join, lemma_shows_painted, lemma_shows_plain, painted, red, shows, yellow};
use crate::lines::{lemma_contains_trans, lemma_join_contains, lemma_join_first};
use crate::text::{contains_text, dec, dec_string, join, join_strings, lemma_dec_digits, str_views};

verus! {

/// Combined view of a worktree and its optional zmx session.
pub struct WorktreeDisplay<'a> {
    pub env_name: &'a str,
    pub repo_name: &'a str,
    pub worktree: &'a Worktree,
    pub session: Option<&'a ZmxSession>,
}

/// Where a session sorts: attached first, detached second, none last.
pub open spec fn session_rank(session: Option<&ZmxSession>) -> u8 {
    match session {
        Some(s) => if s.clients > 0 {
            0
        } else {
            1
        },
        None => 2,
    }
}

/// The names of the kinds of uncommitted changes present.
pub open spec fn status_words(wt: WorktreeWorkingTree) -> Seq<Seq<char>> {
    (if wt.staged {
        seq!["staged"@]
    } else {
        Seq::empty()
    }) + (if wt.modified {
        seq!["modified"@]
    } else {
        Seq::empty()
    }) + (if wt.untracked {
        seq!["untracked"@]
    } else {
        Seq::empty()
    })
}

/// The parts of the tracking summary: commits ahead (`↑n`) and behind
/// (`↓n`), the kinds of uncommitted changes (comma-separated), and the
/// added and deleted lines (`+a-d`), each only when there is something to say.
pub open spec fn tracking_parts(w: WorktreeView) -> Seq<Seq<char>> {
    (match w.remote {
        Some(rm) => (if rm.ahead > 0 {
            seq!["↑"@ + dec(rm.ahead as nat)]
        } else {
            Seq::empty()
        }) + (if rm.behind > 0 {
            seq!["↓"@ + dec(rm.behind as nat)]
        } else {
            Seq::empty()
        }),
        None => Seq::empty(),
    }) + (match w.working_tree {
        Some(wt) => (if status_words(wt).len() > 0 {
            seq![join(status_words(wt), ","@)]
        } else {
            Seq::empty()
        }) + (if wt.diff.added > 0 || wt.diff.deleted > 0 {
            seq!["+"@ + dec(wt.diff.added as nat) + "-"@ + dec(wt.diff.deleted as nat)]
        } else {
            Seq::empty()
        }),
        None => Seq::empty(),
    })
}

/// The tracking summary in plain text: its parts separated by spaces, or
/// `clean` when there are none.
pub open spec fn tracking_text(w: WorktreeView) -> Seq<char> {
    if tracking_parts(w).len() == 0 {
        "clean"@
    } else {
        join(tracking_parts(w), " "@)
    }
}

/// The picker's mark for a session: `●` attached, `◌` detached, blank for none.
pub open spec fn picker_mark(session: Option<&ZmxSession>) -> Seq<char> {
    match session {
        Some(s) => if s.clients > 0 {
            "●"@
        } else {
            "◌"@
        },
        None => " "@,
    }
}

/// The picker line: mark, place, `repo/branch`, and the tracking summary in
/// brackets unless the worktree is clean.
pub open spec fn picker_text(
    session: Option<&ZmxSession>,
    env_name: Seq<char>,
    repo_name: Seq<char>,
    w: WorktreeView,
) -> Seq<char> {
    picker_mark(session) + " "@ + env_name + ": "@ + repo_name + "/"@ + w.branch + (if tracking_text(w) == "clean"@ {
        Seq::<char>::empty()
    } else {
        " ["@ + tracking_text(w) + "]"@
    })
}

/// The time stamp of the worktree's last commit, or 0.
pub open spec fn commit_time(w: WorktreeView) -> u64 {
    match w.commit {
        Some(c) => c.timestamp,
        None => 0,
    }
}

impl<'a> WorktreeDisplay<'a> {
    /// Sort key: (has_session descending, commit_timestamp descending)
    pub fn sort_key(&self) -> (k: (u8, u64))
        ensures
            k == (session_rank(self.session), (u64::MAX - commit_time(self.worktree@)) as u64),
    {
        let session_rank: u8 = match &self.session {
            Some(s) => if s.is_attached() {
                0
            } else {
                1
            },
            None => 2,
        };
        let timestamp: u64 = match &self.worktree.commit {
            Some(c) => c.timestamp,
            None => 0,
        };
        // Invert timestamp so higher = earlier in sort (most recent first)
        (session_rank, u64::MAX - timestamp)
    }

    /// The tracking summary without colours.
    pub fn tracking_info_plain(&self) -> (r: String)
        ensures
            r@ == tracking_text(self.worktree@),
    {
        let mut parts: Vec<String> = Vec::new();
        let ghost w = self.worktree@;
        match &self.worktree.remote {
            Some(remote) => {
                if remote.ahead > 0 {
                    let mut p = String::from_str("↑");
                    p.append(dec_string(remote.ahead as u128).as_str());
                    parts.push(p);
                }
                if remote.behind > 0 {
                    let mut p = String::from_str("↓");
                    p.append(dec_string(remote.behind as u128).as_str());
                    parts.push(p);
                }
            },
            None => {},
        }
        let ghost first = str_views(parts@);
        match &self.worktree.working_tree {
            Some(wt) => {
                let mut status: Vec<String> = Vec::new();
                if wt.staged {
                    status.push(String::from_str("staged"));
                }
                if wt.modified {
                    status.push(String::from_str("modified"));
                }
                if wt.untracked {
                    status.push(String::from_str("untracked"));
                }
                assert(str_views(status@) =~= status_words(*wt));
                if status.len() > 0 {
                    parts.push(join_strings(&status, ","));
                }
                if wt.diff.added > 0 || wt.diff.deleted > 0 {
                    let mut p = String::from_str("+");
                    p.append(dec_string(wt.diff.added as u128).as_str());
                    p.append("-");
                    p.append(dec_string(wt.diff.deleted as u128).as_str());
                    parts.push(p);
                }
            },
            None => {},
        }
        assert(str_views(parts@) =~= tracking_parts(w));
        if parts.len() == 0 {
            String::from_str("clean")
        } else {
            join_strings(&parts, " ")
        }
    }

    /// Plain-text single-line display for the picker (no ANSI codes).
    pub fn picker_line(&self) -> (r: String)
        ensures
            r@ == picker_text(self.session, self.env_name@, self.repo_name@, self.worktree@),
    {
        let mut r = match &self.session {
            Some(s) => if s.is_attached() {
                String::from_str("●")
            } else {
                String::from_str("◌")
            },
            None => String::from_str(" "),
        };
        r.append(" ");
        r.append(self.env_name);
        r.append(": ");
        r.append(self.repo_name);
        r.append("/");
        r.append(self.worktree.branch.as_str());
        let status = self.tracking_info_plain();
        if !crate::text::str_eq(status.as_str(), "clean") {
            r.append(" [");
            r.append(status.as_str());
            r.append("]");
        }
        r
    }
}

/// The mark of a session in the list and its colour: `●` green when
/// attached, `◌` yellow when detached, `-` dimmed for none.
pub open spec fn indicator_of(session: Option<&ZmxSession>) -> (Seq<char>, Seq<char>) {
    match session {
        Some(s) => if s.clients > 0 {
            ("●"@, "32"@)
        } else {
            ("◌"@, "33"@)
        },
        None => ("-"@, "2"@),
    }
}

/// The state of a session in the list and its colour: `attached` green,
/// `detached` yellow, `none` dimmed.
pub open spec fn label_of(session: Option<&ZmxSession>) -> (Seq<char>, Seq<char>) {
    match session {
        Some(s) => if s.clients > 0 {
            ("attached"@, "32"@)
        } else {
            ("detached"@, "33"@)
        },
        None => ("none"@, "2"@),
    }
}

/// `arrow` coloured by `paint_green`, then `n`: shows `arrow` and `n`'s digits.
fn count_part(arrow: &str, n: u32, use_red: bool) -> (r: String)
    requires
        esc_free(arrow@),
    ensures
        shows(r@, arrow@ + dec(n as nat)),
{
    proof {
        lemma_no_reset(arrow@);
        lemma_dec_plain(n as nat);
        reveal_strlit("32");
        reveal_strlit("31");
        lemma_dec_digits(2);
    }
    let mut r = if use_red {
        red(arrow)
    } else {
        green(arrow)
    };
    proof {
        if use_red {
            lemma_shows_painted(arrow@, "31"@, r@);
        } else {
            lemma_shows_painted(arrow@, "32"@, r@);
        }
        lemma_shows_plain(dec(n as nat));
        lemma_shows_concat(r@, arrow@, dec(n as nat), dec(n as nat));
    }
    r.append(dec_string(n as u128).as_str());
    r
}

impl<'a> WorktreeDisplay<'a> {
    /// The session mark, coloured.
    pub fn session_indicator(&self) -> (r: String)
        ensures
            painted(indicator_of(self.session).0, indicator_of(self.session).1, r@),
    {
        proof {
            reveal_strlit("●");
            reveal_strlit("◌");
            reveal_strlit("-");
            lemma_no_reset("●"@);
            lemma_no_reset("◌"@);
            lemma_no_reset("-"@);
        }
        match &self.session {
            Some(s) => if s.is_attached() {
                green("●")
            } else {
                yellow("◌")
            },
            None => dimmed("-"),
        }
    }

    /// The session state, coloured.
    pub fn session_label(&self) -> (r: String)
        ensures
            painted(label_of(self.session).0, label_of(self.session).1, r@),
    {
        proof {
            reveal_strlit("attached");
            reveal_strlit("detached");
            reveal_strlit("none");
            lemma_no_reset("attached"@);
            lemma_no_reset("detached"@);
            lemma_no_reset("none"@);
        }
        match &self.session {
            Some(s) => if s.is_attached() {
                green("attached")
            } else {
                yellow("detached")
            },
            None => dimmed("none"),
        }
    }

    /// The tracking summary, coloured: ahead in green, behind in red, staged
    /// in yellow, modified in red, untracked dimmed, added lines green and
    /// deleted lines red, `clean` dimmed. Without its colours it reads as the
    /// plain summary.
    pub fn tracking_info(&self) -> (r: String)
        ensures
            shows(r@, tracking_text(self.worktree@)),
    {
        let ghost w = self.worktree@;
        let mut parts: Vec<String> = Vec::new();
        let ghost mut plain: Seq<Seq<char>> = Seq::empty();
        proof {
            reveal_strlit("↑");
            reveal_strlit("↓");
            reveal_strlit("staged");
            reveal_strlit("modified");
            reveal_strlit("untracked");
            reveal_strlit("+");
            reveal_strlit("-");
            reveal_strlit("clean");
            reveal_strlit(",");
            reveal_strlit(" ");
            reveal_strlit("32");
            reveal_strlit("33");
            reveal_strlit("31");
            reveal_strlit("2");
            lemma_dec_digits(2);
        }
        match &self.worktree.remote {
            Some(remote) => {
                if remote.ahead > 0 {
                    parts.push(count_part("↑", remote.ahead, false));
                    proof {
                        plain = plain.push("↑"@ + dec(remote.ahead as nat));
                    }
                }
                if remote.behind > 0 {
                    parts.push(count_part("↓", remote.behind, true));
                    proof {
                        plain = plain.push("↓"@ + dec(remote.behind as nat));
                    }
                }
            },
            None => {},
        }
        assert(parts@.len() == plain.len());
        assert(forall|i: int| 0 <= i < parts@.len() ==> shows(#[trigger] parts@[i]@, plain[i]));
        match &self.worktree.working_tree {
            Some(wt) => {
                let mut status: Vec<String> = Vec::new();
                let ghost mut words: Seq<Seq<char>> = Seq::empty();
                proof {
                    lemma_no_reset("staged"@);
                    lemma_no_reset("modified"@);
                    lemma_no_reset("untracked"@);
                }
                if wt.staged {
                    let p = yellow("staged");
                    proof {
                        lemma_shows_painted("staged"@, "33"@, p@);
                        words = words.push("staged"@);
                    }
                    status.push(p);
                }
                if wt.modified {
                    let p = red("modified");
                    proof {
                        lemma_shows_painted("modified"@, "31"@, p@);
                        words = words.push("modified"@);
                    }
                    status.push(p);
                }
                if wt.untracked {
                    let p = dimmed("untracked");
                    proof {
                        lemma_shows_painted("untracked"@, "2"@, p@);
                        words = words.push("untracked"@);
                    }
                    status.push(p);
                }
                assert(words =~= status_words(*wt));
                assert(status@.len() == words.len());
                assert(forall|i: int| 0 <= i < status@.len() ==> shows(#[trigger] str_views(status@)[i], words[i]));
                if status.len() > 0 {
                    let joined = join_strings(&status, ",");
                    proof {
                        lemma_shows_join(str_views(status@), words, ","@);
                        plain = plain.push(join(words, ","@));
                    }
                    parts.push(joined);
                }
                if wt.diff.added > 0 || wt.diff.deleted > 0 {
                    let a = count_part("+", wt.diff.added, false);
                    let d = count_part("-", wt.diff.deleted, true);
                    let mut p = a;
                    p.append(d.as_str());
                    proof {
                        lemma_shows_concat(
                            a@,
                            "+"@ + dec(wt.diff.added as nat),
                            d@,
                            "-"@ + dec(wt.diff.deleted as nat),
                        );
                        assert("+"@ + dec(wt.diff.added as nat) + ("-"@ + dec(wt.diff.deleted as nat)) =~= "+"@
                            + dec(wt.diff.added as nat) + "-"@ + dec(wt.diff.deleted as nat));
                        plain = plain.push("+"@ + dec(wt.diff.added as nat) + "-"@ + dec(wt.diff.deleted as nat));
                    }
                    parts.push(p);
                }
            },
            None => {},
        }
        assert(plain =~= tracking_parts(w));
        if parts.len() == 0 {
            proof {
                lemma_no_reset("clean"@);
            }
            let r = dimmed("clean");
            proof {
                lemma_shows_painted("clean"@, "2"@, r@);
            }
            r
        } else {
            proof {
                assert(forall|i: int| 0 <= i < parts@.len() ==> shows(#[trigger] str_views(parts@)[i], plain[i]));
                lemma_shows_join(str_views(parts@), plain, " "@);
            }
            join_strings(&parts, " ")
        }
    }
}

// ---------------------------------------------------------------------------
// What the tracking summary says
// ---------------------------------------------------------------------------

/// Nothing to report: no commits ahead or behind, no status flags, no added
/// or deleted lines.
pub open spec fn is_quiet(w: WorktreeView) -> bool {
    &&& match w.remote {
        Some(rm) => rm.ahead == 0 && rm.behind == 0,
        None => true,
    }
    &&& match w.working_tree {
        Some(wt) => !wt.staged && !wt.modified && !wt.untracked && wt.diff.added == 0
            && wt.diff.deleted == 0,
        None => true,
    }
}

/// The parts of the tracking summary: those about commits ahead and behind.
pub open spec fn remote_parts(w: WorktreeView) -> Seq<Seq<char>> {
    match w.remote {
        Some(rm) => (if rm.ahead > 0 {
            seq!["↑"@ + dec(rm.ahead as nat)]
        } else {
            Seq::empty()
        }) + (if rm.behind > 0 {
            seq!["↓"@ + dec(rm.behind as nat)]
        } else {
            Seq::empty()
        }),
        None => Seq::empty(),
    }
}

/// The parts of the tracking summary about the working tree.
pub open spec fn tree_parts(w: WorktreeView) -> Seq<Seq<char>> {
    match w.working_tree {
        Some(wt) => (if status_words(wt).len() > 0 {
            seq![join(status_words(wt), ","@)]
        } else {
            Seq::empty()
        }) + (if wt.diff.added > 0 || wt.diff.deleted > 0 {
            seq!["+"@ + dec(wt.diff.added as nat) + "-"@ + dec(wt.diff.deleted as nat)]
        } else {
            Seq::empty()
        }),
        None => Seq::empty(),
    }
}

/// The summary contains each of its parts.
proof fn lemma_summary_has_part(w: WorktreeView, i: int)
    requires
        0 <= i < tracking_parts(w).len(),
    ensures
        contains_text(tracking_text(w), tracking_parts(w)[i]),
{
    lemma_join_contains(tracking_parts(w), " "@, i);
}

/// The summary names the commits ahead and behind.
proof fn lemma_summary_counts(w: WorktreeView)
    ensures
        w.remote matches Some(rm) ==> {
            &&& rm.ahead > 0 ==> contains_text(tracking_text(w), "↑"@ + dec(rm.ahead as nat))
            &&& rm.behind > 0 ==> contains_text(tracking_text(w), "↓"@ + dec(rm.behind as nat))
        },
{
    let parts = tracking_parts(w);
    assert(parts == remote_parts(w) + tree_parts(w));
    match w.remote {
        Some(rm) => {
            if rm.ahead > 0 {
                assert(parts[0] == "↑"@ + dec(rm.ahead as nat));
                lemma_summary_has_part(w, 0);
            }
            if rm.behind > 0 {
                let k = if rm.ahead > 0 { 1int } else { 0int };
                assert(parts[k] == "↓"@ + dec(rm.behind as nat));
                lemma_summary_has_part(w, k);
            }
        },
        None => {},
    }
}

/// The summary names each status flag that is set, and the added and
/// deleted lines.
proof fn lemma_summary_tree(w: WorktreeView)
    ensures
        w.working_tree matches Some(wt) ==> {
            &&& wt.staged ==> contains_text(tracking_text(w), "staged"@)
            &&& wt.modified ==> contains_text(tracking_text(w), "modified"@)
            &&& wt.untracked ==> contains_text(tracking_text(w), "untracked"@)
            &&& (wt.diff.added > 0 || wt.diff.deleted > 0) ==> contains_text(
                tracking_text(w),
                "+"@ + dec(wt.diff.added as nat) + "-"@ + dec(wt.diff.deleted as nat),
            )
        },
{
    let parts = tracking_parts(w);
    let a = remote_parts(w);
    assert(parts == a + tree_parts(w));
    match w.working_tree {
        Some(wt) => {
            let sw = status_words(wt);
            let k = a.len() as int;
            if sw.len() > 0 {
                assert(parts[k] == join(sw, ","@));
                lemma_summary_has_part(w, k);
                assert forall|j: int| 0 <= j < sw.len() implies contains_text(
                    tracking_text(w),
                    #[trigger] sw[j],
                ) by {
                    lemma_join_contains(sw, ","@, j);
                    lemma_contains_trans(tracking_text(w), parts[k], sw[j]);
                }
                if wt.staged {
                    assert(sw[0] == "staged"@);
                }
                if wt.modified {
                    let m = if wt.staged { 1int } else { 0int };
                    assert(sw[m] == "modified"@);
                }
                if wt.untracked {
                    let u = (if wt.staged { 1int } else { 0int }) + (if wt.modified { 1int } else { 0int });
                    assert(sw[u] == "untracked"@);
                }
            }
            if wt.diff.added > 0 || wt.diff.deleted > 0 {
                let d = k + (if sw.len() > 0 { 1int } else { 0int });
                assert(parts[d] == "+"@ + dec(wt.diff.added as nat) + "-"@ + dec(wt.diff.deleted as nat));
                lemma_summary_has_part(w, d);
            }
        },
        None => {},
    }
}

/// The summary reads `clean` exactly when there is nothing to report.
proof fn lemma_summary_clean(w: WorktreeView)
    ensures
        tracking_text(w) == "clean"@ <==> is_quiet(w),
{
    reveal_strlit("clean");
    reveal_strlit("staged");
    reveal_strlit("modified");
    reveal_strlit("untracked");
    reveal_strlit("↑");
    reveal_strlit("↓");
    reveal_strlit("+");
    let parts = tracking_parts(w);
    let a = remote_parts(w);
    let b = tree_parts(w);
    assert(parts == a + b);
    if parts.len() > 0 {
        assert(parts[0].len() > 0 && parts[0][0] != 'c') by {
            if a.len() > 0 {
                assert(parts[0] == a[0]);
            } else {
                assert(parts[0] == b[0]);
                match w.working_tree {
                    Some(wt) => {
                        let sw = status_words(wt);
                        if sw.len() > 0 {
                            assert(sw[0].len() > 0 && sw[0][0] != 'c');
                            lemma_join_first(sw, ","@);
                        }
                    },
                    None => {},
                }
            }
        }
        lemma_join_first(parts, " "@);
        assert(tracking_text(w) != "clean"@) by {
            assert("clean"@[0] == 'c');
        }
    }
}

/// The tracking summary names every kind of change that is present (each
/// status flag by its word, the ahead and behind counts, the added and
/// deleted lines), and it reads `clean` exactly when there is nothing to
/// report.
pub proof fn law_tracking_summary(w: WorktreeView)
    ensures
        w.working_tree matches Some(wt) ==> {
            &&& wt.staged ==> contains_text(tracking_text(w), "staged"@)
            &&& wt.modified ==> contains_text(tracking_text(w), "modified"@)
            &&& wt.untracked ==> contains_text(tracking_text(w), "untracked"@)
            &&& (wt.diff.added > 0 || wt.diff.deleted > 0) ==> contains_text(
                tracking_text(w),
                "+"@ + dec(wt.diff.added as nat) + "-"@ + dec(wt.diff.deleted as nat),
            )
        },
        w.remote matches Some(rm) ==> {
            &&& rm.ahead > 0 ==> contains_text(tracking_text(w), "↑"@ + dec(rm.ahead as nat))
            &&& rm.behind > 0 ==> contains_text(tracking_text(w), "↓"@ + dec(rm.behind as nat))
        },
        tracking_text(w) == "clean"@ <==> is_quiet(w),
{
    lemma_summary_counts(w);
    lemma_summary_tree(w);
    lemma_summary_clean(w);
}

/// The picker line shows the tracking summary in brackets exactly when the
/// worktree has something to report.
pub proof fn law_picker_shows_changes(
    session: Option<&ZmxSession>,
    env_name: Seq<char>,
    repo_name: Seq<char>,
    w: WorktreeView,
)
    ensures
        picker_text(session, env_name, repo_name, w) == picker_mark(session) + " "@ + env_name
            + ": "@ + repo_name + "/"@ + w.branch + if is_quiet(w) {
            Seq::<char>::empty()
        } else {
            " ["@ + tracking_text(w) + "]"@
        },
{
    lemma_summary_clean(w);
}

} // verus!
