//! Which Ghostty terminals show which zmx sessions.
use vstd::prelude::*;

use crate::ghostty_lib::remote::copy_strings;
use crate::ghostty_lib::zmx::{dotted, in_group, is_in_group, session_name, session_name_of};
use crate::sort::lemma_filter_push;
use crate::strmap::{StrMap, has_key, key_index, lemma_key_index, unique_keys};
use crate::text::{chars_of, str_eq, str_views};

verus! {

/// The terminal ids of every session.
pub struct TerminalState {
    /// session_name -> list of Ghostty terminal IDs
    pub terminals: StrMap<Vec<String>>,
}

/// A session's terminal ids as character sequences.
pub open spec fn id_map(m: Map<Seq<char>, Vec<String>>) -> Map<Seq<char>, Seq<Seq<char>>> {
    m.map_values(|v: Vec<String>| str_views(v@))
}

/// The models of a list of `(session, ids)` entries.
pub open spec fn entry_views(v: Seq<(String, Vec<String>)>) -> Seq<(Seq<char>, Seq<Seq<char>>)> {
    v.map_values(|e: (String, Vec<String>)| (e.0@, str_views(e.1@)))
}

/// The ids of a session, or none for an unknown session.
pub open spec fn ids_or_empty(m: Map<Seq<char>, Seq<Seq<char>>>, s: Seq<char>) -> Seq<Seq<char>> {
    if m.contains_key(s) {
        m[s]
    } else {
        Seq::empty()
    }
}

/// `ids` without `tid`.
pub open spec fn ids_without(ids: Seq<Seq<char>>, tid: Seq<char>) -> Seq<Seq<char>> {
    ids.filter(|x: Seq<char>| x != tid)
}

/// The sessions after `tid` is removed from each: sessions left with no id
/// are dropped.
pub open spec fn without_terminal(m: Map<Seq<char>, Seq<Seq<char>>>, tid: Seq<char>) -> Map<
    Seq<char>,
    Seq<Seq<char>>,
> {
    Map::new(
        |k: Seq<char>| m.contains_key(k) && ids_without(m[k], tid).len() > 0,
        |k: Seq<char>| ids_without(m[k], tid),
    )
}

/// The sessions after each id of `stale` is removed in turn.
pub open spec fn without_terminals(m: Map<Seq<char>, Seq<Seq<char>>>, stale: Seq<Seq<char>>) -> Map<
    Seq<char>,
    Seq<Seq<char>>,
>
    decreases stale.len(),
{
    if stale.len() == 0 {
        m
    } else {
        without_terminal(without_terminals(m, stale.drop_last()), stale.last())
    }
}

/// Every `(session, id)` of a list of entries, entry by entry and id by id.
pub open spec fn terminal_pairs_of(es: Seq<(Seq<char>, Seq<Seq<char>>)>) -> Seq<(Seq<char>, Seq<char>)>
    decreases es.len(),
{
    if es.len() == 0 {
        Seq::empty()
    } else {
        terminal_pairs_of(es.drop_last()) + es.last().1.map_values(|id: Seq<char>| (es.last().0, id))
    }
}

/// Whether the check at `i` found the terminal alive; a position without a
/// check counts as alive.
pub open spec fn alive_at(alive: Seq<bool>, i: int) -> bool {
    i >= alive.len() || alive[i]
}

/// The ids of `pairs` whose check found them gone, in order.
pub open spec fn stale_ids(pairs: Seq<(Seq<char>, Seq<char>)>, alive: Seq<bool>) -> Seq<Seq<char>>
    decreases pairs.len(),
{
    if pairs.len() == 0 {
        Seq::empty()
    } else {
        stale_ids(pairs.drop_last(), alive) + (if alive_at(alive, pairs.len() - 1) {
            Seq::<Seq<char>>::empty()
        } else {
            seq![pairs.last().1]
        })
    }
}

/// A check result counts only where one was given.
pub open spec fn checked_alive(alive: Seq<bool>, i: int) -> bool {
    i < alive.len() && alive[i]
}

/// `i` is the first position of `c` whose check found the terminal alive.
pub open spec fn first_checked_alive(c: Seq<(Seq<char>, Seq<char>)>, alive: Seq<bool>, i: int) -> bool {
    &&& 0 <= i < c.len()
    &&& checked_alive(alive, i)
    &&& forall|j: int| 0 <= j < i ==> !checked_alive(alive, j)
}

/// The ids of `v` other than `tid`, in order.
fn ids_without_exec(v: &Vec<String>, tid: &str) -> (r: Vec<String>)
    ensures
        str_views(r@) == ids_without(str_views(v@), tid@),
{
    let mut r: Vec<String> = Vec::new();
    let mut i: usize = 0;
    proof {
        reveal(Seq::filter);
        assert(str_views(v@).take(0) =~= Seq::<Seq<char>>::empty());
        assert(str_views(r@) =~= ids_without(str_views(v@).take(0), tid@));
    }
    while i < v.len()
        invariant
            i <= v.len(),
            str_views(r@) == ids_without(str_views(v@).take(i as int), tid@),
        decreases v.len() - i,
    {
        proof {
            lemma_filter_push(str_views(v@).take(i as int), v@[i as int]@, |x: Seq<char>| x != tid@);
            assert(str_views(v@).take(i + 1) =~= str_views(v@).take(i as int).push(v@[i as int]@));
        }
        if !str_eq(v[i].as_str(), tid) {
            let ghost before = str_views(r@);
            r.push(v[i].clone());
            assert(str_views(r@) =~= before.push(v@[i as int]@));
        }
        i = i + 1;
    }
    assert(str_views(v@).take(i as int) =~= str_views(v@));
    r
}

/// Every `(session, id)` of `entries`, entry by entry and id by id.
pub fn terminal_pairs(entries: &Vec<(String, Vec<String>)>) -> (r: Vec<(String, String)>)
    ensures
        r@.map_values(|p: (String, String)| (p.0@, p.1@)) == terminal_pairs_of(entry_views(entries@)),
{
    let mut r: Vec<(String, String)> = Vec::new();
    let mut i: usize = 0;
    assert(entry_views(entries@).take(0) =~= Seq::<(Seq<char>, Seq<Seq<char>>)>::empty());
    while i < entries.len()
        invariant
            i <= entries.len(),
            r@.map_values(|p: (String, String)| (p.0@, p.1@)) == terminal_pairs_of(
                entry_views(entries@).take(i as int),
            ),
        decreases entries.len() - i,
    {
        let ghost es = entry_views(entries@);
        let ghost before = r@.map_values(|p: (String, String)| (p.0@, p.1@));
        assert(es.take(i + 1).drop_last() =~= es.take(i as int));
        let name = &entries[i].0;
        let ids = &entries[i].1;
        let ghost tail = str_views(ids@).map_values(|id: Seq<char>| (name@, id));
        let mut k: usize = 0;
        while k < ids.len()
            invariant
                k <= ids.len(),
                r@.map_values(|p: (String, String)| (p.0@, p.1@)) == before + tail.take(k as int),
                tail == str_views(ids@).map_values(|id: Seq<char>| (name@, id)),
            decreases ids.len() - k,
        {
            let ghost prev = r@;
            let item = (name.clone(), ids[k].clone());
            assert(item.0@ == name@ && item.1@ == ids@[k as int]@);
            r.push(item);
            assert(r@ == prev.push(item));
            assert(tail[k as int] == (name@, ids@[k as int]@));
            assert(r@.map_values(|p: (String, String)| (p.0@, p.1@)) =~= prev.map_values(
                |p: (String, String)| (p.0@, p.1@),
            ).push((name@, ids@[k as int]@)));
            assert(tail.take(k + 1) =~= tail.take(k as int).push(tail[k as int]));
            assert(r@.map_values(|p: (String, String)| (p.0@, p.1@)) =~= before + tail.take(k + 1));
            k = k + 1;
        }
        assert(tail.take(k as int) =~= tail);
        i = i + 1;
    }
    assert(entry_views(entries@).take(i as int) =~= entry_views(entries@));
    r
}

/// After `remove_terminal(tid)` no session lists `tid`, no session is left
/// without terminals, and every session left was there before.
pub proof fn law_removed_terminal_is_gone(m: Map<Seq<char>, Seq<Seq<char>>>, tid: Seq<char>, k: Seq<char>)
    requires
        without_terminal(m, tid).contains_key(k),
    ensures
        m.contains_key(k),
        !without_terminal(m, tid)[k].contains(tid),
        without_terminal(m, tid)[k].len() > 0,
{
    let f = ids_without(m[k], tid);
    if f.contains(tid) {
        let i = choose|i: int| 0 <= i < f.len() && f[i] == tid;
        m[k].lemma_filter_pred(|x: Seq<char>| x != tid, i);
    }
}

/// When every terminal was found alive, `cleanup` changes nothing.
pub proof fn law_cleanup_all_alive(m: Map<Seq<char>, Seq<Seq<char>>>, pairs: Seq<(Seq<char>, Seq<char>)>, alive: Seq<bool>)
    requires
        forall|i: int| 0 <= i < pairs.len() ==> #[trigger] alive_at(alive, i),
    ensures
        stale_ids(pairs, alive) == Seq::<Seq<char>>::empty(),
        without_terminals(m, stale_ids(pairs, alive)) == m,
    decreases pairs.len(),
{
    if pairs.len() > 0 {
        assert(alive_at(alive, pairs.len() - 1));
        law_cleanup_all_alive(m, pairs.drop_last(), alive);
        assert(stale_ids(pairs, alive) =~= Seq::<Seq<char>>::empty());
    }
}

/// After `add(session, tid)`, the session's terminals are the ones it had
/// followed by `tid`; no other session changes.
pub proof fn law_add_then_get(m: Map<Seq<char>, Seq<Seq<char>>>, session: Seq<char>, tid: Seq<char>, other: Seq<char>)
    requires
        other != session,
    ensures
        ({
            let after = m.insert(session, ids_or_empty(m, session).push(tid));
            &&& ids_or_empty(after, session) == ids_or_empty(m, session).push(tid)
            &&& ids_or_empty(after, other) == ids_or_empty(m, other)
        }),
{
}

impl TerminalState {
    /// The terminal ids of each session.
    pub open spec fn ids(&self) -> Map<Seq<char>, Seq<Seq<char>>> {
        id_map(self.terminals@)
    }

    /// The sessions with their ids, in the order the sessions were first added.
    pub open spec fn entries(&self) -> Seq<(Seq<char>, Seq<Seq<char>>)> {
        self.terminals.pairs().map_values(|e: (Seq<char>, Vec<String>)| (e.0, str_views(e.1@)))
    }

    /// The file the state is kept in, under the directory `base_dir`.
    pub fn state_path(base_dir: &str) -> (r: String)
        ensures
            r@ == crate::config::path_joined(base_dir@, "terminals.json"@),
    {
        crate::config::join_path(base_dir, "terminals.json")
    }

    /// A state with no sessions.
    pub fn new() -> (s: Self)
        ensures
            s.ids() == Map::<Seq<char>, Seq<Seq<char>>>::empty(),
            s.entries() == Seq::<(Seq<char>, Seq<Seq<char>>)>::empty(),
    {
        let s = TerminalState { terminals: StrMap::new() };
        assert(s.ids() =~= Map::<Seq<char>, Seq<Seq<char>>>::empty());
        assert(s.entries() =~= Seq::<(Seq<char>, Seq<Seq<char>>)>::empty());
        s
    }

    /// Add a terminal ID for a session.
    pub fn add(&mut self, session_name: &str, terminal_id: &str)
        ensures
            final(self).ids() == old(self).ids().insert(
                session_name@,
                ids_or_empty(old(self).ids(), session_name@).push(terminal_id@),
            ),
    {
        match self.terminals.find(session_name) {
            Some(i) => {
                let mut ids = copy_strings(self.terminals.value_at(i));
                ids.push(String::from_str(terminal_id));
                self.terminals.set_value_at(i, ids);
                assert(str_views(ids@) =~= str_views(old(self).terminals@[session_name@]@).push(
                    terminal_id@,
                ));
            },
            None => {
                let mut ids: Vec<String> = Vec::new();
                ids.push(String::from_str(terminal_id));
                self.terminals.insert(String::from_str(session_name), ids);
                assert(str_views(ids@) =~= Seq::<Seq<char>>::empty().push(terminal_id@));
            },
        }
        assert(self.ids() =~= old(self).ids().insert(
            session_name@,
            ids_or_empty(old(self).ids(), session_name@).push(terminal_id@),
        ));
    }

    /// Get all terminal IDs for a specific session.
    pub fn get(&self, session_name: &str) -> (r: Vec<String>)
        ensures
            str_views(r@) == ids_or_empty(self.ids(), session_name@),
    {
        match self.terminals.get(session_name) {
            Some(ids) => copy_strings(ids),
            None => {
                let r: Vec<String> = Vec::new();
                assert(str_views(r@) =~= Seq::<Seq<char>>::empty());
                r
            },
        }
    }

    /// All sessions with their terminal ids, in order.
    pub fn entry_list(&self) -> (r: Vec<(String, Vec<String>)>)
        ensures
            entry_views(r@) == self.entries(),
    {
        let mut r: Vec<(String, Vec<String>)> = Vec::new();
        let mut i: usize = 0;
        while i < self.terminals.len()
            invariant
                i <= self.terminals.pairs().len(),
                entry_views(r@) == self.entries().take(i as int),
            decreases self.terminals.pairs().len() - i,
        {
            let name = self.terminals.key_at(i).clone();
            let ids = copy_strings(self.terminals.value_at(i));
            let ghost prev = r@;
            assert(name@ == self.terminals.pairs()[i as int].0);
            assert(str_views(ids@) == str_views(self.terminals.pairs()[i as int].1@));
            r.push((name, ids));
            assert(entry_views(r@) =~= entry_views(prev).push(self.entries()[i as int]));
            assert(self.entries().take(i + 1) =~= self.entries().take(i as int).push(self.entries()[i as int]));
            assert(entry_views(r@) =~= self.entries().take(i + 1));
            i = i + 1;
        }
        assert(self.entries().take(i as int) =~= self.entries());
        r
    }

    /// Get all terminal IDs for all sessions belonging to a worktree.
    /// Matches base name and numbered variants: repo.branch, repo.branch.2, etc.
    pub fn get_worktree_terminals(&self, repo_name: &str, branch: &str) -> (r: Vec<(String, Vec<String>)>)
        ensures
            entry_views(r@) == self.entries().filter(
                |e: (Seq<char>, Seq<Seq<char>>)| in_group(e.0, session_name_of(repo_name@, branch@)),
            ),
    {
        let base = session_name(repo_name, branch);
        let base_chars = chars_of(base.as_str());
        let base_dot = dotted(base.as_str());
        let ghost pred = |e: (Seq<char>, Seq<Seq<char>>)| in_group(e.0, session_name_of(repo_name@, branch@));
        let mut r: Vec<(String, Vec<String>)> = Vec::new();
        let mut i: usize = 0;
        proof {
            reveal(Seq::filter);
            assert(self.entries().take(0) =~= Seq::<(Seq<char>, Seq<Seq<char>>)>::empty());
            assert(entry_views(r@) =~= self.entries().take(0).filter(pred));
        }
        while i < self.terminals.len()
            invariant
                i <= self.terminals.pairs().len(),
                base_chars@ == session_name_of(repo_name@, branch@),
                base_dot@ == session_name_of(repo_name@, branch@) + "."@,
                pred == (|e: (Seq<char>, Seq<Seq<char>>)| in_group(e.0, session_name_of(repo_name@, branch@))),
                entry_views(r@) == self.entries().take(i as int).filter(pred),
            decreases self.terminals.pairs().len() - i,
        {
            proof {
                lemma_filter_push(self.entries().take(i as int), self.entries()[i as int], pred);
                assert(self.entries().take(i + 1) =~= self.entries().take(i as int).push(
                    self.entries()[i as int],
                ));
            }
            let name = self.terminals.key_at(i);
            if is_in_group(name, &base_chars, &base_dot) {
                let ghost before = entry_views(r@);
                r.push((name.clone(), copy_strings(self.terminals.value_at(i))));
                assert(entry_views(r@) =~= before.push(self.entries()[i as int]));
            }
            i = i + 1;
        }
        assert(self.entries().take(i as int) =~= self.entries());
        r
    }

    /// Remove a specific terminal ID from all sessions, then drop the
    /// sessions left without terminals.
    pub fn remove_terminal(&mut self, terminal_id: &str)
        ensures
            final(self).ids() == without_terminal(old(self).ids(), terminal_id@),
    {
        let ghost m = self.ids();
        let ghost p = self.terminals.pairs();
        let n = self.terminals.len();
        let mut out: StrMap<Vec<String>> = StrMap::new();
        let mut i: usize = 0;
        while i < n
            invariant
                i <= p.len(),
                n == p.len(),
                p == self.terminals.pairs(),
                m == self.ids(),
                unique_keys(p),
                id_map(out@) == Map::new(
                    |k: Seq<char>| has_key(p.take(i as int), k) && ids_without(m[k], terminal_id@).len()
                        > 0,
                    |k: Seq<char>| ids_without(m[k], terminal_id@),
                ),
            decreases p.len() - i,
        {
            let ghost before = id_map(out@);
            let ghost k = p[i as int].0;
            proof {
                lemma_key_index(p, i as int);
                let q0 = p.take(i as int);
                let q1 = p.take(i + 1);
                assert forall|kk: Seq<char>| has_key(q1, kk) <==> (has_key(q0, kk) || kk == k) by {
                    if has_key(q1, kk) {
                        let j = choose|j: int| 0 <= j < q1.len() && (#[trigger] q1[j]).0 == kk;
                        if j < i {
                            assert(q0[j].0 == kk);
                        }
                    }
                    if has_key(q0, kk) {
                        let j = choose|j: int| 0 <= j < q0.len() && (#[trigger] q0[j]).0 == kk;
                        assert(q1[j].0 == kk);
                    }
                    if kk == k {
                        assert(q1[i as int].0 == kk);
                    }
                }
                if has_key(q0, k) {
                    let j = choose|j: int| 0 <= j < q0.len() && (#[trigger] q0[j]).0 == k;
                    assert(p[j].0 == p[i as int].0);
                }
            }
            let kept = ids_without_exec(self.terminals.value_at(i), terminal_id);
            if kept.len() > 0 {
                let name = self.terminals.key_at(i).clone();
                out.insert(name, kept);
                assert(id_map(out@) =~= before.insert(k, str_views(kept@)));
            }
            assert(id_map(out@) =~= Map::new(
                |kk: Seq<char>| has_key(p.take(i + 1), kk) && ids_without(m[kk], terminal_id@).len() > 0,
                |kk: Seq<char>| ids_without(m[kk], terminal_id@),
            ));
            i = i + 1;
        }
        assert(p.take(i as int) =~= p);
        self.terminals = out;
        assert(self.ids() =~= without_terminal(m, terminal_id@));
    }

    /// Remove all terminals for a session.
    pub fn remove_session(&mut self, session_name: &str)
        ensures
            final(self).ids() == old(self).ids().remove(session_name@),
    {
        self.terminals.remove(session_name);
        assert(self.ids() =~= old(self).ids().remove(session_name@));
    }

    /// Every `(session, terminal id)`, session by session: the terminals whose
    /// existence `cleanup` needs checked, in the order it takes the checks.
    pub fn all_terminals(&self) -> (r: Vec<(String, String)>)
        ensures
            r@.map_values(|p: (String, String)| (p.0@, p.1@)) == terminal_pairs_of(self.entries()),
    {
        terminal_pairs(&self.entry_list())
    }

    /// Validate all terminal IDs, removing ones that no longer exist in
    /// Ghostty. `alive[i]` tells whether the `i`th terminal of
    /// `all_terminals` still exists; each one found gone is removed in turn
    /// with `remove_terminal`.
    pub fn cleanup(&mut self, alive: &Vec<bool>)
        ensures
            final(self).ids() == without_terminals(
                old(self).ids(),
                stale_ids(terminal_pairs_of(old(self).entries()), alive@),
            ),
    {
        let pairs = self.all_terminals();
        let ghost pv = pairs@.map_values(|p: (String, String)| (p.0@, p.1@));
        let mut stale: Vec<String> = Vec::new();
        let mut i: usize = 0;
        assert(pv.take(0) =~= Seq::<(Seq<char>, Seq<char>)>::empty());
        while i < pairs.len()
            invariant
                i <= pairs.len(),
                pv == pairs@.map_values(|p: (String, String)| (p.0@, p.1@)),
                str_views(stale@) == stale_ids(pv.take(i as int), alive@),
            decreases pairs.len() - i,
        {
            assert(pv.take(i + 1).drop_last() =~= pv.take(i as int));
            let gone = i < alive.len() && !alive[i];
            if gone {
                let ghost before = str_views(stale@);
                stale.push(pairs[i].1.clone());
                assert(str_views(stale@) =~= before + seq![pv[i as int].1]);
            } else {
                assert(stale_ids(pv.take(i + 1), alive@) =~= stale_ids(pv.take(i as int), alive@));
            }
            i = i + 1;
        }
        assert(pv.take(i as int) =~= pv);
        let ghost m = old(self).ids();
        let mut j: usize = 0;
        assert(str_views(stale@).take(0) =~= Seq::<Seq<char>>::empty());
        while j < stale.len()
            invariant
                j <= stale.len(),
                self.ids() == without_terminals(m, str_views(stale@).take(j as int)),
            decreases stale.len() - j,
        {
            assert(str_views(stale@).take(j + 1).drop_last() =~= str_views(stale@).take(j as int));
            self.remove_terminal(stale[j].as_str());
            j = j + 1;
        }
        assert(str_views(stale@).take(j as int) =~= str_views(stale@));
    }

    /// Every `(session, terminal id)` of the worktree's sessions: the
    /// terminals that `find_valid_terminal` needs checked, in its order.
    pub fn worktree_candidates(&self, repo_name: &str, branch: &str) -> (r: Vec<(String, String)>)
        ensures
            r@.map_values(|p: (String, String)| (p.0@, p.1@)) == terminal_pairs_of(
                self.entries().filter(
                    |e: (Seq<char>, Seq<Seq<char>>)| in_group(e.0, session_name_of(repo_name@, branch@)),
                ),
            ),
    {
        terminal_pairs(&self.get_worktree_terminals(repo_name, branch))
    }

    /// Find the first valid terminal ID for any session of a worktree:
    /// the first of `worktree_candidates` whose check in `alive` (same
    /// positions) found it alive.
    pub fn find_valid_terminal(&self, repo_name: &str, branch: &str, alive: &Vec<bool>) -> (r: Option<
        (String, String),
    >)
        ensures
            ({
                let c = terminal_pairs_of(
                    self.entries().filter(
                        |e: (Seq<char>, Seq<Seq<char>>)| in_group(e.0, session_name_of(repo_name@, branch@)),
                    ),
                );
                match r {
                    Some(found) => exists|i: int|
                        #[trigger] first_checked_alive(c, alive@, i) && c[i] == (found.0@, found.1@),
                    None => forall|i: int| 0 <= i < c.len() ==> !checked_alive(alive@, i),
                }
            }),
    {
        let cands = self.worktree_candidates(repo_name, branch);
        let ghost c = cands@.map_values(|p: (String, String)| (p.0@, p.1@));
        let mut i: usize = 0;
        while i < cands.len()
            invariant
                i <= cands.len(),
                c == cands@.map_values(|p: (String, String)| (p.0@, p.1@)),
                c == terminal_pairs_of(
                    self.entries().filter(
                        |e: (Seq<char>, Seq<Seq<char>>)| in_group(e.0, session_name_of(repo_name@, branch@)),
                    ),
                ),
                forall|j: int| 0 <= j < i ==> !checked_alive(alive@, j),
            decreases cands.len() - i,
        {
            if i < alive.len() && alive[i] {
                let found = (cands[i].0.clone(), cands[i].1.clone());
                assert(c[i as int] == (found.0@, found.1@));
                assert(first_checked_alive(c, alive@, i as int));
                return Some(found);
            }
            i = i + 1;
        }
        None
    }
}

impl Default for TerminalState {
    fn default() -> (s: Self)
        ensures
            s.ids() == Map::<Seq<char>, Seq<Seq<char>>>::empty(),
            s.entries() == Seq::<(Seq<char>, Seq<Seq<char>>)>::empty(),
    {
        TerminalState::new()
    }
}

} // verus!
