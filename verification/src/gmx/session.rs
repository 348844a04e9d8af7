//! gmx sessions: groups of zmx sessions named `<session>.<n>`.
use vstd::prelude::*;

use crate::ghostty_lib::ghostty::{build_interactive_command, interactive_command, remote_view};
use crate::ghostty_lib::remote::RemoteConfig;
use crate::ghostty_lib::zmx::{ZmxSession, sort_sessions_by_name};
use crate::sort::{lemma_filter_push, lemma_lex_irreflexive, lemma_lex_total, lemma_lex_transitive, lex_less, lex_lt, stable_sort_str};
use crate::text::{all_digits, char_is_digit, chars_eq, chars_of, chars_take, find_last, find_last_char, string_of, views};

pub use crate::ghostty_lib::ghostty::shell_escape_single;

verus! {

/// The gmx session a zmx session belongs to: its name without a final
/// `.<digits>` suffix ("my-project.2" -> "my-project"), or the whole name.
pub open spec fn group_of(zmx_name: Seq<char>) -> Seq<char> {
    match find_last(zmx_name, '.') {
        Some(p) => if p + 1 < zmx_name.len() && all_digits(zmx_name.skip(p + 1)) {
            zmx_name.take(p)
        } else {
            zmx_name
        },
        None => zmx_name,
    }
}

/// Whether every character of `v[from..]` is an ASCII digit.
fn digits_from(v: &Vec<char>, from: usize) -> (b: bool)
    requires
        from <= v.len(),
    ensures
        b == all_digits(v@.skip(from as int)),
{
    let mut i = from;
    while i < v.len()
        invariant
            from <= i <= v.len(),
            forall|j: int| from <= j < i ==> crate::text::is_digit(#[trigger] v@[j]),
        decreases v.len() - i,
    {
        if !char_is_digit(v[i]) {
            assert(v@.skip(from as int)[i - from] == v@[i as int]);
            return false;
        }
        i = i + 1;
    }
    assert forall|j: int| 0 <= j < v@.skip(from as int).len() implies crate::text::is_digit(
        #[trigger] v@.skip(from as int)[j],
    ) by {
        assert(v@.skip(from as int)[j] == v@[from + j]);
    }
    true
}

/// Extract the gmx session name from a zmx session name.
/// "my-project.1" -> "my-project"
/// "my-project.2" -> "my-project"
/// "my-project" -> "my-project"
pub fn extract_session_name(zmx_name: &str) -> (r: String)
    ensures
        r@ == group_of(zmx_name@),
{
    let v = chars_of(zmx_name);
    proof {
        crate::text::lemma_find_last_props(v@, '.');
    }
    match find_last_char(&v, '.') {
        Some(p) => {
            if p + 1 < v.len() && digits_from(&v, p + 1) {
                string_of(&chars_take(&v, p))
            } else {
                String::from_str(zmx_name)
            }
        },
        None => String::from_str(zmx_name),
    }
}

/// Some session of `ss` belongs to group `g`.
pub open spec fn has_group(ss: Seq<ZmxSession>, g: Seq<char>) -> bool {
    exists|k: int| 0 <= k < ss.len() && #[trigger] group_of(ss[k].name@) == g
}

/// The predicate "the session belongs to group `g`".
pub open spec fn member_of(g: Seq<char>) -> spec_fn(ZmxSession) -> bool {
    |s: ZmxSession| group_of(s.name@) == g
}

/// The sequences of `s` are strictly increasing.
pub open spec fn strictly_sorted(s: Seq<Seq<char>>) -> bool {
    forall|i: int, j: int| 0 <= i < j < s.len() ==> lex_lt(#[trigger] s[i], #[trigger] s[j])
}

/// The group names of `sessions`, each once, in increasing order.
fn group_names(sessions: &Vec<ZmxSession>) -> (names: Vec<Vec<char>>)
    ensures
        strictly_sorted(views(names@)),
        forall|j: int| 0 <= j < names@.len() ==> has_group(sessions@, #[trigger] names@[j]@),
        forall|k: int|
            0 <= k < sessions@.len() ==> #[trigger] views(names@).contains(group_of(sessions@[k].name@)),
{
    let mut names: Vec<Vec<char>> = Vec::new();
    let mut i: usize = 0;
    while i < sessions.len()
        invariant
            i <= sessions.len(),
            strictly_sorted(views(names@)),
            forall|j: int| 0 <= j < names@.len() ==> has_group(sessions@.take(i as int), #[trigger] names@[j]@),
            forall|k: int| 0 <= k < i ==> #[trigger] views(names@).contains(group_of(sessions@[k].name@)),
        decreases sessions.len() - i,
    {
        let g = chars_of(extract_session_name(sessions[i].name.as_str()).as_str());
        let ghost gs = g@;
        let ghost old_names = views(names@);
        assert(sessions@.take(i + 1)[i as int] == sessions@[i as int]);
        assert(has_group(sessions@.take(i + 1), gs));
        assert forall|j: int| 0 <= j < names@.len() implies has_group(
            sessions@.take(i + 1),
            #[trigger] names@[j]@,
        ) by {
            let k = choose|k: int| 0 <= k < i && #[trigger] group_of(sessions@.take(i as int)[k].name@) == names@[j]@;
            assert(sessions@.take(i + 1)[k] == sessions@.take(i as int)[k]);
        }
        let mut p: usize = 0;
        while p < names.len() && lex_less(&names[p], &g)
            invariant
                p <= names@.len(),
                forall|q: int| 0 <= q < p ==> lex_lt(#[trigger] names@[q]@, gs),
                gs == g@,
            decreases names.len() - p,
        {
            p = p + 1;
        }
        if p < names.len() && chars_eq(&names[p], &g) {
            assert(views(names@)[p as int] == gs);
        } else {
            proof {
                if p < names@.len() {
                    lemma_lex_total(gs, names@[p as int]@);
                }
            }
            names.insert(p, g);
            proof {
                let nv = views(names@);
                assert(nv =~= old_names.insert(p as int, gs));
                assert forall|a: int, b: int| 0 <= a < b < nv.len() implies lex_lt(
                    #[trigger] nv[a],
                    #[trigger] nv[b],
                ) by {
                    if b < p {
                        assert(lex_lt(old_names[a], old_names[b]));
                    } else if b == p {
                        assert(lex_lt(old_names[a], gs));
                    } else if a == p {
                        assert(nv[b] == old_names[b - 1]);
                        if b - 1 > p {
                            assert(lex_lt(old_names[p as int], old_names[b - 1]));
                            lemma_lex_transitive(gs, old_names[p as int], old_names[b - 1]);
                        }
                    } else if a < p {
                        assert(nv[b] == old_names[b - 1]);
                        assert(lex_lt(old_names[a], old_names[b - 1]));
                    } else {
                        assert(lex_lt(old_names[a - 1], old_names[b - 1]));
                    }
                }
                assert forall|k: int| 0 <= k < i implies #[trigger] nv.contains(
                    group_of(sessions@[k].name@),
                ) by {
                    let x = group_of(sessions@[k].name@);
                    assert(old_names.contains(x));
                    let j = choose|j: int| 0 <= j < old_names.len() && old_names[j] == x;
                    if j < p {
                        assert(nv[j] == x);
                    } else {
                        assert(nv[j + 1] == x);
                    }
                }
                assert(nv[p as int] == gs);
                assert forall|j: int| 0 <= j < names@.len() implies has_group(
                    sessions@.take(i + 1),
                    #[trigger] names@[j]@,
                ) by {
                    if j < p {
                        assert(names@[j]@ == old_names[j]);
                    } else if j > p {
                        assert(names@[j]@ == old_names[j - 1]);
                    }
                }
            }
        }
        assert(views(names@)[0] == views(names@)[0]);
        i = i + 1;
    }
    assert(sessions@.take(i as int) =~= sessions@);
    names
}

/// The group names of a list of groups.
pub open spec fn group_names_of(r: Seq<(String, Vec<ZmxSession>)>) -> Seq<Seq<char>> {
    r.map_values(|e: (String, Vec<ZmxSession>)| e.0@)
}

/// The position of `g` in `names`, which holds it.
fn position_of(names: &Vec<Vec<char>>, g: &Vec<char>) -> (j: usize)
    requires
        views(names@).contains(g@),
    ensures
        j < names@.len(),
        names@[j as int]@ == g@,
{
    let mut j: usize = 0;
    while j < names.len()
        invariant
            j <= names@.len(),
            forall|q: int| 0 <= q < j ==> names@[q]@ != g@,
            views(names@).contains(g@),
        decreases names.len() - j,
    {
        if chars_eq(&names[j], g) {
            return j;
        }
        j = j + 1;
    }
    proof {
        let q = choose|q: int| 0 <= q < views(names@).len() && views(names@)[q] == g@;
        assert(names@[q]@ == g@);
    }
    0
}

/// Discover active gmx sessions by grouping zmx sessions by prefix:
/// `(session_name, zmx_sessions)` pairs, one per group, sorted by name, each
/// with its zmx sessions sorted by name (the order of equal names kept).
pub fn discover_sessions(sessions: Vec<ZmxSession>) -> (r: Vec<(String, Vec<ZmxSession>)>)
    ensures
        forall|i: int, j: int| 0 <= i < j < r@.len() ==> lex_lt(#[trigger] r@[i].0@, #[trigger] r@[j].0@),
        forall|i: int| 0 <= i < r@.len() ==> has_group(sessions@, #[trigger] r@[i].0@),
        forall|k: int|
            0 <= k < sessions@.len() ==> #[trigger] group_names_of(r@).contains(group_of(sessions@[k].name@)),
        forall|i: int|
            0 <= i < r@.len() ==> stable_sort_str(
                #[trigger] r@[i].1@,
                sessions@.filter(member_of(r@[i].0@)),
                |s: ZmxSession| s.name@,
            ),
        forall|i: int|
            0 <= i < r@.len() ==> (#[trigger] r@[i].1@).len() == sessions@.filter(member_of(r@[i].0@)).len(),
{
    let names = group_names(&sessions);
    let ghost orig = sessions@;
    let ghost nv = views(names@);
    // One bucket per group name, filled in the order of the sessions.
    let mut buckets: Vec<Vec<ZmxSession>> = Vec::new();
    let mut b: usize = 0;
    while b < names.len()
        invariant
            b <= names@.len(),
            buckets@.len() == b,
            forall|j: int| 0 <= j < b ==> (#[trigger] buckets@[j])@ == Seq::<ZmxSession>::empty(),
        decreases names.len() - b,
    {
        buckets.push(Vec::new());
        b = b + 1;
    }
    proof {
        reveal(Seq::filter);
        assert forall|j: int| 0 <= j < buckets@.len() implies (#[trigger] buckets@[j])@ == orig.take(0).filter(
            member_of(nv[j]),
        ) by {
            assert(orig.take(0) =~= Seq::<ZmxSession>::empty());
        }
    }
    let mut rest = sessions;
    let ghost mut n: int = 0;
    assert(orig.skip(0) =~= orig);
    while rest.len() > 0
        invariant
            0 <= n <= orig.len(),
            rest@ == orig.skip(n),
            nv == views(names@),
            strictly_sorted(nv),
            forall|k: int| 0 <= k < orig.len() ==> #[trigger] nv.contains(group_of(orig[k].name@)),
            buckets@.len() == names@.len(),
            forall|j: int|
                0 <= j < buckets@.len() ==> (#[trigger] buckets@[j])@ == orig.take(n).filter(member_of(nv[j])),
        decreases rest.len(),
    {
        let s = rest.remove(0);
        assert(s == orig[n]);
        assert(rest@ =~= orig.skip(n + 1));
        let g = chars_of(extract_session_name(s.name.as_str()).as_str());
        assert(nv.contains(group_of(orig[n].name@)));
        let jj = position_of(&names, &g);
        let ghost old_buckets = buckets@;
        let mut bucket = buckets.remove(jj);
        bucket.push(s);
        buckets.insert(jj, bucket);
        proof {
            assert(orig.take(n + 1) =~= orig.take(n).push(s));
            assert forall|j: int| 0 <= j < buckets@.len() implies (#[trigger] buckets@[j])@ == orig.take(
                n + 1,
            ).filter(member_of(nv[j])) by {
                lemma_filter_push(orig.take(n), s, member_of(nv[j]));
                if j == jj {
                    assert(buckets@[j]@ == old_buckets[j]@.push(s));
                } else {
                    assert(buckets@[j] == old_buckets[j]);
                    if nv[j] == nv[jj as int] {
                        if j < jj {
                            assert(lex_lt(nv[j], nv[jj as int]));
                        } else {
                            assert(lex_lt(nv[jj as int], nv[j]));
                        }
                        lemma_lex_irreflexive(nv[j]);
                    }
                }
            }
            n = n + 1;
        }
    }
    assert(orig.take(n) =~= orig);
    // Each group with its sessions sorted by name.
    let mut r: Vec<(String, Vec<ZmxSession>)> = Vec::new();
    let mut buckets = buckets;
    let ghost all_buckets = buckets@;
    let mut i: usize = 0;
    while i < names.len()
        invariant
            i <= names@.len(),
            nv == views(names@),
            strictly_sorted(nv),
            forall|j: int| 0 <= j < names@.len() ==> has_group(orig, #[trigger] names@[j]@),
            forall|k: int| 0 <= k < orig.len() ==> #[trigger] nv.contains(group_of(orig[k].name@)),
            orig == sessions@,
            buckets@.len() == names@.len() - i,
            forall|j: int| 0 <= j < buckets@.len() ==> (#[trigger] buckets@[j])@ == orig.filter(member_of(nv[j + i])),
            r@.len() == i,
            forall|j: int| 0 <= j < i ==> (#[trigger] r@[j]).0@ == nv[j],
            forall|j: int|
                0 <= j < i ==> stable_sort_str(
                    #[trigger] r@[j].1@,
                    orig.filter(member_of(r@[j].0@)),
                    |s: ZmxSession| s.name@,
                ),
            forall|j: int| 0 <= j < i ==> (#[trigger] r@[j].1@).len() == orig.filter(member_of(r@[j].0@)).len(),
        decreases names.len() - i,
    {
        let ghost before = buckets@;
        let bucket = buckets.remove(0);
        assert(bucket@ == orig.filter(member_of(nv[i as int])));
        assert forall|j: int| 0 <= j < buckets@.len() implies (#[trigger] buckets@[j])@ == orig.filter(
            member_of(nv[j + i + 1]),
        ) by {
            assert(buckets@[j] == before[j + 1]);
        }
        let sorted = sort_sessions_by_name(bucket);
        r.push((string_of(&names[i]), sorted));
        i = i + 1;
    }
    proof {
        assert forall|a: int, c: int| 0 <= a < c < r@.len() implies lex_lt(#[trigger] r@[a].0@, #[trigger] r@[c].0@) by {
            assert(lex_lt(nv[a], nv[c]));
        }
        assert forall|a: int| 0 <= a < r@.len() implies has_group(orig, #[trigger] r@[a].0@) by {
            assert(has_group(orig, names@[a]@));
        }
        assert forall|k: int| 0 <= k < sessions@.len() implies #[trigger] group_names_of(r@).contains(
            group_of(sessions@[k].name@),
        ) by {
            assert(orig[k] == sessions@[k]);
            assert(nv.contains(group_of(orig[k].name@)));
            let a = choose|a: int| 0 <= a < nv.len() && nv[a] == group_of(orig[k].name@);
            assert(group_names_of(r@)[a] == group_of(orig[k].name@));
        }
    }
    r
}

/// Build the command string for a zmx session (local or remote).
/// zmx sessions persist after client disconnect (closing the tab detaches the client).
pub fn build_zmx_command(zmx_session_name: &str, dir: &str, remote: Option<&RemoteConfig>) -> (r: String)
    ensures
        r@ == interactive_command(zmx_session_name@, dir@, remote_view(remote)),
{
    build_interactive_command(zmx_session_name, dir, remote)
}

} // verus!
