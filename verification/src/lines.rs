//! Facts about text read as lines: trimming, splitting with `str::lines`,
//! and joining lines back with a line break after each.
use vstd::prelude::*;

use crate::text::{contains_text, is_ws, join, split_acc, split_on, lines_acc, lines_of, strip_cr, trim, trim_end, trim_start};

verus! {

/// `s` does not hold `c`.
pub open spec fn free_of(s: Seq<char>, c: char) -> bool {
    forall|i: int| 0 <= i < s.len() ==> s[i] != c
}

/// `s` holds no line break.
pub open spec fn no_nl(s: Seq<char>) -> bool {
    free_of(s, '\n')
}

/// `s` ends with a carriage return.
pub open spec fn ends_cr(s: Seq<char>) -> bool {
    s.len() > 0 && s.last() == '\r'
}

/// The lines `ls`, each followed by a line break.
pub open spec fn join_lines(ls: Seq<Seq<char>>) -> Seq<char>
    decreases ls.len(),
{
    if ls.len() == 0 {
        Seq::empty()
    } else {
        ls[0] + "\n"@ + join_lines(ls.drop_first())
    }
}

// ---------------------------------------------------------------------------
// Trimming
// ---------------------------------------------------------------------------

/// `trim_end` keeps a prefix after which only whitespace follows, and which
/// is empty or ends with a character that is not whitespace.
pub proof fn lemma_trim_end_props(s: Seq<char>)
    ensures
        trim_end(s).len() <= s.len(),
        trim_end(s) == s.take(trim_end(s).len() as int),
        forall|i: int| trim_end(s).len() <= i < s.len() ==> is_ws(#[trigger] s[i]),
        trim_end(s).len() == 0 || !is_ws(trim_end(s).last()),
    decreases s.len(),
{
    if s.len() > 0 && is_ws(s.last()) {
        lemma_trim_end_props(s.drop_last());
        let n = trim_end(s).len() as int;
        assert(s.drop_last().take(n) =~= s.take(n));
        assert forall|i: int| n <= i < s.len() implies is_ws(#[trigger] s[i]) by {
            if i < s.len() - 1 {
                assert(s[i] == s.drop_last()[i]);
            }
        }
    } else {
        assert(s.take(s.len() as int) =~= s);
    }
}

/// `trim_end` cuts where the trailing whitespace starts.
pub proof fn lemma_trim_end_at(s: Seq<char>, n: int)
    requires
        0 <= n <= s.len(),
        forall|i: int| n <= i < s.len() ==> is_ws(#[trigger] s[i]),
        n == 0 || !is_ws(s[n - 1]),
    ensures
        trim_end(s) == s.take(n),
    decreases s.len(),
{
    if s.len() > n {
        assert(is_ws(s[s.len() - 1]));
        lemma_trim_end_at(s.drop_last(), n);
        assert(s.drop_last().take(n) =~= s.take(n));
    } else {
        assert(s.take(n) =~= s);
    }
}

/// `trim_start` keeps a suffix before which only whitespace stands, and which
/// is empty or starts with a character that is not whitespace.
pub proof fn lemma_trim_start_props(s: Seq<char>)
    ensures
        trim_start(s).len() <= s.len(),
        trim_start(s) == s.skip(s.len() - trim_start(s).len()),
        forall|i: int| 0 <= i < s.len() - trim_start(s).len() ==> is_ws(#[trigger] s[i]),
        trim_start(s).len() == 0 || !is_ws(trim_start(s)[0]),
    decreases s.len(),
{
    if s.len() > 0 && is_ws(s[0]) {
        lemma_trim_start_props(s.drop_first());
        let k = s.len() - trim_start(s).len();
        assert(s.drop_first().skip(k - 1) =~= s.skip(k));
        assert forall|i: int| 0 <= i < k implies is_ws(#[trigger] s[i]) by {
            if i > 0 {
                assert(s[i] == s.drop_first()[i - 1]);
            }
        }
    } else {
        assert(s.skip(0) =~= s);
    }
}

/// `trim_start` cuts where the leading whitespace ends.
pub proof fn lemma_trim_start_at(s: Seq<char>, k: int)
    requires
        0 <= k <= s.len(),
        forall|i: int| 0 <= i < k ==> is_ws(#[trigger] s[i]),
        k == s.len() || !is_ws(s[k]),
    ensures
        trim_start(s) == s.skip(k),
    decreases s.len(),
{
    if k > 0 {
        assert(is_ws(s[0]));
        assert forall|i: int| 0 <= i < k - 1 implies is_ws(#[trigger] s.drop_first()[i]) by {
            assert(s.drop_first()[i] == s[i + 1]);
        }
        lemma_trim_start_at(s.drop_first(), k - 1);
        assert(s.drop_first().skip(k - 1) =~= s.skip(k));
    } else {
        assert(s.skip(0) =~= s);
    }
}

/// Trimming the end first changes nothing that `trim` keeps.
pub proof fn lemma_trim_of_trim_end(s: Seq<char>)
    ensures
        trim(trim_end(s)) == trim(s),
{
    lemma_trim_end_props(s);
    lemma_trim_start_props(s);
    let e = trim_end(s).len() as int;
    let k = s.len() - trim_start(s).len();
    if e == 0 {
        // all of `s` is whitespace, so both sides are empty
        assert(trim_start(s).len() == 0) by {
            if trim_start(s).len() > 0 {
                assert(trim_start(s)[0] == s[k]);
            }
        }
        assert(trim_end(s) =~= Seq::<char>::empty());
        assert(trim_start(Seq::<char>::empty()) =~= Seq::<char>::empty());
    } else {
        assert(k <= e - 1) by {
            if k > e - 1 {
                assert(is_ws(s[e - 1]));
                assert(trim_end(s).last() == s[e - 1]);
            }
        }
        let t = s.take(e);
        assert forall|i: int| 0 <= i < k implies is_ws(#[trigger] t[i]) by {
            assert(t[i] == s[i]);
        }
        assert(!is_ws(t[k])) by {
            assert(trim_start(s)[0] == s[k]);
        }
        lemma_trim_start_at(t, k);
        let mid = s.subrange(k, e);
        assert(t.skip(k) =~= mid);
        assert(mid.last() == s[e - 1]);
        assert(trim_end(s).last() == s[e - 1]);
        lemma_trim_end_at(mid, e - k);
        assert(mid.take(e - k) =~= mid);
        let u = s.skip(k);
        assert(u =~= trim_start(s));
        assert forall|i: int| e - k <= i < u.len() implies is_ws(#[trigger] u[i]) by {
            assert(u[i] == s[i + k]);
        }
        assert(u[e - k - 1] == s[e - 1]);
        lemma_trim_end_at(u, e - k);
        assert(u.take(e - k) =~= mid);
    }
}

/// Trimming the end of text whose end is already trimmed changes nothing.
pub proof fn lemma_trim_end_idempotent(s: Seq<char>)
    ensures
        trim_end(trim_end(s)) == trim_end(s),
{
    lemma_trim_end_props(s);
    let t = trim_end(s);
    lemma_trim_end_at(t, t.len() as int);
    assert(t.take(t.len() as int) =~= t);
}

// ---------------------------------------------------------------------------
// Splitting into lines and joining them
// ---------------------------------------------------------------------------

/// A piece without line breaks, then a line break: the piece ends the line
/// read so far.
pub proof fn lemma_lines_line(l: Seq<char>, rest: Seq<char>, cur: Seq<char>)
    requires
        no_nl(l),
    ensures
        lines_acc(l + "\n"@ + rest, cur) == seq![strip_cr(cur + l)] + lines_acc(rest, Seq::empty()),
    decreases l.len(),
{
    reveal_strlit("\n");
    let s = l + "\n"@ + rest;
    if l.len() == 0 {
        assert(s[0] == '\n');
        assert(s.drop_first() =~= rest);
        assert(cur + l =~= cur);
    } else {
        assert(s[0] == l[0]);
        assert(s.drop_first() =~= l.drop_first() + "\n"@ + rest);
        lemma_lines_line(l.drop_first(), rest, cur.push(l[0]));
        assert(cur.push(l[0]) + l.drop_first() =~= cur + l);
    }
}

/// Text that ends with a line break is read apart from what follows it.
pub proof fn lemma_lines_split(x: Seq<char>, y: Seq<char>, cur: Seq<char>)
    requires
        x.len() > 0,
        x.last() == '\n',
    ensures
        lines_acc(x + y, cur) == lines_acc(x, cur) + lines_acc(y, Seq::empty()),
    decreases x.len(),
{
    let s = x + y;
    assert(s[0] == x[0]);
    assert(s.drop_first() =~= x.drop_first() + y);
    if x[0] == '\n' {
        if x.len() == 1 {
            assert(s.drop_first() =~= y);
            assert(lines_acc(x.drop_first(), Seq::empty()) =~= Seq::<Seq<char>>::empty());
        } else {
            assert(x.drop_first().last() == '\n');
            lemma_lines_split(x.drop_first(), y, Seq::empty());
        }
        assert(lines_acc(x + y, cur) =~= lines_acc(x, cur) + lines_acc(y, Seq::empty()));
    } else {
        assert(x.drop_first().last() == '\n');
        lemma_lines_split(x.drop_first(), y, cur.push(x[0]));
    }
}

/// No line that `str::lines` reads holds a character that the text and
/// the line read so far do not hold.
pub proof fn lemma_lines_free(s: Seq<char>, cur: Seq<char>, c: char)
    requires
        free_of(s, c),
        free_of(cur, c),
    ensures
        forall|i: int|
            0 <= i < lines_acc(s, cur).len() ==> free_of(#[trigger] lines_acc(s, cur)[i], c),
    decreases s.len(),
{
    if s.len() == 0 {
        if cur.len() > 0 {
            assert(lines_acc(s, cur) =~= seq![cur]);
            assert(lines_acc(s, cur)[0] == cur);
        }
    } else {
        assert forall|j: int| 0 <= j < s.drop_first().len() implies s.drop_first()[j] != c by {
            assert(s.drop_first()[j] == s[j + 1]);
        }
        if s[0] == '\n' {
            lemma_lines_free(s.drop_first(), Seq::empty(), c);
            let r = lines_acc(s, cur);
            assert(r == seq![strip_cr(cur)] + lines_acc(s.drop_first(), Seq::empty()));
            assert(free_of(strip_cr(cur), c)) by {
                if cur.len() > 0 && cur.last() == '\r' {
                    assert forall|j: int| 0 <= j < cur.drop_last().len() implies cur.drop_last()[j]
                        != c by {
                        assert(cur.drop_last()[j] == cur[j]);
                    }
                }
            }
            assert forall|i: int| 0 <= i < r.len() implies free_of(#[trigger] r[i], c) by {
                if i > 0 {
                    assert(r[i] == lines_acc(s.drop_first(), Seq::empty())[i - 1]);
                } else {
                    assert(r[i] == strip_cr(cur));
                }
            }
        } else {
            let c2 = cur.push(s[0]);
            assert forall|j: int| 0 <= j < c2.len() implies c2[j] != c by {
                if j < cur.len() {
                    assert(c2[j] == cur[j]);
                }
            }
            lemma_lines_free(s.drop_first(), c2, c);
            assert(lines_acc(s, cur) == lines_acc(s.drop_first(), c2));
        }
    }
}

/// No line that `str::lines` reads holds a line break.
pub proof fn lemma_lines_no_nl(s: Seq<char>, cur: Seq<char>)
    requires
        no_nl(cur),
    ensures
        forall|i: int| 0 <= i < lines_acc(s, cur).len() ==> no_nl(#[trigger] lines_acc(s, cur)[i]),
    decreases s.len(),
{
    if s.len() == 0 {
        if cur.len() > 0 {
            assert(lines_acc(s, cur) =~= seq![cur]);
            assert(lines_acc(s, cur)[0] == cur);
        }
    } else if s[0] == '\n' {
        lemma_lines_no_nl(s.drop_first(), Seq::empty());
        let r = lines_acc(s, cur);
        assert(r == seq![strip_cr(cur)] + lines_acc(s.drop_first(), Seq::empty()));
        assert(no_nl(strip_cr(cur))) by {
            if cur.len() > 0 && cur.last() == '\r' {
                assert forall|j: int| 0 <= j < cur.drop_last().len() implies cur.drop_last()[j]
                    != '\n' by {
                    assert(cur.drop_last()[j] == cur[j]);
                }
            }
        }
        assert forall|i: int| 0 <= i < r.len() implies no_nl(#[trigger] r[i]) by {
            if i > 0 {
                assert(r[i] == lines_acc(s.drop_first(), Seq::empty())[i - 1]);
            } else {
                assert(r[i] == strip_cr(cur));
            }
        }
    } else {
        let c2 = cur.push(s[0]);
        assert forall|j: int| 0 <= j < c2.len() implies c2[j] != '\n' by {
            if j < cur.len() {
                assert(c2[j] == cur[j]);
            }
        }
        lemma_lines_no_nl(s.drop_first(), c2);
        assert(lines_acc(s, cur) == lines_acc(s.drop_first(), c2));
    }
}

/// Trimming adds no character.
pub proof fn lemma_trim_free(s: Seq<char>, c: char)
    requires
        free_of(s, c),
    ensures
        free_of(trim(s), c),
        free_of(trim_end(s), c),
{
    lemma_trim_start_props(s);
    let t = trim_start(s);
    let k = s.len() - t.len();
    assert forall|j: int| 0 <= j < t.len() implies t[j] != c by {
        assert(t[j] == s[j + k]);
    }
    lemma_trim_end_props(t);
    assert forall|j: int| 0 <= j < trim_end(t).len() implies trim_end(t)[j] != c by {
        assert(trim_end(t)[j] == t[j]);
    }
    lemma_trim_end_props(s);
    assert forall|j: int| 0 <= j < trim_end(s).len() implies trim_end(s)[j] != c by {
        assert(trim_end(s)[j] == s[j]);
    }
}

/// Joining one more line appends it and a line break.
pub proof fn lemma_join_push(ls: Seq<Seq<char>>, l: Seq<char>)
    ensures
        join_lines(ls.push(l)) == join_lines(ls) + l + "\n"@,
    decreases ls.len(),
{
    if ls.len() == 0 {
        assert(ls.push(l).drop_first() =~= Seq::<Seq<char>>::empty());
        assert(ls.push(l)[0] == l);
        assert(join_lines(ls.push(l).drop_first()) =~= Seq::<char>::empty());
        assert(join_lines(ls) =~= Seq::<char>::empty());
        assert(join_lines(ls.push(l)) =~= join_lines(ls) + l + "\n"@);
    } else {
        assert(ls.push(l).drop_first() =~= ls.drop_first().push(l));
        lemma_join_push(ls.drop_first(), l);
        assert(join_lines(ls.push(l)) =~= join_lines(ls) + l + "\n"@);
    }
}

/// Lines without line breaks and without a final carriage return, joined,
/// are read back as themselves, whatever follows them.
pub proof fn lemma_lines_of_join(ls: Seq<Seq<char>>, y: Seq<char>)
    requires
        forall|i: int| 0 <= i < ls.len() ==> no_nl(#[trigger] ls[i]) && !ends_cr(ls[i]),
    ensures
        lines_acc(join_lines(ls) + y, Seq::empty()) == ls + lines_acc(y, Seq::empty()),
    decreases ls.len(),
{
    if ls.len() == 0 {
        assert(join_lines(ls) + y =~= y);
        assert(ls + lines_acc(y, Seq::empty()) =~= lines_acc(y, Seq::empty()));
    } else {
        let rest = join_lines(ls.drop_first()) + y;
        assert(join_lines(ls) + y =~= ls[0] + "\n"@ + rest);
        assert(no_nl(ls[0]) && !ends_cr(ls[0]));
        lemma_lines_line(ls[0], rest, Seq::empty());
        assert(Seq::<char>::empty() + ls[0] =~= ls[0]);
        assert forall|i: int| 0 <= i < ls.drop_first().len() implies no_nl(
            #[trigger] ls.drop_first()[i],
        ) && !ends_cr(ls.drop_first()[i]) by {
            assert(ls.drop_first()[i] == ls[i + 1]);
        }
        lemma_lines_of_join(ls.drop_first(), y);
        assert(ls + lines_acc(y, Seq::empty()) =~= seq![ls[0]] + (ls.drop_first() + lines_acc(
            y,
            Seq::empty(),
        )));
    }
}

/// A final line break after a last line that ends in neither a line break
/// nor a carriage return changes no line.
pub proof fn lemma_lines_final_nl(s: Seq<char>, cur: Seq<char>)
    requires
        s.len() > 0,
        s.last() != '\n',
        s.last() != '\r',
    ensures
        lines_acc(s + "\n"@, cur) == lines_acc(s, cur),
    decreases s.len(),
{
    reveal_strlit("\n");
    let t = s + "\n"@;
    assert(t[0] == s[0]);
    if s.len() == 1 {
        let c2 = cur.push(s[0]);
        assert(t.drop_first() =~= "\n"@);
        assert("\n"@.drop_first() =~= Seq::<char>::empty());
        assert(lines_acc(Seq::<char>::empty(), Seq::<char>::empty()) =~= Seq::<Seq<char>>::empty());
        assert(lines_acc("\n"@, c2) =~= seq![strip_cr(c2)]);
        assert(c2.last() == s[0]);
        assert(strip_cr(c2) == c2);
        assert(s.drop_first() =~= Seq::<char>::empty());
        assert(lines_acc(Seq::<char>::empty(), c2) =~= seq![c2]);
    } else {
        assert(t.drop_first() =~= s.drop_first() + "\n"@);
        assert(s.drop_first().last() == s.last());
        if s[0] == '\n' {
            lemma_lines_final_nl(s.drop_first(), Seq::empty());
        } else {
            lemma_lines_final_nl(s.drop_first(), cur.push(s[0]));
        }
    }
}

// ---------------------------------------------------------------------------
// Containment and joining
// ---------------------------------------------------------------------------

/// Text contains itself.
pub proof fn lemma_contains_self(t: Seq<char>)
    ensures
        contains_text(t, t),
{
    let z: int = 0;
    assert(t.subrange(z, z + t.len()) =~= t);
}

/// What a piece contains, text with that piece on either side contains.
pub proof fn lemma_contains_concat(a: Seq<char>, b: Seq<char>, t: Seq<char>)
    ensures
        contains_text(a, t) ==> contains_text(a + b, t),
        contains_text(b, t) ==> contains_text(a + b, t),
{
    if contains_text(a, t) {
        let i = choose|i: int| 0 <= i && i + t.len() <= a.len() && #[trigger] a.subrange(i, i + t.len()) == t;
        assert((a + b).subrange(i, i + t.len()) =~= a.subrange(i, i + t.len()));
    }
    if contains_text(b, t) {
        let i = choose|i: int| 0 <= i && i + t.len() <= b.len() && #[trigger] b.subrange(i, i + t.len()) == t;
        let j = i + a.len();
        assert((a + b).subrange(j, j + t.len()) =~= b.subrange(i, i + t.len()));
    }
}

/// Joined pieces contain each piece.
pub proof fn lemma_join_contains(ps: Seq<Seq<char>>, sep: Seq<char>, i: int)
    requires
        0 <= i < ps.len(),
    ensures
        contains_text(join(ps, sep), ps[i]),
    decreases ps.len(),
{
    if ps.len() == 1 {
        lemma_contains_self(ps[0]);
    } else {
        let d = ps.drop_last();
        if i == ps.len() - 1 {
            lemma_contains_self(ps[i]);
            lemma_contains_concat(join(d, sep) + sep, ps.last(), ps[i]);
        } else {
            lemma_join_contains(d, sep, i);
            assert(d[i] == ps[i]);
            lemma_contains_concat(join(d, sep), sep, ps[i]);
            lemma_contains_concat(join(d, sep) + sep, ps.last(), ps[i]);
        }
    }
}

/// Joined pieces start with the first character of the first piece.
pub proof fn lemma_join_first(ps: Seq<Seq<char>>, sep: Seq<char>)
    requires
        ps.len() > 0,
        ps[0].len() > 0,
    ensures
        join(ps, sep).len() > 0,
        join(ps, sep)[0] == ps[0][0],
    decreases ps.len(),
{
    if ps.len() > 1 {
        let d = ps.drop_last();
        lemma_join_first(d, sep);
        assert(d[0] == ps[0]);
    }
}

/// What a piece contains, text containing that piece contains.
pub proof fn lemma_contains_trans(x: Seq<char>, y: Seq<char>, z: Seq<char>)
    requires
        contains_text(x, y),
        contains_text(y, z),
    ensures
        contains_text(x, z),
{
    let i = choose|i: int| 0 <= i && i + y.len() <= x.len() && #[trigger] x.subrange(i, i + y.len()) == y;
    let j = choose|j: int| 0 <= j && j + z.len() <= y.len() && #[trigger] y.subrange(j, j + z.len()) == z;
    assert(x.subrange(i + j, i + j + z.len()) =~= z);
}

/// Joining, read from the front: the first piece, the separator, the rest
/// joined.
pub proof fn lemma_join_front(ps: Seq<Seq<char>>, sep: Seq<char>)
    requires
        ps.len() >= 2,
    ensures
        join(ps, sep) == ps[0] + sep + join(ps.drop_first(), sep),
    decreases ps.len(),
{
    let r = ps.drop_first();
    if ps.len() == 2 {
        assert(ps.drop_last() =~= seq![ps[0]]);
        assert(r =~= seq![ps[1]]);
        assert(join(ps.drop_last(), sep) == ps[0]);
        assert(join(r, sep) == ps[1]);
    } else {
        let d = ps.drop_last();
        lemma_join_front(d, sep);
        assert(d.drop_first() =~= r.drop_last());
        assert(d[0] == ps[0]);
        assert(r.last() == ps.last());
        assert(join(ps, sep) =~= ps[0] + sep + join(r, sep));
    }
}

/// A piece without the separator, read by `split_acc`, ends with the piece.
proof fn lemma_split_piece(p: Seq<char>, c: char, cur: Seq<char>)
    requires
        free_of(p, c),
    ensures
        split_acc(p, c, cur) == seq![cur + p],
    decreases p.len(),
{
    if p.len() == 0 {
        assert(cur + p =~= cur);
    } else {
        assert(free_of(p.drop_first(), c)) by {
            assert forall|i: int| 0 <= i < p.drop_first().len() implies p.drop_first()[i] != c by {
                assert(p.drop_first()[i] == p[i + 1]);
            }
        }
        lemma_split_piece(p.drop_first(), c, cur.push(p[0]));
        assert(cur.push(p[0]) + p.drop_first() =~= cur + p);
    }
}

/// A piece without the separator, then the separator: one piece.
proof fn lemma_split_piece_sep(p: Seq<char>, c: char, y: Seq<char>, cur: Seq<char>)
    requires
        free_of(p, c),
    ensures
        split_acc(p + seq![c] + y, c, cur) == seq![cur + p] + split_acc(y, c, Seq::empty()),
    decreases p.len(),
{
    let s = p + seq![c] + y;
    if p.len() == 0 {
        assert(s[0] == c);
        assert(s.drop_first() =~= y);
        assert(cur + p =~= cur);
    } else {
        assert(s[0] == p[0]);
        assert(s.drop_first() =~= p.drop_first() + seq![c] + y);
        assert(free_of(p.drop_first(), c)) by {
            assert forall|i: int| 0 <= i < p.drop_first().len() implies p.drop_first()[i] != c by {
                assert(p.drop_first()[i] == p[i + 1]);
            }
        }
        lemma_split_piece_sep(p.drop_first(), c, y, cur.push(p[0]));
        assert(cur.push(p[0]) + p.drop_first() =~= cur + p);
    }
}

/// Pieces without the separator, joined with it, split back into themselves.
pub proof fn lemma_split_join(ps: Seq<Seq<char>>, c: char)
    requires
        ps.len() > 0,
        forall|i: int| 0 <= i < ps.len() ==> free_of(#[trigger] ps[i], c),
    ensures
        split_on(join(ps, seq![c]), c) == ps,
    decreases ps.len(),
{
    assert(free_of(ps[0], c));
    if ps.len() == 1 {
        lemma_split_piece(ps[0], c, Seq::empty());
        assert(Seq::<char>::empty() + ps[0] =~= ps[0]);
        assert(ps =~= seq![ps[0]]);
    } else {
        let r = ps.drop_first();
        lemma_join_front(ps, seq![c]);
        assert forall|i: int| 0 <= i < r.len() implies free_of(#[trigger] r[i], c) by {
            assert(r[i] == ps[i + 1]);
        }
        lemma_split_join(r, c);
        lemma_split_piece_sep(ps[0], c, join(r, seq![c]), Seq::empty());
        assert(Seq::<char>::empty() + ps[0] =~= ps[0]);
        assert(ps =~= seq![ps[0]] + r);
    }
}

} // verus!
