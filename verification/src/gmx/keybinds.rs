//! The block of gmx keybindings in the Ghostty config file.
use vstd::prelude::*;

use crate::lines::{
    ends_cr, free_of, lemma_lines_free, lemma_lines_final_nl, lemma_trim_free, lemma_trim_start_at, join_lines, lemma_join_push, lemma_lines_line, lemma_lines_no_nl, lemma_lines_of_join,
    lemma_contains_concat, lemma_lines_split, lemma_trim_end_at, lemma_trim_end_props, lemma_trim_of_trim_end, no_nl,
};
use crate::text::{contains_str, contains_text, append_chars, chars_eq, chars_of, lines, lines_of, string_of, trim, trim_chars, trim_end, trim_end_chars, trim_start, views, is_ws, lines_acc, strip_cr};

verus! {

/// The line that opens the gmx block.
pub open spec fn marker() -> Seq<char> {
    "# gmx keybindings"@
}

/// The line that closes the gmx block.
pub open spec fn end_marker() -> Seq<char> {
    "# end gmx keybindings"@
}

/// What the keybinding block holds between its marker line and its end
/// line: with a prefix key, a tmux-style key table entered by the prefix;
/// without one, direct ctrl+shift bindings.
pub open spec fn block_body(prefix: Option<Seq<char>>) -> Seq<char> {
    match prefix {
        Some(pfx) => "# Prefix mode: press "@ + pfx
            + ", then a key to trigger gmx actions\nkeybind = "@ + pfx
            + "=activate_key_table_once:gmx\nkeybind = gmx/d=text:gmx split right\\n\nkeybind = gmx/e=text:gmx split down\\n\nkeybind = gmx/c=text:gmx new --tab\\n\nkeybind = gmx/a=text:gmx attach\nkeybind = gmx/x=text:gmx kill\\n\nkeybind = gmx/s=text:gmx ls\\n\nkeybind = gmx/escape=deactivate_key_table\n"@,
        None => "keybind = ctrl+shift+d=text:gmx split right\\n\nkeybind = ctrl+shift+e=text:gmx split down\\n\nkeybind = ctrl+shift+t=text:gmx new --tab\\n\nkeybind = ctrl+shift+a=text:gmx attach\nkeybind = ctrl+shift+x=text:gmx kill\\n\nkeybind = ctrl+shift+s=text:gmx ls\\n\n"@,
    }
}

/// The keybinding block: the marker line, the body, the end line.
pub open spec fn keybinds_text(prefix: Option<Seq<char>>) -> Seq<char> {
    marker() + "\n"@ + block_body(prefix) + end_marker()
}

/// Generates the gmx keybindings for the Ghostty config.
pub fn generate_keybinds(prefix: Option<&str>) -> (r: String)
    ensures
        r@ == keybinds_text(
            match prefix {
                Some(p) => Some(p@),
                None => None,
            },
        ),
{
    let mut r = String::from_str("# gmx keybindings");
    r.append("\n");
    let ghost head = r@;
    match prefix {
        Some(pfx) => {
            r.append("# Prefix mode: press ");
            r.append(pfx);
            r.append(", then a key to trigger gmx actions\nkeybind = ");
            r.append(pfx);
            r.append(
                "=activate_key_table_once:gmx\nkeybind = gmx/d=text:gmx split right\\n\nkeybind = gmx/e=text:gmx split down\\n\nkeybind = gmx/c=text:gmx new --tab\\n\nkeybind = gmx/a=text:gmx attach\nkeybind = gmx/x=text:gmx kill\\n\nkeybind = gmx/s=text:gmx ls\\n\nkeybind = gmx/escape=deactivate_key_table\n",
            );
        },
        None => {
            r.append(
                "keybind = ctrl+shift+d=text:gmx split right\\n\nkeybind = ctrl+shift+e=text:gmx split down\\n\nkeybind = ctrl+shift+t=text:gmx new --tab\\n\nkeybind = ctrl+shift+a=text:gmx attach\nkeybind = ctrl+shift+x=text:gmx kill\\n\nkeybind = ctrl+shift+s=text:gmx ls\\n\n",
            );
        },
    }
    let ghost p = match prefix {
        Some(p) => Some(p@),
        None => None::<Seq<char>>,
    };
    assert(r@ =~= head + block_body(p));
    r.append("# end gmx keybindings");
    r
}

/// Reading one line of the config while removing the gmx block: the lines
/// kept so far and whether the line is inside the block. The marker lines
/// (matched after trimming) are dropped and switch skipping on and off;
/// other lines are kept unless skipped.
pub open spec fn block_step(st: (Seq<Seq<char>>, bool), line: Seq<char>) -> (Seq<Seq<char>>, bool) {
    if trim(line) == marker() {
        (st.0, true)
    } else if trim(line) == end_marker() {
        (st.0, false)
    } else if !st.1 {
        (st.0.push(line), false)
    } else {
        st
    }
}

/// Reading the lines `ls` from the state `st`.
pub open spec fn block_from(st: (Seq<Seq<char>>, bool), ls: Seq<Seq<char>>) -> (Seq<Seq<char>>, bool)
    decreases ls.len(),
{
    if ls.len() == 0 {
        st
    } else {
        block_step(block_from(st, ls.drop_last()), ls.last())
    }
}

/// The lines of the config outside its gmx block (from its marker line to
/// its end line).
pub open spec fn kept_lines(content: Seq<char>) -> Seq<Seq<char>> {
    block_from((Seq::empty(), false), lines_of(content)).0
}

/// The config with the gmx block removed, every kept line ending with a
/// newline.
pub open spec fn without_block(content: Seq<char>) -> Seq<char> {
    join_lines(kept_lines(content))
}

/// Removes the gmx keybindings block from a Ghostty config.
pub fn remove_gmx_block(content: &str) -> (r: String)
    ensures
        r@ == without_block(content@),
{
    let ls = lines(&chars_of(content));
    let m = chars_of("# gmx keybindings");
    let e = chars_of("# end gmx keybindings");
    let mut result = String::new();
    let mut skipping = false;
    let mut i: usize = 0;
    let ghost init = (Seq::<Seq<char>>::empty(), false);
    assert(views(ls@).take(0) =~= Seq::<Seq<char>>::empty());
    assert(join_lines(Seq::<Seq<char>>::empty()) =~= Seq::<char>::empty());
    while i < ls.len()
        invariant
            i <= ls.len(),
            views(ls@) == lines_of(content@),
            m@ == marker(),
            e@ == end_marker(),
            init == (Seq::<Seq<char>>::empty(), false),
            result@ == join_lines(block_from(init, views(ls@).take(i as int)).0),
            skipping == block_from(init, views(ls@).take(i as int)).1,
        decreases ls.len() - i,
    {
        let ghost pre = views(ls@).take(i + 1);
        let ghost st = block_from(init, views(ls@).take(i as int));
        assert(pre.drop_last() =~= views(ls@).take(i as int));
        assert(pre.last() == ls@[i as int]@);
        let t = trim_chars(&ls[i]);
        if chars_eq(&t, &m) {
            skipping = true;
        } else if chars_eq(&t, &e) {
            skipping = false;
        } else if !skipping {
            proof {
                lemma_join_push(st.0, ls@[i as int]@);
            }
            append_chars(&mut result, &ls[i]);
            result.append("\n");
        }
        i = i + 1;
    }
    assert(views(ls@).take(i as int) =~= views(ls@));
    result
}

/// The config after installing the keybindings: the config without its old
/// gmx block, trailing whitespace trimmed, then a newline, the block and a
/// final newline.
pub open spec fn installed(content: Seq<char>, prefix: Option<Seq<char>>) -> Seq<char> {
    trim_end(without_block(content)) + "\n"@ + keybinds_text(prefix) + "\n"@
}

/// The new config text when installing the keybindings into `content` (the
/// current config, empty when there is none), replacing any earlier block.
pub fn install_keybinds(content: &str, prefix: Option<&str>) -> (r: String)
    ensures
        r@ == installed(
            content@,
            match prefix {
                Some(p) => Some(p@),
                None => None,
            },
        ),
{
    let cleaned = remove_gmx_block(content);
    let mut r = string_of(&trim_end_chars(&chars_of(cleaned.as_str())));
    r.append("\n");
    r.append(generate_keybinds(prefix).as_str());
    r.append("\n");
    r
}

/// The config after uninstalling: `None` when it holds no gmx marker (nothing
/// to do), else the config without the block, trailing whitespace trimmed,
/// and a final newline.
pub open spec fn uninstalled(content: Seq<char>) -> Option<Seq<char>> {
    if contains_text(content, marker()) {
        Some(trim_end(without_block(content)) + "\n"@)
    } else {
        None
    }
}

/// The new config text when uninstalling the keybindings from `content`;
/// `None` when no gmx keybindings are found.
pub fn uninstall_keybinds(content: &str) -> (r: Option<String>)
    ensures
        match r {
            Some(t) => uninstalled(content@) == Some(t@),
            None => uninstalled(content@) is None,
        },
{
    if !contains_str(content, "# gmx keybindings") {
        return None;
    }
    let cleaned = remove_gmx_block(content);
    let mut r = string_of(&trim_end_chars(&chars_of(cleaned.as_str())));
    r.append("\n");
    Some(r)
}

// ---------------------------------------------------------------------------
// Reinstalling and uninstalling
// ---------------------------------------------------------------------------

/// A line that the block scan neither starts nor ends the block at.
pub open spec fn plain_line(l: Seq<char>) -> bool {
    trim(l) != marker() && trim(l) != end_marker()
}

/// The kept lines as trimming the end of their joined text leaves them:
/// trailing blank lines dropped and the last line trimmed at its end.
pub open spec fn trimmed_lines(ls: Seq<Seq<char>>) -> Seq<Seq<char>>
    decreases ls.len(),
{
    if ls.len() == 0 {
        ls
    } else if trim_end(ls.last()).len() == 0 {
        trimmed_lines(ls.drop_last())
    } else {
        ls.drop_last().push(trim_end(ls.last()))
    }
}

/// The lines of the config that installing keeps before the block.
pub open spec fn kept_body(content: Seq<char>) -> Seq<Seq<char>> {
    trimmed_lines(kept_lines(content))
}

/// Some line inside the generated block reads, once trimmed, as the line
/// that ends the block.
pub open spec fn closes_early(prefix: Option<Seq<char>>) -> bool {
    exists|i: int|
        0 <= i < lines_of(block_body(prefix)).len() && trim(
            #[trigger] lines_of(block_body(prefix))[i],
        ) == end_marker()
}

/// Reading `a` then `b` is reading `a + b`.
proof fn lemma_block_from_concat(st: (Seq<Seq<char>>, bool), a: Seq<Seq<char>>, b: Seq<Seq<char>>)
    ensures
        block_from(st, a + b) == block_from(block_from(st, a), b),
    decreases b.len(),
{
    if b.len() == 0 {
        assert(a + b =~= a);
    } else {
        assert((a + b).drop_last() =~= a + b.drop_last());
        assert((a + b).last() == b.last());
        lemma_block_from_concat(st, a, b.drop_last());
    }
}

/// Outside the block, plain lines are all kept.
proof fn lemma_block_keeps_plain(kept: Seq<Seq<char>>, g: Seq<Seq<char>>)
    requires
        forall|i: int| 0 <= i < g.len() ==> plain_line(#[trigger] g[i]),
    ensures
        block_from((kept, false), g) == (kept + g, false),
    decreases g.len(),
{
    if g.len() == 0 {
        assert(kept + g =~= kept);
    } else {
        assert forall|i: int| 0 <= i < g.drop_last().len() implies plain_line(
            #[trigger] g.drop_last()[i],
        ) by {
            assert(g.drop_last()[i] == g[i]);
        }
        lemma_block_keeps_plain(kept, g.drop_last());
        assert(plain_line(g[g.len() - 1]));
        assert((kept + g.drop_last()).push(g.last()) =~= kept + g);
    }
}

/// Inside the block, lines that do not end it are all skipped.
proof fn lemma_block_skips(kept: Seq<Seq<char>>, b: Seq<Seq<char>>)
    requires
        forall|i: int| 0 <= i < b.len() ==> trim(#[trigger] b[i]) != end_marker(),
    ensures
        block_from((kept, true), b) == (kept, true),
    decreases b.len(),
{
    if b.len() > 0 {
        assert forall|i: int| 0 <= i < b.drop_last().len() implies trim(#[trigger] b.drop_last()[i])
            != end_marker() by {
            assert(b.drop_last()[i] == b[i]);
        }
        lemma_block_skips(kept, b.drop_last());
        assert(trim(b[b.len() - 1]) != end_marker());
    }
}

/// The kept lines are plain and hold no line break.
proof fn lemma_kept_plain(ls: Seq<Seq<char>>)
    requires
        forall|i: int| 0 <= i < ls.len() ==> no_nl(#[trigger] ls[i]),
    ensures
        forall|i: int|
            0 <= i < block_from((Seq::empty(), false), ls).0.len() ==> plain_line(
                #[trigger] block_from((Seq::empty(), false), ls).0[i],
            ) && no_nl(block_from((Seq::empty(), false), ls).0[i]),
    decreases ls.len(),
{
    if ls.len() > 0 {
        assert forall|i: int| 0 <= i < ls.drop_last().len() implies no_nl(
            #[trigger] ls.drop_last()[i],
        ) by {
            assert(ls.drop_last()[i] == ls[i]);
        }
        lemma_kept_plain(ls.drop_last());
        assert(no_nl(ls[ls.len() - 1]));
        let prev = block_from((Seq::empty(), false), ls.drop_last());
        let r = block_from((Seq::empty(), false), ls);
        assert(r == block_step(prev, ls.last()));
        assert forall|i: int| 0 <= i < r.0.len() implies plain_line(#[trigger] r.0[i]) && no_nl(
            r.0[i],
        ) by {
            if i < prev.0.len() {
                assert(r.0[i] == prev.0[i]);
            } else {
                assert(r.0[i] == ls.last());
            }
        }
    }
}

/// Trailing whitespace added to text is trimmed away again.
proof fn lemma_trim_end_ws_suffix(x: Seq<char>, y: Seq<char>)
    requires
        forall|i: int| 0 <= i < y.len() ==> is_ws(#[trigger] y[i]),
    ensures
        trim_end(x + y) == trim_end(x),
{
    lemma_trim_end_props(x);
    let n = trim_end(x).len() as int;
    let s = x + y;
    assert forall|i: int| n <= i < s.len() implies is_ws(#[trigger] s[i]) by {
        if i < x.len() {
            assert(s[i] == x[i]);
        } else {
            assert(s[i] == y[i - x.len()]);
        }
    }
    if n > 0 {
        assert(s[n - 1] == trim_end(x).last());
    }
    lemma_trim_end_at(s, n);
    assert(s.take(n) =~= x.take(n));
}

/// Trimming the end of joined lines leaves the trimmed lines joined, but for
/// the last line break.
proof fn lemma_trim_end_join(ls: Seq<Seq<char>>)
    ensures
        trimmed_lines(ls).len() == 0 ==> trim_end(join_lines(ls)).len() == 0,
        trimmed_lines(ls).len() > 0 ==> trim_end(join_lines(ls)) + "\n"@ == join_lines(
            trimmed_lines(ls),
        ),
    decreases ls.len(),
{
    reveal_strlit("\n");
    if ls.len() == 0 {
        assert(join_lines(ls) =~= Seq::<char>::empty());
    } else {
        let d = ls.drop_last();
        let l = ls.last();
        lemma_join_push(d, l);
        assert(d.push(l) =~= ls);
        let x = join_lines(d);
        lemma_trim_end_props(l);
        if trim_end(l).len() == 0 {
            lemma_trim_end_join(d);
            let y = l + "\n"@;
            assert forall|i: int| 0 <= i < y.len() implies is_ws(#[trigger] y[i]) by {
                if i < l.len() {
                    assert(y[i] == l[i]);
                } else {
                    assert(y[i] == '\n');
                }
            }
            assert(join_lines(ls) =~= x + y);
            lemma_trim_end_ws_suffix(x, y);
        } else {
            let t = trim_end(l);
            let s = join_lines(ls);
            assert(s =~= x + l + "\n"@);
            let n = (x.len() + t.len()) as int;
            assert forall|i: int| n <= i < s.len() implies is_ws(#[trigger] s[i]) by {
                if i < x.len() + l.len() {
                    assert(s[i] == l[i - x.len()]);
                } else {
                    assert(s[i] == '\n');
                }
            }
            assert(s[n - 1] == l[t.len() - 1]);
            assert(t.last() == l[t.len() - 1]);
            lemma_trim_end_at(s, n);
            assert(s.take(n) =~= x + t);
            lemma_join_push(d, t);
        }
    }
}

/// The lines that installing writes before the block: the kept body, or a
/// single empty line when it is empty.
pub open spec fn body_lines(content: Seq<char>) -> Seq<Seq<char>> {
    if kept_body(content).len() == 0 {
        seq![Seq::<char>::empty()]
    } else {
        kept_body(content)
    }
}

/// What installing writes before the block is the body lines joined; they
/// are plain and hold no line break.
proof fn lemma_body_lines(content: Seq<char>)
    ensures
        trim_end(without_block(content)) + "\n"@ == join_lines(body_lines(content)),
        forall|i: int|
            0 <= i < body_lines(content).len() ==> plain_line(#[trigger] body_lines(content)[i])
                && no_nl(body_lines(content)[i]),
{
    reveal_strlit("\n");
    reveal_strlit("# gmx keybindings");
    reveal_strlit("# end gmx keybindings");
    let ls = kept_lines(content);
    lemma_lines_no_nl(content, Seq::empty());
    lemma_kept_plain(lines_of(content));
    lemma_trim_end_join(ls);
    let b = body_lines(content);
    if kept_body(content).len() == 0 {
        let e = Seq::<char>::empty();
        assert(trim_end(without_block(content)) =~= e);
        assert(b[0] == e);
        assert(join_lines(b.drop_first()) =~= e) by {
            assert(b.drop_first().len() == 0);
        }
        assert(join_lines(b) =~= "\n"@);
        assert(trim(e) =~= e) by {
            assert(trim_start(e) =~= e);
        }
        assert(marker().len() > 0);
        assert(end_marker().len() > 0);
    } else {
        lemma_trimmed_plain(ls);
    }
}

/// The trimmed lines keep what the lines had: plain, without line breaks.
proof fn lemma_trimmed_plain(ls: Seq<Seq<char>>)
    requires
        forall|i: int| 0 <= i < ls.len() ==> plain_line(#[trigger] ls[i]) && no_nl(ls[i]),
    ensures
        forall|i: int|
            0 <= i < trimmed_lines(ls).len() ==> plain_line(#[trigger] trimmed_lines(ls)[i])
                && no_nl(trimmed_lines(ls)[i]),
    decreases ls.len(),
{
    if ls.len() > 0 {
        let d = ls.drop_last();
        let l = ls.last();
        assert(plain_line(ls[ls.len() - 1]) && no_nl(ls[ls.len() - 1]));
        assert forall|i: int| 0 <= i < d.len() implies plain_line(#[trigger] d[i]) && no_nl(d[i]) by {
            assert(d[i] == ls[i]);
        }
        if trim_end(l).len() == 0 {
            lemma_trimmed_plain(d);
            assert(trimmed_lines(ls) == trimmed_lines(d));
        } else {
            let t = trim_end(l);
            lemma_trim_of_trim_end(l);
            lemma_trim_end_props(l);
            assert forall|j: int| 0 <= j < t.len() implies t[j] != '\n' by {
                assert(t[j] == l[j]);
            }
            let r = trimmed_lines(ls);
            assert(r == d.push(t));
            assert forall|i: int| 0 <= i < r.len() implies plain_line(#[trigger] r[i]) && no_nl(r[i]) by {
                if i < d.len() {
                    assert(r[i] == d[i]);
                } else {
                    assert(r[i] == t);
                }
            }
        }
    }
}

/// Reading one line from the state `st`.
proof fn lemma_block_from_one(st: (Seq<Seq<char>>, bool), x: Seq<char>)
    ensures
        block_from(st, seq![x]) == block_step(st, x),
{
    assert(seq![x].drop_last() =~= Seq::<Seq<char>>::empty());
    assert(block_from(st, seq![x].drop_last()) == st);
    assert(seq![x].last() == x);
}

/// The two marker lines read as themselves once trimmed, hold no line
/// break, and do not end with a carriage return.
proof fn lemma_markers()
    ensures
        trim(marker()) == marker(),
        trim(end_marker()) == end_marker(),
        marker() != end_marker(),
        no_nl(marker()),
        no_nl(end_marker()),
        strip_cr(marker()) == marker(),
        strip_cr(end_marker()) == end_marker(),
{
    reveal_strlit("# gmx keybindings");
    reveal_strlit("# end gmx keybindings");
    let m = marker();
    let e = end_marker();
    assert(!is_ws(m[0]) && !is_ws(m.last()));
    assert(!is_ws(e[0]) && !is_ws(e.last()));
    assert(trim_start(m) == m);
    assert(trim_start(e) == e);
    assert(m.len() != e.len());
    assert forall|i: int| 0 <= i < m.len() implies m[i] != '\n' by {
        assert(m[i] == "# gmx keybindings"@[i]);
    }
    assert forall|i: int| 0 <= i < e.len() implies e[i] != '\n' by {
        assert(e[i] == "# end gmx keybindings"@[i]);
    }
}

/// The block body is not empty and ends with a line break.
proof fn lemma_body_ends_nl(prefix: Option<Seq<char>>)
    ensures
        block_body(prefix).len() > 0,
        block_body(prefix).last() == '\n',
{
    reveal_strlit(
        "=activate_key_table_once:gmx\nkeybind = gmx/d=text:gmx split right\\n\nkeybind = gmx/e=text:gmx split down\\n\nkeybind = gmx/c=text:gmx new --tab\\n\nkeybind = gmx/a=text:gmx attach\nkeybind = gmx/x=text:gmx kill\\n\nkeybind = gmx/s=text:gmx ls\\n\nkeybind = gmx/escape=deactivate_key_table\n",
    );
    reveal_strlit(
        "keybind = ctrl+shift+d=text:gmx split right\\n\nkeybind = ctrl+shift+e=text:gmx split down\\n\nkeybind = ctrl+shift+t=text:gmx new --tab\\n\nkeybind = ctrl+shift+a=text:gmx attach\nkeybind = ctrl+shift+x=text:gmx kill\\n\nkeybind = ctrl+shift+s=text:gmx ls\\n\n",
    );
}

/// The block, with the line break after it, reads as its marker line, the
/// lines of its body, and its end line.
proof fn lemma_block_lines(prefix: Option<Seq<char>>)
    ensures
        lines_acc(keybinds_text(prefix) + "\n"@, Seq::empty()) == seq![marker()] + lines_of(
            block_body(prefix),
        ) + seq![end_marker()],
{
    let m = marker();
    let e = end_marker();
    let body = block_body(prefix);
    lemma_markers();
    lemma_body_ends_nl(prefix);
    let z = body + (e + "\n"@);
    assert(keybinds_text(prefix) + "\n"@ =~= m + "\n"@ + z);
    lemma_lines_line(m, z, Seq::empty());
    assert(Seq::<char>::empty() + m =~= m);
    lemma_lines_split(body, e + "\n"@, Seq::empty());
    lemma_lines_line(e, Seq::empty(), Seq::empty());
    assert(e + "\n"@ + Seq::<char>::empty() =~= e + "\n"@);
    assert(Seq::<char>::empty() + e =~= e);
    assert(lines_acc(Seq::<char>::empty(), Seq::<char>::empty()) =~= Seq::<Seq<char>>::empty());
    assert(lines_acc(e + "\n"@, Seq::empty()) =~= seq![e]);
    assert(seq![m] + (lines_of(body) + seq![e]) =~= seq![m] + lines_of(body) + seq![e]);
}

/// Removing the block from an installed config gives back what installing
/// wrote before the block.
proof fn lemma_without_installed(content: Seq<char>, prefix: Option<Seq<char>>)
    requires
        forall|i: int| 0 <= i < kept_body(content).len() ==> !ends_cr(#[trigger] kept_body(content)[i]),
        !closes_early(prefix),
    ensures
        without_block(installed(content, prefix)) == trim_end(without_block(content)) + "\n"@,
{
    lemma_body_lines(content);
    lemma_markers();
    let g = body_lines(content);
    assert forall|i: int| 0 <= i < g.len() implies no_nl(#[trigger] g[i]) && !ends_cr(g[i]) by {
        assert(no_nl(g[i]));
        if kept_body(content).len() > 0 {
            assert(g[i] == kept_body(content)[i]);
        }
    }
    let y = keybinds_text(prefix) + "\n"@;
    assert(installed(content, prefix) =~= join_lines(g) + y);
    lemma_lines_of_join(g, y);
    lemma_block_lines(prefix);
    let m = marker();
    let e = end_marker();
    let b = lines_of(block_body(prefix));
    let rest = seq![m] + b + seq![e];
    assert(lines_of(installed(content, prefix)) == g + rest);
    let init = (Seq::<Seq<char>>::empty(), false);
    lemma_block_from_concat(init, g, rest);
    lemma_block_keeps_plain(Seq::empty(), g);
    assert(Seq::<Seq<char>>::empty() + g =~= g);
    lemma_block_from_concat((g, false), seq![m] + b, seq![e]);
    lemma_block_from_concat((g, false), seq![m], b);
    lemma_block_from_one((g, false), m);
    assert forall|i: int| 0 <= i < b.len() implies trim(#[trigger] b[i]) != e by {
        if trim(b[i]) == e {
            assert(closes_early(prefix));
        }
    }
    lemma_block_skips(g, b);
    lemma_block_from_one((g, true), e);
    assert(kept_lines(installed(content, prefix)) == g);
}

/// Text whose end is trimmed, with a line break added, trims back to itself.
proof fn lemma_trim_end_nl(w: Seq<char>)
    ensures
        trim_end(trim_end(w) + "\n"@) == trim_end(w),
{
    reveal_strlit("\n");
    lemma_trim_end_props(w);
    let t = trim_end(w);
    let s = t + "\n"@;
    assert forall|i: int| t.len() <= i < s.len() implies is_ws(#[trigger] s[i]) by {
        assert(s[i] == '\n');
    }
    if t.len() > 0 {
        assert(s[t.len() - 1] == t.last());
    }
    lemma_trim_end_at(s, t.len() as int);
    assert(s.take(t.len() as int) =~= t);
}

/// Installing the keybindings into a config that already holds them gives
/// that config back: installing twice is installing once. It holds when no
/// line kept before the block ends with a carriage return (reading it again
/// would drop it) and no line of the block body reads as the end line.
pub proof fn law_install_idempotent(content: Seq<char>, prefix: Option<Seq<char>>)
    requires
        forall|i: int| 0 <= i < kept_body(content).len() ==> !ends_cr(#[trigger] kept_body(content)[i]),
        !closes_early(prefix),
    ensures
        installed(installed(content, prefix), prefix) == installed(content, prefix),
{
    lemma_without_installed(content, prefix);
    lemma_trim_end_nl(without_block(content));
}

/// Uninstalling right after installing finds the block and removes it again:
/// what is left is the config without any gmx block, its end trimmed, with a
/// final newline. It holds under the same conditions as reinstalling.
pub proof fn law_uninstall_after_install(content: Seq<char>, prefix: Option<Seq<char>>)
    requires
        forall|i: int| 0 <= i < kept_body(content).len() ==> !ends_cr(#[trigger] kept_body(content)[i]),
        !closes_early(prefix),
    ensures
        uninstalled(installed(content, prefix)) == Some(trim_end(without_block(content)) + "\n"@),
{
    lemma_without_installed(content, prefix);
    lemma_trim_end_nl(without_block(content));
    let inst = installed(content, prefix);
    let i = (trim_end(without_block(content)) + "\n"@).len() as int;
    assert(inst.subrange(i, i + marker().len()) =~= marker());
    assert(contains_text(inst, marker()));
}

/// The kept lines hold no character that the lines read do not hold.
proof fn lemma_kept_free(ls: Seq<Seq<char>>, c: char)
    requires
        forall|i: int| 0 <= i < ls.len() ==> free_of(#[trigger] ls[i], c),
    ensures
        forall|i: int|
            0 <= i < block_from((Seq::empty(), false), ls).0.len() ==> free_of(
                #[trigger] block_from((Seq::empty(), false), ls).0[i],
                c,
            ),
    decreases ls.len(),
{
    if ls.len() > 0 {
        assert forall|i: int| 0 <= i < ls.drop_last().len() implies free_of(
            #[trigger] ls.drop_last()[i],
            c,
        ) by {
            assert(ls.drop_last()[i] == ls[i]);
        }
        lemma_kept_free(ls.drop_last(), c);
        assert(free_of(ls[ls.len() - 1], c));
        let prev = block_from((Seq::empty(), false), ls.drop_last());
        let r = block_from((Seq::empty(), false), ls);
        assert(r == block_step(prev, ls.last()));
        assert forall|i: int| 0 <= i < r.0.len() implies free_of(#[trigger] r.0[i], c) by {
            if i < prev.0.len() {
                assert(r.0[i] == prev.0[i]);
            } else {
                assert(r.0[i] == ls.last());
            }
        }
    }
}

/// The trimmed lines hold no character that the lines do not hold.
proof fn lemma_trimmed_free(ls: Seq<Seq<char>>, c: char)
    requires
        forall|i: int| 0 <= i < ls.len() ==> free_of(#[trigger] ls[i], c),
    ensures
        forall|i: int|
            0 <= i < trimmed_lines(ls).len() ==> free_of(#[trigger] trimmed_lines(ls)[i], c),
    decreases ls.len(),
{
    if ls.len() > 0 {
        let d = ls.drop_last();
        let l = ls.last();
        assert(free_of(ls[ls.len() - 1], c));
        assert forall|i: int| 0 <= i < d.len() implies free_of(#[trigger] d[i], c) by {
            assert(d[i] == ls[i]);
        }
        if trim_end(l).len() == 0 {
            lemma_trimmed_free(d, c);
            assert(trimmed_lines(ls) == trimmed_lines(d));
        } else {
            lemma_trim_free(l, c);
            let r = trimmed_lines(ls);
            assert(r == d.push(trim_end(l)));
            assert forall|i: int| 0 <= i < r.len() implies free_of(#[trigger] r[i], c) by {
                if i < d.len() {
                    assert(r[i] == d[i]);
                }
            }
        }
    }
}

/// In a config without carriage returns no line kept before the block ends
/// with one.
pub proof fn lemma_config_without_cr(content: Seq<char>)
    requires
        free_of(content, '\r'),
    ensures
        forall|i: int| 0 <= i < kept_body(content).len() ==> !ends_cr(#[trigger] kept_body(content)[i]),
{
    lemma_lines_free(content, Seq::empty(), '\r');
    lemma_kept_free(lines_of(content), '\r');
    lemma_trimmed_free(kept_lines(content), '\r');
    assert forall|i: int| 0 <= i < kept_body(content).len() implies !ends_cr(
        #[trigger] kept_body(content)[i],
    ) by {
        let l = kept_body(content)[i];
        if l.len() > 0 {
            assert(l[l.len() - 1] != '\r');
        }
    }
}

/// A line that holds no `#`, once trimmed, is not the end line.
proof fn lemma_hashless_not_end(l: Seq<char>)
    requires
        free_of(l, '#'),
    ensures
        trim(l) != end_marker(),
{
    reveal_strlit("# end gmx keybindings");
    lemma_trim_free(l, '#');
    if trim(l) == end_marker() {
        assert(trim(l)[0] == '#');
    }
}

/// A line that starts and ends with a character that is not whitespace is
/// its own trim.
proof fn lemma_trim_solid(l: Seq<char>)
    requires
        l.len() > 0,
        !is_ws(l[0]),
        !is_ws(l.last()),
    ensures
        trim(l) == l,
{
    lemma_trim_start_at(l, 0);
    assert(l.skip(0) =~= l);
    lemma_trim_end_at(l, l.len() as int);
    assert(l.take(l.len() as int) =~= l);
}

/// Without a prefix key, or with one that holds no line break, no line of
/// the block body reads as the end line.
pub proof fn lemma_key_stays_inside(prefix: Option<Seq<char>>)
    requires
        match prefix {
            Some(p) => no_nl(p),
            None => true,
        },
    ensures
        !closes_early(prefix),
{
    let body = block_body(prefix);
    match prefix {
        None => {
            let r = "keybind = ctrl+shift+d=text:gmx split right\\n\nkeybind = ctrl+shift+e=text:gmx split down\\n\nkeybind = ctrl+shift+t=text:gmx new --tab\\n\nkeybind = ctrl+shift+a=text:gmx attach\nkeybind = ctrl+shift+x=text:gmx kill\\n\nkeybind = ctrl+shift+s=text:gmx ls\\n\n"@;
            reveal_strlit(
                "keybind = ctrl+shift+d=text:gmx split right\\n\nkeybind = ctrl+shift+e=text:gmx split down\\n\nkeybind = ctrl+shift+t=text:gmx new --tab\\n\nkeybind = ctrl+shift+a=text:gmx attach\nkeybind = ctrl+shift+x=text:gmx kill\\n\nkeybind = ctrl+shift+s=text:gmx ls\\n\n",
            );
            assert(free_of(r, '#'));
            lemma_lines_free(r, Seq::empty(), '#');
            assert forall|i: int| 0 <= i < lines_of(body).len() implies trim(
                #[trigger] lines_of(body)[i],
            ) != end_marker() by {
                lemma_hashless_not_end(lines_of(body)[i]);
            }
        },
        Some(pfx) => {
            reveal_strlit("# Prefix mode: press ");
            reveal_strlit(", then a key to trigger gmx actions");
            reveal_strlit(", then a key to trigger gmx actions\nkeybind = ");
            reveal_strlit("keybind = ");
            reveal_strlit("=activate_key_table_once:gmx");
            reveal_strlit("\n");
            reveal_strlit(
                "=activate_key_table_once:gmx\nkeybind = gmx/d=text:gmx split right\\n\nkeybind = gmx/e=text:gmx split down\\n\nkeybind = gmx/c=text:gmx new --tab\\n\nkeybind = gmx/a=text:gmx attach\nkeybind = gmx/x=text:gmx kill\\n\nkeybind = gmx/s=text:gmx ls\\n\nkeybind = gmx/escape=deactivate_key_table\n",
            );
            reveal_strlit(
                "keybind = gmx/d=text:gmx split right\\n\nkeybind = gmx/e=text:gmx split down\\n\nkeybind = gmx/c=text:gmx new --tab\\n\nkeybind = gmx/a=text:gmx attach\nkeybind = gmx/x=text:gmx kill\\n\nkeybind = gmx/s=text:gmx ls\\n\nkeybind = gmx/escape=deactivate_key_table\n",
            );
            let head = "# Prefix mode: press "@;
            let mid = ", then a key to trigger gmx actions"@;
            let kb = "keybind = "@;
            let act = "=activate_key_table_once:gmx"@;
            let r = "keybind = gmx/d=text:gmx split right\\n\nkeybind = gmx/e=text:gmx split down\\n\nkeybind = gmx/c=text:gmx new --tab\\n\nkeybind = gmx/a=text:gmx attach\nkeybind = gmx/x=text:gmx kill\\n\nkeybind = gmx/s=text:gmx ls\\n\nkeybind = gmx/escape=deactivate_key_table\n"@;
            let l1 = head + pfx + mid;
            let l2 = kb + pfx + act;
            assert(", then a key to trigger gmx actions\nkeybind = "@ =~= mid + "\n"@ + kb);
            assert("=activate_key_table_once:gmx\nkeybind = gmx/d=text:gmx split right\\n\nkeybind = gmx/e=text:gmx split down\\n\nkeybind = gmx/c=text:gmx new --tab\\n\nkeybind = gmx/a=text:gmx attach\nkeybind = gmx/x=text:gmx kill\\n\nkeybind = gmx/s=text:gmx ls\\n\nkeybind = gmx/escape=deactivate_key_table\n"@
                =~= act + "\n"@ + r);
            assert(body =~= l1 + "\n"@ + (l2 + "\n"@ + r));
            assert(no_nl(l1)) by {
                assert forall|j: int| 0 <= j < l1.len() implies l1[j] != '\n' by {
                    if j < head.len() {
                        assert(l1[j] == head[j]);
                    } else if j < head.len() + pfx.len() {
                        assert(l1[j] == pfx[j - head.len()]);
                    } else {
                        assert(l1[j] == mid[j - head.len() - pfx.len()]);
                    }
                }
            }
            assert(no_nl(l2)) by {
                assert forall|j: int| 0 <= j < l2.len() implies l2[j] != '\n' by {
                    if j < kb.len() {
                        assert(l2[j] == kb[j]);
                    } else if j < kb.len() + pfx.len() {
                        assert(l2[j] == pfx[j - kb.len()]);
                    } else {
                        assert(l2[j] == act[j - kb.len() - pfx.len()]);
                    }
                }
            }
            lemma_lines_line(l1, l2 + "\n"@ + r, Seq::empty());
            lemma_lines_line(l2, r, Seq::empty());
            assert(Seq::<char>::empty() + l1 =~= l1);
            assert(Seq::<char>::empty() + l2 =~= l2);
            assert(l1[0] == '#' && l1.last() == 's');
            assert(l2[0] == 'k' && l2.last() == 'x');
            lemma_trim_solid(l1);
            lemma_trim_solid(l2);
            reveal_strlit("# end gmx keybindings");
            assert(l1 != end_marker()) by {
                assert(l1[2] == 'P');
                assert(end_marker()[2] == 'e');
            }
            assert(l2 != end_marker()) by {
                assert(end_marker()[0] == '#');
            }
            assert(free_of(r, '#'));
            lemma_lines_free(r, Seq::empty(), '#');
            let ls = lines_of(body);
            assert(ls == seq![l1] + (seq![l2] + lines_of(r)));
            assert forall|i: int| 0 <= i < ls.len() implies trim(#[trigger] ls[i]) != end_marker() by {
                if i == 0 {
                    assert(ls[i] == l1);
                } else if i == 1 {
                    assert(ls[i] == l2);
                } else {
                    assert(ls[i] == lines_of(r)[i - 2]);
                    lemma_hashless_not_end(lines_of(r)[i - 2]);
                }
            }
        },
    }
}

/// Removing the gmx block from a config whose end is trimmed, with the block
/// appended as installing appends it, gives what removing it from the config
/// alone gives, for every prefix key without a line break (and without a
/// prefix): uninstalling takes away exactly what installing added.
pub proof fn law_remove_appended_block(s: Seq<char>, prefix: Option<Seq<char>>)
    requires
        s.len() > 0,
        trim_end(s) == s,
        match prefix {
            Some(p) => no_nl(p),
            None => true,
        },
    ensures
        without_block(s + "\n"@ + keybinds_text(prefix) + "\n"@) == without_block(s),
{
    lemma_key_stays_inside(prefix);
    lemma_remove_appended_block(s, prefix);
}

/// Removing the gmx block from a config whose end is trimmed, with the block
/// appended, gives what removing it from the config alone gives, whenever no
/// line of the block body reads as the end line.
pub proof fn lemma_remove_appended_block(s: Seq<char>, prefix: Option<Seq<char>>)
    requires
        s.len() > 0,
        trim_end(s) == s,
        !closes_early(prefix),
    ensures
        without_block(s + "\n"@ + keybinds_text(prefix) + "\n"@) == without_block(s),
{
    reveal_strlit("\n");
    lemma_trim_end_props(s);
    assert(is_ws('\n') && is_ws('\r'));
    assert(s.last() != '\n' && s.last() != '\r');
    lemma_markers();
    let y = keybinds_text(prefix) + "\n"@;
    let x = s + "\n"@;
    assert(s + "\n"@ + keybinds_text(prefix) + "\n"@ =~= x + y);
    assert(x.last() == '\n');
    lemma_lines_split(x, y, Seq::empty());
    lemma_lines_final_nl(s, Seq::empty());
    lemma_block_lines(prefix);
    let m = marker();
    let e = end_marker();
    let b = lines_of(block_body(prefix));
    let rest = seq![m] + b + seq![e];
    assert(lines_of(x + y) == lines_of(s) + rest);
    let init = (Seq::<Seq<char>>::empty(), false);
    let st = block_from(init, lines_of(s));
    lemma_block_from_concat(init, lines_of(s), rest);
    lemma_block_from_concat(st, seq![m] + b, seq![e]);
    lemma_block_from_concat(st, seq![m], b);
    lemma_block_from_one(st, m);
    assert forall|i: int| 0 <= i < b.len() implies trim(#[trigger] b[i]) != e by {
        if trim(b[i]) == e {
            assert(closes_early(prefix));
        }
    }
    lemma_block_skips(st.0, b);
    lemma_block_from_one((st.0, true), e);
    assert(block_from(st, seq![m]) == (st.0, true));
    assert(block_from(st, seq![m] + b) == (st.0, true));
    assert(block_from(st, rest) == (st.0, false));
    assert(block_from(init, lines_of(x + y)) == (st.0, false));
    assert(kept_lines(s + "\n"@ + keybinds_text(prefix) + "\n"@) == kept_lines(s));
}

/// The block holds the whole line `keybind = <key>=<action>`.
pub open spec fn binds_line(text: Seq<char>, key: Seq<char>, action: Seq<char>) -> bool {
    contains_text(text, "\nkeybind = "@ + key + "="@ + action + "\n"@)
}

/// `s` stands in `x` at `o`.
proof fn lemma_found(x: Seq<char>, s: Seq<char>, o: int)
    requires
        0 <= o,
        o + s.len() <= x.len(),
        x.subrange(o, o + s.len()) =~= s,
    ensures
        contains_text(x, s),
{
}

/// The bindings without a prefix, within the line break that ends the
/// marker line and the body.
proof fn lemma_plain_bindings()
    ensures
        ({
            let t = "\n"@ + "keybind = ctrl+shift+d=text:gmx split right\\n\nkeybind = ctrl+shift+e=text:gmx split down\\n\nkeybind = ctrl+shift+t=text:gmx new --tab\\n\nkeybind = ctrl+shift+a=text:gmx attach\nkeybind = ctrl+shift+x=text:gmx kill\\n\nkeybind = ctrl+shift+s=text:gmx ls\\n\n"@;
                &&& binds_line(t, "ctrl+shift+d"@, "text:gmx split right\\n"@)
                &&& binds_line(t, "ctrl+shift+e"@, "text:gmx split down\\n"@)
                &&& binds_line(t, "ctrl+shift+t"@, "text:gmx new --tab\\n"@)
                &&& binds_line(t, "ctrl+shift+a"@, "text:gmx attach"@)
                &&& binds_line(t, "ctrl+shift+x"@, "text:gmx kill\\n"@)
                &&& binds_line(t, "ctrl+shift+s"@, "text:gmx ls\\n"@)
        }),
{
    reveal_strlit("\n");
    reveal_strlit("\nkeybind = ");
    reveal_strlit("=");
    reveal_strlit("keybind = ctrl+shift+d=text:gmx split right\\n\nkeybind = ctrl+shift+e=text:gmx split down\\n\nkeybind = ctrl+shift+t=text:gmx new --tab\\n\nkeybind = ctrl+shift+a=text:gmx attach\nkeybind = ctrl+shift+x=text:gmx kill\\n\nkeybind = ctrl+shift+s=text:gmx ls\\n\n");
    reveal_strlit("ctrl+shift+d");
    reveal_strlit("text:gmx split right\\n");
    reveal_strlit("ctrl+shift+e");
    reveal_strlit("text:gmx split down\\n");
    reveal_strlit("ctrl+shift+t");
    reveal_strlit("text:gmx new --tab\\n");
    reveal_strlit("ctrl+shift+a");
    reveal_strlit("text:gmx attach");
    reveal_strlit("ctrl+shift+x");
    reveal_strlit("text:gmx kill\\n");
    reveal_strlit("ctrl+shift+s");
    reveal_strlit("text:gmx ls\\n");
    let x = "\n"@ + "keybind = ctrl+shift+d=text:gmx split right\\n\nkeybind = ctrl+shift+e=text:gmx split down\\n\nkeybind = ctrl+shift+t=text:gmx new --tab\\n\nkeybind = ctrl+shift+a=text:gmx attach\nkeybind = ctrl+shift+x=text:gmx kill\\n\nkeybind = ctrl+shift+s=text:gmx ls\\n\n"@;
    lemma_found(x, "\nkeybind = "@ + "ctrl+shift+d"@ + "="@ + "text:gmx split right\\n"@ + "\n"@, 0);
    lemma_found(x, "\nkeybind = "@ + "ctrl+shift+e"@ + "="@ + "text:gmx split down\\n"@ + "\n"@, 46);
    lemma_found(x, "\nkeybind = "@ + "ctrl+shift+t"@ + "="@ + "text:gmx new --tab\\n"@ + "\n"@, 91);
    lemma_found(x, "\nkeybind = "@ + "ctrl+shift+a"@ + "="@ + "text:gmx attach"@ + "\n"@, 135);
    lemma_found(x, "\nkeybind = "@ + "ctrl+shift+x"@ + "="@ + "text:gmx kill\\n"@ + "\n"@, 174);
    lemma_found(x, "\nkeybind = "@ + "ctrl+shift+s"@ + "="@ + "text:gmx ls\\n"@ + "\n"@, 213);
}

/// The bindings of the prefix key table, within the end of the body.
proof fn lemma_table_bindings()
    ensures
        ({
            let t = "=activate_key_table_once:gmx\nkeybind = gmx/d=text:gmx split right\\n\nkeybind = gmx/e=text:gmx split down\\n\nkeybind = gmx/c=text:gmx new --tab\\n\nkeybind = gmx/a=text:gmx attach\nkeybind = gmx/x=text:gmx kill\\n\nkeybind = gmx/s=text:gmx ls\\n\nkeybind = gmx/escape=deactivate_key_table\n"@;
                &&& binds_line(t, "gmx/d"@, "text:gmx split right\\n"@)
                &&& binds_line(t, "gmx/e"@, "text:gmx split down\\n"@)
                &&& binds_line(t, "gmx/c"@, "text:gmx new --tab\\n"@)
                &&& binds_line(t, "gmx/a"@, "text:gmx attach"@)
                &&& binds_line(t, "gmx/x"@, "text:gmx kill\\n"@)
                &&& binds_line(t, "gmx/s"@, "text:gmx ls\\n"@)
                &&& binds_line(t, "gmx/escape"@, "deactivate_key_table"@)
        }),
{
    reveal_strlit("\n");
    reveal_strlit("\nkeybind = ");
    reveal_strlit("=");
    reveal_strlit("=activate_key_table_once:gmx\nkeybind = gmx/d=text:gmx split right\\n\nkeybind = gmx/e=text:gmx split down\\n\nkeybind = gmx/c=text:gmx new --tab\\n\nkeybind = gmx/a=text:gmx attach\nkeybind = gmx/x=text:gmx kill\\n\nkeybind = gmx/s=text:gmx ls\\n\nkeybind = gmx/escape=deactivate_key_table\n");
    reveal_strlit("gmx/d");
    reveal_strlit("text:gmx split right\\n");
    reveal_strlit("gmx/e");
    reveal_strlit("text:gmx split down\\n");
    reveal_strlit("gmx/c");
    reveal_strlit("text:gmx new --tab\\n");
    reveal_strlit("gmx/a");
    reveal_strlit("text:gmx attach");
    reveal_strlit("gmx/x");
    reveal_strlit("text:gmx kill\\n");
    reveal_strlit("gmx/s");
    reveal_strlit("text:gmx ls\\n");
    reveal_strlit("gmx/escape");
    reveal_strlit("deactivate_key_table");
    let x = "=activate_key_table_once:gmx\nkeybind = gmx/d=text:gmx split right\\n\nkeybind = gmx/e=text:gmx split down\\n\nkeybind = gmx/c=text:gmx new --tab\\n\nkeybind = gmx/a=text:gmx attach\nkeybind = gmx/x=text:gmx kill\\n\nkeybind = gmx/s=text:gmx ls\\n\nkeybind = gmx/escape=deactivate_key_table\n"@;
    lemma_found(x, "\nkeybind = "@ + "gmx/d"@ + "="@ + "text:gmx split right\\n"@ + "\n"@, 28);
    lemma_found(x, "\nkeybind = "@ + "gmx/e"@ + "="@ + "text:gmx split down\\n"@ + "\n"@, 67);
    lemma_found(x, "\nkeybind = "@ + "gmx/c"@ + "="@ + "text:gmx new --tab\\n"@ + "\n"@, 105);
    lemma_found(x, "\nkeybind = "@ + "gmx/a"@ + "="@ + "text:gmx attach"@ + "\n"@, 142);
    lemma_found(x, "\nkeybind = "@ + "gmx/x"@ + "="@ + "text:gmx kill\\n"@ + "\n"@, 174);
    lemma_found(x, "\nkeybind = "@ + "gmx/s"@ + "="@ + "text:gmx ls\\n"@ + "\n"@, 206);
    lemma_found(x, "\nkeybind = "@ + "gmx/escape"@ + "="@ + "deactivate_key_table"@ + "\n"@, 236);
}

/// Each key of the generated block runs its own command: without a prefix,
/// ctrl+shift+d splits right, ctrl+shift+e splits down, ctrl+shift+t opens a
/// new tab, ctrl+shift+a types `gmx attach` (for a name to follow),
/// ctrl+shift+x kills and ctrl+shift+s lists; with a prefix, the prefix key
/// enters the gmx key table, whose keys d, e, c, a, x, s do the same and
/// escape leaves it.
pub proof fn law_keybind_commands(prefix: Option<Seq<char>>)
    ensures
        match prefix {
            None => {
                let t = keybinds_text(prefix);
                &&& binds_line(t, "ctrl+shift+d"@, "text:gmx split right\\n"@)
                &&& binds_line(t, "ctrl+shift+e"@, "text:gmx split down\\n"@)
                &&& binds_line(t, "ctrl+shift+t"@, "text:gmx new --tab\\n"@)
                &&& binds_line(t, "ctrl+shift+a"@, "text:gmx attach"@)
                &&& binds_line(t, "ctrl+shift+x"@, "text:gmx kill\\n"@)
                &&& binds_line(t, "ctrl+shift+s"@, "text:gmx ls\\n"@)
            },
            Some(p) => {
                let t = keybinds_text(prefix);
                &&& binds_line(t, p, "activate_key_table_once:gmx"@)
                &&& binds_line(t, "gmx/d"@, "text:gmx split right\\n"@)
                &&& binds_line(t, "gmx/e"@, "text:gmx split down\\n"@)
                &&& binds_line(t, "gmx/c"@, "text:gmx new --tab\\n"@)
                &&& binds_line(t, "gmx/a"@, "text:gmx attach"@)
                &&& binds_line(t, "gmx/x"@, "text:gmx kill\\n"@)
                &&& binds_line(t, "gmx/s"@, "text:gmx ls\\n"@)
                &&& binds_line(t, "gmx/escape"@, "deactivate_key_table"@)
            },
        },
{
    let t = keybinds_text(prefix);
    match prefix {
        None => {
            lemma_plain_bindings();
            let x = "\n"@ + "keybind = ctrl+shift+d=text:gmx split right\\n\nkeybind = ctrl+shift+e=text:gmx split down\\n\nkeybind = ctrl+shift+t=text:gmx new --tab\\n\nkeybind = ctrl+shift+a=text:gmx attach\nkeybind = ctrl+shift+x=text:gmx kill\\n\nkeybind = ctrl+shift+s=text:gmx ls\\n\n"@;
            assert(t =~= marker() + x + end_marker());
            assert forall|s: Seq<char>| contains_text(x, s) implies #[trigger] contains_text(t, s) by {
                lemma_contains_concat(marker(), x, s);
                lemma_contains_concat(marker() + x, end_marker(), s);
            }
        },
        Some(pfx) => {
            lemma_table_bindings();
            reveal_strlit("=activate_key_table_once:gmx\nkeybind = gmx/d=text:gmx split right\\n\nkeybind = gmx/e=text:gmx split down\\n\nkeybind = gmx/c=text:gmx new --tab\\n\nkeybind = gmx/a=text:gmx attach\nkeybind = gmx/x=text:gmx kill\\n\nkeybind = gmx/s=text:gmx ls\\n\nkeybind = gmx/escape=deactivate_key_table\n");
            reveal_strlit("keybind = gmx/d=text:gmx split right\\n\nkeybind = gmx/e=text:gmx split down\\n\nkeybind = gmx/c=text:gmx new --tab\\n\nkeybind = gmx/a=text:gmx attach\nkeybind = gmx/x=text:gmx kill\\n\nkeybind = gmx/s=text:gmx ls\\n\nkeybind = gmx/escape=deactivate_key_table\n");
            reveal_strlit("=activate_key_table_once:gmx\n");
            reveal_strlit(", then a key to trigger gmx actions\nkeybind = ");
            reveal_strlit(", then a key to trigger gmx actions");
            reveal_strlit("\nkeybind = ");
            reveal_strlit("=");
            reveal_strlit("\n");
            reveal_strlit("activate_key_table_once:gmx");
            let head = "# Prefix mode: press "@;
            let mid = ", then a key to trigger gmx actions"@;
            let x = "=activate_key_table_once:gmx\nkeybind = gmx/d=text:gmx split right\\n\nkeybind = gmx/e=text:gmx split down\\n\nkeybind = gmx/c=text:gmx new --tab\\n\nkeybind = gmx/a=text:gmx attach\nkeybind = gmx/x=text:gmx kill\\n\nkeybind = gmx/s=text:gmx ls\\n\nkeybind = gmx/escape=deactivate_key_table\n"@;
            let pre = marker() + "\n"@ + head + pfx + ", then a key to trigger gmx actions\nkeybind = "@ + pfx;
            assert(t =~= pre + x + end_marker());
            assert forall|s: Seq<char>| contains_text(x, s) implies #[trigger] contains_text(t, s) by {
                lemma_contains_concat(pre, x, s);
                lemma_contains_concat(pre + x, end_marker(), s);
            }
            let act = "\nkeybind = "@ + pfx + "="@ + "activate_key_table_once:gmx"@ + "\n"@;
            assert(", then a key to trigger gmx actions\nkeybind = "@ =~= mid + "\nkeybind = "@);
            assert(x =~= "=activate_key_table_once:gmx\n"@ + "keybind = gmx/d=text:gmx split right\\n\nkeybind = gmx/e=text:gmx split down\\n\nkeybind = gmx/c=text:gmx new --tab\\n\nkeybind = gmx/a=text:gmx attach\nkeybind = gmx/x=text:gmx kill\\n\nkeybind = gmx/s=text:gmx ls\\n\nkeybind = gmx/escape=deactivate_key_table\n"@);
            let before = marker() + "\n"@ + head + pfx + mid;
            assert(t =~= before + act + ("keybind = gmx/d=text:gmx split right\\n\nkeybind = gmx/e=text:gmx split down\\n\nkeybind = gmx/c=text:gmx new --tab\\n\nkeybind = gmx/a=text:gmx attach\nkeybind = gmx/x=text:gmx kill\\n\nkeybind = gmx/s=text:gmx ls\\n\nkeybind = gmx/escape=deactivate_key_table\n"@ + end_marker()));
            lemma_found(act, act, 0);
            lemma_contains_concat(before, act, act);
            lemma_contains_concat(before + act, "keybind = gmx/d=text:gmx split right\\n\nkeybind = gmx/e=text:gmx split down\\n\nkeybind = gmx/c=text:gmx new --tab\\n\nkeybind = gmx/a=text:gmx attach\nkeybind = gmx/x=text:gmx kill\\n\nkeybind = gmx/s=text:gmx ls\\n\nkeybind = gmx/escape=deactivate_key_table\n"@ + end_marker(), act);
        },
    }
}

} // verus!
