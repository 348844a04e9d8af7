//! Coloured terminal text, through the `colored` crate.
//!
//! `colored` decides from the environment whether to colour at all, so what
//! is known of a coloured string is that it is either the text itself or the
//! text between an SGR escape sequence and a reset. Either way, removing the
//! escape sequences gives the text back; that is what callers rely on.
use vstd::prelude::*;

use colored::Colorize;

use crate::text::{all_digits, contains_text, dec, is_digit, join, lemma_dec_digits};

verus! {

/// `s` wrapped in the SGR escape for `code` and a reset.
pub open spec fn sgr(code: Seq<char>, s: Seq<char>) -> Seq<char> {
    "\u{1b}["@ + code + "m"@ + s + "\u{1b}[0m"@
}

/// The reset sequence.
pub open spec fn reset_seq() -> Seq<char> {
    "\u{1b}[0m"@
}

/// `r` shows `s` in the colour or style `code`, or plainly.
pub open spec fn painted(s: Seq<char>, code: Seq<char>, r: Seq<char>) -> bool {
    r == s || r == sgr(code, s)
}

/// Calls `colored::Colorize::green` and formats the result: the text, or
/// the text in SGR code 32, for text holding no reset sequence.
#[verifier::external_body]
pub(crate) fn green(s: &str) -> (r: String)
    ensures
        !contains_text(s@, reset_seq()) ==> painted(s@, "32"@, r@),
{
    s.green().to_string()
}

/// Calls `colored::Colorize::yellow` and formats the result: the text, or
/// the text in SGR code 33, for text holding no reset sequence.
#[verifier::external_body]
pub(crate) fn yellow(s: &str) -> (r: String)
    ensures
        !contains_text(s@, reset_seq()) ==> painted(s@, "33"@, r@),
{
    s.yellow().to_string()
}

/// Calls `colored::Colorize::red` and formats the result: the text, or the
/// text in SGR code 31, for text holding no reset sequence.
#[verifier::external_body]
pub(crate) fn red(s: &str) -> (r: String)
    ensures
        !contains_text(s@, reset_seq()) ==> painted(s@, "31"@, r@),
{
    s.red().to_string()
}

/// Calls `colored::Colorize::dimmed` and formats the result: the text, or
/// the text in SGR code 2, for text holding no reset sequence.
#[verifier::external_body]
pub(crate) fn dimmed(s: &str) -> (r: String)
    ensures
        !contains_text(s@, reset_seq()) ==> painted(s@, "2"@, r@),
{
    s.dimmed().to_string()
}

// ---------------------------------------------------------------------------
// Removing escape sequences
// ---------------------------------------------------------------------------

/// `s` holds no escape character.
pub open spec fn esc_free(s: Seq<char>) -> bool {
    forall|i: int| 0 <= i < s.len() ==> s[i] != '\u{1b}'
}

/// The visible text of `s`, read from the state `in_esc` (inside an escape
/// sequence or not): an escape character starts a sequence, which ends with
/// the next `m`; the characters of sequences are dropped.
pub open spec fn strip_from(s: Seq<char>, in_esc: bool) -> Seq<char>
    decreases s.len(),
{
    if s.len() == 0 {
        Seq::empty()
    } else if in_esc {
        strip_from(s.drop_first(), s[0] != 'm')
    } else if s[0] == '\u{1b}' {
        strip_from(s.drop_first(), true)
    } else {
        seq![s[0]] + strip_from(s.drop_first(), false)
    }
}

/// Whether reading `s` from the state `in_esc` ends inside an escape sequence.
pub open spec fn ends_in_esc(s: Seq<char>, in_esc: bool) -> bool
    decreases s.len(),
{
    if s.len() == 0 {
        in_esc
    } else if in_esc {
        ends_in_esc(s.drop_first(), s[0] != 'm')
    } else if s[0] == '\u{1b}' {
        ends_in_esc(s.drop_first(), true)
    } else {
        ends_in_esc(s.drop_first(), false)
    }
}

/// The visible text of `s`: `s` without its escape sequences.
pub open spec fn strip_sgr(s: Seq<char>) -> Seq<char> {
    strip_from(s, false)
}

/// `r` shows the text `t`: its visible text is `t`, and it does not end
/// inside an escape sequence.
pub open spec fn shows(r: Seq<char>, t: Seq<char>) -> bool {
    strip_sgr(r) == t && !ends_in_esc(r, false)
}

/// Reading a concatenation reads one part after the other.
pub proof fn lemma_strip_concat(a: Seq<char>, b: Seq<char>, st: bool)
    ensures
        strip_from(a + b, st) == strip_from(a, st) + strip_from(b, ends_in_esc(a, st)),
        ends_in_esc(a + b, st) == ends_in_esc(b, ends_in_esc(a, st)),
    decreases a.len(),
{
    if a.len() == 0 {
        assert(a + b =~= b);
        assert(strip_from(a, st) =~= Seq::<char>::empty());
    } else {
        assert((a + b).drop_first() =~= a.drop_first() + b);
        assert((a + b)[0] == a[0]);
        let next = if st {
            a[0] != 'm'
        } else {
            a[0] == '\u{1b}'
        };
        lemma_strip_concat(a.drop_first(), b, next);
        if !st && a[0] != '\u{1b}' {
            assert(strip_from(a + b, st) =~= seq![a[0]] + strip_from(a.drop_first() + b, false));
        }
    }
}

/// Text without escape characters shows itself.
pub proof fn lemma_shows_plain(s: Seq<char>)
    requires
        esc_free(s),
    ensures
        shows(s, s),
    decreases s.len(),
{
    if s.len() > 0 {
        assert(esc_free(s.drop_first()));
        lemma_shows_plain(s.drop_first());
        assert(s =~= seq![s[0]] + s.drop_first());
    } else {
        assert(strip_sgr(s) =~= s);
    }
}

/// Text without escape characters holds no reset sequence.
pub proof fn lemma_no_reset(s: Seq<char>)
    requires
        esc_free(s),
    ensures
        !contains_text(s, reset_seq()),
{
    reveal_strlit("\u{1b}[0m");
    if contains_text(s, reset_seq()) {
        let i = choose|i: int|
            0 <= i && i + reset_seq().len() <= s.len() && #[trigger] s.subrange(i, i + reset_seq().len()) == reset_seq();
        assert(s.subrange(i, i + reset_seq().len())[0] == s[i]);
    }
}

/// Plain text wrapped in an escape sequence with a code of digits shows the text.
pub proof fn lemma_shows_sgr(code: Seq<char>, s: Seq<char>)
    requires
        esc_free(s),
        all_digits(code),
    ensures
        shows(sgr(code, s), s),
{
    reveal_strlit("\u{1b}[");
    reveal_strlit("[");
    reveal_strlit("m");
    reveal_strlit("\u{1b}[0m");
    let open_seq = "\u{1b}["@ + code + "m"@;
    assert(strip_from(open_seq, false) =~= Seq::<char>::empty() && !ends_in_esc(open_seq, false)) by {
        let tail = code + "m"@;
        assert(open_seq =~= seq!['\u{1b}'] + ("["@ + tail));
        lemma_strip_concat(seq!['\u{1b}'], "["@ + tail, false);
        lemma_esc_alone();
        lemma_strip_in_code("["@ + tail);
    }
    lemma_shows_plain(s);
    let close = "\u{1b}[0m"@;
    assert(strip_from(close, false) =~= Seq::<char>::empty() && !ends_in_esc(close, false)) by {
        reveal_strlit("[0m");
        assert(close =~= seq!['\u{1b}'] + "[0m"@);
        lemma_strip_concat(seq!['\u{1b}'], "[0m"@, false);
        lemma_esc_alone();
        lemma_strip_in_code("[0m"@);
    }
    lemma_strip_concat(open_seq, s, false);
    lemma_strip_concat(open_seq + s, close, false);
    assert(sgr(code, s) =~= open_seq + s + close);
}

/// A lone escape character shows nothing and opens a sequence.
proof fn lemma_esc_alone()
    ensures
        strip_from(seq!['\u{1b}'], false) =~= Seq::<char>::empty(),
        ends_in_esc(seq!['\u{1b}'], false),
{
    let e = seq!['\u{1b}'];
    assert(e[0] == '\u{1b}');
    assert(e.drop_first() =~= Seq::<char>::empty());
    assert(strip_from(e, false) == strip_from(e.drop_first(), true));
    assert(ends_in_esc(e, false) == ends_in_esc(e.drop_first(), true));
}

/// Inside an escape sequence, `[` and digits are dropped up to the closing `m`.
proof fn lemma_strip_in_code(t: Seq<char>)
    requires
        t.len() >= 1,
        t.last() == 'm',
        forall|i: int| 0 <= i < t.len() - 1 ==> t[i] != 'm',
    ensures
        strip_from(t, true) =~= Seq::<char>::empty(),
        !ends_in_esc(t, true),
    decreases t.len(),
{
    if t.len() > 1 {
        assert(t[0] != 'm');
        lemma_strip_in_code(t.drop_first());
        assert(strip_from(t, true) == strip_from(t.drop_first(), true));
        assert(ends_in_esc(t, true) == ends_in_esc(t.drop_first(), true));
    } else {
        assert(t[0] == 'm');
        assert(t.drop_first() =~= Seq::<char>::empty());
        assert(strip_from(t, true) == strip_from(t.drop_first(), false));
        assert(ends_in_esc(t, true) == ends_in_esc(t.drop_first(), false));
    }
}

/// What a colouring call gave shows the text it was given.
pub proof fn lemma_shows_painted(s: Seq<char>, code: Seq<char>, r: Seq<char>)
    requires
        esc_free(s),
        all_digits(code),
        painted(s, code, r),
    ensures
        shows(r, s),
{
    if r == s {
        lemma_shows_plain(s);
    } else {
        lemma_shows_sgr(code, s);
    }
}

/// Two shown texts side by side show the two texts side by side.
pub proof fn lemma_shows_concat(a: Seq<char>, x: Seq<char>, b: Seq<char>, y: Seq<char>)
    requires
        shows(a, x),
        shows(b, y),
    ensures
        shows(a + b, x + y),
{
    lemma_strip_concat(a, b, false);
}

/// Shown texts joined by a plain separator show the texts so joined.
pub proof fn lemma_shows_join(rs: Seq<Seq<char>>, ts: Seq<Seq<char>>, sep: Seq<char>)
    requires
        rs.len() == ts.len(),
        forall|i: int| 0 <= i < rs.len() ==> shows(#[trigger] rs[i], ts[i]),
        esc_free(sep),
    ensures
        shows(join(rs, sep), join(ts, sep)),
    decreases rs.len(),
{
    if rs.len() == 0 {
        lemma_shows_plain(Seq::<char>::empty());
    } else if rs.len() == 1 {
        assert(shows(rs[0], ts[0]));
    } else {
        lemma_shows_join(rs.drop_last(), ts.drop_last(), sep);
        lemma_shows_plain(sep);
        assert(shows(rs.last(), ts.last()));
        lemma_shows_concat(join(rs.drop_last(), sep), join(ts.drop_last(), sep), sep, sep);
        lemma_shows_concat(join(rs.drop_last(), sep) + sep, join(ts.drop_last(), sep) + sep, rs.last(), ts.last());
    }
}

/// Decimal notation holds no escape character.
pub proof fn lemma_dec_plain(n: nat)
    ensures
        esc_free(dec(n)),
{
    lemma_dec_digits(n);
    assert forall|i: int| 0 <= i < dec(n).len() implies dec(n)[i] != '\u{1b}' by {
        assert(is_digit(dec(n)[i]));
    }
}

} // verus!
