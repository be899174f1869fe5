//! A model of ANSI SGR escape sequences, used to state what a colored string
//! shows: an escape sequence starts with the escape character and runs up to
//! and including the next `m`; everything outside such sequences is visible.

use vstd::prelude::*;

verus! {

/// The escape character that opens an ANSI control sequence.
pub open spec fn esc() -> char {
    '\u{1b}'
}

/// The characters of `s` that remain once escape sequences are dropped,
/// scanning left to right; `in_seq` says whether the scan starts inside an
/// escape sequence (which runs until the next `m`).
pub open spec fn visible_from(s: Seq<char>, in_seq: bool) -> Seq<char>
    decreases s.len(),
{
    if s.len() == 0 {
        Seq::empty()
    } else if in_seq {
        visible_from(s.skip(1), s[0] != 'm')
    } else if s[0] == esc() {
        visible_from(s.skip(1), true)
    } else {
        seq![s[0]] + visible_from(s.skip(1), false)
    }
}

/// Whether the scan stands inside an escape sequence after reading all of
/// `s`, having started in state `in_seq`.
pub open spec fn esc_state(s: Seq<char>, in_seq: bool) -> bool
    decreases s.len(),
{
    if s.len() == 0 {
        in_seq
    } else if in_seq {
        esc_state(s.skip(1), s[0] != 'm')
    } else {
        esc_state(s.skip(1), s[0] == esc())
    }
}

/// The text of `s` with all escape sequences stripped.
pub open spec fn visible(s: Seq<char>) -> Seq<char> {
    visible_from(s, false)
}

/// Every escape sequence in `s` is complete: none runs off the end.
pub open spec fn ansi_closed(s: Seq<char>) -> bool {
    !esc_state(s, false)
}

/// Stripping distributes over concatenation at a point where every escape
/// sequence opened in `a` has been closed.
pub proof fn lemma_visible_append(a: Seq<char>, b: Seq<char>, st: bool)
    ensures
        visible_from(a + b, st) == visible_from(a, st) + visible_from(b, esc_state(a, st)),
        esc_state(a + b, st) == esc_state(b, esc_state(a, st)),
    decreases a.len(),
{
    if a.len() == 0 {
        assert(a + b =~= b);
        assert(visible_from(a, st) + visible_from(b, st) =~= visible_from(b, st));
    } else {
        assert((a + b).len() > 0);
        assert((a + b)[0] == a[0]);
        assert((a + b).skip(1) =~= a.skip(1) + b);
        if st {
            lemma_visible_append(a.skip(1), b, a[0] != 'm');
        } else if a[0] == esc() {
            lemma_visible_append(a.skip(1), b, true);
        } else {
            lemma_visible_append(a.skip(1), b, false);
            assert(visible_from(a + b, st) =~= visible_from(a, st) + visible_from(
                b,
                esc_state(a, st),
            ));
        }
    }
}

/// A string without the escape character shows as itself and opens no
/// escape sequence.
pub proof fn lemma_visible_plain(s: Seq<char>)
    requires
        forall|i: int| 0 <= i < s.len() ==> s[i] != esc(),
    ensures
        visible(s) == s,
        ansi_closed(s),
    decreases s.len(),
{
    if s.len() == 0 {
        assert(visible(s) =~= s);
    } else {
        assert(forall|i: int| 0 <= i < s.skip(1).len() ==> s.skip(1)[i] != esc());
        lemma_visible_plain(s.skip(1));
        assert(visible(s) =~= s);
    }
}

} // verus!
