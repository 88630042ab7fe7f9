//! What holds of CRLF conversion and of CRLF preservation over all texts.
use vstd::prelude::*;

use crate::line_endings::{
    LineEnding, consistently_crlf, crlf_piece, crlf_text, detected_ending, preserved_text,
    with_ending,
};
use crate::newlines::{only_paired_newlines, paired_at};

verus! {

/// Every line feed of `s` directly follows a carriage return.
pub open spec fn no_bare_lf(s: Seq<char>) -> bool {
    forall|j: int| 0 <= j < s.len() && #[trigger] s[j] == '\n' ==> j > 0 && s[j - 1] == '\r'
}

/// Every carriage return of `s` is directly followed by a line feed.
pub open spec fn no_bare_cr(s: Seq<char>) -> bool {
    forall|j: int| 0 <= j < s.len() && #[trigger] s[j] == '\r' ==> j + 1 < s.len() && s[j + 1]
        == '\n'
}

/// CRLF conversion keeps the last character of a nonempty text.
proof fn lemma_crlf_text_last(s: Seq<char>)
    requires
        s.len() > 0,
    ensures
        crlf_text(s).len() > 0,
        crlf_text(s).last() == s.last(),
{
    let p = crlf_piece(s, s.len() - 1);
    assert(crlf_text(s) == crlf_text(s.drop_last()) + p);
    assert(p.last() == s.last());
}

/// Every carriage return of the converted text, except perhaps its last character,
/// is followed by a line feed, as long as that holds of the input.
proof fn lemma_crlf_text_cr_followed(s: Seq<char>)
    requires
        forall|j: int| 0 <= j < s.len() - 1 && #[trigger] s[j] == '\r' ==> s[j + 1] == '\n',
    ensures
        forall|j: int|
            0 <= j < crlf_text(s).len() - 1 && #[trigger] crlf_text(s)[j] == '\r' ==> crlf_text(
                s,
            )[j + 1] == '\n',
    decreases s.len(),
{
    if s.len() > 0 {
        let i = s.len() - 1;
        let r = s.drop_last();
        let a = crlf_text(r);
        let p = crlf_piece(s, i);
        let t = crlf_text(s);
        assert(t == a + p);
        assert forall|j: int| 0 <= j < r.len() - 1 && #[trigger] r[j] == '\r' implies r[j + 1]
            == '\n' by {
            assert(s[j] == r[j] && s[j + 1] == r[j + 1]);
        }
        lemma_crlf_text_cr_followed(r);
        assert forall|j: int| 0 <= j < t.len() - 1 && #[trigger] t[j] == '\r' implies t[j + 1]
            == '\n' by {
            if j < a.len() - 1 {
                assert(t[j] == a[j] && t[j + 1] == a[j + 1]);
            } else if j == a.len() - 1 {
                lemma_crlf_text_last(r);
                assert(a.last() == s[i - 1]);
                assert(s[i - 1] == '\r');
                assert(s[i] == '\n');
                assert(t[j + 1] == p[0]);
            } else {
                assert(t[j] == p[j - a.len()]);
                assert(t[j + 1] == p[j + 1 - a.len()]);
            }
        }
    }
}

/// CRLF conversion leaves no line feed without a carriage return in front of it.
pub proof fn law_crlf_text_has_no_bare_lf(s: Seq<char>)
    ensures
        no_bare_lf(crlf_text(s)),
    decreases s.len(),
{
    if s.len() > 0 {
        let i = s.len() - 1;
        let r = s.drop_last();
        let a = crlf_text(r);
        let p = crlf_piece(s, i);
        let t = crlf_text(s);
        assert(t == a + p);
        law_crlf_text_has_no_bare_lf(r);
        assert forall|j: int| 0 <= j < t.len() && #[trigger] t[j] == '\n' implies j > 0 && t[j
            - 1] == '\r' by {
            if j < a.len() {
                assert(t[j] == a[j] && t[j - 1] == a[j - 1]);
            } else if p.len() == 2 {
                assert(t[j] == p[j - a.len()]);
                assert(t[j - 1] == p[j - 1 - a.len()]);
            } else {
                assert(t[j] == s[i]);
                lemma_crlf_text_last(r);
                assert(r[i - 1] == s[i - 1]);
                assert(t[j - 1] == a.last());
            }
        }
    }
}

/// A text whose every line feed already follows a carriage return is left as it is
/// by CRLF conversion.
pub proof fn law_crlf_text_keeps_crlf_text(s: Seq<char>)
    requires
        no_bare_lf(s),
    ensures
        crlf_text(s) == s,
    decreases s.len(),
{
    if s.len() > 0 {
        let i = s.len() - 1;
        let r = s.drop_last();
        assert forall|j: int| 0 <= j < r.len() && #[trigger] r[j] == '\n' implies j > 0 && r[j
            - 1] == '\r' by {
            assert(s[j] == r[j]);
        }
        law_crlf_text_keeps_crlf_text(r);
        assert(crlf_piece(s, i) == seq![s[i]]);
        assert(crlf_text(s) =~= s);
    }
}

/// Converting to CRLF twice gives what converting once gives.
pub proof fn law_crlf_text_idempotent(s: Seq<char>)
    ensures
        crlf_text(crlf_text(s)) == crlf_text(s),
{
    law_crlf_text_has_no_bare_lf(s);
    law_crlf_text_keeps_crlf_text(crlf_text(s));
}

/// CRLF conversion only ever adds carriage returns: with every carriage return
/// removed, the converted text and the input are the same.
pub proof fn law_crlf_text_only_adds_carriage_returns(s: Seq<char>)
    ensures
        crlf_text(s).filter(|c: char| c != '\r') == s.filter(|c: char| c != '\r'),
    decreases s.len(),
{
    let keep = |c: char| c != '\r';
    if s.len() == 0 {
        reveal(Seq::filter);
    } else {
        let i = s.len() - 1;
        let r = s.drop_last();
        let p = crlf_piece(s, i);
        law_crlf_text_only_adds_carriage_returns(r);
        assert(crlf_text(s) == crlf_text(r) + p);
        Seq::filter_distributes_over_add(crlf_text(r), p, keep);
        assert(s =~= r + seq![s[i]]);
        Seq::filter_distributes_over_add(r, seq![s[i]], keep);
        reveal_with_fuel(Seq::filter, 3);
        assert(p.filter(keep) =~= seq![s[i]].filter(keep)) by {
            if p.len() == 2 {
                assert(p.drop_last() =~= seq!['\r']);
                assert(p.drop_last().drop_last() =~= Seq::<char>::empty());
            } else {
                assert(p.drop_last() =~= Seq::<char>::empty());
            }
            assert(seq![s[i]].drop_last() =~= Seq::<char>::empty());
        }
    }
}

/// A line feed in the input is still there after CRLF conversion.
proof fn lemma_crlf_text_contains_lf(s: Seq<char>)
    requires
        s.contains('\n'),
    ensures
        crlf_text(s).contains('\n'),
    decreases s.len(),
{
    let i = s.len() - 1;
    let r = s.drop_last();
    let p = crlf_piece(s, i);
    let t = crlf_text(s);
    assert(t == crlf_text(r) + p);
    if s[i] == '\n' {
        assert(t[t.len() - 1] == '\n');
    } else {
        let k = choose|k: int| 0 <= k < s.len() && s[k] == '\n';
        assert(r[k] == '\n');
        lemma_crlf_text_contains_lf(r);
        let m = choose|m: int| 0 <= m < crlf_text(r).len() && crlf_text(r)[m] == '\n';
        assert(t[m] == '\n');
    }
}

/// Text produced by CRLF conversion of a text with a line feed and without a lone
/// carriage return is itself detected as CRLF.
pub proof fn law_crlf_output_detected_as_crlf(s: Seq<char>)
    requires
        s.contains('\n'),
        no_bare_cr(s),
    ensures
        detected_ending(crlf_text(s)) == LineEnding::CrLf,
{
    let t = crlf_text(s);
    law_crlf_text_has_no_bare_lf(s);
    lemma_crlf_text_cr_followed(s);
    lemma_crlf_text_last(s);
    lemma_crlf_text_contains_lf(s);
    assert forall|j: int| 0 <= j < t.len() implies #[trigger] paired_at(t, j, '\r', '\n') by {
        if t[j] == '\r' && j == t.len() - 1 {
            assert(s[s.len() - 1] == '\r');
        }
    }
    assert(consistently_crlf(t));
}

/// Preserving line endings a second time, with the output of the first run as the
/// original, gives the same output, as long as the formatter output has no lone
/// carriage return.
pub proof fn law_preserve_idempotent(original: Seq<char>, formatted: Seq<char>)
    requires
        no_bare_cr(formatted),
    ensures
        preserved_text(preserved_text(original, formatted), formatted) == preserved_text(
            original,
            formatted,
        ),
{
    let out = preserved_text(original, formatted);
    match detected_ending(original) {
        LineEnding::Lf => {
            if consistently_crlf(formatted) {
                assert forall|j: int|
                    0 <= j < formatted.len() && #[trigger] formatted[j] == '\n' implies j > 0
                    && formatted[j - 1] == '\r' by {
                    assert(paired_at(formatted, j, '\r', '\n'));
                }
                law_crlf_text_keeps_crlf_text(formatted);
            }
        },
        LineEnding::CrLf => {
            if formatted.contains('\n') {
                law_crlf_output_detected_as_crlf(formatted);
            } else {
                assert(no_bare_lf(formatted));
                law_crlf_text_keeps_crlf_text(formatted);
            }
        },
    }
}

/// When every ASCII newline of the original is CRLF, the output is the formatter
/// output converted to CRLF.
pub proof fn law_consistent_original_gives_crlf(original: Seq<char>, formatted: Seq<char>)
    requires
        only_paired_newlines(original, '\r', '\n'),
        original.contains('\n'),
    ensures
        preserved_text(original, formatted) == crlf_text(formatted),
{
}

/// An original without a line feed leaves the formatter output as it is.
pub proof fn law_no_newline_keeps_output(original: Seq<char>, formatted: Seq<char>)
    requires
        !original.contains('\n'),
    ensures
        preserved_text(original, formatted) == formatted,
{
}

/// An original with a line feed or a carriage return outside a CR LF pair (mixed
/// line endings) leaves the formatter output as it is.
pub proof fn law_mixed_original_keeps_output(
    original: Seq<char>,
    formatted: Seq<char>,
    i: int,
)
    requires
        0 <= i < original.len(),
        !paired_at(original, i, '\r', '\n'),
    ensures
        preserved_text(original, formatted) == formatted,
{
}

/// LF output is the formatter output itself.
pub proof fn law_lf_keeps_text(s: Seq<char>)
    ensures
        with_ending(LineEnding::Lf, s) == s,
{
}

} // verus!
