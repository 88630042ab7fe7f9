//! Newline structure of a sequence, stated once for bytes and characters alike.
use vstd::prelude::*;

verus! {

/// At position `i`, a carriage return is directly followed by a line feed and a
/// line feed directly follows a carriage return.
pub open spec fn paired_at<T>(s: Seq<T>, i: int, cr: T, lf: T) -> bool {
    &&& s[i] == cr ==> i + 1 < s.len() && s[i + 1] == lf
    &&& s[i] == lf ==> i > 0 && s[i - 1] == cr
}

/// Every carriage return and every line feed in `s` belongs to a CR LF pair.
pub open spec fn only_paired_newlines<T>(s: Seq<T>, cr: T, lf: T) -> bool {
    forall|i: int| 0 <= i < s.len() ==> #[trigger] paired_at(s, i, cr, lf)
}

/// Prepending elements that are neither `cr` nor `lf` changes nothing about pairing.
pub proof fn lemma_plain_prefix<T>(x: Seq<T>, b: Seq<T>, cr: T, lf: T)
    requires
        cr != lf,
        forall|k: int| 0 <= k < x.len() ==> x[k] != cr && x[k] != lf,
    ensures
        only_paired_newlines(x + b, cr, lf) == only_paired_newlines(b, cr, lf),
{
    let s = x + b;
    let n = x.len() as int;
    if only_paired_newlines(s, cr, lf) {
        assert forall|j: int| 0 <= j < b.len() implies #[trigger] paired_at(b, j, cr, lf) by {
            assert(paired_at(s, j + n, cr, lf));
            assert(s[j + n] == b[j]);
            if j == 0 && n > 0 {
                assert(s[n - 1] == x[n - 1]);
            }
            if j + 1 < b.len() {
                assert(s[j + n + 1] == b[j + 1]);
            }
            if j > 0 {
                assert(s[j + n - 1] == b[j - 1]);
            }
        }
    }
    if only_paired_newlines(b, cr, lf) {
        assert forall|k: int| 0 <= k < s.len() implies #[trigger] paired_at(s, k, cr, lf) by {
            if k >= n {
                assert(paired_at(b, k - n, cr, lf));
                assert(s[k] == b[k - n]);
                if k - n + 1 < b.len() {
                    assert(s[k + 1] == b[k - n + 1]);
                }
                if k > n {
                    assert(s[k - 1] == b[k - n - 1]);
                }
            } else {
                assert(s[k] == x[k]);
            }
        }
    }
}

/// Prepending elements other than `lf` does not change whether `lf` occurs.
pub proof fn lemma_contains_past_prefix<T>(x: Seq<T>, b: Seq<T>, lf: T)
    requires
        forall|k: int| 0 <= k < x.len() ==> x[k] != lf,
    ensures
        (x + b).contains(lf) == b.contains(lf),
{
    let s = x + b;
    let n = x.len() as int;
    if s.contains(lf) {
        let k = choose|k: int| 0 <= k < s.len() && s[k] == lf;
        if k < n {
            assert(s[k] == x[k]);
        } else {
            assert(b[k - n] == lf);
        }
    }
    if b.contains(lf) {
        let j = choose|j: int| 0 <= j < b.len() && b[j] == lf;
        assert(s[j + n] == lf);
    }
}

/// A complete CR LF pair in front changes nothing about pairing.
pub proof fn lemma_pair_prefix<T>(b: Seq<T>, cr: T, lf: T)
    requires
        cr != lf,
    ensures
        only_paired_newlines(seq![cr, lf] + b, cr, lf) == only_paired_newlines(b, cr, lf),
        (seq![cr, lf] + b).contains(lf),
{
    let s = seq![cr, lf] + b;
    assert(s[1] == lf);
    if only_paired_newlines(s, cr, lf) {
        assert forall|j: int| 0 <= j < b.len() implies #[trigger] paired_at(b, j, cr, lf) by {
            assert(paired_at(s, j + 2, cr, lf));
            assert(s[j + 2] == b[j]);
            if j + 1 < b.len() {
                assert(s[j + 3] == b[j + 1]);
            }
            if j > 0 {
                assert(s[j + 1] == b[j - 1]);
            }
        }
    }
    if only_paired_newlines(b, cr, lf) {
        assert forall|k: int| 0 <= k < s.len() implies #[trigger] paired_at(s, k, cr, lf) by {
            if k >= 2 {
                assert(paired_at(b, k - 2, cr, lf));
                assert(s[k] == b[k - 2]);
                if k - 1 < b.len() {
                    assert(s[k + 1] == b[k - 1]);
                }
                if k > 2 {
                    assert(s[k - 1] == b[k - 3]);
                }
            }
        }
    }
}

/// A carriage return that is not followed by a line feed breaks pairing.
pub proof fn lemma_lone_cr_prefix<T>(b: Seq<T>, cr: T, lf: T)
    requires
        cr != lf,
        b.len() == 0 || b[0] != lf,
    ensures
        !only_paired_newlines(seq![cr] + b, cr, lf),
{
    let s = seq![cr] + b;
    assert(s[0] == cr);
    if b.len() > 0 {
        assert(s[1] == b[0]);
    }
    assert(!paired_at(s, 0, cr, lf));
}

/// A line feed at the very start breaks pairing.
pub proof fn lemma_lf_prefix<T>(b: Seq<T>, cr: T, lf: T)
    ensures
        !only_paired_newlines(seq![lf] + b, cr, lf),
        (seq![lf] + b).contains(lf),
{
    let s = seq![lf] + b;
    assert(s[0] == lf);
    assert(!paired_at(s, 0, cr, lf));
}

} // verus!
