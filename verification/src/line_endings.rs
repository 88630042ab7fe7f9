//! Preserving CRLF line endings in formatter output.
use vstd::prelude::*;
use vstd::utf8::encode_utf8;

use crate::newlines::{only_paired_newlines, paired_at};
use crate::utf8_newlines::{lemma_encoded_contains_lf, lemma_encoded_pairing};

verus! {

/// The byte of an ASCII carriage return.
const CARRIAGE_RETURN: u8 = 0x0D;

/// The byte of an ASCII line feed.
const LINE_FEED: u8 = 0x0A;

/// The line ending that formatted text is written with.
#[derive(Debug, Clone, Copy, PartialEq, Eq, Structural)]
pub enum LineEnding {
    Lf,
    CrLf,
}

/// Every ASCII newline of `s` is a CR LF pair, and there is at least one.
pub open spec fn consistently_crlf(s: Seq<char>) -> bool {
    only_paired_newlines(s, '\r', '\n') && s.contains('\n')
}

/// The line ending detected in `s`: CRLF only when every ASCII newline uses CRLF.
pub open spec fn detected_ending(s: Seq<char>) -> LineEnding {
    if consistently_crlf(s) {
        LineEnding::CrLf
    } else {
        LineEnding::Lf
    }
}

/// What position `i` of `s` becomes in CRLF output: a line feed that does not
/// directly follow a carriage return gains one in front; anything else is kept.
pub open spec fn crlf_piece(s: Seq<char>, i: int) -> Seq<char> {
    if s[i] == '\n' && (i == 0 || s[i - 1] != '\r') {
        seq!['\r', '\n']
    } else {
        seq![s[i]]
    }
}

/// `s` with a carriage return inserted before every line feed that lacks one.
pub open spec fn crlf_text(s: Seq<char>) -> Seq<char>
    decreases s.len(),
{
    if s.len() == 0 {
        Seq::empty()
    } else {
        crlf_text(s.drop_last()) + crlf_piece(s, s.len() - 1)
    }
}

/// The text that `ending` turns `s` into.
pub open spec fn with_ending(ending: LineEnding, s: Seq<char>) -> Seq<char> {
    match ending {
        LineEnding::Lf => s,
        LineEnding::CrLf => crlf_text(s),
    }
}

/// Formatter output `formatted`, written with the line ending detected in `original`.
pub open spec fn preserved_text(original: Seq<char>, formatted: Seq<char>) -> Seq<char> {
    with_ending(detected_ending(original), formatted)
}

impl LineEnding {
    /// Preserve CRLF only when every ASCII newline in the input uses CRLF.
    /// Inputs without newlines or with mixed line endings retain formatter output.
    pub fn detect_consistent(content: &str) -> (ending: Self)
        ensures
            ending == detected_ending(content@),
    {
        let bytes = content.as_bytes();
        let ghost b = bytes@;
        let mut saw_crlf = false;
        let mut index: usize = 0;

        while index < bytes.len()
            invariant
                b == bytes@,
                b == encode_utf8(content@),
                index <= b.len(),
                index > 0 ==> b[index - 1] != 13u8,
                forall|i: int| 0 <= i < index ==> #[trigger] paired_at(b, i, 13u8, 10u8),
                saw_crlf == (exists|i: int| 0 <= i < index && b[i] == 10u8),
            decreases b.len() - index,
        {
            let byte = bytes[index];
            if byte == CARRIAGE_RETURN && index + 1 < bytes.len() && bytes[index + 1]
                == LINE_FEED {
                saw_crlf = true;
                assert(paired_at(b, index as int, 13u8, 10u8));
                assert(paired_at(b, index + 1, 13u8, 10u8));
                index += 2;
            } else if byte == CARRIAGE_RETURN || byte == LINE_FEED {
                proof {
                    assert(!paired_at(b, index as int, 13u8, 10u8));
                    lemma_encoded_pairing(content@);
                }
                return Self::Lf;
            } else {
                assert(paired_at(b, index as int, 13u8, 10u8));
                index += 1;
            }
        }
        proof {
            lemma_encoded_pairing(content@);
            lemma_encoded_contains_lf(content@);
        }
        if saw_crlf {
            Self::CrLf
        } else {
            Self::Lf
        }
    }

    /// Writes `content` with this line ending: LF keeps the text as it is, CRLF
    /// puts a carriage return before each line feed that has none.
    pub fn apply(self, content: String) -> (converted: String)
        ensures
            converted@ == with_ending(self, content@),
    {
        match self {
            Self::Lf => content,
            Self::CrLf => {
                let mut converted = String::with_capacity(content.as_str().len());
                push_crlf(&mut converted, content.as_str());
                converted
            },
        }
    }
}

/// Formatter output written with CRLF when every ASCII newline of `original` is CRLF,
/// and left as the formatter wrote it otherwise.
pub fn apply_crlf_preserve(original: &str, formatted: String) -> (out: String)
    ensures
        out@ == preserved_text(original@, formatted@),
{
    LineEnding::detect_consistent(original).apply(formatted)
}

/// Appends `content` to `output`, with a carriage return before every line feed of
/// `content` that does not already follow one.
pub fn push_crlf(output: &mut String, content: &str)
    ensures
        final(output)@ == old(output)@ + crlf_text(content@),
{
    let ghost start = output@;
    let ghost text = content@;
    let mut previous_was_cr = false;
    for ch in it: content.chars()
        invariant
            text == content@,
            it.seq() == text,
            output@ == start + crlf_text(text.take(it.index() as int)),
            previous_was_cr == (it.index() > 0 && text[it.index() - 1] == '\r'),
    {
        let ghost i = it.index() as int;
        assert(ch == text[i]);
        if ch == '\n' && !previous_was_cr {
            output.push('\r');
        }
        output.push(ch);
        previous_was_cr = ch == '\r';
        proof {
            let next = text.take(i + 1);
            assert(next.drop_last() =~= text.take(i));
            assert(crlf_piece(next, i) == crlf_piece(text, i));
            assert(output@ =~= start + crlf_text(next));
        }
    }
    proof {
        assert(text.take(text.len() as int) =~= text);
    }
}

} // verus!
