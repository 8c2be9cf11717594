//! Rewriting a text by spans: pieces of the text, given by their byte
//! offsets, are replaced, and what lies between them is kept.

use vstd::prelude::*;
use vstd::string::StringExecFns;
use vstd::utf8::{
    encode_utf8,
    decode_utf8,
    valid_utf8,
    is_char_boundary,
    encode_utf8_valid_utf8,
    encode_utf8_decode_utf8,
    valid_utf8_split,
    is_char_boundary_start_end_of_seq,
    is_char_boundary_iff_not_is_continuation_byte,
};

verus! {

/// One replacement: the bytes from `start` up to `end` give way to `text`.
/// With `start == end`, `text` is inserted.
#[derive(Clone, Debug)]
pub struct Replacement {
    /// Offset of the first byte that is replaced.
    pub start: usize,
    /// Offset behind the last byte that is replaced.
    pub end: usize,
    /// What stands there instead.
    pub text: String,
}

/// The mathematical value of a [`Replacement`].
pub struct Edit {
    pub start: int,
    pub end: int,
    pub text: Seq<char>,
}

impl View for Replacement {
    type V = Edit;

    open spec fn view(&self) -> Edit {
        Edit { start: self.start as int, end: self.end as int, text: self.text@ }
    }
}

/// The values of a list of replacements.
pub open spec fn edits_of(reps: Seq<Replacement>) -> Seq<Edit> {
    reps.map_values(|r: Replacement| r@)
}

/// From the `i`-th on, the replacements come in the order of the text,
/// none begins before `from` or before its predecessor ends, and each
/// begins and ends between two characters of `bytes`.
pub open spec fn cuts_ok(bytes: Seq<u8>, reps: Seq<Edit>, i: int, from: int) -> bool
    decreases reps.len() - i,
{
    if i < 0 || i >= reps.len() {
        true
    } else {
        let r = reps[i];
        &&& from <= r.start <= r.end <= bytes.len()
        &&& is_char_boundary(bytes, r.start)
        &&& is_char_boundary(bytes, r.end)
        &&& cuts_ok(bytes, reps, i + 1, r.end)
    }
}

/// The text from offset `from` on, with the replacements from the `i`-th
/// on made in it.
pub open spec fn spliced(bytes: Seq<u8>, reps: Seq<Edit>, i: int, from: int) -> Seq<u8>
    decreases reps.len() - i,
{
    if i < 0 || i >= reps.len() {
        bytes.subrange(from, bytes.len() as int)
    } else {
        let r = reps[i];
        bytes.subrange(from, r.start) + encode_utf8(r.text) + spliced(bytes, reps, i + 1, r.end)
    }
}

/// The replacements can be made in `source`: they are ordered, apart from
/// each other, and cut the text between characters.
pub open spec fn rewritable(source: Seq<char>, reps: Seq<Edit>) -> bool {
    cuts_ok(encode_utf8(source), reps, 0, 0)
}

/// `source` with the replacements made in it.
pub open spec fn rewritten(source: Seq<char>, reps: Seq<Edit>) -> Seq<char> {
    decode_utf8(spliced(encode_utf8(source), reps, 0, 0))
}

/// The encoding of a text is the encoding of its parts, one after the other.
pub proof fn lemma_encode_concat(a: Seq<char>, b: Seq<char>)
    ensures
        encode_utf8(a + b) == encode_utf8(a) + encode_utf8(b),
    decreases a.len(),
{
    if a.len() == 0 {
        assert(a + b =~= b);
        assert(encode_utf8(a) + encode_utf8(b) =~= encode_utf8(b));
    } else {
        assert((a + b).drop_first() =~= a.drop_first() + b);
        lemma_encode_concat(a.drop_first(), b);
        assert(encode_utf8(a + b) =~= encode_utf8(a) + encode_utf8(b));
    }
}

/// Behind a cut between characters, the places between characters are
/// those of the whole text.
pub proof fn lemma_boundary_shift(bytes: Seq<u8>, pos: int, k: int)
    requires
        valid_utf8(bytes),
        is_char_boundary(bytes, pos),
        0 <= pos,
        0 <= k,
        pos + k <= bytes.len(),
    ensures
        valid_utf8(bytes.subrange(pos, bytes.len() as int)),
        is_char_boundary(bytes.subrange(pos, bytes.len() as int), k) == is_char_boundary(
            bytes,
            pos + k,
        ),
{
    let rest = bytes.subrange(pos, bytes.len() as int);
    valid_utf8_split(bytes, pos);
    if pos + k == bytes.len() {
        is_char_boundary_start_end_of_seq(bytes);
        is_char_boundary_start_end_of_seq(rest);
    } else {
        is_char_boundary_iff_not_is_continuation_byte(bytes, pos + k);
        is_char_boundary_iff_not_is_continuation_byte(rest, k);
    }
}

/// Makes the replacements in `source`. They are to come in the order of
/// the text and apart from each other, and to cut the text between
/// characters; where they do not, nothing is returned.
pub fn splice(source: &str, reps: &Vec<Replacement>) -> (out: Option<String>)
    ensures
        out is Some <==> rewritable(source@, edits_of(reps@)),
        out matches Some(text) ==> text@ == rewritten(source@, edits_of(reps@)),
{
    let ghost bytes = encode_utf8(source@);
    let ghost edits = edits_of(reps@);
    let total = source.as_bytes().len();
    let mut out = String::new();
    let mut rest: &str = source;
    let mut pos: usize = 0;
    let mut i: usize = 0;
    proof {
        encode_utf8_valid_utf8(source@);
        is_char_boundary_start_end_of_seq(bytes);
        assert(bytes.subrange(0, bytes.len() as int) =~= bytes);
        assert(encode_utf8(out@) + spliced(bytes, edits, 0, 0) =~= spliced(bytes, edits, 0, 0));
    }
    while i < reps.len()
        invariant
            i <= reps.len(),
            bytes == encode_utf8(source@),
            valid_utf8(bytes),
            total == bytes.len(),
            pos <= bytes.len(),
            is_char_boundary(bytes, pos as int),
            encode_utf8(rest@) == bytes.subrange(pos as int, bytes.len() as int),
            edits == edits_of(reps@),
            cuts_ok(bytes, edits, 0, 0) <==> cuts_ok(bytes, edits, i as int, pos as int),
            encode_utf8(out@) + spliced(bytes, edits, i as int, pos as int) == spliced(
                bytes,
                edits,
                0,
                0,
            ),
        decreases reps.len() - i,
    {
        let r = &reps[i];
        assert(edits[i as int] == r@);
        if r.start < pos || r.end < r.start || r.end > total {
            return None;
        }
        let k = r.start - pos;
        proof {
            lemma_boundary_shift(bytes, pos as int, k as int);
        }
        if !rest.is_char_boundary(k) {
            return None;
        }
        let (head, tail) = rest.split_at(k);
        let m = r.end - r.start;
        proof {
            assert(encode_utf8(tail@) =~= bytes.subrange(r.start as int, bytes.len() as int));
            assert(encode_utf8(head@) =~= bytes.subrange(pos as int, r.start as int));
            lemma_boundary_shift(bytes, r.start as int, m as int);
        }
        if !tail.is_char_boundary(m) {
            return None;
        }
        let (_, after) = tail.split_at(m);
        let ghost before = out@;
        out.append(head);
        out.append(r.text.as_str());
        proof {
            assert(encode_utf8(after@) =~= bytes.subrange(r.end as int, bytes.len() as int));
            lemma_encode_concat(before, head@);
            lemma_encode_concat(before + head@, r.text@);
            assert(encode_utf8(out@) + spliced(bytes, edits, i + 1, r.end as int) =~= encode_utf8(
                before,
            ) + spliced(bytes, edits, i as int, pos as int));
        }
        rest = after;
        pos = r.end;
        i += 1;
    }
    let ghost before = out@;
    out.append(rest);
    proof {
        lemma_encode_concat(before, rest@);
        encode_utf8_decode_utf8(out@);
    }
    Some(out)
}

/// Puts one more replacement at the end of a list.
pub(crate) fn push_replacement(out: &mut Vec<Replacement>, start: usize, end: usize, text: String)
    ensures
        edits_of(final(out)@) == edits_of(old(out)@).push(
            Edit { start: start as int, end: end as int, text: text@ },
        ),
{
    out.push(Replacement { start, end, text });
    assert(edits_of(out@) =~= edits_of(old(out)@).push(
        Edit { start: start as int, end: end as int, text: text@ },
    ));
}

} // verus!
