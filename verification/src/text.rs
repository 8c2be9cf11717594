//! Small helpers on text.

use vstd::prelude::*;
use vstd::string::StringExecFns;
use vstd::utf8::{encode_utf8, encode_utf8_decode_utf8};

verus! {

/// Whether two string slices hold the same text.
pub fn str_eq(a: &str, b: &str) -> (same: bool)
    ensures
        same == (a@ == b@),
{
    let x = a.as_bytes();
    let y = b.as_bytes();
    proof {
        encode_utf8_decode_utf8(a@);
        encode_utf8_decode_utf8(b@);
    }
    if x.len() != y.len() {
        return false;
    }
    let mut i: usize = 0;
    while i < x.len()
        invariant
            i <= x.len(),
            x.len() == y.len(),
            x@ == encode_utf8(a@),
            y@ == encode_utf8(b@),
            forall|k: int| 0 <= k < i ==> x@[k] == y@[k],
        decreases x.len() - i,
    {
        if x[i] != y[i] {
            return false;
        }
        i += 1;
    }
    assert(x@ =~= y@);
    true
}

} // verus!

verus! {

/// Appends one character to a string.
///
/// Wraps `String::push`, which appends the given character to the end
/// of the string.
#[verifier::external_body]
pub(crate) fn push_char(text: &mut String, c: char)
    ensures
        final(text)@ == old(text)@.push(c),
{
    text.push(c);
}

/// The characters of a string, in order.
pub fn chars_of(text: &str) -> (chars: Vec<char>)
    ensures
        chars@ == text@,
{
    let mut chars: Vec<char> = Vec::new();
    for c in iter: text.chars()
        invariant
            iter.seq() == text@,
            chars@ == text@.take(iter.index() as int),
    {
        chars.push(c);
        assert(text@.take(iter.index() + 1) =~= text@.take(iter.index() as int).push(
            text@[iter.index() as int],
        ));
    }
    assert(text@.take(text@.len() as int) =~= text@);
    chars
}

/// The string made of the given characters.
pub fn string_of(chars: &Vec<char>) -> (text: String)
    ensures
        text@ == chars@,
{
    let mut text = String::new();
    let mut i: usize = 0;
    while i < chars.len()
        invariant
            i <= chars.len(),
            text@ == chars@.take(i as int),
        decreases chars.len() - i,
    {
        push_char(&mut text, chars[i]);
        i += 1;
        assert(chars@.take(i as int) =~= chars@.take(i - 1).push(chars@[i - 1]));
    }
    assert(chars@.take(chars.len() as int) =~= chars@);
    text
}

/// `text` ends with `suffix`.
pub open spec fn is_suffix(text: Seq<char>, suffix: Seq<char>) -> bool {
    suffix.len() <= text.len() && text.subrange(text.len() - suffix.len(), text.len() as int)
        == suffix
}

/// Whether `text` ends with `suffix`.
pub fn ends_with(text: &str, suffix: &str) -> (found: bool)
    ensures
        found == is_suffix(text@, suffix@),
{
    let t = chars_of(text);
    let s = chars_of(suffix);
    if s.len() > t.len() {
        return false;
    }
    let from = t.len() - s.len();
    let mut k: usize = 0;
    while k < s.len()
        invariant
            k <= s.len(),
            from + s.len() == t.len(),
            t@ == text@,
            s@ == suffix@,
            forall|j: int| 0 <= j < k ==> t@[from + j] == s@[j],
        decreases s.len() - k,
    {
        if t[from + k] != s[k] {
            assert(text@.subrange(text@.len() - suffix@.len(), text@.len() as int)[k as int]
                != suffix@[k as int]);
            return false;
        }
        k += 1;
    }
    assert(text@.subrange(text@.len() - suffix@.len(), text@.len() as int) =~= suffix@);
    true
}

/// The position behind the last `mark` in `text`; 0 where there is none.
pub open spec fn after_last(text: Seq<char>, mark: char) -> int
    decreases text.len(),
{
    if text.len() == 0 {
        0
    } else if text.last() == mark {
        text.len() as int
    } else {
        after_last(text.drop_last(), mark)
    }
}

/// The last segment of a path: what stands behind its last `/`.
pub open spec fn base_name(path: Seq<char>) -> Seq<char> {
    path.skip(after_last(path, '/'))
}

/// The extension of a path: what stands behind the last `.` of its last
/// segment, where there is one that is not the first character.
pub open spec fn extension(path: Seq<char>) -> Option<Seq<char>> {
    let name = base_name(path);
    if after_last(name, '.') <= 1 {
        None
    } else {
        Some(name.skip(after_last(name, '.')))
    }
}

/// `after_last` is behind the last `mark`, or 0 where there is none.
pub proof fn lemma_after_last(text: Seq<char>, mark: char, k: int)
    requires
        0 <= k <= text.len(),
        k == 0 || text[k - 1] == mark,
        forall|i: int| k <= i < text.len() ==> text[i] != mark,
    ensures
        after_last(text, mark) == k,
    decreases text.len(),
{
    if text.len() > 0 && text.last() != mark {
        lemma_after_last(text.drop_last(), mark, k);
    }
}

fn position_after_last(chars: &Vec<char>, from: usize, mark: char) -> (k: usize)
    requires
        from <= chars.len(),
    ensures
        from <= k <= chars.len(),
        k - from == after_last(chars@.skip(from as int), mark),
{
    let mut k: usize = chars.len();
    while k > from && chars[k - 1] != mark
        invariant
            from <= k <= chars.len(),
            forall|i: int| k <= i < chars.len() ==> chars@[i] != mark,
        decreases k,
    {
        k -= 1;
    }
    proof {
        lemma_after_last(chars@.skip(from as int), mark, k - from);
    }
    k
}

fn text_from(chars: &Vec<char>, from: usize) -> (text: String)
    requires
        from <= chars.len(),
    ensures
        text@ == chars@.skip(from as int),
{
    let mut text = String::new();
    let mut i: usize = from;
    while i < chars.len()
        invariant
            from <= i <= chars.len(),
            text@ == chars@.subrange(from as int, i as int),
        decreases chars.len() - i,
    {
        push_char(&mut text, chars[i]);
        assert(text@ =~= chars@.subrange(from as int, i + 1));
        i += 1;
    }
    assert(chars@.subrange(from as int, chars.len() as int) =~= chars@.skip(from as int));
    text
}

/// The last segment of a path: what stands behind its last `/`.
pub fn file_name_of(path: &str) -> (name: String)
    ensures
        name@ == base_name(path@),
{
    let chars = chars_of(path);
    let k = position_after_last(&chars, 0, '/');
    assert(chars@.skip(0) =~= chars@);
    text_from(&chars, k)
}

/// The extension of a path, without its dot.
pub fn extension_of(path: &str) -> (found: Option<String>)
    ensures
        crate::graph::text_of(found) == extension(path@),
{
    let chars = chars_of(path);
    let start = position_after_last(&chars, 0, '/');
    assert(chars@.skip(0) =~= chars@);
    let dot = position_after_last(&chars, start, '.');
    if dot - start <= 1 {
        None
    } else {
        assert(chars@.skip(start as int).skip(dot - start) =~= chars@.skip(dot as int));
        Some(text_from(&chars, dot))
    }
}

/// `text` begins with `prefix`.
pub open spec fn is_prefix(text: Seq<char>, prefix: Seq<char>) -> bool {
    prefix.len() <= text.len() && text.subrange(0, prefix.len() as int) == prefix
}

/// Whether `text` begins with `prefix`.
pub fn starts_with(text: &str, prefix: &str) -> (found: bool)
    ensures
        found == is_prefix(text@, prefix@),
{
    let t = chars_of(text);
    let s = chars_of(prefix);
    if s.len() > t.len() {
        return false;
    }
    let mut k: usize = 0;
    while k < s.len()
        invariant
            k <= s.len(),
            s.len() <= t.len(),
            t@ == text@,
            s@ == prefix@,
            forall|j: int| 0 <= j < k ==> t@[j] == s@[j],
        decreases s.len() - k,
    {
        if t[k] != s[k] {
            assert(text@.subrange(0, prefix@.len() as int)[k as int] != prefix@[k as int]);
            return false;
        }
        k += 1;
    }
    assert(text@.subrange(0, prefix@.len() as int) =~= prefix@);
    true
}

/// `part` stands in `text` at position `at`.
pub open spec fn occurs_at(text: Seq<char>, part: Seq<char>, at: int) -> bool {
    0 <= at && at + part.len() <= text.len() && text.subrange(at, at + part.len()) == part
}

/// `part` stands somewhere in `text`.
pub open spec fn has_part(text: Seq<char>, part: Seq<char>) -> bool {
    exists|at: int| occurs_at(text, part, at)
}

/// Whether `part` stands in `text` at position `at`.
pub fn matches_at(text: &Vec<char>, part: &Vec<char>, at: usize) -> (found: bool)
    ensures
        found == occurs_at(text@, part@, at as int),
{
    if part.len() > text.len() || at > text.len() - part.len() {
        return false;
    }
    let mut k: usize = 0;
    while k < part.len()
        invariant
            k <= part.len(),
            at + part.len() <= text.len(),
            forall|j: int| 0 <= j < k ==> text@[at + j] == part@[j],
        decreases part.len() - k,
    {
        if text[at + k] != part[k] {
            assert(text@.subrange(at as int, at + part.len())[k as int] != part@[k as int]);
            return false;
        }
        k += 1;
    }
    assert(text@.subrange(at as int, at + part.len()) =~= part@);
    true
}

/// Whether `part` stands somewhere in `text`.
pub fn contains_text(text: &str, part: &str) -> (found: bool)
    ensures
        found == has_part(text@, part@),
{
    let t = chars_of(text);
    let p = chars_of(part);
    let mut at: usize = 0;
    while at <= t.len()
        invariant
            at <= t.len() + 1,
            t@ == text@,
            p@ == part@,
            forall|j: int| 0 <= j < at ==> !occurs_at(text@, part@, j),
        decreases t.len() + 1 - at,
    {
        if matches_at(&t, &p, at) {
            return true;
        }
        if at == t.len() {
            return false;
        }
        at += 1;
    }
    false
}

/// A number in decimal.
pub open spec fn decimal_text(n: nat) -> Seq<char>
    decreases n,
{
    if n < 10 {
        seq![((0x30 + n) as u8) as char]
    } else {
        decimal_text(n / 10).push(((0x30 + n % 10) as u8) as char)
    }
}

fn push_decimal(out: &mut String, n: usize)
    ensures
        final(out)@ == old(out)@ + decimal_text(n as nat),
    decreases n,
{
    if n >= 10 {
        push_decimal(out, n / 10);
    }
    push_char(out, (0x30u8 + (n % 10) as u8) as char);
    assert(out@ =~= old(out)@ + decimal_text(n as nat));
}

/// A number in decimal.
pub fn to_decimal(n: usize) -> (text: String)
    ensures
        text@ == decimal_text(n as nat),
{
    let mut text = String::new();
    push_decimal(&mut text, n);
    assert(text@ =~= decimal_text(n as nat));
    text
}

/// `text` with each `part` in it, from the left and not overlapping,
/// replaced by `with`. An empty `part` leaves the text as it is.
pub open spec fn replaced(text: Seq<char>, part: Seq<char>, with: Seq<char>) -> Seq<char>
    decreases text.len(),
{
    if part.len() == 0 || text.len() < part.len() {
        text
    } else if text.subrange(0, part.len() as int) == part {
        with + replaced(text.skip(part.len() as int), part, with)
    } else {
        seq![text[0]] + replaced(text.skip(1), part, with)
    }
}

/// `text` with each `part` in it replaced by `with`.
pub fn replace_all(text: &str, part: &str, with: &str) -> (out: String)
    ensures
        out@ == replaced(text@, part@, with@),
{
    let t = chars_of(text);
    let p = chars_of(part);
    let mut out = String::new();
    if p.len() == 0 {
        return string_of(&t);
    }
    let mut i: usize = 0;
    assert(text@.skip(0) =~= text@);
    assert(out@ + replaced(text@, part@, with@) =~= replaced(text@, part@, with@));
    while i < t.len()
        invariant
            i <= t.len(),
            t@ == text@,
            p@ == part@,
            p.len() > 0,
            out@ + replaced(text@.skip(i as int), part@, with@) == replaced(text@, part@, with@),
        decreases t.len() - i,
    {
        let ghost rest = text@.skip(i as int);
        let ghost before = out@;
        if matches_at(&t, &p, i) {
            assert(rest.subrange(0, part@.len() as int) =~= text@.subrange(
                i as int,
                i + part@.len(),
            ));
            out.append(with);
            assert(rest.skip(part@.len() as int) =~= text@.skip(i + part@.len()));
            assert(out@ + replaced(text@.skip(i + part@.len()), part@, with@) =~= before + replaced(
                rest,
                part@,
                with@,
            ));
            i += p.len();
        } else {
            proof {
                if rest.len() >= part@.len() {
                    assert(rest.subrange(0, part@.len() as int) =~= text@.subrange(
                        i as int,
                        i + part@.len(),
                    ));
                }
            }
            push_char(&mut out, t[i]);
            assert(rest.skip(1) =~= text@.skip(i + 1));
            assert(rest[0] == t@[i as int]);
            proof {
                if rest.len() < part@.len() {
                    lemma_short_tail(rest, part@, with@);
                    lemma_short_tail(rest.skip(1), part@, with@);
                    assert(seq![rest[0]] + rest.skip(1) =~= rest);
                }
            }
            assert(out@ + replaced(text@.skip(i + 1), part@, with@) =~= before + replaced(
                rest,
                part@,
                with@,
            ));
            i += 1;
        }
    }
    assert(text@.skip(t.len() as int) =~= Seq::<char>::empty());
    assert(out@ + Seq::<char>::empty() =~= out@);
    out
}

/// A text that is shorter than `part` holds no `part`.
proof fn lemma_short_tail(text: Seq<char>, part: Seq<char>, with: Seq<char>)
    requires
        text.len() < part.len(),
    ensures
        replaced(text, part, with) == text,
{
}

} // verus!
