//! Virtual chunks: an id for a set of modules, and their sources in one
//! text.

use vstd::prelude::*;
use vstd::string::StringExecFns;
use std::collections::hash_map::DefaultHasher;
use std::hash::Hasher;
use vstd::std_specs::hash::DefaultHasherAdditionalSpecFns;
use vstd::utf8::encode_utf8;
use vstd::bytes::{spec_u64_to_le_bytes, u64_to_le_bytes};
use crate::text::push_char;

verus! {

/// The hexadecimal digit of a value below 16.
pub open spec fn hex_digit(d: nat) -> char
    recommends
        d < 16,
{
    if d < 10 {
        ((0x30 + d) as u8) as char
    } else {
        ((0x61 + (d - 10)) as u8) as char
    }
}

/// A number in hexadecimal, lower case, without leading zeros.
pub open spec fn hex_text(n: nat) -> Seq<char>
    decreases n,
{
    if n < 16 {
        seq![hex_digit(n)]
    } else {
        hex_text(n / 16).push(hex_digit(n % 16))
    }
}

/// What is fed to the hasher for the paths themselves: the bytes of each
/// path, and after each the byte `0xff`, which no path holds.
pub open spec fn path_writes(paths: Seq<String>) -> Seq<Seq<u8>>
    decreases paths.len(),
{
    if paths.len() == 0 {
        Seq::empty()
    } else {
        path_writes(paths.drop_last()).push(encode_utf8(paths.last()@)).push(seq![0xffu8])
    }
}

/// What is fed to the hasher for a list of paths, as hashing a slice of
/// strings feeds it: first the number of paths, in eight bytes with the
/// lowest first, then the paths.
pub open spec fn chunk_writes(paths: Seq<String>) -> Seq<Seq<u8>> {
    seq![spec_u64_to_le_bytes(paths.len() as u64)] + path_writes(paths)
}

/// The id of a chunk made of the given paths.
pub open spec fn chunk_id(paths: Seq<String>) -> Seq<char> {
    hex_text(DefaultHasher::spec_finish(chunk_writes(paths)) as nat)
}

fn hex_digit_of(d: u8) -> (c: char)
    requires
        d < 16,
    ensures
        c == hex_digit(d as nat),
{
    if d < 10 {
        (0x30u8 + d) as char
    } else {
        (0x61u8 + (d - 10)) as char
    }
}

fn push_hex(out: &mut String, n: u64)
    ensures
        final(out)@ == old(out)@ + hex_text(n as nat),
    decreases n,
{
    if n >= 16 {
        push_hex(out, n / 16);
    }
    push_char(out, hex_digit_of((n % 16) as u8));
    assert(out@ =~= old(out)@ + hex_text(n as nat));
}

/// A number in hexadecimal, lower case, without leading zeros.
pub fn to_hex(n: u64) -> (text: String)
    ensures
        text@ == hex_text(n as nat),
        text@.len() > 0,
{
    let mut text = String::new();
    push_hex(&mut text, n);
    assert(text@ =~= hex_text(n as nat));
    text
}

/// An id for the chunk that holds the given modules: a hash of their paths,
/// in hexadecimal. The same paths in the same order give the same id.
pub fn generate_chunk_id(modules: &[String]) -> (id: String)
    ensures
        id@ == chunk_id(modules@),
        id@.len() > 0,
{
    let mut hasher = DefaultHasher::new();
    let count = u64_to_le_bytes(modules.len() as u64);
    hasher.write(count.as_slice());
    let ghost head = seq![spec_u64_to_le_bytes(modules@.len() as u64)];
    assert(hasher@ =~= head + path_writes(modules@.take(0)));
    let mark: [u8; 1] = [0xff];
    let mut i: usize = 0;
    while i < modules.len()
        invariant
            i <= modules.len(),
            mark@ == seq![0xffu8],
            hasher@ == head + path_writes(modules@.take(i as int)),
        decreases modules.len() - i,
    {
        hasher.write(modules[i].as_str().as_bytes());
        hasher.write(mark.as_slice());
        i += 1;
        assert(modules@.take(i as int).drop_last() =~= modules@.take(i - 1));
        assert(hasher@ =~= head + path_writes(modules@.take(i as int)));
    }
    assert(modules@.take(modules.len() as int) =~= modules@);
    to_hex(hasher.finish())
}

/// What a chunk holds for one module: a comment with the path, the source,
/// and an empty line.
pub open spec fn module_block(path: Seq<char>, content: Seq<char>) -> Seq<char> {
    "// Module: "@ + path + "\n"@ + content + "\n\n"@
}

/// The blocks of the given modules, one after the other.
pub open spec fn concatenated(modules: Seq<(&str, &str)>) -> Seq<char>
    decreases modules.len(),
{
    if modules.len() == 0 {
        Seq::empty()
    } else {
        concatenated(modules.drop_last()) + module_block(modules.last().0@, modules.last().1@)
    }
}

/// The sources of the given modules in one text, each under a comment that
/// names its path.
pub fn concatenate_modules(modules: Vec<(&str, &str)>) -> (output: String)
    ensures
        output@ == concatenated(modules@),
{
    let mut output = String::new();
    let mut i: usize = 0;
    while i < modules.len()
        invariant
            i <= modules.len(),
            output@ == concatenated(modules@.take(i as int)),
        decreases modules.len() - i,
    {
        let (path, content) = modules[i];
        output.append("// Module: ");
        output.append(path);
        output.append("\n");
        output.append(content);
        output.append("\n\n");
        i += 1;
        assert(modules@.take(i as int).drop_last() =~= modules@.take(i - 1));
        assert(output@ =~= concatenated(modules@.take(i - 1)) + module_block(path@, content@));
    }
    assert(modules@.take(modules.len() as int) =~= modules@);
    output
}

} // verus!
