//! What the resolver decides without looking at the disk: which
//! specifiers it refuses, what kind a specifier is, where resolution
//! starts, and what it looks for.

use vstd::prelude::*;
use vstd::string::StringExecFns;
use crate::text::{chars_of, is_prefix, push_char, starts_with, after_last, lemma_after_last};

verus! {

/// Why a specifier was not resolved.
#[derive(Clone, Copy, Debug, PartialEq, Eq, Structural)]
pub enum ResolveError {
    /// No file answers to the specifier.
    NotFound,
    /// The specifier holds a NUL character.
    InvalidPath,
}

/// The kinds of specifier.
#[derive(Clone, Copy, Debug, PartialEq, Eq, Structural)]
pub enum SpecifierKind {
    /// Begins with `./` or `../`, or is `.` or `..`: resolved against the
    /// directory of the importing file.
    Relative,
    /// Begins with `/`.
    Absolute,
    /// The name of a package, looked for in the `node_modules` directories
    /// from the importing file upwards.
    Bare,
}

/// The kind of a specifier.
pub open spec fn kind_of(specifier: Seq<char>) -> SpecifierKind {
    if is_prefix(specifier, "./"@) || is_prefix(specifier, "../"@) || specifier == "."@
        || specifier == ".."@ {
        SpecifierKind::Relative
    } else if is_prefix(specifier, "/"@) {
        SpecifierKind::Absolute
    } else {
        SpecifierKind::Bare
    }
}

/// The kind of a specifier.
pub fn specifier_kind(specifier: &str) -> (kind: SpecifierKind)
    ensures
        kind == kind_of(specifier@),
{
    if starts_with(specifier, "./") || starts_with(specifier, "../") || crate::text::str_eq(
        specifier,
        ".",
    ) || crate::text::str_eq(specifier, "..") {
        SpecifierKind::Relative
    } else if starts_with(specifier, "/") {
        SpecifierKind::Absolute
    } else {
        SpecifierKind::Bare
    }
}

/// Refuses a specifier that holds a NUL character.
pub fn check_specifier(specifier: &str) -> (checked: Result<(), ResolveError>)
    ensures
        checked == if specifier@.contains('\0') {
            Err::<(), ResolveError>(ResolveError::InvalidPath)
        } else {
            Ok::<(), ResolveError>(())
        },
{
    let chars = chars_of(specifier);
    let mut i: usize = 0;
    while i < chars.len()
        invariant
            i <= chars.len(),
            chars@ == specifier@,
            forall|k: int| 0 <= k < i ==> chars@[k] != '\0',
        decreases chars.len() - i,
    {
        if chars[i] == '\0' {
            return Err(ResolveError::InvalidPath);
        }
        i += 1;
    }
    Ok(())
}

/// What a resolution comes to: a specifier with a NUL character is
/// refused whatever was found; else the file that was found, or
/// `NotFound`.
pub open spec fn outcome_of(specifier: Seq<char>, found: Option<Seq<char>>) -> Result<
    Seq<char>,
    ResolveError,
> {
    if specifier.contains('\0') {
        Err(ResolveError::InvalidPath)
    } else {
        match found {
            Some(path) => Ok(path),
            None => Err(ResolveError::NotFound),
        }
    }
}

/// The text of a resolution.
pub open spec fn resolution_text(resolved: Result<String, ResolveError>) -> Result<
    Seq<char>,
    ResolveError,
> {
    match resolved {
        Ok(path) => Ok(path@),
        Err(e) => Err(e),
    }
}

/// What the resolution of `specifier` comes to, given the file that the
/// search on disk found for it.
pub fn resolve_outcome(specifier: &str, found: Option<String>) -> (resolved: Result<
    String,
    ResolveError,
>)
    ensures
        resolution_text(resolved) == outcome_of(specifier@, crate::graph::text_of(found)),
{
    match check_specifier(specifier) {
        Err(e) => Err(e),
        Ok(()) => match found {
            Some(path) => Ok(path),
            None => Err(ResolveError::NotFound),
        },
    }
}

/// The directory of a file: the path up to its last `/`; `/` for a file
/// in the root, and the empty path for a file without a directory.
pub open spec fn directory_of(path: Seq<char>) -> Seq<char> {
    if after_last(path, '/') == 0 {
        Seq::empty()
    } else if after_last(path, '/') == 1 {
        "/"@
    } else {
        path.take(after_last(path, '/') - 1)
    }
}

/// Where the resolution for an importing path starts: the path itself
/// where it is a directory, else the directory of the file.
pub fn resolution_base(from: &str, is_file: bool) -> (base: String)
    ensures
        base@ == if is_file {
            directory_of(from@)
        } else {
            from@
        },
{
    if !is_file {
        return String::from_str(from);
    }
    let chars = chars_of(from);
    let mut k: usize = chars.len();
    while k > 0 && chars[k - 1] != '/'
        invariant
            k <= chars.len(),
            chars@ == from@,
            forall|i: int| k <= i < chars.len() ==> chars@[i] != '/',
        decreases k,
    {
        k -= 1;
    }
    proof {
        lemma_after_last(from@, '/', k as int);
    }
    if k == 0 {
        return String::new();
    }
    if k == 1 {
        return String::from_str("/");
    }
    let mut base = String::new();
    let mut i: usize = 0;
    while i < k - 1
        invariant
            i <= k - 1,
            k <= chars.len(),
            chars@ == from@,
            base@ == from@.take(i as int),
        decreases k - 1 - i,
    {
        push_char(&mut base, chars[i]);
        assert(base@ =~= from@.take(i + 1));
        i += 1;
    }
    base
}

fn list_of(items: [&str; 5]) -> (list: Vec<String>)
    ensures
        list.len() == 5,
        forall|i: int| 0 <= i < 5 ==> (#[trigger] list[i])@ == items[i]@,
{
    let mut list: Vec<String> = Vec::new();
    let mut i: usize = 0;
    while i < 5
        invariant
            i <= 5,
            list.len() == i,
            forall|k: int| 0 <= k < i ==> (#[trigger] list[k])@ == items[k]@,
        decreases 5 - i,
    {
        list.push(String::from_str(items[i]));
        i += 1;
    }
    list
}

/// The extensions that are tried for a specifier without one, in their
/// order: `.ts`, `.tsx`, `.js`, `.jsx`, `.json`.
pub fn extensions() -> (list: Vec<String>)
    ensures
        list.len() == 5,
        list[0]@ == ".ts"@,
        list[1]@ == ".tsx"@,
        list[2]@ == ".js"@,
        list[3]@ == ".jsx"@,
        list[4]@ == ".json"@,
{
    list_of([".ts", ".tsx", ".js", ".jsx", ".json"])
}

/// The fields of a `package.json` that name the file of a package, in
/// their order: `browser`, `module`, `main`.
pub fn main_fields() -> (list: Vec<String>)
    ensures
        list.len() == 3,
        list[0]@ == "browser"@,
        list[1]@ == "module"@,
        list[2]@ == "main"@,
{
    let mut list: Vec<String> = Vec::new();
    list.push(String::from_str("browser"));
    list.push(String::from_str("module"));
    list.push(String::from_str("main"));
    list
}

/// The condition names that are honoured in `exports` and `imports` maps:
/// `browser`, `import`, `require`.
pub fn condition_names() -> (list: Vec<String>)
    ensures
        list.len() == 3,
        list[0]@ == "browser"@,
        list[1]@ == "import"@,
        list[2]@ == "require"@,
{
    let mut list: Vec<String> = Vec::new();
    list.push(String::from_str("browser"));
    list.push(String::from_str("import"));
    list.push(String::from_str("require"));
    list
}

/// The files that are tried as the entry of a project, in their order.
pub fn entry_candidates() -> (list: Vec<String>)
    ensures
        list.len() == 4,
        list[0]@ == "./src/main.tsx"@,
        list[1]@ == "./src/index.tsx"@,
        list[2]@ == "./src/main.js"@,
        list[3]@ == "./src/index.js"@,
{
    let mut list: Vec<String> = Vec::new();
    list.push(String::from_str("./src/main.tsx"));
    list.push(String::from_str("./src/index.tsx"));
    list.push(String::from_str("./src/main.js"));
    list.push(String::from_str("./src/index.js"));
    list
}

} // verus!
