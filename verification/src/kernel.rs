//! The build server's view of a project: which file depends on which.

use vstd::prelude::*;
use vstd::string::StringExecFns;
use crate::text::str_eq;
use crate::graph::names_of;
use crate::syntax::{ModuleSyntaxView, module_syntax, read_module};

verus! {

/// Which files each file depends on, by path.
#[derive(Clone, Debug)]
pub struct DependencyGraph {
    dependencies: Vec<(String, Vec<String>)>,
}

impl View for DependencyGraph {
    type V = Map<Seq<char>, Seq<Seq<char>>>;

    closed spec fn view(&self) -> Map<Seq<char>, Seq<Seq<char>>> {
        Map::new(
            |path: Seq<char>| exists|i: int| self.holds_at(path, i),
            |path: Seq<char>| names_of(self.dependencies[self.slot(path)].1@),
        )
    }
}

/// Whether one of `names` is `name`.
fn holds_name(names: &Vec<String>, name: &str) -> (found: bool)
    ensures
        found == names_of(names@).contains(name@),
{
    let mut i: usize = 0;
    while i < names.len()
        invariant
            i <= names.len(),
            forall|k: int| 0 <= k < i ==> names_of(names@)[k] != name@,
        decreases names.len() - i,
    {
        if str_eq(names[i].as_str(), name) {
            assert(names_of(names@)[i as int] == name@);
            return true;
        }
        i += 1;
    }
    false
}

impl DependencyGraph {
    /// Position `i` holds the entry of `path`.
    closed spec fn holds_at(&self, path: Seq<char>, i: int) -> bool {
        0 <= i < self.dependencies.len() && self.dependencies[i].0@ == path
    }

    /// The position that holds the entry of `path`.
    closed spec fn slot(&self, path: Seq<char>) -> int {
        choose|i: int| self.holds_at(path, i)
    }

    /// No path has two entries.
    pub closed spec fn wf(&self) -> bool {
        forall|i: int, j: int|
            0 <= i < self.dependencies.len() && 0 <= j < self.dependencies.len()
                && self.dependencies[i].0@ == self.dependencies[j].0@ ==> i == j
    }

    proof fn lemma_slot(&self, i: int)
        requires
            self.wf(),
            0 <= i < self.dependencies.len(),
        ensures
            self.slot(self.dependencies[i].0@) == i,
            self@.dom().contains(self.dependencies[i].0@),
            self@[self.dependencies[i].0@] == names_of(self.dependencies[i].1@),
    {
        assert(self.holds_at(self.dependencies[i].0@, i));
    }

    /// A graph without files.
    pub fn new() -> (graph: DependencyGraph)
        ensures
            graph.wf(),
            graph@ == Map::<Seq<char>, Seq<Seq<char>>>::empty(),
    {
        let graph = DependencyGraph { dependencies: Vec::new() };
        assert(graph@ =~= Map::<Seq<char>, Seq<Seq<char>>>::empty());
        graph
    }

    fn position(&self, path: &str) -> (found: Option<usize>)
        ensures
            match found {
                Some(i) => self.holds_at(path@, i as int),
                None => forall|j: int| !self.holds_at(path@, j),
            },
    {
        let mut i: usize = 0;
        while i < self.dependencies.len()
            invariant
                i <= self.dependencies.len(),
                forall|j: int| 0 <= j < i ==> !self.holds_at(path@, j),
            decreases self.dependencies.len() - i,
        {
            if str_eq(self.dependencies[i].0.as_str(), path) {
                return Some(i);
            }
            i += 1;
        }
        None
    }

    /// Records the files that `path` depends on, in place of what was
    /// recorded for it before.
    pub fn add_module(&mut self, path: String, deps: Vec<String>)
        requires
            old(self).wf(),
        ensures
            final(self).wf(),
            final(self)@ == old(self)@.insert(path@, names_of(deps@)),
    {
        let found = self.position(path.as_str());
        let ghost at: int = match found {
            Some(i) => i as int,
            None => self.dependencies.len() as int,
        };
        match found {
            Some(i) => {
                self.dependencies[i].1 = deps;
            },
            None => {
                self.dependencies.push((path, deps));
            },
        }
        proof {
            let before = *old(self);
            let after = *self;
            let goal = before@.insert(path@, names_of(deps@));
            assert(after.wf()) by {
                assert forall|i: int, j: int|
                    0 <= i < after.dependencies.len() && 0 <= j < after.dependencies.len()
                        && after.dependencies[i].0@ == after.dependencies[j].0@ implies i == j by {
                    if i < before.dependencies.len() && j < before.dependencies.len() {
                        assert(before.dependencies[i].0@ == before.dependencies[j].0@);
                    } else if i < before.dependencies.len() {
                        assert(before.holds_at(path@, i));
                    } else if j < before.dependencies.len() {
                        assert(before.holds_at(path@, j));
                    }
                }
            }
            assert forall|k: Seq<char>|
                (#[trigger] after@.dom().contains(k)) == goal.dom().contains(k) && (
                after@.dom().contains(k) ==> after@[k] == goal[k]) by {
                if after@.dom().contains(k) {
                    let i = choose|i: int| after.holds_at(k, i);
                    after.lemma_slot(i);
                    if k != path@ {
                        assert(before.holds_at(k, i));
                        before.lemma_slot(i);
                    } else {
                        after.lemma_slot(at);
                    }
                }
                if goal.dom().contains(k) {
                    if k == path@ {
                        assert(after.holds_at(k, at));
                    } else {
                        let i = choose|i: int| before.holds_at(k, i);
                        assert(after.holds_at(k, i));
                    }
                }
            }
            assert(after@ =~= goal);
        }
    }

    /// The files that depend on `path`: each file whose recorded
    /// dependencies hold `path`, once.
    pub fn get_dependents(&self, path: &str) -> (dependents: Vec<String>)
        requires
            self.wf(),
        ensures
            names_of(dependents@).no_duplicates(),
            forall|file: Seq<char>|
                names_of(dependents@).contains(file) <==> self@.dom().contains(file)
                    && self@[file].contains(path@),
    {
        let mut dependents: Vec<String> = Vec::new();
        let mut i: usize = 0;
        while i < self.dependencies.len()
            invariant
                i <= self.dependencies.len(),
                self.wf(),
                forall|k: int|
                    0 <= k < dependents.len() ==> exists|j: int|
                        0 <= j < i && self.dependencies[j].0@ == #[trigger] names_of(
                            dependents@,
                        )[k],
                names_of(dependents@).no_duplicates(),
                forall|j: int|
                    0 <= j < i && names_of(self.dependencies[j].1@).contains(path@)
                        ==> names_of(dependents@).contains(#[trigger] self.dependencies[j].0@),
                forall|k: int|
                    0 <= k < dependents.len() ==> self@.dom().contains(
                        #[trigger] names_of(dependents@)[k],
                    ) && self@[names_of(dependents@)[k]].contains(path@),
            decreases self.dependencies.len() - i,
        {
            let ghost before = names_of(dependents@);
            if holds_name(&self.dependencies[i].1, path) {
                let file = String::from_str(self.dependencies[i].0.as_str());
                dependents.push(file);
                proof {
                    let after = names_of(dependents@);
                    self.lemma_slot(i as int);
                    assert(after =~= before.push(self.dependencies[i as int].0@));
                    assert forall|a: int, b: int|
                        0 <= a < after.len() && 0 <= b < after.len() && a != b implies after[a]
                        != after[b] by {
                        if a < before.len() && b < before.len() {
                        } else if a < before.len() {
                            let j = choose|j: int|
                                0 <= j < i && self.dependencies[j].0@ == before[a];
                        } else {
                            let j = choose|j: int|
                                0 <= j < i && self.dependencies[j].0@ == before[b];
                        }
                    }
                    assert forall|j: int|
                        0 <= j < i + 1 && names_of(self.dependencies[j].1@).contains(
                            path@,
                        ) implies after.contains(#[trigger] self.dependencies[j].0@) by {
                        if j < i {
                            let k = choose|k: int|
                                0 <= k < before.len() && before[k] == self.dependencies[j].0@;
                            assert(after[k] == self.dependencies[j].0@);
                        } else {
                            assert(after[before.len() as int] == self.dependencies[j].0@);
                        }
                    }
                    assert forall|k: int| 0 <= k < dependents.len() implies exists|j: int|
                        0 <= j < i + 1 && self.dependencies[j].0@ == #[trigger] after[k] by {
                        if k < before.len() {
                            let j = choose|j: int|
                                0 <= j < i && self.dependencies[j].0@ == before[k];
                            assert(0 <= j < i + 1 && self.dependencies[j].0@ == after[k]);
                        } else {
                            assert(self.dependencies[i as int].0@ == after[k]);
                        }
                    }
                }
            }
            i += 1;
        }
        proof {
            let all = names_of(dependents@);
            assert forall|file: Seq<char>|
                all.contains(file) <==> self@.dom().contains(file) && self@[file].contains(
                    path@,
                ) by {
                if self@.dom().contains(file) && self@[file].contains(path@) {
                    let j = choose|j: int| self.holds_at(file, j);
                    self.lemma_slot(j);
                }
            }
        }
        dependents
    }

    /// Forgets what was recorded for `path`.
    pub fn invalidate(&mut self, path: &str)
        requires
            old(self).wf(),
        ensures
            final(self).wf(),
            final(self)@ == old(self)@.remove(path@),
    {
        let found = self.position(path);
        match found {
            Some(i) => {
                self.dependencies.remove(i);
                proof {
                    let before = *old(self);
                    let after = *self;
                    let goal = before@.remove(path@);
                    assert forall|j: int| 0 <= j < after.dependencies.len() implies
                        after.dependencies[j] == before.dependencies[if j < i { j } else { j + 1 }] by {}
                    assert(after.wf());
                    assert forall|k: Seq<char>|
                        (#[trigger] after@.dom().contains(k)) == goal.dom().contains(k) && (
                        after@.dom().contains(k) ==> after@[k] == goal[k]) by {
                        if after@.dom().contains(k) {
                            let j = choose|j: int| after.holds_at(k, j);
                            after.lemma_slot(j);
                            let b = if j < i { j } else { j + 1 };
                            assert(before.holds_at(k, b));
                            before.lemma_slot(b);
                        }
                        if goal.dom().contains(k) {
                            let b = choose|b: int| before.holds_at(k, b);
                            assert(b != i);
                            let j = if b < i { b } else { b - 1 };
                            assert(after.holds_at(k, j));
                        }
                    }
                    assert(after@ =~= goal);
                }
            },
            None => {
                assert(self@ =~= old(self)@.remove(path@));
            },
        }
    }
}

impl Default for DependencyGraph {
    fn default() -> (graph: DependencyGraph)
        ensures
            graph.wf(),
            graph@ == Map::<Seq<char>, Seq<Seq<char>>>::empty(),
    {
        DependencyGraph::new()
    }
}

/// Why a specifier could not be resolved by the build server.
#[derive(Clone, Debug)]
pub struct ResolutionError {
    /// What went wrong, in words.
    pub message: String,
}

/// Resolves a module specifier to the path of a file. The build server
/// resolves nothing by itself: every specifier is refused, with a message
/// that names it.
pub fn resolve_module(specifier: &str, importer: &str) -> (resolved: Result<String, ResolutionError>)
    ensures
        resolved is Err,
        resolved->Err_0.message@ == "Resolution not yet implemented for: "@ + specifier@,
{
    let mut message = String::from_str("Resolution not yet implemented for: ");
    message.append(specifier);
    Err(ResolutionError { message })
}

/// Why a module could not be parsed.
#[derive(Clone, Debug)]
pub struct ParseError {
    /// What went wrong, in words.
    pub message: String,
}

/// What `parse_module` gives for a module syntax: an empty list, or an
/// error that names the file where the parser met syntax errors.
pub open spec fn parse_outcome(path: Seq<char>, syntax: ModuleSyntaxView, found: Result<
    Vec<String>,
    ParseError,
>) -> bool {
    match found {
        Ok(imports) => syntax.errors == 0 && imports@.len() == 0,
        Err(error) => syntax.errors > 0 && error.message@ == "Parse errors in "@ + path,
    }
}

/// Checks that a module parses, in the dialect that the extension of
/// `path` names. A module with syntax errors is refused. The list that is
/// returned for any other module is empty: the imports of a module are
/// what `analyze_module` gives.
pub fn parse_module(path: &str, source: &str) -> (found: Result<Vec<String>, ParseError>)
    ensures
        parse_outcome(path@, module_syntax(source@, path@), found),
{
    let syntax = read_module(source, path);
    if syntax.errors > 0 {
        let mut message = String::from_str("Parse errors in ");
        message.append(path);
        let found = Err(ParseError { message });
        assert(parse_outcome(path@, syntax@, found));
        return found;
    }
    let found = Ok(Vec::new());
    assert(parse_outcome(path@, syntax@, found));
    found
}

} // verus!
