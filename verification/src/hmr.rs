//! Hot updates: which entries a change reaches, and what the browsers are
//! told.

use vstd::prelude::*;
use vstd::string::StringExecFns;
use crate::compiler::json_of;
use crate::emit::json_literal;
use crate::graph::{GraphView, ModuleGraph, ModuleId, names_of};

verus! {

/// The paths of the given modules, in their order.
pub open spec fn paths_of(g: GraphView, ids: Seq<ModuleId>) -> Seq<Seq<char>> {
    ids.map_values(|id: ModuleId| g.modules[id.0 as int].path)
}

/// The paths of the entries that a change of module `changed` reaches:
/// those of the roots that `find_affected_roots` gives.
pub fn affected_paths(graph: &ModuleGraph, changed: ModuleId) -> (paths: Vec<String>)
    requires
        graph.wf(),
    ensures
        names_of(paths@) == paths_of(graph@, graph@.affected_roots(changed)),
{
    let roots = graph.find_affected_roots(changed);
    let mut paths: Vec<String> = Vec::new();
    let mut i: usize = 0;
    assert(names_of(paths@) =~= paths_of(graph@, roots@).take(0));
    while i < roots.len()
        invariant
            i <= roots.len(),
            graph.wf(),
            graph@.affected_roots_are(changed, roots@),
            names_of(paths@) == paths_of(graph@, roots@).take(i as int),
        decreases roots.len() - i,
    {
        let ghost before = names_of(paths@);
        proof {
            assert(roots@.contains(roots[i as int]));
            if exists|v: ModuleId| graph@.affected_root(changed, v) {
                crate::reach::lemma_reaches_valid(graph@.incoming, changed, roots[i as int]);
            } else {
                assert(roots@[0] == changed);
            }
            assert(graph@.valid(roots[i as int]));
        }
        match graph.module(roots[i]) {
            Some(module) => {
                paths.push(module.path.clone());
                assert(names_of(paths@) =~= before.push(graph@.modules[roots[i as int].0 as int].path));
            },
            None => {},
        }
        assert(before.push(graph@.modules[roots[i as int].0 as int].path) =~= paths_of(
            graph@,
            roots@,
        ).take(i + 1));
        i += 1;
    }
    assert(paths_of(graph@, roots@).take(roots.len() as int) =~= paths_of(graph@, roots@));
    paths
}

/// Paths as the elements of a JSON array.
pub open spec fn json_elements(paths: Seq<Seq<char>>) -> Seq<char>
    decreases paths.len(),
{
    if paths.len() == 0 {
        Seq::empty()
    } else if paths.len() == 1 {
        json_literal(paths[0])
    } else {
        json_elements(paths.drop_last()) + ","@ + json_literal(paths.last())
    }
}

/// The message that tells the browsers to load the given entries again.
pub open spec fn update_text(paths: Seq<Seq<char>>) -> Seq<char> {
    "{\"type\":\"update\",\"paths\":["@ + json_elements(paths) + "]}"@
}

/// The message that tells the browsers to load the given entries again.
pub fn update_message(paths: &Vec<String>) -> (message: String)
    ensures
        message@ == update_text(names_of(paths@)),
{
    let ghost list = names_of(paths@);
    let mut message = String::from_str("{\"type\":\"update\",\"paths\":[");
    let ghost head = message@;
    let mut i: usize = 0;
    assert(list.take(0) =~= Seq::<Seq<char>>::empty());
    assert(head + json_elements(list.take(0)) =~= head);
    while i < paths.len()
        invariant
            i <= paths.len(),
            list == names_of(paths@),
            message@ == head + json_elements(list.take(i as int)),
        decreases paths.len() - i,
    {
        let ghost before = message@;
        assert(list.take(i + 1).drop_last() =~= list.take(i as int));
        assert(list.take(i + 1).last() == paths[i as int]@);
        if i > 0 {
            message.append(",");
        }
        let json = json_of(paths[i].as_str());
        message.append(json.as_str());
        assert(message@ =~= head + json_elements(list.take(i + 1))) by {
            if i == 0 {
                assert(before =~= head);
                assert(list.take(1)[0] == paths[0]@);
            }
        }
        i += 1;
    }
    assert(list.take(paths.len() as int) =~= list);
    message.append("]}");
    assert(message@ =~= update_text(list));
    message
}

/// The message that tells the browsers to load the whole page again.
pub fn reload_message() -> (message: String)
    ensures
        message@ == "{\"type\":\"reload\",\"paths\":[]}"@,
{
    String::from_str("{\"type\":\"reload\",\"paths\":[]}")
}

} // verus!
