//! Commands that cannot handle npm packages.
use vstd::prelude::*;
use vstd::string::*;
use crate::module_graph::{GraphEntryView, ModuleGraph};
use crate::resolution::ModuleKind;
use crate::specifier::SpecifierView;

verus! {

/// The module of `entry`, if it is external to the graph.
pub open spec fn external_module(entry: GraphEntryView) -> Option<SpecifierView> {
    match entry.result {
        Ok(module) if module.kind is External => Some(module.specifier),
        _ => None,
    }
}

/// The first external module among `entries`.
pub open spec fn first_external(entries: Seq<GraphEntryView>) -> Option<SpecifierView>
    decreases entries.len(),
{
    if entries.len() == 0 {
        None
    } else if external_module(entries[0]) is Some {
        external_module(entries[0])
    } else {
        first_external(entries.drop_first())
    }
}

/// What a command that cannot handle npm packages says of `specifier`.
pub open spec fn npm_message(specifier: SpecifierView) -> Seq<char> {
    "npm specifiers have not yet been implemented for this sub command (https://github.com/denoland/deno/issues/15960). Found: "@
        + specifier.text
}

/// Fails if a module of `graph` is external, with a message that names the
/// first.
pub fn error_for_any_npm_specifier(graph: &ModuleGraph) -> (result: Result<(), String>)
    ensures
        match first_external(graph@.specifiers) {
            Some(specifier) => result is Err && result->Err_0@ == npm_message(specifier),
            None => result is Ok,
        },
{
    let ghost all = graph@.specifiers;
    let mut i: usize = 0;
    assert(all.skip(0) =~= all);
    while i < graph.specifiers.len()
        invariant
            i <= graph.specifiers@.len(),
            all == graph@.specifiers,
            first_external(all) == first_external(all.skip(i as int)),
        decreases graph.specifiers.len() - i,
    {
        assert(all.skip(i as int)[0] == graph.specifiers@[i as int]@);
        if let Ok(module) = &graph.specifiers[i].result {
            if module.kind == ModuleKind::External {
                let mut message = "npm specifiers have not yet been implemented for this sub command (https://github.com/denoland/deno/issues/15960). Found: ".to_owned();
                message.append(module.specifier.text.as_str());
                return Err(message);
            }
        }
        assert(all.skip(i as int).drop_first() =~= all.skip(i + 1));
        i = i + 1;
    }
    Ok(())
}

/// The first external module is that of the first entry which is one.
proof fn lemma_first_external(entries: Seq<GraphEntryView>, i: int)
    requires
        0 <= i <= entries.len(),
        i < entries.len() ==> external_module(entries[i]) is Some,
        forall|k: int| 0 <= k < i ==> external_module(#[trigger] entries[k]) is None,
    ensures
        first_external(entries) == if i < entries.len() {
            external_module(entries[i])
        } else {
            None
        },
    decreases entries.len(),
{
    if entries.len() > 0 && i > 0 {
        let later = entries.drop_first();
        assert(external_module(entries[0]) is None);
        assert forall|k: int| 0 <= k < i - 1 implies external_module(
            #[trigger] later[k],
        ) is None by {
            assert(later[k] == entries[k + 1]);
        }
        lemma_first_external(later, i - 1);
    }
}

/// A graph is refused exactly if one of its specifiers, whichever it is, has an
/// external module.
pub proof fn law_any_external_module_is_refused(entries: Seq<GraphEntryView>)
    ensures
        first_external(entries) is Some <==> exists|i: int|
            0 <= i < entries.len() && ((#[trigger] entries[i]).result matches Ok(module)
                && module.kind == ModuleKind::External),
{
    if exists|i: int|
        0 <= i < entries.len() && ((#[trigger] entries[i]).result matches Ok(module) && module.kind
            == ModuleKind::External) {
        let i = choose|i: int|
            0 <= i < entries.len() && ((#[trigger] entries[i]).result matches Ok(module)
                && module.kind == ModuleKind::External);
        if first_external(entries) is None {
            lemma_no_external(entries, i);
        }
    } else {
        lemma_first_external(entries, entries.len() as int);
    }
}

/// Where there is no first external module, there is none.
proof fn lemma_no_external(entries: Seq<GraphEntryView>, i: int)
    requires
        0 <= i < entries.len(),
        first_external(entries) is None,
    ensures
        external_module(entries[i]) is None,
    decreases entries.len(),
{
    if i > 0 {
        assert(entries.drop_first()[i - 1] == entries[i]);
        lemma_no_external(entries.drop_first(), i - 1);
    }
}

/// The message names the module of the first specifier that has an external one.
pub proof fn law_first_external_module_is_named(entries: Seq<GraphEntryView>, i: int)
    requires
        0 <= i < entries.len(),
        entries[i].result matches Ok(module) && module.kind == ModuleKind::External,
        forall|k: int|
            0 <= k < i ==> !((#[trigger] entries[k]).result matches Ok(module) && module.kind
                == ModuleKind::External),
    ensures
        first_external(entries) == Some(entries[i].result->Ok_0.specifier),
        npm_message(entries[i].result->Ok_0.specifier)
            == "npm specifiers have not yet been implemented for this sub command (https://github.com/denoland/deno/issues/15960). Found: "@
            + entries[i].result->Ok_0.specifier.text,
{
    lemma_first_external(entries, i);
}

} // verus!
