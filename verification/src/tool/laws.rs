//! What the model is told of tools and of their calls.

use vstd::prelude::*;

use super::registry::{
    answered, found_flags, law_subset_shares_tools, may_answer, missing_names, panic_text,
    str_views, wanted_flags,
    CallOutcome, MissingTools, RegistryError, RegistryErrorView, ToolRegistry,
};
use super::{ToolError, ToolErrorView, ToolResult};
use crate::json::{parsed_json, Json, JsonView};
use crate::keyed::{distinct_keys, has_key, keys, lookup, pick, put, values, without};
use crate::text::{join, opt_view, views};
use crate::text_laws::{
    lemma_order_concat, lemma_order_within, lemma_whole_stands, stand_in_order,
};

verus! {

proof fn lemma_behind(piece: Seq<char>, head: Seq<char>)
    ensures
        stand_in_order(seq![piece], head + piece),
{
    lemma_whole_stands(piece);
    lemma_order_within(seq![piece], head, piece, Seq::empty());
    assert(head + piece + Seq::<char>::empty() =~= head + piece);
}

/// What a tool returns reaches the model as it is; a failure tells the tool's
/// name and its reason; arguments that do not fit are told apart.
pub proof fn law_outcomes_are_reported(
    name: &str,
    outcome: CallOutcome,
    r: Result<ToolResult, RegistryError>,
)
    requires
        call_ensures(ToolRegistry::finish_call, (name, outcome), r),
    ensures
        match outcome {
            CallOutcome::Returned(result) => r matches Ok(told) && told@ == result@,
            CallOutcome::Failed(ToolError::InvalidArguments(why)) => r matches Err(e) && e@
                == RegistryErrorView::InvalidArguments(why@),
            CallOutcome::Failed(ToolError::Execution(why)) => r matches Err(e) && e@
                == (RegistryErrorView::Execution {
                name: name@,
                source: ToolErrorView::Execution(why@),
            }),
            CallOutcome::Panicked(payload) => r matches Err(e) && e@
                == (RegistryErrorView::Execution {
                name: name@,
                source: ToolErrorView::Execution("panicked: "@ + panic_text(opt_view(payload))),
            }),
        },
{
}

/// A panic's message is told word for word, up to 500 characters.
pub proof fn law_panics_are_told(text: Seq<char>)
    ensures
        text.len() <= 500 ==> panic_text(Some(text)) == text,
        text.len() > 500 ==> panic_text(Some(text)).len() == 500 && text == panic_text(Some(text))
            + text.skip(500),
        panic_text(None).len() > 0,
{
    reveal_strlit("unknown panic");
    if text.len() > 500 {
        assert(text =~= text.take(500) + text.skip(500));
    }
}

/// The sentence for an error tells what is wrong: the tool's name and the
/// reason, in this order.
pub proof fn law_errors_tell_name_and_reason(name: Seq<char>, why: Seq<char>)
    ensures
        stand_in_order(seq![name], RegistryErrorView::NotFound(name).text()),
        stand_in_order(seq![why], RegistryErrorView::InvalidArguments(why).text()),
        stand_in_order(
            seq![name, why],
            (RegistryErrorView::Execution { name, source: ToolErrorView::Execution(why) }).text(),
        ),
        stand_in_order(seq![why], ToolErrorView::InvalidArguments(why).text()),
        stand_in_order(seq![why], ToolErrorView::Execution(why).text()),
{
    lemma_behind(name, "tool not found: "@);
    lemma_behind(why, "invalid arguments: "@);
    lemma_behind(why, "execution failed: "@);
    lemma_whole_stands(name);
    lemma_order_within(seq![name], "tool error: "@, name, " failed: "@);
    lemma_order_concat(
        seq![name],
        "tool error: "@ + name + " failed: "@,
        seq![why],
        "execution failed: "@ + why,
    );
    assert(seq![name] + seq![why] =~= seq![name, why]);
}

/// The text of a result is its output's content; an effect tells its
/// description and its id.
pub proof fn law_results_tell_their_content(result: &ToolResult, text: String)
    requires
        call_ensures(ToolResult::message, (result,), text),
    ensures
        match result {
            ToolResult::Output(output) => text@ == output.content@,
            ToolResult::Effect(request) => stand_in_order(
                seq![request.description@, request.id@],
                text@,
            ),
        },
{
    if let ToolResult::Effect(request) = result {
        let a = request.description@;
        let b = request.id@;
        lemma_behind(a, "effect request: "@);
        lemma_whole_stands(b);
        lemma_order_within(seq![b], " ("@, b, ")"@);
        lemma_order_concat(seq![a], "effect request: "@ + a, seq![b], " ("@ + b + ")"@);
        assert(seq![a] + seq![b] =~= seq![a, b]);
        assert("effect request: "@ + a + (" ("@ + b + ")"@) =~= text@);
    }
}

/// A call goes to the tool of that name, with the arguments as they are
/// written; a name that is not registered and arguments that are no JSON are
/// refused.
pub proof fn law_calls_reach_the_named_tool(
    registry: &ToolRegistry,
    name: &str,
    arguments: &str,
    r: Result<(u64, Json), RegistryError>,
)
    requires
        call_ensures(ToolRegistry::prepare_call, (registry, name, arguments), r),
    ensures
        r is Ok <==> has_key(registry@, name@) && parsed_json(arguments@) is Ok,
        r matches Ok((tool, json)) ==> lookup(registry@, name@) == Some(tool) && parsed_json(
            arguments@,
        ) == Ok::<JsonView, Seq<char>>(json@),
        !has_key(registry@, name@) ==> (r matches Err(e) && e@ == RegistryErrorView::NotFound(
            name@,
        )),
{
}

/// What is picked keeps its order: an item at the end is picked exactly when
/// its flag is the wanted one.
pub proof fn law_picking_keeps_the_order<A>(
    items: Seq<A>,
    flags: Seq<bool>,
    item: A,
    flag: bool,
    want: bool,
)
    requires
        items.len() == flags.len(),
    ensures
        pick(Seq::<A>::empty(), Seq::empty(), want) == Seq::<A>::empty(),
        pick(items.push(item), flags.push(flag), want) == if flag == want {
            pick(items, flags, want).push(item)
        } else {
            pick(items, flags, want)
        },
{
    assert(items.push(item).drop_last() =~= items);
    assert(flags.push(flag).drop_last() =~= flags);
}

/// Whether an entry of a registry is wanted, and whether a wanted name is
/// registered, goes by the names alone.
pub proof fn law_wanted_and_found(
    entries: Seq<(Seq<char>, u64)>,
    names: Seq<Seq<char>>,
    i: int,
)
    ensures
        wanted_flags(entries, names).len() == entries.len(),
        found_flags(entries, names).len() == names.len(),
        0 <= i < entries.len() ==> wanted_flags(entries, names)[i] == names.contains(entries[i].0),
        0 <= i < names.len() ==> found_flags(entries, names)[i] == exists|j: int|
            0 <= j < entries.len() && (#[trigger] entries[j]).0 == names[i],
{
}

/// A registry shows its tools in the order of their registration: a new name
/// goes to the end, a name that is taken keeps its place, and a removed one
/// leaves the others in order.
pub proof fn law_registries_keep_the_order(
    entries: Seq<(Seq<char>, u64)>,
    name: Seq<char>,
    tool: u64,
    at: int,
)
    requires
        distinct_keys(entries),
    ensures
        !has_key(entries, name) ==> put(entries, name, tool) == entries.push((name, tool))
            && without(entries, name) == entries,
        0 <= at < entries.len() && entries[at].0 == name ==> put(entries, name, tool)
            == entries.update(at, (name, tool)) && without(entries, name) == entries.take(at)
            + entries.skip(at + 1) && lookup(entries, name) == Some(entries[at].1),
        0 <= at < entries.len() ==> keys(entries)[at] == entries[at].0 && values(entries)[at]
            == entries[at].1,
        keys(entries).len() == entries.len() && values(entries).len() == entries.len(),
{
    if 0 <= at < entries.len() && entries[at].0 == name {
        crate::keyed::lemma_find(entries, at);
        assert(entries.remove(at) =~= entries.take(at) + entries.skip(at + 1));
    }
}

/// Names that are missing are told, one after the other.
pub proof fn law_missing_names_are_told(missing: &MissingTools, text: String)
    requires
        call_ensures(MissingTools::message, (missing,), text),
    ensures
        stand_in_order(missing@, text@),
{
    let head = "tools not found in registry: "@;
    lemma_joined(missing@, ", "@);
    lemma_order_within(missing@, head, join(missing@, ", "@), Seq::empty());
    assert(head + join(missing@, ", "@) + Seq::<char>::empty() =~= text@);
}

/// Joined parts stand in the text in order.
pub proof fn lemma_joined(parts: Seq<Seq<char>>, sep: Seq<char>)
    ensures
        stand_in_order(parts, join(parts, sep)),
    decreases parts.len(),
{
    if parts.len() == 1 {
        lemma_whole_stands(parts[0]);
        assert(parts =~= seq![parts[0]]);
    } else if parts.len() > 1 {
        let rest = parts.drop_last();
        lemma_joined(rest, sep);
        lemma_behind(parts.last(), sep);
        lemma_order_concat(rest, join(rest, sep), seq![parts.last()], sep + parts.last());
        assert(rest + seq![parts.last()] =~= parts);
        assert(join(rest, sep) + (sep + parts.last()) =~= join(parts, sep));
    }
}

proof fn lemma_picked(names: Seq<Seq<char>>, flags: Seq<bool>, name: Seq<char>)
    requires
        names.len() == flags.len(),
    ensures
        pick(names, flags, false).contains(name) <==> exists|i: int|
            0 <= i < names.len() && #[trigger] names[i] == name && !flags[i],
    decreases names.len(),
{
    let picked = pick(names, flags, false);
    if names.len() > 0 {
        let rest = names.drop_last();
        let earlier = pick(rest, flags.drop_last(), false);
        lemma_picked(rest, flags.drop_last(), name);
        if picked.contains(name) {
            let k = choose|k: int| 0 <= k < picked.len() && picked[k] == name;
            if k < earlier.len() {
                assert(earlier[k] == name);
                assert(earlier.contains(name));
                let i = choose|i: int|
                    0 <= i < rest.len() && #[trigger] rest[i] == name && !flags.drop_last()[i];
                assert(names[i] == name && !flags[i]);
            } else {
                assert(names[names.len() - 1] == name);
            }
        }
        if exists|i: int| 0 <= i < names.len() && #[trigger] names[i] == name && !flags[i] {
            let i = choose|i: int|
                0 <= i < names.len() && #[trigger] names[i] == name && !flags[i];
            if i < rest.len() {
                assert(rest[i] == name && !flags.drop_last()[i]);
                let k = choose|k: int| 0 <= k < earlier.len() && earlier[k] == name;
                assert(picked[k] == name);
            } else {
                assert(picked[picked.len() - 1] == name);
            }
        }
    }
}

/// A subset has the tools of the wanted names and no others, the same ones as
/// the whole registry; it is refused exactly when a wanted name is not
/// registered, and then the missing names are told.
#[verifier::rlimit(40)]
pub proof fn law_subsets_hold_what_is_wanted(
    registry: &ToolRegistry,
    names: &[&str],
    r: Result<ToolRegistry, MissingTools>,
    name: Seq<char>,
)
    requires
        distinct_keys(registry@),
        call_ensures(ToolRegistry::subset, (registry, names), r),
    ensures
        r matches Ok(sub) ==> if str_views(names@).contains(name) {
            has_key(registry@, name) && lookup(sub@, name) == lookup(registry@, name)
        } else {
            lookup(sub@, name) is None
        },
        r matches Err(missing) ==> (missing@.contains(name) <==> str_views(names@).contains(name)
            && !has_key(registry@, name)),
        r is Err <==> exists|i: int|
            0 <= i < names@.len() && !has_key(registry@, (#[trigger] names@[i])@),
{
    let wanted = str_views(names@);
    let found = found_flags(registry@, wanted);
    lemma_picked(wanted, found, name);
    law_subset_shares_tools(registry@, wanted, name);
    let missing = missing_names(registry@, wanted);
    if wanted.contains(name) {
        let i = choose|i: int| 0 <= i < wanted.len() && wanted[i] == name;
        if !has_key(registry@, name) {
            assert(!found[i]);
            assert(missing.contains(name));
        }
    }
    if missing.contains(name) {
        let i = choose|i: int| 0 <= i < wanted.len() && #[trigger] wanted[i] == name && !found[i];
        assert(wanted.contains(name));
    }
    if r is Err {
        lemma_picked(wanted, found, missing[0]);
        assert(missing.contains(missing[0]));
        let i = choose|i: int|
            0 <= i < wanted.len() && #[trigger] wanted[i] == missing[0] && !found[i];
        assert(!has_key(registry@, names@[i]@));
    }
    if exists|i: int| 0 <= i < names@.len() && !has_key(registry@, (#[trigger] names@[i])@) {
        let i = choose|i: int| 0 <= i < names@.len() && !has_key(registry@, (#[trigger] names@[i])@);
        lemma_picked(wanted, found, wanted[i]);
        assert(wanted[i] == names@[i]@ && !found[i]);
        assert(missing.contains(wanted[i]));
    }
}

proof fn lemma_picked_keys(
    entries: Seq<(Seq<char>, u64)>,
    flags: Seq<bool>,
    want: bool,
    name: Seq<char>,
)
    requires
        entries.len() == flags.len(),
    ensures
        has_key(pick(entries, flags, want), name) <==> exists|i: int|
            0 <= i < entries.len() && (#[trigger] entries[i]).0 == name && flags[i] == want,
        pick(keys(entries), flags, want) == keys(pick(entries, flags, want)),
    decreases entries.len(),
{
    let picked = pick(entries, flags, want);
    if entries.len() > 0 {
        let rest = entries.drop_last();
        let n = entries.len() - 1;
        let earlier = pick(rest, flags.drop_last(), want);
        lemma_picked_keys(rest, flags.drop_last(), want, name);
        assert(keys(entries).drop_last() =~= keys(rest));
        assert(pick(keys(entries), flags, want) =~= keys(picked));
        if has_key(picked, name) {
            let k = choose|k: int| 0 <= k < picked.len() && (#[trigger] picked[k]).0 == name;
            if k < earlier.len() {
                assert(earlier[k].0 == name);
                let i = choose|i: int|
                    0 <= i < rest.len() && (#[trigger] rest[i]).0 == name && flags.drop_last()[i]
                        == want;
                assert(entries[i].0 == name && flags[i] == want);
            } else {
                assert(entries[n].0 == name && flags[n] == want);
            }
        }
        if exists|i: int|
            0 <= i < entries.len() && (#[trigger] entries[i]).0 == name && flags[i] == want {
            let i = choose|i: int|
                0 <= i < entries.len() && (#[trigger] entries[i]).0 == name && flags[i] == want;
            if i < n {
                assert(rest[i].0 == name && flags.drop_last()[i] == want);
                let k = choose|k: int| 0 <= k < earlier.len() && (#[trigger] earlier[k]).0 == name;
                assert(picked[k].0 == name);
            } else {
                assert(picked[picked.len() - 1].0 == name);
            }
        }
    } else {
        assert(keys(entries) =~= Seq::empty());
        assert(keys(picked) =~= Seq::empty());
    }
}

/// Only names that are rejected leave a registry, and each of them is told; a
/// name that stays was not rejected.
#[verifier::rlimit(40)]
pub proof fn law_rejected_tools_leave<F: FnMut(&str) -> bool>(
    keep: F,
    removed: Vec<String>,
    name: Seq<char>,
)
    ensures
        forall|registry: &mut ToolRegistry|
            distinct_keys(registry@) && #[trigger] call_ensures(
                ToolRegistry::retain::<F>,
                (registry, keep),
                removed,
            ) ==> {
                &&& has_key(final(registry)@, name) ==> has_key(registry@, name) && may_answer(
                    keep,
                    name,
                    true,
                )
                &&& views(removed@).contains(name) ==> has_key(registry@, name) && may_answer(
                    keep,
                    name,
                    false,
                )
                &&& has_key(registry@, name) ==> has_key(final(registry)@, name) || views(
                    removed@,
                ).contains(name)
            },
{
    assert forall|registry: &mut ToolRegistry|
        distinct_keys(registry@) && #[trigger] call_ensures(
            ToolRegistry::retain::<F>,
            (registry, keep),
            removed,
        ) implies {
        &&& has_key(final(registry)@, name) ==> has_key(registry@, name) && may_answer(
            keep,
            name,
            true,
        )
        &&& views(removed@).contains(name) ==> has_key(registry@, name) && may_answer(
            keep,
            name,
            false,
        )
        &&& has_key(registry@, name) ==> has_key(final(registry)@, name) || views(
            removed@,
        ).contains(name)
    } by {
        let all = registry@;
        let flags = choose|flags: Seq<bool>| #[trigger]
            answered(keep, keys(all), flags) && final(registry)@ == pick(all, flags, true)
                && views(removed@) == pick(keys(all), flags, false);
        assert(answered(keep, keys(all), flags));
        lemma_picked_keys(all, flags, true, name);
        lemma_picked_keys(all, flags, false, name);
        let gone = pick(all, flags, false);
        if has_key(final(registry)@, name) {
            let i = choose|i: int|
                0 <= i < all.len() && (#[trigger] all[i]).0 == name && flags[i] == true;
            assert(keys(all)[i] == name);
            assert(may_answer(keep, keys(all)[i], flags[i]));
        }
        if views(removed@).contains(name) {
            let k = choose|k: int| 0 <= k < keys(gone).len() && keys(gone)[k] == name;
            assert(gone[k].0 == name);
            let i = choose|i: int|
                0 <= i < all.len() && (#[trigger] all[i]).0 == name && flags[i] == false;
            assert(keys(all)[i] == name);
            assert(may_answer(keep, keys(all)[i], flags[i]));
        }
        if has_key(all, name) {
            let i = choose|i: int| 0 <= i < all.len() && (#[trigger] all[i]).0 == name;
            if !flags[i] {
                let k = choose|k: int| 0 <= k < gone.len() && (#[trigger] gone[k]).0 == name;
                assert(keys(gone)[k] == name);
            }
        }
    }
}

} // verus!
