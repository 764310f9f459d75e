//! Environment-name completion: when the caret stands in the name group of
//! `\begin{...}` or `\end{...}`, every environment of every linked
//! component is offered.

use vstd::prelude::*;
use crate::completion::{
    component_linked, matches_kw_pub, CompletionBuilder, CompletionItem, CompletionItemKind,
    CompletionItemView, ComponentDb, ComponentView, CursorContext,
};
use crate::document::{brace_close_from, find_brace_close, matches_at, DocumentView};

verus! {

/// The name group of `\begin{`.
pub open spec fn kw_begin() -> Seq<char> {
    seq!['\\', 'b', 'e', 'g', 'i', 'n', '{']
}

/// The name group of `\end{`.
pub open spec fn kw_end() -> Seq<char> {
    seq!['\\', 'e', 'n', 'd', '{']
}

/// The environment-name group the caret stands in, scanning from `i`: the
/// span between the brace after the first `\begin{` or `\end{` whose group
/// encloses the caret, and that group's closing brace.
pub open spec fn env_range_from(s: Seq<char>, i: int, off: int) -> Option<(int, int)>
    decreases s.len() - i when 0 <= i <= s.len()
{
    if i >= s.len() {
        None
    } else if matches_at(s, i, kw_begin()) && brace_close_from(s, i + 7) < s.len() && i + 7 <= off
        <= brace_close_from(s, i + 7) {
        Some((i + 7, brace_close_from(s, i + 7)))
    } else if matches_at(s, i, kw_end()) && brace_close_from(s, i + 5) < s.len() && i + 5 <= off
        <= brace_close_from(s, i + 5) {
        Some((i + 5, brace_close_from(s, i + 5)))
    } else {
        env_range_from(s, i + 1, off)
    }
}

/// The environment-name group the caret stands in, if any.
pub open spec fn env_name_range(s: Seq<char>, off: int) -> Option<(int, int)> {
    env_range_from(s, 0, off)
}

/// Finds the environment-name group the caret stands in.
pub fn find_environment_name(context: &CursorContext) -> (r: Option<(usize, usize)>)
    ensures
        match r {
            Some(p) => env_name_range(context.text@, context.offset as int) == Some(
                (p.0 as int, p.1 as int),
            ),
            None => env_name_range(context.text@, context.offset as int) is None,
        },
{
    let text = &context.text;
    let off = context.offset;
    let kb = kw_begin_exec();
    let ke = kw_end_exec();
    let mut i: usize = 0;
    while i < text.len()
        invariant
            i <= text@.len(),
            kb@ == kw_begin(),
            ke@ == kw_end(),
            off == context.offset,
            env_name_range(context.text@, off as int) == env_range_from(
                context.text@,
                i as int,
                off as int,
            ),
            text == &context.text,
        decreases text.len() - i,
    {
        if matches_kw_pub(text, i, &kb) {
            let close = find_brace_close(text, i + 7);
            if close < text.len() && i + 7 <= off && off <= close {
                proof {
                    assert(crate::document::matches_at(context.text@, i as int, kw_begin()));
                    assert(env_range_from(context.text@, i as int, off as int) == Some(
                        ((i + 7) as int, close as int),
                    ));
                }
                return Some((i + 7, close));
            }
        } else if matches_kw_pub(text, i, &ke) {
            let close = find_brace_close(text, i + 5);
            if close < text.len() && i + 5 <= off && off <= close {
                proof {
                    assert(crate::document::matches_at(context.text@, i as int, kw_end()));
                    assert(env_range_from(context.text@, i as int, off as int) == Some(
                        ((i + 5) as int, close as int),
                    ));
                }
                return Some((i + 5, close));
            }
        }
        i = i + 1;
    }
    None
}

fn kw_begin_exec() -> (v: Vec<char>)
    ensures
        v@ == kw_begin(),
{
    let v = vec!['\\', 'b', 'e', 'g', 'i', 'n', '{'];
    proof {
        assert(v@ =~= kw_begin());
    }
    v
}

fn kw_end_exec() -> (v: Vec<char>)
    ensures
        v@ == kw_end(),
{
    let v = vec!['\\', 'e', 'n', 'd', '{'];
    proof {
        assert(v@ =~= kw_end());
    }
    v
}

/// The items one component's environments yield.
pub open spec fn env_items_of(envs: Seq<Seq<char>>, start: int, end: int) -> Seq<
    CompletionItemView,
> {
    envs.map_values(
        |e: Seq<char>|
            CompletionItemView { label: e, kind: CompletionItemKind::Environment, start, end },
    )
}

/// The items the linked components' environments yield, from `ci` on.
pub open spec fn env_items_from(
    comps: Seq<ComponentView>,
    docs: Seq<DocumentView>,
    ci: int,
    start: int,
    end: int,
) -> Seq<CompletionItemView>
    decreases comps.len() - ci when 0 <= ci <= comps.len()
{
    if ci >= comps.len() {
        Seq::empty()
    } else {
        let rest = env_items_from(comps, docs, ci + 1, start, end);
        if component_linked(comps[ci], docs) {
            env_items_of(comps[ci].environments, start, end) + rest
        } else {
            rest
        }
    }
}

/// Offers every environment of every linked component when the caret
/// stands in an environment-name group; otherwise offers nothing.
pub fn complete(context: &CursorContext, builder: &mut CompletionBuilder, db: &ComponentDb) -> (r:
    Option<()>)
    ensures
        match env_name_range(context.text@, context.offset as int) {
            Some(range) => r is Some && final(builder).items@.map_values(
                |it: CompletionItem| it@,
            ) == old(builder).items@.map_values(|it: CompletionItem| it@) + env_items_from(
                db@.components,
                context.project@.documents,
                0,
                range.0,
                range.1,
            ),
            None => r is None && final(builder).items@ == old(builder).items@,
        },
{
    let range = match find_environment_name(context) {
        Some(p) => p,
        None => {
            return None;
        },
    };
    let ghost comps = db@.components;
    let ghost docs = context.project@.documents;
    let ghost base = builder.items@.map_values(|it: CompletionItem| it@);
    let ghost start = range.0 as int;
    let ghost end = range.1 as int;
    let n = db.components.len();
    let mut ci: usize = 0;
    while ci < n
        invariant
            ci <= n,
            n == comps.len(),
            comps == db@.components,
            docs == context.project@.documents,
            start == range.0 as int,
            end == range.1 as int,
            env_name_range(context.text@, context.offset as int) == Some(
                (range.0 as int, range.1 as int),
            ),
            builder.items@.map_values(|it: CompletionItem| it@) + env_items_from(
                comps,
                docs,
                ci as int,
                start,
                end,
            ) == base + env_items_from(comps, docs, 0, start, end),
        decreases n - ci,
    {
        let comp = &db.components[ci];
        proof {
            assert(comp@ == comps[ci as int]);
        }
        let linked = comp.file_names.len() == 0 || crate::completion::component_referenced_exec(
            comp,
            &context.project,
        );
        if linked {
            let ghost before = builder.items@.map_values(|it: CompletionItem| it@);
            let ne = comp.environments.len();
            let mut k: usize = 0;
            while k < ne
                invariant
                    k <= ne,
                    ne == comps[ci as int].environments.len(),
                    ci < n,
                    n == comps.len(),
                    comps == db@.components,
                    comp == &db.components[ci as int],
                    start == range.0 as int,
                    end == range.1 as int,
                    builder.items@.map_values(|it: CompletionItem| it@) =~= before + env_items_of(
                        comps[ci as int].environments,
                        start,
                        end,
                    ).subrange(0, k as int),
                decreases ne - k,
            {
                let ghost pre = builder.items@.map_values(|it: CompletionItem| it@);
                builder.items.push(
                    CompletionItem {
                        label: comp.environments[k].clone(),
                        kind: CompletionItemKind::Environment,
                        start: range.0,
                        end: range.1,
                    },
                );
                proof {
                    assert(builder.items@.map_values(|it: CompletionItem| it@) =~= pre.push(
                        env_items_of(comps[ci as int].environments, start, end)[k as int],
                    ));
                    assert(pre.push(
                        env_items_of(comps[ci as int].environments, start, end)[k as int],
                    ) =~= before + env_items_of(comps[ci as int].environments, start, end).subrange(
                        0,
                        k + 1,
                    ));
                }
                k = k + 1;
            }
            proof {
                assert(env_items_of(comps[ci as int].environments, start, end).subrange(
                    0,
                    env_items_of(comps[ci as int].environments, start, end).len() as int,
                ) =~= env_items_of(comps[ci as int].environments, start, end));
                assert(component_linked(comps[ci as int], docs));
                assert(before + (env_items_of(comps[ci as int].environments, start, end)
                    + env_items_from(comps, docs, ci + 1, start, end)) =~= (before + env_items_of(
                    comps[ci as int].environments,
                    start,
                    end,
                )) + env_items_from(comps, docs, ci + 1, start, end));
            }
        } else {
            proof {
                assert(!component_linked(comps[ci as int], docs));
            }
        }
        ci = ci + 1;
    }
    proof {
        assert(env_items_from(comps, docs, n as int, start, end) =~= Seq::<
            CompletionItemView,
        >::empty());
        assert(builder.items@.map_values(|it: CompletionItem| it@) =~= builder.items@.map_values(
            |it: CompletionItem| it@,
        ) + env_items_from(comps, docs, n as int, start, end));
    }
    Some(())
}

} // verus!
