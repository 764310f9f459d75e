//! Command-argument completion: when the caret stands in a brace group of
//! a known command, the arguments the matching parameter offers are
//! completed.

use vstd::prelude::*;
use crate::completion::{
    component_linked, CompletionBuilder, CompletionItem, CompletionItemKind, CompletionItemView,
    ComponentDb, ComponentView, CursorContext,
};
use crate::document::DocumentView;
use crate::uri::is_letter;

verus! {

/// The opening brace of the innermost group the position stands in,
/// scanning left from `j` with `depth` closed groups pending; -1 when
/// there is none.
pub open spec fn group_open_from(s: Seq<char>, j: int, depth: int) -> int
    decreases j + 1 when -1 <= j < s.len()
{
    if j < 0 {
        -1
    } else if s[j] == '{' {
        if depth == 0 {
            j
        } else {
            group_open_from(s, j - 1, depth - 1)
        }
    } else if s[j] == '}' {
        group_open_from(s, j - 1, depth + 1)
    } else {
        group_open_from(s, j - 1, depth)
    }
}

pub proof fn lemma_group_open_bounds(s: Seq<char>, j: int, depth: int)
    requires
        -1 <= j < s.len(),
    ensures
        -1 <= group_open_from(s, j, depth) <= j,
    decreases j + 1,
{
    if j >= 0 {
        if s[j] == '{' {
            if depth != 0 {
                lemma_group_open_bounds(s, j - 1, depth - 1);
            }
        } else if s[j] == '}' {
            lemma_group_open_bounds(s, j - 1, depth + 1);
        } else {
            lemma_group_open_bounds(s, j - 1, depth);
        }
    }
}

/// Walks left over the chain of closed brace groups that stand directly
/// before position `j`, and returns where the chain starts and how many
/// groups it holds: the group the caret is in has that index among its
/// command's groups.
pub open spec fn group_chain(s: Seq<char>, j: int) -> (int, int)
    decreases j when 0 <= j <= s.len() via group_chain_decreases
{
    if j > 0 && j - 1 < s.len() && s[j - 1] == '}' {
        let o = group_open_from(s, j - 2, 0);
        if o >= 0 {
            let rec = group_chain(s, o);
            (rec.0, rec.1 + 1)
        } else {
            (j, 0)
        }
    } else {
        (j, 0)
    }
}

#[via_fn]
proof fn group_chain_decreases(s: Seq<char>, j: int) {
    if 0 <= j <= s.len() && j > 0 && j - 1 < s.len() && s[j - 1] == '}' {
        if j - 2 >= 0 {
            lemma_group_open_bounds(s, j - 2, 0);
        }
    }
}

/// The start of the run of ASCII letters ending just before `j`.
pub open spec fn letters_start(s: Seq<char>, j: int) -> int
    decreases j when 0 <= j <= s.len()
{
    if j > 0 && is_letter(s[j - 1]) {
        letters_start(s, j - 1)
    } else {
        j
    }
}

pub proof fn lemma_letters_start_bounds(s: Seq<char>, j: int)
    requires
        0 <= j <= s.len(),
    ensures
        0 <= letters_start(s, j) <= j,
    decreases j,
{
    if j > 0 && is_letter(s[j - 1]) {
        lemma_letters_start_bounds(s, j - 1);
    }
}

/// The end of the run of ASCII letters starting at `j`.
pub open spec fn letters_end(s: Seq<char>, j: int) -> int
    decreases s.len() - j when 0 <= j <= s.len()
{
    if j < s.len() && is_letter(s[j]) {
        letters_end(s, j + 1)
    } else {
        j
    }
}

pub proof fn lemma_letters_end_bounds(s: Seq<char>, j: int)
    requires
        0 <= j <= s.len(),
    ensures
        j <= letters_end(s, j) <= s.len(),
    decreases s.len() - j,
{
    if j < s.len() && is_letter(s[j]) {
        lemma_letters_end_bounds(s, j + 1);
    }
}

/// Where the caret's command argument stands: the command's name, which of
/// its groups the caret is in, and the word around the caret that an item
/// replaces.
pub ghost struct ArgumentLocation {
    pub name: Seq<char>,
    pub index: int,
    pub start: int,
    pub end: int,
}

/// Locates the caret's command argument: the innermost group around the
/// caret, the chain of groups before it, and the backslash command whose
/// name ends where that chain starts.
pub open spec fn locate_argument(s: Seq<char>, off: int) -> Option<ArgumentLocation> {
    if 0 < off <= s.len() {
        let g = group_open_from(s, off - 1, 0);
        if g >= 0 {
            let chain = group_chain(s, g);
            let ls = letters_start(s, chain.0);
            if ls > 0 && ls < chain.0 && s[ls - 1] == '\\' {
                Some(
                    ArgumentLocation {
                        name: s.subrange(ls, chain.0),
                        index: chain.1,
                        start: letters_start(s, off),
                        end: letters_end(s, off),
                    },
                )
            } else {
                None
            }
        } else {
            None
        }
    } else {
        None
    }
}

fn group_open_exec(text: &Vec<char>, j0: usize) -> (r: Option<usize>)
    requires
        j0 < text@.len(),
    ensures
        match r {
            Some(g) => group_open_from(text@, j0 as int, 0) == g as int && g < text@.len(),
            None => group_open_from(text@, j0 as int, 0) == -1,
        },
{
    let ghost s = text@;
    let mut j: usize = j0;
    let mut depth: usize = 0;
    loop
        invariant
            j <= j0 < s.len(),
            depth <= j0 - j,
            s == text@,
            group_open_from(s, j0 as int, 0) == group_open_from(s, j as int, depth as int),
        decreases j + 1,
    {
        let c = text[j];
        if c == '{' && depth == 0 {
            return Some(j);
        }
        if j == 0 {
            proof {
                reveal_with_fuel(group_open_from, 2);
                assert(group_open_from(s, 0, depth as int) == -1);
            }
            return None;
        }
        if c == '{' {
            depth = depth - 1;
        } else if c == '}' {
            depth = depth + 1;
        }
        j = j - 1;
    }
}

fn letters_start_exec(text: &Vec<char>, j0: usize) -> (r: usize)
    requires
        j0 <= text@.len(),
    ensures
        r as int == letters_start(text@, j0 as int),
        r <= j0,
{
    let mut j: usize = j0;
    while j > 0 && crate::uri::is_letter_exec(text[j - 1])
        invariant
            j <= j0 <= text@.len(),
            letters_start(text@, j0 as int) == letters_start(text@, j as int),
        decreases j,
    {
        j = j - 1;
    }
    j
}

fn letters_end_exec(text: &Vec<char>, j0: usize) -> (r: usize)
    requires
        j0 <= text@.len(),
    ensures
        r as int == letters_end(text@, j0 as int),
        j0 <= r <= text@.len(),
{
    let mut j: usize = j0;
    while j < text.len() && crate::uri::is_letter_exec(text[j])
        invariant
            j0 <= j <= text@.len(),
            letters_end(text@, j0 as int) == letters_end(text@, j as int),
        decreases text.len() - j,
    {
        j = j + 1;
    }
    j
}

/// The items one linked component yields for the command `name` at group
/// `index`: the arguments of the matching parameter of every command of
/// that name.
/// The items one parameter's arguments yield.
pub open spec fn param_items(
    args: Seq<crate::completion::ComponentArgView>,
    start: int,
    end: int,
) -> Seq<CompletionItemView> {
    args.map_values(
        |a: crate::completion::ComponentArgView|
            CompletionItemView { label: a.name, kind: CompletionItemKind::Argument, start, end },
    )
}

pub open spec fn arg_items_of_component(
    c: ComponentView,
    name: Seq<char>,
    index: int,
    start: int,
    end: int,
    mi: int,
) -> Seq<CompletionItemView>
    decreases c.commands.len() - mi when 0 <= mi <= c.commands.len()
{
    if mi >= c.commands.len() {
        Seq::empty()
    } else {
        let rest = arg_items_of_component(c, name, index, start, end, mi + 1);
        if c.commands[mi].name == name && 0 <= index < c.commands[mi].parameters.len() {
            param_items(c.commands[mi].parameters[index].args, start, end) + rest
        } else {
            rest
        }
    }
}

/// The items the linked components yield for a located argument.
pub open spec fn arg_items_from(
    comps: Seq<ComponentView>,
    docs: Seq<DocumentView>,
    ci: int,
    name: Seq<char>,
    index: int,
    start: int,
    end: int,
) -> Seq<CompletionItemView>
    decreases comps.len() - ci when 0 <= ci <= comps.len()
{
    if ci >= comps.len() {
        Seq::empty()
    } else {
        let rest = arg_items_from(comps, docs, ci + 1, name, index, start, end);
        if component_linked(comps[ci], docs) {
            arg_items_of_component(comps[ci], name, index, start, end, 0) + rest
        } else {
            rest
        }
    }
}

/// Offers the arguments the linked components' commands take at the
/// caret's brace group; a caret outside such a group offers nothing.
pub fn complete(context: &CursorContext, builder: &mut CompletionBuilder, db: &ComponentDb) -> (r:
    Option<()>)
    ensures
        match locate_argument(context.text@, context.offset as int) {
            Some(loc) => r is Some && final(builder).items@.map_values(
                |it: CompletionItem| it@,
            ) == old(builder).items@.map_values(|it: CompletionItem| it@) + arg_items_from(
                db@.components,
                context.project@.documents,
                0,
                loc.name,
                loc.index,
                loc.start,
                loc.end,
            ),
            None => r is None && final(builder).items@ == old(builder).items@,
        },
{
    let text = &context.text;
    let off = context.offset;
    if off == 0 || off > text.len() {
        return None;
    }
    let g = match group_open_exec(text, off - 1) {
        Some(g) => g,
        None => {
            return None;
        },
    };
    // Walk the chain of closed groups before the caret's group.
    let mut chain_start: usize = g;
    let mut index: usize = 0;
    loop
        invariant
            chain_start <= g < text@.len(),
            index <= g - chain_start,
            group_chain(text@, g as int) == (
                group_chain(text@, chain_start as int).0,
                group_chain(text@, chain_start as int).1 + index,
            ),
        ensures
            chain_start <= g,
            index <= g,
            group_chain(text@, g as int) == (chain_start as int, index as int),
        decreases chain_start,
    {
        if chain_start > 0 && text[chain_start - 1] == '}' {
            if chain_start >= 2 {
                match group_open_exec(text, chain_start - 2) {
                    Some(o) => {
                        proof {
                            lemma_group_open_bounds(text@, chain_start - 2, 0);
                        }
                        chain_start = o;
                        index = index + 1;
                        continue ;
                    },
                    None => {
                        break ;
                    },
                }
            } else {
                proof {
                    assert(group_open_from(text@, chain_start - 2, 0) == -1);
                }
                break ;
            }
        } else {
            break ;
        }
    }
    let ls = letters_start_exec(text, chain_start);
    if !(ls > 0 && ls < chain_start && text[ls - 1] == '\\') {
        return None;
    }
    let name = crate::document::copy_range(text, ls, chain_start);
    let start = letters_start_exec(text, off);
    let end = letters_end_exec(text, off);
    proof {
        lemma_letters_end_bounds(text@, off as int);
    }

    proof {
        assert(group_chain(text@, chain_start as int) == (chain_start as int, 0int));
        assert(locate_argument(context.text@, context.offset as int) == Some(
            ArgumentLocation {
                name: text@.subrange(ls as int, chain_start as int),
                index: index as int,
                start: letters_start(text@, off as int),
                end: letters_end(text@, off as int),
            },
        ));
    }
    let ghost comps = db@.components;
    let ghost docs = context.project@.documents;
    let ghost loc = locate_argument(context.text@, context.offset as int)->Some_0;
    let n = db.components.len();
    let mut ci: usize = 0;
    while ci < n
        invariant
            ci <= n,
            n == comps.len(),
            comps == db@.components,
            docs == context.project@.documents,
            loc == (ArgumentLocation {
                name: name@,
                index: index as int,
                start: start as int,
                end: end as int,
            }),
            locate_argument(context.text@, context.offset as int) == Some(loc),
            builder.items@.map_values(|it: CompletionItem| it@) + arg_items_from(
                comps,
                docs,
                ci as int,
                name@,
                index as int,
                start as int,
                end as int,
            ) == old(builder).items@.map_values(|it: CompletionItem| it@) + arg_items_from(
                comps,
                docs,
                0,
                name@,
                index as int,
                start as int,
                end as int,
            ),
        decreases n - ci,
    {
        let comp = &db.components[ci];
        proof {
            assert(comp@ == comps[ci as int]);
        }
        let linked = comp.file_names.len() == 0 || crate::completion::component_referenced_exec(
            comp,
            &context.project,
        );
        if linked {
            let ghost before = builder.items@.map_values(|it: CompletionItem| it@);
            let nm = comp.commands.len();
            let mut mi: usize = 0;
            while mi < nm
                invariant
                    mi <= nm,
                    nm == comps[ci as int].commands.len(),
                    ci < n,
                    n == comps.len(),
                    comps == db@.components,
                    comp == &db.components[ci as int],
                    builder.items@.map_values(|it: CompletionItem| it@) + arg_items_of_component(
                        comps[ci as int],
                        name@,
                        index as int,
                        start as int,
                        end as int,
                        mi as int,
                    ) == before + arg_items_of_component(
                        comps[ci as int],
                        name@,
                        index as int,
                        start as int,
                        end as int,
                        0,
                    ),
                decreases nm - mi,
            {
                let cmd = &comp.commands[mi];
                proof {
                    assert(cmd@ == comps[ci as int].commands[mi as int]);
                }
                if crate::uri::chars_eq(&cmd.name, &name) && index < cmd.parameters.len() {
                    let param = &cmd.parameters[index];
                    proof {
                        assert(param@ == comps[ci as int].commands[mi as int].parameters[index as int]);
                    }
                    let ghost pbefore = builder.items@.map_values(|it: CompletionItem| it@);
                    let ghost aseq = comps[ci as int].commands[mi as int].parameters[index as int].args;
                    let na = param.args.len();
                    let mut ai: usize = 0;
                    while ai < na
                        invariant
                            ai <= na,
                            ci < n,
                            mi < nm,
                            index < cmd.parameters@.len(),
                            param == &cmd.parameters[index as int],
                            aseq == comps[ci as int].commands[mi as int].parameters[index as int].args,
                            aseq == param@.args,
                            comps == db@.components,
                            comp == &db.components[ci as int],
                            cmd == &comp.commands[mi as int],
                            na == param.args@.len(),
                            na == aseq.len(),
                            builder.items@.map_values(|it: CompletionItem| it@) =~= pbefore
                                + param_items(aseq, start as int, end as int).subrange(
                                0,
                                ai as int,
                            ),
                        decreases na - ai,
                    {
                        let ghost pre = builder.items@.map_values(|it: CompletionItem| it@);
                        builder.items.push(
                            CompletionItem {
                                label: param.args[ai].name.clone(),
                                kind: CompletionItemKind::Argument,
                                start,
                                end,
                            },
                        );
                        proof {
                            assert(aseq[ai as int] == param.args@[ai as int]@);
                            assert(param_items(aseq, start as int, end as int)[ai as int]
                                == (CompletionItemView {
                                label: param.args@[ai as int]@.name,
                                kind: CompletionItemKind::Argument,
                                start: start as int,
                                end: end as int,
                            }));
                            assert(builder.items@.map_values(|it: CompletionItem| it@)
                                =~= pre.push(
                                param_items(aseq, start as int, end as int)[ai as int],
                            ));
                            assert(pre.push(param_items(aseq, start as int, end as int)[ai as int])
                                =~= pbefore + param_items(aseq, start as int, end as int).subrange(
                                0,
                                ai + 1,
                            ));
                        }
                        ai = ai + 1;
                    }
                    let ghost amap = param_items(aseq, start as int, end as int);
                    proof {
                        assert(amap.subrange(0, amap.len() as int) =~= amap);
                        assert((pbefore + amap) + arg_items_of_component(
                            comps[ci as int],
                            name@,
                            index as int,
                            start as int,
                            end as int,
                            mi + 1,
                        ) =~= pbefore + (amap + arg_items_of_component(
                            comps[ci as int],
                            name@,
                            index as int,
                            start as int,
                            end as int,
                            mi + 1,
                        )));
                    }
                }
                mi = mi + 1;
            }
            proof {
                assert(arg_items_of_component(
                    comps[ci as int],
                    name@,
                    index as int,
                    start as int,
                    end as int,
                    nm as int,
                ) =~= Seq::<CompletionItemView>::empty());
                assert(component_linked(comps[ci as int], docs));
                assert(builder.items@.map_values(|it: CompletionItem| it@) + Seq::<
                    CompletionItemView,
                >::empty() =~= builder.items@.map_values(|it: CompletionItem| it@));
                assert((before + arg_items_of_component(
                    comps[ci as int],
                    name@,
                    index as int,
                    start as int,
                    end as int,
                    0,
                )) + arg_items_from(comps, docs, ci + 1, name@, index as int, start as int, end as int)
                    =~= before + (arg_items_of_component(
                    comps[ci as int],
                    name@,
                    index as int,
                    start as int,
                    end as int,
                    0,
                ) + arg_items_from(comps, docs, ci + 1, name@, index as int, start as int, end as int)));
            }
        } else {
            proof {
                assert(!component_linked(comps[ci as int], docs));
            }
        }
        ci = ci + 1;
    }
    proof {
        assert(arg_items_from(comps, docs, n as int, name@, index as int, start as int, end as int)
            =~= Seq::<CompletionItemView>::empty());
        assert(builder.items@.map_values(|it: CompletionItem| it@) =~= builder.items@.map_values(
            |it: CompletionItem| it@,
        ) + arg_items_from(comps, docs, n as int, name@, index as int, start as int, end as int));
    }
    Some(())
}

} // verus!
