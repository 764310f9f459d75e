//! Command-name completion: while a command is being typed, the names of
//! the linked components' commands that extend it are offered, each label
//! carrying its backslash.

use vstd::prelude::*;
use crate::completion::{
    component_linked, CompletionBuilder, CompletionItem, CompletionItemKind, CompletionItemView,
    ComponentDb, ComponentView, CursorContext,
};
use crate::completion::argument::{letters_end, letters_start, lemma_letters_end_bounds};
use crate::document::DocumentView;

verus! {

/// True when `p` is a prefix of `w`.
pub open spec fn is_prefix(p: Seq<char>, w: Seq<char>) -> bool {
    p.len() <= w.len() && w.subrange(0, p.len() as int) == p
}

/// True when `p` is a prefix of `w`.
pub fn is_prefix_exec(p: &Vec<char>, w: &Vec<char>) -> (r: bool)
    ensures
        r == is_prefix(p@, w@),
{
    if p.len() > w.len() {
        return false;
    }
    let r = crate::text::ranges_eq(w, 0, p.len(), p, 0, p.len());
    proof {
        assert(p@.subrange(0, p@.len() as int) =~= p@);
    }
    r
}

/// Where a command name is being typed: the caret stands in a run of
/// letters directly after a backslash; the partial name is the word's
/// prefix up to the caret, and an item replaces the whole word and its
/// backslash.
pub ghost struct CommandLocation {
    pub prefix: Seq<char>,
    pub start: int,
    pub end: int,
}

/// Locates the command name being typed at the caret, if any.
pub open spec fn locate_command(s: Seq<char>, off: int) -> Option<CommandLocation> {
    if 0 <= off <= s.len() {
        let ls = letters_start(s, off);
        if ls > 0 && s[ls - 1] == '\\' {
            Some(
                CommandLocation {
                    prefix: s.subrange(ls, off),
                    start: ls - 1,
                    end: letters_end(s, off),
                },
            )
        } else {
            None
        }
    } else {
        None
    }
}

/// The items one component's commands yield for a typed prefix: each
/// command name the prefix extends, labelled with its backslash.
pub open spec fn cmd_items_of(
    c: ComponentView,
    prefix: Seq<char>,
    start: int,
    end: int,
    mi: int,
) -> Seq<CompletionItemView>
    decreases c.commands.len() - mi when 0 <= mi <= c.commands.len()
{
    if mi >= c.commands.len() {
        Seq::empty()
    } else {
        let rest = cmd_items_of(c, prefix, start, end, mi + 1);
        if is_prefix(prefix, c.commands[mi].name) {
            seq![
                CompletionItemView {
                    label: seq!['\\'] + c.commands[mi].name,
                    kind: CompletionItemKind::CommandName,
                    start,
                    end,
                },
            ] + rest
        } else {
            rest
        }
    }
}

/// The items the linked components' commands yield for a typed prefix.
pub open spec fn cmd_items_from(
    comps: Seq<ComponentView>,
    docs: Seq<DocumentView>,
    ci: int,
    prefix: Seq<char>,
    start: int,
    end: int,
) -> Seq<CompletionItemView>
    decreases comps.len() - ci when 0 <= ci <= comps.len()
{
    if ci >= comps.len() {
        Seq::empty()
    } else {
        let rest = cmd_items_from(comps, docs, ci + 1, prefix, start, end);
        if component_linked(comps[ci], docs) {
            cmd_items_of(comps[ci], prefix, start, end, 0) + rest
        } else {
            rest
        }
    }
}

fn letters_start_exec(text: &Vec<char>, j0: usize) -> (r: usize)
    requires
        j0 <= text@.len(),
    ensures
        r as int == letters_start(text@, j0 as int),
        r <= j0,
{
    let mut j: usize = j0;
    while j > 0 && crate::uri::is_letter_exec(text[j - 1])
        invariant
            j <= j0 <= text@.len(),
            letters_start(text@, j0 as int) == letters_start(text@, j as int),
        decreases j,
    {
        j = j - 1;
    }
    j
}

fn letters_end_exec(text: &Vec<char>, j0: usize) -> (r: usize)
    requires
        j0 <= text@.len(),
    ensures
        r as int == letters_end(text@, j0 as int),
        j0 <= r <= text@.len(),
{
    let mut j: usize = j0;
    while j < text.len() && crate::uri::is_letter_exec(text[j])
        invariant
            j0 <= j <= text@.len(),
            letters_end(text@, j0 as int) == letters_end(text@, j as int),
        decreases text.len() - j,
    {
        j = j + 1;
    }
    j
}

/// Offers the linked components' command names that extend the name being
/// typed at the caret; a caret not in a command name offers nothing.
pub fn complete(context: &CursorContext, builder: &mut CompletionBuilder, db: &ComponentDb) -> (r:
    Option<()>)
    ensures
        match locate_command(context.text@, context.offset as int) {
            Some(loc) => r is Some && final(builder).items@.map_values(
                |it: CompletionItem| it@,
            ) == old(builder).items@.map_values(|it: CompletionItem| it@) + cmd_items_from(
                db@.components,
                context.project@.documents,
                0,
                loc.prefix,
                loc.start,
                loc.end,
            ),
            None => r is None && final(builder).items@ == old(builder).items@,
        },
{
    let text = &context.text;
    let off = context.offset;
    if off > text.len() {
        return None;
    }
    let ls = letters_start_exec(text, off);
    if !(ls > 0 && text[ls - 1] == '\\') {
        return None;
    }
    let prefix = crate::document::copy_range(text, ls, off);
    let start = ls - 1;
    let end = letters_end_exec(text, off);
    proof {
        lemma_letters_end_bounds(text@, off as int);
    }
    let ghost comps = db@.components;
    let ghost docs = context.project@.documents;
    let ghost loc = locate_command(context.text@, context.offset as int)->Some_0;
    proof {
        assert(locate_command(context.text@, context.offset as int) == Some(
            CommandLocation { prefix: prefix@, start: start as int, end: end as int },
        ));
    }
    let n = db.components.len();
    let mut ci: usize = 0;
    while ci < n
        invariant
            ci <= n,
            n == comps.len(),
            comps == db@.components,
            docs == context.project@.documents,
            loc == (CommandLocation { prefix: prefix@, start: start as int, end: end as int }),
            locate_command(context.text@, context.offset as int) == Some(loc),
            builder.items@.map_values(|it: CompletionItem| it@) + cmd_items_from(
                comps,
                docs,
                ci as int,
                prefix@,
                start as int,
                end as int,
            ) == old(builder).items@.map_values(|it: CompletionItem| it@) + cmd_items_from(
                comps,
                docs,
                0,
                prefix@,
                start as int,
                end as int,
            ),
        decreases n - ci,
    {
        let comp = &db.components[ci];
        proof {
            assert(comp@ == comps[ci as int]);
        }
        let linked = comp.file_names.len() == 0 || crate::completion::component_referenced_exec(
            comp,
            &context.project,
        );
        if linked {
            let ghost before = builder.items@.map_values(|it: CompletionItem| it@);
            let nm = comp.commands.len();
            let mut mi: usize = 0;
            while mi < nm
                invariant
                    mi <= nm,
                    nm == comps[ci as int].commands.len(),
                    ci < n,
                    n == comps.len(),
                    comps == db@.components,
                    comp == &db.components[ci as int],
                    builder.items@.map_values(|it: CompletionItem| it@) + cmd_items_of(
                        comps[ci as int],
                        prefix@,
                        start as int,
                        end as int,
                        mi as int,
                    ) == before + cmd_items_of(
                        comps[ci as int],
                        prefix@,
                        start as int,
                        end as int,
                        0,
                    ),
                decreases nm - mi,
            {
                let cmd = &comp.commands[mi];
                proof {
                    assert(cmd@ == comps[ci as int].commands[mi as int]);
                }
                if is_prefix_exec(&prefix, &cmd.name) {
                    let ghost pre = builder.items@.map_values(|it: CompletionItem| it@);
                    let mut label: Vec<char> = Vec::new();
                    label.push('\\');
                    let mut li: usize = 0;
                    while li < cmd.name.len()
                        invariant
                            li <= cmd.name@.len(),
                            label@.len() == 1 + li,
                            label@[0] == '\\',
                            forall|m: int| 0 <= m < li ==> label@[1 + m] == cmd.name@[m],
                        decreases cmd.name.len() - li,
                    {
                        label.push(cmd.name[li]);
                        li = li + 1;
                    }
                    proof {
                        assert(label@ =~= seq!['\\'] + comps[ci as int].commands[mi as int].name);
                    }
                    builder.items.push(
                        CompletionItem {
                            label,
                            kind: CompletionItemKind::CommandName,
                            start,
                            end,
                        },
                    );
                    proof {
                        assert(builder.items@.map_values(|it: CompletionItem| it@) =~= pre.push(
                            CompletionItemView {
                                label: seq!['\\'] + comps[ci as int].commands[mi as int].name,
                                kind: CompletionItemKind::CommandName,
                                start: start as int,
                                end: end as int,
                            },
                        ));
                        assert((pre.push(
                            CompletionItemView {
                                label: seq!['\\'] + comps[ci as int].commands[mi as int].name,
                                kind: CompletionItemKind::CommandName,
                                start: start as int,
                                end: end as int,
                            },
                        )) + cmd_items_of(
                            comps[ci as int],
                            prefix@,
                            start as int,
                            end as int,
                            mi + 1,
                        ) =~= pre + cmd_items_of(
                            comps[ci as int],
                            prefix@,
                            start as int,
                            end as int,
                            mi as int,
                        ));
                    }
                }
                mi = mi + 1;
            }
            proof {
                assert(cmd_items_of(comps[ci as int], prefix@, start as int, end as int, nm as int)
                    =~= Seq::<CompletionItemView>::empty());
                assert(component_linked(comps[ci as int], docs));
                assert((before + cmd_items_of(
                    comps[ci as int],
                    prefix@,
                    start as int,
                    end as int,
                    0,
                )) + cmd_items_from(comps, docs, ci + 1, prefix@, start as int, end as int)
                    =~= before + (cmd_items_of(comps[ci as int], prefix@, start as int, end as int, 0)
                    + cmd_items_from(comps, docs, ci + 1, prefix@, start as int, end as int)));
            }
        } else {
            proof {
                assert(!component_linked(comps[ci as int], docs));
            }
        }
        ci = ci + 1;
    }
    proof {
        assert(cmd_items_from(comps, docs, n as int, prefix@, start as int, end as int) =~= Seq::<
            CompletionItemView,
        >::empty());
        assert(builder.items@.map_values(|it: CompletionItem| it@) =~= builder.items@.map_values(
            |it: CompletionItem| it@,
        ) + cmd_items_from(comps, docs, n as int, prefix@, start as int, end as int));
    }
    Some(())
}

} // verus!
