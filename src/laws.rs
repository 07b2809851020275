//! Properties that relate the extractor, the registry, the writer and the
//! untangler.

use vstd::prelude::*;
use crate::block::BlockView;
use crate::extract::{all_wf, extracted};
use crate::paths::{extension_of, joined_path, name_of, stem_of};
use crate::registry::{inverse, is_last_with_ext, keys_unique, lookup, resolve};
use crate::text::{is_last_index, last_index};
use crate::untangle::language_of_path;
use crate::writer::{action_for, apply_actions, plan, ActionView};

verus! {

/// The number of actions of `acts` that write or report a file.
pub open spec fn emitted_count(acts: Seq<ActionView>) -> nat
    decreases acts.len(),
{
    if acts.len() == 0 {
        0
    } else {
        emitted_count(acts.drop_last()) + match acts.last() {
            ActionView::Skip(_, _) => 0nat,
            _ => 1nat,
        }
    }
}

/// The number of actions of `acts` that skip a block.
pub open spec fn skipped_count(acts: Seq<ActionView>) -> nat
    decreases acts.len(),
{
    if acts.len() == 0 {
        0
    } else {
        skipped_count(acts.drop_last()) + match acts.last() {
            ActionView::Skip(_, _) => 1nat,
            _ => 0nat,
        }
    }
}

/// The number of blocks of `bs` that name a target.
pub open spec fn tangled_count(bs: Seq<BlockView>) -> nat
    decreases bs.len(),
{
    if bs.len() == 0 {
        0
    } else {
        tangled_count(bs.drop_last()) + if bs.last().tangle_path is Some { 1nat } else { 0nat }
    }
}

/// What an action becomes in a dry run: an append is reported instead.
pub open spec fn dry_counterpart(a: ActionView) -> ActionView {
    match a {
        ActionView::Append(p, c) => ActionView::Report(p, c.len()),
        _ => a,
    }
}

/// The plan of all but the last block is the plan without its last action.
pub proof fn lemma_plan_drop_last(
    bs: Seq<BlockView>,
    t: Seq<(Seq<char>, Seq<char>)>,
    root: Seq<char>,
    base: Seq<char>,
    by_language: bool,
    tangled: bool,
    dry_run: bool,
)
    requires
        bs.len() > 0,
    ensures
        plan(bs, t, root, base, by_language, tangled, dry_run).drop_last() == plan(bs.drop_last(), t, root, base, by_language, tangled, dry_run),
        plan(bs, t, root, base, by_language, tangled, dry_run).last() == action_for(
            bs.len() - 1,
            bs.last(),
            t,
            root,
            base,
            by_language,
            tangled,
            dry_run,
        ),
{
    assert(plan(bs, t, root, base, by_language, tangled, dry_run).drop_last() =~= plan(bs.drop_last(), t, root, base, by_language, tangled, dry_run));
}

/// Tangled-only mode writes (or in a dry run reports) exactly the blocks
/// that name a target, and skips each of the others.
pub proof fn lemma_tangled_only(
    bs: Seq<BlockView>,
    t: Seq<(Seq<char>, Seq<char>)>,
    root: Seq<char>,
    base: Seq<char>,
    by_language: bool,
    dry_run: bool,
)
    requires
        all_wf(bs),
    ensures
        emitted_count(plan(bs, t, root, base, by_language, true, dry_run)) == tangled_count(bs),
        skipped_count(plan(bs, t, root, base, by_language, true, dry_run)) + tangled_count(bs) == bs.len(),
    decreases bs.len(),
{
    if bs.len() > 0 {
        let d = bs.drop_last();
        assert(all_wf(d)) by {
            assert forall|i: int| 0 <= i < d.len() implies crate::block::block_wf(#[trigger] d[i]) by {
                assert(d[i] == bs[i]);
            }
        }
        lemma_tangled_only(d, t, root, base, by_language, dry_run);
        lemma_plan_drop_last(bs, t, root, base, by_language, true, dry_run);
        assert(bs[bs.len() - 1] == bs.last());
    }
}

/// A dry run changes no file, and reports one entry for each action of
/// the real run, with the same path and the content's length.
pub proof fn lemma_dry_run(
    bs: Seq<BlockView>,
    t: Seq<(Seq<char>, Seq<char>)>,
    root: Seq<char>,
    base: Seq<char>,
    by_language: bool,
    tangled: bool,
    files: Map<Seq<char>, Seq<char>>,
)
    ensures
        apply_actions(files, plan(bs, t, root, base, by_language, tangled, true)) == files,
        plan(bs, t, root, base, by_language, tangled, true).len() == plan(bs, t, root, base, by_language, tangled, false).len(),
        forall|i: int|
            0 <= i < bs.len() ==> #[trigger] plan(bs, t, root, base, by_language, tangled, true)[i] == dry_counterpart(
                plan(bs, t, root, base, by_language, tangled, false)[i],
            ),
    decreases bs.len(),
{
    if bs.len() > 0 {
        lemma_dry_run(bs.drop_last(), t, root, base, by_language, tangled, files);
        lemma_plan_drop_last(bs, t, root, base, by_language, tangled, true);
    }
}

/// Two blocks with one explicit target make one file: the first block's
/// content followed by the second's.
pub proof fn lemma_append_accumulates(
    b1: BlockView,
    b2: BlockView,
    t: Seq<(Seq<char>, Seq<char>)>,
    root: Seq<char>,
    base: Seq<char>,
    by_language: bool,
    tangled: bool,
    files: Map<Seq<char>, Seq<char>>,
)
    requires
        b1.language is Some,
        b2.language is Some,
        b1.tangle_path is Some,
        b2.tangle_path == b1.tangle_path,
        !files.contains_key(joined_path(root, b1.tangle_path->0)),
    ensures
        apply_actions(files, plan(seq![b1, b2], t, root, base, by_language, tangled, false)) == files.insert(
            joined_path(root, b1.tangle_path->0),
            b1.content + b2.content,
        ),
{
    let bs = seq![b1, b2];
    let p = joined_path(root, b1.tangle_path->0);
    let acts = plan(bs, t, root, base, by_language, tangled, false);
    assert(bs[0] == b1 && bs[1] == b2);
    assert(acts[0] == ActionView::Append(p, b1.content));
    assert(acts[1] == ActionView::Append(p, b2.content));
    assert(acts.drop_last().drop_last() =~= Seq::<ActionView>::empty());
    assert(acts.drop_last().last() == acts[0]);
    assert(acts.last() == acts[1]);
    let a1 = acts.drop_last();
    assert(apply_actions(files, a1.drop_last()) == files);
    assert(!files.contains_key(p));
    let f1 = apply_actions(files, a1);
    assert(f1 == files.insert(p, b1.content));
    assert(apply_actions(files, acts) =~= files.insert(p, b1.content + b2.content));
}

/// A block with an explicit target goes to that target under the output
/// root, whatever the base name.
pub proof fn lemma_explicit_target(
    i: int,
    b: BlockView,
    t: Seq<(Seq<char>, Seq<char>)>,
    root: Seq<char>,
    base: Seq<char>,
    by_language: bool,
    tangled: bool,
)
    requires
        b.language is Some,
        b.tangle_path is Some,
    ensures
        action_for(i, b, t, root, base, by_language, tangled, false) == ActionView::Append(
            joined_path(root, b.tangle_path->0),
            b.content,
        ),
        action_for(i, b, t, root, base, by_language, tangled, true) == ActionView::Report(
            joined_path(root, b.tangle_path->0),
            b.content.len(),
        ),
{
}

/// In a registry with unique identifiers, the language found for an
/// extension maps back to that extension.
pub proof fn lemma_inverse_resolves(t: Seq<(Seq<char>, Seq<char>)>, ext: Seq<char>)
    requires
        keys_unique(t),
        inverse(t, ext) is Some,
    ensures
        lookup(t, inverse(t, ext)->0) == Some(ext),
        resolve(t, inverse(t, ext)->0) == ext,
{
    let i = choose|i: int| is_last_with_ext(t, ext, i);
    let l = t[i].0;
    assert(0 <= i < t.len() && t[i].0 == l);
    let k = choose|k: int| 0 <= k < t.len() && t[k].0 == l;
    assert(t[k].0 == t[i].0);
    assert(k == i);
}

/// Untangling a file whose extension the registry knows, then tangling the
/// block it holds, with the file's stem as base name and no explicit
/// target, writes the file's content to a file of the same name under the
/// output root.
pub proof fn lemma_round_trip(
    t: Seq<(Seq<char>, Seq<char>)>,
    p: Seq<char>,
    content: Seq<char>,
    root: Seq<char>,
)
    requires
        keys_unique(t),
        extension_of(name_of(p)) is Some,
        inverse(t, extension_of(name_of(p))->0) is Some,
    ensures
        ({
            let block = BlockView {
                language: Some(language_of_path(t, p)),
                content,
                tangle_path: None,
            };
            plan(seq![block], t, root, stem_of(name_of(p)), false, false, false) == seq![
                ActionView::Append(joined_path(root, name_of(p)), content),
            ]
        }),
{
    let name = name_of(p);
    let e = extension_of(name)->0;
    lemma_inverse_resolves(t, e);
    let i = last_index(name, '.')->0;
    assert(is_last_index(name, '.', i)) by {
        assert(exists|k: int| is_last_index(name, '.', k));
    }
    assert(name.take(i) + "."@ + name.skip(i + 1) =~= name) by {
        reveal_strlit(".");
    }
    let block = BlockView { language: Some(language_of_path(t, p)), content, tangle_path: None };
    let bs = seq![block];
    assert(bs[0] == block);
    assert(plan(bs, t, root, stem_of(name), false, false, false) =~= seq![
        ActionView::Append(joined_path(root, name), content),
    ]);
}

/// Extraction depends on the document's text alone: extracting the same
/// text again gives the same blocks.
pub proof fn lemma_extract_repeatable(d1: Seq<char>, d2: Seq<char>)
    requires
        d1 == d2,
    ensures
        extracted(d1) == extracted(d2),
{
}

} // verus!
