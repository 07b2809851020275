//! The tangle writer's decisions: for each block, skip it or write its
//! content to a path under the output root.

use vstd::prelude::*;
use vstd::string::*;
use crate::block::{block_views, BlockView, CodeBlock};
use crate::config::Config;
use crate::paths::{file_stem, join_path, joined_path, path_stem};
use crate::registry::{resolve, LanguageRegistry};
use crate::text::concat;

verus! {

/// Why a block is not written.
#[derive(Clone, Copy, Debug, PartialEq, Eq, Structural)]
pub enum SkipReason {
    /// Tangled-only mode is on and the block names no target.
    NotTangled,
    /// The block has no language.
    NoLanguage,
}

/// What the writer does with one block.
#[derive(Debug, PartialEq, Eq)]
pub enum WriteAction {
    /// Append `content` to the file at `path`, creating it and its parent
    /// directories where missing.
    Append { path: String, content: String },
    /// Dry run: report that `length` characters would go to `path`.
    Report { path: String, length: usize },
    /// Leave block `index` (counted from zero) out.
    Skip { index: usize, reason: SkipReason },
}

/// A write action, as characters.
pub enum ActionView {
    Append(Seq<char>, Seq<char>),
    Report(Seq<char>, nat),
    Skip(nat, SkipReason),
}

impl View for WriteAction {
    type V = ActionView;

    open spec fn view(&self) -> ActionView {
        match self {
            WriteAction::Append { path, content } => ActionView::Append(path@, content@),
            WriteAction::Report { path, length } => ActionView::Report(path@, *length as nat),
            WriteAction::Skip { index, reason } => ActionView::Skip(*index as nat, *reason),
        }
    }
}

/// The views of a sequence of actions.
pub open spec fn action_views(v: Seq<WriteAction>) -> Seq<ActionView> {
    v.map_values(|a: WriteAction| a@)
}

/// Where block `b` goes: its own target under `root`, else
/// `<root>/<base>.<extension of its language>`, or with `by_language`
/// `<root>/<language>/<base>.<extension>`.
pub open spec fn target_path(
    b: BlockView,
    t: Seq<(Seq<char>, Seq<char>)>,
    root: Seq<char>,
    base: Seq<char>,
    by_language: bool,
) -> Seq<char> {
    match b.tangle_path {
        Some(p) => joined_path(root, p),
        None => {
            let name = base + "."@ + resolve(t, b.language->0);
            if by_language {
                joined_path(root, b.language->0 + "/"@ + name)
            } else {
                joined_path(root, name)
            }
        },
    }
}

/// What becomes of block `b`, number `i`.
pub open spec fn action_for(
    i: int,
    b: BlockView,
    t: Seq<(Seq<char>, Seq<char>)>,
    root: Seq<char>,
    base: Seq<char>,
    by_language: bool,
    tangled: bool,
    dry_run: bool,
) -> ActionView {
    if tangled && b.tangle_path is None {
        ActionView::Skip(i as nat, SkipReason::NotTangled)
    } else if b.language is None {
        ActionView::Skip(i as nat, SkipReason::NoLanguage)
    } else if dry_run {
        ActionView::Report(target_path(b, t, root, base, by_language), b.content.len())
    } else {
        ActionView::Append(target_path(b, t, root, base, by_language), b.content)
    }
}

/// The writer's plan for the blocks `bs`: one action per block, in order.
pub open spec fn plan(
    bs: Seq<BlockView>,
    t: Seq<(Seq<char>, Seq<char>)>,
    root: Seq<char>,
    base: Seq<char>,
    by_language: bool,
    tangled: bool,
    dry_run: bool,
) -> Seq<ActionView> {
    Seq::new(bs.len(), |i: int| action_for(i, bs[i], t, root, base, by_language, tangled, dry_run))
}

/// The name that derived output files take after the source `p`: its stem,
/// else `unknown`.
pub open spec fn base_name_of(p: Seq<char>) -> Seq<char> {
    match path_stem(p) {
        Some(s) => s,
        None => "unknown"@,
    }
}

/// Decides what becomes of each block: skipped, reported (dry run), or
/// appended to its output path.
pub fn plan_writes(
    blocks: &Vec<CodeBlock>,
    registry: &LanguageRegistry,
    output_dir: &str,
    base_name: &str,
    by_language: bool,
    tangled: bool,
    dry_run: bool,
) -> (r: Vec<WriteAction>)
    requires
        registry.wf(),
    ensures
        action_views(r@) == plan(block_views(blocks@), registry@, output_dir@, base_name@, by_language, tangled, dry_run),
{
    let ghost bs = block_views(blocks@);
    let ghost want = plan(bs, registry@, output_dir@, base_name@, by_language, tangled, dry_run);
    let mut out: Vec<WriteAction> = Vec::new();
    let n = blocks.len();
    let mut i: usize = 0;
    while i < n
        invariant
            n == blocks@.len(),
            bs == block_views(blocks@),
            want == plan(bs, registry@, output_dir@, base_name@, by_language, tangled, dry_run),
            registry.wf(),
            i <= n,
            action_views(out@) == want.take(i as int),
        decreases n - i,
    {
        let b = &blocks[i];
        assert(bs[i as int] == b@);
        let act = if tangled && b.tangle_path.is_none() {
            WriteAction::Skip { index: i, reason: SkipReason::NotTangled }
        } else {
            match &b.language {
                None => WriteAction::Skip { index: i, reason: SkipReason::NoLanguage },
                Some(lang) => {
                    let path = match &b.tangle_path {
                        Some(p) => join_path(output_dir, p.as_str()),
                        None => {
                            let ext = registry.resolve(lang.as_str());
                            let dotted = concat(base_name, ".");
                            let name = concat(dotted.as_str(), ext.as_str());
                            if by_language {
                                let dir = concat(lang.as_str(), "/");
                                let rel = concat(dir.as_str(), name.as_str());
                                join_path(output_dir, rel.as_str())
                            } else {
                                join_path(output_dir, name.as_str())
                            }
                        },
                    };
                    if dry_run {
                        WriteAction::Report { path, length: b.content.as_str().unicode_len() }
                    } else {
                        WriteAction::Append { path, content: b.content.clone() }
                    }
                },
            }
        };
        assert(act@ == want[i as int]);
        let ghost before = out@;
        out.push(act);
        assert(action_views(out@) =~= action_views(before).push(act@));
        assert(want.take(i + 1) =~= want.take(i as int).push(want[i as int]));
        i += 1;
    }
    assert(want.take(n as int) =~= want);
    out
}

/// Decides what writing the blocks of the document at `source_file` does
/// under `config`: derived names take the source's stem (`unknown` where it
/// has none), extensions come from the configured registry, and with
/// `by_language` each language gets a directory of its own.
pub fn write_code_blocks(blocks: &Vec<CodeBlock>, config: &Config, source_file: &str) -> (r: Vec<WriteAction>)
    ensures
        action_views(r@) == plan(
            block_views(blocks@),
            config.registry_view(),
            config.output_dir@,
            base_name_of(source_file@),
            config.by_language,
            config.tangled,
            config.dry_run,
        ),
{
    let base = match file_stem(source_file) {
        Some(s) => s,
        None => String::from_str("unknown"),
    };
    let registry = config.language_extensions();
    plan_writes(blocks, &registry, config.output_dir.as_str(), base.as_str(), config.by_language, config.tangled, config.dry_run)
}

/// The files after `acts` have been carried out on `files`, a map from path
/// to content: an append extends an existing file or creates it.
pub open spec fn apply_actions(files: Map<Seq<char>, Seq<char>>, acts: Seq<ActionView>) -> Map<Seq<char>, Seq<char>>
    decreases acts.len(),
{
    if acts.len() == 0 {
        files
    } else {
        let f = apply_actions(files, acts.drop_last());
        match acts.last() {
            ActionView::Append(p, c) => f.insert(p, if f.contains_key(p) { f[p] + c } else { c }),
            _ => f,
        }
    }
}

} // verus!
