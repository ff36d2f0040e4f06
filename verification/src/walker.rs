//! Directory traversal over an in-memory tree of entries: hidden entries
//! are skipped (hidden directories prune their whole subtree), the
//! extension allow-list filters files, and the matcher is consulted with
//! each entry's path relative to the traversal root (an excluded directory
//! prunes its subtree).
//!
//! The accepted-path set is characterized by a predicate over the tree, so
//! it cannot depend on the order in which directory entries are visited.

use vstd::prelude::*;

use crate::matcher::Matcher;
use crate::matcher::matcher_excludes;
use crate::strutil::ext_of;
use crate::strutil::file_extension;
use crate::strutil::str_eq;

verus! {

/// One entry of the file tree handed to the walker: a file, or a directory
/// with its entries.
pub enum FsNode {
    File { name: String },
    Dir { name: String, entries: Vec<FsNode> },
}

/// What the walker consults for each entry: the extension allow-list and
/// the compiled ignore rules.
pub struct WalkConfig {
    pub extensions: Vec<String>,
    pub matcher: Matcher,
}

/// An entry is hidden when its name begins with a dot.
pub open spec fn hidden(name: Seq<char>) -> bool {
    name.len() > 0 && name[0] == '.'
}

/// The path of a child entry under a prefix path.
pub open spec fn child_path(prefix: Seq<char>, name: Seq<char>) -> Seq<char> {
    if prefix.len() == 0 {
        name
    } else {
        prefix + seq!['/'] + name
    }
}

/// The views of the allow-list entries.
pub open spec fn ext_views(exts: Seq<String>) -> Seq<Seq<char>> {
    exts.map_values(|e: String| e@)
}

/// Whether the allow-list contains the wildcard entry.
pub open spec fn has_wildcard(exts: Seq<Seq<char>>) -> bool {
    exts.contains(seq!['*'])
}

/// Whether a file name passes the extension allow-list: an empty list and
/// the wildcard admit everything; otherwise the extension must be present
/// and listed.
pub open spec fn ext_allowed(name: Seq<char>, exts: Seq<Seq<char>>) -> bool {
    exts.len() == 0 || has_wildcard(exts) || (match ext_of(name) {
        Some(e) => exts.contains(e),
        None => false,
    })
}

/// Whether a file entry is accepted.
pub open spec fn file_accepted(name: Seq<char>, prefix: Seq<char>, cfg: WalkConfig) -> bool {
    &&& !hidden(name)
    &&& ext_allowed(name, ext_views(cfg.extensions@))
    &&& !matcher_excludes(cfg.matcher, child_path(prefix, name), false)
}

/// Whether a directory entry is entered.
pub open spec fn dir_entered(name: Seq<char>, prefix: Seq<char>, cfg: WalkConfig) -> bool {
    &&& !hidden(name)
    &&& !matcher_excludes(cfg.matcher, child_path(prefix, name), true)
}

/// The relative paths accepted under one entry.
pub open spec fn walk_entry(node: FsNode, prefix: Seq<char>, cfg: WalkConfig) -> Seq<Seq<char>>
    decreases node,
{
    match node {
        FsNode::File { name } => {
            if file_accepted(name@, prefix, cfg) {
                seq![child_path(prefix, name@)]
            } else {
                Seq::empty()
            }
        },
        FsNode::Dir { name, entries } => {
            if dir_entered(name@, prefix, cfg) {
                walk_entries(entries@, child_path(prefix, name@), cfg)
            } else {
                Seq::empty()
            }
        },
    }
}

/// The relative paths accepted under a list of sibling entries, in
/// traversal order.
pub open spec fn walk_entries(nodes: Seq<FsNode>, prefix: Seq<char>, cfg: WalkConfig) -> Seq<
    Seq<char>,
>
    decreases nodes,
{
    if nodes.len() == 0 {
        Seq::empty()
    } else {
        walk_entries(nodes.drop_last(), prefix, cfg) + walk_entry(nodes.last(), prefix, cfg)
    }
}

/// Whether a path is accepted somewhere under one entry.
pub open spec fn accepted_in_entry(node: FsNode, prefix: Seq<char>, cfg: WalkConfig, p: Seq<char>)
    -> bool
    decreases node,
{
    match node {
        FsNode::File { name } => { file_accepted(name@, prefix, cfg) && p == child_path(
            prefix,
            name@,
        ) },
        FsNode::Dir { name, entries } => {
            dir_entered(name@, prefix, cfg) && accepted_in_entries(
                entries@,
                child_path(prefix, name@),
                cfg,
                p,
            )
        },
    }
}

/// Whether a path is accepted somewhere under a list of sibling entries.
pub open spec fn accepted_in_entries(
    nodes: Seq<FsNode>,
    prefix: Seq<char>,
    cfg: WalkConfig,
    p: Seq<char>,
) -> bool
    decreases nodes,
{
    exists|i: int| 0 <= i < nodes.len() && accepted_in_entry(#[trigger] nodes[i], prefix, cfg, p)
}

/// The walk of one entry yields exactly the paths accepted under it: the
/// result is a set characterized by the tree and the configuration alone,
/// independent of visitation order.
pub proof fn lemma_walk_entry_contains(node: FsNode, prefix: Seq<char>, cfg: WalkConfig, p: Seq<char>)
    ensures
        walk_entry(node, prefix, cfg).contains(p) <==> accepted_in_entry(node, prefix, cfg, p),
    decreases node,
{
    match node {
        FsNode::File { name } => {
            if file_accepted(name@, prefix, cfg) {
                assert(walk_entry(node, prefix, cfg)[0] == child_path(prefix, name@));
            }
        },
        FsNode::Dir { name, entries } => {
            if dir_entered(name@, prefix, cfg) {
                lemma_walk_entries_contains(entries@, child_path(prefix, name@), cfg, p);
            }
        },
    }
}

/// The walk of a sibling list yields exactly the paths accepted under its
/// entries.
pub proof fn lemma_walk_entries_contains(
    nodes: Seq<FsNode>,
    prefix: Seq<char>,
    cfg: WalkConfig,
    p: Seq<char>,
)
    ensures
        walk_entries(nodes, prefix, cfg).contains(p) <==> accepted_in_entries(
            nodes,
            prefix,
            cfg,
            p,
        ),
    decreases nodes,
{
    if nodes.len() == 0 {
    } else {
        let fr = nodes.drop_last();
        let a = walk_entries(fr, prefix, cfg);
        let b = walk_entry(nodes.last(), prefix, cfg);
        lemma_walk_entries_contains(fr, prefix, cfg, p);
        lemma_walk_entry_contains(nodes.last(), prefix, cfg, p);
        assert((a + b).contains(p) <==> a.contains(p) || b.contains(p)) by {
            if a.contains(p) {
                let i = choose|i: int| 0 <= i < a.len() && a[i] == p;
                assert((a + b)[i] == p);
            }
            if b.contains(p) {
                let i = choose|i: int| 0 <= i < b.len() && b[i] == p;
                assert((a + b)[a.len() + i] == p);
            }
            if (a + b).contains(p) {
                let i = choose|i: int| 0 <= i < a.len() + b.len() && (a + b)[i] == p;
                if i < a.len() {
                    assert(a[i] == p);
                } else {
                    assert(b[i - a.len()] == p);
                }
            }
        }
        if accepted_in_entries(fr, prefix, cfg, p) {
            let i = choose|i: int|
                0 <= i < fr.len() && accepted_in_entry(#[trigger] fr[i], prefix, cfg, p);
            assert(accepted_in_entry(nodes[i], prefix, cfg, p));
        }
        if accepted_in_entry(nodes.last(), prefix, cfg, p) {
            assert(accepted_in_entry(nodes[nodes.len() - 1], prefix, cfg, p));
        }
        if accepted_in_entries(nodes, prefix, cfg, p) {
            let i = choose|i: int|
                0 <= i < nodes.len() && accepted_in_entry(#[trigger] nodes[i], prefix, cfg, p);
            if i < nodes.len() - 1 {
                assert(accepted_in_entry(fr[i], prefix, cfg, p));
            }
        }
    }
}

/// A hidden directory prunes its whole subtree: nothing under it is ever
/// visited, whatever the extension allow-list says.
pub proof fn lemma_hidden_dir_pruned(node: FsNode, prefix: Seq<char>, cfg: WalkConfig)
    requires
        node matches FsNode::Dir { name, entries } && hidden(name@),
    ensures
        walk_entry(node, prefix, cfg) == Seq::<Seq<char>>::empty(),
{
}

/// An entry is hidden when its name begins with a dot.
fn is_hidden(name: &str) -> (r: bool)
    ensures
        r == hidden(name@),
{
    if name.unicode_len() == 0 {
        return false;
    }
    name.get_char(0) == '.'
}

/// Whether a file name passes the extension allow-list.
fn ext_allowed_exec(name: &str, exts: &Vec<String>) -> (r: bool)
    ensures
        r == ext_allowed(name@, ext_views(exts@)),
{
    let n = exts.len();
    if n == 0 {
        return true;
    }
    let ghost evs = ext_views(exts@);
    let mut i: usize = 0;
    while i < n
        invariant
            i <= n,
            n == exts@.len(),
            evs == ext_views(exts@),
            forall|k: int| 0 <= k < i ==> evs[k] != seq!['*'],
        decreases n - i,
    {
        proof {
            reveal_strlit("*");
            assert(("*")@ =~= seq!['*']);
        }
        if str_eq(exts[i].as_str(), "*") {
            assert(evs[i as int] == seq!['*']);
            return true;
        }
        i += 1;
    }
    assert(!has_wildcard(evs));
    match file_extension(name) {
        Some(e) => {
            let mut j: usize = 0;
            while j < n
                invariant
                    j <= n,
                    n == exts@.len(),
                    evs == ext_views(exts@),
                    ext_of(name@) == Some(e@),
                    forall|k: int| 0 <= k < j ==> evs[k] != e@,
                decreases n - j,
            {
                if str_eq(exts[j].as_str(), e) {
                    assert(evs[j as int] == e@);
                    return true;
                }
                j += 1;
            }
            assert(!evs.contains(e@));
            false
        },
        None => false,
    }
}

/// The path of a child entry under a prefix path.
fn child_path_exec(prefix: &str, name: &str) -> (r: String)
    ensures
        r@ == child_path(prefix@, name@),
{
    if prefix.unicode_len() == 0 {
        name.to_owned()
    } else {
        proof {
            reveal_strlit("/");
            assert(("/")@ =~= seq!['/']);
        }
        let mut r = prefix.to_owned();
        r.append("/");
        r.append(name);
        r
    }
}

#[verifier::loop_isolation(false)]
fn walk_entry_exec(node: &FsNode, prefix: &str, cfg: &WalkConfig) -> (r: Vec<String>)
    ensures
        r@.map_values(|s: String| s@) == walk_entry(*node, prefix@, *cfg),
    decreases *node,
{
    match node {
        FsNode::File { name } => {
            let mut out: Vec<String> = Vec::new();
            if is_hidden(name.as_str()) {
                return out;
            }
            if !ext_allowed_exec(name.as_str(), &cfg.extensions) {
                return out;
            }
            let rel = child_path_exec(prefix, name.as_str());
            if cfg.matcher.matches(rel.as_str(), false) {
                return out;
            }
            out.push(rel);
            proof {
                assert(out@.map_values(|s: String| s@) =~= seq![
                    child_path(prefix@, name@),
                ]);
            }
            out
        },
        FsNode::Dir { name, entries } => {
            let mut out: Vec<String> = Vec::new();
            if is_hidden(name.as_str()) {
                return out;
            }
            let rel = child_path_exec(prefix, name.as_str());
            if cfg.matcher.matches(rel.as_str(), true) {
                return out;
            }
            let n = entries.len();
            let mut i: usize = 0;
            proof {
                assert(entries@.take(0) =~= Seq::<FsNode>::empty());
            }
            while i < n
                invariant
                    i <= n,
                    n == entries@.len(),
                    rel@ == child_path(prefix@, name@),
                    out@.map_values(|s: String| s@) == walk_entries(
                        entries@.take(i as int),
                        rel@,
                        *cfg,
                    ),
            decreases n - i,
            {
                proof {
                    assert(*entries == node->Dir_entries);
                    assert(decreases_to!(*node => node->Dir_entries));
                    assert(decreases_to!(*entries => entries@));
                    assert(decreases_to!(entries@ => entries@[i as int]));
                    assert(decreases_to!(*node => entries@[i as int]));
                }
                let mut sub = walk_entry_exec(&entries[i], rel.as_str(), cfg);
                proof {
                    assert(entries@.take(i + 1 as int).drop_last() =~= entries@.take(i as int));
                    assert(entries@.take(i + 1 as int).last() == entries@[i as int]);
                    let m = |s: String| s@;
                    assert((out@ + sub@).map_values(m) =~= out@.map_values(m) + sub@.map_values(
                        m,
                    ));
                }
                out.append(&mut sub);
                i += 1;
            }
            proof {
                assert(entries@.take(n as int) =~= entries@);
            }
            out
        },
    }
}

/// The traversal of a project tree.
pub struct FileWalker {
    pub path: String,
}

impl FileWalker {
    /// A walker rooted at the given path.
    pub fn new(path: &String) -> (r: Self)
        ensures
            r.path@ == path@,
    {
        FileWalker { path: path.clone() }
    }

    /// Walk the tree of entries under the root and return the accepted file
    /// paths, relative to the root.
    pub fn walk_files(&self, entries: &Vec<FsNode>, cfg: &WalkConfig) -> (r: Vec<String>)
        ensures
            r@.map_values(|s: String| s@) == walk_entries(entries@, Seq::<char>::empty(), *cfg),
    {
        let n = entries.len();
        let mut out: Vec<String> = Vec::new();
        let mut i: usize = 0;
        proof {
            assert(entries@.take(0) =~= Seq::<FsNode>::empty());
        }
        while i < n
            invariant
                i <= n,
                n == entries@.len(),
                out@.map_values(|s: String| s@) == walk_entries(
                    entries@.take(i as int),
                    Seq::<char>::empty(),
                    *cfg,
                ),
            decreases n - i,
        {
            let mut sub = walk_entry_exec(&entries[i], "", cfg);
            proof {
                reveal_strlit("");
                assert(("")@ =~= Seq::<char>::empty());
                assert(entries@.take(i + 1 as int).drop_last() =~= entries@.take(i as int));
                assert(entries@.take(i + 1 as int).last() == entries@[i as int]);
                let m = |s: String| s@;
                assert((out@ + sub@).map_values(m) =~= out@.map_values(m) + sub@.map_values(m));
            }
            out.append(&mut sub);
            i += 1;
        }
        proof {
            assert(entries@.take(n as int) =~= entries@);
        }
        out
    }
}

} // verus!
