//! The chain of secondary configs that run after a config: its size and depth, the order it runs
//! in, the rows the chain panel shows and which of them are folded away.
use vstd::prelude::*;
use crate::text::{decimal, owned, push_str, usize_to_text};
use crate::yaml::text_equal;

verus! {

/// One config of the chain, as loaded from disk, with the configs it runs in turn.
pub struct ChainNode {
    pub path: String,
    pub label: String,
    /// The config's `task`, when it sets one.
    pub task: Option<String>,
    /// How many settings the config holds.
    pub settings: usize,
    pub children: Vec<ChainNode>,
    /// Why the config could not be read, when it could not.
    pub error: Option<String>,
}

/// The number of configs in a chain, at every depth.
pub open spec fn forest_size(ns: Seq<ChainNode>) -> nat
    decreases ns,
{
    if ns.len() == 0 {
        0
    } else {
        proof {
            lemma_decreases_to_children(ns);
        }
        forest_size(ns.drop_last()) + 1 + forest_size(ns.last().children@)
    }
}

/// How many levels deep a chain goes (0 for no chain).
pub open spec fn forest_height(ns: Seq<ChainNode>) -> nat
    decreases ns,
{
    if ns.len() == 0 {
        0
    } else {
        proof {
            lemma_decreases_to_children(ns);
        }
        let rest = forest_height(ns.drop_last());
        let here = 1 + forest_height(ns.last().children@);
        if rest >= here {
            rest
        } else {
            here
        }
    }
}

/// The labels of a chain in the order it runs: depth-first, each config before the ones it
/// runs; a config that could not be read contributes nothing, nor does anything under it.
pub open spec fn run_order(ns: Seq<ChainNode>) -> Seq<Seq<char>>
    decreases ns,
{
    if ns.len() == 0 {
        Seq::empty()
    } else {
        proof {
            lemma_decreases_to_children(ns);
        }
        let n = ns.last();
        run_order(ns.drop_last()) + if n.error is None {
            seq![n.label@] + run_order(n.children@)
        } else {
            Seq::empty()
        }
    }
}

/// The paths of every config of a chain.
pub open spec fn forest_paths(ns: Seq<ChainNode>) -> Set<Seq<char>>
    decreases ns,
{
    if ns.len() == 0 {
        Set::empty()
    } else {
        proof {
            lemma_decreases_to_children(ns);
        }
        forest_paths(ns.drop_last()).insert(ns.last().path@).union(
            forest_paths(ns.last().children@),
        )
    }
}

/// A chain decreases to its prefix and to the children of its last config.
pub proof fn lemma_decreases_to_children(ns: Seq<ChainNode>)
    requires
        ns.len() > 0,
    ensures
        decreases_to!(ns => ns.drop_last()),
        decreases_to!(ns => ns.last().children@),
{
    let n = ns[ns.len() - 1];
    assert(decreases_to!(ns => n));
    assert(decreases_to!(n => n.children));
    assert(decreases_to!(n.children => n.children@));
    assert(ns.drop_last() =~= ns.subrange(0, ns.len() - 1));
}

/// The deepest level that the configs of `ns` reach, counting `ns` as level `depth`, as the
/// chain statistics report it: one level above `depth` when `ns` is empty.
pub open spec fn stats_depth(ns: Seq<ChainNode>, depth: nat) -> nat {
    if ns.len() == 0 {
        if depth == 0 {
            0
        } else {
            (depth - 1) as nat
        }
    } else {
        (depth - 1 + forest_height(ns)) as nat
    }
}

/// A non-empty chain has at least one level.
proof fn lemma_height_positive(ns: Seq<ChainNode>)
    requires
        ns.len() > 0,
    ensures
        forest_height(ns) >= 1,
{
    lemma_decreases_to_children(ns);
}

/// `(configs, levels)` of the chain `nodes` met at level `depth`: how many configs it holds and
/// the deepest level they reach.
pub fn chain_stats(nodes: &Vec<ChainNode>, depth: usize) -> (r: (usize, usize))
    requires
        forest_size(nodes@) <= usize::MAX,
        depth + forest_height(nodes@) <= usize::MAX,
    ensures
        r.0 == forest_size(nodes@),
        r.1 == stats_depth(nodes@, depth as nat),
    decreases nodes@,
{
    let mut count: usize = 0;
    let mut max_depth: usize = if depth == 0 {
        0
    } else {
        depth - 1
    };
    let mut i: usize = 0;
    while i < nodes.len()
        invariant
            i <= nodes@.len(),
            forest_size(nodes@) <= usize::MAX,
            depth + forest_height(nodes@) <= usize::MAX,
            count == forest_size(nodes@.subrange(0, i as int)),
            max_depth == stats_depth(nodes@.subrange(0, i as int), depth as nat),
            forest_size(nodes@.subrange(0, i as int)) <= forest_size(nodes@),
            forest_height(nodes@.subrange(0, i as int)) <= forest_height(nodes@),
        decreases nodes@.len() - i,
    {
        let ghost pre = nodes@.subrange(0, i as int);
        let ghost next = nodes@.subrange(0, i + 1);
        proof {
            assert(next.drop_last() =~= pre);
            assert(next.last() == nodes@[i as int]);
            lemma_decreases_to_children(next);
            lemma_prefix_bounds(nodes@, i + 1);
            assert(decreases_to!(nodes@ => nodes@[i as int]));
            assert(decreases_to!(nodes@[i as int] => nodes@[i as int].children));
            assert(decreases_to!(nodes@[i as int].children => nodes@[i as int].children@));
        }
        let (children, child_depth) = chain_stats(&nodes[i].children, depth + 1);
        proof {
            let ch = nodes@[i as int].children@;
            assert(child_depth == depth + forest_height(ch));
            assert(forest_height(next) == if forest_height(pre) >= 1 + forest_height(ch) {
                forest_height(pre)
            } else {
                1 + forest_height(ch)
            });
            assert(forest_size(next) == forest_size(pre) + 1 + forest_size(ch));
            if pre.len() > 0 {
                lemma_height_positive(pre);
            }
        }
        count = count + 1 + children;
        if child_depth > max_depth {
            max_depth = child_depth;
        }
        i = i + 1;
    }
    assert(nodes@.subrange(0, nodes@.len() as int) =~= nodes@);
    (count, max_depth)
}

/// A prefix of a chain is no larger and no deeper than the chain.
proof fn lemma_prefix_bounds(ns: Seq<ChainNode>, k: int)
    requires
        0 <= k <= ns.len(),
    ensures
        forest_size(ns.subrange(0, k)) <= forest_size(ns),
        forest_height(ns.subrange(0, k)) <= forest_height(ns),
    decreases ns.len() - k,
{
    if k < ns.len() {
        lemma_prefix_bounds(ns, k + 1);
        let next = ns.subrange(0, k + 1);
        assert(next.drop_last() =~= ns.subrange(0, k));
    } else {
        assert(ns.subrange(0, k) =~= ns);
    }
}

/// Counted from the top, the statistics of a chain are its size and its depth.
pub proof fn lemma_stats_from_top(ns: Seq<ChainNode>)
    ensures
        stats_depth(ns, 1) == forest_height(ns),
{
}

/// The labels of `nodes` in run order, appended to `labels`.
fn visit_labels(nodes: &Vec<ChainNode>, labels: &mut Vec<String>)
    ensures
        final(labels)@.map_values(|l: String| l@) == old(labels)@.map_values(|l: String| l@)
            + run_order(nodes@),
    decreases nodes@,
{
    let mut i: usize = 0;
    let ghost start = labels@.map_values(|l: String| l@);
    while i < nodes.len()
        invariant
            i <= nodes@.len(),
            labels@.map_values(|l: String| l@) == start + run_order(nodes@.subrange(0, i as int)),
        decreases nodes@.len() - i,
    {
        let ghost pre = nodes@.subrange(0, i as int);
        let ghost next = nodes@.subrange(0, i + 1);
        proof {
            assert(next.drop_last() =~= pre);
            assert(next.last() == nodes@[i as int]);
            assert(decreases_to!(nodes@ => nodes@[i as int]));
            assert(decreases_to!(nodes@[i as int] => nodes@[i as int].children));
            assert(decreases_to!(nodes@[i as int].children => nodes@[i as int].children@));
        }
        let node = &nodes[i];
        if node.error.is_none() {
            let ghost before = labels@.map_values(|l: String| l@);
            labels.push(node.label.clone());
            assert(labels@.map_values(|l: String| l@) =~= before.push(node.label@));
            visit_labels(&node.children, labels);
            assert(labels@.map_values(|l: String| l@) =~= start + run_order(next));
        } else {
            assert(run_order(next) =~= run_order(pre));
        }
        i = i + 1;
    }
    assert(nodes@.subrange(0, nodes@.len() as int) =~= nodes@);
}

/// The labels of a chain in the order it runs.
pub fn flattened_labels(nodes: &Vec<ChainNode>) -> (r: Vec<String>)
    ensures
        r@.map_values(|l: String| l@) == run_order(nodes@),
{
    let mut labels: Vec<String> = Vec::new();
    assert(labels@.map_values(|l: String| l@) =~= Seq::<Seq<char>>::empty());
    visit_labels(nodes, &mut labels);
    assert(Seq::<Seq<char>>::empty() + run_order(nodes@) =~= run_order(nodes@));
    labels
}

/// The run order never lists more configs than the chain holds.
pub proof fn lemma_run_order_within_chain(ns: Seq<ChainNode>)
    ensures
        run_order(ns).len() <= forest_size(ns),
    decreases ns,
{
    if ns.len() > 0 {
        lemma_decreases_to_children(ns);
        lemma_run_order_within_chain(ns.drop_last());
        lemma_run_order_within_chain(ns.last().children@);
    }
}

/// "N configs · M levels", or the empty chain's hint.
pub open spec fn spec_chain_summary(count: nat, max_depth: nat) -> Seq<char> {
    if count == 0 {
        "run after this config finishes"@
    } else {
        decimal(count) + " config"@ + (if count == 1 {
            Seq::empty()
        } else {
            "s"@
        }) + " \u{b7} "@ + decimal(max_depth) + " level"@ + (if max_depth == 1 {
            Seq::empty()
        } else {
            "s"@
        })
    }
}

/// The chain panel's heading for a chain of `count` configs `max_depth` levels deep.
pub fn chain_summary(count: usize, max_depth: usize) -> (r: String)
    ensures
        r@ == spec_chain_summary(count as nat, max_depth as nat),
{
    if count == 0 {
        return owned("run after this config finishes");
    }
    let mut r = usize_to_text(count);
    push_str(&mut r, " config");
    if count != 1 {
        push_str(&mut r, "s");
    }
    push_str(&mut r, " \u{b7} ");
    push_str(&mut r, usize_to_text(max_depth).as_str());
    push_str(&mut r, " level");
    if max_depth != 1 {
        push_str(&mut r, "s");
    }
    proof {
        let e = Seq::<char>::empty();
        assert(decimal(count as nat) + " config"@ =~= decimal(count as nat) + " config"@ + e);
        assert(decimal(max_depth as nat) + " level"@ =~= decimal(max_depth as nat) + " level"@ + e);
    }
    r
}

/// The warning shown under a chain four or more levels deep.
pub fn chain_depth_warning(max_depth: usize) -> (r: Option<String>)
    ensures
        r is Some <==> max_depth >= 4,
        r matches Some(w) ==> w@ == "This chain is "@ + decimal(max_depth as nat)
            + " levels deep. Each level runs every config below it, so the run order is longer than it looks."@,
{
    if max_depth < 4 {
        return None;
    }
    let mut r = owned("This chain is ");
    push_str(&mut r, usize_to_text(max_depth).as_str());
    push_str(
        &mut r,
        " levels deep. Each level runs every config below it, so the run order is longer than it looks.",
    );
    Some(r)
}

/// What a chain row says under a config's label: why it could not be read, or its path, task,
/// settings and children.
pub open spec fn spec_node_metadata(
    path: Seq<char>,
    task: Option<Seq<char>>,
    settings: nat,
    children: nat,
    error: Option<Seq<char>>,
) -> Seq<char> {
    match error {
        Some(e) => e,
        None => path + " \u{b7} "@ + match task {
            Some(t) => t,
            None => "task not set"@,
        } + " \u{b7} "@ + decimal(settings) + " setting"@ + (if settings == 1 {
            Seq::empty()
        } else {
            "s"@
        }) + if children == 0 {
            Seq::empty()
        } else {
            " \u{b7} "@ + decimal(children) + " child"@ + if children == 1 {
                Seq::empty()
            } else {
                "ren"@
            }
        },
    }
}

/// The view of an optional text.
pub open spec fn opt_view(t: Option<String>) -> Option<Seq<char>> {
    match t {
        Some(x) => Some(x@),
        None => None,
    }
}

/// The line under a config's label in the chain panel.
pub fn node_metadata(node: &ChainNode) -> (r: String)
    ensures
        r@ == spec_node_metadata(
            node.path@,
            opt_view(node.task),
            node.settings as nat,
            node.children@.len(),
            opt_view(node.error),
        ),
{
    if let Some(e) = &node.error {
        return e.clone();
    }
    let mut r = node.path.clone();
    push_str(&mut r, " \u{b7} ");
    match &node.task {
        Some(t) => push_str(&mut r, t.as_str()),
        None => push_str(&mut r, "task not set"),
    }
    push_str(&mut r, " \u{b7} ");
    push_str(&mut r, usize_to_text(node.settings).as_str());
    push_str(&mut r, " setting");
    let ghost mid = r@;
    if node.settings != 1 {
        push_str(&mut r, "s");
    } else {
        assert(r@ =~= mid + Seq::<char>::empty());
    }
    let ghost with_settings = r@;
    let n = node.children.len();
    if n != 0 {
        push_str(&mut r, " \u{b7} ");
        push_str(&mut r, usize_to_text(n).as_str());
        push_str(&mut r, " child");
        let ghost mid2 = r@;
        if n != 1 {
            push_str(&mut r, "ren");
        } else {
            assert(r@ =~= mid2 + Seq::<char>::empty());
        }
    } else {
        assert(r@ =~= with_settings + Seq::<char>::empty());
    }
    r
}

// ---------------------------------------------------------------------------------------------
// Folding the chain panel.
// ---------------------------------------------------------------------------------------------

/// The texts a list holds.
pub open spec fn path_set(s: Seq<String>) -> Set<Seq<char>> {
    Set::new(|p: Seq<char>| exists|i: int| 0 <= i < s.len() && s[i]@ == p)
}

/// The configs folded shut in the chain panel, by path, each once.
pub struct CollapsedPaths {
    paths: Vec<String>,
}

impl CollapsedPaths {
    #[verifier::type_invariant]
    spec fn well_formed(self) -> bool {
        forall|i: int, j: int|
            0 <= i < j < self.paths@.len() ==> (#[trigger] self.paths@[i])@ != (
            #[trigger] self.paths@[j])@
    }

    /// The folded paths.
    pub closed spec fn view_set(&self) -> Set<Seq<char>> {
        path_set(self.paths@)
    }

    /// Nothing folded.
    pub fn new() -> (r: CollapsedPaths)
        ensures
            r.view_set() == Set::<Seq<char>>::empty(),
    {
        let r = CollapsedPaths { paths: Vec::new() };
        assert(path_set(r.paths@) =~= Set::<Seq<char>>::empty());
        r
    }

    fn index_of(&self, path: &str) -> (r: Option<usize>)
        ensures
            r matches Some(i) ==> i < self.paths@.len() && self.paths@[i as int]@ == path@,
            r is None ==> !self.view_set().contains(path@),
    {
        let p = owned(path);
        let mut i: usize = 0;
        while i < self.paths.len()
            invariant
                i <= self.paths@.len(),
                p@ == path@,
                forall|j: int| 0 <= j < i ==> (#[trigger] self.paths@[j])@ != path@,
            decreases self.paths@.len() - i,
        {
            if text_equal(&self.paths[i], &p) {
                return Some(i);
            }
            i = i + 1;
        }
        None
    }

    /// Whether `path` is folded.
    pub fn contains(&self, path: &str) -> (r: bool)
        ensures
            r == self.view_set().contains(path@),
    {
        match self.index_of(path) {
            Some(i) => {
                assert(self.paths@[i as int]@ == path@);
                true
            },
            None => false,
        }
    }

    /// Folds `path`.
    pub fn insert(&mut self, path: String)
        ensures
            final(self).view_set() == old(self).view_set().insert(path@),
    {
        proof {
            use_type_invariant(&*self);
        }
        if self.index_of(path.as_str()).is_some() {
            assert(old(self).view_set().insert(path@) =~= old(self).view_set());
            return;
        }
        let ghost before = self.paths@;
        let ghost pv = path@;
        let mut paths: Vec<String> = Vec::new();
        std::mem::swap(&mut paths, &mut self.paths);
        paths.push(path);
        proof {
            assert forall|i: int, j: int| 0 <= i < j < paths@.len() implies (
            #[trigger] paths@[i])@ != (#[trigger] paths@[j])@ by {
                if j == paths@.len() - 1 {
                    assert(paths@[i] == before[i]);
                    assert(before[i]@ != pv);
                } else {
                    assert(paths@[i] == before[i] && paths@[j] == before[j]);
                }
            }
            assert(path_set(paths@) =~= path_set(before).insert(pv)) by {
                assert forall|q: Seq<char>| path_set(paths@).contains(q) implies path_set(
                    before,
                ).insert(pv).contains(q) by {
                    let i = choose|i: int| 0 <= i < paths@.len() && paths@[i]@ == q;
                    if i < before.len() {
                        assert(paths@[i] == before[i]);
                    }
                }
                assert forall|q: Seq<char>| path_set(before).insert(pv).contains(q) implies path_set(
                    paths@,
                ).contains(q) by {
                    if q == pv {
                        assert(paths@[before.len() as int]@ == q);
                    } else {
                        let i = choose|i: int| 0 <= i < before.len() && before[i]@ == q;
                        assert(paths@[i] == before[i]);
                    }
                }
            }
        }
        self.paths = paths;
    }

    /// Unfolds `path`; whether it was folded.
    pub fn remove(&mut self, path: &str) -> (was: bool)
        ensures
            was == old(self).view_set().contains(path@),
            final(self).view_set() == old(self).view_set().remove(path@),
    {
        proof {
            use_type_invariant(&*self);
        }
        match self.index_of(path) {
            None => {
                assert(old(self).view_set().remove(path@) =~= old(self).view_set());
                false
            },
            Some(k) => {
                let ghost before = self.paths@;
                let mut paths: Vec<String> = Vec::new();
                std::mem::swap(&mut paths, &mut self.paths);
                let _gone = paths.remove(k);
                proof {
                    assert(paths@ =~= before.remove(k as int));
                    assert forall|i: int, j: int| 0 <= i < j < paths@.len() implies (
                    #[trigger] paths@[i])@ != (#[trigger] paths@[j])@ by {
                        let i2 = if i < k { i } else { i + 1 };
                        let j2 = if j < k { j } else { j + 1 };
                        assert(paths@[i] == before[i2] && paths@[j] == before[j2]);
                    }
                    assert(path_set(paths@) =~= path_set(before).remove(path@)) by {
                        assert forall|q: Seq<char>| path_set(paths@).contains(q) implies path_set(
                            before,
                        ).remove(path@).contains(q) by {
                            let i = choose|i: int| 0 <= i < paths@.len() && paths@[i]@ == q;
                            let i2 = if i < k { i } else { i + 1 };
                            assert(paths@[i] == before[i2]);
                            assert(i2 != k);
                            if i2 < k {
                                assert(before[i2]@ != before[k as int]@);
                            } else {
                                assert(before[k as int]@ != before[i2]@);
                            }
                        }
                        assert forall|q: Seq<char>| path_set(before).remove(path@).contains(q) implies path_set(
                            paths@,
                        ).contains(q) by {
                            let i = choose|i: int| 0 <= i < before.len() && before[i]@ == q;
                            assert(i != k);
                            if i < k {
                                assert(paths@[i] == before[i]);
                            } else {
                                assert(paths@[i - 1] == before[i]);
                            }
                        }
                    }
                    assert(before[k as int]@ == path@);
                }
                self.paths = paths;
                true
            },
        }
    }

    /// Folds `path` when it is open, opens it when it is folded.
    pub fn toggle(&mut self, path: String)
        ensures
            old(self).view_set().contains(path@) ==> final(self).view_set() == old(
                self,
            ).view_set().remove(path@),
            !old(self).view_set().contains(path@) ==> final(self).view_set() == old(
                self,
            ).view_set().insert(path@),
    {
        if !self.remove(path.as_str()) {
            self.insert(path);
        }
    }
}

/// Toggling a config twice leaves the panel folded as it was.
pub proof fn lemma_toggle_twice(s: Set<Seq<char>>, p: Seq<char>)
    ensures
        ({
            let once = if s.contains(p) {
                s.remove(p)
            } else {
                s.insert(p)
            };
            let twice = if once.contains(p) {
                once.remove(p)
            } else {
                once.insert(p)
            };
            twice == s
        }),
{
    if s.contains(p) {
        assert(s.remove(p).insert(p) =~= s);
    } else {
        assert(s.insert(p).remove(p) =~= s);
    }
}

/// Folds every config of the chain `nodes` ("Collapse all").
pub fn collect_paths(nodes: &Vec<ChainNode>, collapsed: &mut CollapsedPaths)
    ensures
        final(collapsed).view_set() == old(collapsed).view_set().union(forest_paths(nodes@)),
    decreases nodes@,
{
    let ghost start = collapsed.view_set();
    let mut i: usize = 0;
    while i < nodes.len()
        invariant
            i <= nodes@.len(),
            collapsed.view_set() == start.union(forest_paths(nodes@.subrange(0, i as int))),
        decreases nodes@.len() - i,
    {
        let ghost pre = nodes@.subrange(0, i as int);
        let ghost next = nodes@.subrange(0, i + 1);
        proof {
            assert(next.drop_last() =~= pre);
            assert(next.last() == nodes@[i as int]);
            assert(decreases_to!(nodes@ => nodes@[i as int]));
            assert(decreases_to!(nodes@[i as int] => nodes@[i as int].children));
            assert(decreases_to!(nodes@[i as int].children => nodes@[i as int].children@));
        }
        collapsed.insert(nodes[i].path.clone());
        collect_paths(&nodes[i].children, collapsed);
        assert(collapsed.view_set() =~= start.union(forest_paths(next)));
        i = i + 1;
    }
    assert(nodes@.subrange(0, nodes@.len() as int) =~= nodes@);
}

// ---------------------------------------------------------------------------------------------
// The rows of the chain panel.
// ---------------------------------------------------------------------------------------------

/// One row of the chain panel.
pub struct ChainRow {
    /// `1`, `2`, `2.1`: the config's place in the chain.
    pub numbering: String,
    /// How far the row is indented.
    pub depth: usize,
    pub path: String,
    pub label: String,
    pub metadata: String,
    pub has_children: bool,
    /// Whether the config's own chain is shown below it.
    pub open: bool,
    pub error: bool,
}

/// What a [`ChainRow`] holds.
pub struct ChainRowView {
    pub numbering: Seq<char>,
    pub depth: nat,
    pub path: Seq<char>,
    pub label: Seq<char>,
    pub metadata: Seq<char>,
    pub has_children: bool,
    pub open: bool,
    pub error: bool,
}

impl View for ChainRow {
    type V = ChainRowView;

    open spec fn view(&self) -> ChainRowView {
        ChainRowView {
            numbering: self.numbering@,
            depth: self.depth as nat,
            path: self.path@,
            label: self.label@,
            metadata: self.metadata@,
            has_children: self.has_children,
            open: self.open,
            error: self.error,
        }
    }
}

/// The place of the `k`th config (counting from 1) of a chain whose parent is at `prefix`
/// (the empty text at the top).
pub open spec fn numbering(prefix: Seq<char>, k: nat) -> Seq<char> {
    if prefix.len() == 0 {
        decimal(k)
    } else {
        prefix + "."@ + decimal(k)
    }
}

/// The row a config gets.
pub open spec fn node_row(n: ChainNode, number: Seq<char>, depth: nat, open: bool) -> ChainRowView {
    ChainRowView {
        numbering: number,
        depth,
        path: n.path@,
        label: n.label@,
        metadata: spec_node_metadata(
            n.path@,
            opt_view(n.task),
            n.settings as nat,
            n.children@.len(),
            opt_view(n.error),
        ),
        has_children: n.children@.len() > 0,
        open,
        error: n.error is Some,
    }
}

/// The rows of the chain `ns` under `prefix` at `depth`: each config, then, unless it is folded,
/// the rows of its own chain one level deeper.
pub open spec fn chain_rows(
    ns: Seq<ChainNode>,
    prefix: Seq<char>,
    depth: nat,
    collapsed: Set<Seq<char>>,
) -> Seq<ChainRowView>
    decreases ns,
{
    if ns.len() == 0 {
        Seq::empty()
    } else {
        proof {
            lemma_decreases_to_children(ns);
        }
        let n = ns.last();
        let number = numbering(prefix, ns.len());
        let open = !collapsed.contains(n.path@);
        chain_rows(ns.drop_last(), prefix, depth, collapsed).push(
            node_row(n, number, depth, open),
        ) + if open {
            chain_rows(n.children@, number, depth + 1, collapsed)
        } else {
            Seq::empty()
        }
    }
}

fn number_text(prefix: &str, k: usize) -> (r: String)
    ensures
        r@ == numbering(prefix@, k as nat),
{
    if prefix.unicode_len() == 0 {
        usize_to_text(k)
    } else {
        let mut r = owned(prefix);
        push_str(&mut r, ".");
        push_str(&mut r, usize_to_text(k).as_str());
        r
    }
}

fn push_chain_rows(
    nodes: &Vec<ChainNode>,
    prefix: &str,
    depth: usize,
    collapsed: &CollapsedPaths,
    rows: &mut Vec<ChainRow>,
)
    requires
        depth + forest_height(nodes@) <= usize::MAX,
    ensures
        final(rows)@.map_values(|r: ChainRow| r@) == old(rows)@.map_values(|r: ChainRow| r@)
            + chain_rows(nodes@, prefix@, depth as nat, collapsed.view_set()),
    decreases nodes@,
{
    let ghost start = rows@.map_values(|r: ChainRow| r@);
    let ghost cs = collapsed.view_set();
    let mut i: usize = 0;
    while i < nodes.len()
        invariant
            i <= nodes@.len(),
            cs == collapsed.view_set(),
            depth + forest_height(nodes@) <= usize::MAX,
            rows@.map_values(|r: ChainRow| r@) == start + chain_rows(
                nodes@.subrange(0, i as int),
                prefix@,
                depth as nat,
                cs,
            ),
        decreases nodes@.len() - i,
    {
        let ghost pre = nodes@.subrange(0, i as int);
        let ghost next = nodes@.subrange(0, i + 1);
        proof {
            assert(next.drop_last() =~= pre);
            assert(next.last() == nodes@[i as int]);
            assert(decreases_to!(nodes@ => nodes@[i as int]));
            assert(decreases_to!(nodes@[i as int] => nodes@[i as int].children));
            assert(decreases_to!(nodes@[i as int].children => nodes@[i as int].children@));
            lemma_decreases_to_children(next);
            lemma_prefix_bounds(nodes@, i + 1);
            assert(forest_height(nodes@[i as int].children@) + 1 <= forest_height(next));
        }
        let node = &nodes[i];
        let number = number_text(prefix, i + 1);
        let open = !collapsed.contains(node.path.as_str());
        let ghost before = rows@.map_values(|r: ChainRow| r@);
        let row = ChainRow {
            numbering: number.clone(),
            depth,
            path: node.path.clone(),
            label: node.label.clone(),
            metadata: node_metadata(node),
            has_children: node.children.len() > 0,
            open,
            error: node.error.is_some(),
        };
        let ghost rv = row@;
        rows.push(row);
        assert(rows@.map_values(|r: ChainRow| r@) =~= before.push(rv));
        if open {
            push_chain_rows(&node.children, number.as_str(), depth + 1, collapsed, rows);
        }
        assert(rows@.map_values(|r: ChainRow| r@) =~= start + chain_rows(
            next,
            prefix@,
            depth as nat,
            cs,
        ));
        i = i + 1;
    }
    assert(nodes@.subrange(0, nodes@.len() as int) =~= nodes@);
}

/// The rows of the chain panel for `nodes`, with the configs of `collapsed` folded.
pub fn visible_chain_rows(nodes: &Vec<ChainNode>, collapsed: &CollapsedPaths) -> (r: Vec<ChainRow>)
    requires
        forest_height(nodes@) <= usize::MAX,
    ensures
        r@.map_values(|x: ChainRow| x@) == chain_rows(
            nodes@,
            Seq::empty(),
            0,
            collapsed.view_set(),
        ),
{
    let mut rows: Vec<ChainRow> = Vec::new();
    assert(rows@.map_values(|x: ChainRow| x@) =~= Seq::<ChainRowView>::empty());
    push_chain_rows(nodes, "", 0, collapsed, &mut rows);
    proof {
        reveal_strlit("");
        assert(""@.len() == 0);
        assert(""@ =~= Seq::<char>::empty());
    }
    assert(Seq::<ChainRowView>::empty() + chain_rows(nodes@, ""@, 0, collapsed.view_set())
        =~= chain_rows(nodes@, Seq::empty(), 0, collapsed.view_set()));
    rows
}

// ---------------------------------------------------------------------------------------------
// Linking and unlinking.
// ---------------------------------------------------------------------------------------------

/// The tasks of a chain, each as written with the file it resolves to: the paths alone.
pub open spec fn task_paths(tasks: Seq<(String, String)>) -> Seq<Seq<char>> {
    tasks.map_values(|t: (String, String)| t.0@)
}

/// The tasks that stay when the config resolving to `child` is unlinked: every task that
/// resolves elsewhere, in order.
pub open spec fn spec_unlinked(tasks: Seq<(String, String)>, child: Seq<char>) -> Seq<Seq<char>>
    decreases tasks.len(),
{
    if tasks.len() == 0 {
        Seq::empty()
    } else if tasks.last().1@ == child {
        spec_unlinked(tasks.drop_last(), child)
    } else {
        spec_unlinked(tasks.drop_last(), child).push(tasks.last().0@)
    }
}

/// The chain's tasks with the config that resolves to `child` taken out. Each task comes with
/// the file it resolves to.
pub fn unlinked_tasks(tasks: &Vec<(String, String)>, child: &str) -> (r: Vec<String>)
    ensures
        r@.map_values(|t: String| t@) == spec_unlinked(tasks@, child@),
{
    let mut r: Vec<String> = Vec::new();
    let mut i: usize = 0;
    while i < tasks.len()
        invariant
            i <= tasks@.len(),
            r@.map_values(|t: String| t@) == spec_unlinked(tasks@.subrange(0, i as int), child@),
        decreases tasks@.len() - i,
    {
        let ghost before = r@.map_values(|t: String| t@);
        proof {
            assert(tasks@.subrange(0, i + 1).drop_last() =~= tasks@.subrange(0, i as int));
        }
        if !text_equal(&tasks[i].1, &owned(child)) {
            r.push(tasks[i].0.clone());
            assert(r@.map_values(|t: String| t@) =~= before.push(tasks@[i as int].0@));
        }
        i = i + 1;
    }
    assert(tasks@.subrange(0, tasks@.len() as int) =~= tasks@);
    r
}

/// The refusal when the config to link already runs in the chain.
pub open spec fn already_linked() -> Seq<char> {
    "That config already runs in this chain."@
}

/// Links the config at `path`, which resolves to `resolved`, at the end of the chain; refused
/// when a task of the chain already resolves to the same file.
pub fn link_task(tasks: &Vec<(String, String)>, path: String, resolved: &str) -> (r: Result<
    Vec<String>,
    String,
>)
    ensures
        r is Err <==> exists|i: int| 0 <= i < tasks@.len() && (#[trigger] tasks@[i]).1@ == resolved@,
        r matches Err(e) ==> e@ == already_linked(),
        r matches Ok(v) ==> v@.map_values(|t: String| t@) == task_paths(tasks@).push(path@),
{
    let mut r: Vec<String> = Vec::new();
    let mut i: usize = 0;
    while i < tasks.len()
        invariant
            i <= tasks@.len(),
            r@.map_values(|t: String| t@) == task_paths(tasks@.subrange(0, i as int)),
            forall|j: int| 0 <= j < i ==> (#[trigger] tasks@[j]).1@ != resolved@,
        decreases tasks@.len() - i,
    {
        if text_equal(&tasks[i].1, &owned(resolved)) {
            return Err(owned("That config already runs in this chain."));
        }
        let ghost before = r@.map_values(|t: String| t@);
        r.push(tasks[i].0.clone());
        assert(r@.map_values(|t: String| t@) =~= before.push(tasks@[i as int].0@));
        assert(task_paths(tasks@.subrange(0, i + 1)) =~= task_paths(tasks@.subrange(0, i as int)).push(
            tasks@[i as int].0@,
        ));
        i = i + 1;
    }
    assert(tasks@.subrange(0, tasks@.len() as int) =~= tasks@);
    r.push(path);
    assert(r@.map_values(|t: String| t@) =~= task_paths(tasks@).push(path@));
    Ok(r)
}

/// Unlinking a config that no task resolves to leaves every task in place.
proof fn lemma_unlink_absent(tasks: Seq<(String, String)>, child: Seq<char>)
    requires
        forall|i: int| 0 <= i < tasks.len() ==> (#[trigger] tasks[i]).1@ != child,
    ensures
        spec_unlinked(tasks, child) == task_paths(tasks),
    decreases tasks.len(),
{
    if tasks.len() > 0 {
        let rest = tasks.drop_last();
        assert forall|i: int| 0 <= i < rest.len() implies (#[trigger] rest[i]).1@ != child by {
            assert(rest[i] == tasks[i]);
        }
        lemma_unlink_absent(rest, child);
        assert(tasks.last() == tasks[tasks.len() - 1]);
        assert(task_paths(tasks) =~= task_paths(rest).push(tasks.last().0@));
    }
}

/// Unlinking undoes linking: once a config has been linked at the end of a chain that did not
/// hold it, unlinking it gives the chain back as it was.
pub proof fn lemma_unlink_undoes_link(tasks: Seq<(String, String)>, path: String, resolved: String)
    requires
        forall|i: int| 0 <= i < tasks.len() ==> (#[trigger] tasks[i]).1@ != resolved@,
    ensures
        spec_unlinked(tasks.push((path, resolved)), resolved@) == task_paths(tasks),
{
    let linked = tasks.push((path, resolved));
    assert(linked.drop_last() =~= tasks);
    lemma_unlink_absent(tasks, resolved@);
}

} // verus!
