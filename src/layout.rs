use vstd::prelude::*;

verus! {

/// Settings that apply to the whole layout.
pub struct LayoutSettings {
    pub poll_interval_ms: Option<u64>,
    pub auto_expand_active: bool,
}

/// Default for flags that start enabled.
pub fn default_true() -> (r: bool)
    ensures
        r,
{
    true
}

impl Default for LayoutSettings {
    fn default() -> (r: LayoutSettings)
        ensures
            r.poll_interval_ms is None,
            r.auto_expand_active,
    {
        LayoutSettings { poll_interval_ms: None, auto_expand_active: default_true() }
    }
}

/// A file listed in a group.
pub struct FileEntry {
    pub path: String,
    /// Display name override.
    pub name: Option<String>,
    /// The path is a glob pattern (reserved).
    pub pattern: bool,
    /// The file starts paused.
    pub paused: bool,
    /// Index of the tailed file that follows this entry, once linked.
    pub tailed_file_idx: Option<usize>,
}

/// A node of the group tree. Nodes live in the layout's arena and refer to
/// each other by index: `parent_id` and the child indices in `groups`.
pub struct FileGroup {
    pub id: usize,
    pub name: String,
    pub icon: Option<String>,
    pub parent_id: Option<usize>,
    pub collapsed: bool,
    pub files: Vec<FileEntry>,
    pub groups: Vec<usize>,
    pub has_activity: bool,
    pub active_file_count: usize,
    pub total_file_count: usize,
    /// Collapse state the user chose by hand; `None` leaves it to auto-expand.
    pub user_collapsed: Option<bool>,
}

/// A forest of groups with layout-wide settings.
pub struct TailLayout {
    pub name: String,
    pub version: u32,
    pub settings: LayoutSettings,
    /// Top-level groups, by index into `groups`.
    pub root_groups: Vec<usize>,
    /// Every group, indexed by its id.
    pub groups: Vec<FileGroup>,
    /// Number of file entries over all groups.
    pub total_files: usize,
}

/// Why a group could not be added.
#[derive(Debug, Clone, Copy, PartialEq, Eq, Structural)]
pub enum LayoutError {
    UnknownParent,
    TooManyFiles,
}

/// Sum of the totals of the groups listed in `kids`.
pub open spec fn child_sum(gs: Seq<FileGroup>, kids: Seq<usize>) -> int
    decreases kids.len(),
{
    if kids.len() == 0 {
        0
    } else {
        let k = kids.last() as int;
        child_sum(gs, kids.drop_last()) + if k < gs.len() {
            gs[k].total_file_count as int
        } else {
            0
        }
    }
}

/// A node's total counts its own files and its children's totals.
pub open spec fn total_holds(gs: Seq<FileGroup>, i: int) -> bool {
    gs[i].total_file_count == gs[i].files@.len() + child_sum(gs, gs[i].groups@)
}

/// The arena's links agree: ids are indices, a parent comes before its
/// children, each child lists its parent and is listed once by it.
pub open spec fn links_wf(gs: Seq<FileGroup>, roots: Seq<usize>) -> bool {
    &&& forall|i: int| 0 <= i < gs.len() ==> (#[trigger] gs[i]).id == i
    &&& forall|i: int| 0 <= i < gs.len() ==> (#[trigger] gs[i]).groups@.no_duplicates()
    &&& forall|i: int, k: int|
        0 <= i < gs.len() && 0 <= k < gs[i].groups@.len() ==> i < #[trigger] gs[i].groups@[k]
            < gs.len() && gs[gs[i].groups@[k] as int].parent_id == Some(i as usize)
    &&& forall|i: int|
        0 <= i < gs.len() ==> match (#[trigger] gs[i]).parent_id {
            Some(p) => p < i && gs[p as int].groups@.contains(i as usize),
            None => roots.contains(i as usize),
        }
    &&& roots.no_duplicates()
    &&& forall|k: int|
        0 <= k < roots.len() ==> #[trigger] roots[k] < gs.len() && gs[roots[k] as int].parent_id
            is None
}

/// Two nodes that agree on everything but the total.
pub open spec fn same_but_total(a: FileGroup, b: FileGroup) -> bool {
    &&& a.id == b.id
    &&& a.name == b.name
    &&& a.icon == b.icon
    &&& a.parent_id == b.parent_id
    &&& a.collapsed == b.collapsed
    &&& a.files == b.files
    &&& a.groups == b.groups
    &&& a.has_activity == b.has_activity
    &&& a.active_file_count == b.active_file_count
    &&& a.user_collapsed == b.user_collapsed
}

proof fn lemma_child_sum_same(gs: Seq<FileGroup>, gs2: Seq<FileGroup>, kids: Seq<usize>)
    requires
        gs.len() == gs2.len(),
        forall|j: int| 0 <= j < gs.len() ==> #[trigger] gs[j].total_file_count == gs2[j].total_file_count,
    ensures
        child_sum(gs, kids) == child_sum(gs2, kids),
    decreases kids.len(),
{
    if kids.len() > 0 {
        lemma_child_sum_same(gs, gs2, kids.drop_last());
    }
}

proof fn lemma_child_sum_bump(gs: Seq<FileGroup>, gs2: Seq<FileGroup>, kids: Seq<usize>, x: usize, n: int)
    requires
        gs.len() == gs2.len(),
        0 <= x < gs.len(),
        gs2[x as int].total_file_count == gs[x as int].total_file_count + n,
        forall|j: int| 0 <= j < gs.len() && j != x as int ==> #[trigger] gs[j].total_file_count == gs2[j].total_file_count,
        kids.no_duplicates(),
    ensures
        child_sum(gs2, kids) == child_sum(gs, kids) + if kids.contains(x) {
            n
        } else {
            0
        },
    decreases kids.len(),
{
    if kids.len() > 0 {
        let rest = kids.drop_last();
        assert(rest.no_duplicates()) by {
            assert(forall|i: int| 0 <= i < rest.len() ==> rest[i] == kids[i]);
        }
        lemma_child_sum_bump(gs, gs2, rest, x, n);
        if kids.last() == x {
            assert(!rest.contains(x)) by {
                if rest.contains(x) {
                    let i = choose|i: int| 0 <= i < rest.len() && rest[i] == x;
                    assert(kids[i] == kids[kids.len() - 1]);
                }
            }
            assert(kids.contains(x)) by {
                assert(kids[kids.len() - 1] == x);
            }
        } else {
            assert(kids.contains(x) == rest.contains(x)) by {
                if kids.contains(x) {
                    let i = choose|i: int| 0 <= i < kids.len() && kids[i] == x;
                    assert(i < kids.len() - 1);
                    assert(rest[i] == x);
                }
                if rest.contains(x) {
                    let i = choose|i: int| 0 <= i < rest.len() && rest[i] == x;
                    assert(kids[i] == x);
                }
            }
        }
    }
}

proof fn lemma_child_sum_prefix(gs: Seq<FileGroup>, gs2: Seq<FileGroup>, kids: Seq<usize>)
    requires
        gs.len() <= gs2.len(),
        forall|j: int| 0 <= j < gs.len() ==> #[trigger] gs2[j].total_file_count == gs[j].total_file_count,
        forall|k: int| 0 <= k < kids.len() ==> #[trigger] kids[k] < gs.len(),
    ensures
        child_sum(gs2, kids) == child_sum(gs, kids),
    decreases kids.len(),
{
    if kids.len() > 0 {
        lemma_child_sum_prefix(gs, gs2, kids.drop_last());
        assert(kids[kids.len() - 1] < gs.len());
    }
}


/// Two nodes with the same links.
pub open spec fn same_links(a: FileGroup, b: FileGroup) -> bool {
    a.id == b.id && a.parent_id == b.parent_id && a.groups == b.groups
}

proof fn lemma_links_transfer(gs: Seq<FileGroup>, gs2: Seq<FileGroup>, roots: Seq<usize>)
    requires
        links_wf(gs, roots),
        gs.len() == gs2.len(),
        forall|j: int| 0 <= j < gs.len() ==> same_links(#[trigger] gs2[j], gs[j]),
    ensures
        links_wf(gs2, roots),
{
    assert forall|i: int, k: int|
        0 <= i < gs2.len() && 0 <= k < gs2[i].groups@.len() implies i < #[trigger] gs2[i].groups@[k]
        < gs2.len() && gs2[gs2[i].groups@[k] as int].parent_id == Some(i as usize) by {
        assert(same_links(gs2[i], gs[i]));
        assert(i < gs[i].groups@[k]);
        assert(same_links(gs2[gs[i].groups@[k] as int], gs[gs[i].groups@[k] as int]));
    }
    assert forall|i: int| 0 <= i < gs2.len() implies match (#[trigger] gs2[i]).parent_id {
        Some(p) => p < i && gs2[p as int].groups@.contains(i as usize),
        None => roots.contains(i as usize),
    } by {
        assert(same_links(gs2[i], gs[i]));
        match gs[i].parent_id {
            Some(p) => {
                assert(same_links(gs2[p as int], gs[p as int]));
            },
            None => {},
        }
    }
    assert forall|k: int| 0 <= k < roots.len() implies #[trigger] roots[k] < gs2.len()
        && gs2[roots[k] as int].parent_id is None by {
        assert(same_links(gs2[roots[k] as int], gs[roots[k] as int]));
    }
    assert forall|i: int| 0 <= i < gs2.len() implies (#[trigger] gs2[i]).id == i by {
        assert(same_links(gs2[i], gs[i]));
    }
    assert forall|i: int| 0 <= i < gs2.len() implies (#[trigger] gs2[i]).groups@.no_duplicates() by {
        assert(same_links(gs2[i], gs[i]));
    }
}

proof fn lemma_links_same_but_total(gs: Seq<FileGroup>, gs2: Seq<FileGroup>, roots: Seq<usize>)
    requires
        links_wf(gs, roots),
        gs.len() == gs2.len(),
        forall|j: int| 0 <= j < gs.len() ==> same_but_total(#[trigger] gs2[j], gs[j]),
    ensures
        links_wf(gs2, roots),
{
    assert forall|j: int| 0 <= j < gs.len() implies same_links(#[trigger] gs2[j], gs[j]) by {
        assert(same_but_total(gs2[j], gs[j]));
    }
    lemma_links_transfer(gs, gs2, roots);
}

/// One step of the walk up the ancestors: `x` lacked `n` in its total and
/// now has it; the lack moves to its parent, if any.
proof fn lemma_walk_step(gs: Seq<FileGroup>, gs2: Seq<FileGroup>, roots: Seq<usize>, x: usize, n: int)
    requires
        links_wf(gs, roots),
        x < gs.len(),
        gs.len() == gs2.len(),
        forall|j: int| 0 <= j < gs.len() ==> same_but_total(#[trigger] gs2[j], gs[j]),
        gs2[x as int].total_file_count == gs[x as int].total_file_count + n,
        forall|j: int| 0 <= j < gs.len() && j != x ==> #[trigger] gs2[j].total_file_count == gs[j].total_file_count,
        forall|j: int| 0 <= j < gs.len() && j != x ==> total_holds(gs, j),
        gs[x as int].total_file_count + n == gs[x as int].files@.len() + child_sum(gs, gs[x as int].groups@),
    ensures
        links_wf(gs2, roots),
        forall|j: int|
            0 <= j < gs.len() && gs[x as int].parent_id != Some(j as usize) ==> total_holds(gs2, j),
        gs[x as int].parent_id matches Some(p) ==> gs2[p as int].total_file_count + n
            == gs2[p as int].files@.len() + child_sum(gs2, gs2[p as int].groups@),
{
    lemma_links_same_but_total(gs, gs2, roots);
    assert forall|j: int| 0 <= j < gs.len() implies #[trigger] child_sum(gs2, gs[j].groups@) == child_sum(
        gs,
        gs[j].groups@,
    ) + if gs[j].groups@.contains(x) {
        n
    } else {
        0
    } by {
        lemma_child_sum_bump(gs, gs2, gs[j].groups@, x, n);
    }
    assert forall|j: int| 0 <= j < gs.len() && gs[j].groups@.contains(x) implies gs[x as int].parent_id
        == Some(j as usize) by {
        let k = choose|k: int| 0 <= k < gs[j].groups@.len() && gs[j].groups@[k] == x;
        assert(j < gs[j].groups@[k]);
    }
    assert forall|j: int|
        0 <= j < gs.len() && gs[x as int].parent_id != Some(j as usize) implies total_holds(gs2, j) by {
        assert(same_but_total(gs2[j], gs[j]));
        assert(child_sum(gs2, gs[j].groups@) == child_sum(gs, gs[j].groups@) + if gs[j].groups@.contains(x) {
            n
        } else {
            0
        });
        if gs[j].groups@.contains(x) {
            assert(gs[x as int].parent_id == Some(j as usize));
        }
        if j != x {
            assert(total_holds(gs, j));
        }
        if j == x {
            assert(!gs[j].groups@.contains(x)) by {
                if gs[j].groups@.contains(x) {
                    let k = choose|k: int| 0 <= k < gs[j].groups@.len() && gs[j].groups@[k] == x;
                    assert(j < gs[j].groups@[k]);
                }
            }
        }
    }
    match gs[x as int].parent_id {
        Some(p) => {
            assert(gs[x as int].parent_id matches Some(q) && q < x && gs[q as int].groups@.contains(x));
            assert(same_but_total(gs2[p as int], gs[p as int]));
            assert(child_sum(gs2, gs[p as int].groups@) == child_sum(gs, gs[p as int].groups@) + n);
            assert(total_holds(gs, p as int));
            assert(gs2[p as int].total_file_count == gs[p as int].total_file_count);
        },
        None => {},
    }
}

/// Linking a fresh node `id` (no children, `n` files) under `parent`
/// keeps the links consistent; every total still holds but the parent's,
/// which now lacks `n`.
proof fn lemma_link_new(
    g_old: Seq<FileGroup>,
    roots_old: Seq<usize>,
    g1: Seq<FileGroup>,
    roots: Seq<usize>,
    parent: Option<usize>,
    id: usize,
    n: int,
)
    requires
        links_wf(g_old, roots_old),
        forall|i: int| 0 <= i < g_old.len() ==> total_holds(g_old, i),
        id == g_old.len(),
        g1.len() == id + 1,
        g1[id as int].id == id,
        g1[id as int].groups@.len() == 0,
        g1[id as int].parent_id == parent,
        g1[id as int].total_file_count == n,
        g1[id as int].files@.len() == n,
        forall|j: int| 0 <= j < id && parent != Some(j as usize) ==> #[trigger] g1[j] == g_old[j],
        parent matches Some(p) ==> {
            &&& p < id
            &&& g1[p as int].groups@ == g_old[p as int].groups@.push(id)
            &&& g1[p as int].id == g_old[p as int].id
            &&& g1[p as int].parent_id == g_old[p as int].parent_id
            &&& g1[p as int].total_file_count == g_old[p as int].total_file_count
            &&& g1[p as int].files == g_old[p as int].files
            &&& roots == roots_old
        },
        parent is None ==> roots == roots_old.push(id),
    ensures
        links_wf(g1, roots),
        forall|j: int| 0 <= j <= id && parent != Some(j as usize) ==> total_holds(g1, j),
        parent matches Some(p) ==> g1[p as int].total_file_count + n == g1[p as int].files@.len()
            + child_sum(g1, g1[p as int].groups@),
{
    // Every old child list and root names an old node.
    assert forall|i: int| 0 <= i < id implies !(#[trigger] g_old[i].groups@).contains(id) by {
        if g_old[i].groups@.contains(id) {
            let k = choose|k: int| 0 <= k < g_old[i].groups@.len() && g_old[i].groups@[k] == id;
            assert(g_old[i].groups@[k] < g_old.len());
        }
    }
    assert(!roots_old.contains(id)) by {
        if roots_old.contains(id) {
            let k = choose|k: int| 0 <= k < roots_old.len() && roots_old[k] == id;
            assert(roots_old[k] < g_old.len());
        }
    }
    assert forall|i: int| 0 <= i <= id implies (#[trigger] g1[i]).id == i by {
        if i < id && parent != Some(i as usize) {
            assert(g1[i] == g_old[i]);
        }
    }
    assert forall|i: int| 0 <= i <= id implies (#[trigger] g1[i]).groups@.no_duplicates() by {
        if i < id && parent != Some(i as usize) {
            assert(g1[i] == g_old[i]);
        }
        if parent == Some(i as usize) {
            assert(g_old[i].groups@.no_duplicates());
            assert(!g_old[i].groups@.contains(id));
            assert forall|a: int, b: int|
                0 <= a < b < g1[i].groups@.len() implies g1[i].groups@[a] != g1[i].groups@[b] by {
                if b == g1[i].groups@.len() - 1 {
                    assert(g_old[i].groups@[a] == g1[i].groups@[a]);
                }
            }
        }
    }
    assert forall|i: int, k: int|
        0 <= i < g1.len() && 0 <= k < g1[i].groups@.len() implies i < #[trigger] g1[i].groups@[k]
        < g1.len() && g1[g1[i].groups@[k] as int].parent_id == Some(i as usize) by {
        if i < id {
            if parent == Some(i as usize) && k == g_old[i].groups@.len() {
                assert(g1[i].groups@[k] == id);
            } else {
                if parent == Some(i as usize) {
                    assert(g1[i].groups@[k] == g_old[i].groups@[k]);
                } else {
                    assert(g1[i] == g_old[i]);
                }
                let c = g_old[i].groups@[k];
                assert(i < c < g_old.len());
                assert(g_old[c as int].parent_id == Some(i as usize));
                if parent != Some(c) {
                    assert(g1[c as int] == g_old[c as int]);
                }
            }
        }
    }
    assert forall|i: int| 0 <= i < g1.len() implies match (#[trigger] g1[i]).parent_id {
        Some(q) => q < i && g1[q as int].groups@.contains(i as usize),
        None => roots.contains(i as usize),
    } by {
        if i == id {
            match parent {
                Some(p) => {
                    assert(g1[p as int].groups@[g1[p as int].groups@.len() - 1] == id);
                },
                None => {
                    assert(roots[roots.len() - 1] == id);
                },
            }
        } else {
            if parent != Some(i as usize) {
                assert(g1[i] == g_old[i]);
            }
            match g_old[i].parent_id {
                Some(q) => {
                    let k = choose|k: int| 0 <= k < g_old[q as int].groups@.len() && g_old[q as int].groups@[k] == i as usize;
                    if parent == Some(q) {
                        assert(g1[q as int].groups@[k] == i as usize);
                    } else {
                        assert(g1[q as int] == g_old[q as int]);
                    }
                },
                None => {
                    let k = choose|k: int| 0 <= k < roots_old.len() && roots_old[k] == i as usize;
                    if parent is None {
                        assert(roots[k] == i as usize);
                    }
                },
            }
        }
    }
    assert(roots.no_duplicates()) by {
        if parent is None {
            assert forall|a: int, b: int| 0 <= a < b < roots.len() implies roots[a] != roots[b] by {
                if b == roots.len() - 1 {
                    assert(roots_old[a] == roots[a]);
                }
            }
        }
    }
    assert forall|k: int| 0 <= k < roots.len() implies #[trigger] roots[k] < g1.len()
        && g1[roots[k] as int].parent_id is None by {
        if k < roots_old.len() {
            assert(roots[k] == roots_old[k]);
            let r = roots_old[k];
            assert(r < g_old.len() && g_old[r as int].parent_id is None);
            if parent != Some(r) {
                assert(g1[r as int] == g_old[r as int]);
            }
        }
    }
    // Totals: appending the node leaves old child sums alone.
    assert forall|j: int| 0 <= j < id implies #[trigger] child_sum(g1, g_old[j].groups@) == child_sum(
        g_old,
        g_old[j].groups@,
    ) by {
        assert forall|k: int| 0 <= k < g_old[j].groups@.len() implies #[trigger] g_old[j].groups@[k]
            < g_old.len() by {
            assert(j < g_old[j].groups@[k]);
        }
        lemma_child_sum_prefix(g_old, g1, g_old[j].groups@);
    }
    assert forall|j: int| 0 <= j <= id && parent != Some(j as usize) implies total_holds(g1, j) by {
        if j < id {
            assert(g1[j] == g_old[j]);
            assert(total_holds(g_old, j));
        } else {
            assert(child_sum(g1, g1[j].groups@) == 0);
        }
    }
    match parent {
        Some(p) => {
            let kids = g_old[p as int].groups@;
            assert(kids.push(id).drop_last() =~= kids);
            assert(kids.push(id).last() == id);
            assert(child_sum(g1, kids) == child_sum(g_old, kids));
            assert(child_sum(g1, g1[p as int].groups@) == child_sum(g1, kids) + n);
            assert(total_holds(g_old, p as int));
        },
        None => {},
    }
}

/// A node's active count after one child turns active (+1, saturating) or
/// idle (-1, stopping at 0).
pub open spec fn bump_count(c: usize, active: bool) -> usize {
    if active {
        crate::sat_add_usize(c, 1)
    } else if c == 0 {
        0
    } else {
        (c - 1) as usize
    }
}

/// A node after one child's activity transition: the count moves, the flag
/// follows the count, and a node that just became active is expanded when
/// auto-expand is on and the user has not chosen its collapse state.
pub open spec fn activity_node(g: FileGroup, active: bool, auto: bool) -> FileGroup {
    let c = bump_count(g.active_file_count, active);
    FileGroup {
        active_file_count: c,
        has_activity: c > 0,
        collapsed: if c > 0 && !g.has_activity && auto && g.user_collapsed is None {
            false
        } else {
            g.collapsed
        },
        ..g
    }
}

/// The arena after a child of node `id` turns active or idle: the node is
/// updated, and when its own activity flag flips, the flip is passed on to
/// its parent as that parent's child transition. Unknown ids change nothing.
pub open spec fn propagate(gs: Seq<FileGroup>, id: int, active: bool, auto: bool) -> Seq<FileGroup>
    decreases id,
{
    if 0 <= id < gs.len() {
        let g = gs[id];
        let g2 = activity_node(g, active, auto);
        let gs2 = gs.update(id, g2);
        if g2.has_activity != g.has_activity {
            match g.parent_id {
                Some(p) => if p < id {
                    propagate(gs2, p as int, g2.has_activity, auto)
                } else {
                    gs2
                },
                None => gs2,
            }
        } else {
            gs2
        }
    } else {
        gs
    }
}

/// Two nodes with the same structure: id, links, files and total.
pub open spec fn same_shape(a: FileGroup, b: FileGroup) -> bool {
    &&& a.id == b.id
    &&& a.name == b.name
    &&& a.icon == b.icon
    &&& a.parent_id == b.parent_id
    &&& a.files == b.files
    &&& a.groups == b.groups
    &&& a.total_file_count == b.total_file_count
    &&& a.user_collapsed == b.user_collapsed
}

proof fn lemma_propagate_shape(gs: Seq<FileGroup>, id: int, active: bool, auto: bool)
    ensures
        propagate(gs, id, active, auto).len() == gs.len(),
        forall|j: int|
            0 <= j < gs.len() ==> same_shape(#[trigger] propagate(gs, id, active, auto)[j], gs[j]),
        (forall|j: int| 0 <= j < gs.len() ==> (#[trigger] gs[j]).has_activity == (gs[j].active_file_count > 0))
            ==> forall|j: int| 0 <= j < gs.len() ==> (#[trigger] propagate(gs, id, active, auto)[j]).has_activity
                == (propagate(gs, id, active, auto)[j].active_file_count > 0),
        forall|j: int| 0 <= j < gs.len() && j > id ==> #[trigger] propagate(gs, id, active, auto)[j] == gs[j],
    decreases id,
{
    if 0 <= id < gs.len() {
        let g = gs[id];
        let g2 = activity_node(g, active, auto);
        let gs2 = gs.update(id, g2);
        if g2.has_activity != g.has_activity {
            match g.parent_id {
                Some(p) => if p < id {
                    lemma_propagate_shape(gs2, p as int, g2.has_activity, auto);
                },
                None => {},
            }
        }
    }
}

proof fn lemma_propagate_wf(l: TailLayout, gs2: Seq<FileGroup>, id: int, active: bool)
    requires
        l.wf(),
        gs2 == propagate(l.groups@, id, active, l.settings.auto_expand_active),
    ensures
        links_wf(gs2, l.root_groups@),
        gs2.len() == l.groups@.len(),
        forall|i: int| 0 <= i < gs2.len() ==> total_holds(gs2, i),
        forall|i: int| 0 <= i < gs2.len() ==> (#[trigger] gs2[i]).total_file_count <= l.total_files,
        forall|i: int| 0 <= i < gs2.len() ==> (#[trigger] gs2[i]).has_activity == (gs2[i].active_file_count > 0),
{
    let gs = l.groups@;
    lemma_propagate_shape(gs, id, active, l.settings.auto_expand_active);
    assert forall|j: int| 0 <= j < gs.len() implies same_links(#[trigger] gs2[j], gs[j]) by {
        assert(same_shape(gs2[j], gs[j]));
    }
    lemma_links_transfer(gs, gs2, l.root_groups@);
    assert forall|j: int| 0 <= j < gs.len() implies #[trigger] gs[j].total_file_count == gs2[j].total_file_count by {
        assert(same_shape(gs2[j], gs[j]));
    }
    assert forall|i: int| 0 <= i < gs2.len() implies total_holds(gs2, i) by {
        assert(same_shape(gs2[i], gs[i]));
        assert(total_holds(gs, i));
        lemma_child_sum_same(gs, gs2, gs[i].groups@);
    }
    assert forall|i: int| 0 <= i < gs2.len() implies (#[trigger] gs2[i]).total_file_count <= l.total_files by {
        assert(same_shape(gs2[i], gs[i]));
        assert(gs[i].total_file_count <= l.total_files);
    }
}

/// Activity propagation is driven by edges, not levels: applying the same
/// activation of group `id` a second time, with no deactivation between,
/// moves only that group's own count and leaves every other group, its
/// ancestors included, as the first application left it.
pub proof fn lemma_repeated_activation_stays_local(l: TailLayout, id: usize)
    requires
        l.wf(),
        id < l.groups@.len(),
    ensures
        ({
            let auto = l.settings.auto_expand_active;
            let once = propagate(l.groups@, id as int, true, auto);
            let twice = propagate(once, id as int, true, auto);
            &&& twice.len() == once.len()
            &&& forall|j: int| 0 <= j < once.len() && j != id ==> #[trigger] twice[j] == once[j]
            &&& twice[id as int].active_file_count == crate::sat_add_usize(
                once[id as int].active_file_count,
                1,
            )
            &&& once[id as int].has_activity && twice[id as int].has_activity
        }),
{
    let auto = l.settings.auto_expand_active;
    let gs = l.groups@;
    let g = gs[id as int];
    let g2 = activity_node(g, true, auto);
    let gs2 = gs.update(id as int, g2);
    if g2.has_activity != g.has_activity {
        match g.parent_id {
            Some(p) => if p < id {
                lemma_propagate_shape(gs2, p as int, g2.has_activity, auto);
            },
            None => {},
        }
    }
    let once = propagate(gs, id as int, true, auto);
    assert(once[id as int] == g2);
    lemma_propagate_shape(gs, id as int, true, auto);
    let twice = propagate(once, id as int, true, auto);
    assert(twice =~= once.update(id as int, activity_node(once[id as int], true, auto)));
}

/// In a loaded layout each group's total file count is its own file count
/// plus the totals of its child groups, and activity transitions never
/// change it: only active counts vary.
pub proof fn lemma_totals_hold_and_stay(l: TailLayout, id: usize, active: bool)
    requires
        l.wf(),
    ensures
        forall|i: int|
            0 <= i < l.groups@.len() ==> #[trigger] l.groups@[i].total_file_count == l.groups@[i].files@.len()
                + child_sum(l.groups@, l.groups@[i].groups@),
        ({
            let after = propagate(l.groups@, id as int, active, l.settings.auto_expand_active);
            &&& after.len() == l.groups@.len()
            &&& forall|i: int|
                0 <= i < l.groups@.len() ==> #[trigger] after[i].total_file_count
                    == l.groups@[i].total_file_count
        }),
{
    assert forall|i: int| 0 <= i < l.groups@.len() implies #[trigger] l.groups@[i].total_file_count
        == l.groups@[i].files@.len() + child_sum(l.groups@, l.groups@[i].groups@) by {
        assert(total_holds(l.groups@, i));
    }
    lemma_propagate_shape(l.groups@, id as int, active, l.settings.auto_expand_active);
    let after = propagate(l.groups@, id as int, active, l.settings.auto_expand_active);
    assert forall|i: int| 0 <= i < l.groups@.len() implies #[trigger] after[i].total_file_count
        == l.groups@[i].total_file_count by {
        assert(same_shape(after[i], l.groups@[i]));
    }
}

/// View of an optional string.
pub open spec fn opt_view(o: Option<String>) -> Option<Seq<char>> {
    match o {
        Some(s) => Some(s@),
        None => None,
    }
}

/// What a layout reports of one file entry of group `gid`: its path, its
/// display name override, the group and whether it starts paused.
pub open spec fn entry_row(f: FileEntry, gid: usize) -> (Seq<char>, Option<Seq<char>>, usize, bool) {
    (f.path@, opt_view(f.name), gid, f.paused)
}

/// Rows of the entries of `files`, all in group `gid`.
pub open spec fn entry_rows(files: Seq<FileEntry>, gid: usize) -> Seq<(Seq<char>, Option<Seq<char>>, usize, bool)> {
    files.map_values(|f: FileEntry| entry_row(f, gid))
}

/// Rows of every file entry of the first `n` groups, group by group.
pub open spec fn rows_upto(gs: Seq<FileGroup>, n: int) -> Seq<(Seq<char>, Option<Seq<char>>, usize, bool)>
    decreases n,
{
    if n <= 0 {
        Seq::empty()
    } else {
        rows_upto(gs, n - 1) + entry_rows(gs[n - 1].files@, (n - 1) as usize)
    }
}

/// View of a reported row.
pub open spec fn row_view(t: (String, Option<String>, usize, bool)) -> (Seq<char>, Option<Seq<char>>, usize, bool) {
    (t.0@, opt_view(t.1), t.2, t.3)
}

/// Every row of the first `n` groups names one of them.
pub proof fn lemma_rows_group_ids(gs: Seq<FileGroup>, n: int)
    requires
        n <= gs.len(),
    ensures
        forall|k: int| 0 <= k < rows_upto(gs, n).len() ==> (#[trigger] rows_upto(gs, n)[k]).2 < n,
    decreases n,
{
    if n > 0 {
        lemma_rows_group_ids(gs, n - 1);
        let pre = rows_upto(gs, n - 1);
        let add = entry_rows(gs[n - 1].files@, (n - 1) as usize);
        assert forall|k: int| 0 <= k < rows_upto(gs, n).len() implies (#[trigger] rows_upto(gs, n)[k]).2 < n by {
            if k < pre.len() {
                assert(rows_upto(gs, n)[k] == pre[k]);
            } else {
                assert(rows_upto(gs, n)[k] == add[k - pre.len()]);
            }
        }
    }
}

fn clone_opt_string(o: &Option<String>) -> (r: Option<String>)
    ensures
        opt_view(r) == opt_view(*o),
{
    match o {
        Some(s) => Some(s.clone()),
        None => None,
    }
}

impl TailLayout {
    /// Well-formed layout: the links agree, every total holds and stays
    /// within the layout's file count, and each activity flag matches its
    /// count.
    pub open spec fn wf(&self) -> bool {
        &&& links_wf(self.groups@, self.root_groups@)
        &&& forall|i: int| 0 <= i < self.groups@.len() ==> total_holds(self.groups@, i)
        &&& forall|i: int|
            0 <= i < self.groups@.len() ==> (#[trigger] self.groups@[i]).total_file_count
                <= self.total_files
        &&& forall|i: int|
            0 <= i < self.groups@.len() ==> (#[trigger] self.groups@[i]).has_activity == (
            self.groups@[i].active_file_count > 0)
    }

    /// An empty layout.
    pub fn new(name: String, version: u32, settings: LayoutSettings) -> (r: TailLayout)
        ensures
            r.wf(),
            r.name@ == name@,
            r.version == version,
            r.settings == settings,
            r.groups@.len() == 0,
            r.root_groups@.len() == 0,
            r.total_files == 0,
    {
        TailLayout {
            name,
            version,
            settings,
            root_groups: Vec::new(),
            groups: Vec::new(),
            total_files: 0,
        }
    }

    /// Adds a group under `parent` (a top-level group when `None`) holding
    /// `files`, and returns its id, the next free index. The totals of the
    /// new group's ancestors grow by its file count. Fails, changing nothing,
    /// when the parent does not exist or the layout's file count would
    /// overflow.
    pub fn add_group(
        &mut self,
        parent: Option<usize>,
        name: String,
        icon: Option<String>,
        collapsed: bool,
        files: Vec<FileEntry>,
    ) -> (r: Result<usize, LayoutError>)
        requires
            old(self).wf(),
        ensures
            final(self).wf(),
            (parent matches Some(p) && p >= old(self).groups@.len()) ==> r == Err::<
                usize,
                LayoutError,
            >(LayoutError::UnknownParent),
            !(parent matches Some(p) && p >= old(self).groups@.len()) && old(self).total_files
                + files@.len() > usize::MAX ==> r == Err::<usize, LayoutError>(
                LayoutError::TooManyFiles,
            ),
            r is Err ==> *final(self) == *old(self),
            r is Ok <==> !(parent matches Some(p) && p >= old(self).groups@.len())
                && old(self).total_files + files@.len() <= usize::MAX,
            r matches Ok(id) ==> {
                &&& id == old(self).groups@.len()
                &&& final(self).groups@.len() == id + 1
                &&& final(self).total_files == old(self).total_files + files@.len()
                &&& final(self).name == old(self).name
                &&& final(self).version == old(self).version
                &&& final(self).settings == old(self).settings
                &&& final(self).groups@[id as int].name == name
                &&& final(self).groups@[id as int].icon == icon
                &&& final(self).groups@[id as int].collapsed == collapsed
                &&& final(self).groups@[id as int].files == files
                &&& final(self).groups@[id as int].parent_id == parent
                &&& final(self).groups@[id as int].groups@.len() == 0
                &&& final(self).groups@[id as int].active_file_count == 0
                &&& final(self).groups@[id as int].user_collapsed is None
                &&& parent is None ==> final(self).root_groups@ == old(self).root_groups@.push(id)
                &&& parent is Some ==> final(self).root_groups@ == old(self).root_groups@
                &&& forall|j: int|
                    0 <= j < id && parent != Some(j as usize) ==> same_but_total(
                        #[trigger] final(self).groups@[j],
                        old(self).groups@[j],
                    )
                &&& parent matches Some(p) ==> final(self).groups@[p as int].groups@ == old(
                    self,
                ).groups@[p as int].groups@.push(id)
            },
    {
        let n = files.len();
        match parent {
            Some(p) => {
                if p >= self.groups.len() {
                    return Err(LayoutError::UnknownParent);
                }
            },
            None => {},
        }
        if n > usize::MAX - self.total_files {
            return Err(LayoutError::TooManyFiles);
        }
        let ghost g_old = self.groups@;
        let id = self.groups.len();
        self.total_files = self.total_files + n;
        let node = FileGroup {
            id,
            name,
            icon,
            parent_id: parent,
            collapsed,
            files,
            groups: Vec::new(),
            has_activity: false,
            active_file_count: 0,
            total_file_count: n,
            user_collapsed: None,
        };
        self.groups.push(node);
        let ghost roots_old = self.root_groups@;
        match parent {
            Some(p) => {
                self.groups[p].groups.push(id);
            },
            None => {
                self.root_groups.push(id);
            },
        }
        let ghost g1 = self.groups@;
        proof {
            lemma_link_new(g_old, roots_old, self.groups@, self.root_groups@, parent, id, n as int);
            assert forall|j: int| 0 <= j < id implies #[trigger] g_old[j].total_file_count + n <= self.total_files by {
                assert(g_old[j].total_file_count <= old(self).total_files);
            }
            assert forall|j: int| 0 <= j < id && parent != Some(j as usize) implies #[trigger] self.groups@[j] == g_old[j] by {}
        }
        let mut cur = parent;
        while cur.is_some()
            invariant
                self.groups@.len() == id + 1,
                links_wf(self.groups@, self.root_groups@),
                cur matches Some(x) ==> x < id,
                forall|j: int|
                    0 <= j <= id && cur != Some(j as usize) ==> total_holds(self.groups@, j),
                cur matches Some(x) ==> self.groups@[x as int].total_file_count + n
                    == self.groups@[x as int].files@.len() + child_sum(
                    self.groups@,
                    self.groups@[x as int].groups@,
                ),
                forall|j: int|
                    0 <= j <= id ==> #[trigger] self.groups@[j].total_file_count <= self.total_files,
                cur matches Some(x) ==> forall|j: int|
                    0 <= j <= x ==> #[trigger] self.groups@[j].total_file_count
                        == g_old[j].total_file_count,
                forall|j: int|
                    0 <= j < id ==> #[trigger] g_old[j].total_file_count + n <= self.total_files,
                id == g_old.len(),
                forall|j: int| 0 <= j <= id ==> same_but_total(#[trigger] self.groups@[j], g1[j]),
                forall|j: int|
                    0 <= j <= id ==> (#[trigger] self.groups@[j]).has_activity == (
                    self.groups@[j].active_file_count > 0),
                self.root_groups == old(self).root_groups || (parent is None && self.root_groups@ == old(self).root_groups@.push(id)),
                self.name == old(self).name,
                self.version == old(self).version,
                self.settings == old(self).settings,
                self.total_files == old(self).total_files + n,
            decreases match cur {
                Some(x) => x + 1,
                None => 0,
            },
        {
            let x = cur.unwrap();
            let ghost before = self.groups@;
            let t = self.groups[x].total_file_count;
            self.groups[x].total_file_count = t + n;
            proof {
                assert forall|j: int| 0 <= j < before.len() implies same_but_total(
                    #[trigger] self.groups@[j],
                    before[j],
                ) by {}
                lemma_walk_step(before, self.groups@, self.root_groups@, x, n as int);
            }
            cur = self.groups[x].parent_id;
        }
        Ok(id)
    }

    /// Applies one child's activity transition to group `group_id` (no-op
    /// for an unknown id): its active count moves by one, its flag follows,
    /// and a flip of the flag is passed on to the parent, up the tree.
    pub fn update_group_activity(&mut self, group_id: usize, child_active: bool)
        requires
            old(self).wf(),
        ensures
            final(self).wf(),
            final(self).groups@ == propagate(
                old(self).groups@,
                group_id as int,
                child_active,
                old(self).settings.auto_expand_active,
            ),
            final(self).root_groups == old(self).root_groups,
            final(self).name == old(self).name,
            final(self).version == old(self).version,
            final(self).settings == old(self).settings,
            final(self).total_files == old(self).total_files,
    {
        let auto = self.settings.auto_expand_active;
        let mut id = group_id;
        let mut active = child_active;
        loop
            invariant_except_break
                propagate(old(self).groups@, group_id as int, child_active, auto) == propagate(
                    self.groups@,
                    id as int,
                    active,
                    auto,
                ),
            invariant
                auto == self.settings.auto_expand_active,
                links_wf(self.groups@, self.root_groups@),
                self.root_groups == old(self).root_groups,
                self.name == old(self).name,
                self.version == old(self).version,
                self.settings == old(self).settings,
                self.total_files == old(self).total_files,
            ensures
                self.groups@ == propagate(old(self).groups@, group_id as int, child_active, auto),
                self.root_groups == old(self).root_groups,
                self.name == old(self).name,
                self.version == old(self).version,
                self.settings == old(self).settings,
                self.total_files == old(self).total_files,
            decreases id,
        {
            if id >= self.groups.len() {
                break;
            }
            let was = self.groups[id].has_activity;
            let c = self.groups[id].active_file_count;
            let c2 = if active {
                c.saturating_add(1)
            } else {
                c.saturating_sub(1)
            };
            let ghost before = self.groups@;
            let expand = c2 > 0 && !was && auto && self.groups[id].user_collapsed.is_none();
            self.groups[id].active_file_count = c2;
            self.groups[id].has_activity = c2 > 0;
            if expand {
                self.groups[id].collapsed = false;
            }
            assert(self.groups@ =~= before.update(id as int, activity_node(before[id as int], active, auto)));
            proof {
                assert forall|j: int| 0 <= j < before.len() implies same_links(#[trigger] self.groups@[j], before[j]) by {}
                lemma_links_transfer(before, self.groups@, self.root_groups@);
            }
            assert(activity_node(before[id as int], active, auto).has_activity == (c2 > 0));
            assert(before[id as int].has_activity == was);
            if (c2 > 0) == was {
                assert(propagate(before, id as int, active, auto) == self.groups@);
                break;
            }
            match self.groups[id].parent_id {
                Some(p) => {
                    assert(before[id as int].parent_id == Some(p));
                    assert(p < id);
                    active = c2 > 0;
                    id = p;
                },
                None => {
                    assert(propagate(before, id as int, active, auto) == self.groups@);
                    break;
                },
            }
        }
        proof {
            lemma_propagate_wf(*old(self), self.groups@, group_id as int, child_active);
        }
    }

    /// The group with id `id`, if there is one.
    pub fn find_group(&self, id: usize) -> (r: Option<&FileGroup>)
        ensures
            r is Some <==> id < self.groups@.len(),
            r matches Some(g) ==> *g == self.groups@[id as int],
    {
        if id < self.groups.len() {
            Some(&self.groups[id])
        } else {
            None
        }
    }

    /// The user collapses or expands group `id` by hand: the new state is
    /// recorded as the user's choice, which auto-expand then leaves alone.
    /// Unknown ids change nothing.
    pub fn toggle_collapsed(&mut self, id: usize)
        requires
            old(self).wf(),
        ensures
            final(self).wf(),
            final(self).groups@.len() == old(self).groups@.len(),
            id < old(self).groups@.len() ==> {
                &&& final(self).groups@[id as int].collapsed == !old(self).groups@[id as int].collapsed
                &&& final(self).groups@[id as int].user_collapsed == Some(
                    !old(self).groups@[id as int].collapsed,
                )
                &&& same_links(final(self).groups@[id as int], old(self).groups@[id as int])
                &&& final(self).groups@[id as int].files == old(self).groups@[id as int].files
                &&& final(self).groups@[id as int].total_file_count == old(
                    self,
                ).groups@[id as int].total_file_count
                &&& final(self).groups@[id as int].active_file_count == old(
                    self,
                ).groups@[id as int].active_file_count
                &&& final(self).groups@[id as int].has_activity == old(
                    self,
                ).groups@[id as int].has_activity
            },
            forall|j: int|
                0 <= j < old(self).groups@.len() && j != id ==> #[trigger] final(self).groups@[j]
                    == old(self).groups@[j],
            id >= old(self).groups@.len() ==> final(self).groups@ == old(self).groups@,
            final(self).root_groups == old(self).root_groups,
            final(self).settings == old(self).settings,
            final(self).total_files == old(self).total_files,
    {
        if id < self.groups.len() {
            let ghost before = self.groups@;
            let now = !self.groups[id].collapsed;
            self.groups[id].collapsed = now;
            self.groups[id].user_collapsed = Some(now);
            proof {
                assert forall|j: int| 0 <= j < before.len() implies same_links(#[trigger] self.groups@[j], before[j]) by {}
                lemma_links_transfer(before, self.groups@, self.root_groups@);
                assert forall|j: int| 0 <= j < before.len() implies #[trigger] before[j].total_file_count
                    == self.groups@[j].total_file_count by {}
                assert forall|i: int| 0 <= i < before.len() implies total_holds(self.groups@, i) by {
                    assert(total_holds(before, i));
                    lemma_child_sum_same(before, self.groups@, before[i].groups@);
                }
            }
        }
    }

    /// Every file entry of the layout as (path, display name override, group
    /// id, starts paused), group by group in id order, each group's files in
    /// their listed order.
    pub fn get_all_file_paths(&self) -> (r: Vec<(String, Option<String>, usize, bool)>)
        ensures
            r@.map_values(|t: (String, Option<String>, usize, bool)| row_view(t)) == rows_upto(
                self.groups@,
                self.groups@.len() as int,
            ),
    {
        let mut paths: Vec<(String, Option<String>, usize, bool)> = Vec::new();
        let mut g: usize = 0;
        while g < self.groups.len()
            invariant
                g <= self.groups@.len(),
                paths@.map_values(|t: (String, Option<String>, usize, bool)| row_view(t)) == rows_upto(
                    self.groups@,
                    g as int,
                ),
            decreases self.groups@.len() - g,
        {
            let group = &self.groups[g];
            let ghost start = paths@.map_values(|t: (String, Option<String>, usize, bool)| row_view(t));
            let mut k: usize = 0;
            while k < group.files.len()
                invariant
                    k <= group.files@.len(),
                    *group == self.groups@[g as int],
                    g < self.groups@.len(),
                    paths@.map_values(|t: (String, Option<String>, usize, bool)| row_view(t)) == start
                        + entry_rows(group.files@.subrange(0, k as int), g),
                decreases group.files@.len() - k,
            {
                let f = &group.files[k];
                let row = (f.path.clone(), clone_opt_string(&f.name), g, f.paused);
                let ghost prev = paths@;
                paths.push(row);
                assert(group.files@.subrange(0, k + 1) =~= group.files@.subrange(0, k as int).push(*f));
                assert(paths@.map_values(|t: (String, Option<String>, usize, bool)| row_view(t)) =~= prev.map_values(
                    |t: (String, Option<String>, usize, bool)| row_view(t)).push(row_view(row)));
                assert(entry_rows(group.files@.subrange(0, k + 1), g) =~= entry_rows(group.files@.subrange(0, k as int), g).push(entry_row(*f, g)));
                k = k + 1;
            }
            assert(group.files@.subrange(0, group.files@.len() as int) =~= group.files@);
            g = g + 1;
        }
        paths
    }
}

} // verus!
