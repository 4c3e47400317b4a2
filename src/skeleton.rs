use vstd::prelude::*;
use vstd::string::{StrSliceExecFns, StringExecFns};

verus! {

/// The id of the synthetic root node.
pub const ROOT_ID: &'static str = "root";

/// Why a skeleton operation failed.
#[derive(Clone, Copy, Debug, PartialEq, Eq, Structural)]
pub enum SkeletonError {
    /// The parent named in `add_node` is not in the skeleton.
    NoSuchParent,
    /// The node named is not in the skeleton.
    NoSuchNode,
    /// Two stored nodes share an id.
    DuplicateId,
    /// The root node does not have the id `root`.
    BadRoot,
    /// The tree below the node is not finite: some node is its own descendant.
    Cyclic,
    /// A node lists the same child twice.
    DuplicateChild,
}

/// The abstract content of a node.
pub ghost struct NodeView {
    pub id: Seq<char>,
    pub title: Seq<char>,
    pub child_ids: Seq<Seq<char>>,
}

impl NodeView {
    /// No child id appears twice.
    pub open spec fn wf(self) -> bool {
        self.child_ids.no_duplicates()
    }
}

/// The list of child ids after `add_child`: the id is appended unless it is there.
pub open spec fn with_child(ids: Seq<Seq<char>>, id: Seq<char>) -> Seq<Seq<char>> {
    if ids.contains(id) {
        ids
    } else {
        ids.push(id)
    }
}

/// One entry of the skeleton: an id, a title and the ids of its children in insertion
/// order.
#[derive(Clone, Debug)]
pub struct SkeletonNode {
    id: String,
    title: String,
    child_ids: Vec<String>,
}

/// The characters of each string.
pub open spec fn string_views(s: Seq<String>) -> Seq<Seq<char>> {
    s.map_values(|x: String| x@)
}

impl View for SkeletonNode {
    type V = NodeView;

    closed spec fn view(&self) -> NodeView {
        NodeView { id: self.id@, title: self.title@, child_ids: string_views(self.child_ids@) }
    }
}

/// Copies a list of strings.
fn copy_strings(v: &Vec<String>) -> (r: Vec<String>)
    ensures
        string_views(r@) == string_views(v@),
{
    let mut out: Vec<String> = Vec::new();
    let mut i: usize = 0;
    while i < v.len()
        invariant
            0 <= i <= v@.len(),
            out@.len() == i,
            forall|j: int| 0 <= j < i ==> #[trigger] out@[j]@ == v@[j]@,
        decreases v@.len() - i,
    {
        out.push(v[i].clone());
        i = i + 1;
    }
    assert(string_views(out@) =~= string_views(v@));
    out
}

impl SkeletonNode {
    /// A node with no children.
    pub fn new(id: &str, title: &str) -> (r: SkeletonNode)
        ensures
            r@ == (NodeView { id: id@, title: title@, child_ids: Seq::empty() }),
    {
        let n = SkeletonNode { id: String::from_str(id), title: String::from_str(title), child_ids: Vec::new() };
        assert(string_views(n.child_ids@) =~= Seq::<Seq<char>>::empty());
        n
    }

    /// A node with the given children.
    pub fn with_children(id: String, title: String, child_ids: Vec<String>) -> (r: SkeletonNode)
        ensures
            r@ == (NodeView { id: id@, title: title@, child_ids: string_views(child_ids@) }),
    {
        SkeletonNode { id, title, child_ids }
    }

    /// A copy of the node.
    pub fn duplicate(&self) -> (r: SkeletonNode)
        ensures
            r@ == self@,
    {
        SkeletonNode { id: self.id.clone(), title: self.title.clone(), child_ids: copy_strings(&self.child_ids) }
    }

    pub fn id(&self) -> (r: &str)
        ensures
            r@ == self@.id,
    {
        self.id.as_str()
    }

    pub fn title(&self) -> (r: &str)
        ensures
            r@ == self@.title,
    {
        self.title.as_str()
    }

    /// The ids of the node's children, in insertion order.
    pub fn child_ids(&self) -> (r: Vec<String>)
        ensures
            string_views(r@) == self@.child_ids,
    {
        copy_strings(&self.child_ids)
    }

    /// Whether `id` is among the node's children.
    pub fn has_child(&self, id: &str) -> (r: bool)
        ensures
            r == self@.child_ids.contains(id@),
    {
        let key = String::from_str(id);
        let mut i: usize = 0;
        while i < self.child_ids.len()
            invariant
                0 <= i <= self.child_ids@.len(),
                key@ == id@,
                forall|j: int| 0 <= j < i ==> self.child_ids@[j]@ != id@,
            decreases self.child_ids@.len() - i,
        {
            if self.child_ids[i] == key {
                assert(self@.child_ids[i as int] == id@);
                return true;
            }
            i = i + 1;
        }
        assert(!self@.child_ids.contains(id@)) by {
            if self@.child_ids.contains(id@) {
                let j = choose|j: int| 0 <= j < self@.child_ids.len() && self@.child_ids[j] == id@;
                assert(self.child_ids@[j]@ == id@);
            }
        }
        false
    }

    /// Appends `id` to the children unless it is already there.
    pub fn add_child(&mut self, id: &str)
        ensures
            final(self)@ == (NodeView { child_ids: with_child(old(self)@.child_ids, id@), ..old(self)@ }),
    {
        if !self.has_child(id) {
            self.child_ids.push(String::from_str(id));
            assert(string_views(self.child_ids@) =~= old(self)@.child_ids.push(id@));
        }
    }
}

/// Adding a child keeps a list free of duplicates.
pub proof fn lemma_with_child_no_duplicates(ids: Seq<Seq<char>>, id: Seq<char>)
    requires
        ids.no_duplicates(),
    ensures
        with_child(ids, id).no_duplicates(),
        with_child(ids, id).contains(id),
        forall|x: Seq<char>| #[trigger] with_child(ids, id).contains(x) <==> ids.contains(x) || x == id,
{
    if !ids.contains(id) {
        assert(ids.push(id).last() == id);
        assert forall|x: Seq<char>| #[trigger] ids.push(id).contains(x) <==> ids.contains(x) || x == id by {
            if ids.push(id).contains(x) {
                let j = choose|j: int| 0 <= j < ids.push(id).len() && ids.push(id)[j] == x;
                if j < ids.len() {
                    assert(ids[j] == x);
                }
            }
            if ids.contains(x) {
                let j = choose|j: int| 0 <= j < ids.len() && ids[j] == x;
                assert(ids.push(id)[j] == x);
            }
        }
    }
}

/// The abstract content of a tenant's skeleton: the root node and the user-created
/// nodes by id.
pub ghost struct SkeletonView {
    pub root: NodeView,
    pub nodes: Map<Seq<char>, NodeView>,
}

impl SkeletonView {
    /// Each node is stored under its own id, and no child list holds an id twice.
    pub open spec fn wf(self) -> bool {
        &&& self.root.wf()
        &&& forall|k: Seq<char>| #[trigger] self.nodes.contains_key(k) ==> self.nodes[k].id == k
            && self.nodes[k].wf()
    }
}

/// What `set_node` makes of a skeleton: the node is stored under its id, replacing
/// any node there; no parent's children change.
pub open spec fn spec_set_node(v: SkeletonView, n: NodeView) -> SkeletonView {
    SkeletonView { root: v.root, nodes: v.nodes.insert(n.id, n) }
}

/// What `add_node` makes of a skeleton: the node's id joins the children of the
/// parent (the root when there is none), then the node is stored; a parent that is
/// not there fails the call.
pub open spec fn spec_add_node(v: SkeletonView, n: NodeView, parent: Option<Seq<char>>) -> Option<SkeletonView> {
    match parent {
        None => Some(
            SkeletonView {
                root: NodeView { child_ids: with_child(v.root.child_ids, n.id), ..v.root },
                nodes: v.nodes.insert(n.id, n),
            },
        ),
        Some(pid) => if v.nodes.contains_key(pid) {
            let p = v.nodes[pid];
            Some(
                SkeletonView {
                    root: v.root,
                    nodes: v.nodes.insert(pid, NodeView { child_ids: with_child(p.child_ids, n.id), ..p }).insert(n.id, n),
                },
            )
        } else {
            None
        },
    }
}

/// The characters of an optional string slice.
pub open spec fn opt_str_view(o: Option<&str>) -> Option<Seq<char>> {
    match o {
        Some(s) => Some(s@),
        None => None,
    }
}

/// The nodes of a list by id.
pub open spec fn node_map(nodes: Seq<SkeletonNode>) -> Map<Seq<char>, NodeView> {
    Map::new(
        |k: Seq<char>| exists|i: int| 0 <= i < nodes.len() && (#[trigger] nodes[i])@.id == k,
        |k: Seq<char>| nodes[choose|i: int| 0 <= i < nodes.len() && (#[trigger] nodes[i])@.id == k]@,
    )
}

/// No two nodes of the list share an id.
pub open spec fn unique_ids(nodes: Seq<SkeletonNode>) -> bool {
    forall|i: int, j: int| 0 <= i < nodes.len() && 0 <= j < nodes.len() && i != j ==> (#[trigger] nodes[i])@.id != (#[trigger] nodes[j])@.id
}

proof fn lemma_node_map_at(nodes: Seq<SkeletonNode>, i: int)
    requires
        unique_ids(nodes),
        0 <= i < nodes.len(),
    ensures
        node_map(nodes).contains_key(nodes[i]@.id),
        node_map(nodes)[nodes[i]@.id] == nodes[i]@,
{
    let k = nodes[i]@.id;
    assert(node_map(nodes).contains_key(k));
    let j = choose|j: int| 0 <= j < nodes.len() && (#[trigger] nodes[j])@.id == k;
    assert(nodes[j]@.id == k);
}

proof fn lemma_node_map_has(nodes: Seq<SkeletonNode>, k: Seq<char>)
    requires
        unique_ids(nodes),
        node_map(nodes).contains_key(k),
    ensures
        exists|i: int| 0 <= i < nodes.len() && (#[trigger] nodes[i])@.id == k && node_map(nodes)[k] == nodes[i]@,
{
    let i = choose|i: int| 0 <= i < nodes.len() && (#[trigger] nodes[i])@.id == k;
    lemma_node_map_at(nodes, i);
}

/// Replacing or appending the node stored under an id updates the map at that id alone.
proof fn lemma_node_map_store(old_nodes: Seq<SkeletonNode>, new_nodes: Seq<SkeletonNode>, n: SkeletonNode)
    requires
        unique_ids(old_nodes),
        (exists|i: int| 0 <= i < old_nodes.len() && old_nodes[i]@.id == n@.id && new_nodes == old_nodes.update(i, n))
        || (!node_map(old_nodes).contains_key(n@.id) && new_nodes == old_nodes.push(n)),
    ensures
        unique_ids(new_nodes),
        node_map(new_nodes) == node_map(old_nodes).insert(n@.id, n@),
{
    if exists|i: int| 0 <= i < old_nodes.len() && old_nodes[i]@.id == n@.id && new_nodes == old_nodes.update(i, n) {
        let i = choose|i: int| 0 <= i < old_nodes.len() && old_nodes[i]@.id == n@.id && new_nodes == old_nodes.update(i, n);
        assert(unique_ids(new_nodes)) by {
            assert forall|a: int, b: int| 0 <= a < new_nodes.len() && 0 <= b < new_nodes.len() && a != b implies (#[trigger] new_nodes[a])@.id != (#[trigger] new_nodes[b])@.id by {
                assert(old_nodes[a]@.id != old_nodes[b]@.id);
            }
        }
    } else {
        assert(unique_ids(new_nodes)) by {
            assert forall|a: int, b: int| 0 <= a < new_nodes.len() && 0 <= b < new_nodes.len() && a != b implies (#[trigger] new_nodes[a])@.id != (#[trigger] new_nodes[b])@.id by {
                if a < old_nodes.len() && b < old_nodes.len() {
                    assert(old_nodes[a]@.id != old_nodes[b]@.id);
                } else if a < old_nodes.len() {
                    assert(new_nodes[a] == old_nodes[a]);
                    assert(node_map(old_nodes).contains_key(old_nodes[a]@.id));
                } else {
                    assert(new_nodes[b] == old_nodes[b]);
                    assert(node_map(old_nodes).contains_key(old_nodes[b]@.id));
                }
            }
        }
    }
    let m0 = node_map(old_nodes);
    let m1 = node_map(new_nodes);
    assert forall|k: Seq<char>| #[trigger] m1.contains_key(k) <==> m0.insert(n@.id, n@).contains_key(k) by {
        if m1.contains_key(k) {
            lemma_node_map_has(new_nodes, k);
            let j = choose|j: int| 0 <= j < new_nodes.len() && (#[trigger] new_nodes[j])@.id == k && m1[k] == new_nodes[j]@;
            if k != n@.id {
                assert(new_nodes[j] == old_nodes[j]);
                assert(m0.contains_key(k));
            }
        }
        if m0.contains_key(k) && k != n@.id {
            lemma_node_map_has(old_nodes, k);
            let j = choose|j: int| 0 <= j < old_nodes.len() && (#[trigger] old_nodes[j])@.id == k && m0[k] == old_nodes[j]@;
            assert(new_nodes[j] == old_nodes[j]);
            assert(m1.contains_key(k));
        }
        if k == n@.id {
            if exists|i: int| 0 <= i < old_nodes.len() && old_nodes[i]@.id == n@.id && new_nodes == old_nodes.update(i, n) {
                let i = choose|i: int| 0 <= i < old_nodes.len() && old_nodes[i]@.id == n@.id && new_nodes == old_nodes.update(i, n);
                assert(new_nodes[i] == n);
            } else {
                assert(new_nodes[old_nodes.len() as int] == n);
            }
        }
    }
    assert forall|k: Seq<char>| #[trigger] m1.contains_key(k) implies m1[k] == m0.insert(n@.id, n@)[k] by {
        lemma_node_map_has(new_nodes, k);
        let j = choose|j: int| 0 <= j < new_nodes.len() && (#[trigger] new_nodes[j])@.id == k && m1[k] == new_nodes[j]@;
        if k != n@.id {
            assert(new_nodes[j] == old_nodes[j]);
            lemma_node_map_at(old_nodes, j);
        } else {
            if exists|i: int| 0 <= i < old_nodes.len() && old_nodes[i]@.id == n@.id && new_nodes == old_nodes.update(i, n) {
                let i = choose|i: int| 0 <= i < old_nodes.len() && old_nodes[i]@.id == n@.id && new_nodes == old_nodes.update(i, n);
                assert(new_nodes[i]@.id == k);
                assert(j == i);
            } else {
                assert(new_nodes[old_nodes.len() as int]@.id == k);
                assert(j == old_nodes.len());
            }
        }
    }
    assert(m1 =~= m0.insert(n@.id, n@));
}

/// A tenant's index: a synthetic root and the user-created nodes, each stored once.
#[derive(Clone, Debug)]
pub struct SkeletonHandle {
    root: SkeletonNode,
    nodes: Vec<SkeletonNode>,
}

impl View for SkeletonHandle {
    type V = SkeletonView;

    closed spec fn view(&self) -> SkeletonView {
        SkeletonView { root: self.root@, nodes: node_map(self.nodes@) }
    }
}

impl SkeletonHandle {
    /// The representation invariant: ids are unique, and the view is well formed.
    pub closed spec fn inv(&self) -> bool {
        &&& unique_ids(self.nodes@)
        &&& self@.wf()
        &&& self.root@.id == ROOT_ID@
    }

    /// An empty skeleton: a root with no children.
    pub fn new() -> (r: SkeletonHandle)
        ensures
            r.inv(),
            r@.root == (NodeView { id: ROOT_ID@, title: ROOT_ID@, child_ids: Seq::empty() }),
            r@.nodes == Map::<Seq<char>, NodeView>::empty(),
    {
        let root = SkeletonNode::new(ROOT_ID, ROOT_ID);
        let h = SkeletonHandle { root, nodes: Vec::new() };
        assert(h@.nodes =~= Map::<Seq<char>, NodeView>::empty());
        h
    }

    /// Position of the node with this id.
    fn find(&self, id: &str) -> (r: Option<usize>)
        requires
            self.inv(),
        ensures
            r matches Some(i) ==> i < self.nodes@.len() && self.nodes@[i as int]@.id == id@
                && self@.nodes.contains_key(id@) && self@.nodes[id@] == self.nodes@[i as int]@,
            r is None ==> !self@.nodes.contains_key(id@),
    {
        let key = String::from_str(id);
        let mut i: usize = 0;
        while i < self.nodes.len()
            invariant
                0 <= i <= self.nodes@.len(),
                key@ == id@,
                self.inv(),
                forall|j: int| 0 <= j < i ==> (#[trigger] self.nodes@[j])@.id != id@,
            decreases self.nodes@.len() - i,
        {
            if self.nodes[i].id == key {
                proof {
                    lemma_node_map_at(self.nodes@, i as int);
                }
                return Some(i);
            }
            i = i + 1;
        }
        assert(!self@.nodes.contains_key(id@)) by {
            if self@.nodes.contains_key(id@) {
                lemma_node_map_has(self.nodes@, id@);
            }
        }
        None
    }

    /// The node stored under `id`.
    pub fn get(&self, id: &str) -> (r: Option<SkeletonNode>)
        requires
            self.inv(),
        ensures
            match r {
                Some(n) => self@.nodes.contains_key(id@) && n@ == self@.nodes[id@],
                None => !self@.nodes.contains_key(id@),
            },
    {
        match self.find(id) {
            Some(i) => Some(self.nodes[i].duplicate()),
            None => None,
        }
    }

    /// The root node.
    pub fn root(&self) -> (r: SkeletonNode)
        ensures
            r@ == self@.root,
    {
        self.root.duplicate()
    }

    /// The ids of the top-level nodes, in insertion order.
    pub fn top_level_ids(&self) -> (r: Vec<String>)
        ensures
            string_views(r@) == self@.root.child_ids,
    {
        self.root.child_ids()
    }

    /// Stores `node` under its id, replacing any node stored there. No parent's
    /// children change.
    pub fn set_node(&mut self, node: SkeletonNode) -> (r: Result<(), SkeletonError>)
        requires
            old(self).inv(),
            node@.wf(),
        ensures
            final(self).inv(),
            r is Ok,
            final(self)@ == spec_set_node(old(self)@, node@),
    {
        self.store(node);
        Ok(())
    }

    /// Adds `node` under `parent`, or at the top level when there is none: the node's
    /// id joins the parent's children unless it is there already, and the node is
    /// stored. A parent that is not in the skeleton fails the call and changes nothing.
    pub fn add_node(&mut self, node: SkeletonNode, parent: Option<&str>) -> (r: Result<(), SkeletonError>)
        requires
            old(self).inv(),
            node@.wf(),
        ensures
            final(self).inv(),
            match spec_add_node(old(self)@, node@, opt_str_view(parent)) {
                Some(v) => r is Ok && final(self)@ == v,
                None => r == Err::<(), SkeletonError>(SkeletonError::NoSuchParent) && final(self)@ == old(self)@,
            },
    {
        match parent {
            None => {
                proof {
                    lemma_with_child_no_duplicates(self.root@.child_ids, node@.id);
                }
                self.root.add_child(node.id());
                self.store(node);
                Ok(())
            },
            Some(pid) => {
                match self.find(pid) {
                    Some(i) => {
                        let mut p = self.nodes[i].duplicate();
                        proof {
                            lemma_with_child_no_duplicates(p@.child_ids, node@.id);
                        }
                        p.add_child(node.id());
                        self.store(p);
                        self.store(node);
                        Ok(())
                    },
                    None => Err(SkeletonError::NoSuchParent),
                }
            },
        }
    }

    /// The first node, depth first from the top level, whose chain of titles starts
    /// with the colon-separated parts of `path` in turn, ending at the last part.
    pub fn get_by_path(&self, path: &str) -> (r: Option<SkeletonNode>)
        requires
            self.inv(),
        ensures
            opt_node_view(r) == spec_get_by_path(self@, path@),
    {
        let parts = split_path(path);
        self.match_children(&self.root.child_ids, &parts, 0)
    }

    fn match_from(&self, id: &String, parts: &Vec<Vec<char>>, idx: usize) -> (r: Option<SkeletonNode>)
        requires
            self.inv(),
        ensures
            opt_node_view(r) == path_match(self@, id@, char_views(parts@), idx as int),
        decreases parts@.len() - idx, 0int,
    {
        if idx >= parts.len() {
            return None;
        }
        match self.find(id.as_str()) {
            None => None,
            Some(i) => {
                let node = &self.nodes[i];
                assert(parts@[idx as int]@ == char_views(parts@)[idx as int]);
                if !starts_with(node.title.as_str(), &parts[idx]) {
                    None
                } else if idx + 1 == parts.len() {
                    Some(node.duplicate())
                } else {
                    self.match_children(&node.child_ids, parts, idx + 1)
                }
            },
        }
    }

    fn match_children(&self, ids: &Vec<String>, parts: &Vec<Vec<char>>, idx: usize) -> (r: Option<SkeletonNode>)
        requires
            self.inv(),
        ensures
            opt_node_view(r) == first_match(self@, string_views(ids@), char_views(parts@), idx as int),
        decreases parts@.len() - idx, ids@.len() + 1,
    {
        if idx >= parts.len() {
            return None;
        }
        let ghost all = string_views(ids@);
        let ghost pv = char_views(parts@);
        let mut i: usize = 0;
        assert(all.subrange(0, all.len() as int) =~= all);
        while i < ids.len()
            invariant
                self.inv(),
                0 <= i <= ids@.len(),
                idx < parts@.len(),
                all == string_views(ids@),
                pv == char_views(parts@),
                first_match(self@, all, pv, idx as int) == first_match(self@, all.subrange(i as int, all.len() as int), pv, idx as int),
            decreases ids@.len() - i,
        {
            let ghost rest = all.subrange(i as int, all.len() as int);
            assert(rest.drop_first() =~= all.subrange(i + 1, all.len() as int));
            assert(rest[0] == ids@[i as int]@);
            let found = self.match_from(&ids[i], parts, idx);
            if found.is_some() {
                return found;
            }
            i = i + 1;
        }
        assert(all.subrange(i as int, all.len() as int) =~= Seq::<Seq<char>>::empty());
        None
    }

    /// How many levels a listing may descend: one more than the number of stored
    /// nodes, which a finite tree never needs.
    pub closed spec fn depth_budget(&self) -> nat {
        if self.nodes@.len() < usize::MAX {
            self.nodes@.len() + 1
        } else {
            self.nodes@.len()
        }
    }

    /// The tree below `start_at` (the root when there is none), each node with its
    /// children in order. It fails when the start node or any node below it is
    /// missing, or when the tree below it is not finite.
    pub fn to_listing(&self, start_at: Option<&str>) -> (r: Result<Listing, SkeletonError>)
        requires
            self.inv(),
        ensures
            match r {
                Ok(l) => spec_to_listing(self@, opt_str_view(start_at), self.depth_budget()) == Ok::<ListingView, SkeletonError>(listing_view(l)),
                Err(e) => spec_to_listing(self@, opt_str_view(start_at), self.depth_budget()) == Err::<ListingView, SkeletonError>(e),
            },
    {
        let budget: usize = if self.nodes.len() < usize::MAX { self.nodes.len() + 1 } else { usize::MAX };
        match start_at {
            None => self.listing_of_node(&self.root, budget),
            Some(id) => match self.find(id) {
                Some(i) => self.listing_of_node(&self.nodes[i], budget),
                None => Err(SkeletonError::NoSuchNode),
            },
        }
    }

    fn listing_of_node(&self, node: &SkeletonNode, fuel: usize) -> (r: Result<Listing, SkeletonError>)
        requires
            self.inv(),
        ensures
            match r {
                Ok(l) => listing_of_node(self@, node@, fuel as nat) == Ok::<ListingView, SkeletonError>(listing_view(l)),
                Err(e) => listing_of_node(self@, node@, fuel as nat) == Err::<ListingView, SkeletonError>(e),
            },
        decreases fuel, 0int,
    {
        if fuel == 0 {
            return Err(SkeletonError::Cyclic);
        }
        let mut children: Vec<Listing> = Vec::new();
        let mut i: usize = 0;
        let ghost ids = node@.child_ids;
        assert(ids.take(0) =~= Seq::<Seq<char>>::empty());
        assert(listing_views(children@) =~= Seq::<ListingView>::empty());
        while i < node.child_ids.len()
            invariant
                self.inv(),
                fuel > 0,
                ids == node@.child_ids,
                0 <= i <= ids.len(),
                ids.len() == node.child_ids@.len(),
                listings_of(self@, ids.take(i as int), (fuel - 1) as nat) == Ok::<Seq<ListingView>, SkeletonError>(listing_views(children@)),
            decreases ids.len() - i,
        {
            proof {
                assert(ids.take(i + 1).drop_last() =~= ids.take(i as int));
                assert(ids.take(i + 1).last() == node.child_ids@[i as int]@);
            }
            match self.find(node.child_ids[i].as_str()) {
                None => {
                    proof {
                        lemma_listings_prefix_err(self@, ids, i + 1, (fuel - 1) as nat);
                    }
                    return Err(SkeletonError::NoSuchNode);
                },
                Some(j) => {
                    match self.listing_of_node(&self.nodes[j], fuel - 1) {
                        Ok(l) => {
                            let ghost prev = children@;
                            children.push(l);
                            assert(listing_views(children@) =~= listing_views(prev).push(listing_view(l)));
                        },
                        Err(e) => {
                            proof {
                                lemma_listings_prefix_err(self@, ids, i + 1, (fuel - 1) as nat);
                            }
                            return Err(e);
                        },
                    }
                },
            }
            i = i + 1;
        }
        assert(ids.take(ids.len() as int) =~= ids);
        let l = Listing { id: node.id.clone(), title: node.title.clone(), children };
        assert(listing_view(l).children =~= listing_views(l.children@));
        Ok(l)
    }

    /// The stored nodes, each once, in no particular order.
    pub fn nodes(&self) -> (r: Vec<SkeletonNode>)
        requires
            self.inv(),
        ensures
            node_map(r@) == self@.nodes,
            parts_valid(self@.root, r@),
    {
        let mut out: Vec<SkeletonNode> = Vec::new();
        let mut i: usize = 0;
        while i < self.nodes.len()
            invariant
                self.inv(),
                0 <= i <= self.nodes@.len(),
                out@.len() == i,
                forall|j: int| 0 <= j < i ==> (#[trigger] out@[j])@ == self.nodes@[j]@,
            decreases self.nodes@.len() - i,
        {
            out.push(self.nodes[i].duplicate());
            i = i + 1;
        }
        proof {
            assert(unique_ids(out@)) by {
                assert forall|a: int, b: int| 0 <= a < out@.len() && 0 <= b < out@.len() && a != b implies (#[trigger] out@[a])@.id != (#[trigger] out@[b])@.id by {
                    assert(self.nodes@[a]@.id != self.nodes@[b]@.id);
                }
            }
            assert forall|j: int| 0 <= j < out@.len() implies (#[trigger] out@[j])@.wf() by {
                lemma_node_map_at(self.nodes@, j);
                assert(self@.nodes.contains_key(self.nodes@[j]@.id));
                assert(self@.nodes[self.nodes@[j]@.id] == self.nodes@[j]@);
            }
            assert forall|k: Seq<char>| #[trigger] node_map(out@).contains_key(k) <==> self@.nodes.contains_key(k) by {
                if node_map(out@).contains_key(k) {
                    lemma_node_map_has(out@, k);
                    let j = choose|j: int| 0 <= j < out@.len() && (#[trigger] out@[j])@.id == k && node_map(out@)[k] == out@[j]@;
                    lemma_node_map_at(self.nodes@, j);
                }
                if self@.nodes.contains_key(k) {
                    lemma_node_map_has(self.nodes@, k);
                    let j = choose|j: int| 0 <= j < self.nodes@.len() && (#[trigger] self.nodes@[j])@.id == k && self@.nodes[k] == self.nodes@[j]@;
                    lemma_node_map_at(out@, j);
                }
            }
            assert forall|k: Seq<char>| #[trigger] node_map(out@).contains_key(k) implies node_map(out@)[k] == self@.nodes[k] by {
                lemma_node_map_has(out@, k);
                let j = choose|j: int| 0 <= j < out@.len() && (#[trigger] out@[j])@.id == k && node_map(out@)[k] == out@[j]@;
                lemma_node_map_at(self.nodes@, j);
            }
            assert(node_map(out@) =~= self@.nodes);
        }
        out
    }

    /// Rebuilds a skeleton from its root and its stored nodes. It fails when the root
    /// is not `root`, when two nodes share an id, or when a node lists a child twice.
    pub fn from_parts(root: SkeletonNode, nodes: Vec<SkeletonNode>) -> (r: Result<SkeletonHandle, SkeletonError>)
        ensures
            match r {
                Ok(h) => parts_valid(root@, nodes@) && h.inv() && h@ == (SkeletonView { root: root@, nodes: node_map(nodes@) }),
                Err(_) => !parts_valid(root@, nodes@),
            },
    {
        let rid = String::from_str(ROOT_ID);
        if !(root.id == rid) {
            return Err(SkeletonError::BadRoot);
        }
        if !no_duplicate_strings(&root.child_ids) {
            return Err(SkeletonError::DuplicateChild);
        }
        let mut i: usize = 0;
        while i < nodes.len()
            invariant
                0 <= i <= nodes@.len(),
                forall|a: int| 0 <= a < i ==> (#[trigger] nodes@[a])@.wf(),
                forall|a: int, b: int| 0 <= a < i && 0 <= b < nodes@.len() && a != b ==> (#[trigger] nodes@[a])@.id != (#[trigger] nodes@[b])@.id,
            decreases nodes@.len() - i,
        {
            if !no_duplicate_strings(&nodes[i].child_ids) {
                return Err(SkeletonError::DuplicateChild);
            }
            let mut j: usize = i + 1;
            while j < nodes.len()
                invariant
                    i < nodes@.len(),
                    i + 1 <= j <= nodes@.len(),
                    forall|b: int| i < b < j ==> (#[trigger] nodes@[b])@.id != nodes@[i as int]@.id,
                decreases nodes@.len() - j,
            {
                if nodes[i].id == nodes[j].id {
                    return Err(SkeletonError::DuplicateId);
                }
                j = j + 1;
            }
            i = i + 1;
        }
        let h = SkeletonHandle { root, nodes };
        proof {
            assert forall|k: Seq<char>| #[trigger] h@.nodes.contains_key(k) implies h@.nodes[k].id == k && h@.nodes[k].wf() by {
                lemma_node_map_has(h.nodes@, k);
            }
        }
        Ok(h)
    }

    /// Saving a skeleton as its root and its stored nodes and rebuilding it with
    /// `from_parts` always succeeds and gives back the same skeleton: the same ids,
    /// titles and child lists.
    pub fn reloaded(&self) -> (r: SkeletonHandle)
        requires
            self.inv(),
        ensures
            r.inv(),
            r@ == self@,
    {
        let root = self.root();
        let nodes = self.nodes();
        match SkeletonHandle::from_parts(root, nodes) {
            Ok(h) => h,
            Err(_) => {
                proof {
                    assert(false);
                }
                SkeletonHandle::new()
            },
        }
    }

    fn store(&mut self, node: SkeletonNode)
        requires
            old(self).inv(),
            node@.wf(),
        ensures
            final(self).inv(),
            final(self)@ == spec_set_node(old(self)@, node@),
    {
        let ghost old_nodes = self.nodes@;
        let ghost n = node;
        match self.find(node.id()) {
            Some(i) => {
                self.nodes.set(i, node);
                assert(self.nodes@ == old_nodes.update(i as int, n));
            },
            None => {
                self.nodes.push(node);
            },
        }
        proof {
            lemma_node_map_store(old_nodes, self.nodes@, n);
        }
    }
}

/// The characters of each list of characters.
pub open spec fn char_views(v: Seq<Vec<char>>) -> Seq<Seq<char>> {
    v.map_values(|p: Vec<char>| p@)
}

/// The view of an optional node.
pub open spec fn opt_node_view(o: Option<SkeletonNode>) -> Option<NodeView> {
    match o {
        Some(n) => Some(n@),
        None => None,
    }
}

/// The parts of a colon-separated path, empty parts included.
pub open spec fn split_path_spec(s: Seq<char>) -> Seq<Seq<char>>
    decreases s.len(),
{
    if s.len() == 0 {
        seq![Seq::empty()]
    } else {
        let parts = split_path_spec(s.drop_last());
        if s.last() == ':' {
            parts.push(Seq::empty())
        } else {
            parts.update(parts.len() - 1, parts.last().push(s.last()))
        }
    }
}

proof fn lemma_split_path_nonempty(s: Seq<char>)
    ensures
        split_path_spec(s).len() >= 1,
    decreases s.len(),
{
    if s.len() > 0 {
        lemma_split_path_nonempty(s.drop_last());
    }
}

/// Cuts a path at each colon.
fn split_path(path: &str) -> (r: Vec<Vec<char>>)
    ensures
        char_views(r@) == split_path_spec(path@),
{
    let n = path.unicode_len();
    let mut done: Vec<Vec<char>> = Vec::new();
    let mut cur: Vec<char> = Vec::new();
    let mut i: usize = 0;
    assert(path@.subrange(0, 0) =~= Seq::<char>::empty());
    assert(char_views(done@).push(cur@) =~= split_path_spec(path@.subrange(0, 0)));
    while i < n
        invariant
            n == path@.len(),
            0 <= i <= n,
            char_views(done@).push(cur@) == split_path_spec(path@.subrange(0, i as int)),
        decreases n - i,
    {
        let c = path.get_char(i);
        proof {
            lemma_split_path_nonempty(path@.subrange(0, i as int));
            assert(path@.subrange(0, i + 1).drop_last() =~= path@.subrange(0, i as int));
            assert(path@.subrange(0, i + 1).last() == c);
        }
        if c == ':' {
            done.push(cur);
            cur = Vec::new();
            assert(char_views(done@).push(cur@) =~= split_path_spec(path@.subrange(0, i + 1)));
        } else {
            let ghost before = cur@;
            cur.push(c);
            assert(char_views(done@).push(cur@) =~= split_path_spec(path@.subrange(0, i + 1)));
        }
        i = i + 1;
    }
    done.push(cur);
    assert(path@.subrange(0, n as int) =~= path@);
    assert(char_views(done@) =~= split_path_spec(path@));
    done
}

/// Whether `s` starts with the characters of `prefix`.
fn starts_with(s: &str, prefix: &Vec<char>) -> (r: bool)
    ensures
        r == prefix@.is_prefix_of(s@),
{
    let n = s.unicode_len();
    if prefix.len() > n {
        return false;
    }
    let mut i: usize = 0;
    while i < prefix.len()
        invariant
            n == s@.len(),
            prefix@.len() <= n,
            0 <= i <= prefix@.len(),
            forall|j: int| 0 <= j < i ==> prefix@[j] == s@[j],
        decreases prefix@.len() - i,
    {
        if s.get_char(i) != prefix[i] {
            assert(!(prefix@ =~= s@.subrange(0, prefix@.len() as int)) ) by {
                assert(s@.subrange(0, prefix@.len() as int)[i as int] == s@[i as int]);
            }
            return false;
        }
        i = i + 1;
    }
    assert(prefix@ =~= s@.subrange(0, prefix@.len() as int));
    true
}

/// The first node, depth first, below `id` at depth `idx` whose titles match
/// `parts[idx..]` in turn.
pub open spec fn path_match(v: SkeletonView, id: Seq<char>, parts: Seq<Seq<char>>, idx: int) -> Option<NodeView>
    decreases parts.len() - idx, 0int,
{
    if idx < 0 || idx >= parts.len() || !v.nodes.contains_key(id) {
        None
    } else if !parts[idx].is_prefix_of(v.nodes[id].title) {
        None
    } else if idx + 1 == parts.len() {
        Some(v.nodes[id])
    } else {
        first_match(v, v.nodes[id].child_ids, parts, idx + 1)
    }
}

/// The first of `ids`, in order, below which `path_match` finds a node.
pub open spec fn first_match(v: SkeletonView, ids: Seq<Seq<char>>, parts: Seq<Seq<char>>, idx: int) -> Option<NodeView>
    decreases parts.len() - idx, ids.len() + 1,
{
    if idx < 0 || idx >= parts.len() || ids.len() == 0 {
        None
    } else {
        match path_match(v, ids[0], parts, idx) {
            Some(n) => Some(n),
            None => first_match(v, ids.drop_first(), parts, idx),
        }
    }
}

/// What `get_by_path` finds.
pub open spec fn spec_get_by_path(v: SkeletonView, path: Seq<char>) -> Option<NodeView> {
    first_match(v, v.root.child_ids, split_path_spec(path), 0)
}

/// A node of a listing, with the listings of its children in order.
#[derive(Debug)]
pub struct Listing {
    pub id: String,
    pub title: String,
    pub children: Vec<Listing>,
}

/// The abstract content of a listing.
pub ghost struct ListingView {
    pub id: Seq<char>,
    pub title: Seq<char>,
    pub children: Seq<ListingView>,
}

/// The view of a listing, children included.
pub open spec fn listing_view(l: Listing) -> ListingView
    decreases l,
{
    ListingView {
        id: l.id@,
        title: l.title@,
        children: Seq::new(
            l.children@.len(),
            |i: int|
                if 0 <= i < l.children@.len() {
                    listing_view(l.children@[i])
                } else {
                    ListingView { id: Seq::empty(), title: Seq::empty(), children: Seq::empty() }
                },
        ),
    }
}

/// The views of a list of listings.
pub open spec fn listing_views(ls: Seq<Listing>) -> Seq<ListingView> {
    Seq::new(ls.len(), |i: int| listing_view(ls[i]))
}

/// The listing of a node whose children are looked up with `fuel` levels left.
pub open spec fn listing_of_node(v: SkeletonView, n: NodeView, fuel: nat) -> Result<ListingView, SkeletonError>
    decreases fuel, 0int,
{
    if fuel == 0 {
        Err(SkeletonError::Cyclic)
    } else {
        match listings_of(v, n.child_ids, (fuel - 1) as nat) {
            Ok(cs) => Ok(ListingView { id: n.id, title: n.title, children: cs }),
            Err(e) => Err(e),
        }
    }
}

/// The listings of the nodes with these ids, in order; the first failure wins.
pub open spec fn listings_of(v: SkeletonView, ids: Seq<Seq<char>>, fuel: nat) -> Result<Seq<ListingView>, SkeletonError>
    decreases fuel, ids.len() + 1,
{
    if ids.len() == 0 {
        Ok(Seq::empty())
    } else {
        match listings_of(v, ids.drop_last(), fuel) {
            Err(e) => Err(e),
            Ok(prev) => if !v.nodes.contains_key(ids.last()) {
                Err(SkeletonError::NoSuchNode)
            } else {
                match listing_of_node(v, v.nodes[ids.last()], fuel) {
                    Ok(l) => Ok(prev.push(l)),
                    Err(e) => Err(e),
                }
            },
        }
    }
}

/// What `to_listing` returns: the listing of the start node (the root when there is
/// none), looking `fuel` levels deep at most.
pub open spec fn spec_to_listing(v: SkeletonView, start_at: Option<Seq<char>>, fuel: nat) -> Result<ListingView, SkeletonError> {
    match start_at {
        None => listing_of_node(v, v.root, fuel),
        Some(id) => if v.nodes.contains_key(id) {
            listing_of_node(v, v.nodes[id], fuel)
        } else {
            Err(SkeletonError::NoSuchNode)
        },
    }
}

/// Once the listings of a prefix of the ids fail, the listings of all of them fail
/// the same way.
proof fn lemma_listings_prefix_err(v: SkeletonView, ids: Seq<Seq<char>>, k: int, fuel: nat)
    requires
        0 <= k <= ids.len(),
        listings_of(v, ids.take(k), fuel) is Err,
    ensures
        listings_of(v, ids, fuel) == listings_of(v, ids.take(k), fuel),
    decreases ids.len(),
{
    if k < ids.len() {
        assert(ids.drop_last().take(k) =~= ids.take(k));
        lemma_listings_prefix_err(v, ids.drop_last(), k, fuel);
    } else {
        assert(ids.take(k) =~= ids);
    }
}

/// Whether a root and a list of nodes make a skeleton: the root is `root`, no two
/// nodes share an id, and no node lists a child twice.
pub open spec fn parts_valid(root: NodeView, nodes: Seq<SkeletonNode>) -> bool {
    &&& root.id == ROOT_ID@
    &&& root.wf()
    &&& unique_ids(nodes)
    &&& forall|i: int| 0 <= i < nodes.len() ==> (#[trigger] nodes[i])@.wf()
}

/// Whether no string of the list appears twice.
fn no_duplicate_strings(v: &Vec<String>) -> (r: bool)
    ensures
        r == string_views(v@).no_duplicates(),
{
    let ghost sv = string_views(v@);
    let mut i: usize = 0;
    while i < v.len()
        invariant
            sv == string_views(v@),
            0 <= i <= v@.len(),
            forall|a: int, b: int| 0 <= a < i && 0 <= b < v@.len() && a != b ==> sv[a] != sv[b],
        decreases v@.len() - i,
    {
        let mut j: usize = i + 1;
        while j < v.len()
            invariant
                sv == string_views(v@),
                i < v@.len(),
                i + 1 <= j <= v@.len(),
                forall|a: int, b: int| 0 <= a < i && 0 <= b < v@.len() && a != b ==> sv[a] != sv[b],
                forall|b: int| i < b < j ==> sv[b] != sv[i as int],
            decreases v@.len() - j,
        {
            if v[i] == v[j] {
                assert(sv[i as int] == sv[j as int]);
                return false;
            }
            j = j + 1;
        }
        i = i + 1;
    }
    true
}


/// Every stored id and every id in a child list belongs to `targets`.
pub open spec fn ids_within(v: SkeletonView, targets: Set<Seq<char>>) -> bool {
    &&& forall|k: Seq<char>| #[trigger] v.nodes.contains_key(k) ==> targets.contains(k)
    &&& forall|x: Seq<char>| #[trigger] v.root.child_ids.contains(x) ==> targets.contains(x)
    &&& forall|k: Seq<char>, x: Seq<char>|
        v.nodes.contains_key(k) && #[trigger] v.nodes[k].child_ids.contains(x) ==> targets.contains(x)
}

/// The tree invariant, step by step: an empty skeleton refers to no id, and a
/// successful `add_node` or `set_node` of a node with no children of its own keeps
/// every child list free of duplicates and adds only the node's own id to the ids
/// that stored nodes and child lists refer to.
pub proof fn lemma_tree_invariant(v: SkeletonView, targets: Set<Seq<char>>, n: NodeView, parent: Option<Seq<char>>)
    requires
        v.wf(),
        ids_within(v, targets),
        n.wf(),
        n.child_ids.len() == 0,
    ensures
        ids_within(
            SkeletonView { root: NodeView { child_ids: Seq::empty(), ..v.root }, nodes: Map::empty() },
            Set::empty(),
        ),
        spec_set_node(v, n).wf(),
        ids_within(spec_set_node(v, n), targets.insert(n.id)),
        spec_add_node(v, n, parent) matches Some(w) ==> w.wf() && ids_within(w, targets.insert(n.id)),
{
    let t = targets.insert(n.id);
    let w0 = spec_set_node(v, n);
    assert forall|k: Seq<char>, x: Seq<char>| w0.nodes.contains_key(k) && #[trigger] w0.nodes[k].child_ids.contains(x) implies t.contains(x) by {
        if k != n.id {
            assert(v.nodes[k].child_ids.contains(x));
        }
    }
    if let Some(w) = spec_add_node(v, n, parent) {
        match parent {
            None => {
                lemma_with_child_no_duplicates(v.root.child_ids, n.id);
                assert forall|k: Seq<char>, x: Seq<char>| w.nodes.contains_key(k) && #[trigger] w.nodes[k].child_ids.contains(x) implies t.contains(x) by {
                    if k != n.id {
                        assert(v.nodes[k].child_ids.contains(x));
                    }
                }
            },
            Some(pid) => {
                let p = v.nodes[pid];
                lemma_with_child_no_duplicates(p.child_ids, n.id);
                assert forall|k: Seq<char>, x: Seq<char>| w.nodes.contains_key(k) && #[trigger] w.nodes[k].child_ids.contains(x) implies t.contains(x) by {
                    if k != n.id && k != pid {
                        assert(v.nodes[k].child_ids.contains(x));
                    } else if k == pid && k != n.id {
                        if x != n.id {
                            assert(p.child_ids.contains(x));
                        }
                    }
                }
            },
        }
    }
}

/// The parts joined with colons.
pub open spec fn join_path(parts: Seq<Seq<char>>) -> Seq<char>
    decreases parts.len(),
{
    if parts.len() == 0 {
        Seq::empty()
    } else if parts.len() == 1 {
        parts[0]
    } else {
        join_path(parts.drop_last()) + seq![':'] + parts.last()
    }
}

/// Appending colon-free text extends the last part.
proof fn lemma_split_append(s: Seq<char>, t: Seq<char>)
    requires
        !t.contains(':'),
    ensures
        split_path_spec(s + t) == split_path_spec(s).update(
            split_path_spec(s).len() - 1,
            split_path_spec(s).last() + t,
        ),
    decreases t.len(),
{
    lemma_split_path_nonempty(s);
    if t.len() == 0 {
        assert(s + t =~= s);
        assert(split_path_spec(s).last() + t =~= split_path_spec(s).last());
        assert(split_path_spec(s).update(split_path_spec(s).len() - 1, split_path_spec(s).last())
            =~= split_path_spec(s));
    } else {
        let t0 = t.drop_last();
        assert(!t0.contains(':')) by {
            if t0.contains(':') {
                let j = choose|j: int| 0 <= j < t0.len() && t0[j] == ':';
                assert(t[j] == ':');
            }
        }
        assert(t.last() != ':') by {
            assert(t[t.len() - 1] == t.last());
        }
        lemma_split_append(s, t0);
        assert((s + t).drop_last() =~= s + t0);
        assert((s + t).last() == t.last());
        lemma_split_path_nonempty(s + t0);
        assert((split_path_spec(s).last() + t0).push(t.last()) =~= split_path_spec(s).last() + t);
        assert(split_path_spec(s + t) =~= split_path_spec(s).update(
            split_path_spec(s).len() - 1,
            split_path_spec(s).last() + t,
        ));
    }
}

/// Splitting colon-joined colon-free parts gives the parts back.
pub proof fn lemma_split_join(parts: Seq<Seq<char>>)
    requires
        parts.len() >= 1,
        forall|i: int| 0 <= i < parts.len() ==> !(#[trigger] parts[i]).contains(':'),
    ensures
        split_path_spec(join_path(parts)) == parts,
    decreases parts.len(),
{
    if parts.len() == 1 {
        lemma_split_append(Seq::empty(), parts[0]);
        assert(Seq::<char>::empty() + parts[0] =~= parts[0]);
        assert(Seq::<char>::empty() + parts[0] =~= parts[0]);
        assert(split_path_spec(parts[0]) =~= parts);
    } else {
        let init = parts.drop_last();
        assert forall|i: int| 0 <= i < init.len() implies !(#[trigger] init[i]).contains(':') by {
            assert(init[i] == parts[i]);
        }
        lemma_split_join(init);
        let j = join_path(init);
        assert(!parts.last().contains(':')) by {
            assert(parts[parts.len() - 1] == parts.last());
        }
        lemma_split_append(j.push(':'), parts.last());
        assert(j + seq![':'] =~= j.push(':'));
        assert(j.push(':').drop_last() =~= j);
        assert(split_path_spec(j.push(':')) == init.push(Seq::empty()));
        assert(Seq::<char>::empty() + parts.last() =~= parts.last());
        assert(split_path_spec(join_path(parts)) =~= parts);
    }
}

/// `c` is a chain of stored nodes for `parts[k..]`: one node per part, each title
/// starting with its part, each node a child of the one before.
pub open spec fn chain_from(v: SkeletonView, c: Seq<Seq<char>>, parts: Seq<Seq<char>>, k: int) -> bool {
    &&& 0 <= k
    &&& c.len() == parts.len() - k
    &&& c.len() >= 1
    &&& forall|j: int| 0 <= j < c.len() ==> v.nodes.contains_key(#[trigger] c[j]) && parts[k + j].is_prefix_of(v.nodes[c[j]].title)
    &&& forall|j: int| 0 <= j < c.len() - 1 ==> v.nodes[#[trigger] c[j]].child_ids.contains(c[j + 1])
}

/// `c` is a chain for all of `parts` that starts at a top-level node.
pub open spec fn is_title_chain(v: SkeletonView, c: Seq<Seq<char>>, parts: Seq<Seq<char>>) -> bool {
    chain_from(v, c, parts, 0) && v.root.child_ids.contains(c[0])
}

proof fn lemma_first_match_complete(v: SkeletonView, ids: Seq<Seq<char>>, parts: Seq<Seq<char>>, k: int, x: Seq<char>)
    requires
        ids.contains(x),
        path_match(v, x, parts, k) is Some,
    ensures
        first_match(v, ids, parts, k) is Some,
    decreases ids.len(),
{
    if ids[0] != x {
        assert(ids.drop_first().contains(x)) by {
            let j = choose|j: int| 0 <= j < ids.len() && ids[j] == x;
            assert(ids.drop_first()[j - 1] == x);
        }
        lemma_first_match_complete(v, ids.drop_first(), parts, k, x);
    }
}

proof fn lemma_path_match_complete(v: SkeletonView, c: Seq<Seq<char>>, parts: Seq<Seq<char>>, k: int)
    requires
        chain_from(v, c, parts, k),
    ensures
        path_match(v, c[0], parts, k) is Some,
    decreases parts.len() - k,
{
    assert(v.nodes.contains_key(c[0]));
    if c.len() > 1 {
        let rest = c.drop_first();
        assert forall|j: int| 0 <= j < rest.len() implies v.nodes.contains_key(#[trigger] rest[j]) && parts[k + 1 + j].is_prefix_of(v.nodes[rest[j]].title) by {
            assert(rest[j] == c[j + 1]);
        }
        assert forall|j: int| 0 <= j < rest.len() - 1 implies v.nodes[#[trigger] rest[j]].child_ids.contains(rest[j + 1]) by {
            assert(rest[j] == c[j + 1]);
        }
        lemma_path_match_complete(v, rest, parts, k + 1);
        assert(v.nodes[c[0]].child_ids.contains(c[1]));
        lemma_first_match_complete(v, v.nodes[c[0]].child_ids, parts, k + 1, rest[0]);
    }
}

proof fn lemma_path_match_witness(v: SkeletonView, id: Seq<char>, parts: Seq<Seq<char>>, k: int) -> (c: Seq<Seq<char>>)
    requires
        path_match(v, id, parts, k) is Some,
    ensures
        chain_from(v, c, parts, k),
        c[0] == id,
        path_match(v, id, parts, k) == Some(v.nodes[c.last()]),
    decreases parts.len() - k, 0int,
{
    if k + 1 == parts.len() {
        seq![id]
    } else {
        let rest = lemma_first_match_witness(v, v.nodes[id].child_ids, parts, k + 1);
        let c = seq![id] + rest;
        assert forall|j: int| 0 <= j < c.len() implies v.nodes.contains_key(#[trigger] c[j]) && parts[k + j].is_prefix_of(v.nodes[c[j]].title) by {
            if j > 0 {
                assert(c[j] == rest[j - 1]);
            }
        }
        assert forall|j: int| 0 <= j < c.len() - 1 implies v.nodes[#[trigger] c[j]].child_ids.contains(c[j + 1]) by {
            if j > 0 {
                assert(c[j] == rest[j - 1]);
                assert(c[j + 1] == rest[j]);
            }
        }
        assert(c.last() == rest.last());
        c
    }
}

proof fn lemma_first_match_witness(v: SkeletonView, ids: Seq<Seq<char>>, parts: Seq<Seq<char>>, k: int) -> (c: Seq<Seq<char>>)
    requires
        first_match(v, ids, parts, k) is Some,
    ensures
        chain_from(v, c, parts, k),
        ids.contains(c[0]),
        first_match(v, ids, parts, k) == Some(v.nodes[c.last()]),
    decreases parts.len() - k, ids.len() + 1,
{
    if path_match(v, ids[0], parts, k) is Some {
        let c = lemma_path_match_witness(v, ids[0], parts, k);
        assert(ids.contains(ids[0]));
        c
    } else {
        let c = lemma_first_match_witness(v, ids.drop_first(), parts, k);
        let j = choose|j: int| 0 <= j < ids.drop_first().len() && ids.drop_first()[j] == c[0];
        assert(ids[j + 1] == c[0]);
        c
    }
}

/// Path lookup: when the colon-free `parts` are matched by a chain of titles that
/// starts at the top level, looking up their colon-joined path finds a node; and
/// whatever the lookup finds ends such a chain, one node per part, so it is a node at
/// the full depth of the path.
pub proof fn lemma_path_lookup(v: SkeletonView, parts: Seq<Seq<char>>, chain: Seq<Seq<char>>)
    requires
        parts.len() >= 1,
        forall|i: int| 0 <= i < parts.len() ==> !(#[trigger] parts[i]).contains(':'),
    ensures
        is_title_chain(v, chain, parts) ==> spec_get_by_path(v, join_path(parts)) is Some,
        spec_get_by_path(v, join_path(parts)) matches Some(n) ==> exists|c: Seq<Seq<char>>|
            is_title_chain(v, c, parts) && n == v.nodes[c.last()],
{
    lemma_split_join(parts);
    if is_title_chain(v, chain, parts) {
        lemma_path_match_complete(v, chain, parts, 0);
        lemma_first_match_complete(v, v.root.child_ids, parts, 0, chain[0]);
    }
    if spec_get_by_path(v, join_path(parts)) is Some {
        let c = lemma_first_match_witness(v, v.root.child_ids, parts, 0);
        assert(is_title_chain(v, c, parts));
    }
}

/// A successful listing of ids lists each of them, in order.
proof fn lemma_listings_ids(v: SkeletonView, ids: Seq<Seq<char>>, fuel: nat)
    requires
        v.wf(),
        listings_of(v, ids, fuel) is Ok,
    ensures
        listings_of(v, ids, fuel)->Ok_0.len() == ids.len(),
        forall|i: int| 0 <= i < ids.len() ==> (#[trigger] listings_of(v, ids, fuel)->Ok_0[i]).id == ids[i],
    decreases ids.len(),
{
    if ids.len() > 0 {
        lemma_listings_ids(v, ids.drop_last(), fuel);
        let cs = listings_of(v, ids, fuel)->Ok_0;
        let prev = listings_of(v, ids.drop_last(), fuel)->Ok_0;
        let l = listing_of_node(v, v.nodes[ids.last()], fuel)->Ok_0;
        assert(cs == prev.push(l));
        assert(l.id == v.nodes[ids.last()].id);
        assert forall|i: int| 0 <= i < ids.len() implies (#[trigger] cs[i]).id == ids[i] by {
            if i < ids.len() - 1 {
                assert(ids.drop_last()[i] == ids[i]);
                assert(cs[i] == prev[i]);
            } else {
                assert(cs[i] == l);
                assert(ids.last() == ids[i]);
                assert(v.nodes.contains_key(ids.last()));
            }
        }
    }
}

/// Listing from the root after puts at the top level: a successful listing names
/// every top-level node exactly once, in insertion order; and a successful top-level
/// `add_node` makes its id one of them.
pub proof fn lemma_root_listing_names_top_level(v: SkeletonView, fuel: nat, n: NodeView)
    requires
        v.wf(),
    ensures
        spec_to_listing(v, None, fuel) matches Ok(l) ==> l.id == v.root.id && l.children.len()
            == v.root.child_ids.len() && v.root.child_ids.no_duplicates() && forall|i: int|
            0 <= i < l.children.len() ==> (#[trigger] l.children[i]).id == v.root.child_ids[i],
        spec_add_node(v, n, None) matches Some(w) ==> w.root.child_ids.contains(n.id),
{
    if spec_to_listing(v, None, fuel) is Ok {
        lemma_listings_ids(v, v.root.child_ids, (fuel - 1) as nat);
    }
    lemma_with_child_no_duplicates(v.root.child_ids, n.id);
}

} // verus!
