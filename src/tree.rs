use vstd::prelude::*;
use crate::error::OmError;
use crate::text::{chars_of, decimal_chars, decimal_of, decimal_text, parse_decimal, same_chars};

verus! {

/// One array of the hierarchy: its name, if any, its extents, outermost axis
/// first, its chunk shape (empty when unchunked), and the arena indices of
/// its children in creation order.
pub struct VariableNode {
    pub name: Option<Vec<char>>,
    pub dimensions: Vec<u64>,
    pub chunk_dimensions: Vec<u64>,
    pub children: Vec<usize>,
}

/// A tree of variables held in an arena; the root is the node at index 0.
pub struct VariableTree {
    pub nodes: Vec<VariableNode>,
}

/// A chunk shape fits its dimensions: none at all, or one extent per axis,
/// each positive and no larger than the axis.
pub open spec fn chunk_shape_fits(dimensions: Seq<u64>, chunks: Seq<u64>) -> bool {
    chunks.len() == 0 || (chunks.len() == dimensions.len() && forall|i: int|
        0 <= i < chunks.len() ==> 0 < #[trigger] chunks[i] <= dimensions[i])
}

pub open spec fn name_view(name: Option<Vec<char>>) -> Option<Seq<char>> {
    match name {
        Some(v) => Some(v@),
        None => None,
    }
}

pub open spec fn unnamed_word() -> Seq<char> {
    seq!['u', 'n', 'n', 'a', 'm', 'e', 'd']
}

pub open spec fn child_prefix() -> Seq<char> {
    seq!['c', 'h', 'i', 'l', 'd', '_']
}

pub open spec fn child_zero_word() -> Seq<char> {
    child_prefix().push('0')
}

/// Paths that denote the root itself.
pub open spec fn is_root_alias(path: Seq<char>) -> bool {
    path.len() == 0 || path == seq!['r', 'o', 'o', 't'] || path == seq!['.']
}

/// A path split at every `/`, empty segments included.
pub open spec fn split_path(s: Seq<char>) -> Seq<Seq<char>>
    decreases s.len(),
{
    if s.len() == 0 {
        seq![Seq::<char>::empty()]
    } else {
        let prev = split_path(s.drop_last());
        if s.last() == '/' {
            prev.push(Seq::<char>::empty())
        } else {
            prev.update(prev.len() - 1, prev.last().push(s.last()))
        }
    }
}

/// Whether `segment` selects the child at position `pos`, whose name is `name`:
/// `child_<N>` selects position N and nothing else; otherwise `unnamed`
/// selects a nameless child, and any segment selects a child of that name.
pub open spec fn segment_selects(segment: Seq<char>, pos: nat, name: Option<Seq<char>>) -> bool {
    if segment.len() >= 6 && segment.subrange(0, 6) == child_prefix() {
        decimal_text(segment.skip(6), u32::MAX as nat) == Some(pos)
    } else {
        (segment == unnamed_word() && name is None) || name == Some(segment)
    }
}

/// The first segment of a path names the starting node itself.
pub open spec fn segment_names_self(segment: Seq<char>, name: Option<Seq<char>>) -> bool {
    match name {
        Some(n) => n == segment,
        None => segment == unnamed_word() || segment == child_zero_word(),
    }
}

impl VariableNode {
    pub open spec fn wf(&self) -> bool {
        chunk_shape_fits(self.dimensions@, self.chunk_dimensions@)
    }

    /// A childless node; its chunk shape must fit its dimensions.
    pub fn new(name: Option<&str>, dimensions: Vec<u64>, chunk_dimensions: Vec<u64>) -> (r: Result<
        VariableNode,
        OmError,
    >)
        ensures
            r is Ok <==> chunk_shape_fits(dimensions@, chunk_dimensions@),
            r is Err ==> r->Err_0 == OmError::ShapeMismatch,
            r is Ok ==> ({
                let v = r->Ok_0;
                &&& v.wf()
                &&& name_view(v.name) == (match name {
                    Some(s) => Some(s@),
                    None => None::<Seq<char>>,
                })
                &&& v.dimensions@ == dimensions@
                &&& v.chunk_dimensions@ == chunk_dimensions@
                &&& v.children@.len() == 0
            }),
    {
        if chunk_dimensions.len() != 0 {
            if chunk_dimensions.len() != dimensions.len() {
                return Err(OmError::ShapeMismatch);
            }
            let mut i: usize = 0;
            while i < chunk_dimensions.len()
                invariant
                    chunk_dimensions.len() == dimensions.len(),
                    i <= chunk_dimensions.len(),
                    forall|j: int|
                        0 <= j < i ==> 0 < #[trigger] chunk_dimensions@[j] <= dimensions@[j],
                decreases chunk_dimensions.len() - i,
            {
                if chunk_dimensions[i] == 0 || chunk_dimensions[i] > dimensions[i] {
                    return Err(OmError::ShapeMismatch);
                }
                i = i + 1;
            }
        }
        let name = match name {
            Some(s) => Some(chars_of(s)),
            None => None,
        };
        Ok(VariableNode { name, dimensions, chunk_dimensions, children: Vec::new() })
    }
}

impl VariableTree {
    /// Every node fits its chunk shape, and every child comes after its
    /// parent in the arena.
    pub open spec fn wf(&self) -> bool {
        &&& self.nodes.len() > 0
        &&& forall|i: int| 0 <= i < self.nodes.len() ==> (#[trigger] self.nodes@[i]).wf()
        &&& forall|i: int, k: int|
            0 <= i < self.nodes.len() && 0 <= k < self.nodes@[i].children.len() ==> i < (
            #[trigger] self.nodes@[i].children@[k]) < self.nodes.len()
    }

    pub open spec fn node_name(&self, node: nat) -> Option<Seq<char>> {
        name_view(self.nodes@[node as int].name)
    }

    pub open spec fn children_of(&self, node: nat) -> Seq<usize> {
        self.nodes@[node as int].children@
    }

    /// The first child of `node`, at position `from` or later, that `segment` selects.
    pub open spec fn first_selected(&self, node: nat, segment: Seq<char>, from: nat) -> Option<nat>
        decreases self.children_of(node).len() - from,
    {
        if from >= self.children_of(node).len() {
            None
        } else if segment_selects(
            segment,
            from,
            self.node_name(self.children_of(node)[from as int] as nat),
        ) {
            Some(self.children_of(node)[from as int] as nat)
        } else {
            self.first_selected(node, segment, from + 1)
        }
    }

    /// The node reached from `node` by taking, for each segment in turn, the
    /// first child it selects.
    pub open spec fn descend(&self, node: nat, segments: Seq<Seq<char>>) -> Option<nat>
        decreases segments.len(),
    {
        if segments.len() == 0 {
            Some(node)
        } else {
            match self.first_selected(node, segments[0], 0) {
                Some(c) => self.descend(c, segments.skip(1)),
                None => None,
            }
        }
    }

    /// The node a path leads to from the root.
    pub open spec fn resolved(&self, path: Seq<char>) -> Option<nat> {
        if is_root_alias(path) {
            Some(0)
        } else {
            let segments = split_path(path);
            if segment_names_self(segments[0], self.node_name(0)) {
                self.descend(0, segments.skip(1))
            } else {
                self.descend(0, segments)
            }
        }
    }

    /// A tree with a single node.
    pub fn new(root: VariableNode) -> (r: VariableTree)
        requires
            root.wf(),
            root.children@.len() == 0,
        ensures
            r.wf(),
            r.nodes@ == seq![root],
    {
        let mut nodes: Vec<VariableNode> = Vec::new();
        nodes.push(root);
        VariableTree { nodes }
    }

    /// Appends `child` as the last child of `parent` and gives its index.
    pub fn add_child(&mut self, parent: usize, child: VariableNode) -> (r: usize)
        requires
            old(self).wf(),
            parent < old(self).nodes.len(),
            child.wf(),
            child.children@.len() == 0,
            old(self).nodes.len() < usize::MAX,
        ensures
            final(self).wf(),
            r == old(self).nodes.len(),
            final(self).nodes.len() == old(self).nodes.len() + 1,
            final(self).nodes@[r as int] == child,
            final(self).children_of(parent as nat) == old(self).children_of(parent as nat).push(r),
            final(self).nodes@[parent as int].name == old(self).nodes@[parent as int].name,
            final(self).nodes@[parent as int].dimensions == old(self).nodes@[parent as int].dimensions,
            final(self).nodes@[parent as int].chunk_dimensions == old(
                self,
            ).nodes@[parent as int].chunk_dimensions,
            forall|i: int|
                0 <= i < old(self).nodes.len() && i != parent ==> #[trigger] final(self).nodes@[i]
                    == old(self).nodes@[i],
            forall|i: int|
                0 <= i < old(self).nodes.len() ==> #[trigger] final(self).node_name(i as nat)
                    == old(self).node_name(i as nat),
    {
        let r = self.nodes.len();
        self.nodes.push(child);
        let mut p = self.nodes.remove(parent);
        p.children.push(r);
        self.nodes.insert(parent, p);
        proof {
            assert forall|i: int, k: int|
                0 <= i < self.nodes.len() && 0 <= k < self.nodes@[i].children.len() implies i < (
                #[trigger] self.nodes@[i].children@[k]) < self.nodes.len() by {
                if i != parent {
                    assert(self.nodes@[i] == old(self).nodes@.push(child)[i]);
                }
            }
        }
        r
    }

    /// Finds the variable that `path` names. The path is empty, `root` or
    /// `.` for the root itself, or `/`-separated segments. Each segment takes
    /// the first child it selects (see `segment_selects`); the first segment
    /// may instead name the root itself (see `segment_names_self`).
    pub fn resolve(&self, path: &str) -> (r: Result<usize, OmError>)
        requires
            self.wf(),
        ensures
            r is Ok <==> self.resolved(path@) is Some,
            r is Ok ==> self.resolved(path@) == Some(r->Ok_0 as nat),
            r is Err ==> r->Err_0 == OmError::NotFound,
    {
        let p = chars_of(path);
        if is_root_alias_exec(&p) {
            return Ok(0);
        }
        let segments = split_segments(&p);
        let ghost segs = split_path(path@);
        let mut j: usize = 0;
        if names_self(&segments[0], &self.nodes[0].name) {
            j = 1;
        }
        assert(segs.skip(0) =~= segs);
        let mut node: usize = 0;
        while j < segments.len()
            invariant
                self.wf(),
                segs == split_path(path@),
                segments.len() == segs.len(),
                forall|k: int| 0 <= k < segs.len() ==> (#[trigger] segments@[k])@ == segs[k],
                node < self.nodes.len(),
                j <= segments.len(),
                self.resolved(path@) == self.descend(node as nat, segs.skip(j as int)),
            decreases segments.len() - j,
        {
            assert(segs.skip(j as int)[0] == segments@[j as int]@);
            match self.select_child(node, &segments[j]) {
                Some(c) => {
                    assert(segs.skip(j as int).skip(1) =~= segs.skip(j + 1));
                    node = c;
                    j = j + 1;
                },
                None => {
                    return Err(OmError::NotFound);
                },
            }
        }
        assert(segs.skip(j as int) =~= Seq::<Seq<char>>::empty());
        Ok(node)
    }

    /// The first child of `node` that `segment` selects.
    pub fn select_child(&self, node: usize, segment: &Vec<char>) -> (r: Option<usize>)
        requires
            self.wf(),
            node < self.nodes.len(),
        ensures
            r is Some <==> self.first_selected(node as nat, segment@, 0) is Some,
            r is Some ==> self.first_selected(node as nat, segment@, 0) == Some(r->0 as nat),
            r is Some ==> r->0 < self.nodes.len(),
    {
        let kids = &self.nodes[node].children;
        let index = child_index_of(segment);
        let mut k: usize = 0;
        while k < kids.len()
            invariant
                self.wf(),
                node < self.nodes.len(),
                kids == &self.nodes@[node as int].children,
                k <= kids.len(),
                reads_as_index(segment@, index),
                self.first_selected(node as nat, segment@, 0) == self.first_selected(
                    node as nat,
                    segment@,
                    k as nat,
                ),
            decreases kids.len() - k,
        {
            let c = kids[k];
            assert(c < self.nodes.len());
            assert(self.first_selected(node as nat, segment@, k as nat) == if segment_selects(
                segment@,
                k as nat,
                self.node_name(c as nat),
            ) {
                Some(c as nat)
            } else {
                self.first_selected(node as nat, segment@, k as nat + 1)
            });
            let hit = match index {
                IndexSegment::Position(n) => {
                    n as usize == k
                },
                IndexSegment::NoPosition => {
                    false
                },
                IndexSegment::NotIndex => {
                    let name = &self.nodes[c].name;
                    match name {
                        None => is_unnamed_word(segment),
                        Some(v) => same_chars(v, segment),
                    }
                },
            };
            if hit {
                return Some(c);
            }
            k = k + 1;
        }
        None
    }
}

/// How a segment reads as a `child_<N>` alias.
#[derive(Clone, Copy)]
pub enum IndexSegment {
    /// `child_<N>` with N a valid 32-bit index.
    Position(u32),
    /// Starts with `child_` but no index follows.
    NoPosition,
    /// Does not start with `child_`.
    NotIndex,
}

/// How `segment` reads as a `child_<N>` alias.
pub open spec fn reads_as_index(segment: Seq<char>, r: IndexSegment) -> bool {
        match r {
            IndexSegment::NotIndex => !(segment.len() >= 6 && segment.subrange(0, 6)
                == child_prefix()),
            IndexSegment::NoPosition => segment.len() >= 6 && segment.subrange(0, 6)
                == child_prefix() && decimal_text(segment.skip(6), u32::MAX as nat) is None,
            IndexSegment::Position(n) => segment.len() >= 6 && segment.subrange(0, 6)
                == child_prefix() && decimal_text(segment.skip(6), u32::MAX as nat) == Some(
                n as nat,
            ),
        }
}

pub fn child_index_of(segment: &Vec<char>) -> (r: IndexSegment)
    ensures
        reads_as_index(segment@, r),
{
    let prefix = vec!['c', 'h', 'i', 'l', 'd', '_'];
    if segment.len() < 6 {
        return IndexSegment::NotIndex;
    }
    let mut i: usize = 0;
    while i < 6
        invariant
            segment.len() >= 6,
            prefix@ == child_prefix(),
            i <= 6,
            forall|j: int| 0 <= j < i ==> segment@[j] == prefix@[j],
        decreases 6 - i,
    {
        if segment[i] != prefix[i] {
            assert(segment@.subrange(0, 6)[i as int] != child_prefix()[i as int]);
            return IndexSegment::NotIndex;
        }
        i = i + 1;
    }
    assert(segment@.subrange(0, 6) =~= child_prefix());
    assert(segment@.subrange(6, segment@.len() as int) =~= segment@.skip(6));
    match parse_decimal(segment, 6, segment.len(), u32::MAX as u64) {
        Some(n) => IndexSegment::Position(n as u32),
        None => IndexSegment::NoPosition,
    }
}

fn is_unnamed_word(segment: &Vec<char>) -> (r: bool)
    ensures
        r == (segment@ == unnamed_word()),
{
    let w = vec!['u', 'n', 'n', 'a', 'm', 'e', 'd'];
    assert(w@ =~= unnamed_word());
    same_chars(segment, &w)
}

fn is_root_alias_exec(path: &Vec<char>) -> (r: bool)
    ensures
        r == is_root_alias(path@),
{
    let root = vec!['r', 'o', 'o', 't'];
    let dot = vec!['.'];
    assert(root@ =~= seq!['r', 'o', 'o', 't']);
    assert(dot@ =~= seq!['.']);
    path.len() == 0 || same_chars(path, &root) || same_chars(path, &dot)
}

fn names_self(segment: &Vec<char>, name: &Option<Vec<char>>) -> (r: bool)
    ensures
        r == segment_names_self(segment@, name_view(*name)),
{
    match name {
        Some(n) => same_chars(n, segment),
        None => {
            let zero = vec!['c', 'h', 'i', 'l', 'd', '_', '0'];
            assert(zero@ =~= child_zero_word());
            is_unnamed_word(segment) || same_chars(segment, &zero)
        },
    }
}

proof fn lemma_split_path_nonempty(s: Seq<char>)
    ensures
        split_path(s).len() >= 1,
    decreases s.len(),
{
    if s.len() > 0 {
        lemma_split_path_nonempty(s.drop_last());
    }
}

/// The segments of a path, split at every `/`.
pub fn split_segments(path: &Vec<char>) -> (r: Vec<Vec<char>>)
    ensures
        r.len() == split_path(path@).len(),
        forall|k: int| 0 <= k < r.len() ==> (#[trigger] r@[k])@ == split_path(path@)[k],
        r.len() >= 1,
{
    let mut done: Vec<Vec<char>> = Vec::new();
    let mut cur: Vec<char> = Vec::new();
    let mut i: usize = 0;
    assert(path@.take(0) =~= Seq::<char>::empty());
    while i < path.len()
        invariant
            i <= path.len(),
            done.len() + 1 == split_path(path@.take(i as int)).len(),
            forall|k: int|
                0 <= k < done.len() ==> (#[trigger] done@[k])@ == split_path(path@.take(i as int))[k],
            cur@ == split_path(path@.take(i as int)).last(),
        decreases path.len() - i,
    {
        let c = path[i];
        let ghost before = path@.take(i as int);
        assert(path@.take(i + 1).drop_last() =~= before);
        assert(path@.take(i + 1).last() == c);
        proof {
            lemma_split_path_nonempty(before);
        }
        if c == '/' {
            let finished = cur;
            done.push(finished);
            cur = Vec::new();
            assert(cur@ =~= Seq::<char>::empty());
        } else {
            cur.push(c);
        }
        i = i + 1;
    }
    assert(path@.take(path.len() as int) =~= path@);
    done.push(cur);
    done
}

/// One line of a metadata listing: a node, its depth below the root, and
/// its path.
pub struct ListingEntry {
    pub node: usize,
    pub depth: usize,
    pub path: Vec<char>,
}

pub open spec fn entry_view(e: ListingEntry) -> (nat, nat, Seq<char>) {
    (e.node as nat, e.depth as nat, e.path@)
}

pub open spec fn entries_view(v: Seq<ListingEntry>) -> Seq<(nat, nat, Seq<char>)> {
    v.map_values(|e: ListingEntry| entry_view(e))
}

/// `label` appended to `path`, with a `/` between them unless `path` is empty.
pub open spec fn join_path(path: Seq<char>, label: Seq<char>) -> Seq<char> {
    if path.len() == 0 {
        label
    } else {
        path + seq!['/'] + label
    }
}

impl VariableTree {
    /// How a listing names the child at position `pos`: by its name, or
    /// `child_<pos>` when it has none.
    pub open spec fn child_label(&self, node: nat, pos: nat) -> Seq<char> {
        match self.node_name(self.children_of(node)[pos as int] as nat) {
            Some(n) => n,
            None => child_prefix() + decimal_of(pos),
        }
    }

    /// The listing of `node` and everything below it, in pre-order, children
    /// in creation order.
    pub open spec fn listing_from(&self, node: nat, depth: nat, path: Seq<char>) -> Seq<
        (nat, nat, Seq<char>),
    >
        decreases self.nodes.len() - node, self.children_of(node).len() + 1,
    {
        seq![(node, depth, path)] + self.children_listing(node, depth, path, 0)
    }

    /// The listings of the children of `node` from position `from` on.
    pub open spec fn children_listing(&self, node: nat, depth: nat, path: Seq<char>, from: nat) -> Seq<
        (nat, nat, Seq<char>),
    >
        decreases self.nodes.len() - node, self.children_of(node).len() - from,
    {
        if from >= self.children_of(node).len() {
            Seq::empty()
        } else {
            let c = self.children_of(node)[from as int] as nat;
            if node < c < self.nodes.len() {
                self.listing_from(c, depth + 1, join_path(path, self.child_label(node, from)))
                    + self.children_listing(node, depth, path, from + 1)
            } else {
                Seq::empty()
            }
        }
    }

    /// Every variable of the tree, in pre-order from the root, with its depth
    /// and its path: a child is named by its name, or `child_<N>` after its
    /// position when it has none.
    pub fn listing(&self) -> (r: Vec<ListingEntry>)
        requires
            self.wf(),
        ensures
            entries_view(r@) == self.listing_from(0, 0, Seq::empty()),
    {
        let mut out: Vec<ListingEntry> = Vec::new();
        self.list_into(0, 0, Vec::new(), &mut out);
        assert(entries_view(out@) =~= self.listing_from(0, 0, Seq::empty()));
        out
    }

    fn list_into(&self, node: usize, depth: usize, path: Vec<char>, out: &mut Vec<ListingEntry>)
        requires
            self.wf(),
            node < self.nodes.len(),
            depth <= node,
        ensures
            entries_view(final(out)@) == entries_view(old(out)@) + self.listing_from(
                node as nat,
                depth as nat,
                path@,
            ),
        decreases self.nodes.len() - node,
    {
        let ghost start = entries_view(out@);
        let ghost p = path@;
        let kids = &self.nodes[node].children;
        out.push(ListingEntry { node, depth, path: path.clone() });
        assert(entries_view(out@) =~= start + seq![(node as nat, depth as nat, p)]);
        assert(self.children_listing(node as nat, depth as nat, p, 0) =~= self.children_listing(
            node as nat,
            depth as nat,
            p,
            0,
        ));
        let mut k: usize = 0;
        while k < kids.len()
            invariant
                self.wf(),
                node < self.nodes.len(),
                depth <= node,
                kids == &self.nodes@[node as int].children,
                k <= kids.len(),
                path@ == p,
                entries_view(out@) + self.children_listing(node as nat, depth as nat, p, k as nat)
                    == start + self.listing_from(node as nat, depth as nat, p),
            decreases kids.len() - k,
        {
            let c = kids[k];
            assert(node < c < self.nodes.len());
            let label = match &self.nodes[c].name {
                Some(n) => n.clone(),
                None => {
                    let prefix = vec!['c', 'h', 'i', 'l', 'd', '_'];
                    assert(prefix@ =~= child_prefix());
                    concat_chars(&prefix, &decimal_chars(k as u64))
                },
            };
            assert(label@ == self.child_label(node as nat, k as nat));
            let child_path = if path.len() == 0 {
                label
            } else {
                let slash = vec!['/'];
                let with_slash = concat_chars(&path, &slash);
                assert(with_slash@ =~= path@ + seq!['/']);
                concat_chars(&with_slash, &label)
            };
            assert(child_path@ == join_path(p, self.child_label(node as nat, k as nat)));
            let ghost before = entries_view(out@);
            self.list_into(c, depth + 1, child_path, out);
            let ghost sub = self.listing_from(
                c as nat,
                depth as nat + 1,
                join_path(p, self.child_label(node as nat, k as nat)),
            );
            assert(self.children_listing(node as nat, depth as nat, p, k as nat) == sub
                + self.children_listing(node as nat, depth as nat, p, k as nat + 1));
            assert(before + sub + self.children_listing(node as nat, depth as nat, p, k as nat + 1)
                =~= before + self.children_listing(node as nat, depth as nat, p, k as nat));
            k = k + 1;
        }
        assert(self.children_listing(node as nat, depth as nat, p, k as nat) =~= Seq::empty());
        assert(entries_view(out@) =~= entries_view(out@) + Seq::<(nat, nat, Seq<char>)>::empty());
    }
}

/// The characters of `a` followed by those of `b`.
pub fn concat_chars(a: &Vec<char>, b: &Vec<char>) -> (r: Vec<char>)
    ensures
        r@ == a@ + b@,
{
    let mut r = a.clone();
    let mut i: usize = 0;
    while i < b.len()
        invariant
            i <= b.len(),
            r@ == a@ + b@.take(i as int),
        decreases b.len() - i,
    {
        r.push(b[i]);
        i = i + 1;
        assert(r@ =~= a@ + b@.take(i as int));
    }
    assert(b@.take(b.len() as int) =~= b@);
    r
}

/// Lookup never skips a match: when the child at position `k` is the first
/// that a segment selects, the segment leads to that child, whatever the
/// later siblings are called.
pub proof fn lemma_first_match_wins(tree: VariableTree, node: nat, segment: Seq<char>, k: nat)
    requires
        tree.wf(),
        node < tree.nodes.len(),
        k < tree.children_of(node).len(),
        segment_selects(segment, k, tree.node_name(tree.children_of(node)[k as int] as nat)),
        forall|j: nat|
            j < k ==> !segment_selects(
                segment,
                j,
                #[trigger] tree.node_name(tree.children_of(node)[j as int] as nat),
            ),
    ensures
        tree.first_selected(node, segment, 0) == Some(tree.children_of(node)[k as int] as nat),
{
    lemma_first_match_from(tree, node, segment, k, 0);
}

proof fn lemma_first_match_from(
    tree: VariableTree,
    node: nat,
    segment: Seq<char>,
    k: nat,
    from: nat,
)
    requires
        from <= k < tree.children_of(node).len(),
        segment_selects(segment, k, tree.node_name(tree.children_of(node)[k as int] as nat)),
        forall|j: nat|
            j < k ==> !segment_selects(
                segment,
                j,
                #[trigger] tree.node_name(tree.children_of(node)[j as int] as nat),
            ),
    ensures
        tree.first_selected(node, segment, from) == Some(tree.children_of(node)[k as int] as nat),
    decreases k - from,
{
    if from < k {
        lemma_first_match_from(tree, node, segment, k, from + 1);
        assert(!segment_selects(
            segment,
            from,
            tree.node_name(tree.children_of(node)[from as int] as nat),
        ));
    }
}

/// Extents written out in decimal, separated by ` × `.
pub open spec fn extents_text(values: Seq<u64>) -> Seq<char>
    decreases values.len(),
{
    if values.len() == 0 {
        Seq::empty()
    } else if values.len() == 1 {
        decimal_of(values[0] as nat)
    } else {
        extents_text(values.drop_last()) + seq![' ', '\u{d7}', ' '] + decimal_of(
            values.last() as nat,
        )
    }
}

/// How a listing shows a chunk shape: its extents, or `none` when unchunked.
pub open spec fn chunks_text(chunks: Seq<u64>) -> Seq<char> {
    if chunks.len() == 0 {
        seq!['n', 'o', 'n', 'e']
    } else {
        extents_text(chunks)
    }
}

/// How a listing shows a name: the name, or `unnamed` when there is none.
pub open spec fn name_text(name: Option<Seq<char>>) -> Seq<char> {
    match name {
        Some(n) => n,
        None => unnamed_word(),
    }
}

/// The extents of `values` in decimal, separated by ` × `.
pub fn extents_label(values: &Vec<u64>) -> (r: Vec<char>)
    ensures
        r@ == extents_text(values@),
{
    let mut r: Vec<char> = Vec::new();
    let mut i: usize = 0;
    while i < values.len()
        invariant
            i <= values.len(),
            r@ == extents_text(values@.take(i as int)),
        decreases values.len() - i,
    {
        let digits = decimal_chars(values[i]);
        let ghost before = values@.take(i as int);
        assert(values@.take(i + 1).drop_last() =~= before);
        assert(values@.take(i + 1).last() == values@[i as int]);
        if i == 0 {
            r = digits;
        } else {
            let sep = vec![' ', '\u{d7}', ' '];
            let with_sep = concat_chars(&r, &sep);
            assert(with_sep@ =~= r@ + seq![' ', '\u{d7}', ' ']);
            r = concat_chars(&with_sep, &digits);
        }
        i = i + 1;
    }
    assert(values@.take(values.len() as int) =~= values@);
    r
}

/// A chunk shape as a listing shows it: `none` when unchunked.
pub fn chunks_label(chunks: &Vec<u64>) -> (r: Vec<char>)
    ensures
        r@ == chunks_text(chunks@),
{
    if chunks.len() == 0 {
        let none = vec!['n', 'o', 'n', 'e'];
        assert(none@ =~= seq!['n', 'o', 'n', 'e']);
        none
    } else {
        extents_label(chunks)
    }
}

/// A name as a listing shows it: `unnamed` when there is none.
pub fn name_label(name: &Option<Vec<char>>) -> (r: Vec<char>)
    ensures
        r@ == name_text(name_view(*name)),
{
    match name {
        Some(n) => n.clone(),
        None => {
            let w = vec!['u', 'n', 'n', 'a', 'm', 'e', 'd'];
            assert(w@ =~= unnamed_word());
            w
        },
    }
}

} // verus!
