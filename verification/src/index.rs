//! The category index: posts folded into a tree keyed by category and
//! subdirectory segments, and the rendering of that tree as one
//! navigable HTML page.

use vstd::prelude::*;
use vstd::string::StrSliceExecFns;
use vstd::string::StringExecFns;
use crate::model::Post;
use crate::model::spec_rel_save_path;
use crate::text::spec_segments;
use crate::text::split_segments;

verus! {

/// One node of the index tree: a path segment, its child nodes in
/// first-seen order, and the posts attached at this level.
pub struct TreeNode {
    /// The path segment this node stands for.
    pub name: String,
    /// Child nodes, in the order their names were first seen.
    pub children: Vec<TreeNode>,
    /// Posts attached at this node's own level.
    pub files: Vec<Post>,
}

/// The first child of `cs` named `name`, if any.
pub open spec fn find_child(cs: Seq<TreeNode>, name: Seq<char>) -> Option<TreeNode>
    decreases cs.len(),
{
    if cs.len() == 0 {
        None
    } else if cs[0].name@ == name {
        Some(cs[0])
    } else {
        find_child(cs.drop_first(), name)
    }
}

/// The posts attached at the node reached from `n` by walking `path`,
/// segment by segment; empty when no such node exists.
pub open spec fn files_at(n: TreeNode, path: Seq<Seq<char>>) -> Seq<Post>
    decreases path.len(),
{
    if path.len() == 0 {
        n.files@
    } else {
        match find_child(n.children@, path[0]) {
            None => Seq::<Post>::empty(),
            Some(c) => files_at(c, path.drop_first()),
        }
    }
}

/// The path a post is attached under: its category when non-empty, then
/// the non-empty segments of its subdirectory, in order.
pub open spec fn spec_post_path(p: Post) -> Seq<Seq<char>> {
    (if p.category@.len() == 0 {
        Seq::<Seq<char>>::empty()
    } else {
        seq![p.category@]
    }) + spec_segments(p.csv_subdir@)
}

/// Whether walking `path` from `n` reaches a node.
pub open spec fn has_node_at(n: TreeNode, path: Seq<Seq<char>>) -> bool
    decreases path.len(),
{
    if path.len() == 0 {
        true
    } else {
        match find_child(n.children@, path[0]) {
            None => false,
            Some(c) => has_node_at(c, path.drop_first()),
        }
    }
}

/// `q` is an initial run of `p`.
pub open spec fn path_prefix(q: Seq<Seq<char>>, p: Seq<Seq<char>>) -> bool {
    q.len() <= p.len() && forall|i: int| 0 <= i < q.len() ==> q[i] == p[i]
}

/// Sibling names are distinct at this node and below it.
pub open spec fn tree_names_unique(n: TreeNode) -> bool
    decreases n,
{
    &&& forall|i: int, j: int|
        0 <= i < j < n.children@.len() ==> n.children@[i].name@ != n.children@[j].name@
    &&& forall|i: int|
        0 <= i < n.children@.len() ==> tree_names_unique(#[trigger] n.children@[i])
}

/// Stepping past a shared first segment keeps the prefix relation.
proof fn lemma_path_prefix_step(q: Seq<Seq<char>>, p: Seq<Seq<char>>)
    requires
        q.len() > 0,
        p.len() > 0,
        q[0] == p[0],
    ensures
        path_prefix(q, p) <==> path_prefix(q.drop_first(), p.drop_first()),
{
    if path_prefix(q.drop_first(), p.drop_first()) {
        assert forall|i: int| 0 <= i < q.len() implies q[i] == p[i] by {
            if i > 0 {
                assert(q.drop_first()[i - 1] == p.drop_first()[i - 1]);
            }
        }
    }
    if path_prefix(q, p) {
        assert forall|i: int| 0 <= i < q.drop_first().len() implies q.drop_first()[i]
            == p.drop_first()[i] by {
            assert(q[i + 1] == p[i + 1]);
        }
    }
}

/// The names of a list of sibling nodes, in their stored order.
pub open spec fn names_of(cs: Seq<TreeNode>) -> Seq<Seq<char>> {
    cs.map_values(|c: TreeNode| c.name@)
}

/// The names of the children of the node reached by walking `q` from
/// `n`, in stored order; empty when no such node exists.
pub open spec fn child_names_in(n: TreeNode, q: Seq<Seq<char>>) -> Seq<Seq<char>>
    decreases q.len(),
{
    if q.len() == 0 {
        names_of(n.children@)
    } else {
        match find_child(n.children@, q[0]) {
            None => Seq::<Seq<char>>::empty(),
            Some(c) => child_names_in(c, q.drop_first()),
        }
    }
}

/// `ns` with `nm` appended, unless it is already present.
pub open spec fn append_if_absent(ns: Seq<Seq<char>>, nm: Seq<char>) -> Seq<Seq<char>> {
    if ns.contains(nm) {
        ns
    } else {
        ns.push(nm)
    }
}

/// The child names under the node at `q` that the posts give rise to,
/// in the order the names are first seen over the post list.
pub open spec fn child_names_at(posts: Seq<Post>, q: Seq<Seq<char>>) -> Seq<Seq<char>>
    decreases posts.len(),
{
    if posts.len() == 0 {
        Seq::<Seq<char>>::empty()
    } else {
        let rest = child_names_at(posts.drop_last(), q);
        let path = spec_post_path(posts.last());
        if path_prefix(q, path) && q.len() < path.len() {
            append_if_absent(rest, path[q.len() as int])
        } else {
            rest
        }
    }
}

/// The posts of `posts`, in order, whose path is exactly `q`.
pub open spec fn spec_posts_at(posts: Seq<Post>, q: Seq<Seq<char>>) -> Seq<Post>
    decreases posts.len(),
{
    if posts.len() == 0 {
        Seq::<Post>::empty()
    } else {
        spec_posts_at(posts.drop_last(), q) + (if spec_post_path(posts.last()) == q {
            seq![posts.last()]
        } else {
            Seq::<Post>::empty()
        })
    }
}

/// Everything attached under a path belongs there: each post listed at
/// `q` has `q` as its own path. Together with the builder's contract
/// this puts every post in exactly one node of the tree.
pub proof fn lemma_posts_at_have_path(posts: Seq<Post>, q: Seq<Seq<char>>, k: int)
    requires
        0 <= k < spec_posts_at(posts, q).len(),
    ensures
        spec_post_path(spec_posts_at(posts, q)[k]) == q,
    decreases posts.len(),
{
    if posts.len() > 0 {
        let prefix = spec_posts_at(posts.drop_last(), q);
        if k < prefix.len() {
            lemma_posts_at_have_path(posts.drop_last(), q, k);
        }
    }
}

/// No post of the batch is lost: each one is listed under its own path.
pub proof fn lemma_every_post_attached(posts: Seq<Post>, i: int)
    requires
        0 <= i < posts.len(),
    ensures
        spec_posts_at(posts, spec_post_path(posts[i])).contains(posts[i]),
    decreases posts.len(),
{
    let q = spec_post_path(posts[i]);
    let prefix = spec_posts_at(posts.drop_last(), q);
    if i == posts.len() - 1 {
        assert(spec_posts_at(posts, q)[prefix.len() as int] == posts[i]);
    } else {
        lemma_every_post_attached(posts.drop_last(), i);
        assert(posts.drop_last()[i] == posts[i]);
        let k = choose|k: int| 0 <= k < prefix.len() && prefix[k] == posts[i];
        assert(spec_posts_at(posts, q)[k] == posts[i]);
    }
}

/// A node with no children and no files holds nothing at any path,
/// only the empty walk reaches a node from it, and no walk finds child
/// names.
pub proof fn lemma_empty_node_files(n: TreeNode, path: Seq<Seq<char>>)
    requires
        n.children@.len() == 0,
        n.files@.len() == 0,
    ensures
        files_at(n, path) == Seq::<Post>::empty(),
        has_node_at(n, path) == (path.len() == 0),
        child_names_in(n, path) == Seq::<Seq<char>>::empty(),
{
    if path.len() > 0 {
        assert(files_at(n, path) == Seq::<Post>::empty());
    } else {
        assert(files_at(n, path) =~= Seq::<Post>::empty());
        assert(child_names_in(n, path) =~~= Seq::<Seq<char>>::empty());
    }
}

impl TreeNode {
    /// A fresh node for one path segment, with no children and no files.
    pub fn new(name: String) -> (r: Self)
        ensures
            r.name == name,
            r.children@ =~= Seq::<TreeNode>::empty(),
            r.files@ =~= Seq::<Post>::empty(),
    {
        TreeNode { name, children: Vec::new(), files: Vec::new() }
    }

    /// Attaches a post at this node's own level, after the ones already
    /// here.
    pub fn add_file(&mut self, post: Post)
        ensures
            final(self).name == old(self).name,
            final(self).children == old(self).children,
            final(self).files@ == old(self).files@.push(post),
    {
        self.files.push(post);
    }

    /// The index of the first child named `name`, creating an empty one
    /// at the end when none exists. Existing children keep their place
    /// and contents either way.
    pub fn get_or_create_child(&mut self, name: String) -> (idx: usize)
        ensures
            final(self).name == old(self).name,
            final(self).files == old(self).files,
            0 <= idx < final(self).children@.len(),
            final(self).children@[idx as int].name@ == name@,
            forall|j: int|
                0 <= j < idx ==> final(self).children@[j].name@ != name@,
            if find_child(old(self).children@, name@) is Some {
                final(self).children == old(self).children
            } else {
                &&& idx == old(self).children@.len()
                &&& forall|j: int|
                    0 <= j < old(self).children@.len() ==> old(self).children@[j].name@ != name@
                &&& final(self).children@ == old(self).children@.push(
                    final(self).children@.last(),
                )
                &&& final(self).children@.last().name@ == name@
                &&& final(self).children@.last().children@.len() == 0
                &&& final(self).children@.last().files@.len() == 0
            },
    {
        let n = self.children.len();
        let mut i: usize = 0;
        while i < n
            invariant
                n == self.children@.len(),
                0 <= i <= n,
                forall|j: int| 0 <= j < i ==> self.children@[j].name@ != name@,
            decreases n - i,
        {
            if self.children[i].name.eq(&name) {
                proof {
                    lemma_find_child_first(self.children@, name@, i as int);
                }
                return i;
            }
            i += 1;
        }
        proof {
            lemma_find_child_none(self.children@, name@);
        }
        let node = TreeNode::new(name);
        self.children.push(node);
        proof {
            assert(self.children@ =~= old(self).children@.push(self.children@.last()));
        }
        n
    }
}

/// When the first `i` children are not named `name` and the child at `i`
/// is, it is the one `find_child` returns.
proof fn lemma_find_child_first(cs: Seq<TreeNode>, name: Seq<char>, i: int)
    requires
        0 <= i < cs.len(),
        cs[i].name@ == name,
        forall|j: int| 0 <= j < i ==> cs[j].name@ != name,
    ensures
        find_child(cs, name) == Some(cs[i]),
    decreases i,
{
    if i > 0 {
        lemma_find_child_first(cs.drop_first(), name, i - 1);
    }
}

/// When no child is named `name`, `find_child` finds nothing.
proof fn lemma_find_child_none(cs: Seq<TreeNode>, name: Seq<char>)
    requires
        forall|j: int| 0 <= j < cs.len() ==> cs[j].name@ != name,
    ensures
        find_child(cs, name) is None,
    decreases cs.len(),
{
    if cs.len() > 0 {
        lemma_find_child_none(cs.drop_first(), name);
    }
}

/// Replacing the first child of a given name by one of the same name
/// changes what `find_child` finds for that name and for no other.
proof fn lemma_find_child_update(cs: Seq<TreeNode>, idx: int, c2: TreeNode, m: Seq<char>)
    requires
        0 <= idx < cs.len(),
        c2.name@ == cs[idx].name@,
        forall|j: int| 0 <= j < idx ==> cs[j].name@ != cs[idx].name@,
    ensures
        find_child(cs.update(idx, c2), cs[idx].name@) == Some(c2),
        m != cs[idx].name@ ==> find_child(cs.update(idx, c2), m) == find_child(cs, m),
    decreases cs.len(),
{
    let cs2 = cs.update(idx, c2);
    if idx == 0 {
        assert(cs2[0] == c2);
        assert(cs2.drop_first() =~= cs.drop_first());
    } else {
        assert(cs2[0] == cs[0]);
        assert(cs2.drop_first() =~= cs.drop_first().update(idx - 1, c2));
        lemma_find_child_update(cs.drop_first(), idx - 1, c2, m);
    }
}

/// Appending a child whose name no earlier child bears changes what
/// `find_child` finds for that name and for no other.
proof fn lemma_find_child_push(cs: Seq<TreeNode>, c2: TreeNode, m: Seq<char>)
    requires
        forall|j: int| 0 <= j < cs.len() ==> cs[j].name@ != c2.name@,
    ensures
        find_child(cs.push(c2), c2.name@) == Some(c2),
        m != c2.name@ ==> find_child(cs.push(c2), m) == find_child(cs, m),
    decreases cs.len(),
{
    let cs2 = cs.push(c2);
    if cs.len() == 0 {
        assert(cs2[0] == c2);
        assert(cs2.drop_first() =~= Seq::<TreeNode>::empty());
        assert(find_child(Seq::<TreeNode>::empty(), m) is None);
        if m != c2.name@ {
            assert(find_child(cs2, m) == find_child(cs2.drop_first(), m));
            assert(find_child(cs, m) is None);
        }
    } else {
        assert(cs2[0] == cs[0]);
        assert(cs2.drop_first() =~= cs.drop_first().push(c2));
        lemma_find_child_push(cs.drop_first(), c2, m);
    }
}

/// Attaches `post` at the node reached from `node` by walking the
/// segments of `segs` from position `depth` on, creating intermediate
/// nodes as needed. Every other node's files are untouched.
fn insert_at(node: &mut TreeNode, segs: &Vec<String>, depth: usize, post: Post)
    requires
        depth <= segs@.len(),
    ensures
        final(node).name == old(node).name,
        forall|q: Seq<Seq<char>>| #[trigger]
            files_at(*final(node), q) == if q == segs.deep_view().skip(depth as int) {
                files_at(*old(node), q).push(post)
            } else {
                files_at(*old(node), q)
            },
        forall|q: Seq<Seq<char>>| #[trigger]
            has_node_at(*final(node), q) <==> has_node_at(*old(node), q) || path_prefix(
                q,
                segs.deep_view().skip(depth as int),
            ),
        forall|q: Seq<Seq<char>>| #[trigger]
            child_names_in(*final(node), q) == if path_prefix(
                q,
                segs.deep_view().skip(depth as int),
            ) && q.len() < segs.deep_view().skip(depth as int).len() {
                append_if_absent(
                    child_names_in(*old(node), q),
                    segs.deep_view().skip(depth as int)[q.len() as int],
                )
            } else {
                child_names_in(*old(node), q)
            },
        tree_names_unique(*old(node)) ==> tree_names_unique(*final(node)),
    decreases segs@.len() - depth,
{
    let ghost n0 = *old(node);
    let ghost target = segs.deep_view().skip(depth as int);
    if depth == segs.len() {
        node.files.push(post);
        proof {
            assert(target =~~= Seq::<Seq<char>>::empty());
            assert forall|q: Seq<Seq<char>>|
                #[trigger] files_at(*node, q) == if q == target {
                    files_at(n0, q).push(post)
                } else {
                    files_at(n0, q)
                } by {
                if q.len() == 0 {
                    assert(q =~~= target);
                    assert(files_at(*node, q) == n0.files@.push(post));
                } else {
                    assert(q != target);
                    assert(files_at(*node, q) == files_at(n0, q));
                }
            }
            assert forall|q: Seq<Seq<char>>|
                #[trigger] has_node_at(*node, q) <==> has_node_at(n0, q) || path_prefix(
                    q,
                    target,
                ) by {
                if q.len() == 0 {
                    assert(path_prefix(q, target));
                    assert(has_node_at(*node, q));
                    assert(has_node_at(n0, q));
                } else {
                    assert(node.children@ == n0.children@);
                    assert(has_node_at(*node, q) == has_node_at(n0, q));
                    assert(!path_prefix(q, target));
                }
            }
            assert forall|q: Seq<Seq<char>>|
                #[trigger] child_names_in(*node, q) == if path_prefix(q, target) && q.len()
                    < target.len() {
                    append_if_absent(child_names_in(n0, q), target[q.len() as int])
                } else {
                    child_names_in(n0, q)
                } by {
                assert(!(q.len() < target.len()));
                if q.len() == 0 {
                    assert(names_of(node.children@) =~~= names_of(n0.children@));
                } else {
                    assert(child_names_in(*node, q) == child_names_in(n0, q));
                }
            }
            if tree_names_unique(n0) {
                assert(node.children@ == n0.children@);
                assert(tree_names_unique(*node));
            }
        }
    } else {
        let name = segs[depth].clone();
        let ghost nm = segs.deep_view()[depth as int];
        assert(name@ == nm);
        let idx = node.get_or_create_child(name);
        let ghost n1 = *node;
        let ghost created = !(find_child(n0.children@, nm) is Some);
        let mut child = node.children.remove(idx);
        let ghost c1 = child;
        insert_at(&mut child, segs, depth + 1, post);
        let ghost c2 = child;
        node.children.insert(idx, child);
        proof {
            let ghost n3 = *node;
            assert(n3.children@ =~= n1.children@.update(idx as int, c2));
            assert(n1.children@[idx as int] == c1);
            assert(c1.name@ == nm);
            assert(c2.name@ == nm);
            let subtarget = segs.deep_view().skip(depth + 1);
            assert(target =~~= seq![nm] + subtarget);
            if created {
                lemma_find_child_none(n0.children@, nm);
            } else {
                assert(n1.children@ == n0.children@);
            }
            assert forall|q: Seq<Seq<char>>|
                #[trigger] files_at(n3, q) == if q == target {
                    files_at(n0, q).push(post)
                } else {
                    files_at(n0, q)
                } by {
                if q.len() == 0 {
                    assert(q != target);
                    assert(files_at(n3, q) == n3.files@);
                    assert(files_at(n0, q) == n0.files@);
                    assert(n3.files@ == n0.files@);
                } else {
                    lemma_find_child_update(n1.children@, idx as int, c2, q[0]);
                    if q[0] == nm {
                        assert(find_child(n3.children@, nm) == Some(c2));
                        assert(files_at(n3, q) == files_at(c2, q.drop_first()));
                        if created {
                            assert(files_at(n0, q) == Seq::<Post>::empty());
                            lemma_empty_node_files(c1, q.drop_first());
                        } else {
                            lemma_find_child_first(n0.children@, nm, idx as int);
                            assert(find_child(n0.children@, q[0]) == Some(c1));
                            assert(files_at(n0, q) == files_at(c1, q.drop_first()));
                        }
                        if q == target {
                            assert(q.drop_first() =~~= subtarget);
                            assert(files_at(c2, q.drop_first()) == files_at(
                                c1,
                                q.drop_first(),
                            ).push(post));
                        } else {
                            assert(q.drop_first() != subtarget) by {
                                if q.drop_first() == subtarget {
                                    assert(q =~~= seq![q[0]] + q.drop_first());
                                    assert(q =~~= target);
                                }
                            }
                            assert(files_at(c2, q.drop_first()) == files_at(c1, q.drop_first()));
                        }
                    } else {
                        assert(q != target) by {
                            if q == target {
                                assert(q[0] == target[0]);
                                assert(target[0] == nm);
                            }
                        }
                        assert(find_child(n3.children@, q[0]) == find_child(n1.children@, q[0]));
                        if created {
                            lemma_find_child_push(n0.children@, n1.children@.last(), q[0]);
                            assert(n1.children@ =~= n0.children@.push(n1.children@.last()));
                            assert(find_child(n1.children@, q[0]) == find_child(
                                n0.children@,
                                q[0],
                            ));
                        }
                        assert(find_child(n3.children@, q[0]) == find_child(n0.children@, q[0]));
                        assert(files_at(n3, q) == files_at(n0, q));
                    }
                }
            }
            assert forall|q: Seq<Seq<char>>|
                #[trigger] has_node_at(n3, q) <==> has_node_at(n0, q) || path_prefix(
                    q,
                    target,
                ) by {
                if q.len() == 0 {
                    assert(path_prefix(q, target));
                    assert(has_node_at(n3, q));
                } else {
                    lemma_find_child_update(n1.children@, idx as int, c2, q[0]);
                    if q[0] == nm {
                        assert(target[0] == nm);
                        lemma_path_prefix_step(q, target);
                        assert(target.drop_first() =~~= subtarget);
                        assert(find_child(n3.children@, nm) == Some(c2));
                        assert(has_node_at(n3, q) == has_node_at(c2, q.drop_first()));
                        if created {
                            assert(!has_node_at(n0, q));
                            lemma_empty_node_files(c1, q.drop_first());
                            if q.drop_first().len() == 0 {
                                assert(path_prefix(q.drop_first(), subtarget));
                            }
                        } else {
                            lemma_find_child_first(n0.children@, nm, idx as int);
                            assert(has_node_at(n0, q) == has_node_at(c1, q.drop_first()));
                        }
                    } else {
                        assert(find_child(n3.children@, q[0]) == find_child(n1.children@, q[0]));
                        if created {
                            lemma_find_child_push(n0.children@, n1.children@.last(), q[0]);
                            assert(n1.children@ =~= n0.children@.push(n1.children@.last()));
                            assert(find_child(n1.children@, q[0]) == find_child(
                                n0.children@,
                                q[0],
                            ));
                        }
                        assert(find_child(n3.children@, q[0]) == find_child(n0.children@, q[0]));
                        assert(has_node_at(n3, q) == has_node_at(n0, q));
                        assert(!path_prefix(q, target)) by {
                            if path_prefix(q, target) {
                                assert(q[0] == target[0]);
                                assert(target[0] == nm);
                            }
                        }
                    }
                }
            }
            assert forall|q: Seq<Seq<char>>|
                #[trigger] child_names_in(n3, q) == if path_prefix(q, target) && q.len()
                    < target.len() {
                    append_if_absent(child_names_in(n0, q), target[q.len() as int])
                } else {
                    child_names_in(n0, q)
                } by {
                if q.len() == 0 {
                    assert(path_prefix(q, target));
                    assert(target[0] == nm);
                    assert(names_of(n3.children@) =~~= names_of(n1.children@));
                    if created {
                        assert(n1.children@ =~= n0.children@.push(n1.children@.last()));
                        assert(names_of(n1.children@) =~~= names_of(n0.children@).push(nm));
                        assert(!names_of(n0.children@).contains(nm)) by {
                            if names_of(n0.children@).contains(nm) {
                                let k = choose|k: int|
                                    0 <= k < names_of(n0.children@).len() && names_of(
                                        n0.children@,
                                    )[k] == nm;
                                assert(n0.children@[k].name@ == nm);
                            }
                        }
                        assert(child_names_in(n3, q) =~~= append_if_absent(
                            child_names_in(n0, q),
                            nm,
                        ));
                    } else {
                        assert(names_of(n1.children@) =~~= names_of(n0.children@));
                        assert(names_of(n0.children@)[idx as int] == nm);
                        assert(names_of(n0.children@).contains(nm));
                        assert(child_names_in(n3, q) =~~= child_names_in(n0, q));
                        assert(child_names_in(n3, q) =~~= append_if_absent(
                            child_names_in(n0, q),
                            nm,
                        ));
                    }
                } else {
                    lemma_find_child_update(n1.children@, idx as int, c2, q[0]);
                    if q[0] == nm {
                        assert(target[0] == nm);
                        lemma_path_prefix_step(q, target);
                        assert(target.drop_first() =~~= subtarget);
                        let rest = q.drop_first();
                        assert(find_child(n3.children@, nm) == Some(c2));
                        assert(child_names_in(n3, q) == child_names_in(c2, rest));
                        if path_prefix(q, target) && q.len() < target.len() {
                            assert(target[q.len() as int] == subtarget[rest.len() as int]);
                        }
                        if created {
                            assert(child_names_in(n0, q) =~~= Seq::<Seq<char>>::empty());
                            lemma_empty_node_files(c1, rest);
                        } else {
                            lemma_find_child_first(n0.children@, nm, idx as int);
                            assert(child_names_in(n0, q) == child_names_in(c1, rest));
                        }
                    } else {
                        assert(find_child(n3.children@, q[0]) == find_child(n1.children@, q[0]));
                        if created {
                            lemma_find_child_push(n0.children@, n1.children@.last(), q[0]);
                            assert(n1.children@ =~= n0.children@.push(n1.children@.last()));
                            assert(find_child(n1.children@, q[0]) == find_child(
                                n0.children@,
                                q[0],
                            ));
                        }
                        assert(find_child(n3.children@, q[0]) == find_child(n0.children@, q[0]));
                        assert(child_names_in(n3, q) == child_names_in(n0, q));
                        assert(!path_prefix(q, target)) by {
                            if path_prefix(q, target) {
                                assert(q[0] == target[0]);
                                assert(target[0] == nm);
                            }
                        }
                    }
                }
            }
            if tree_names_unique(n0) {
                assert(tree_names_unique(c1)) by {
                    if created {
                        assert(c1.children@.len() == 0);
                    } else {
                        assert(n1.children@ == n0.children@);
                        assert(c1 == n0.children@[idx as int]);
                    }
                }
                assert(tree_names_unique(c2));
                assert forall|i: int, j: int|
                    0 <= i < j < n3.children@.len() implies n3.children@[i].name@
                    != n3.children@[j].name@ by {
                    assert(n3.children@[i].name@ == n1.children@[i].name@);
                    assert(n3.children@[j].name@ == n1.children@[j].name@);
                    if created {
                        assert(n1.children@.drop_last() =~= n0.children@);
                        if j < n0.children@.len() {
                            assert(n1.children@[i] == n0.children@[i]);
                            assert(n1.children@[j] == n0.children@[j]);
                        } else {
                            assert(n1.children@[j].name@ == nm);
                            assert(n1.children@[i] == n0.children@[i]);
                            assert(n0.children@[i].name@ != nm);
                        }
                    } else {
                        assert(n1.children@ == n0.children@);
                    }
                }
                assert forall|i: int|
                    0 <= i < n3.children@.len() implies tree_names_unique(
                    #[trigger] n3.children@[i],
                ) by {
                    if i == idx {
                        assert(n3.children@[i] == c2);
                    } else {
                        assert(n3.children@[i] == n1.children@[i]);
                        if created && i < n0.children@.len() {
                            assert(n1.children@[i] == n0.children@[i]);
                        }
                        if !created {
                            assert(n1.children@ == n0.children@);
                        }
                        assert(tree_names_unique(n3.children@[i]));
                    }
                }
                assert(tree_names_unique(n3));
            }
        }
    }
}

/// Builds the index tree of a batch of posts: a root whose descendants
/// are created on demand, every post attached at exactly the node its
/// category and subdirectory segments name, in input order. Sibling
/// names are distinct and stand in the order they are first seen over
/// the post list, and every node below the root lies on some post's
/// walked path: no spurious node exists, and the tree is a function of
/// the post list.
pub fn build_index_tree(posts: &Vec<Post>) -> (r: TreeNode)
    ensures
        r.name@ == "root"@,
        forall|q: Seq<Seq<char>>| #[trigger] files_at(r, q) == spec_posts_at(posts@, q),
        tree_names_unique(r),
        forall|q: Seq<Seq<char>>|
            #[trigger] has_node_at(r, q) && q.len() > 0 ==> exists|k: int|
                0 <= k < posts@.len() && path_prefix(q, spec_post_path(posts@[k])),
        forall|q: Seq<Seq<char>>| #[trigger]
            child_names_in(r, q) == child_names_at(posts@, q),
{
    let mut root = TreeNode::new("root".to_owned());
    let mut i: usize = 0;
    proof {
        assert(posts@.take(0) =~= Seq::<Post>::empty());
        assert forall|q: Seq<Seq<char>>| #[trigger]
            files_at(root, q) == spec_posts_at(posts@.take(0), q) by {
            lemma_empty_node_files(root, q);
        }
        assert(tree_names_unique(root));
        assert forall|q: Seq<Seq<char>>|
            #[trigger] has_node_at(root, q) && q.len() > 0 implies exists|k: int|
            0 <= k < 0 && path_prefix(q, spec_post_path(posts@[k])) by {
            lemma_empty_node_files(root, q);
        }
        assert forall|q: Seq<Seq<char>>| #[trigger]
            child_names_in(root, q) == child_names_at(posts@.take(0), q) by {
            lemma_empty_node_files(root, q);
        }
    }
    while i < posts.len()
        invariant
            i <= posts@.len(),
            root.name@ == "root"@,
            forall|q: Seq<Seq<char>>| #[trigger]
                files_at(root, q) == spec_posts_at(posts@.take(i as int), q),
            tree_names_unique(root),
            forall|q: Seq<Seq<char>>|
                #[trigger] has_node_at(root, q) && q.len() > 0 ==> exists|k: int|
                    0 <= k < i && path_prefix(q, spec_post_path(posts@[k])),
            forall|q: Seq<Seq<char>>| #[trigger]
                child_names_in(root, q) == child_names_at(posts@.take(i as int), q),
        decreases posts@.len() - i,
    {
        let ghost before = root;
        let post = posts[i].clone();
        assert(post == posts@[i as int]);
        let segs = post_path_segments(&post);
        insert_at(&mut root, &segs, 0, post);
        proof {
            let taken = posts@.take(i as int);
            let taken1 = posts@.take(i + 1);
            assert(taken1.drop_last() =~= taken);
            assert(taken1.last() == posts@[i as int]);
            let path = spec_post_path(posts@[i as int]);
            assert(segs.deep_view().skip(0) =~~= path);
            assert forall|q: Seq<Seq<char>>| #[trigger]
                files_at(root, q) == spec_posts_at(taken1, q) by {
                if q == path {
                    assert(files_at(root, q) == files_at(before, q).push(posts@[i as int]));
                    assert(spec_posts_at(taken1, q) =~= spec_posts_at(taken, q).push(
                        posts@[i as int],
                    ));
                } else {
                    assert(files_at(root, q) == files_at(before, q));
                    assert(spec_posts_at(taken1, q) =~= spec_posts_at(taken, q));
                }
            }
            assert forall|q: Seq<Seq<char>>|
                #[trigger] has_node_at(root, q) && q.len() > 0 implies exists|k: int|
                0 <= k < i + 1 && path_prefix(q, spec_post_path(posts@[k])) by {
                if has_node_at(before, q) {
                    let k = choose|k: int|
                        0 <= k < i && path_prefix(q, spec_post_path(posts@[k]));
                    assert(0 <= k < i + 1 && path_prefix(q, spec_post_path(posts@[k])));
                } else {
                    assert(path_prefix(q, path));
                    assert(0 <= i < i + 1 && path_prefix(q, spec_post_path(posts@[i as int])));
                }
            }
            assert forall|q: Seq<Seq<char>>| #[trigger]
                child_names_in(root, q) == child_names_at(taken1, q) by {
                if path_prefix(q, path) && q.len() < path.len() {
                    assert(child_names_in(root, q) == append_if_absent(
                        child_names_in(before, q),
                        path[q.len() as int],
                    ));
                    assert(child_names_at(taken1, q) == append_if_absent(
                        child_names_at(taken, q),
                        path[q.len() as int],
                    ));
                } else {
                    assert(child_names_in(root, q) == child_names_in(before, q));
                    assert(child_names_at(taken1, q) == child_names_at(taken, q));
                }
            }
        }
        i += 1;
    }
    proof {
        assert(posts@.take(posts@.len() as int) =~= posts@);
    }
    root
}

/// The path segments a post is attached under, as owned strings.
pub fn post_path_segments(p: &Post) -> (r: Vec<String>)
    ensures
        r.deep_view() == spec_post_path(*p),
{
    let mut out: Vec<String> = Vec::new();
    if !p.category.as_str().is_empty() {
        out.push(p.category.clone());
    }
    let subs = split_segments(p.csv_subdir.as_str());
    let ghost cat_part: Seq<Seq<char>> = if p.category@.len() == 0 {
        Seq::<Seq<char>>::empty()
    } else {
        seq![p.category@]
    };
    assert(out.deep_view() =~~= cat_part);
    let mut i: usize = 0;
    while i < subs.len()
        invariant
            i <= subs@.len(),
            subs.deep_view() == spec_segments(p.csv_subdir@),
            out.deep_view() == cat_part + spec_segments(p.csv_subdir@).take(i as int),
        decreases subs@.len() - i,
    {
        let seg = subs[i].clone();
        assert(seg@ == spec_segments(p.csv_subdir@)[i as int]);
        let ghost pre = out.deep_view();
        out.push(seg);
        proof {
            assert(out.deep_view() =~~= pre.push(spec_segments(p.csv_subdir@)[i as int]));
            assert(spec_segments(p.csv_subdir@).take(i + 1) =~~= spec_segments(
                p.csv_subdir@,
            ).take(i as int).push(spec_segments(p.csv_subdir@)[i as int]));
            assert(out.deep_view() =~~= cat_part + spec_segments(p.csv_subdir@).take(i + 1));
        }
        i += 1;
    }
    proof {
        assert(spec_segments(p.csv_subdir@).take(subs@.len() as int) =~~= spec_segments(
            p.csv_subdir@,
        ));
        assert(out.deep_view() =~~= spec_post_path(*p));
    }
    out
}

/// The HTML card of one post: a link to its mirrored page, its title,
/// and its source URL.
pub open spec fn spec_render_file(p: Post) -> Seq<char> {
    "<div class=\"file-item\">\n<a href=\""@ + spec_rel_save_path(p) + "\">"@ + p.title@
        + "</a>\n<div class=\"file-meta\">"@ + p.url@ + "</div>\n</div>\n"@
}

/// The cards of a list of posts, in order.
pub open spec fn spec_render_files(fs: Seq<Post>) -> Seq<char>
    decreases fs.len(),
{
    if fs.len() == 0 {
        Seq::<char>::empty()
    } else {
        spec_render_files(fs.drop_last()) + spec_render_file(fs.last())
    }
}

/// The heading a node opens with: a category section at the top level, a
/// subcategory section below it.
pub open spec fn spec_node_header(top: bool, name: Seq<char>) -> Seq<char> {
    if top {
        "<div class=\"category\">\n<h2>"@ + name + "</h2>\n"@
    } else {
        "<div class=\"subcategory\">\n<h3>"@ + name + "</h3>\n"@
    }
}

/// A node's own file grid; a placeholder when it is a leaf with no
/// files; nothing when it only holds children.
pub open spec fn spec_files_block(n: TreeNode) -> Seq<char> {
    if n.files@.len() > 0 {
        "<div class=\"file-list\">\n"@ + spec_render_files(n.files@) + "</div>\n"@
    } else if n.children@.len() == 0 {
        "<div class=\"empty-message\">No files in this category</div>\n"@
    } else {
        Seq::<char>::empty()
    }
}

/// The sections of a list of sibling nodes, in their stored first-seen
/// order.
pub open spec fn spec_render_nodes(cs: Seq<TreeNode>, top: bool) -> Seq<char>
    decreases cs,
{
    if cs.len() == 0 {
        Seq::<char>::empty()
    } else {
        spec_render_nodes(cs.drop_last(), top) + spec_render_node(cs.last(), top)
    }
}

/// One node's section: heading, file grid, then the node's children as
/// subsections, then the closing tag.
pub open spec fn spec_render_node(n: TreeNode, top: bool) -> Seq<char>
    decreases n,
{
    spec_node_header(top, n.name@) + spec_files_block(n) + spec_render_nodes(n.children@, false)
        + "</div>\n"@
}

/// The document prologue of the index page, up to where the category
/// sections begin.
pub open spec fn spec_index_prologue() -> Seq<char> {
    "<!DOCTYPE html>\n<html lang=\"en\">\n<head>\n<meta charset=\"UTF-8\">\n<meta name=\"viewport\" content=\"width=device-width, initial-scale=1.0\">\n<title>HyFetcher Index</title>\n<style>\nbody { font-family: -apple-system, BlinkMacSystemFont, 'Segoe UI', Roboto, sans-serif; margin: 0; padding: 20px; background: #f5f5f5; }\n.container { max-width: 1200px; margin: 0 auto; background: white; border-radius: 12px; box-shadow: 0 2px 10px rgba(0,0,0,0.1); overflow: hidden; }\n.header { background: linear-gradient(135deg, #667eea 0%, #764ba2 100%); color: white; padding: 30px; text-align: center; }\n.header h1 { margin: 0; font-size: 2.5em; font-weight: 300; }\n.header p { margin: 10px 0 0; opacity: 0.9; font-size: 1.1em; }\n.content { padding: 30px; }\n.category { margin-bottom: 30px; }\n.category h2 { color: #333; border-bottom: 2px solid #667eea; padding-bottom: 10px; margin-bottom: 20px; }\n.subcategory { margin-bottom: 25px; }\n.subcategory h3 { color: #555; margin-bottom: 15px; }\n.file-list { display: grid; grid-template-columns: repeat(auto-fill, minmax(300px, 1fr)); gap: 15px; }\n.file-item { background: #f8f9fa; border: 1px solid #e9ecef; border-radius: 8px; padding: 15px; transition: all 0.2s ease; }\n.file-item:hover { transform: translateY(-2px); box-shadow: 0 4px 12px rgba(0,0,0,0.15); border-color: #667eea; }\n.file-item a { color: #333; text-decoration: none; font-weight: 500; display: block; }\n.file-item a:hover { color: #667eea; }\n.file-meta { font-size: 0.9em; color: #666; margin-top: 8px; }\n.empty-message { color: #999; font-style: italic; text-align: center; padding: 20px; }\n</style>\n</head>\n<body>\n<div class=\"container\">\n<div class=\"header\">\n<h1>HyFetcher Index</h1>\n<p>Offline website archive</p>\n</div>\n<div class=\"content\">\n"@
}

/// The whole index page of a tree: prologue, the top-level category
/// sections, and the closing tags.
pub open spec fn spec_render_index(t: TreeNode) -> Seq<char> {
    spec_index_prologue() + spec_render_nodes(t.children@, true) + "</div>\n</div>\n</body>\n</html>"@
}

/// Appends the cards of every post of `fs`, in order.
fn render_files(fs: &Vec<Post>, out: &mut String)
    ensures
        final(out)@ == old(out)@ + spec_render_files(fs@),
{
    let ghost base = out@;
    let mut i: usize = 0;
    proof {
        assert(fs@.take(0) =~= Seq::<Post>::empty());
        assert(base + spec_render_files(fs@.take(0)) =~= base);
    }
    while i < fs.len()
        invariant
            i <= fs@.len(),
            out@ == base + spec_render_files(fs@.take(i as int)),
        decreases fs@.len() - i,
    {
        let ghost pre = out@;
        out.append("<div class=\"file-item\">\n<a href=\"");
        let path = fs[i].get_rel_save_path();
        out.append(path.as_str());
        out.append("\">");
        out.append(fs[i].title.as_str());
        out.append("</a>\n<div class=\"file-meta\">");
        out.append(fs[i].url.as_str());
        out.append("</div>\n</div>\n");
        proof {
            assert(out@ =~= pre + spec_render_file(fs@[i as int]));
            assert(fs@.take(i + 1).drop_last() =~= fs@.take(i as int));
            assert(fs@.take(i + 1).last() == fs@[i as int]);
            assert(out@ =~= base + spec_render_files(fs@.take(i + 1)));
        }
        i += 1;
    }
    proof {
        assert(fs@.take(fs@.len() as int) =~= fs@);
    }
}

/// Appends the sections of every node of `cs`, in order.
fn render_nodes(cs: &Vec<TreeNode>, top: bool, out: &mut String)
    ensures
        final(out)@ == old(out)@ + spec_render_nodes(cs@, top),
    decreases cs@,
{
    let ghost base = out@;
    let mut i: usize = 0;
    proof {
        assert(cs@.take(0) =~= Seq::<TreeNode>::empty());
        assert(base + spec_render_nodes(cs@.take(0), top) =~= base);
    }
    while i < cs.len()
        invariant
            i <= cs@.len(),
            out@ == base + spec_render_nodes(cs@.take(i as int), top),
        decreases cs@.len() - i,
    {
        let ghost pre = out@;
        render_node(&cs[i], top, out);
        proof {
            assert(cs@.take(i + 1).drop_last() =~= cs@.take(i as int));
            assert(cs@.take(i + 1).last() == cs@[i as int]);
            assert(out@ =~= base + spec_render_nodes(cs@.take(i + 1), top));
        }
        i += 1;
    }
    proof {
        assert(cs@.take(cs@.len() as int) =~= cs@);
    }
}

/// Appends one node's section: heading, file grid, subsections, closing
/// tag.
fn render_node(n: &TreeNode, top: bool, out: &mut String)
    ensures
        final(out)@ == old(out)@ + spec_render_node(*n, top),
    decreases *n,
{
    let ghost base = out@;
    if top {
        out.append("<div class=\"category\">\n<h2>");
        out.append(n.name.as_str());
        out.append("</h2>\n");
    } else {
        out.append("<div class=\"subcategory\">\n<h3>");
        out.append(n.name.as_str());
        out.append("</h3>\n");
    }
    assert(out@ =~= base + spec_node_header(top, n.name@));
    let ghost after_header = out@;
    if n.files.len() > 0 {
        out.append("<div class=\"file-list\">\n");
        render_files(&n.files, out);
        out.append("</div>\n");
    } else if n.children.len() == 0 {
        out.append("<div class=\"empty-message\">No files in this category</div>\n");
    }
    assert(out@ =~= after_header + spec_files_block(*n));
    let ghost after_files = out@;
    render_nodes(&n.children, false, out);
    out.append("</div>\n");
    proof {
        assert(out@ =~= base + spec_render_node(*n, top));
    }
}

/// Renders the whole index page of a tree, top-level nodes as category
/// sections, deeper nodes as subcategory sections, each node's posts as
/// a grid of cards, in the tree's stored order.
pub fn render_index_html(tree: &TreeNode) -> (r: String)
    ensures
        r@ == spec_render_index(*tree),
{
    let mut out = String::new();
    out.append(
        "<!DOCTYPE html>\n<html lang=\"en\">\n<head>\n<meta charset=\"UTF-8\">\n<meta name=\"viewport\" content=\"width=device-width, initial-scale=1.0\">\n<title>HyFetcher Index</title>\n<style>\nbody { font-family: -apple-system, BlinkMacSystemFont, 'Segoe UI', Roboto, sans-serif; margin: 0; padding: 20px; background: #f5f5f5; }\n.container { max-width: 1200px; margin: 0 auto; background: white; border-radius: 12px; box-shadow: 0 2px 10px rgba(0,0,0,0.1); overflow: hidden; }\n.header { background: linear-gradient(135deg, #667eea 0%, #764ba2 100%); color: white; padding: 30px; text-align: center; }\n.header h1 { margin: 0; font-size: 2.5em; font-weight: 300; }\n.header p { margin: 10px 0 0; opacity: 0.9; font-size: 1.1em; }\n.content { padding: 30px; }\n.category { margin-bottom: 30px; }\n.category h2 { color: #333; border-bottom: 2px solid #667eea; padding-bottom: 10px; margin-bottom: 20px; }\n.subcategory { margin-bottom: 25px; }\n.subcategory h3 { color: #555; margin-bottom: 15px; }\n.file-list { display: grid; grid-template-columns: repeat(auto-fill, minmax(300px, 1fr)); gap: 15px; }\n.file-item { background: #f8f9fa; border: 1px solid #e9ecef; border-radius: 8px; padding: 15px; transition: all 0.2s ease; }\n.file-item:hover { transform: translateY(-2px); box-shadow: 0 4px 12px rgba(0,0,0,0.15); border-color: #667eea; }\n.file-item a { color: #333; text-decoration: none; font-weight: 500; display: block; }\n.file-item a:hover { color: #667eea; }\n.file-meta { font-size: 0.9em; color: #666; margin-top: 8px; }\n.empty-message { color: #999; font-style: italic; text-align: center; padding: 20px; }\n</style>\n</head>\n<body>\n<div class=\"container\">\n<div class=\"header\">\n<h1>HyFetcher Index</h1>\n<p>Offline website archive</p>\n</div>\n<div class=\"content\">\n",
    );
    assert(out@ =~= spec_index_prologue());
    render_nodes(&tree.children, true, &mut out);
    out.append("</div>\n</div>\n</body>\n</html>");
    proof {
        assert(out@ =~= spec_render_index(*tree));
    }
    out
}

} // verus!
