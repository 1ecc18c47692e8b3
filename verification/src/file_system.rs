//! The versioned filesystem abstraction.
//!
//! A [`FileSystem`] turns a slash-delimited logical path into the bytes of
//! the file it names.  The library ships one fully verified provider,
//! [`GitTreeFileSystem`], which resolves paths against an immutable
//! historical tree object graph, following `..` components and symbolic
//! links with cycle detection.  A live-directory provider belongs to the
//! embedding application, which implements the trait over the host
//! filesystem.

use vstd::prelude::*;

use crate::Error;

verus! {

/// Byte value of `/`, the path separator.
pub const SLASH_BYTE: u8 = 47;

/// Byte value of `.`.
pub const DOT_BYTE: u8 = 46;

/// How many symbolic links one resolution may follow before it fails with
/// `Error::SymlinkCycle`.
pub const SYMLINK_LIMIT: u32 = 40;

/// Uniform byte-loading capability over a project tree.
///
/// The trait promises nothing about the returned bytes: callers are verified
/// for every possible outcome of `load`.
pub trait FileSystem {
    /// Load the file at a slash-delimited logical path, relative to the
    /// provider's root.
    fn load(&self, path: &[u8]) -> Result<Vec<u8>, Error>;
}

/// One entry of a tree object: a name, whether the entry is a symbolic
/// link, and the index of the child object in the owning graph's node list.
pub struct HistEntry {
    pub name: Vec<u8>,
    pub is_symlink: bool,
    pub child: usize,
}

/// One object of a historical tree graph.
pub enum HistNode {
    Tree { entries: Vec<HistEntry> },
    Blob { content: Vec<u8> },
}

/// An immutable snapshot of a directory tree at one version-control
/// reference, stored as an index-linked object graph.
///
/// `nodes[root]` is the tree the provider's paths are resolved against.
/// The embedding application builds this graph from its version-control
/// library; path resolution itself is verified here.
pub struct GitTreeFileSystem {
    pub nodes: Vec<HistNode>,
    pub root: usize,
}

/// The views of a sequence of byte vectors, in reverse order.
///
/// Path components are kept on a stack with the first component on top,
/// i.e. stored last, so the stack `v` stands for the component sequence
/// `rev_views(v@)`.
pub open spec fn rev_views(v: Seq<Vec<u8>>) -> Seq<Seq<u8>> {
    Seq::new(v.len(), |i: int| v[v.len() - 1 - i]@)
}

/// The views of a sequence of byte vectors, in order.
pub open spec fn views(v: Seq<Vec<u8>>) -> Seq<Seq<u8>> {
    Seq::new(v.len(), |i: int| v[i]@)
}

/// Whether a chunk split out of a path is kept as a component: empty chunks
/// and `.` chunks are normalized away.
pub open spec fn keep_comp(c: Seq<u8>) -> bool {
    c.len() > 0 && c != seq![DOT_BYTE]
}

/// Splitting helper: splits `p` on `/`, with `cur` the chunk read so far and
/// `acc` the components already produced.
pub open spec fn spec_split_acc(p: Seq<u8>, cur: Seq<u8>, acc: Seq<Seq<u8>>) -> Seq<Seq<u8>>
    decreases p.len(),
{
    if p.len() == 0 {
        if keep_comp(cur) {
            acc.push(cur)
        } else {
            acc
        }
    } else if p[0] == SLASH_BYTE {
        spec_split_acc(
            p.drop_first(),
            Seq::empty(),
            if keep_comp(cur) {
                acc.push(cur)
            } else {
                acc
            },
        )
    } else {
        spec_split_acc(p.drop_first(), cur.push(p[0]), acc)
    }
}

/// The components of a slash-delimited path, in order, with empty and `.`
/// chunks normalized away.
pub open spec fn spec_components(p: Seq<u8>) -> Seq<Seq<u8>> {
    spec_split_acc(p, Seq::empty(), Seq::empty())
}

/// The first entry named `name`, if any.
pub open spec fn spec_lookup(entries: Seq<HistEntry>, name: Seq<u8>) -> Option<HistEntry>
    decreases entries.len(),
{
    if entries.len() == 0 {
        None
    } else if entries[0].name@ == name {
        Some(entries[0])
    } else {
        spec_lookup(entries.drop_first(), name)
    }
}

/// Path resolution against the historical tree graph.
///
/// `obj` is the current object, `parents` the stack of trees descended
/// through (for `..`), `comps` the components still to consume with the next
/// one first, and `fuel` the number of symbolic links that may still be
/// followed.  Mirrors the provider's walk: a `..` pops a parent and fails
/// with `OutOfRootTraversal` past the root; a symbolic link's blob content
/// is parsed as a relative path and prepended to the remaining components;
/// after all components are consumed the current object must be a blob.
pub open spec fn spec_resolve(
    nodes: Seq<HistNode>,
    obj: usize,
    parents: Seq<usize>,
    comps: Seq<Seq<u8>>,
    fuel: nat,
) -> Result<Seq<u8>, Error>
    decreases fuel, comps.len(),
{
    if comps.len() == 0 {
        match nodes[obj as int] {
            HistNode::Blob { content } => Ok(content@),
            HistNode::Tree { .. } => Err(Error::NotABlob),
        }
    } else {
        let name = comps[0];
        let rest = comps.drop_first();
        if name == seq![DOT_BYTE, DOT_BYTE] {
            if parents.len() == 0 {
                Err(Error::OutOfRootTraversal)
            } else {
                spec_resolve(nodes, parents.last(), parents.drop_last(), rest, fuel)
            }
        } else {
            match nodes[obj as int] {
                HistNode::Blob { .. } => Err(Error::NotADirectory),
                HistNode::Tree { entries } => match spec_lookup(entries@, name) {
                    None => Err(Error::NotFound),
                    Some(e) => if e.is_symlink {
                        if fuel == 0 {
                            Err(Error::SymlinkCycle)
                        } else {
                            match nodes[e.child as int] {
                                HistNode::Blob { content } => spec_resolve(
                                    nodes,
                                    obj,
                                    parents,
                                    spec_components(content@) + rest,
                                    (fuel - 1) as nat,
                                ),
                                HistNode::Tree { .. } => Err(Error::NotABlob),
                            }
                        }
                    } else {
                        spec_resolve(nodes, e.child, parents.push(obj), rest, fuel)
                    },
                },
            }
        }
    }
}

/// Whether an executable resolution result agrees with the specification
/// result.
pub open spec fn resolve_result_matches(r: Result<Vec<u8>, Error>, s: Result<Seq<u8>, Error>) -> bool {
    match r {
        Ok(v) => s == Ok::<Seq<u8>, Error>(v@),
        Err(e) => s == Err::<Seq<u8>, Error>(e),
    }
}

/// Whether every entry of a node points inside a graph of `n` nodes.
pub open spec fn node_wf(node: HistNode, n: int) -> bool {
    match node {
        HistNode::Tree { entries } => forall|j: int|
            0 <= j < entries@.len() ==> (#[trigger] entries@[j]).child < n,
        HistNode::Blob { .. } => true,
    }
}

/// Split a path into its components and return them as a stack, the first
/// component on top (stored last).
pub fn get_components(path: &[u8]) -> (r: Vec<Vec<u8>>)
    ensures
        rev_views(r@) == spec_components(path@),
{
    let mut fwd: Vec<Vec<u8>> = Vec::new();
    let mut cur: Vec<u8> = Vec::new();
    let mut i: usize = 0;
    proof {
        assert(path@.skip(0) =~= path@);
        assert(views(fwd@) =~= Seq::<Seq<u8>>::empty());
    }
    while i < path.len()
        invariant
            i <= path.len(),
            spec_components(path@) == spec_split_acc(path@.skip(i as int), cur@, views(fwd@)),
        decreases path@.len() - i,
    {
        proof {
            assert(path@.skip(i as int).drop_first() =~= path@.skip(i as int + 1));
            assert(path@.skip(i as int)[0] == path@[i as int]);
        }
        let ghost acc_pre = views(fwd@);
        let ghost cur_pre = cur@;
        if path[i] == SLASH_BYTE {
            let keep = keep_component(&cur);
            if keep {
                fwd.push(cur);
                proof {
                    assert(views(fwd@) =~= acc_pre.push(cur_pre));
                }
            }
            cur = Vec::new();
        } else {
            cur.push(path[i]);
        }
        i = i + 1;
    }
    proof {
        assert(path@.skip(i as int) =~= Seq::<u8>::empty());
    }
    let ghost acc_end = views(fwd@);
    let ghost cur_end = cur@;
    let keep = keep_component(&cur);
    if keep {
        fwd.push(cur);
        proof {
            assert(views(fwd@) =~= acc_end.push(cur_end));
        }
    }
    // Reverse the forward component list into a stack.
    let ghost comps = spec_components(path@);
    let ghost n = fwd@.len();
    let mut r: Vec<Vec<u8>> = Vec::new();
    proof {
        assert(views(fwd@) =~= comps);
    }
    while fwd.len() > 0
        invariant
            r@.len() + fwd@.len() == n,
            n == comps.len(),
            forall|j: int| 0 <= j < fwd@.len() ==> (#[trigger] fwd@[j])@ == comps[j],
            forall|j: int| 0 <= j < r@.len() ==> (#[trigger] r@[j])@ == comps[n - 1 - j],
        decreases fwd@.len(),
    {
        let c = fwd.pop().unwrap();
        r.push(c);
    }
    proof {
        assert(rev_views(r@) =~= comps);
    }
    r
}

/// Whether a chunk is kept as a path component.
fn keep_component(c: &Vec<u8>) -> (b: bool)
    ensures
        b == keep_comp(c@),
{
    if c.len() == 0 {
        proof {
            assert(c@.len() == 0);
        }
        false
    } else if c.len() == 1 && c[0] == DOT_BYTE {
        proof {
            assert(c@ =~= seq![DOT_BYTE]);
        }
        false
    } else {
        proof {
            if c@ == seq![DOT_BYTE] {
                assert(c@.len() == 1 && c@[0] == DOT_BYTE);
            }
        }
        true
    }
}

/// Whether a component is the parent reference `..`.
fn is_dotdot(name: &Vec<u8>) -> (b: bool)
    ensures
        b == (name@ == seq![DOT_BYTE, DOT_BYTE]),
{
    if name.len() == 2 && name[0] == DOT_BYTE && name[1] == DOT_BYTE {
        proof {
            assert(name@ =~= seq![DOT_BYTE, DOT_BYTE]);
        }
        true
    } else {
        proof {
            if name@ == seq![DOT_BYTE, DOT_BYTE] {
                assert(name@.len() == 2 && name@[0] == DOT_BYTE && name@[1] == DOT_BYTE);
            }
        }
        false
    }
}

/// Whether two byte strings are equal.
fn bytes_eq(a: &[u8], b: &[u8]) -> (r: bool)
    ensures
        r == (a@ == b@),
{
    if a.len() != b.len() {
        return false;
    }
    let mut i: usize = 0;
    while i < a.len()
        invariant
            i <= a.len(),
            a@.len() == b@.len(),
            forall|j: int| 0 <= j < i ==> a@[j] == b@[j],
        decreases a@.len() - i,
    {
        if a[i] != b[i] {
            return false;
        }
        i = i + 1;
    }
    proof {
        assert(a@ =~= b@);
    }
    true
}

/// Copy a byte vector.
fn copy_bytes(v: &Vec<u8>) -> (r: Vec<u8>)
    ensures
        r@ == v@,
{
    let mut r: Vec<u8> = Vec::new();
    let mut i: usize = 0;
    while i < v.len()
        invariant
            i <= v.len(),
            r@ =~= v@.take(i as int),
        decreases v@.len() - i,
    {
        r.push(v[i]);
        i = i + 1;
    }
    proof {
        assert(v@.take(v@.len() as int) =~= v@);
    }
    r
}

/// Find the first entry named `name`.
fn lookup_entry(entries: &Vec<HistEntry>, name: &Vec<u8>) -> (r: Option<usize>)
    ensures
        match r {
            Some(i) => i < entries@.len() && spec_lookup(entries@, name@) == Some(entries@[i as int]),
            None => spec_lookup(entries@, name@) is None,
        },
{
    let mut i: usize = 0;
    proof {
        assert(entries@.skip(0) =~= entries@);
    }
    while i < entries.len()
        invariant
            i <= entries@.len(),
            spec_lookup(entries@, name@) == spec_lookup(entries@.skip(i as int), name@),
        decreases entries@.len() - i,
    {
        proof {
            assert(entries@.skip(i as int).drop_first() =~= entries@.skip(i as int + 1));
            assert(entries@.skip(i as int)[0] == entries@[i as int]);
        }
        if bytes_eq(entries[i].name.as_slice(), name.as_slice()) {
            return Some(i);
        }
        i = i + 1;
    }
    proof {
        assert(entries@.skip(entries@.len() as int) =~= Seq::<HistEntry>::empty());
    }
    None
}

/// `rev_views` distributes over concatenation, reversing the order.
proof fn lemma_rev_views_add(a: Seq<Vec<u8>>, b: Seq<Vec<u8>>)
    ensures
        rev_views(a + b) == rev_views(b) + rev_views(a),
{
    let s = a + b;
    assert forall|i: int| 0 <= i < s.len() implies rev_views(s)[i] == (rev_views(b) + rev_views(
        a,
    ))[i] by {
        if i < b.len() {
            assert(s[s.len() - 1 - i] == b[b.len() - 1 - i]);
        } else {
            assert(s[s.len() - 1 - i] == a[a.len() - 1 - (i - b.len())]);
        }
    }
    assert(rev_views(a + b) =~= rev_views(b) + rev_views(a));
}

impl GitTreeFileSystem {
    /// Every entry of every tree node points inside the node list, and the
    /// root does too.
    pub open spec fn wf(&self) -> bool {
        &&& (self.root as int) < self.nodes@.len()
        &&& forall|i: int|
            0 <= i < self.nodes@.len() ==> node_wf(
                #[trigger] self.nodes@[i],
                self.nodes@.len() as int,
            )
    }

    /// Runtime check of `wf`.
    pub fn wf_check(&self) -> (b: bool)
        ensures
            b == self.wf(),
    {
        if self.root >= self.nodes.len() {
            return false;
        }
        let n = self.nodes.len();
        let mut i: usize = 0;
        while i < n
            invariant
                i <= n,
                n == self.nodes@.len(),
                (self.root as int) < self.nodes@.len(),
                forall|k: int|
                    0 <= k < i ==> node_wf(#[trigger] self.nodes@[k], self.nodes@.len() as int),
            decreases n - i,
        {
            match &self.nodes[i] {
                HistNode::Tree { entries } => {
                    let mut j: usize = 0;
                    while j < entries.len()
                        invariant
                            j <= entries@.len(),
                            n == self.nodes@.len(),
                            i < n,
                            self.nodes@[i as int] == (HistNode::Tree { entries: *entries }),
                            forall|k: int|
                                0 <= k < j ==> (#[trigger] entries@[k]).child < self.nodes@.len(),
                        decreases entries@.len() - j,
                    {
                        if entries[j].child >= n {
                            proof {
                                assert(!self.wf()) by {
                                    if self.wf() {
                                        let node = self.nodes@[i as int];
                                        assert(node_wf(node, self.nodes@.len() as int));
                                        match node {
                                            HistNode::Tree { entries: es } => {
                                                assert(es@[j as int].child
                                                    < self.nodes@.len());
                                            },
                                            HistNode::Blob { .. } => {
                                                assert(false);
                                            },
                                        }
                                    }
                                }
                            }
                            return false;
                        }
                        j = j + 1;
                    }
                    proof {
                        assert(node_wf(self.nodes@[i as int], self.nodes@.len() as int));
                    }
                },
                HistNode::Blob { .. } => {},
            }
            i = i + 1;
        }
        true
    }

    /// Resolve a logical path against the tree graph and return the bytes of
    /// the blob it names.
    ///
    /// The result is exactly what `spec_resolve` yields from the root with a
    /// fresh symbolic-link budget of `SYMLINK_LIMIT`.
    pub fn resolve(&self, path: &[u8]) -> (r: Result<Vec<u8>, Error>)
        requires
            self.wf(),
        ensures
            resolve_result_matches(
                r,
                spec_resolve(
                    self.nodes@,
                    self.root,
                    Seq::empty(),
                    spec_components(path@),
                    SYMLINK_LIMIT as nat,
                ),
            ),
    {
        let ghost target = spec_resolve(
            self.nodes@,
            self.root,
            Seq::empty(),
            spec_components(path@),
            SYMLINK_LIMIT as nat,
        );
        let mut components = get_components(path);
        let mut parents: Vec<usize> = Vec::new();
        let mut obj: usize = self.root;
        let mut symlink_limit: u32 = SYMLINK_LIMIT;
        while components.len() > 0
            invariant
                self.wf(),
                (obj as int) < self.nodes@.len(),
                forall|k: int|
                    0 <= k < parents@.len() ==> (#[trigger] parents@[k] as int)
                        < self.nodes@.len(),
                spec_resolve(
                    self.nodes@,
                    obj,
                    parents@,
                    rev_views(components@),
                    symlink_limit as nat,
                ) == target,
                target == spec_resolve(
                    self.nodes@,
                    self.root,
                    Seq::empty(),
                    spec_components(path@),
                    SYMLINK_LIMIT as nat,
                ),
            decreases symlink_limit, components@.len(),
        {
            let ghost comps_pre = components@;
            let name = components.pop().unwrap();
            proof {
                assert(rev_views(comps_pre)[0] == name@);
                assert(rev_views(comps_pre).drop_first() =~= rev_views(components@));
            }
            if is_dotdot(&name) {
                match parents.pop() {
                    None => {
                        return Err(Error::OutOfRootTraversal);
                    },
                    Some(p) => {
                        obj = p;
                    },
                }
            } else {
                match &self.nodes[obj] {
                    HistNode::Blob { .. } => {
                        return Err(Error::NotADirectory);
                    },
                    HistNode::Tree { entries } => {
                        match lookup_entry(entries, &name) {
                            None => {
                                return Err(Error::NotFound);
                            },
                            Some(idx) => {
                                let e = &entries[idx];
                                if e.is_symlink {
                                    if symlink_limit == 0 {
                                        return Err(Error::SymlinkCycle);
                                    }
                                    symlink_limit = symlink_limit - 1;
                                    // A symbolic link: its blob content is a
                                    // relative path whose components are
                                    // consumed next.
                                    match &self.nodes[e.child] {
                                        HistNode::Blob { content } => {
                                            let ghost rest = rev_views(components@);
                                            let mut link_comps = get_components(
                                                content.as_slice(),
                                            );
                                            proof {
                                                lemma_rev_views_add(components@, link_comps@);
                                            }
                                            components.append(&mut link_comps);
                                            proof {
                                                assert(rev_views(components@)
                                                    == spec_components(content@) + rest);
                                            }
                                        },
                                        HistNode::Tree { .. } => {
                                            return Err(Error::NotABlob);
                                        },
                                    }
                                } else {
                                    parents.push(obj);
                                    obj = e.child;
                                }
                            },
                        }
                    },
                }
            }
        }
        proof {
            assert(rev_views(components@) =~= Seq::<Seq<u8>>::empty());
        }
        match &self.nodes[obj] {
            HistNode::Blob { content } => Ok(copy_bytes(content)),
            HistNode::Tree { .. } => Err(Error::NotABlob),
        }
    }
}

impl FileSystem for GitTreeFileSystem {
    fn load(&self, path: &[u8]) -> Result<Vec<u8>, Error> {
        if self.wf_check() {
            self.resolve(path)
        } else {
            Err(Error::IOError)
        }
    }
}

} // verus!
