//! Memory pools. A pool here is a node in the tree of pools: it knows its
//! own identity and the identities of its ancestors, up to the global pool
//! that every root pool hangs from. Memory itself is managed by Rust.

use vstd::prelude::*;
use crate::entropy::os_random_u64;
use vstd::set_lib::{lemma_int_range, lemma_len_subset, set_int_range};
use vstd::seq_lib::seq_to_set_is_finite;

verus! {

/// Identity of the global pool, the parent of every root pool.
pub const GLOBAL_POOL_ID: u64 = 0;

/// A memory pool.
#[derive(Debug)]
pub struct Pool {
    id: u64,
    ancestors: Vec<u64>,
    tag: Option<String>,
}

/// A fresh pool identity, distinct from the global pool's: a random number
/// from the operating system, or, where the random source fails, the
/// current time in microseconds.
fn fresh_id() -> (r: u64)
    ensures
        r != GLOBAL_POOL_ID,
{
    let v = match os_random_u64() {
        Some(v) => v,
        None => clock_id(),
    };
    if v == GLOBAL_POOL_ID {
        1
    } else {
        v
    }
}

/// The current time in microseconds, as an identity.
fn clock_id() -> u64 {
    let t = crate::time::Time::now().as_micros();
    t as u64
}

/// Whether a list of identities holds one.
fn ids_contain(ids: &Vec<u64>, id: u64) -> (r: bool)
    ensures
        r == ids@.contains(id),
{
    let mut i: usize = 0;
    while i < ids.len()
        invariant
            i <= ids@.len(),
            forall|j: int| 0 <= j < i ==> ids@[j] != id,
        decreases ids@.len() - i,
    {
        if ids[i] == id {
            return true;
        }
        i = i + 1;
    }
    false
}

/// Of more numbers than a list holds, in a row, one is missing from it.
proof fn lemma_some_missing(ids: Seq<u64>, lo: int, hi: int)
    requires
        0 <= lo <= hi,
        hi <= u64::MAX,
        ids.len() < hi - lo,
    ensures
        exists|k: u64| lo <= k < hi && !#[trigger] ids.contains(k),
{
    if forall|k: u64| lo <= k < hi ==> #[trigger] ids.contains(k) {
        let t = ids.map_values(|x: u64| x as int);
        let a = set_int_range(lo, hi);
        lemma_int_range(lo, hi);
        assert(a.subset_of(t.to_set())) by {
            assert forall|k: int| a.contains(k) implies t.to_set().contains(k) by {
                let ku = k as u64;
                assert(ku == k);
                assert(ids.contains(ku));
                let j = choose|j: int| 0 <= j < ids.len() && ids[j] == ku;
                assert(t[j] == k);
            }
        }
        t.lemma_cardinality_of_set();
        seq_to_set_is_finite(t);
        lemma_len_subset(a, t.to_set());
    }
}

/// A fresh identity for a subpool: distinct from the global pool's and
/// from every identity of its line, where the line is shorter than the
/// number of identities.
fn fresh_id_avoiding(line: &Vec<u64>) -> (r: u64)
    ensures
        r != GLOBAL_POOL_ID,
        line@.len() + 2 < u64::MAX ==> !line@.contains(r),
{
    let c = fresh_id();
    if !ids_contain(line, c) {
        return c;
    }
    let n = line.len();
    if n as u64 >= u64::MAX - 2 {
        return c;
    }
    let last: u64 = n as u64 + 1;
    let mut k: u64 = 1;
    while k <= last
        invariant
            1 <= k <= last + 1,
            last == line@.len() + 1,
            last + 1 < u64::MAX,
            forall|j: u64| 1 <= j < k ==> #[trigger] line@.contains(j),
        decreases last + 1 - k,
    {
        if !ids_contain(line, k) {
            return k;
        }
        k = k + 1;
    }
    proof {
        lemma_some_missing(line@, 1, last + 1);
        let m = choose|m: u64| 1 <= m < last + 1 && !#[trigger] line@.contains(m);
        assert(line@.contains(m));
    }
    1
}

impl Pool {
    /// The identity of the pool.
    pub closed spec fn spec_id(&self) -> u64 {
        self.id
    }

    /// The identities of the pool's ancestors, the root-most first; the
    /// last one is the parent.
    pub closed spec fn spec_ancestors(&self) -> Seq<u64> {
        self.ancestors@
    }

    /// The tag of the pool, if one was set.
    pub closed spec fn spec_tag(&self) -> Option<Seq<char>> {
        match self.tag {
            Some(t) => Some(t@),
            None => None,
        }
    }

    /// Whether pool `a` is pool `b` or one of its ancestors.
    pub open spec fn spec_is_ancestor(a: &Pool, b: &Pool) -> bool {
        a.spec_id() == b.spec_id() || b.spec_ancestors().contains(a.spec_id())
    }

    /// Create a new root pool; its parent is the global pool.
    pub fn new() -> (r: Self)
        ensures
            r.spec_ancestors() == seq![GLOBAL_POOL_ID],
            r.spec_id() != GLOBAL_POOL_ID,
            r.spec_tag() is None,
    {
        let mut ancestors: Vec<u64> = Vec::new();
        ancestors.push(GLOBAL_POOL_ID);
        Pool { id: fresh_id(), ancestors, tag: None }
    }

    /// Create a new root pool for debugging, as `apr_pool_create_ex_debug`
    /// does: without pool debugging the location is not kept, and the pool
    /// is a new root pool.
    pub fn new_debug(location: &str) -> (r: Self)
        ensures
            r.spec_ancestors() == seq![GLOBAL_POOL_ID],
            r.spec_id() != GLOBAL_POOL_ID,
            r.spec_tag() is None,
    {
        Pool::new()
    }

    /// Create a subpool: a new pool whose parent is this pool.
    pub fn subpool(&self) -> (r: Pool)
        ensures
            r.spec_ancestors() == self.spec_ancestors().push(self.spec_id()),
            r.spec_tag() is None,
            r.spec_id() != GLOBAL_POOL_ID,
            self.spec_ancestors().len() + 3 < u64::MAX ==> !r.spec_ancestors().contains(
                r.spec_id(),
            ),
    {
        let mut ancestors = self.ancestors.clone();
        ancestors.push(self.id);
        let id = fresh_id_avoiding(&ancestors);
        Pool { id, ancestors, tag: None }
    }

    /// Create a subpool, run a function with it, then destroy the subpool.
    pub fn with_child<R, F: FnOnce(&Pool) -> R>(&self, f: F) -> (r: R)
        requires
            forall|p: &Pool| #[trigger] f.requires((p,)),
        ensures
            exists|p: &Pool|
                p.spec_ancestors() == self.spec_ancestors().push(self.spec_id()) && p.spec_id()
                    != GLOBAL_POOL_ID && (self.spec_ancestors().len() + 3 < u64::MAX
                    ==> !p.spec_ancestors().contains(p.spec_id())) && #[trigger] f.ensures(
                    (p,),
                    r,
                ),
    {
        let child = self.subpool();
        f(&child)
    }

    /// Check if the pool is an ancestor of another pool (a pool counts as
    /// its own ancestor).
    pub fn is_ancestor(&self, other: &Pool) -> (r: bool)
        ensures
            r == Pool::spec_is_ancestor(self, other),
    {
        if self.id == other.id {
            return true;
        }
        let mut i: usize = 0;
        while i < other.ancestors.len()
            invariant
                i <= other.ancestors@.len(),
                forall|j: int| 0 <= j < i ==> other.ancestors@[j] != self.id,
            decreases other.ancestors@.len() - i,
        {
            if other.ancestors[i] == self.id {
                return true;
            }
            i = i + 1;
        }
        false
    }

    /// The parent pool, if any; root pools answer the global pool, which
    /// has none. The answer carries the parent's identity and ancestry.
    pub fn parent(&self) -> (r: Option<Pool>)
        ensures
            self.spec_ancestors().len() == 0 ==> r is None,
            self.spec_ancestors().len() > 0 ==> (r matches Some(p) && p.spec_id()
                == self.spec_ancestors().last() && p.spec_ancestors()
                == self.spec_ancestors().drop_last()),
    {
        let n = self.ancestors.len();
        if n == 0 {
            return None;
        }
        let mut ancestors: Vec<u64> = Vec::new();
        let mut i: usize = 0;
        while i < n - 1
            invariant
                n == self.ancestors@.len(),
                n > 0,
                i <= n - 1,
                ancestors@ == self.ancestors@.subrange(0, i as int),
            decreases n - 1 - i,
        {
            ancestors.push(self.ancestors[i]);
            i = i + 1;
        }
        Some(Pool { id: self.ancestors[n - 1], ancestors, tag: None })
    }

    /// The identity of the pool.
    pub fn id(&self) -> (r: u64)
        ensures
            r == self.spec_id(),
    {
        self.id
    }

    /// Set a tag for the pool.
    pub fn tag(&mut self, tag: &str)
        ensures
            final(self).spec_tag() == Some(tag@),
            final(self).spec_id() == old(self).spec_id(),
            final(self).spec_ancestors() == old(self).spec_ancestors(),
    {
        self.tag = Some(tag.to_owned());
    }

    /// The tag of the pool, if one was set.
    pub fn get_tag(&self) -> (r: Option<&str>)
        ensures
            r matches Some(t) ==> self.spec_tag() == Some(t@),
            r is None ==> self.spec_tag() is None,
    {
        match &self.tag {
            Some(t) => Some(t.as_str()),
            None => None,
        }
    }

    /// Try to join two pools; without pool debugging this does nothing.
    pub fn join(&self, _other: &Pool) {
    }
}

impl Default for Pool {
    fn default() -> (r: Self)
        ensures
            r.spec_ancestors() == seq![GLOBAL_POOL_ID],
            r.spec_tag() is None,
    {
        Self::new()
    }
}

/// An allocator: it counts the blocks it holds for pools.
pub struct Allocator {
    blocks: usize,
}

impl Allocator {
    /// The number of blocks the allocator holds.
    pub closed spec fn spec_blocks(&self) -> nat {
        self.blocks as nat
    }

    /// Create a new allocator, holding no blocks.
    pub fn new() -> (r: Self)
        ensures
            r.spec_blocks() == 0,
    {
        Allocator { blocks: 0 }
    }
}

impl Default for Allocator {
    fn default() -> (r: Self)
        ensures
            r.spec_blocks() == 0,
    {
        Allocator::new()
    }
}

/// Create a temporary pool, run a function with it, then destroy the pool.
pub fn with_tmp_pool<R, F: FnOnce(&Pool) -> R>(f: F) -> (r: R)
    requires
        forall|p: &Pool| #[trigger] f.requires((p,)),
    ensures
        exists|p: &Pool|
            p.spec_ancestors() == seq![GLOBAL_POOL_ID] && p.spec_id() != GLOBAL_POOL_ID
                && #[trigger] f.ensures((p,), r),
{
    let tmp_pool = Pool::new();
    f(&tmp_pool)
}

/// A pool that may be owned or borrowed.
#[derive(Debug)]
pub enum PoolHandle {
    /// An owned pool that will be destroyed when dropped.
    Owned(Pool),
    /// A borrowed pool that will NOT be destroyed when dropped.
    Borrowed(Pool),
}

impl PoolHandle {
    /// The pool behind the handle.
    pub open spec fn spec_pool(&self) -> Pool {
        match self {
            PoolHandle::Owned(p) => *p,
            PoolHandle::Borrowed(p) => *p,
        }
    }

    /// Create a handle to an owned pool.
    pub fn owned(pool: Pool) -> (r: Self)
        ensures
            r == PoolHandle::Owned(pool),
    {
        PoolHandle::Owned(pool)
    }

    /// Create a handle to a pool that someone else owns.
    pub fn borrowed(pool: Pool) -> (r: Self)
        ensures
            r == PoolHandle::Borrowed(pool),
    {
        PoolHandle::Borrowed(pool)
    }

    /// The pool behind the handle.
    pub fn pool(&self) -> (r: &Pool)
        ensures
            *r == self.spec_pool(),
    {
        match self {
            PoolHandle::Owned(p) => p,
            PoolHandle::Borrowed(p) => p,
        }
    }

    /// Create a subpool; the subpool is always owned by the caller.
    pub fn subpool(&self) -> (r: Pool)
        ensures
            r.spec_ancestors() == self.spec_pool().spec_ancestors().push(self.spec_pool().spec_id()),
            r.spec_id() != GLOBAL_POOL_ID,
            self.spec_pool().spec_ancestors().len() + 3 < u64::MAX ==> !r.spec_ancestors().contains(
                r.spec_id(),
            ),
    {
        self.pool().subpool()
    }

    /// Returns true if this handle owns the pool.
    pub fn is_owned(&self) -> (r: bool)
        ensures
            r == (self is Owned),
    {
        match self {
            PoolHandle::Owned(_) => true,
            PoolHandle::Borrowed(_) => false,
        }
    }

    /// Returns true if this handle borrows the pool.
    pub fn is_borrowed(&self) -> (r: bool)
        ensures
            r == (self is Borrowed),
    {
        match self {
            PoolHandle::Owned(_) => false,
            PoolHandle::Borrowed(_) => true,
        }
    }
}

impl From<Pool> for PoolHandle {
    fn from(pool: Pool) -> (r: Self) {
        PoolHandle::Owned(pool)
    }
}

impl vstd::std_specs::convert::FromSpecImpl<Pool> for PoolHandle {
    open spec fn obeys_from_spec() -> bool {
        true
    }

    open spec fn from_spec(v: Pool) -> Self {
        PoolHandle::Owned(v)
    }
}

/// A pool shared by several owners; the pool goes when the last owner does.
#[derive(Debug, Clone)]
pub struct SharedPool {
    inner: std::rc::Rc<Pool>,
}

/// The number of owners of a shared pool.
///
/// Calls `Rc::strong_count`. The count depends on how many clones the
/// program holds, so nothing is stated of it beyond what the documentation
/// gives: while a handle exists, the count is at least one.
#[verifier::external_body]
fn rc_strong_count(rc: &std::rc::Rc<Pool>) -> (r: usize)
    ensures
        r >= 1,
{
    std::rc::Rc::strong_count(rc)
}

impl SharedPool {
    /// The pool that the owners share.
    pub closed spec fn spec_pool(&self) -> Pool {
        *self.inner
    }

    /// Create a new shared pool.
    pub fn new() -> (r: SharedPool)
        ensures
            r.spec_pool().spec_ancestors() == seq![GLOBAL_POOL_ID],
    {
        SharedPool { inner: std::rc::Rc::new(Pool::new()) }
    }

    /// Create a shared pool from an existing pool.
    pub fn from_pool(pool: Pool) -> (r: Self)
        ensures
            r.spec_pool() == pool,
    {
        SharedPool { inner: std::rc::Rc::new(pool) }
    }

    /// Get the number of strong references to this pool.
    pub fn strong_count(&self) -> (r: usize)
        ensures
            r >= 1,
    {
        rc_strong_count(&self.inner)
    }

    /// The shared pool.
    pub fn pool(&self) -> (r: &Pool)
        ensures
            *r == self.spec_pool(),
    {
        &*self.inner
    }
}

impl Default for SharedPool {
    fn default() -> Self {
        Self::new()
    }
}

impl From<Pool> for SharedPool {
    fn from(pool: Pool) -> (r: Self) {
        SharedPool::from_pool(pool)
    }
}

impl vstd::std_specs::convert::FromSpecImpl<Pool> for SharedPool {
    open spec fn obeys_from_spec() -> bool {
        false
    }

    closed spec fn from_spec(v: Pool) -> Self {
        arbitrary()
    }
}

/// A subpool lies below its parent: the parent is its ancestor, and so is
/// every ancestor of the parent.
pub proof fn law_subpool_ancestry(parent: &Pool, child: &Pool)
    requires
        child.spec_ancestors() == parent.spec_ancestors().push(parent.spec_id()),
    ensures
        Pool::spec_is_ancestor(parent, child),
        forall|a: &Pool| Pool::spec_is_ancestor(a, parent) ==> Pool::spec_is_ancestor(a, child),
{
    assert(child.spec_ancestors()[child.spec_ancestors().len() - 1] == parent.spec_id());
    assert forall|a: &Pool| Pool::spec_is_ancestor(a, parent) implies Pool::spec_is_ancestor(a, child) by {
        if a.spec_id() == parent.spec_id() {
            assert(child.spec_ancestors()[child.spec_ancestors().len() - 1] == a.spec_id());
        } else {
            let j = choose|j: int| 0 <= j < parent.spec_ancestors().len() && parent.spec_ancestors()[j] == a.spec_id();
            assert(child.spec_ancestors()[j] == a.spec_id());
        }
    }
}

/// A subpool whose identity is new to its line lies below its parent and
/// not above it: it is neither its parent nor one of the parent's
/// ancestors.
pub proof fn law_subpool_not_above_parent(parent: &Pool, child: &Pool)
    requires
        child.spec_ancestors() == parent.spec_ancestors().push(parent.spec_id()),
        !child.spec_ancestors().contains(child.spec_id()),
    ensures
        !Pool::spec_is_ancestor(child, parent),
{
    let n = parent.spec_ancestors().len();
    assert(child.spec_ancestors()[n as int] == parent.spec_id());
    if parent.spec_ancestors().contains(child.spec_id()) {
        let j = choose|j: int| 0 <= j < n && parent.spec_ancestors()[j] == child.spec_id();
        assert(child.spec_ancestors()[j] == child.spec_id());
    }
}

} // verus!
