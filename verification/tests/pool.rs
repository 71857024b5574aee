use apr::{Pool, PoolHandle, SharedPool};

#[test]
fn test_pool() {
    let mut pool = Pool::new();
    assert!(pool.parent().unwrap().is_ancestor(&pool));
    let parent = pool.parent();
    assert!(parent.unwrap().is_ancestor(&pool));
    let mut subpool = pool.subpool();
    assert!(pool.is_ancestor(&subpool));
    assert!(!subpool.is_ancestor(&pool));
    assert!(subpool.parent().unwrap().is_ancestor(&subpool));
    subpool.tag("subpool");
    pool.tag("pool");
}

#[test]
fn test_pool_handle_owned() {
    let pool = Pool::new();
    let handle = PoolHandle::owned(pool);
    assert!(handle.is_owned());
    assert!(!handle.is_borrowed());
}

#[test]
fn test_pool_handle_borrowed() {
    let pool = Pool::new();
    let handle = PoolHandle::borrowed(pool);
    assert!(handle.is_borrowed());
    assert!(!handle.is_owned());
}

#[test]
fn test_pool_handle_subpool() {
    let pool = Pool::new();
    let handle = PoolHandle::owned(pool);
    let mut subpool = handle.subpool();
    subpool.tag("subpool");
    assert!(handle.pool().is_ancestor(&subpool));
}

#[test]
fn test_pool_handle_from_pool() {
    let pool = Pool::new();
    let handle: PoolHandle = pool.into();
    assert!(handle.is_owned());
    assert!(!handle.is_borrowed());
}

#[test]
fn test_shared_pool_basic() {
    let pool = SharedPool::new();
    assert_eq!(pool.strong_count(), 1);
}

#[test]
fn test_shared_pool_clone() {
    let pool1 = SharedPool::new();
    assert_eq!(pool1.strong_count(), 1);
    let pool2 = pool1.clone();
    assert_eq!(pool1.strong_count(), 2);
    assert_eq!(pool2.strong_count(), 2);
    assert_eq!(pool1.pool().id(), pool2.pool().id());
    let pool3 = pool2.clone();
    assert_eq!(pool1.strong_count(), 3);
    assert_eq!(pool2.strong_count(), 3);
    assert_eq!(pool3.strong_count(), 3);
    drop(pool3);
    assert_eq!(pool1.strong_count(), 2);
    assert_eq!(pool2.strong_count(), 2);
}

#[test]
fn test_shared_pool_from_pool() {
    let mut pool = Pool::new();
    pool.tag("original");
    let shared = SharedPool::from_pool(pool);
    assert_eq!(shared.strong_count(), 1);
    assert_eq!(shared.pool().get_tag(), Some("original"));
}

#[test]
fn test_shared_pool_from_conversion() {
    let pool = Pool::new();
    let shared: SharedPool = pool.into();
    assert_eq!(shared.strong_count(), 1);
}

#[test]
fn test_shared_pool_default() {
    let pool = SharedPool::default();
    assert_eq!(pool.strong_count(), 1);
}

#[test]
fn test_shared_pool_subpool() {
    let shared = SharedPool::new();
    let subpool = shared.pool().subpool();
    assert!(shared.pool().is_ancestor(&subpool));
    assert!(!subpool.is_ancestor(shared.pool()));
}

#[test]
fn test_shared_pool_multiple_owners() {
    let pool = SharedPool::new();
    let component1 = pool.clone();
    let component2 = pool.clone();
    let component3 = pool.clone();
    assert_eq!(pool.strong_count(), 4);
    drop(component1);
    assert_eq!(pool.strong_count(), 3);
    drop(component2);
    assert_eq!(pool.strong_count(), 2);
    drop(component3);
    assert_eq!(pool.strong_count(), 1);
}

#[test]
fn pool_tmp_and_child() {
    let n = apr::pool::with_tmp_pool(|p| p.parent().map(|q| q.id()));
    assert_eq!(n, Some(apr::pool::GLOBAL_POOL_ID));
    let pool = Pool::new();
    let id = pool.id();
    let parent_id = pool.with_child(|c| c.parent().unwrap().id());
    assert_eq!(parent_id, id);
}

#[test]
fn test_new_debug_is_root_pool() {
    let pool = Pool::new_debug("here.rs:1");
    assert!(pool.get_tag().is_none());
    assert!(pool.parent().is_some());
    let sub = pool.subpool();
    assert!(pool.is_ancestor(&sub));
}

#[test]
fn test_subpool_lies_below_parent_only() {
    let root = Pool::new();
    let child = root.subpool();
    let grandchild = child.subpool();
    assert_ne!(child.id(), root.id());
    assert_ne!(grandchild.id(), child.id());
    assert_ne!(grandchild.id(), root.id());
    assert!(root.is_ancestor(&grandchild));
    assert!(child.is_ancestor(&grandchild));
    assert!(!grandchild.is_ancestor(&child));
    assert!(!child.is_ancestor(&root));
}
