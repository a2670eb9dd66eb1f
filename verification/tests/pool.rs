use render_graph::resource::{
    BufferDesc, ImageDesc, ResourceDesc, FORMAT_R16G16B16A16_SFLOAT, IMAGE_USAGE_SAMPLED,
    IMAGE_USAGE_STORAGE,
};
use render_graph::transient_resource_cache::TransientResourceCache;

fn image(width: u32, usage: u32) -> ResourceDesc {
    ResourceDesc::Image(ImageDesc::new_2d(FORMAT_R16G16B16A16_SFLOAT, [width, 4]).usage(usage))
}

#[test]
fn reacquire_returns_the_same_resource() {
    let mut pool = TransientResourceCache::new();
    let desc = image(8, IMAGE_USAGE_STORAGE);
    let first = pool.acquire(desc, 0);
    assert!(first.fresh);
    assert_eq!(first.id, 0);
    assert_eq!(first.desc, desc);
    pool.release_all(0);
    let again = pool.acquire(desc, 1);
    assert!(!again.fresh);
    assert_eq!(again.id, first.id);
    assert_eq!(pool.len(), 1);
}

#[test]
fn held_resource_is_not_handed_out_twice() {
    let mut pool = TransientResourceCache::new();
    let desc = image(8, IMAGE_USAGE_STORAGE);
    let a = pool.acquire(desc, 0);
    let b = pool.acquire(desc, 0);
    assert_ne!(a.id, b.id);
    assert!(b.fresh);
    assert_eq!(pool.len(), 2);
    assert_eq!(pool.entry(0).unwrap().held_by, Some(0));
    assert_eq!(pool.entry(2), None);
}

#[test]
fn usage_superset_is_reused_and_subset_is_not() {
    let mut pool = TransientResourceCache::new();
    let both = image(8, IMAGE_USAGE_STORAGE | IMAGE_USAGE_SAMPLED);
    pool.acquire(both, 0);
    pool.release_all(0);
    let sampled = pool.acquire(image(8, IMAGE_USAGE_SAMPLED), 1);
    assert!(!sampled.fresh);
    assert_eq!(sampled.id, 0);
    assert_eq!(sampled.desc, both);
    pool.release_all(1);

    let mut narrow = TransientResourceCache::new();
    narrow.acquire(image(8, IMAGE_USAGE_SAMPLED), 0);
    narrow.release_all(0);
    let wide = narrow.acquire(both, 1);
    assert!(wide.fresh);
    assert_eq!(wide.id, 1);
}

#[test]
fn other_shape_or_kind_is_not_reused() {
    let mut pool = TransientResourceCache::new();
    pool.acquire(image(8, IMAGE_USAGE_STORAGE), 0);
    pool.release_all(0);
    assert!(pool.acquire(image(16, IMAGE_USAGE_STORAGE), 1).fresh);
    assert!(pool.acquire(ResourceDesc::Buffer(BufferDesc { size: 8, usage: 0x20 }), 1).fresh);
    assert_eq!(pool.len(), 3);
}

#[test]
fn release_frees_only_its_generation() {
    let mut pool = TransientResourceCache::new();
    let desc = image(8, IMAGE_USAGE_STORAGE);
    pool.acquire(desc, 0);
    pool.acquire(desc, 1);
    pool.release_all(0);
    assert_eq!(pool.entry(0).unwrap().held_by, None);
    assert_eq!(pool.entry(1).unwrap().held_by, Some(1));
    assert_eq!(pool.len(), 2);
}

#[test]
fn replayed_run_gets_the_same_resources() {
    let mut pool = TransientResourceCache::new();
    let wanted = vec![
        image(8, IMAGE_USAGE_STORAGE),
        image(8, IMAGE_USAGE_STORAGE),
        image(16, IMAGE_USAGE_SAMPLED),
        image(8, IMAGE_USAGE_STORAGE | IMAGE_USAGE_SAMPLED),
    ];
    let first: Vec<usize> = pool.acquire_all(&wanted, 4).iter().map(|r| r.id).collect();
    let grown = pool.len();
    pool.release_all(4);
    let second: Vec<usize> = pool.acquire_all(&wanted, 5).iter().map(|r| r.id).collect();
    assert_eq!(first, second);
    assert_eq!(pool.len(), grown);
    assert_eq!(first, vec![0, 1, 2, 3]);
}
