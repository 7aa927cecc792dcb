use rivett::textures::TextureCache;

#[test]
fn set_active_reports_whether_the_texture_is_held() {
    let mut c: TextureCache<u32> = TextureCache::new();
    assert!(!c.set_active("/p/a.png".to_string()));
    assert_eq!(c.active_texture(), None);
    assert_eq!(c.insert("/p/a.png".to_string(), 7, 10, 20), None);
    assert!(c.set_active("/p//a.png".to_string()));
    assert_eq!(c.active_texture(), Some(7));
    assert!(c.has_cached("/p/./a.png"));
    assert!(!c.has_cached("/p/b.png"));
}

#[test]
fn uploading_again_replaces_the_old_texture() {
    let mut c: TextureCache<u32> = TextureCache::new();
    c.insert("/p/a.png".to_string(), 1, 4, 4);
    assert_eq!(c.insert("/p/a.png".to_string(), 2, 8, 8), Some(1));
    assert_eq!(c.textures(), vec![2]);
    assert_eq!(c.remove("/p/a.png"), Some(2));
    assert_eq!(c.remove("/p/a.png"), None);
    assert!(c.textures().is_empty());
}

#[test]
fn evict_stale_keeps_only_listed_paths() {
    let mut c: TextureCache<u32> = TextureCache::new();
    c.insert("/p/a.png".to_string(), 1, 1, 1);
    c.insert("/p/b.png".to_string(), 2, 1, 1);
    c.insert("/p/c.png".to_string(), 3, 1, 1);
    c.set_active("/p/a.png".to_string());
    let gone = c.evict_stale(&vec!["/p/b.png".to_string()]);
    assert_eq!(gone, vec![1, 3]);
    assert_eq!(c.textures(), vec![2]);
    // The active path stays; it simply has nothing to paint.
    assert_eq!(c.active_path.as_deref(), Some("/p/a.png"));
    assert_eq!(c.active_texture(), None);
}

#[test]
fn invalidate_clears_the_active_path() {
    let mut c: TextureCache<u32> = TextureCache::new();
    c.insert("/p/a.png".to_string(), 5, 1, 1);
    c.insert("/p/b.png".to_string(), 6, 1, 1);
    c.set_active("/p/a.png".to_string());
    assert_eq!(c.invalidate("/p/b.png"), Some(6));
    assert_eq!(c.active_path.as_deref(), Some("/p/a.png"));
    assert_eq!(c.invalidate("/p/a.png"), Some(5));
    assert_eq!(c.active_path, None);
    assert_eq!(c.invalidate("/p/a.png"), None);
}
