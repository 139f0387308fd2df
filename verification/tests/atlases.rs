use voxel_world::atlas::{AtlasManager, AtlasRect};
use voxel_world::identifier::Identifier;

fn rect(n: u32) -> AtlasRect {
    AtlasRect {
        min_x: n * 16,
        min_y: 0,
        max_x: n * 16 + 16,
        max_y: 16,
        atlas_width: 64,
        atlas_height: 16,
    }
}

fn stone() -> Identifier {
    Identifier::new("builtin", "stone")
}

fn dirt() -> Identifier {
    Identifier::new("builtin", "dirt")
}

#[test]
fn new_atlas_knows_nothing() {
    let atlas: AtlasManager<u32> = AtlasManager::new();
    assert_eq!(atlas.atlas_location(&stone()), None);
    assert_eq!(atlas.atlas_texture(), None);
    assert!(!atlas.has_error_location());
    assert!(atlas.build_order().is_empty());
}

#[test]
fn textures_go_onto_the_atlas_in_the_order_of_their_identifiers() {
    let mut atlas: AtlasManager<u32> = AtlasManager::new();
    atlas.add_data(stone(), 1);
    atlas.add_data(dirt(), 2);
    atlas.add_data(Identifier::new("a", "zzz"), 3);
    assert_eq!(atlas.build_order(), vec![&3, &2, &1]);
    atlas.set_error_texture(100);
    assert_eq!(atlas.build_order(), vec![&100, &3, &2, &1]);
    // Registering again replaces the texture and keeps the place in the order.
    atlas.add_data(dirt(), 22);
    assert_eq!(atlas.build_order(), vec![&100, &3, &22, &1]);
    atlas.remove_data(&Identifier::new("a", "zzz"));
    assert_eq!(atlas.build_order(), vec![&100, &22, &1]);
    atlas.remove_data(&Identifier::new("a", "zzz"));
    assert_eq!(atlas.build_order(), vec![&100, &22, &1]);
}

#[test]
fn rebuilt_atlas_gives_each_texture_its_place() {
    let mut atlas: AtlasManager<u32> = AtlasManager::new();
    atlas.set_error_texture(100);
    atlas.add_data(stone(), 1);
    atlas.add_data(dirt(), 2);
    assert_eq!(atlas.atlas_location(&stone()), None);
    atlas.rebuild_atlas(&vec![rect(0), rect(1), rect(2)], 500);
    assert!(atlas.has_error_location());
    assert_eq!(atlas.atlas_texture(), Some(&500));
    assert_eq!(atlas.atlas_location(&dirt()), Some(rect(1)));
    assert_eq!(atlas.atlas_location(&stone()), Some(rect(2)));
    assert_eq!(atlas.atlas_location(&Identifier::new("builtin", "sand")), None);
    assert_eq!(atlas.atlas_location_or_error(&dirt()), rect(1));
    assert_eq!(atlas.atlas_location_or_error(&stone()), rect(2));
    assert_eq!(
        atlas.atlas_location_or_error(&Identifier::new("builtin", "sand")),
        rect(0)
    );
}

#[test]
fn rebuilt_atlas_without_error_texture() {
    let mut atlas: AtlasManager<u32> = AtlasManager::new();
    atlas.add_data(stone(), 1);
    atlas.add_data(dirt(), 2);
    atlas.rebuild_atlas(&vec![rect(0), rect(1), rect(2)], 500);
    assert!(!atlas.has_error_location());
    assert_eq!(atlas.atlas_location(&dirt()), Some(rect(0)));
    assert_eq!(atlas.atlas_location(&stone()), Some(rect(1)));
}

#[test]
fn texture_registered_after_the_build_has_no_place_yet() {
    let mut atlas: AtlasManager<u32> = AtlasManager::new();
    atlas.set_error_texture(100);
    atlas.add_data(stone(), 1);
    atlas.rebuild_atlas(&vec![rect(0), rect(1)], 500);
    atlas.add_data(dirt(), 2);
    assert_eq!(atlas.atlas_location(&dirt()), None);
    assert_eq!(atlas.atlas_location_or_error(&dirt()), rect(0));
    assert_eq!(atlas.atlas_location(&stone()), Some(rect(1)));
    // Registering a texture again forgets its place until the next build.
    atlas.add_data(stone(), 11);
    assert_eq!(atlas.atlas_location(&stone()), None);
    atlas.rebuild_atlas(&vec![rect(3), rect(2), rect(1)], 501);
    assert_eq!(atlas.atlas_location(&dirt()), Some(rect(2)));
    assert_eq!(atlas.atlas_location(&stone()), Some(rect(1)));
    assert_eq!(atlas.atlas_location_or_error(&Identifier::new("x", "y")), rect(3));
    assert_eq!(atlas.atlas_texture(), Some(&501));
    atlas.remove_data(&dirt());
    assert_eq!(atlas.atlas_location(&dirt()), None);
    assert_eq!(atlas.atlas_location(&stone()), Some(rect(1)));
}
