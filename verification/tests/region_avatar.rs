use opensim_viewer::config::{Config, ConfigSim, ConfigUser};
use opensim_viewer::data::avatar::{Advance, ClientAvatar, Key, Motion, OtherAvatar, Turn};
use opensim_viewer::data::config::Paths;
use opensim_viewer::data::locators::{GridPosition, PatchLocator, RegionLocator};
use opensim_viewer::data::region::{
    Connection, Region, RegionDimensions, RegionStorage, StorageError,
};
use opensim_viewer::data::terrain::PatchPosition;
use opensim_viewer::data::texture::{Texture, TextureHandle};
use opensim_viewer::cache::CacheConfig;
use opensim_viewer::camera::CameraState;

fn dims() -> RegionDimensions {
    RegionDimensions { side_meters: 256, patches_per_side: 16, patch_size_axis: 16 }
}

#[test]
fn region_storage_knows_only_what_was_put() {
    let mut storage = RegionStorage::new();
    assert_eq!(storage.get(&1), Err(StorageError::NotRegistered(1)));
    storage.put(1, Connection::Pending);
    assert_eq!(storage.get(&1), Ok(Connection::Pending));
    assert_eq!(storage.get(&2), Err(StorageError::NotRegistered(2)));
}

#[test]
fn region_storage_returns_the_latest_state() {
    let mut storage = RegionStorage::new();
    let region = Region::new(11, 1, dims());
    storage.put(1, Connection::Pending);
    storage.put(1, Connection::Connected(region));
    assert_eq!(storage.get(&1), Ok(Connection::Connected(region)));
    storage.put(1, Connection::Disconnected);
    assert_eq!(storage.get(&1), Ok(Connection::Disconnected));
    storage.put(2, Connection::Failed);
    assert_eq!(storage.get(&2), Ok(Connection::Failed));
}

#[test]
fn region_keeps_its_parts() {
    let region = Region::new(11, 1, dims());
    assert_eq!((region.uuid, region.id), (11, 1));
    assert_eq!(*region.dimensions(), dims());
    assert_eq!(Connection::Connected(region).clone_region(), Some(region));
    assert_eq!(Connection::Pending.clone_region(), None);
    assert_eq!(Connection::Failed.clone_region(), None);
    assert_eq!(Connection::Disconnected.clone_region(), None);
}

#[test]
fn avatar_records_its_keys() {
    let mut avatar = ClientAvatar::new(None);
    assert_eq!(avatar.current_region(), None);
    assert!(avatar.handle_key(Key::Left, true));
    assert!(avatar.pressed_left && !avatar.pressed_right);
    assert!(avatar.handle_key(Key::Right, true));
    assert!(avatar.handle_key(Key::Up, true));
    assert!(avatar.handle_key(Key::Down, true));
    assert!(avatar.pressed_right && avatar.pressed_up && avatar.pressed_down);
    assert!(avatar.handle_key(Key::Left, false));
    assert!(!avatar.pressed_left);
    let before = avatar;
    assert!(!avatar.handle_key(Key::Other, true));
    assert_eq!(avatar, before);
}

#[test]
fn avatar_motion_prefers_up_and_left() {
    let mut avatar = ClientAvatar::new(Some(3));
    assert_eq!(avatar.update(), Motion { advance: Advance::Stay, turn: Turn::Straight });
    avatar.handle_key(Key::Down, true);
    avatar.handle_key(Key::Right, true);
    assert_eq!(avatar.update(), Motion { advance: Advance::Backward, turn: Turn::Right });
    avatar.handle_key(Key::Up, true);
    avatar.handle_key(Key::Left, true);
    assert_eq!(avatar.update(), Motion { advance: Advance::Forward, turn: Turn::Left });
    avatar.handle_key(Key::Up, false);
    avatar.handle_key(Key::Right, false);
    assert_eq!(avatar.update(), Motion { advance: Advance::Backward, turn: Turn::Left });
}

#[test]
fn avatar_region_can_be_set() {
    let mut avatar = ClientAvatar::new(None);
    avatar.handle_key(Key::Up, true);
    avatar.set_current_region(Some(42));
    assert_eq!(avatar.current_region(), Some(42));
    assert!(avatar.pressed_up);
    avatar.set_current_region(None);
    assert_eq!(avatar.current_region(), None);
}

#[test]
fn terrain_cache_path() {
    assert_eq!(Paths {}.terrain_cache(), "target/cache/terrain");
}

#[test]
fn data_files_are_spread_over_two_levels() {
    let config = CacheConfig { max_bytes: 1, subdirs_per_level: 20 };
    assert_eq!(config.data_file_dirs(0), (0, 0));
    assert_eq!(config.data_file_dirs(19), (19, 0));
    assert_eq!(config.data_file_dirs(20), (0, 1));
    assert_eq!(config.data_file_dirs(47), (7, 2));
    assert_eq!(config.data_file_dirs(400), (0, 0));
    assert_eq!(config.data_file_dirs(u64::MAX), (15, 0));
    let flat = CacheConfig { max_bytes: 1, subdirs_per_level: 1 };
    assert_eq!(flat.data_file_dirs(12345), (0, 0));
}

#[test]
fn plain_values_hold_their_fields() {
    let config = Config {
        user: ConfigUser {
            first_name: "Ada".to_string(),
            last_name: "Lovelace".to_string(),
            password_plain: "pw".to_string(),
        },
        sim: ConfigSim { loginuri: "http://127.0.0.1:9000".to_string() },
    };
    assert_eq!(config.user.first_name, "Ada");
    assert_eq!(config.sim.loginuri, "http://127.0.0.1:9000");
    let locator = PatchLocator {
        region: RegionLocator { grid: "testgrid".to_string(), reg_pos: GridPosition { x: 1, y: 2 } },
        patch_pos: PatchPosition { x: 3, y: 4 },
    };
    assert_eq!(locator.region.reg_pos, GridPosition { x: 1, y: 2 });
    let texture = Texture { id: 5, handle: std::sync::Arc::new(TextureHandle {}) };
    assert_eq!(texture.id, 5);
    let _ = OtherAvatar {};
}

#[test]
fn patch_at_divides_the_region_into_equal_patches() {
    // 256 m with 16 patches per side: patches of 16 m.
    let d = dims();
    assert_eq!(d.patch_at(0, 0), PatchPosition { x: 0, y: 0 });
    assert_eq!(d.patch_at(15, 16), PatchPosition { x: 0, y: 1 });
    assert_eq!(d.patch_at(100, 255), PatchPosition { x: 6, y: 15 });
    // Beyond the region counts to the last patch.
    assert_eq!(d.patch_at(256, 100_000), PatchPosition { x: 15, y: 15 });
    // 100 m with 3 patches per side: patches of 33 m, the last one longer.
    let odd = RegionDimensions { side_meters: 100, patches_per_side: 3, patch_size_axis: 16 };
    assert_eq!(odd.patch_at(32, 33), PatchPosition { x: 0, y: 1 });
    assert_eq!(odd.patch_at(65, 66), PatchPosition { x: 1, y: 2 });
    assert_eq!(odd.patch_at(99, 98), PatchPosition { x: 2, y: 2 });
    // Degenerate regions have everything in patch (0, 0).
    let none = RegionDimensions { side_meters: 256, patches_per_side: 0, patch_size_axis: 16 };
    assert_eq!(none.patch_at(100, 100), PatchPosition { x: 0, y: 0 });
    let tiny = RegionDimensions { side_meters: 10, patches_per_side: 16, patch_size_axis: 16 };
    assert_eq!(tiny.patch_at(5, 9), PatchPosition { x: 0, y: 0 });
}

#[test]
fn camera_arrows_switch_their_movements() {
    let mut camera = CameraState::new();
    assert!(!camera.moving_up && !camera.moving_down && !camera.moving_left);
    assert!(!camera.moving_right && !camera.moving_forward && !camera.moving_backward);
    camera.process_input(Key::Up, true);
    camera.process_input(Key::Left, true);
    assert!(camera.moving_up && camera.moving_left);
    assert!(!camera.moving_down && !camera.moving_right);
    camera.process_input(Key::Down, true);
    camera.process_input(Key::Right, true);
    camera.process_input(Key::Up, false);
    assert!(!camera.moving_up && camera.moving_down && camera.moving_left && camera.moving_right);
    let before = camera;
    camera.process_input(Key::Other, true);
    assert_eq!(camera, before);
    assert!(!camera.moving_forward && !camera.moving_backward);
}
