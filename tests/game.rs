use synth::items::ChestItem;
use synth::level::{LevelTileIterator, SetTo, Tile, TileType};
use synth::platform::{PlatformStepResult, ValueOnChange};
use synth::player::{into_direction, PlayerDiggingDirection, PlayerStandDirection};
use synth::repeating::RepeatingIterator;

#[test]
fn tile_types_by_id() {
    let cases: [(u16, bool, bool); 10] = [
        (0, false, false),
        (0x16, true, true),
        (0x17, false, true),
        (0x23, false, true),
        (0x3A, false, true),
        (0x2C, false, false),
        (0x2D, false, false),
        (0x21, false, false),
        (0x01, true, false),
        (0xFFFF, true, false),
    ];
    for (id, blocking, dig) in cases {
        let t = TileType::from_id(id);
        assert_eq!((t.id, t.is_blocking, t.can_dig), (id, blocking, dig), "id {:#x}", id);
    }
}

#[test]
fn empty_tile() {
    let t = Tile::empty();
    assert_eq!(t.tile_type.id, 0);
    assert!(!t.tile_type.is_blocking && !t.tile_type.can_dig);
    assert!(!t.flip_x && !t.flip_y);
}

#[test]
fn tile_walk_is_row_major() {
    let mut tiles = Vec::new();
    for id in 0..6u16 {
        tiles.push(Tile { tile_type: TileType::from_id(id), flip_x: false, flip_y: false });
    }
    let mut it = LevelTileIterator::new(&tiles, 3);
    let mut seen = Vec::new();
    while let Some((x, y, t)) = it.next() {
        seen.push((x, y, t.tile_type.id));
    }
    assert_eq!(seen, vec![(0, 0, 0), (1, 0, 1), (2, 0, 2), (0, 1, 3), (1, 1, 4), (2, 1, 5)]);
    assert!(it.next().is_none());
}

#[test]
fn set_to_holds_its_tile() {
    let s = SetTo { x: 1, y: 2, width: 3, height: 4, tile: Tile::empty(), triggered_by: Some(5) };
    assert_eq!((s.x, s.y, s.width, s.height, s.triggered_by), (1, 2, 3, 4, Some(5)));
}

#[test]
fn stand_direction_flip() {
    assert_eq!(PlayerStandDirection::Left.get_flip(), (true, false));
    assert_eq!(PlayerStandDirection::Right.get_flip(), (false, false));
    assert!(PlayerDiggingDirection::Up != PlayerDiggingDirection::Down);
}

#[test]
fn direction_keys() {
    assert_eq!(into_direction(false, false, false, false), (None, None));
    assert_eq!(into_direction(true, false, false, false), (None, Some(false)));
    assert_eq!(into_direction(false, true, false, false), (None, Some(true)));
    assert_eq!(into_direction(true, true, false, false), (None, Some(true)));
    assert_eq!(into_direction(false, false, true, false), (Some(false), None));
    assert_eq!(into_direction(false, false, false, true), (Some(true), None));
    assert_eq!(into_direction(false, false, true, true), (Some(true), None));
    assert_eq!(into_direction(true, false, false, true), (Some(true), Some(false)));
}

#[test]
fn value_on_change_reports_changes_only() {
    let mut v = ValueOnChange::new();
    assert_eq!(v.value(3u32), Some(3));
    assert_eq!(v.value(3u32), None);
    assert_eq!(v.value(4u32), Some(4));
    assert_eq!(v.value(3u32), Some(3));
    assert_eq!(v.value(3u32), None);
}

#[test]
fn repeating_iterator_wraps() {
    let mut r = RepeatingIterator::new(vec![5u8, 6, 7]);
    assert_eq!(*r.current(), 5);
    let got: Vec<Option<u8>> = (0..7).map(|_| r.next()).collect();
    assert_eq!(got, vec![Some(5), Some(6), Some(7), Some(5), Some(6), Some(7), Some(5)]);
    assert_eq!(*r.current(), 6);
}

#[test]
fn step_results_and_chest_items() {
    let r: PlatformStepResult<u8> = PlatformStepResult::Continue(2);
    assert!(matches!(r, PlatformStepResult::Continue(2)));
    assert!(matches!(PlatformStepResult::<u8>::Exit, PlatformStepResult::Exit));
    assert!(ChestItem::Gun != ChestItem::Drill);
    assert!(ChestItem::Empty == ChestItem::Empty);
}
