use nova::entities::{ResourceType, World};
use nova::search::SearchUtils;

fn create_test_map() -> World {
    World::new_test_map(10, 10)
}

#[test]
fn test_radius_search_basic_functionality() {
    let map = create_test_map();

    let result = SearchUtils::radius_search(5, 5, 2, &map, |x, y, _: &World| x == 6 && y == 6);

    assert_eq!(result, Some((6, 6)));
}

#[test]
fn test_radius_search_respects_bounds() {
    let map = create_test_map();

    let result = SearchUtils::radius_search(0, 0, 2, &map, |x, y, _: &World| x > 10 || y > 10);

    assert_eq!(result, None);
}

#[test]
fn test_find_nearest_resource() {
    let mut map = create_test_map();
    map.set_resource(3, 3, ResourceType::Energy, 10).unwrap();
    map.set_resource(7, 7, ResourceType::Mineral, 15).unwrap();

    let allowed_types = vec![ResourceType::Energy, ResourceType::Mineral];
    let result = SearchUtils::find_nearest_resource(2, 2, 5, &map, &allowed_types);

    assert!(result.is_some());
    let ((x, y), resource_type) = result.unwrap();
    assert_eq!((x, y), (3, 3));
    assert_eq!(resource_type, ResourceType::Energy);
}

#[test]
fn test_find_nearest_unexplored() {
    let mut map = create_test_map();
    map.discovered[5][5] = true;

    let result = SearchUtils::find_nearest_unexplored(5, 5, 3, &map);

    assert!(result.is_some());
    let (x, y) = result.unwrap();
    assert!(!map.discovered[y][x]);
    assert_eq!(map.terrain[y][x], 0);
}

#[test]
fn test_find_nearest_scientific_interest() {
    let mut map = create_test_map();
    map.set_resource(4, 4, ResourceType::ScientificInterest, 8).unwrap();

    let result = SearchUtils::find_nearest_scientific_interest(3, 3, 5, &map);

    assert_eq!(result, Some((4, 4)));
}

#[test]
fn test_radius_search_tie_break_is_scan_order() {
    // two matches at the same radius: the winner is the first under the
    // dx-ascending-then-dy-ascending scan, not the nearest by Euclidean
    // distance
    let map = create_test_map();
    let matches = [(4usize, 6usize), (6usize, 4usize)];
    let result = SearchUtils::radius_search(5, 5, 3, &map, |x, y, _: &World| {
        matches.contains(&(x, y))
    });
    assert_eq!(result, Some((4, 6)));

    // within one column, smaller dy wins
    let matches2 = [(6usize, 6usize), (6usize, 5usize)];
    let result2 = SearchUtils::radius_search(5, 5, 3, &map, |x, y, _: &World| {
        matches2.contains(&(x, y))
    });
    assert_eq!(result2, Some((6, 5)));
}

#[test]
fn test_radius_search_finds_inner_radius_first() {
    // a match at radius 1 beats any radius-2-only match
    let map = create_test_map();
    let matches = [(3usize, 3usize), (5usize, 6usize)];
    let result = SearchUtils::radius_search(5, 5, 2, &map, |x, y, _: &World| {
        matches.contains(&(x, y))
    });
    assert_eq!(result, Some((5, 6)));
}

#[test]
fn test_find_nearest_resource_ignores_other_kinds() {
    let mut map = create_test_map();
    map.set_resource(5, 4, ResourceType::ScientificInterest, 5).unwrap();
    map.set_resource(7, 5, ResourceType::Energy, 5).unwrap();

    let allowed_types = vec![ResourceType::Energy, ResourceType::Mineral];
    let result = SearchUtils::find_nearest_resource(5, 5, 4, &map, &allowed_types);

    assert_eq!(result, Some(((7, 5), ResourceType::Energy)));
}
