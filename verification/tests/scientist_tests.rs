use std::collections::HashMap;
use nova::behavior::RobotBehavior;
use nova::entities::{ResourceType, Robot, RobotType, Station, World};
use nova::scientist::ScientistBehavior;
use nova::types::{AnalysisType, HarvestTask, Task, TaskType};

fn create_test_robot(x: usize, y: usize, energy: u32) -> Robot {
    Robot { id: 1, robot_type: RobotType::Scientist, x, y, energy, carrying: None }
}

fn create_test_station() -> Station {
    Station { resources: HashMap::new(), discoveries: 0, x: 5, y: 5 }
}

fn create_test_map_with_scientific_interests() -> World {
    let mut map = World::new_test_map(10, 10);
    map.set_resource(3, 3, ResourceType::ScientificInterest, 8).unwrap();
    map.set_resource(7, 7, ResourceType::ScientificInterest, 12).unwrap();
    map.set_resource(2, 8, ResourceType::Energy, 5).unwrap();
    map
}

#[test]
fn test_scientist_behavior_characteristics() {
    let scientist = ScientistBehavior;
    assert_eq!(scientist.get_energy_consumption_rate(), 4);
    assert_eq!(
        scientist.get_preferred_resources(),
        vec![ResourceType::ScientificInterest]
    );
}

#[test]
fn test_scientist_low_energy_returns_to_station() {
    let scientist = ScientistBehavior;
    let map = create_test_map_with_scientific_interests();
    let station = create_test_station();
    let low_energy_robot = create_test_robot(3, 3, 15);

    let task = scientist.decide_next_action(&low_energy_robot, &map, &station);

    assert!(task.is_some());
    let task = task.unwrap();
    assert_eq!(task.task_type, TaskType::ReturnToStation);
    assert_eq!(task.target_position, Some((station.x, station.y)));
    assert_eq!(task.priority, 9);
}

#[test]
fn test_scientist_carrying_data_returns_to_station() {
    let scientist = ScientistBehavior;
    let map = create_test_map_with_scientific_interests();
    let station = create_test_station();
    let mut carrying_robot = create_test_robot(3, 3, 50);
    carrying_robot.carrying = Some((ResourceType::ScientificInterest, 5));

    let task = scientist.decide_next_action(&carrying_robot, &map, &station);

    assert!(task.is_some());
    let task = task.unwrap();
    assert_eq!(task.task_type, TaskType::ReturnToStation);
    assert_eq!(task.target_position, Some((station.x, station.y)));
}

#[test]
fn test_scientist_finds_scientific_interests() {
    let scientist = ScientistBehavior;
    let map = create_test_map_with_scientific_interests();
    let station = create_test_station();
    let robot = create_test_robot(1, 1, 50);

    let task = scientist.decide_next_action(&robot, &map, &station);

    assert!(task.is_some());
    let task = task.unwrap();

    if let TaskType::Analyze(analyze_task) = task.task_type {
        assert_eq!(analyze_task.analysis_type, AnalysisType::Chemical);
        assert!(task.target_position.is_some());
    } else {
        panic!("Expected analyze task, got {:?}", task.task_type);
    }
}

#[test]
fn test_scientist_can_perform_analysis_tasks() {
    let scientist = ScientistBehavior;

    let analyze_task = Task {
        task_type: TaskType::Analyze(nova::types::AnalyzeTask {
            target_position: (3, 3),
            analysis_type: AnalysisType::Chemical,
        }),
        target_position: Some((3, 3)),
        priority: 7,
    };

    let return_task = Task {
        task_type: TaskType::ReturnToStation,
        target_position: Some((5, 5)),
        priority: 9,
    };

    assert!(scientist.can_perform_task(&analyze_task));
    assert!(scientist.can_perform_task(&return_task));
}

#[test]
fn test_scientist_cannot_perform_non_analysis_tasks() {
    let scientist = ScientistBehavior;

    let harvest_task = Task {
        task_type: TaskType::Harvest(HarvestTask {
            resource_type: ResourceType::Energy,
            target_position: (3, 3),
        }),
        target_position: Some((3, 3)),
        priority: 8,
    };

    assert!(!scientist.can_perform_task(&harvest_task));
}

#[test]
fn test_find_scientific_interest_method() {
    let scientist = ScientistBehavior;
    let map = create_test_map_with_scientific_interests();
    let robot = create_test_robot(4, 4, 50);

    let result = scientist.find_scientific_interest(&robot, &map);

    assert!(result.is_some());
    let pos = result.unwrap();

    let found = map.get_resource(pos.0, pos.1).unwrap();
    assert!(found.is_some());
    assert_eq!(found.unwrap().0, ResourceType::ScientificInterest);

    assert!(pos.0 < map.width);
    assert!(pos.1 < map.height);
}

#[test]
fn test_determine_analysis_type_consistency() {
    let scientist = ScientistBehavior;
    let position = (3, 3);
    let map = create_test_map_with_scientific_interests();

    let analysis1 = scientist.determine_analysis_type(position, &map);
    let analysis2 = scientist.determine_analysis_type(position, &map);

    assert_eq!(analysis1, analysis2);
    assert_eq!(analysis1, AnalysisType::Chemical);
}

#[test]
fn test_scientist_with_no_scientific_interests() {
    let scientist = ScientistBehavior;
    let map = World::new_test_map(10, 10);

    let station = create_test_station();
    let robot = create_test_robot(4, 3, 50);

    let task = scientist.decide_next_action(&robot, &map, &station);

    assert!(task.is_some());
    let task = task.unwrap();
    assert!(matches!(task.task_type, TaskType::Explore(_)));
}

#[test]
fn test_scientist_energy_efficiency() {
    let scientist = ScientistBehavior;

    assert_eq!(scientist.get_energy_consumption_rate(), 4);
    assert!(scientist.get_energy_consumption_rate() > 2);
}

#[test]
fn test_scientist_resource_specialization() {
    let scientist = ScientistBehavior;
    let preferred = scientist.get_preferred_resources();

    assert_eq!(preferred.len(), 1);
    assert!(preferred.contains(&ResourceType::ScientificInterest));
    assert!(!preferred.contains(&ResourceType::Energy));
    assert!(!preferred.contains(&ResourceType::Mineral));
}

#[test]
fn test_scientist_healthy_robot_analyzes() {
    let scientist = ScientistBehavior;
    let map = create_test_map_with_scientific_interests();
    let station = create_test_station();
    let healthy_robot = create_test_robot(1, 1, 50);

    let task = scientist.decide_next_action(&healthy_robot, &map, &station);

    assert!(task.is_some());
    let task = task.unwrap();

    if map.resource_count() > 0 {
        assert!(matches!(task.task_type, TaskType::Analyze(_)));
    }
}

#[test]
fn test_analysis_type_distribution() {
    let scientist = ScientistBehavior;
    let map = create_test_map_with_scientific_interests();

    let positions = [(1, 1), (2, 2), (3, 3), (4, 4), (5, 5)];

    for pos in positions.iter() {
        let analysis_type = scientist.determine_analysis_type(*pos, &map);
        assert_eq!(analysis_type, AnalysisType::Chemical);
    }
}

#[test]
fn test_count_nearby_resources_counts_passes() {
    // the scan rescans its full window each pass, so a deposit at
    // Chebyshev distance 1 is counted by both the radius-1 and the
    // radius-2 pass, and one at distance 2 only by the latter
    let scientist = ScientistBehavior;
    let mut map = World::new_test_map(10, 10);
    map.set_resource(5, 4, ResourceType::Energy, 5).unwrap();
    assert_eq!(scientist.count_nearby_resources((5, 5), &map), 2);

    let mut map2 = World::new_test_map(10, 10);
    map2.set_resource(3, 5, ResourceType::Energy, 5).unwrap();
    assert_eq!(scientist.count_nearby_resources((5, 5), &map2), 1);
}

#[test]
fn test_scientist_fallback_offset_pattern() {
    let scientist = ScientistBehavior;
    let map = World::new_test_map(10, 10);
    let robot = create_test_robot(8, 9, 50);
    // the (+3, +2) pattern wraps at the map edges
    assert_eq!(
        scientist.get_scientific_exploration_target(&robot, &map),
        Some((1, 1))
    );
}
