use std::collections::HashMap;
use nova::behavior::RobotBehavior;
use nova::entities::{ResourceType, Robot, RobotType, Station, World};
use nova::harvester::HarvesterBehavior;
use nova::types::{AnalysisType, AnalyzeTask, HarvestTask, Task, TaskType};

fn create_test_robot(x: usize, y: usize, energy: u32) -> Robot {
    Robot { id: 1, robot_type: RobotType::Harvester, x, y, energy, carrying: None }
}

fn create_test_station() -> Station {
    Station { resources: HashMap::new(), discoveries: 0, x: 5, y: 5 }
}

fn create_test_map_with_resources() -> World {
    let mut map = World::new_test_map(10, 10);
    map.set_resource(3, 3, ResourceType::Energy, 10).unwrap();
    map.set_resource(7, 7, ResourceType::Mineral, 15).unwrap();
    map.set_resource(2, 8, ResourceType::ScientificInterest, 5).unwrap();
    map
}

#[test]
fn test_harvester_behavior_characteristics() {
    let harvester = HarvesterBehavior;
    assert_eq!(harvester.get_energy_consumption_rate(), 3);
    assert_eq!(
        harvester.get_preferred_resources(),
        vec![ResourceType::Energy, ResourceType::Mineral]
    );
}

#[test]
fn test_harvester_low_energy_returns_to_station() {
    let harvester = HarvesterBehavior;
    let map = create_test_map_with_resources();
    let station = create_test_station();
    let low_energy_robot = create_test_robot(3, 3, 10);

    let task = harvester.decide_next_action(&low_energy_robot, &map, &station);

    assert!(task.is_some());
    let task = task.unwrap();
    assert_eq!(task.task_type, TaskType::ReturnToStation);
    assert_eq!(task.target_position, Some((station.x, station.y)));
    assert_eq!(task.priority, 10);
}

#[test]
fn test_harvester_carrying_resources_returns_to_station() {
    let harvester = HarvesterBehavior;
    let map = create_test_map_with_resources();
    let station = create_test_station();
    let mut carrying_robot = create_test_robot(3, 3, 50);
    carrying_robot.carrying = Some((ResourceType::Mineral, 10));

    let task = harvester.decide_next_action(&carrying_robot, &map, &station);

    assert!(task.is_some());
    let task = task.unwrap();
    assert_eq!(task.task_type, TaskType::ReturnToStation);
    assert_eq!(task.target_position, Some((station.x, station.y)));
}

#[test]
fn test_harvester_finds_preferred_resources() {
    let harvester = HarvesterBehavior;
    let map = create_test_map_with_resources();
    let station = create_test_station();
    let robot = create_test_robot(1, 1, 50);

    let task = harvester.decide_next_action(&robot, &map, &station);

    assert!(task.is_some());
    let task = task.unwrap();

    if let TaskType::Harvest(harvest_task) = task.task_type {
        assert!(matches!(
            harvest_task.resource_type,
            ResourceType::Energy | ResourceType::Mineral
        ));
        assert!(task.target_position.is_some());
    } else {
        panic!("Expected harvest task, got {:?}", task.task_type);
    }
}

#[test]
fn test_harvester_can_perform_harvest_tasks() {
    let harvester = HarvesterBehavior;

    let harvest_task = Task {
        task_type: TaskType::Harvest(HarvestTask {
            resource_type: ResourceType::Energy,
            target_position: (3, 3),
        }),
        target_position: Some((3, 3)),
        priority: 8,
    };

    let return_task = Task {
        task_type: TaskType::ReturnToStation,
        target_position: Some((5, 5)),
        priority: 9,
    };

    assert!(harvester.can_perform_task(&harvest_task));
    assert!(harvester.can_perform_task(&return_task));
}

#[test]
fn test_harvester_cannot_perform_non_harvest_tasks() {
    let harvester = HarvesterBehavior;

    let analyze_task = Task {
        task_type: TaskType::Analyze(AnalyzeTask {
            target_position: (2, 2),
            analysis_type: AnalysisType::Chemical,
        }),
        target_position: Some((2, 2)),
        priority: 7,
    };

    assert!(!harvester.can_perform_task(&analyze_task));
}

#[test]
fn test_find_nearby_resource_prioritizes_preferred() {
    let harvester = HarvesterBehavior;
    let map = create_test_map_with_resources();
    let robot = create_test_robot(4, 4, 50);

    let result = harvester.find_nearby_resource(&robot, &map);

    assert!(result.is_some());
    let (pos, resource_type) = result.unwrap();

    assert!(matches!(
        resource_type,
        ResourceType::Energy | ResourceType::Mineral
    ));

    assert!(pos.0 < map.width);
    assert!(pos.1 < map.height);
}

#[test]
fn test_harvester_with_no_resources_available() {
    let harvester = HarvesterBehavior;
    let map = World::new_test_map(10, 10);
    let station = create_test_station();
    let robot = create_test_robot(3, 3, 50);

    let task = harvester.decide_next_action(&robot, &map, &station);

    assert!(task.is_some());
    let task = task.unwrap();
    assert!(matches!(task.task_type, TaskType::Explore(_)));
}

#[test]
fn test_harvester_energy_efficiency() {
    let harvester = HarvesterBehavior;

    assert!(harvester.get_energy_consumption_rate() > 2);

    assert_eq!(harvester.get_energy_consumption_rate(), 3);
}

#[test]
fn test_harvester_resource_priority() {
    let harvester = HarvesterBehavior;
    let preferred = harvester.get_preferred_resources();

    assert!(preferred.contains(&ResourceType::Energy));
    assert!(preferred.contains(&ResourceType::Mineral));
    assert!(!preferred.contains(&ResourceType::ScientificInterest));
}

#[test]
fn test_harvester_healthy_robot_harvests() {
    let harvester = HarvesterBehavior;
    let map = create_test_map_with_resources();
    let station = create_test_station();
    let healthy_robot = create_test_robot(1, 1, 50);

    let task = harvester.decide_next_action(&healthy_robot, &map, &station);

    assert!(task.is_some());
    let task = task.unwrap();

    if map.resource_count() > 0 {
        assert!(matches!(task.task_type, TaskType::Harvest(_)));
    }
}

#[test]
fn test_harvester_fallback_steps_toward_center() {
    // on an empty map the fallback steps two cells toward the center from
    // the robot's half of the map
    let harvester = HarvesterBehavior;
    let map = World::new_test_map(10, 10);
    let robot = create_test_robot(2, 8, 50);
    assert_eq!(
        harvester.get_resource_exploration_target(&robot, &map),
        Some((4, 6))
    );
    let robot = create_test_robot(8, 1, 50);
    assert_eq!(
        harvester.get_resource_exploration_target(&robot, &map),
        Some((6, 3))
    );
}
