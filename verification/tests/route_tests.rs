use evefrontier_lib::path::{
    append_leg, follow_path, is_revisit, jump_total, keep_nearer, nearest_unvisited,
};
use evefrontier_lib::{build_graph, find_system, optimal_route, Jump, StarGraph, System};

fn system(id: i64, name: &str) -> System {
    System { id, name: name.to_string() }
}

fn map_of(count: i64, gates: &[(i64, i64)]) -> StarGraph {
    let systems: Vec<System> = (0..count).map(|i| system(i, "S")).collect();
    let jumps: Vec<Jump> = gates.iter().map(|g| Jump { from_id: g.0, to_id: g.1 }).collect();
    build_graph(&systems, &jumps)
}

fn check_round_trip(g: &StarGraph, start: usize, route: &[usize]) {
    assert_eq!(route[0], start);
    assert_eq!(route[route.len() - 1], start);
    for pair in route.windows(2) {
        assert!(g.has_gate(pair[0], pair[1]));
    }
    for v in 0..g.node_count() {
        assert_eq!(route.contains(&v), g.shortest_path(start, v).is_some());
    }
}

#[test]
fn line_is_gone_to_its_end_and_back() {
    let systems = vec![system(1, "A"), system(2, "B"), system(3, "C")];
    let jumps = vec![Jump { from_id: 1, to_id: 2 }, Jump { from_id: 2, to_id: 3 }];
    let g = build_graph(&systems, &jumps);
    let start = find_system(&systems, &"A".to_string()).unwrap();
    let route = optimal_route(&g, start);
    assert_eq!(route, vec![0, 1, 2, 1, 0]);
    let names: Vec<&str> = route.iter().map(|i| systems[*i].name.as_str()).collect();
    assert_eq!(names, vec!["A", "B", "C", "B", "A"]);
    assert_eq!(jump_total(&route), 4);
}

#[test]
fn other_component_is_left_out() {
    let g = map_of(5, &[(0, 1), (1, 2), (3, 4)]);
    let route = optimal_route(&g, 0);
    assert_eq!(route, vec![0, 1, 2, 1, 0]);
    assert!(!route.contains(&3));
    assert!(!route.contains(&4));
    check_round_trip(&g, 0, &route);

    let other = optimal_route(&g, 4);
    assert_eq!(other, vec![4, 3, 4]);
    check_round_trip(&g, 4, &other);
}

#[test]
fn single_system_is_the_whole_route() {
    let g = map_of(1, &[]);
    let route = optimal_route(&g, 0);
    assert_eq!(route, vec![0]);
    assert_eq!(jump_total(&route), 0);
}

#[test]
fn unlinked_neighbour_is_not_visited() {
    let systems = vec![system(1, "A"), system(2, "B")];
    let g = build_graph(&systems, &[]);
    let start = find_system(&systems, &"A".to_string()).unwrap();
    assert_eq!(optimal_route(&g, start), vec![0]);
    assert_eq!(optimal_route(&g, 1), vec![1]);
}

#[test]
fn loop_on_the_start_changes_nothing() {
    let g = map_of(2, &[(0, 0), (0, 1)]);
    assert_eq!(optimal_route(&g, 0), vec![0, 1, 0]);
}

#[test]
fn equally_near_systems_are_taken_in_index_order() {
    let g = map_of(4, &[(0, 3), (0, 2), (0, 1)]);
    let route = optimal_route(&g, 0);
    assert_eq!(route, vec![0, 1, 0, 2, 0, 3, 0]);
    check_round_trip(&g, 0, &route);
}

#[test]
fn start_in_the_middle_turns_to_the_lower_index_first() {
    let g = map_of(3, &[(0, 1), (1, 2)]);
    assert_eq!(optimal_route(&g, 1), vec![1, 0, 1, 2, 1]);
}

#[test]
fn ring_is_gone_round_once() {
    let g = map_of(4, &[(0, 1), (1, 2), (2, 3), (3, 0)]);
    let route = optimal_route(&g, 0);
    assert_eq!(route, vec![0, 1, 2, 3, 0]);
    check_round_trip(&g, 0, &route);
}

#[test]
fn nearer_system_is_taken_before_a_lower_index() {
    // 0 - 3 - 1 and 0 - 2: from 0 the systems 2 and 3 are one gate away, 1 is two.
    let g = map_of(4, &[(0, 3), (3, 1), (0, 2)]);
    let route = optimal_route(&g, 0);
    assert_eq!(route, vec![0, 2, 0, 3, 1, 3, 0]);
    check_round_trip(&g, 0, &route);
}

#[test]
fn route_holds_what_can_be_reached_and_nothing_else() {
    let g = map_of(9, &[(0, 1), (1, 2), (2, 0), (2, 3), (3, 4), (5, 6), (6, 7), (4, 1), (8, 8)]);
    for start in 0..9 {
        let route = optimal_route(&g, start);
        check_round_trip(&g, start, &route);
    }
}

#[test]
fn keep_nearer_keeps_the_first_of_equal_cost() {
    let first = Some((2, vec![0, 1, 2]));
    let second = Some((2, vec![0, 3, 4]));
    assert_eq!(keep_nearer(first, second), Some((2, vec![0, 1, 2])));
}

#[test]
fn keep_nearer_takes_the_strictly_cheaper() {
    assert_eq!(keep_nearer(Some((3, vec![0, 1, 2, 3])), Some((1, vec![0, 4]))), Some((1, vec![0, 4])));
    assert_eq!(keep_nearer(Some((1, vec![0, 4])), Some((3, vec![0, 1, 2, 3]))), Some((1, vec![0, 4])));
}

#[test]
fn keep_nearer_takes_what_there_is() {
    assert_eq!(keep_nearer(None, Some((5, vec![9]))), Some((5, vec![9])));
    assert_eq!(keep_nearer(Some((5, vec![9])), None), Some((5, vec![9])));
    assert_eq!(keep_nearer(None, None), None);
}

#[test]
fn nearest_unvisited_passes_over_what_is_seen() {
    let g = map_of(4, &[(0, 1), (1, 2), (2, 3)]);
    let none_seen = vec![true, false, false, false];
    assert_eq!(nearest_unvisited(&g, &none_seen, 0), Some((1, vec![0, 1])));
    let one_seen = vec![true, true, false, false];
    assert_eq!(nearest_unvisited(&g, &one_seen, 0), Some((2, vec![0, 1, 2])));
    assert_eq!(nearest_unvisited(&g, &one_seen, 1), Some((1, vec![1, 2])));
    let all_seen = vec![true, true, true, true];
    assert_eq!(nearest_unvisited(&g, &all_seen, 0), None);
}

#[test]
fn nearest_unvisited_finds_nothing_out_of_reach() {
    let g = map_of(3, &[(0, 1)]);
    assert_eq!(nearest_unvisited(&g, &vec![true, true, false], 0), None);
    assert_eq!(nearest_unvisited(&g, &vec![true, true, false], 1), None);
}

#[test]
fn follow_path_marks_and_records_all_but_the_first() {
    let mut route = vec![4, 0];
    let mut visited = vec![true, false, false, false, true];
    let end = follow_path(&mut route, &mut visited, &vec![0, 1, 3]);
    assert_eq!(end, 3);
    assert_eq!(route, vec![4, 0, 1, 3]);
    assert_eq!(visited, vec![true, true, false, true, true]);
}

#[test]
fn follow_path_of_one_system_stays() {
    let mut route = vec![2];
    let mut visited = vec![false, false, true];
    let end = follow_path(&mut route, &mut visited, &vec![2]);
    assert_eq!(end, 2);
    assert_eq!(route, vec![2]);
    assert_eq!(visited, vec![false, false, true]);
}

#[test]
fn append_leg_leaves_out_the_first() {
    let mut route = vec![0, 1, 2];
    append_leg(&mut route, &vec![2, 1, 0]);
    assert_eq!(route, vec![0, 1, 2, 1, 0]);
    append_leg(&mut route, &vec![0]);
    assert_eq!(route, vec![0, 1, 2, 1, 0]);
}

#[test]
fn jump_total_is_one_less_than_the_systems() {
    assert_eq!(jump_total(&vec![]), 0);
    assert_eq!(jump_total(&vec![7]), 0);
    assert_eq!(jump_total(&vec![0, 1, 2, 1, 0]), 4);
}

#[test]
fn is_revisit_looks_at_what_came_before() {
    let route = vec![0, 1, 2, 1, 0];
    let marks: Vec<bool> = (0..route.len()).map(|i| is_revisit(&route, i)).collect();
    assert_eq!(marks, vec![false, false, false, true, true]);
}
