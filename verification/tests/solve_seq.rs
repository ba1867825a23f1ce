use kas::layout::size_rules::SizeRules;
use kas::layout::solve_seq::is_valid_with_total;

fn with_total(children: &[(u32, u32)]) -> Vec<SizeRules> {
    let mut rules: Vec<SizeRules> = Vec::new();
    let mut total = SizeRules::empty();
    for &(min, pref) in children {
        let r = SizeRules::variable(min, pref);
        total = total + r;
        rules.push(r);
    }
    rules.push(total);
    rules
}

fn solve(children: &[(u32, u32)], target: u32) -> Vec<u32> {
    let rules = with_total(children);
    assert!(is_valid_with_total(&rules));
    let mut out = vec![u32::MAX; children.len()];
    SizeRules::solve_seq(&mut out, &rules, target);
    out
}

fn sum(out: &[u32]) -> u64 {
    out.iter().map(|&x| x as u64).sum()
}

#[test]
fn surplus_is_shared_in_proportion_to_stretch() {
    // spare = 20 over a total stretch of 30: floors 6 and 13, one unit left
    // over, which the first child gets.
    assert_eq!(solve(&[(10, 20), (10, 30)], 40), vec![17, 23]);
}

#[test]
fn deficit_is_shared_evenly_among_equals() {
    let out = solve(&[(10, 10), (10, 10), (10, 10)], 10);
    assert_eq!(sum(&out), 10);
    assert_eq!(out, vec![3, 3, 4]);
    let largest = *out.iter().max().unwrap();
    let smallest = *out.iter().min().unwrap();
    assert!(largest - smallest <= 1);
}

#[test]
fn target_at_total_minimum_gives_minimums() {
    assert_eq!(solve(&[(10, 20), (5, 30), (0, 7)], 15), vec![10, 5, 0]);
}

#[test]
fn target_at_total_preference_gives_preferences() {
    assert_eq!(solve(&[(10, 20), (5, 30), (0, 7)], 57), vec![20, 30, 7]);
}

#[test]
fn target_above_total_preference_keeps_the_proportion() {
    // spare = 84 over a stretch of 42: every child grows by twice its stretch
    assert_eq!(solve(&[(10, 20), (5, 30), (0, 7)], 99), vec![30, 55, 14]);
}

#[test]
fn surplus_without_stretch_is_shared_evenly() {
    // spare = 11 among 3: 3 each, 2 left over for the first two
    assert_eq!(solve(&[(10, 10), (20, 20), (30, 30)], 71), vec![14, 24, 33]);
}

#[test]
fn surplus_goes_only_to_children_that_stretch() {
    assert_eq!(solve(&[(10, 10), (10, 20), (10, 10)], 37), vec![10, 17, 10]);
}

#[test]
fn rounding_remainder_goes_to_the_first_children() {
    // spare = 2 over three equal stretches: floors are 0, two units left
    assert_eq!(solve(&[(5, 6), (5, 6), (5, 6)], 17), vec![6, 6, 5]);
    // spare = 1
    assert_eq!(solve(&[(5, 6), (5, 6), (5, 6)], 16), vec![6, 5, 5]);
}

#[test]
fn rounding_remainder_may_go_to_a_child_that_does_not_stretch() {
    // spare = 1 over a stretch of 2: the floor of 1 * 2 / 2 is 1 for the last
    // child, nothing is left over
    assert_eq!(solve(&[(5, 5), (5, 7)], 11), vec![5, 6]);
    // spare = 1 over a stretch of 3, stretches 0, 1 and 2: all floors are 0,
    // and the unit left over goes to the first child
    assert_eq!(solve(&[(5, 5), (5, 6), (5, 7)], 16), vec![6, 5, 5]);
}

#[test]
fn same_inputs_give_the_same_sizes() {
    let first = solve(&[(3, 9), (4, 4), (5, 50), (1, 2)], 40);
    let second = solve(&[(3, 9), (4, 4), (5, 50), (1, 2)], 40);
    assert_eq!(first, second);
    assert_eq!(sum(&first), 40);
}

#[test]
fn surplus_sizes_sum_to_target_and_keep_minimums() {
    let children = [(3, 9), (4, 4), (5, 50), (1, 2), (0, 0), (7, 8)];
    for target in 20..200 {
        let out = solve(&children, target);
        assert_eq!(sum(&out), target as u64);
        for (n, &(min, _)) in children.iter().enumerate() {
            assert!(out[n] >= min);
        }
    }
}

#[test]
fn deficit_sizes_sum_to_target_and_stay_below_minimums() {
    let children = [(3, 9), (14, 14), (5, 50), (1, 2), (0, 0), (7, 8)];
    for target in 0..30 {
        let out = solve(&children, target);
        assert_eq!(sum(&out), target as u64);
        for (n, &(min, _)) in children.iter().enumerate() {
            assert!(out[n] <= min);
        }
    }
}

#[test]
fn deficit_cuts_the_largest_first() {
    // excess 4: only the largest child is cut, down to the next tier
    assert_eq!(solve(&[(10, 10), (6, 6), (2, 2)], 14), vec![6, 6, 2]);
    // excess 2: the cut stops above the next tier
    assert_eq!(solve(&[(10, 10), (6, 6), (2, 2)], 16), vec![8, 6, 2]);
}

#[test]
fn deficit_cuts_tied_children_together() {
    // excess 8: the largest is cut to 6, then both at 6 are cut to 4
    assert_eq!(solve(&[(10, 10), (6, 6), (2, 2)], 10), vec![4, 4, 2]);
    // excess 9: one more unit, taken from the first child at the top
    assert_eq!(solve(&[(10, 10), (6, 6), (2, 2)], 9), vec![3, 4, 2]);
    // excess 9 with the largest last: the unit still comes from the first
    // child at the top
    assert_eq!(solve(&[(2, 2), (6, 6), (10, 10)], 9), vec![2, 3, 4]);
}

#[test]
fn deficit_reaches_all_children_in_the_end() {
    assert_eq!(solve(&[(10, 10), (6, 6), (2, 2)], 6), vec![2, 2, 2]);
    assert_eq!(solve(&[(10, 10), (6, 6), (2, 2)], 5), vec![1, 2, 2]);
    assert_eq!(solve(&[(10, 10), (6, 6), (2, 2)], 1), vec![0, 0, 1]);
    assert_eq!(solve(&[(10, 10), (6, 6), (2, 2)], 0), vec![0, 0, 0]);
}

#[test]
fn deficit_leaves_children_without_size_alone() {
    assert_eq!(solve(&[(0, 5), (9, 9), (0, 0)], 4), vec![0, 4, 0]);
    assert_eq!(solve(&[(0, 5), (9, 9), (0, 0)], 0), vec![0, 0, 0]);
}

#[test]
fn deficit_of_one_unit() {
    assert_eq!(solve(&[(4, 4), (4, 4)], 7), vec![3, 4]);
    assert_eq!(solve(&[(4, 4)], 3), vec![3]);
}

#[test]
fn single_child_gets_the_target() {
    assert_eq!(solve(&[(10, 20)], 0), vec![0]);
    assert_eq!(solve(&[(10, 20)], 15), vec![15]);
    assert_eq!(solve(&[(10, 20)], 1000), vec![1000]);
    assert_eq!(solve(&[(10, 10)], 1000), vec![1000]);
}

#[test]
fn large_sizes_do_not_overflow() {
    let children = [(0, u32::MAX / 2), (0, u32::MAX / 2)];
    let out = solve(&children, u32::MAX);
    assert_eq!(sum(&out), u32::MAX as u64);
    assert_eq!(out, vec![u32::MAX / 2 + 1, u32::MAX / 2]);
    let out = solve(&[(u32::MAX / 2, u32::MAX / 2), (u32::MAX / 2, u32::MAX / 2)], 3);
    assert_eq!(out, vec![1, 2]);
}

#[test]
fn no_children_nothing_written() {
    let rules = [SizeRules::fixed(0)];
    let mut out: [u32; 0] = [];
    SizeRules::solve_seq(&mut out, &rules, 5);
    assert_eq!(out.len(), 0);
}

#[test]
fn total_is_recognised() {
    assert!(is_valid_with_total(&with_total(&[(1, 2), (3, 4)])));
    assert!(is_valid_with_total(&[SizeRules::empty()]));
    assert!(!is_valid_with_total(&[]));
    assert!(!is_valid_with_total(&[SizeRules::fixed(1)]));
    let mut rules = with_total(&[(1, 2), (3, 4)]);
    rules[2] = SizeRules::variable(4, 7);
    assert!(!is_valid_with_total(&rules));
    rules[2] = SizeRules::variable(3, 6);
    assert!(!is_valid_with_total(&rules));
    rules[2] = SizeRules::variable(5, 6);
    assert!(!is_valid_with_total(&rules));
    let big = [SizeRules::fixed(u32::MAX), SizeRules::fixed(u32::MAX), SizeRules::fixed(u32::MAX)];
    assert!(!is_valid_with_total(&big));
}

#[test]
fn share_that_is_a_whole_number_is_not_rounded_down() {
    // spare = 1 over a stretch of 49, all of it the second child's: its share
    // is one whole unit, and nothing is left over for the first child
    assert_eq!(solve(&[(5, 5), (5, 54)], 11), vec![5, 6]);
    assert_eq!(solve(&[(0, 0), (0, 49), (0, 0)], 1), vec![0, 1, 0]);
}

#[test]
fn surplus_is_the_floor_of_each_share_and_the_rest_in_order() {
    let children = [(3u32, 10u32), (4, 4), (5, 21), (1, 2)];
    let min: u64 = children.iter().map(|c| c.0 as u64).sum();
    let pref: u64 = children.iter().map(|c| c.1 as u64).sum();
    for target in (min as u32)..200 {
        let spare = target as u64 - min;
        let mut expected: Vec<u32> = children
            .iter()
            .map(|c| c.0 + (spare * (c.1 - c.0) as u64 / (pref - min)) as u32)
            .collect();
        let rem = target - expected.iter().sum::<u32>();
        assert!((rem as usize) < children.len());
        for n in 0..rem as usize {
            expected[n] += 1;
        }
        assert_eq!(solve(&children, target), expected);
    }
}
