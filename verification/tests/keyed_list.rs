use rsvelte::keyed::{
    common_head, common_tail, hash_item, longest_increasing_run, match_sources, mount_anchor, plan_each_update, unreused_entries,
    reconcile_entries, rebuild_entries, Placement,
};

use Placement::{Create, Keep, Move};

#[test]
fn unchanged_list_keeps_everything() {
    let keys = vec![10, 20, 30];
    let plan = plan_each_update(&keys, &keys);
    assert_eq!(plan.head, 3);
    assert_eq!(plan.tail, 0);
    assert!(plan.removed.is_empty());
    assert_eq!(plan.placements, vec![Keep(0), Keep(1), Keep(2)]);
}

#[test]
fn append_creates_only_the_new_item() {
    let plan = plan_each_update(&vec![1, 2], &vec![1, 2, 3]);
    assert_eq!(plan.head, 2);
    assert_eq!(plan.placements, vec![Keep(0), Keep(1), Create]);
    assert!(plan.removed.is_empty());
}

#[test]
fn removal_from_middle() {
    let plan = plan_each_update(&vec![1, 2, 3], &vec![1, 3]);
    assert_eq!(plan.head, 1);
    assert_eq!(plan.tail, 1);
    assert_eq!(plan.removed, vec![1]);
    assert_eq!(plan.placements, vec![Keep(0), Keep(2)]);
}

#[test]
fn swap_moves_one_entry() {
    // old [a b c d], new [a c b d]: head 1, tail 1, middle sources [2, 1]
    let plan = plan_each_update(&vec![1, 2, 3, 4], &vec![1, 3, 2, 4]);
    assert_eq!(plan.head, 1);
    assert_eq!(plan.tail, 1);
    // runs: [0,1] (sources 0, 2), [2, 3] (sources 1, 3): the last longest run stays
    assert_eq!(plan.placements, vec![Move(0), Move(2), Keep(1), Keep(3)]);
    assert!(plan.removed.is_empty());
}

#[test]
fn reverse_keeps_the_last_run() {
    let plan = plan_each_update(&vec![1, 2, 3], &vec![3, 2, 1]);
    assert_eq!(plan.head, 0);
    assert_eq!(plan.tail, 0);
    assert_eq!(plan.placements, vec![Move(2), Move(1), Keep(0)]);
}

#[test]
fn replace_all() {
    let plan = plan_each_update(&vec![1, 2], &vec![7, 8, 9]);
    assert_eq!(plan.removed, vec![0, 1]);
    assert_eq!(plan.placements, vec![Create, Create, Create]);
}

#[test]
fn to_empty_and_from_empty() {
    let plan = plan_each_update(&vec![5, 6], &vec![]);
    assert_eq!(plan.removed, vec![0, 1]);
    assert!(plan.placements.is_empty());
    let plan = plan_each_update(&vec![], &vec![5, 6]);
    assert!(plan.removed.is_empty());
    assert_eq!(plan.placements, vec![Create, Create]);
}

#[test]
fn duplicate_new_key_reuses_its_last_position() {
    // the middle key 2 occurs twice in the new list; its last position reuses the old entry
    let plan = plan_each_update(&vec![9, 2], &vec![2, 2, 7]);
    assert_eq!(plan.head, 0);
    assert_eq!(plan.tail, 0);
    assert_eq!(plan.placements, vec![Create, Keep(1), Create]);
    assert_eq!(plan.removed, vec![0]);
}

#[test]
fn head_and_tail_steps() {
    let old = vec![1, 2, 3, 4, 5];
    let new = vec![1, 2, 9, 4, 5];
    let h = common_head(&old, &new);
    assert_eq!(h, 2);
    assert_eq!(common_tail(&old, &new, h), 2);
    let (sources, removed) = match_sources(&old, &new, 2, 2);
    assert_eq!(sources, vec![Some(0), Some(1), None, Some(3), Some(4)]);
    assert_eq!(removed, vec![2]);
}

#[test]
fn longest_run_is_the_last_of_the_longest() {
    let sources = vec![Some(0), Some(2), None, Some(1), Some(3)];
    assert_eq!(longest_increasing_run(&sources), vec![3, 4]);
    let sources = vec![None, None];
    assert_eq!(longest_increasing_run(&sources), Vec::<usize>::new());
    let sources = vec![Some(0), Some(1), Some(2)];
    assert_eq!(longest_increasing_run(&sources), vec![0, 1, 2]);
}

#[test]
fn rebuild_moves_old_entries() {
    let old = vec!["a", "b", "c", "d"];
    let slots = rebuild_entries(old, &vec![Move(0), Move(2), Keep(1), Keep(3), Create]);
    assert_eq!(slots, vec![Some("a"), Some("c"), Some("b"), Some("d"), None]);
}

#[test]
fn reconcile_builds_the_new_list() {
    let (plan, slots) = reconcile_entries(&vec![1, 2, 3], vec!["one", "two", "three"], &vec![3, 4, 1]);
    assert_eq!(plan.removed, vec![1]);
    assert_eq!(slots, vec![Some("three"), None, Some("one")]);
}

#[test]
fn hash_is_stable_for_equal_items() {
    assert_eq!(hash_item(&5i32), hash_item(&5i32));
    assert_ne!(hash_item(&5i32), hash_item(&6i32));
}

#[test]
fn anchors_point_at_the_next_position() {
    assert_eq!(mount_anchor(3, 0), Some(1));
    assert_eq!(mount_anchor(3, 1), Some(2));
    assert_eq!(mount_anchor(3, 2), None);
}

/// Carries out a plan on a list of entry names the way the page does on the
/// DOM: unmount the removed ones, then from the last position to the first
/// mount moved and new entries before the entry of the next position.
fn run_plan(old: &[&'static str], old_keys: Vec<u64>, new_keys: Vec<u64>, fresh: &[&'static str]) -> Vec<&'static str> {
    let mut dom: Vec<&'static str> = old.to_vec();
    let (plan, slots) = reconcile_entries(&old_keys, old.to_vec(), &new_keys);
    let unused = unreused_entries(old.len(), &plan.placements);
    for j in 0..old.len() {
        if unused[j] {
            dom.retain(|e| *e != old[j]);
        }
    }
    let nodes: Vec<&'static str> =
        slots.into_iter().enumerate().map(|(i, s)| s.unwrap_or(fresh[i])).collect();
    for i in (0..nodes.len()).rev() {
        if let Keep(_) = plan.placements[i] {
            continue;
        }
        dom.retain(|e| *e != nodes[i]);
        let at = match mount_anchor(nodes.len(), i) {
            Some(next) => dom.iter().position(|e| *e == nodes[next]).unwrap(),
            None => dom.len(),
        };
        dom.insert(at, nodes[i]);
    }
    dom
}

#[test]
fn prepend_lands_at_the_front() {
    let dom = run_plan(&["a", "b", "c"], vec![1, 2, 3], vec![4, 1, 2, 3], &["d", "", "", ""]);
    assert_eq!(dom, vec!["d", "a", "b", "c"]);
}

#[test]
fn shuffle_lands_in_the_new_order() {
    let dom = run_plan(&["a", "b", "c", "e"], vec![1, 2, 3, 5], vec![3, 6, 1, 5], &["", "f", "", ""]);
    assert_eq!(dom, vec!["c", "f", "a", "e"]);
}

#[test]
fn same_key_is_reused_at_its_position() {
    let plan = plan_each_update(&vec![1, 2, 3], &vec![3, 1, 2]);
    assert_eq!(plan.placements, vec![Move(2), Keep(0), Keep(1)]);
}

#[test]
fn unreused_entries_cover_removed_and_lost_duplicates() {
    let plan = plan_each_update(&vec![1, 2, 3], &vec![3, 1]);
    assert_eq!(unreused_entries(3, &plan.placements), vec![false, true, false]);
    // two old entries share key 5: only one can be reused
    let plan = plan_each_update(&vec![5, 7, 5], &vec![5]);
    let unused = unreused_entries(3, &plan.placements);
    assert_eq!(unused.iter().filter(|u| !**u).count(), 1);
    assert!(unused[1]);
}

#[test]
fn duplicates_are_unmounted_before_placing() {
    let dom = run_plan(&["a", "b", "c"], vec![5, 7, 5], vec![7, 5], &["", ""]);
    assert_eq!(dom.len(), 2);
    assert_eq!(dom[0], "b");
}
