use pingdom_uptime::rank::{name_le_exec, rank};
use pingdom_uptime::uptime::{reduce, UptimeStat};

fn stat(id: &str, name: &str) -> UptimeStat {
    reduce(id.to_string(), name.to_string(), &vec![])
}

fn ids(v: &[UptimeStat]) -> Vec<String> {
    v.iter().map(|s| s.id.clone()).collect()
}

#[test]
fn rank_sorts_by_name_and_keeps_ties_in_order() {
    let input = vec![stat("1", "b"), stat("2", "a"), stat("3", "b"), stat("4", "a"), stat("5", "c")];
    let out = rank(input);
    assert_eq!(ids(&out), vec!["2", "4", "1", "3", "5"]);
}

#[test]
fn rank_twice_is_rank_once() {
    let input = vec![stat("1", "Zeta"), stat("2", "alpha"), stat("3", "Beta"), stat("4", "Zeta")];
    let once = rank(input);
    let first = ids(&once);
    let twice = rank(once);
    assert_eq!(ids(&twice), first);
    assert_eq!(first, vec!["3", "1", "4", "2"]);
}

#[test]
fn rank_empty_and_single() {
    assert!(rank(Vec::new()).is_empty());
    assert_eq!(ids(&rank(vec![stat("9", "x")])), vec!["9"]);
}

#[test]
fn names_compare_byte_by_byte() {
    assert!(name_le_exec(&stat("1", "Alpha"), &stat("2", "Beta")));
    assert!(!name_le_exec(&stat("1", "Beta"), &stat("2", "Alpha")));
    assert!(name_le_exec(&stat("1", "Al"), &stat("2", "Alpha")));
    assert!(!name_le_exec(&stat("1", "Alpha"), &stat("2", "Al")));
    assert!(name_le_exec(&stat("1", "same"), &stat("2", "same")));
    assert!(name_le_exec(&stat("1", ""), &stat("2", "")));
    assert!(name_le_exec(&stat("1", "Z"), &stat("2", "a")));
    assert!(name_le_exec(&stat("1", "z"), &stat("2", "é")));
}
