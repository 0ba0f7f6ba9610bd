use rand::rngs::StdRng;
use rand::SeedableRng;
use roommates::{find_solutions, select_best, solve, Constraints, MatchKind, PairingError, Solution};

fn names(list: &[&str]) -> Vec<String> {
    list.iter().map(|s| s.to_string()).collect()
}

fn mapping(entries: &[(&str, &[&str], &[&str])]) -> Constraints {
    let mut cs = Constraints::new();
    for (name, preferred, unpreferred) in entries {
        cs.insert(name.to_string(), names(preferred), names(unpreferred));
    }
    cs
}

fn same_room(sol: &Solution, a: &str, b: &str) -> bool {
    sol.result
        .iter()
        .any(|(x, y)| (x == a && y == b) || (x == b && y == a))
}

fn occupants_sorted(sol: &Solution) -> Vec<String> {
    let mut all: Vec<String> = vec![];
    for (x, y) in &sol.result {
        all.push(x.clone());
        all.push(y.clone());
    }
    all.sort();
    all
}

#[test]
fn mutual_preferences_always_win() {
    let cs = mapping(&[
        ("A", &["B"], &[]),
        ("B", &["A"], &[]),
        ("C", &["D"], &[]),
        ("D", &["C"], &[]),
    ]);
    for seed in 0..20u64 {
        let mut rng = StdRng::seed_from_u64(seed);
        let sol = solve(names(&["A", "B", "C", "D"]), &cs, &mut rng).unwrap();
        assert_eq!(sol.preferred, 2);
        assert_eq!(sol.accepted, 0);
        assert_eq!(sol.unpreferred, 0);
        assert!(same_room(&sol, "A", "B"));
        assert!(same_room(&sol, "C", "D"));
    }
}

#[test]
fn mutual_rejection_is_forced() {
    let cs = mapping(&[("A", &[], &["B"]), ("B", &[], &["A"])]);
    let mut rng = StdRng::seed_from_u64(7);
    let sol = solve(names(&["A", "B"]), &cs, &mut rng).unwrap();
    assert_eq!(sol.preferred, 0);
    assert_eq!(sol.accepted, 0);
    assert_eq!(sol.unpreferred, 1);
    assert!(same_room(&sol, "A", "B"));
    assert_eq!(sol.kinds, vec![MatchKind::Unpreferred]);
}

#[test]
fn one_sided_rejection_is_forced_too() {
    let cs = mapping(&[("A", &["B"], &[]), ("B", &[], &["A"])]);
    let mut rng = StdRng::seed_from_u64(3);
    let sol = solve(names(&["A", "B"]), &cs, &mut rng).unwrap();
    assert_eq!((sol.preferred, sol.accepted, sol.unpreferred), (0, 0, 1));
}

#[test]
fn one_sided_preference_is_only_accepted() {
    let cs = mapping(&[("A", &["B"], &[]), ("B", &[], &[])]);
    let mut rng = StdRng::seed_from_u64(11);
    let sol = solve(names(&["A", "B"]), &cs, &mut rng).unwrap();
    assert_eq!((sol.preferred, sol.accepted, sol.unpreferred), (0, 1, 0));
    assert_eq!(sol.kinds, vec![MatchKind::Accepted]);
}

#[test]
fn single_person_has_no_partner() {
    let cs = mapping(&[("A", &[], &[])]);
    let mut rng = StdRng::seed_from_u64(1);
    let r = solve(names(&["A"]), &cs, &mut rng);
    assert!(matches!(r, Err(PairingError::InsufficientPopulation)));
}

#[test]
fn odd_population_fails() {
    let cs = mapping(&[("A", &[], &[]), ("B", &[], &[]), ("C", &[], &[])]);
    let mut rng = StdRng::seed_from_u64(2);
    let r = solve(names(&["A", "B", "C"]), &cs, &mut rng);
    assert!(matches!(r, Err(PairingError::InsufficientPopulation)));
}

#[test]
fn empty_population_gives_empty_pairing() {
    let cs = Constraints::new();
    let mut rng = StdRng::seed_from_u64(5);
    let sol = solve(vec![], &cs, &mut rng).unwrap();
    assert!(sol.result.is_empty());
    assert_eq!((sol.preferred, sol.accepted, sol.unpreferred), (0, 0, 0));
}

#[test]
fn person_without_entry_is_missing() {
    let cs = mapping(&[("A", &[], &[])]);
    let mut rng = StdRng::seed_from_u64(5);
    let r = solve(names(&["A", "B"]), &cs, &mut rng);
    assert!(matches!(r, Err(PairingError::MissingConstraint)));
}

#[test]
fn reference_outside_population_is_missing() {
    let cs = mapping(&[("A", &["Z"], &[]), ("B", &[], &[])]);
    let mut rng = StdRng::seed_from_u64(5);
    let r = solve(names(&["A", "B"]), &cs, &mut rng);
    assert!(matches!(r, Err(PairingError::MissingConstraint)));
    let cs = mapping(&[("A", &[], &[]), ("B", &[], &["Y"])]);
    let r = solve(names(&["A", "B"]), &cs, &mut rng);
    assert!(matches!(r, Err(PairingError::MissingConstraint)));
}

#[test]
fn everyone_is_roomed_exactly_once() {
    let people = names(&["A", "B", "C", "D", "E", "F", "G", "H"]);
    let cs = mapping(&[
        ("A", &["B", "C"], &["H"]),
        ("B", &["A"], &[]),
        ("C", &["D"], &["A"]),
        ("D", &["C"], &[]),
        ("E", &[], &["F", "G"]),
        ("F", &[], &["E"]),
        ("G", &["H"], &["E"]),
        ("H", &[], &["A"]),
    ]);
    for seed in 0..30u64 {
        let mut rng = StdRng::seed_from_u64(seed);
        let sol = solve(people.clone(), &cs, &mut rng).unwrap();
        assert_eq!(sol.result.len(), 4);
        assert_eq!(sol.kinds.len(), 4);
        assert_eq!(sol.preferred + sol.accepted + sol.unpreferred, 4);
        let mut sorted = people.clone();
        sorted.sort();
        assert_eq!(occupants_sorted(&sol), sorted);
    }
}

#[test]
fn counted_kinds_hold_of_their_rooms() {
    let people = names(&["A", "B", "C", "D", "E", "F"]);
    let cs = mapping(&[
        ("A", &["B"], &["C"]),
        ("B", &["A", "C"], &[]),
        ("C", &["B"], &["A", "D"]),
        ("D", &[], &["C", "E"]),
        ("E", &["F"], &["D"]),
        ("F", &["E"], &[]),
    ]);
    let rejects = |a: &str, b: &str| -> bool {
        match (a, b) {
            ("A", "C") | ("C", "A") | ("C", "D") | ("D", "C") | ("D", "E") | ("E", "D") => true,
            _ => false,
        }
    };
    for seed in 0..30u64 {
        let mut rng = StdRng::seed_from_u64(seed);
        let sol = solve(people.clone(), &cs, &mut rng).unwrap();
        for (k, (x, y)) in sol.result.iter().enumerate() {
            match sol.kinds[k] {
                MatchKind::Preferred => assert!(
                    (x == "A" && y == "B") || (x == "B" && y == "A") || (x == "B" && y == "C")
                        || (x == "C" && y == "B") || (x == "E" && y == "F") || (x == "F" && y == "E")
                ),
                MatchKind::Accepted => assert!(!rejects(x, y)),
                MatchKind::Unpreferred => {}
            }
        }
        let count = |kind: MatchKind| sol.kinds.iter().filter(|k| **k == kind).count();
        assert_eq!(sol.preferred, count(MatchKind::Preferred));
        assert_eq!(sol.accepted, count(MatchKind::Accepted));
        assert_eq!(sol.unpreferred, count(MatchKind::Unpreferred));
    }
}

#[test]
fn same_seed_same_pairing() {
    let people = names(&["A", "B", "C", "D", "E", "F"]);
    let cs = mapping(&[
        ("A", &[], &[]),
        ("B", &[], &[]),
        ("C", &[], &[]),
        ("D", &[], &[]),
        ("E", &[], &[]),
        ("F", &[], &[]),
    ]);
    for seed in 0..10u64 {
        let first = solve(people.clone(), &cs, &mut StdRng::seed_from_u64(seed)).unwrap();
        let second = solve(people.clone(), &cs, &mut StdRng::seed_from_u64(seed)).unwrap();
        assert_eq!(first.result, second.result);
        assert_eq!(first.kinds, second.kinds);
    }
}

#[test]
fn shuffle_varies_who_goes_first() {
    let people = names(&["A", "B", "C", "D", "E", "F"]);
    let cs = mapping(&[
        ("A", &[], &[]),
        ("B", &[], &[]),
        ("C", &[], &[]),
        ("D", &[], &[]),
        ("E", &[], &[]),
        ("F", &[], &[]),
    ]);
    let mut firsts: Vec<String> = vec![];
    for seed in 0..40u64 {
        let sol = solve(people.clone(), &cs, &mut StdRng::seed_from_u64(seed)).unwrap();
        firsts.push(sol.result[0].0.clone());
    }
    firsts.sort();
    firsts.dedup();
    assert!(firsts.len() > 1);
}

fn sample(preferred: usize, accepted: usize, unpreferred: usize, tag: &str) -> Solution {
    Solution {
        result: vec![(tag.to_string(), tag.to_string())],
        kinds: vec![],
        preferred,
        accepted,
        unpreferred,
    }
}

#[test]
fn select_best_of_nothing_fails() {
    let mut rng = StdRng::seed_from_u64(0);
    let none: Vec<Solution> = vec![];
    let r = select_best(&none, &mut rng);
    assert!(matches!(r, Err(PairingError::EmptyInput)));
}

#[test]
fn select_best_prefers_preferred_then_accepted() {
    let sols = vec![
        sample(1, 3, 0, "a"),
        sample(2, 0, 2, "b"),
        sample(2, 1, 1, "c"),
        sample(0, 4, 0, "d"),
    ];
    for seed in 0..10u64 {
        let mut rng = StdRng::seed_from_u64(seed);
        let best = select_best(&sols, &mut rng).unwrap();
        assert_eq!(best.result[0].0, "c");
        assert_eq!((best.preferred, best.accepted), (2, 1));
    }
}

#[test]
fn select_best_breaks_ties_among_the_best_only() {
    let sols = vec![
        sample(3, 1, 0, "a"),
        sample(3, 1, 0, "b"),
        sample(3, 0, 1, "c"),
        sample(1, 3, 0, "d"),
    ];
    let mut seen: Vec<String> = vec![];
    for seed in 0..40u64 {
        let mut rng = StdRng::seed_from_u64(seed);
        let best = select_best(&sols, &mut rng).unwrap();
        assert!(best.result[0].0 == "a" || best.result[0].0 == "b");
        seen.push(best.result[0].0.clone());
    }
    seen.sort();
    seen.dedup();
    assert_eq!(seen, vec!["a".to_string(), "b".to_string()]);
}

#[test]
fn select_best_of_one() {
    let sols = vec![sample(0, 0, 5, "only")];
    let mut rng = StdRng::seed_from_u64(9);
    let best = select_best(&sols, &mut rng).unwrap();
    assert_eq!(best.result[0].0, "only");
}

#[test]
fn find_solutions_counts() {
    let cs = mapping(&[("A", &["B"], &[]), ("B", &["A"], &[])]);
    let people = names(&["A", "B"]);
    let mut rng = StdRng::seed_from_u64(4);
    assert_eq!(find_solutions(0, &people, &cs, &mut rng).unwrap().len(), 0);
    assert_eq!(find_solutions(-3, &people, &cs, &mut rng).unwrap().len(), 0);
    let sols = find_solutions(5, &people, &cs, &mut rng).unwrap();
    assert_eq!(sols.len(), 5);
    assert!(sols.iter().all(|s| s.preferred == 1));
}

#[test]
fn find_solutions_passes_errors_on() {
    let cs = mapping(&[("A", &[], &[])]);
    let mut rng = StdRng::seed_from_u64(4);
    let r = find_solutions(3, &names(&["A"]), &cs, &mut rng);
    assert!(matches!(r, Err(PairingError::InsufficientPopulation)));
    let r = find_solutions(3, &names(&["A", "B"]), &cs, &mut rng);
    assert!(matches!(r, Err(PairingError::MissingConstraint)));
}

#[test]
fn insert_replaces_an_entry() {
    let mut cs = mapping(&[("A", &[], &["B"]), ("B", &[], &[])]);
    assert_eq!(cs.len(), 2);
    cs.insert("A".to_string(), names(&["B"]), vec![]);
    cs.insert("B".to_string(), names(&["A"]), vec![]);
    assert_eq!(cs.len(), 2);
    let mut rng = StdRng::seed_from_u64(8);
    let sol = solve(names(&["A", "B"]), &cs, &mut rng).unwrap();
    assert_eq!(sol.preferred, 1);
}
