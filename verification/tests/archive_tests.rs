use mopso_cli::archive::{
    constraint_dominance, dominance, is_better, leader_fitness, merge_nondominated, personal_best_update,
    roulette_pick, BestUpdate,
    Archive, CDRelation, Dominance, ObjectiveComparison,
};

use ObjectiveComparison::{Better, Tied, Worse};

#[test]
fn dominance_from_objective_comparisons() {
    assert_eq!(dominance(true, &[Better, Tied]), Dominance::Dominates);
    assert_eq!(dominance(true, &[Worse, Tied]), Dominance::Dominated);
    assert_eq!(dominance(true, &[Better, Worse]), Dominance::Nondominated);
    assert_eq!(dominance(true, &[Tied, Tied]), Dominance::Nondominated);
    assert_eq!(dominance(true, &[]), Dominance::Nondominated);
    assert_eq!(dominance(false, &[Better]), Dominance::Incomparable);
}

#[test]
fn dominance_seen_from_the_other_side() {
    let cases: Vec<Vec<ObjectiveComparison>> =
        vec![vec![Better, Tied], vec![Worse, Worse], vec![Better, Worse], vec![Tied]];
    for c in cases {
        let flipped: Vec<ObjectiveComparison> = c
            .iter()
            .map(|x| match x {
                Better => Worse,
                Worse => Better,
                Tied => Tied,
            })
            .collect();
        let d = dominance(true, &c);
        let e = dominance(true, &flipped);
        let expected = match d {
            Dominance::Dominates => Dominance::Dominated,
            Dominance::Dominated => Dominance::Dominates,
            other => other,
        };
        assert_eq!(e, expected);
    }
}

#[test]
fn constraint_dominance_cases() {
    assert_eq!(constraint_dominance(true, true, Dominance::Dominates, Tied), CDRelation::Dominates);
    assert_eq!(constraint_dominance(true, true, Dominance::Incomparable, Tied), CDRelation::Nondominated);
    assert_eq!(constraint_dominance(true, false, Dominance::Dominated, Worse), CDRelation::Dominates);
    assert_eq!(constraint_dominance(false, true, Dominance::Dominates, Better), CDRelation::Dominated);
    assert_eq!(constraint_dominance(false, false, Dominance::Dominates, Worse), CDRelation::Dominated);
    assert_eq!(constraint_dominance(false, false, Dominance::Dominated, Tied), CDRelation::Equal);
}

#[test]
fn is_better_cases() {
    assert!(is_better(true, true, Dominance::Dominates, false));
    assert!(!is_better(true, true, Dominance::Nondominated, true));
    assert!(is_better(true, false, Dominance::Dominated, false));
    assert!(!is_better(false, true, Dominance::Dominates, true));
    assert!(is_better(false, false, Dominance::Dominated, true));
    assert!(!is_better(false, false, Dominance::Dominates, false));
}

#[test]
fn try_add_rejects_a_dominated_solution() {
    let mut a: Archive<&str> = Archive::new(10, 20);
    assert!(a.try_add("p", &[], 2, &[0]));
    assert!(!a.try_add("q", &[CDRelation::Dominated], 2, &[]));
    assert_eq!(a.members, vec!["p"]);
}

#[test]
fn try_add_drives_out_dominated_members() {
    let mut a: Archive<&str> = Archive::new(10, 20);
    a.members = vec!["a", "b", "c", "d"];
    let rels = [CDRelation::Dominates, CDRelation::Nondominated, CDRelation::Dominates, CDRelation::Equal];
    assert!(a.try_add("x", &rels, 2, &[0, 1, 2]));
    assert_eq!(a.members, vec!["b", "d", "x"]);
    assert_eq!(a.capacity, 10);
}

#[test]
fn try_add_prunes_back_to_capacity() {
    let mut a: Archive<&str> = Archive::new(1, 20);
    a.members = vec!["m"];
    // Two members have the same (infinite) crowding distance, so the ranking keeps
    // their order and the older member leaves.
    assert!(a.try_add("x", &[CDRelation::Nondominated], 2, &[0, 1]));
    assert_eq!(a.members, vec!["x"]);
    assert_eq!(a.members.len(), a.capacity);
}

#[test]
fn try_add_without_objectives_drops_the_last() {
    let mut a: Archive<&str> = Archive::new(2, 20);
    a.members = vec!["a", "b"];
    assert!(a.try_add("x", &[CDRelation::Nondominated, CDRelation::Equal], 0, &[]));
    assert_eq!(a.members, vec!["a", "b"]);
}

#[test]
fn try_add_refused_leaves_an_overfull_archive_alone() {
    let mut a: Archive<u32> = Archive::new(1, 20);
    a.members = vec![1, 2, 3];
    let rels = [CDRelation::Nondominated, CDRelation::Dominated, CDRelation::Nondominated];
    assert!(!a.try_add(9, &rels, 2, &[]));
    assert_eq!(a.members, vec![1, 2, 3]);
}

#[test]
fn insert_unpruned_ignores_the_capacity() {
    let mut a: Archive<&str> = Archive::new(1, 20);
    a.members = vec!["m"];
    assert!(a.insert_unpruned("x", &[CDRelation::Nondominated]));
    assert_eq!(a.members, vec!["m", "x"]);
    assert!(!a.insert_unpruned("y", &[CDRelation::Dominated, CDRelation::Equal]));
    assert_eq!(a.members, vec!["m", "x"]);
}

#[test]
fn survivors_lists_the_members_that_stay() {
    let mut a: Archive<&str> = Archive::new(10, 20);
    a.members = vec!["a", "b", "c", "d"];
    let rels = [CDRelation::Dominates, CDRelation::Nondominated, CDRelation::Dominates, CDRelation::Equal];
    assert_eq!(a.survivors(&rels), Some(vec![1, 3]));
    let refused = [CDRelation::Nondominated, CDRelation::Dominated, CDRelation::Dominates, CDRelation::Equal];
    assert_eq!(a.survivors(&refused), None);
    assert_eq!(a.survivors(&[CDRelation::Equal; 4]), Some(vec![0, 1, 2, 3]));
}

#[test]
fn prune_removes_the_most_crowded() {
    let mut a: Archive<u32> = Archive::new(3, 20);
    a.members = vec![10, 11, 12, 13, 14];
    a.prune(2, &[3, 0, 4, 1, 2]);
    assert_eq!(a.members, vec![11, 12, 14]);
}

#[test]
fn prune_without_objectives_drops_the_last() {
    let mut a: Archive<u32> = Archive::new(2, 20);
    a.members = vec![1, 2, 3, 4];
    a.prune(0, &[0, 1, 2, 3]);
    assert_eq!(a.members, vec![1, 2]);
}

#[test]
fn prune_within_capacity_does_nothing() {
    let mut a: Archive<u32> = Archive::new(5, 20);
    a.members = vec![1, 2, 3];
    a.prune(2, &[0, 1, 2]);
    assert_eq!(a.members, vec![1, 2, 3]);
}

#[test]
fn verify_nondominated_reads_the_matrix() {
    let mut a: Archive<u8> = Archive::new(5, 20);
    a.members = vec![0, 1];
    let good = vec![
        vec![CDRelation::Dominates, CDRelation::Nondominated],
        vec![CDRelation::Nondominated, CDRelation::Equal],
    ];
    assert!(a.verify_nondominated(&good));
    let bad = vec![
        vec![CDRelation::Equal, CDRelation::Nondominated],
        vec![CDRelation::Dominates, CDRelation::Equal],
    ];
    assert!(!a.verify_nondominated(&bad));
}

#[test]
fn merge_keeps_the_nondominated() {
    // 0 is dominated by 1; 2 and 1 are non-dominated; 3 is dominated by 2.
    let (eq, dd, nd, dm) =
        (CDRelation::Equal, CDRelation::Dominated, CDRelation::Nondominated, CDRelation::Dominates);
    let m = vec![vec![eq, dd, nd, nd], vec![dm, eq, nd, nd], vec![nd, nd, eq, dm], vec![nd, nd, dd, eq]];
    assert_eq!(merge_nondominated(&m), vec![1, 2]);
    assert_eq!(merge_nondominated(&[]), Vec::<usize>::new());
}

#[test]
fn leader_fitness_favours_sparse_cells() {
    let cells = vec![vec![0, 0], vec![0, 0], vec![0, 0], vec![1, 2], vec![3, 3], vec![1, 2]];
    assert_eq!(leader_fitness(&cells), vec![1, 1, 1, 2, 3, 2]);
    assert_eq!(leader_fitness(&[]), Vec::<usize>::new());
}

#[test]
fn roulette_pick_first_reaching_the_ticket() {
    let w = [1, 2, 3];
    assert_eq!(roulette_pick(&w, 0), Some(0));
    assert_eq!(roulette_pick(&w, 1), Some(0));
    assert_eq!(roulette_pick(&w, 2), Some(1));
    assert_eq!(roulette_pick(&w, 3), Some(1));
    assert_eq!(roulette_pick(&w, 4), Some(2));
    assert_eq!(roulette_pick(&w, 100), Some(2));
    assert_eq!(roulette_pick(&[], 1), None);
}

#[test]
fn select_leader_small_archives() {
    let mut a: Archive<u8> = Archive::new(5, 20);
    assert_eq!(a.select_leader(&[], 3), None);
    a.members = vec![7];
    assert_eq!(a.select_leader(&[1], 3), Some(0));
    a.members = vec![7, 8];
    assert_eq!(a.select_leader(&[1, 1], 2), Some(1));
}

#[test]
fn personal_best_updates() {
    assert_eq!(personal_best_update(true, Dominance::Dominated), BestUpdate::Replace);
    assert_eq!(personal_best_update(false, Dominance::Nondominated), BestUpdate::ReplaceOnCoin);
    assert_eq!(personal_best_update(false, Dominance::Dominated), BestUpdate::Keep);
    assert_eq!(personal_best_update(false, Dominance::Incomparable), BestUpdate::Keep);
}

#[test]
fn tied_solutions_do_not_dominate_each_other() {
    let d = dominance(true, &[Tied, Tied, Tied]);
    assert_eq!(d, Dominance::Nondominated);
    assert_eq!(constraint_dominance(true, true, d, Tied), CDRelation::Nondominated);
    assert_eq!(constraint_dominance(false, false, d, Tied), CDRelation::Equal);
}
