use rand::rngs::StdRng;
use rand::SeedableRng;
use forward_sim::ancestry::{EdgeRecord, Pending, NULL_NODE};
use forward_sim::diploid::{
    births, dead_slots, death_and_parents, deaths_from_draws, Diploid, Parents, SimParams,
};
use forward_sim::models::{
    add_founders, moran_event, moran_step, overlapping_apply, overlapping_step, should_simplify,
    MoranEvent,
};
use forward_sim::recombination::{crossover_and_record_edges, crossover_and_record_edges_details};
use forward_sim::partition::{partition_replicates, Batch};
use forward_sim::remap::{remap_diploids, remap_nodes, sample_nodes, RemapError};
use forward_sim::seeding::make_unique_seeds;
use forward_sim::survival::{BadParameter, Survival};

fn params(popsize: u32, numerator: u32, denominator: u32, genome_length: u64) -> SimParams {
    SimParams {
        popsize,
        nsteps: 10,
        psurvival: Survival { numerator, denominator },
        genome_length,
        simplification_interval: 10,
    }
}

fn seeded(seed: u64) -> StdRng {
    StdRng::seed_from_u64(seed)
}

fn node_time(pending: &Pending, id: i32) -> u32 {
    pending.node_times[(id - pending.first_node) as usize]
}

#[test]
fn unique_seeds_have_requested_count_and_no_duplicates() {
    for k in [0usize, 1, 2, 10, 500] {
        let seeds = make_unique_seeds(42, k);
        assert_eq!(seeds.len(), k);
        let mut sorted = seeds.clone();
        sorted.sort();
        sorted.dedup();
        assert_eq!(sorted.len(), k);
        assert!(seeds.iter().all(|s| *s < u64::MAX));
    }
}

#[test]
fn unique_seeds_are_deterministic() {
    assert_eq!(make_unique_seeds(7, 20), make_unique_seeds(7, 20));
    assert_ne!(make_unique_seeds(7, 20), make_unique_seeds(8, 20));
}

#[test]
fn parse_accepts_probabilities_below_one() {
    assert_eq!(Survival::parse(b"0.9"), Ok(Survival { numerator: 9, denominator: 10 }));
    assert_eq!(Survival::parse(b"0"), Ok(Survival { numerator: 0, denominator: 1 }));
    assert_eq!(Survival::parse(b"0.0"), Ok(Survival { numerator: 0, denominator: 10 }));
    assert_eq!(Survival::parse(b"00.25"), Ok(Survival { numerator: 25, denominator: 100 }));
    assert_eq!(
        Survival::parse(b"0.999999999"),
        Ok(Survival { numerator: 999_999_999, denominator: 1_000_000_000 })
    );
}

#[test]
fn parse_rejects_survival_of_one_and_a_half() {
    assert_eq!(Survival::parse(b"1.5"), Err(BadParameter::OutOfRange));
    assert_eq!(Survival::parse(b"1"), Err(BadParameter::OutOfRange));
    assert_eq!(Survival::parse(b"1.0"), Err(BadParameter::OutOfRange));
    assert_eq!(Survival::parse(b"-0.1"), Err(BadParameter::OutOfRange));
    assert_eq!(Survival::parse(b"-0.5"), Err(BadParameter::OutOfRange));
}

#[test]
fn parse_rejects_malformed_and_too_precise_text() {
    for text in [&b""[..], b"-", b"-x", b"--0.5", b".5", b"0.", b"abc", b"0.5x", b"0..5", b"NaN"] {
        assert_eq!(Survival::parse(text), Err(BadParameter::Malformed));
    }
    assert_eq!(Survival::parse(b"0.1234567891"), Err(BadParameter::TooPrecise));
}

#[test]
fn validate_checks_each_parameter() {
    assert_eq!(SimParams::default().validate(), Ok(()));
    assert_eq!(params(10, 3, 2, 100).validate(), Err(BadParameter::OutOfRange));
    assert_eq!(params(10, 1, 1, 100).validate(), Err(BadParameter::OutOfRange));
    assert_eq!(params(10, 0, 0, 100).validate(), Err(BadParameter::OutOfRange));
    assert_eq!(params(0, 0, 1, 100).validate(), Err(BadParameter::EmptyPopulation));
    assert_eq!(params(10, 0, 1, 0).validate(), Err(BadParameter::EmptyGenome));
    let mut p = params(10, 0, 1, 100);
    p.simplification_interval = 0;
    assert_eq!(p.validate(), Err(BadParameter::ZeroInterval));
}

#[test]
fn default_parameters() {
    let p = SimParams::default();
    assert_eq!(p.popsize, 1000);
    assert_eq!(p.nsteps, 1000);
    assert_eq!(p.psurvival, Survival { numerator: 0, denominator: 1 });
    assert_eq!(p.genome_length, 1_000_000);
    assert_eq!(p.simplification_interval, 100);
}

#[test]
fn simplify_steps_are_multiples_of_the_interval() {
    assert!(should_simplify(0, 10));
    assert!(should_simplify(20, 10));
    assert!(!should_simplify(21, 10));
}

#[test]
fn founders_get_consecutive_ids() {
    let mut pending = Pending::new(5);
    let ids = add_founders(&mut pending, 3, 7);
    assert_eq!(ids, vec![5, 6, 7]);
    assert_eq!(pending.node_times, vec![7, 7, 7]);
    assert!(pending.edges.is_empty());
}

#[test]
fn moran_four_individuals_ten_steps_seed_one() {
    let nsteps: u32 = 10;
    let mut rng = seeded(1);
    let mut pending = Pending::new(0);
    let mut alive = add_founders(&mut pending, 4, nsteps);
    for step in (0..nsteps).rev() {
        let before = alive.clone();
        let ev = moran_step(&mut alive, step, 1, &mut pending, &mut rng);
        assert!(ev.dead < 4 && ev.replace < 4);
        if ev.dead == ev.replace {
            assert_eq!(alive, before);
        } else {
            let e = *pending.edges.last().unwrap();
            assert_eq!(e.parent, before[ev.replace]);
            assert_eq!(alive[ev.dead], e.child);
            assert!(node_time(&pending, e.parent) > node_time(&pending, e.child));
        }
    }
    assert_eq!(alive.len(), 4);
    for id in &alive {
        assert!(node_time(&pending, *id) <= nsteps);
    }
    for e in &pending.edges {
        assert_eq!((e.left, e.right), (0, 1));
        assert!(node_time(&pending, e.parent) > node_time(&pending, e.child));
    }
}

#[test]
fn wright_fisher_replaces_everyone_each_step() {
    let p = params(10, 0, 1, 1000);
    let mut rng = seeded(3);
    let mut pending = Pending::new(0);
    let mut alive = add_founders(&mut pending, 20, 50);
    for step in (0..50u32).rev() {
        let first = pending.first_node + pending.node_times.len() as i32;
        let edges_before = pending.edges.len();
        let deaths = overlapping_step(&mut alive, &p, step, &mut pending, &mut rng);
        assert_eq!(deaths, (0..10).collect::<Vec<usize>>());
        assert_eq!(pending.edges.len() - edges_before, 20);
        assert_eq!(alive, (first..first + 20).collect::<Vec<i32>>());
        for e in &pending.edges[edges_before..] {
            assert!(node_time(&pending, e.parent) > node_time(&pending, e.child));
        }
        if should_simplify(step, 10) {
            // A simplification that keeps exactly the samples numbers them 0..20.
            let total = pending.first_node as usize + pending.node_times.len();
            let mut idmap = vec![NULL_NODE; total];
            for (j, a) in alive.iter().enumerate() {
                idmap[*a as usize] = j as i32;
            }
            assert_eq!(remap_nodes(&mut alive, &idmap), Ok(()));
            assert_eq!(alive, (0..20).collect::<Vec<i32>>());
            assert!(pending.edges.len() <= 20 * 10);
            // The simplified table holds the 20 samples, born at this step.
            let mut fresh = Pending::new(0);
            add_founders(&mut fresh, 20, step);
            pending = fresh;
        }
    }
}

#[test]
fn overlapping_generations_keep_some_founders() {
    let p = params(100, 9, 10, 1000);
    let mut rng = seeded(11);
    let mut pending = Pending::new(0);
    let mut alive = add_founders(&mut pending, 200, 1000);
    let deaths = overlapping_step(&mut alive, &p, 999, &mut pending, &mut rng);
    assert!(deaths.len() < 100);
    let founders_left = alive.iter().filter(|a| **a < 200).count();
    assert_eq!(founders_left, 200 - 2 * deaths.len());
    assert!(founders_left > 0);
    for (r, slot) in deaths.iter().enumerate() {
        assert_eq!(alive[2 * slot], 200 + 2 * r as i32);
        assert_eq!(alive[2 * slot + 1], 201 + 2 * r as i32);
    }
    for i in 0..100 {
        assert_ne!(alive[2 * i], alive[2 * i + 1]);
    }
}

#[test]
fn no_crossover_gives_one_edge_over_the_genome() {
    let p = params(1, 0, 1, 100);
    let mut rng = seeded(5);
    let mut pending = Pending::new(10);
    let parent = Diploid { node0: 3, node1: 4 };
    crossover_and_record_edges_details(parent, 10, &vec![], &p, &mut pending, &mut rng);
    assert_eq!(pending.edges.len(), 1);
    let e = pending.edges[0];
    assert_eq!((e.left, e.right, e.child), (0, 100, 10));
    assert!(e.parent == 3 || e.parent == 4);
}

#[test]
fn crossovers_split_the_genome_into_alternating_spans() {
    let p = params(1, 0, 1, 10);
    let mut rng = seeded(5);
    let mut pending = Pending::new(10);
    let parent = Diploid { node0: 3, node1: 4 };
    let swapped =
        crossover_and_record_edges_details(parent, 10, &vec![3, 4, 50], &p, &mut pending, &mut rng);
    let (a, b) = if swapped { (4, 3) } else { (3, 4) };
    assert_eq!(
        pending.edges,
        vec![
            EdgeRecord { left: 0, right: 3, parent: a, child: 10 },
            EdgeRecord { left: 3, right: 7, parent: b, child: 10 },
            EdgeRecord { left: 7, right: 10, parent: a, child: 10 },
        ]
    );
}

#[test]
fn zero_gap_switches_copies_without_a_span() {
    let p = params(1, 0, 1, 10);
    let mut rng = seeded(9);
    let mut pending = Pending::new(0);
    let parent = Diploid { node0: 1, node1: 2 };
    let swapped =
        crossover_and_record_edges_details(parent, 0, &vec![5, 0, 2], &p, &mut pending, &mut rng);
    let a = if swapped { 2 } else { 1 };
    assert_eq!(
        pending.edges,
        vec![
            EdgeRecord { left: 0, right: 5, parent: a, child: 0 },
            EdgeRecord { left: 5, right: 7, parent: a, child: 0 },
            EdgeRecord { left: 7, right: 10, parent: 3 - a, child: 0 },
        ]
    );
}

#[test]
fn both_offspring_copies_get_edges() {
    let p = params(1, 0, 1, 10);
    let mut rng = seeded(2);
    let mut pending = Pending::new(20);
    let parents = Parents {
        index: 0,
        parent0: Diploid { node0: 1, node1: 2 },
        parent1: Diploid { node0: 3, node1: 4 },
    };
    crossover_and_record_edges(&parents, (20, 21), &vec![], &vec![5], &p, &mut pending, &mut rng);
    assert_eq!(pending.edges.len(), 3);
    assert_eq!(pending.edges[0].child, 20);
    assert!(pending.edges[0].parent == 1 || pending.edges[0].parent == 2);
    assert_eq!((pending.edges[1].left, pending.edges[1].right, pending.edges[1].child), (0, 5, 21));
    assert_eq!((pending.edges[2].left, pending.edges[2].right, pending.edges[2].child), (5, 10, 21));
    assert_ne!(pending.edges[1].parent, pending.edges[2].parent);
}

#[test]
fn everyone_dies_without_survival() {
    let p = params(3, 0, 1, 10);
    let mut rng = seeded(4);
    let alive = vec![
        Diploid { node0: 0, node1: 1 },
        Diploid { node0: 2, node1: 3 },
        Diploid { node0: 4, node1: 5 },
    ];
    let mut parents = Vec::new();
    death_and_parents(&alive, &p, &mut parents, &mut rng);
    assert_eq!(parents.iter().map(|x| x.index).collect::<Vec<_>>(), vec![0, 1, 2]);
    for x in &parents {
        assert!(alive.contains(&x.parent0) && alive.contains(&x.parent1));
    }
}

#[test]
fn births_fill_the_dead_slots() {
    let p = params(2, 0, 1, 10);
    let mut rng = seeded(6);
    let mut alive = vec![Diploid { node0: 0, node1: 1 }, Diploid { node0: 2, node1: 3 }];
    let parents = vec![Parents { index: 1, parent0: alive[0], parent1: alive[1] }];
    let mut pending = Pending::new(4);
    births(&parents, &vec![vec![], vec![]], &p, 5, &mut pending, &mut alive, &mut rng);
    assert_eq!(alive, vec![Diploid { node0: 0, node1: 1 }, Diploid { node0: 4, node1: 5 }]);
    assert_eq!(pending.node_times, vec![5, 5]);
    assert_eq!(pending.edges.len(), 2);
    assert_eq!(pending.edges[0].child, 4);
    assert!(pending.edges[0].parent == 0 || pending.edges[0].parent == 1);
    assert_eq!(pending.edges[1].child, 5);
    assert!(pending.edges[1].parent == 2 || pending.edges[1].parent == 3);
}

#[test]
fn remap_nodes_applies_the_map_or_reports_the_node() {
    let idmap = vec![NULL_NODE, 0, NULL_NODE, 1];
    let mut alive = vec![3, 1];
    assert_eq!(remap_nodes(&mut alive, &idmap), Ok(()));
    assert_eq!(alive, vec![1, 0]);
    let mut alive = vec![1, 2];
    assert_eq!(remap_nodes(&mut alive, &idmap), Err(RemapError::Removed { node: 2 }));
    assert_eq!(alive, vec![1, 2]);
    let mut alive = vec![1, 9];
    assert_eq!(remap_nodes(&mut alive, &idmap), Err(RemapError::Unknown { node: 9 }));
    let mut alive = vec![-1];
    assert_eq!(remap_nodes(&mut alive, &idmap), Err(RemapError::Unknown { node: -1 }));
}

#[test]
fn diploids_are_sampled_and_remapped() {
    let mut alive = vec![Diploid { node0: 7, node1: 4 }, Diploid { node0: 5, node1: 6 }];
    let samples = sample_nodes(&alive);
    assert_eq!(samples, vec![7, 4, 5, 6]);
    let mut idmap = vec![NULL_NODE; 8];
    for (j, s) in samples.iter().enumerate() {
        idmap[*s as usize] = j as i32;
    }
    assert_eq!(remap_diploids(&mut alive, &idmap), Ok(()));
    assert_eq!(alive, vec![Diploid { node0: 0, node1: 1 }, Diploid { node0: 2, node1: 3 }]);
    let mut alive = vec![Diploid { node0: 4, node1: 2 }];
    assert_eq!(remap_diploids(&mut alive, &idmap), Err(RemapError::Removed { node: 2 }));
    assert_eq!(alive, vec![Diploid { node0: 4, node1: 2 }]);
}

#[test]
fn same_seed_same_records() {
    let run = |seed: u64| {
        let p = params(20, 1, 2, 1000);
        let mut rng = seeded(seed);
        let mut pending = Pending::new(0);
        let mut alive = add_founders(&mut pending, 40, 20);
        for step in (0..20u32).rev() {
            overlapping_step(&mut alive, &p, step, &mut pending, &mut rng);
        }
        (alive, pending.node_times, pending.edges)
    };
    assert_eq!(run(99), run(99));
}

#[test]
fn replicates_split_in_contiguous_ranges_with_remainder_last() {
    assert_eq!(
        partition_replicates(10, 3),
        vec![Batch { start: 0, end: 3 }, Batch { start: 3, end: 6 }, Batch { start: 6, end: 10 }]
    );
    assert_eq!(partition_replicates(5, 1), vec![Batch { start: 0, end: 5 }]);
    assert_eq!(
        partition_replicates(2, 3),
        vec![Batch { start: 0, end: 0 }, Batch { start: 0, end: 0 }, Batch { start: 0, end: 2 }]
    );
}

#[test]
fn diploid_step_keeps_time_order_and_distinct_copies() {
    let p = params(5, 1, 2, 100);
    let mut rng = seeded(21);
    let mut pending = Pending::new(0);
    let ids = add_founders(&mut pending, 10, 30);
    let mut alive: Vec<Diploid> =
        (0..5).map(|i| Diploid { node0: ids[2 * i], node1: ids[2 * i + 1] }).collect();
    for step in (0..30u32).rev() {
        let mut parents = Vec::new();
        death_and_parents(&alive, &p, &mut parents, &mut rng);
        let gaps: Vec<Vec<u64>> = (0..2 * parents.len()).map(|k| vec![10 + k as u64, 30]).collect();
        let first_edge = pending.edges.len();
        births(&parents, &gaps, &p, step, &mut pending, &mut alive, &mut rng);
        for e in &pending.edges[first_edge..] {
            assert!(e.left < e.right && e.right <= 100);
            assert!(node_time(&pending, e.parent) > node_time(&pending, e.child));
            assert_eq!(node_time(&pending, e.child), step);
        }
        for a in &alive {
            assert_ne!(a.node0, a.node1);
        }
    }
}

#[test]
fn identity_map_leaves_population_unchanged() {
    let idmap: Vec<i32> = (0..6).collect();
    let mut alive = vec![4, 0, 5, 2];
    assert_eq!(remap_nodes(&mut alive, &idmap), Ok(()));
    assert_eq!(alive, vec![4, 0, 5, 2]);
    let mut diploids = vec![Diploid { node0: 1, node1: 3 }];
    assert_eq!(remap_diploids(&mut diploids, &idmap), Ok(()));
    assert_eq!(diploids, vec![Diploid { node0: 1, node1: 3 }]);
}

#[test]
fn dead_slots_are_the_failed_draws_in_order() {
    assert_eq!(dead_slots(&vec![true, false, false, true, false]), vec![1, 2, 4]);
    assert_eq!(dead_slots(&vec![true, true]), Vec::<usize>::new());
    assert_eq!(dead_slots(&vec![]), Vec::<usize>::new());
}

#[test]
fn moran_event_replaces_the_dead_slot() {
    let mut pending = Pending::new(4);
    let mut alive = vec![0, 1, 2, 3];
    moran_event(&mut alive, MoranEvent { dead: 1, replace: 3 }, 6, 1, &mut pending);
    assert_eq!(alive, vec![0, 4, 2, 3]);
    assert_eq!(pending.node_times, vec![6]);
    assert_eq!(pending.edges, vec![EdgeRecord { left: 0, right: 1, parent: 3, child: 4 }]);
}

#[test]
fn moran_event_with_equal_slots_changes_nothing() {
    let mut pending = Pending::new(4);
    let mut alive = vec![0, 1, 2, 3];
    moran_event(&mut alive, MoranEvent { dead: 2, replace: 2 }, 6, 1, &mut pending);
    assert_eq!(alive, vec![0, 1, 2, 3]);
    assert!(pending.node_times.is_empty() && pending.edges.is_empty());
}

#[test]
fn overlapping_apply_follows_the_draws() {
    let p = params(3, 1, 2, 50);
    let mut pending = Pending::new(6);
    let mut alive = vec![0, 1, 2, 3, 4, 5];
    let deaths = overlapping_apply(
        &mut alive,
        &p,
        8,
        &mut pending,
        &vec![true, false, true],
        &vec![2, 0],
        &vec![true, false],
    );
    assert_eq!(deaths, vec![1]);
    assert_eq!(alive, vec![0, 1, 6, 7, 4, 5]);
    assert_eq!(pending.node_times, vec![8, 8]);
    assert_eq!(
        pending.edges,
        vec![
            EdgeRecord { left: 0, right: 50, parent: 5, child: 6 },
            EdgeRecord { left: 0, right: 50, parent: 0, child: 7 },
        ]
    );
}

#[test]
fn deaths_follow_the_draws() {
    let alive = vec![
        Diploid { node0: 0, node1: 1 },
        Diploid { node0: 2, node1: 3 },
        Diploid { node0: 4, node1: 5 },
    ];
    let mut parents = Vec::new();
    deaths_from_draws(&alive, &vec![false, true, false], &vec![(2, 1), (0, 0)], &mut parents);
    assert_eq!(
        parents,
        vec![
            Parents { index: 0, parent0: alive[2], parent1: alive[1] },
            Parents { index: 2, parent0: alive[0], parent1: alive[0] },
        ]
    );
}
