use dag_execution::dag::{Certificate, Dag};
use dag_execution::linkage::{frontier_step, linked};

/// A digest scheme for test DAGs: unique per (round, origin).
fn digest_of(round: u64, origin: u64) -> u64 {
    round * 1000 + origin
}

fn certificate(round: u64, origin: u64, parents: Vec<u64>) -> Certificate {
    Certificate { origin, round, digest: digest_of(round, origin), parents }
}

/// Builds a DAG over rounds `0..=last_round` for `committee_size` authorities
/// where every certificate references all certificates of the previous round.
fn full_dag(committee_size: u64, last_round: u64) -> Dag {
    let mut dag = Dag::new();
    for r in 0..=last_round {
        let parents: Vec<u64> = if r == 0 {
            Vec::new()
        } else {
            (0..committee_size).map(|o| digest_of(r - 1, o)).collect()
        };
        let certs: Vec<Certificate> =
            (0..committee_size).map(|o| certificate(r, o, parents.clone())).collect();
        dag.insert(r, certs);
    }
    dag
}

#[test]
fn full_history_is_linked() {
    let dag = full_dag(4, 6);
    let prev_leader = certificate(1, 2, (0..4).map(|o| digest_of(0, o)).collect());
    let leader = certificate(5, 1, (0..4).map(|o| digest_of(4, o)).collect());
    assert!(linked(&leader, &prev_leader, &dag));
}

#[test]
fn equal_rounds_link_iff_same_certificate() {
    let dag = full_dag(4, 6);
    let parents: Vec<u64> = (0..4).map(|o| digest_of(2, o)).collect();
    let a = certificate(3, 0, parents.clone());
    let b = certificate(3, 1, parents);
    assert!(linked(&a, &a, &dag));
    assert!(!linked(&a, &b, &dag));
}

#[test]
fn unreferenced_certificate_is_not_linked() {
    // rounds 0..=2 fully connected for 4 authorities
    let mut dag = Dag::new();
    let committee: u64 = 4;
    for r in 0..=2u64 {
        let parents: Vec<u64> = if r == 0 {
            Vec::new()
        } else {
            (0..committee).map(|o| digest_of(r - 1, o)).collect()
        };
        let certs: Vec<Certificate> =
            (0..committee).map(|o| certificate(r, o, parents.clone())).collect();
        dag.insert(r, certs);
    }
    // authority 3's certificate is dropped from round 3, and round 4
    // references only the three that remain
    let parents3: Vec<u64> = (0..committee).map(|o| digest_of(2, o)).collect();
    let round3: Vec<Certificate> =
        (0..3u64).map(|o| certificate(3, o, parents3.clone())).collect();
    dag.insert(3, round3);
    let parents4: Vec<u64> = (0..3u64).map(|o| digest_of(3, o)).collect();
    let round4: Vec<Certificate> =
        (0..committee).map(|o| certificate(4, o, parents4.clone())).collect();
    dag.insert(4, round4);

    // the dropped certificate is the only round-3 vertex of authority 3, so
    // a leader drawn from round 4 cannot reach it
    let dropped = certificate(3, 3, parents3.clone());
    let leader = certificate(4, 0, parents4.clone());
    assert!(!linked(&leader, &dropped, &dag));
    // the surviving certificates of round 3 stay reachable
    let kept = certificate(3, 1, parents3);
    assert!(linked(&leader, &kept, &dag));
}

#[test]
fn genesis_is_reachable() {
    let dag = full_dag(4, 3);
    let genesis = certificate(0, 0, Vec::new());
    let leader = certificate(3, 2, (0..4).map(|o| digest_of(2, o)).collect());
    assert!(linked(&leader, &genesis, &dag));
}

#[test]
fn dag_lookup_reports_absent_rounds() {
    let mut dag = Dag::new();
    assert!(dag.get(0).is_none());
    let certs = vec![certificate(0, 0, Vec::new())];
    dag.insert(0, certs);
    let stored = dag.get(0).expect("round 0 was inserted");
    assert_eq!(stored.len(), 1);
    assert_eq!(stored[0].digest, digest_of(0, 0));
    assert!(dag.get(1).is_none());
}

#[test]
fn insert_overwrites_a_round() {
    let mut dag = Dag::new();
    dag.insert(0, vec![certificate(0, 0, Vec::new())]);
    dag.insert(0, vec![certificate(0, 1, Vec::new()), certificate(0, 2, Vec::new())]);
    let stored = dag.get(0).expect("round 0 was inserted");
    assert_eq!(stored.len(), 2);
    assert_eq!(stored[0].origin, 1);
}

#[test]
fn frontier_step_selects_referenced_certificates() {
    let round2: Vec<Certificate> =
        (0..4u64).map(|o| certificate(2, o, Vec::new())).collect();
    // a frontier member referencing only authorities 1 and 3 of round 2
    let leader = certificate(3, 0, vec![digest_of(2, 1), digest_of(2, 3)]);
    let frontier = vec![&leader];
    let next = frontier_step(&frontier, &round2);
    assert!(next.len() <= round2.len());
    let digests: Vec<u64> = next.iter().map(|c| c.digest).collect();
    assert_eq!(digests, vec![digest_of(2, 1), digest_of(2, 3)]);
}
