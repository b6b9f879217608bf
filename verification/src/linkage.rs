//! Leader-linkage check: decides whether an earlier leader certificate is a
//! causal ancestor of a later one, by a backward frontier sweep over the
//! round-indexed DAG. The sweep is a pure function of the DAG contents: it
//! never mutates the DAG and keeps no state of its own.

use vstd::prelude::*;

use crate::dag::{certs_view, CertView, Certificate, Dag};

verus! {

/// `c` is one of the certificates stored at round `r` of the DAG.
pub open spec fn in_round(dag: Map<u64, Seq<CertView>>, r: u64, c: CertView) -> bool {
    dag.contains_key(r) && dag[r].contains(c)
}

/// Digest `d` occurs among the parent references of some member of `frontier`.
pub open spec fn referenced_by(frontier: Seq<CertView>, d: u64) -> bool {
    exists|i: int| 0 <= i < frontier.len() && frontier[i].parents.contains(d)
}

/// Membership in the backward sweep's frontier. Starting from `leader` alone
/// at level `hi`, the frontier at level `r` holds exactly the certificates
/// stored at round `r` whose digest is referenced as a parent by at least one
/// member of the frontier one level up.
pub open spec fn frontier_member(
    dag: Map<u64, Seq<CertView>>,
    leader: CertView,
    hi: u64,
    r: u64,
    c: CertView,
) -> bool
    decreases hi - r,
{
    if r >= hi {
        c == leader
    } else {
        in_round(dag, r, c) && exists|f: CertView|
            frontier_member(dag, leader, hi, (r + 1) as u64, f) && f.parents.contains(c.digest)
    }
}

/// `prev` is a causal ancestor of `leader` in the DAG: the backward sweep
/// from `leader.round` down to `prev.round` ends with `prev` in its frontier.
/// When the two rounds are equal this is simply `leader == prev`.
pub open spec fn linked_spec(
    dag: Map<u64, Seq<CertView>>,
    leader: CertView,
    prev: CertView,
) -> bool {
    frontier_member(dag, leader, leader.round, prev.round, prev)
}

/// A parent-reference path through the DAG that starts at `leader` (standing
/// at level `hi`): element `i`, for `i >= 1`, is stored at round `hi - i` and
/// its digest is referenced among the parents of element `i - 1`.
pub open spec fn is_parent_chain(
    dag: Map<u64, Seq<CertView>>,
    chain: Seq<CertView>,
    leader: CertView,
    hi: u64,
) -> bool {
    &&& 1 <= chain.len() <= hi + 1
    &&& chain[0] == leader
    &&& forall|i: int|
        1 <= i < chain.len() ==> in_round(dag, (hi - i) as u64, #[trigger] chain[i]) && chain[
            i - 1
        ].parents.contains(chain[i].digest)
}

/// The frontier at level `r` holds exactly the certificates that a
/// parent-reference chain of the matching length reaches from `leader`.
pub proof fn lemma_frontier_member_iff_chain(
    dag: Map<u64, Seq<CertView>>,
    leader: CertView,
    hi: u64,
    r: u64,
    c: CertView,
)
    requires
        r <= hi,
    ensures
        frontier_member(dag, leader, hi, r, c) <==> exists|chain: Seq<CertView>|
            is_parent_chain(dag, chain, leader, hi) && chain.len() == hi - r + 1 && chain.last()
                == c,
    decreases hi - r,
{
    if r == hi {
        if frontier_member(dag, leader, hi, r, c) {
            let chain = seq![c];
            assert(is_parent_chain(dag, chain, leader, hi) && chain.len() == hi - r + 1
                && chain.last() == c);
        }
        if exists|chain: Seq<CertView>|
            is_parent_chain(dag, chain, leader, hi) && chain.len() == hi - r + 1 && chain.last()
                == c {
            let chain = choose|chain: Seq<CertView>|
                is_parent_chain(dag, chain, leader, hi) && chain.len() == hi - r + 1
                    && chain.last() == c;
            assert(chain.last() == chain[0]);
        }
    } else {
        if frontier_member(dag, leader, hi, r, c) {
            let f = choose|f: CertView|
                frontier_member(dag, leader, hi, (r + 1) as u64, f) && f.parents.contains(c.digest);
            lemma_frontier_member_iff_chain(dag, leader, hi, (r + 1) as u64, f);
            let prefix = choose|chain: Seq<CertView>|
                is_parent_chain(dag, chain, leader, hi) && chain.len() == hi - (r + 1) + 1
                    && chain.last() == f;
            let chain = prefix.push(c);
            assert(is_parent_chain(dag, chain, leader, hi)) by {
                assert forall|i: int|
                    1 <= i < chain.len() implies in_round(dag, (hi - i) as u64, #[trigger] chain[i])
                    && chain[i - 1].parents.contains(chain[i].digest) by {
                    if i < chain.len() - 1 {
                        assert(chain[i] == prefix[i]);
                        assert(chain[i - 1] == prefix[i - 1]);
                    } else {
                        assert(chain[i] == c);
                        assert(chain[i - 1] == prefix.last());
                        assert(in_round(dag, r, c));
                    }
                }
            }
            assert(chain.len() == hi - r + 1 && chain.last() == c);
        }
        if exists|chain: Seq<CertView>|
            is_parent_chain(dag, chain, leader, hi) && chain.len() == hi - r + 1 && chain.last()
                == c {
            let chain = choose|chain: Seq<CertView>|
                is_parent_chain(dag, chain, leader, hi) && chain.len() == hi - r + 1
                    && chain.last() == c;
            let last = chain.len() - 1;
            assert(in_round(dag, (hi - last) as u64, chain[last]) && chain[
                last - 1
            ].parents.contains(chain[last].digest));
            let prefix = chain.drop_last();
            let f = prefix.last();
            assert(is_parent_chain(dag, prefix, leader, hi)) by {
                assert forall|i: int|
                    1 <= i < prefix.len() implies in_round(
                    dag,
                    (hi - i) as u64,
                    #[trigger] prefix[i],
                ) && prefix[i - 1].parents.contains(prefix[i].digest) by {
                    assert(prefix[i] == chain[i]);
                    assert(prefix[i - 1] == chain[i - 1]);
                }
            }
            lemma_frontier_member_iff_chain(dag, leader, hi, (r + 1) as u64, f);
            assert(frontier_member(dag, leader, hi, (r + 1) as u64, f));
            assert(f == chain[last - 1]);
            assert(f.parents.contains(c.digest));
            assert(in_round(dag, r, c));
            assert(frontier_member(dag, leader, hi, r, c));
        }
    }
}

/// Ancestry correctness: the linkage predicate holds exactly when a
/// parent-reference chain through the stored rounds leads from `leader`
/// down to `prev`, one round per step.
pub proof fn lemma_linked_iff_parent_chain(
    dag: Map<u64, Seq<CertView>>,
    leader: CertView,
    prev: CertView,
)
    requires
        prev.round <= leader.round,
    ensures
        linked_spec(dag, leader, prev) <==> exists|chain: Seq<CertView>|
            is_parent_chain(dag, chain, leader, leader.round) && chain.len() == leader.round
                - prev.round + 1 && chain.last() == prev,
{
    lemma_frontier_member_iff_chain(dag, leader, leader.round, prev.round, prev);
}

/// Reflexivity: every certificate is linked to itself, by the zero-length path.
pub proof fn lemma_linked_reflexive(dag: Map<u64, Seq<CertView>>, c: CertView)
    ensures
        linked_spec(dag, c, c),
{
}

/// Monotonic frontier shrink: below the leader's own level, every frontier
/// member is drawn from the certificates stored at its round and is
/// referenced as a parent by some member of the frontier one level up.
pub proof fn lemma_frontier_shrink(
    dag: Map<u64, Seq<CertView>>,
    leader: CertView,
    hi: u64,
    r: u64,
    c: CertView,
)
    requires
        r < hi,
        frontier_member(dag, leader, hi, r, c),
    ensures
        in_round(dag, r, c),
        exists|f: CertView|
            frontier_member(dag, leader, hi, (r + 1) as u64, f) && f.parents.contains(c.digest),
{
}

/// The view of a sequence of borrowed certificates.
pub open spec fn refs_view(s: Seq<&Certificate>) -> Seq<CertView> {
    s.map_values(|c: &Certificate| c@)
}

/// True when `d` occurs in `parents`.
fn parents_contain(parents: &Vec<u64>, d: u64) -> (b: bool)
    ensures
        b == parents@.contains(d),
{
    let mut i: usize = 0;
    while i < parents.len()
        invariant
            0 <= i <= parents@.len(),
            forall|j: int| 0 <= j < i ==> parents@[j] != d,
        decreases parents@.len() - i,
    {
        if parents[i] == d {
            return true;
        }
        i += 1;
    }
    false
}

/// True when some member of `frontier` references digest `d` as a parent.
fn referenced_by_frontier(frontier: &Vec<&Certificate>, d: u64) -> (b: bool)
    ensures
        b == referenced_by(refs_view(frontier@), d),
{
    let mut i: usize = 0;
    while i < frontier.len()
        invariant
            0 <= i <= frontier@.len(),
            forall|j: int| 0 <= j < i ==> !refs_view(frontier@)[j].parents.contains(d),
        decreases frontier@.len() - i,
    {
        if parents_contain(&frontier[i].parents, d) {
            proof {
                assert(refs_view(frontier@)[i as int].parents.contains(d));
            }
            return true;
        }
        i += 1;
    }
    false
}

/// Deep equality of two certificates: same origin, round, digest and parents.
fn certificates_equal(a: &Certificate, b: &Certificate) -> (r: bool)
    ensures
        r == (a@ == b@),
{
    if a.origin != b.origin || a.round != b.round || a.digest != b.digest {
        return false;
    }
    if a.parents.len() != b.parents.len() {
        proof {
            assert(a@.parents.len() != b@.parents.len());
        }
        return false;
    }
    let mut i: usize = 0;
    while i < a.parents.len()
        invariant
            0 <= i <= a.parents@.len(),
            a.parents@.len() == b.parents@.len(),
            a.origin == b.origin,
            a.round == b.round,
            a.digest == b.digest,
            forall|j: int| 0 <= j < i ==> a.parents@[j] == b.parents@[j],
        decreases a.parents@.len() - i,
    {
        if a.parents[i] != b.parents[i] {
            proof {
                assert(a@.parents[i as int] != b@.parents[i as int]);
            }
            return false;
        }
        i += 1;
    }
    proof {
        assert(a.parents@ =~= b.parents@);
        assert(a@ =~= b@);
    }
    true
}

/// True when `target` is a member of `frontier`, compared by deep equality.
fn contains_certificate(frontier: &Vec<&Certificate>, target: &Certificate) -> (b: bool)
    ensures
        b == refs_view(frontier@).contains(target@),
{
    let mut i: usize = 0;
    while i < frontier.len()
        invariant
            0 <= i <= frontier@.len(),
            forall|j: int| 0 <= j < i ==> refs_view(frontier@)[j] != target@,
        decreases frontier@.len() - i,
    {
        if certificates_equal(frontier[i], target) {
            proof {
                assert(refs_view(frontier@)[i as int] == target@);
            }
            return true;
        }
        i += 1;
    }
    false
}

/// One step of the backward sweep: selects from `round_certs` (the vertices
/// stored at the round being processed) exactly those certificates whose
/// digest is referenced as a parent by at least one member of `frontier`.
/// The new frontier is drawn from the round's own vertices, so it never
/// grows beyond the round's vertex count (the committee size).
pub fn frontier_step<'a>(
    frontier: &Vec<&'a Certificate>,
    round_certs: &'a Vec<Certificate>,
) -> (next: Vec<&'a Certificate>)
    ensures
        next@.len() <= round_certs@.len(),
        forall|c: CertView| #[trigger] refs_view(next@).contains(c) <==> certs_view(
            round_certs@,
        ).contains(c) && referenced_by(refs_view(frontier@), c.digest),
{
    let ghost cv = certs_view(round_certs@);
    let mut next: Vec<&'a Certificate> = Vec::new();
    let mut i: usize = 0;
    while i < round_certs.len()
        invariant
            0 <= i <= round_certs@.len(),
            cv == certs_view(round_certs@),
            next@.len() <= i,
            forall|c: CertView| #[trigger] refs_view(next@).contains(c) <==> cv.take(
                i as int,
            ).contains(c) && referenced_by(refs_view(frontier@), c.digest),
        decreases round_certs@.len() - i,
    {
        let ghost pre = refs_view(next@);
        let ghost x = round_certs@[i as int]@;
        if referenced_by_frontier(frontier, round_certs[i].digest) {
            next.push(&round_certs[i]);
            proof {
                assert(refs_view(next@) =~= pre.push(x));
            }
        }
        proof {
            assert(cv.take(i + 1) =~= cv.take(i as int).push(cv[i as int]));
            assert(cv[i as int] == x);
            assert forall|c: CertView| #[trigger] refs_view(next@).contains(c) <==> cv.take(
                i + 1,
            ).contains(c) && referenced_by(refs_view(frontier@), c.digest) by {
                if refs_view(next@).contains(c) {
                    let j = choose|j: int| 0 <= j < refs_view(next@).len() && refs_view(next@)[j]
                        == c;
                    assert(cv.take(i + 1).contains(c)) by {
                        if j < pre.len() {
                            assert(pre.contains(c));
                            let k = choose|k: int| 0 <= k < cv.take(i as int).len() && cv.take(
                                i as int,
                            )[k] == c;
                            assert(cv.take(i + 1)[k] == c);
                        } else {
                            assert(c == x);
                            assert(cv.take(i + 1)[i as int] == c);
                        }
                    }
                    assert(referenced_by(refs_view(frontier@), c.digest)) by {
                        if j < pre.len() {
                            assert(pre.contains(c));
                        } else {
                            assert(c == x);
                        }
                    }
                }
                if cv.take(i + 1).contains(c) && referenced_by(refs_view(frontier@), c.digest) {
                    let k = choose|k: int| 0 <= k < cv.take(i + 1).len() && #[trigger] cv.take(
                        i + 1,
                    )[k] == c;
                    if k < i {
                        assert(cv.take(i as int)[k] == c);
                        assert(cv.take(i as int).contains(c));
                        assert(pre.contains(c));
                        let j = choose|j: int| 0 <= j < pre.len() && pre[j] == c;
                        assert(refs_view(next@)[j] == c);
                    } else {
                        assert(c == x);
                        assert(refs_view(next@)[refs_view(next@).len() - 1] == c);
                    }
                    assert(refs_view(next@).contains(c));
                }
            }
        }
        i += 1;
    }
    proof {
        assert(cv.take(round_certs@.len() as int) =~= cv);
    }
    next
}

/// Checks if there is a parent-reference path between two leaders: a backward
/// frontier sweep from `leader`'s round down to `prev_leader`'s round. Every
/// round swept over, `prev_leader`'s included, must already be stored in the
/// DAG; a missing round is a protocol error in the caller, so this check
/// refuses such inputs instead of treating the round as empty.
pub fn linked<'a>(leader: &'a Certificate, prev_leader: &Certificate, dag: &'a Dag) -> (r: bool)
    requires
        prev_leader.round <= leader.round,
        forall|rr: u64| prev_leader.round <= rr < leader.round ==> dag@.contains_key(rr),
    ensures
        r == linked_spec(dag@, leader@, prev_leader@),
{
    let ghost hi = leader.round;
    let mut frontier: Vec<&'a Certificate> = Vec::new();
    frontier.push(leader);
    proof {
        assert forall|c: CertView| #[trigger] refs_view(frontier@).contains(c) <==> frontier_member(
            dag@,
            leader@,
            hi,
            hi,
            c,
        ) by {
            if refs_view(frontier@).contains(c) {
                let j = choose|j: int| 0 <= j < refs_view(frontier@).len() && refs_view(
                    frontier@,
                )[j] == c;
                assert(c == leader@);
            }
            if frontier_member(dag@, leader@, hi, hi, c) {
                assert(c == leader@);
                assert(refs_view(frontier@)[0] == c);
            }
        }
    }
    let mut r: u64 = leader.round;
    while r > prev_leader.round
        invariant
            prev_leader.round <= r <= leader.round,
            hi == leader.round,
            forall|rr: u64| prev_leader.round <= rr < leader.round ==> dag@.contains_key(rr),
            forall|c: CertView| #[trigger] refs_view(frontier@).contains(c) <==> frontier_member(
                dag@,
                leader@,
                hi,
                r,
                c,
            ),
        decreases r,
    {
        r = r - 1;
        let round_certs = dag.get(r).unwrap();
        let ghost old_fv = refs_view(frontier@);
        frontier = frontier_step(&frontier, round_certs);
        proof {
            assert(dag@[r] == certs_view(round_certs@));
            assert forall|c: CertView| #[trigger] refs_view(frontier@).contains(c)
                <==> frontier_member(dag@, leader@, hi, r, c) by {
                if refs_view(frontier@).contains(c) {
                    assert(certs_view(round_certs@).contains(c));
                    assert(in_round(dag@, r, c));
                    assert(referenced_by(old_fv, c.digest));
                    let j = choose|j: int| 0 <= j < old_fv.len() && old_fv[j].parents.contains(
                        c.digest,
                    );
                    let f = old_fv[j];
                    assert(old_fv.contains(f));
                    assert(frontier_member(dag@, leader@, hi, (r + 1) as u64, f));
                    assert(frontier_member(dag@, leader@, hi, r, c));
                }
                if frontier_member(dag@, leader@, hi, r, c) {
                    assert(in_round(dag@, r, c));
                    assert(certs_view(round_certs@).contains(c));
                    let f = choose|f: CertView| frontier_member(dag@, leader@, hi, (r + 1) as u64, f)
                        && f.parents.contains(c.digest);
                    assert(old_fv.contains(f));
                    let j = choose|j: int| 0 <= j < old_fv.len() && old_fv[j] == f;
                    assert(referenced_by(old_fv, c.digest));
                    assert(refs_view(frontier@).contains(c));
                }
            }
        }
    }
    contains_certificate(&frontier, prev_leader)
}

} // verus!
