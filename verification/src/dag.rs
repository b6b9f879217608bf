//! Round-indexed certificate DAG: a mapping from round number to the set of
//! certificates authored in that round. Rounds are inserted whole and treated
//! as immutable afterwards; lookups of a round that was never inserted are
//! reported as absent, never silently replaced by an empty round.

use vstd::prelude::*;

verus! {

broadcast use vstd::std_specs::hash::group_hash_axioms;

/// One vertex of the DAG: an immutable certificate produced by the consensus
/// layer. It carries the identity of its authoring origin, its round number,
/// its content-derived digest, and the digests of the certificates from the
/// previous round that it causally depends on.
#[derive(Debug)]
pub struct Certificate {
    pub origin: u64,
    pub round: u64,
    pub digest: u64,
    pub parents: Vec<u64>,
}

/// Mathematical image of a certificate: the same fields, with the parent
/// digests as a sequence.
#[verifier::ext_equal]
pub ghost struct CertView {
    pub origin: u64,
    pub round: u64,
    pub digest: u64,
    pub parents: Seq<u64>,
}

impl View for Certificate {
    type V = CertView;

    open spec fn view(&self) -> CertView {
        CertView {
            origin: self.origin,
            round: self.round,
            digest: self.digest,
            parents: self.parents@,
        }
    }
}

impl Clone for Certificate {
    fn clone(&self) -> (r: Self)
        ensures
            r@ == self@,
    {
        Certificate {
            origin: self.origin,
            round: self.round,
            digest: self.digest,
            parents: self.parents.clone(),
        }
    }
}

/// The image of one stored round: the views of its certificates, in storage order.
pub open spec fn certs_view(s: Seq<Certificate>) -> Seq<CertView> {
    s.map_values(|c: Certificate| c@)
}

/// Round-indexed DAG. Logically a map from round number to the certificates
/// of that round; each certificate carries its authoring origin and digest.
pub struct Dag {
    rounds: std::collections::HashMap<u64, Vec<Certificate>>,
}

impl View for Dag {
    type V = Map<u64, Seq<CertView>>;

    closed spec fn view(&self) -> Map<u64, Seq<CertView>> {
        self.rounds@.map_values(|certs: Vec<Certificate>| certs_view(certs@))
    }
}

impl Dag {
    /// Creates an empty DAG with no rounds stored.
    pub fn new() -> (d: Dag)
        ensures
            d@ == Map::<u64, Seq<CertView>>::empty(),
    {
        let d = Dag { rounds: std::collections::HashMap::new() };
        proof {
            assert(d@ =~= Map::<u64, Seq<CertView>>::empty());
        }
        d
    }

    /// Stores the full vertex set for `round`, overwriting any prior entry
    /// for that round; the new round becomes visible to lookups.
    pub fn insert(&mut self, round: u64, vertices: Vec<Certificate>)
        ensures
            final(self)@ == old(self)@.insert(round, certs_view(vertices@)),
    {
        self.rounds.insert(round, vertices);
        proof {
            assert(self@ =~= old(self)@.insert(round, certs_view(vertices@)));
        }
    }

    /// Returns the vertices stored for `round`, or absence if that round was
    /// never inserted. Callers that know the round must be present (the
    /// consensus pipeline inserts every round before querying it) treat
    /// absence as a logic error rather than an empty round.
    pub fn get(&self, round: u64) -> (r: Option<&Vec<Certificate>>)
        ensures
            match r {
                Some(certs) => self@.contains_key(round) && certs_view(certs@) == self@[round],
                None => !self@.contains_key(round),
            },
    {
        self.rounds.get(&round)
    }
}

} // verus!
