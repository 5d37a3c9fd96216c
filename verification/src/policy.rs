//! The verifier: an allowlist of trusted executors and policy-gated proof
//! validation, kept apart from the gateway so policies can be swapped without
//! touching settlement logic.
//!
//! `verify` is a pure predicate: its result is a function of the verifier's
//! allowlist and its arguments alone, and it mutates nothing.

use vstd::prelude::*;
use vstd::string::StringExecFns;
use crate::gateway::ids_view;

verus! {

/// The verifier's state: the allowlist of trusted executor identities.
/// Mutation is unrestricted by design (no owner gate in this version).
pub struct ShadeVerifier {
    pub allowed_executors: Vec<String>,
}

/// The mathematical value of a [`ShadeVerifier`].
#[verifier::ext_equal]
pub struct VerifierModel {
    pub allowed: Seq<Seq<char>>,
}

impl View for ShadeVerifier {
    type V = VerifierModel;

    open spec fn view(&self) -> VerifierModel {
        VerifierModel { allowed: ids_view(self.allowed_executors@) }
    }
}

/// Well-formedness of the allowlist: it holds each identity at most once, so
/// it stands for a set.
pub open spec fn verifier_wf(m: VerifierModel) -> bool {
    forall|i: int, k: int|
        0 <= i < k < m.allowed.len() ==> #[trigger] m.allowed[i] != #[trigger] m.allowed[k]
}

/// The policy ids this version recognises.
pub open spec fn policy_known(policy_id: Seq<char>) -> bool {
    policy_id == "sig_v1"@ || policy_id == "tee_v1"@ || policy_id == "zk_lite_v1"@
}

/// What `verify` returns: the executor is allowlisted, the proof is
/// non-empty, and the policy id is recognised. The placeholder policies
/// accept every proof; an unrecognised policy id yields `false`, not an
/// abort.
pub open spec fn spec_verify(
    m: VerifierModel,
    policy_id: Seq<char>,
    executor: Seq<char>,
    proof_data: Seq<char>,
) -> bool {
    m.allowed.contains(executor) && proof_data.len() > 0 && policy_known(policy_id)
}

fn find_id_index(ids: &Vec<String>, id: &String) -> (r: Option<usize>)
    ensures
        match r {
            Some(i) => i < ids@.len() && ids_view(ids@)[i as int] == id@,
            None => !ids_view(ids@).contains(id@),
        },
{
    let ghost iv = ids_view(ids@);
    let mut i: usize = 0;
    while i < ids.len()
        invariant
            i <= ids@.len(),
            iv == ids_view(ids@),
            forall|k: int| 0 <= k < i ==> #[trigger] iv[k] != id@,
        decreases ids@.len() - i,
    {
        if ids[i] == *id {
            proof {
                assert(iv[i as int] == id@);
            }
            return Some(i);
        }
        i += 1;
    }
    proof {
        if iv.contains(id@) {
            let w = choose|w: int| 0 <= w < iv.len() && iv[w] == id@;
            assert(iv[w] != id@);
        }
    }
    None
}

impl ShadeVerifier {
    /// A fresh verifier with an empty allowlist.
    pub fn new() -> (v: ShadeVerifier)
        ensures
            v@.allowed == Seq::<Seq<char>>::empty(),
            verifier_wf(v@),
    {
        let v = ShadeVerifier { allowed_executors: Vec::new() };
        proof {
            assert(v@.allowed =~= Seq::<Seq<char>>::empty());
        }
        v
    }

    /// Adds an executor to the allowlist. Idempotent: adding a member again
    /// leaves the list as it is.
    pub fn add_executor(&mut self, executor: String)
        requires
            verifier_wf(old(self)@),
        ensures
            verifier_wf(final(self)@),
            final(self)@.allowed == if old(self)@.allowed.contains(executor@) {
                old(self)@.allowed
            } else {
                old(self)@.allowed.push(executor@)
            },
            forall|x: Seq<char>|
                #[trigger] final(self)@.allowed.contains(x) <==> old(self)@.allowed.contains(x)
                    || x == executor@,
    {
        let ghost m0 = self@;
        let ghost e = executor@;
        match find_id_index(&self.allowed_executors, &executor) {
            Some(i) => {
                proof {
                    assert(m0.allowed[i as int] == e);
                    assert(m0.allowed.contains(e));
                }
            },
            None => {
                self.allowed_executors.push(executor);
                proof {
                    assert(self@.allowed =~= m0.allowed.push(e));
                }
            },
        }
        proof {
            assert forall|x: Seq<char>|
                #[trigger] self@.allowed.contains(x) <==> m0.allowed.contains(x) || x == e by {
                if self@.allowed.contains(x) {
                    let w = choose|w: int| 0 <= w < self@.allowed.len() && self@.allowed[w] == x;
                    if w < m0.allowed.len() {
                        assert(m0.allowed[w] == x);
                    }
                }
                if m0.allowed.contains(x) {
                    let w = choose|w: int| 0 <= w < m0.allowed.len() && m0.allowed[w] == x;
                    assert(self@.allowed[w] == x);
                }
                if x == e && !m0.allowed.contains(x) {
                    assert(self@.allowed.last() == x);
                }
            }
            assert forall|i: int, k: int|
                0 <= i < k < self@.allowed.len() implies #[trigger] self@.allowed[i]
                != #[trigger] self@.allowed[k] by {
                if k == self@.allowed.len() - 1 && self@.allowed.len() == m0.allowed.len() + 1 {
                    assert(m0.allowed[i] == self@.allowed[i]);
                    if self@.allowed[i] == e {
                        assert(m0.allowed.contains(e));
                    }
                }
            }
        }
    }

    /// Removes an executor from the allowlist. Idempotent: removing a
    /// non-member is a no-op.
    pub fn remove_executor(&mut self, executor: String)
        requires
            verifier_wf(old(self)@),
        ensures
            verifier_wf(final(self)@),
            !old(self)@.allowed.contains(executor@) ==> final(self)@.allowed == old(
                self,
            )@.allowed,
            old(self)@.allowed.contains(executor@) ==> exists|i: int|
                0 <= i < old(self)@.allowed.len() && old(self)@.allowed[i] == executor@
                    && final(self)@.allowed == old(self)@.allowed.remove(i),
            forall|x: Seq<char>|
                #[trigger] final(self)@.allowed.contains(x) <==> old(self)@.allowed.contains(x)
                    && x != executor@,
    {
        let ghost m0 = self@;
        match find_id_index(&self.allowed_executors, &executor) {
            Some(i) => {
                self.allowed_executors.remove(i);
                proof {
                    assert(m0.allowed[i as int] == executor@);
                    assert(m0.allowed.contains(executor@));
                    assert(self@.allowed =~= m0.allowed.remove(i as int));
                    assert forall|x: Seq<char>|
                        #[trigger] self@.allowed.contains(x) <==> m0.allowed.contains(x) && x
                            != executor@ by {
                        if self@.allowed.contains(x) {
                            let w = choose|w: int|
                                0 <= w < self@.allowed.len() && self@.allowed[w] == x;
                            if w < i {
                                assert(m0.allowed[w] == x);
                                if x == executor@ {
                                    assert(m0.allowed[w] == m0.allowed[i as int]);
                                }
                            } else {
                                assert(m0.allowed[w + 1] == x);
                                if x == executor@ {
                                    assert(m0.allowed[w + 1] == m0.allowed[i as int]);
                                }
                            }
                        }
                        if m0.allowed.contains(x) && x != executor@ {
                            let w = choose|w: int| 0 <= w < m0.allowed.len() && m0.allowed[w] == x;
                            if w < i {
                                assert(self@.allowed[w] == x);
                            } else {
                                assert(w != i);
                                assert(self@.allowed[w - 1] == x);
                            }
                        }
                    }
                    assert forall|a: int, k: int|
                        0 <= a < k < self@.allowed.len() implies #[trigger] self@.allowed[a]
                        != #[trigger] self@.allowed[k] by {
                        let a0: int = if a < i { a } else { a + 1 };
                        let k0: int = if k < i { k } else { k + 1 };
                        assert(self@.allowed[a] == m0.allowed[a0]);
                        assert(self@.allowed[k] == m0.allowed[k0]);
                    }
                }
            },
            None => {
                proof {
                    assert forall|x: Seq<char>|
                        #[trigger] self@.allowed.contains(x) <==> m0.allowed.contains(x) && x
                            != executor@ by {
                        if self@.allowed.contains(x) && x == executor@ {
                            assert(m0.allowed.contains(executor@));
                        }
                    }
                }
            },
        }
    }

    /// Pure membership test on the allowlist.
    pub fn is_allowed(&self, executor: String) -> (r: bool)
        ensures
            r == self@.allowed.contains(executor@),
    {
        match find_id_index(&self.allowed_executors, &executor) {
            Some(i) => {
                proof {
                    assert(self@.allowed[i as int] == executor@);
                }
                true
            },
            None => false,
        }
    }

    /// The verification entry point: a pure predicate over the allowlist and
    /// the arguments. The payload fields are taken so a later version can
    /// check a signature over them; this version's policies accept any
    /// non-empty proof from an allowlisted executor.
    pub fn verify(
        &self,
        policy_id: String,
        job_id: String,
        result_commitment: String,
        public_output: String,
        executor: String,
        proof_data: String,
    ) -> (r: bool)
        ensures
            r == spec_verify(self@, policy_id@, executor@, proof_data@),
    {
        let allowed = match find_id_index(&self.allowed_executors, &executor) {
            Some(i) => {
                proof {
                    assert(self@.allowed[i as int] == executor@);
                }
                true
            },
            None => false,
        };
        if !allowed {
            return false;
        }
        if proof_data.as_str().is_empty() {
            return false;
        }
        let sig = String::from_str("sig_v1");
        let tee = String::from_str("tee_v1");
        let zk = String::from_str("zk_lite_v1");
        policy_id == sig || policy_id == tee || policy_id == zk
    }
}

/// The verification predicate depends on the allowlist only through
/// membership: two verifiers that allow the same identities verify the same
/// calls, whatever order or history their lists have.
pub proof fn lemma_verify_depends_only_on_membership(
    m1: VerifierModel,
    m2: VerifierModel,
    policy_id: Seq<char>,
    executor: Seq<char>,
    proof_data: Seq<char>,
)
    requires
        forall|x: Seq<char>| #[trigger] m1.allowed.contains(x) <==> m2.allowed.contains(x),
    ensures
        spec_verify(m1, policy_id, executor, proof_data) == spec_verify(
            m2,
            policy_id,
            executor,
            proof_data,
        ),
{
    assert(m1.allowed.contains(executor) <==> m2.allowed.contains(executor));
}

} // verus!
