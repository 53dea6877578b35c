use vstd::prelude::*;
use vstd::string::StringExecFns;
use crate::errors::ConesisError;

verus! {

/// Governance rules that must be satisfied before an action is recorded. A
/// rule source is a pure decision function over (actor, intent): no side
/// effects, no knowledge of the ledger.
pub trait AuditProtocol {
    /// Which (actor, intent) pairs this rule source accepts.
    spec fn accepts(&self, actor: Seq<char>, intent: Seq<char>) -> bool;

    /// The pre-commit decision: `Ok` exactly on accepted pairs; a rejection
    /// carries its reason and mutates nothing.
    fn audit_intent(&self, actor: &str, intent: &str) -> (r: Result<(), ConesisError>)
        ensures
            r is Ok <==> self.accepts(actor@, intent@),
            r matches Err(e) ==> e is PolicyViolation,
    ;
}

/// Stateless pre-commit policy gate over a configured intent allow-set.
pub struct FirmaEnforcer {
    allowed_intents: Vec<String>,
}

impl FirmaEnforcer {
    /// The configured allow-set, as plain character sequences.
    pub closed spec fn allow_set(&self) -> Seq<Seq<char>> {
        self.allowed_intents@.map_values(|s: String| s@)
    }

    /// The reserved marker of an unidentified actor, rejected for every intent.
    pub open spec fn unidentified_marker() -> Seq<char> {
        "UNIDENTIFIED_AGENT"@
    }

    /// A policy gate holding the default allow-set.
    pub fn new() -> (r: Self)
        ensures
            r.allow_set() =~= seq![
                "generate_revenue"@,
                "query_context"@,
                "system_maintenance"@,
                "alert_user"@,
            ],
    {
        let mut allowed_intents: Vec<String> = Vec::new();
        allowed_intents.push(String::from_str("generate_revenue"));
        allowed_intents.push(String::from_str("query_context"));
        allowed_intents.push(String::from_str("system_maintenance"));
        allowed_intents.push(String::from_str("alert_user"));
        let r = FirmaEnforcer { allowed_intents };
        proof {
            assert(r.allow_set() =~= seq![
                "generate_revenue"@,
                "query_context"@,
                "system_maintenance"@,
                "alert_user"@,
            ]);
        }
        r
    }

    /// A policy gate holding a caller-supplied allow-set, so the rule source
    /// can be replaced without changing the decision interface.
    pub fn with_intents(allowed_intents: Vec<String>) -> (r: Self)
        ensures
            r.allow_set() == allowed_intents@.map_values(|s: String| s@),
    {
        FirmaEnforcer { allowed_intents }
    }
}

impl AuditProtocol for FirmaEnforcer {
    /// Accepted: any identified actor whose intent is in the allow-set.
    open spec fn accepts(&self, actor: Seq<char>, intent: Seq<char>) -> bool {
        actor != FirmaEnforcer::unidentified_marker() && self.allow_set().contains(intent)
    }

    fn audit_intent(&self, actor: &str, intent: &str) -> (r: Result<(), ConesisError>) {
        let actor_s = actor.to_owned();
        if actor_s == String::from_str("UNIDENTIFIED_AGENT") {
            return Err(
                ConesisError::PolicyViolation(
                    String::from_str("audit rejected: actor is not authorized to act: ").concat(
                        actor,
                    ),
                ),
            );
        }
        let intent_s = intent.to_owned();
        let n = self.allowed_intents.len();
        let mut i: usize = 0;
        while i < n
            invariant
                i <= n,
                n == self.allowed_intents@.len(),
                intent_s@ == intent@,
                actor@ != FirmaEnforcer::unidentified_marker(),
                forall|k: int| 0 <= k < i ==> self.allow_set()[k] != intent@,
            decreases n - i,
        {
            if self.allowed_intents[i] == intent_s {
                proof {
                    assert(self.allow_set()[i as int] == intent@);
                    assert(self.allow_set().contains(intent@));
                    assert(actor@ != FirmaEnforcer::unidentified_marker());
                    assert(self.accepts(actor@, intent@));
                }
                return Ok(());
            }
            i = i + 1;
        }
        proof {
            assert forall|k: int| 0 <= k < self.allow_set().len() implies self.allow_set()[k]
                != intent@ by {}
            assert(!self.allow_set().contains(intent@));
        }
        Err(
            ConesisError::PolicyViolation(
                String::from_str("audit rejected: intent violates the constitution: ").concat(
                    intent,
                ),
            ),
        )
    }
}

} // verus!
