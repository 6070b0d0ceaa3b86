//! Deployment quality checks: deterministic rules that gate contract
//! deployments before they enter the mempool.

use vstd::prelude::*;

verus! {

/// Default maximum bytecode size in bytes.
pub const DEFAULT_MAX_BYTECODE_SIZE: usize = 32768;

/// Identifies a quality rule.
#[derive(Clone, Debug, PartialEq, Eq)]
pub struct RuleId(pub String);

/// Structured rejection: the rule that fired and a short message.
#[derive(Clone, Debug, PartialEq, Eq)]
pub struct QaReject {
    pub rule_id: RuleId,
    pub message: String,
}

/// Outcome of a quality check: allow, reject, or refer to a community pool.
#[derive(Clone, Debug, PartialEq, Eq)]
pub enum QaResult {
    /// The deployment passes every automated rule.
    Allow,
    /// The deployment breaks a rule.
    Reject(QaReject),
    /// Automation cannot firmly decide.
    Unsure,
}

/// Whether the automated deployment rules allow a bytecode of this size:
/// nonempty and within the cap.
pub open spec fn spec_qa_allows(bytecode: Seq<u8>, max: int) -> bool {
    0 < bytecode.len() <= max
}

/// Check a contract deployment: reject empty bytecode and bytecode over the
/// size limit; allow the rest.
pub fn check_contract_deploy(bytecode: &[u8], max_bytecode_size: usize) -> (r: QaResult)
    ensures
        spec_qa_allows(bytecode@, max_bytecode_size as int) ==> r matches QaResult::Allow,
        bytecode@.len() == 0 ==> (r matches QaResult::Reject(rej) && rej.rule_id.0@
            == "MALFORMED_BYTECODE"@),
        0 < bytecode@.len() && bytecode@.len() > max_bytecode_size ==> (r
            matches QaResult::Reject(rej) && rej.rule_id.0@ == "MAX_BYTECODE_SIZE"@),
{
    if bytecode.len() == 0 {
        return QaResult::Reject(
            QaReject {
                rule_id: RuleId(make_string("MALFORMED_BYTECODE")),
                message: make_string("Bytecode must not be empty"),
            },
        );
    }
    if bytecode.len() > max_bytecode_size {
        return QaResult::Reject(
            QaReject {
                rule_id: RuleId(make_string("MAX_BYTECODE_SIZE")),
                message: make_string("Bytecode size exceeds maximum"),
            },
        );
    }
    QaResult::Allow
}

/// Copy a string literal into an owned string.
fn make_string(s: &str) -> (r: String)
    ensures
        r@ == s@,
{
    s.to_owned()
}

/// Rule configuration: the size cap a deployment must fit under.
pub struct RuleRegistry {
    max_bytecode_size: usize,
}

impl RuleRegistry {
    /// The configured size cap.
    pub closed spec fn spec_max(&self) -> usize {
        self.max_bytecode_size
    }

    /// A registry with the default size cap.
    pub fn new() -> (r: Self)
        ensures
            r.spec_max() == DEFAULT_MAX_BYTECODE_SIZE,
    {
        RuleRegistry { max_bytecode_size: DEFAULT_MAX_BYTECODE_SIZE }
    }

    /// The registry with another size cap.
    pub fn with_max_bytecode_size(self, size: usize) -> (r: Self)
        ensures
            r.spec_max() == size,
    {
        RuleRegistry { max_bytecode_size: size }
    }

    /// The configured size cap.
    pub fn max_bytecode_size(&self) -> (r: usize)
        ensures
            r == self.spec_max(),
    {
        self.max_bytecode_size
    }
}

impl Default for RuleRegistry {
    fn default() -> (r: Self)
        ensures
            r.spec_max() == DEFAULT_MAX_BYTECODE_SIZE,
    {
        RuleRegistry::new()
    }
}

} // verus!
