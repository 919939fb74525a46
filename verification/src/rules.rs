//! The compiled rule set, as far as scanning state depends on it.

use vstd::prelude::*;

verus! {

/// Index of a rule in the compiled rule set.
pub type RuleId = u32;

/// Index of a pattern in the compiled rule set.
pub type PatternId = u32;

/// Index of a link of a chained pattern.
pub type SubPatternId = u32;

/// Index of a rule namespace.
pub type NamespaceId = u32;

/// Largest number of rules, and of patterns, a rule set may hold. Identifiers
/// and bitmap offsets are handed to the evaluator as signed 32-bit values.
pub const MAX_IDS: usize = 0x7fff_ffff;

/// What the scanner knows about one rule.
pub struct RuleInfo {
    /// Name of the rule.
    pub identifier: String,
    /// Namespace the rule belongs to.
    pub namespace_id: NamespaceId,
    /// Private rules take part in evaluation but are never reported.
    pub is_private: bool,
}

/// A rule as scan results present it.
pub struct Rule<'r> {
    /// Identifier of the rule in the rule set.
    pub id: RuleId,
    /// What the rule set says about the rule.
    pub info: &'r RuleInfo,
}

/// A module imported by the rule set.
pub struct ModuleInfo {
    /// Name under which rules refer to the module.
    pub name: String,
    /// Fully qualified name of the message the module produces.
    pub root_struct_name: String,
    /// Whether the module computes its output itself.
    pub has_main: bool,
}

/// Mathematical content of a rule set.
pub struct RuleTable {
    /// For each rule, whether it is private.
    pub private: Seq<bool>,
    /// For each rule, its namespace.
    pub namespace: Seq<NamespaceId>,
    /// Number of patterns.
    pub patterns: nat,
}

impl RuleTable {
    /// Number of rules.
    pub open spec fn rules(self) -> nat {
        self.private.len()
    }

    /// The table describes a rule set of admissible size.
    pub open spec fn wf(self) -> bool {
        &&& self.private.len() == self.namespace.len()
        &&& self.private.len() <= MAX_IDS
        &&& self.patterns <= MAX_IDS
    }
}

/// A compiled rule set: immutable, shared by every stream of a scanner.
pub struct Rules {
    rules: Vec<RuleInfo>,
    num_patterns: usize,
    imports: Vec<ModuleInfo>,
}

impl View for Rules {
    type V = RuleTable;

    closed spec fn view(&self) -> RuleTable {
        RuleTable {
            private: Seq::new(self.rules@.len(), |i: int| self.rules@[i].is_private),
            namespace: Seq::new(self.rules@.len(), |i: int| self.rules@[i].namespace_id),
            patterns: self.num_patterns as nat,
        }
    }
}

impl Rules {
    /// Size limits hold. Every `Rules` value built by [`Rules::new`] is well formed.
    pub closed spec fn wf(&self) -> bool {
        &&& self.rules@.len() <= MAX_IDS
        &&& self.num_patterns <= MAX_IDS
    }

    /// The rules, in identifier order.
    pub closed spec fn infos(&self) -> Seq<RuleInfo> {
        self.rules@
    }

    /// The imported modules, in import order.
    pub closed spec fn modules(&self) -> Seq<ModuleInfo> {
        self.imports@
    }

    /// A well-formed rule set has a well-formed table, which lists its rules
    /// one for one.
    pub proof fn lemma_view(&self)
        ensures
            self@.private.len() == self.infos().len(),
            self@.namespace.len() == self.infos().len(),
            forall|i: int|
                0 <= i < self.infos().len() ==> self@.private[i] == self.infos()[i].is_private
                    && self@.namespace[i] == self.infos()[i].namespace_id,
            self.wf() ==> self@.wf(),
    {
    }

    /// Builds a rule set from its rules, its number of patterns and its
    /// imports. Fails exactly when there are more than [`MAX_IDS`] rules or
    /// patterns.
    pub fn new(rules: Vec<RuleInfo>, num_patterns: usize, imports: Vec<ModuleInfo>) -> (out:
        Option<Rules>)
        ensures
            out.is_some() <==> rules@.len() <= MAX_IDS && num_patterns <= MAX_IDS,
            out.is_some() ==> {
                &&& out.unwrap().wf()
                &&& out.unwrap().infos() == rules@
                &&& out.unwrap().modules() == imports@
                &&& out.unwrap()@.patterns == num_patterns
            },
    {
        if rules.len() > MAX_IDS || num_patterns > MAX_IDS {
            None
        } else {
            Some(Rules { rules, num_patterns, imports })
        }
    }

    /// Number of rules.
    pub fn num_rules(&self) -> (n: usize)
        ensures
            n == self@.rules(),
            n == self.infos().len(),
    {
        self.rules.len()
    }

    /// Number of patterns.
    pub fn num_patterns(&self) -> (n: usize)
        ensures
            n == self@.patterns,
    {
        self.num_patterns
    }

    /// The rule with the given identifier.
    pub fn get(&self, rule_id: RuleId) -> (info: &RuleInfo)
        requires
            rule_id < self@.rules(),
        ensures
            *info == self.infos()[rule_id as int],
            info.is_private == self@.private[rule_id as int],
            info.namespace_id == self@.namespace[rule_id as int],
    {
        &self.rules[rule_id as usize]
    }

    /// The imported modules, in import order.
    pub fn imports(&self) -> (modules: &Vec<ModuleInfo>)
        ensures
            modules@ == self.modules(),
    {
        &self.imports
    }
}

} // verus!
