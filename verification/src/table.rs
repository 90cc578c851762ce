//! Transition tables: construction-time options, declared rules, and the
//! validation pass that proves every declared state reachable before a
//! machine may be built.

use vstd::prelude::*;

use crate::duration::Duration;
use crate::reach::all_reachable;
use crate::reach::contains_id;
use crate::reach::reachable;
use crate::reach::reachable_states;

verus! {

broadcast use vstd::seq_lib::group_seq_properties;

/// Construction-time options of a machine: the initial state (required) and
/// the capacity of the event queue.
#[derive(Debug, Clone, Copy, PartialEq, Eq, Structural)]
pub struct FsmArgs {
    /// The state the machine starts in.
    pub initial: u64,
    /// The capacity of the bounded event queue.
    pub channel_size: usize,
}

/// The event queue capacity used when none is chosen.
pub fn default_channel_size() -> (n: usize)
    ensures
        n == 100,
{
    100
}

impl FsmArgs {
    /// Options with the given initial state and the default queue capacity.
    pub fn new(initial: u64) -> (a: FsmArgs)
        ensures
            a.initial == initial,
            a.channel_size == 100,
    {
        FsmArgs { initial, channel_size: default_channel_size() }
    }
}

/// One declared transition: in state `source`, the event tagged `event` is
/// handled and leads to `target`; entering `target` through this rule arms
/// the given timeout, or disarms the timer when there is none.
#[derive(Debug, Clone, Copy)]
pub struct Rule {
    /// The state this rule fires from.
    pub source: u64,
    /// The event tag this rule handles.
    pub event: u64,
    /// The state the handler of this rule is declared to move to.
    pub target: u64,
    /// The timeout armed upon entering the target state, if any.
    pub timeout: Option<Duration>,
}

impl Rule {
    /// A rule without a timeout.
    pub fn new(source: u64, event: u64, target: u64) -> (r: Rule)
        ensures
            r == (Rule { source, event, target, timeout: None::<Duration> }),
    {
        Rule { source, event, target, timeout: None }
    }

    /// A rule that arms `timeout` upon entering its target state.
    pub fn with_timeout(source: u64, event: u64, target: u64, timeout: Duration) -> (r: Rule)
        ensures
            r == (Rule { source, event, target, timeout: Some(timeout) }),
    {
        Rule { source, event, target, timeout: Some(timeout) }
    }
}

/// A transition table under construction: options, rules, and at most one
/// wildcard timeout handler, whose transition may fire from any state.
#[derive(Debug, Clone)]
pub struct Table {
    /// Construction-time options.
    pub args: FsmArgs,
    /// The declared transition rules, in registration order; on an event the
    /// earliest matching rule wins.
    pub rules: Vec<Rule>,
    /// The declared target of the wildcard timeout handler, if one is
    /// registered.
    pub timeout_target: Option<u64>,
}

/// Whether `s` is among the states the table declares: the initial state,
/// any rule's source or target, or the timeout handler's target.
pub open spec fn declares(t: Table, s: u64) -> bool {
    ||| s == t.args.initial
    ||| exists|i: int|
        0 <= i < t.rules@.len() && ((#[trigger] t.rules@[i]).source == s || t.rules@[i].target == s)
    ||| t.timeout_target == Some(s)
}

/// Whether the table declares a directed edge from state `a` to state `b`:
/// a rule from `a` to `b`, or the wildcard timeout edge, which runs from
/// every declared state to the timeout handler's target.
pub open spec fn edge(t: Table, a: u64, b: u64) -> bool {
    declares(t, a) && ((exists|i: int|
        0 <= i < t.rules@.len() && (#[trigger] t.rules@[i]).source == a && t.rules@[i].target == b)
        || t.timeout_target == Some(b))
}

/// The declared states discovered from the first `i` rules, in discovery
/// order: the initial state first, then each rule's source and target as
/// they first occur.
pub open spec fn discovered_upto(t: Table, i: int) -> Seq<u64>
    decreases i,
{
    if i <= 0 {
        seq![t.args.initial]
    } else {
        let prev = discovered_upto(t, i - 1);
        let r = t.rules@[i - 1];
        let with_source = if prev.contains(r.source) {
            prev
        } else {
            prev.push(r.source)
        };
        if with_source.contains(r.target) {
            with_source
        } else {
            with_source.push(r.target)
        }
    }
}

/// All declared states in discovery order: the initial state, the rule
/// endpoints in rule order, and last the timeout handler's target.
pub open spec fn discovered(t: Table) -> Seq<u64> {
    let base = discovered_upto(t, t.rules@.len() as int);
    match t.timeout_target {
        Some(x) => if base.contains(x) {
            base
        } else {
            base.push(x)
        },
        None => base,
    }
}

/// `s` is the first state in discovery order that is not reachable from the
/// initial state.
pub open spec fn first_unreachable(t: Table, s: u64) -> bool {
    exists|j: int|
        {
            &&& 0 <= j < discovered(t).len()
            &&& #[trigger] discovered(t)[j] == s
            &&& !reachable(t, s)
            &&& forall|k: int| 0 <= k < j ==> reachable(t, discovered(t)[k])
        }
}

/// Why a table was rejected at validation time.
///
/// States are discovered from the declared rules themselves (every rule
/// endpoint, the initial state and the timeout target), so a dangling state
/// reference cannot arise; the one way a table can be malformed is a
/// declared state that no chain of edges connects to the initial state.
#[derive(Debug, Clone, Copy, PartialEq, Eq, Structural)]
pub enum ConfigError {
    /// The named state cannot be reached from the initial state.
    UnreachableState(u64),
}

/// A transition table that validation has accepted: every state it declares
/// is reachable from its initial state. Only [`Table::validate`] constructs
/// one, so no machine can be built from an unvalidated table.
#[derive(Debug, Clone)]
pub struct ValidTable {
    table: Table,
}

impl View for ValidTable {
    type V = Table;

    closed spec fn view(&self) -> Table {
        self.table
    }
}

impl ValidTable {
    /// The validation invariant: every declared state is reachable.
    pub closed spec fn wf(self) -> bool {
        all_reachable(self.table)
    }

    /// The initial state of the table.
    pub fn initial(&self) -> (s: u64)
        ensures
            s == self@.args.initial,
    {
        self.table.args.initial
    }

    /// The capacity chosen for the event queue.
    pub fn channel_size(&self) -> (n: usize)
        ensures
            n == self@.args.channel_size,
    {
        self.table.args.channel_size
    }

    /// The number of declared rules.
    pub fn rules_len(&self) -> (n: usize)
        ensures
            n == self@.rules@.len(),
    {
        self.table.rules.len()
    }

    /// The rule at position `i`.
    pub fn rule_at(&self, i: usize) -> (r: Rule)
        requires
            i < self@.rules@.len(),
        ensures
            r == self@.rules@[i as int],
    {
        self.table.rules[i]
    }

    /// The declared target of the wildcard timeout handler, if any.
    pub fn timeout_handler_target(&self) -> (r: Option<u64>)
        ensures
            r == self@.timeout_target,
    {
        self.table.timeout_target
    }
}

/// Any state declared by a validated table is reachable from the table's
/// initial state: a machine built from a `ValidTable` has no dead states.
pub proof fn lemma_valid_table_reachable(vt: ValidTable, s: u64)
    requires
        vt.wf(),
        declares(vt@, s),
    ensures
        reachable(vt@, s),
{
}

impl Table {
    /// An empty table with the given options.
    pub fn new(args: FsmArgs) -> (t: Table)
        ensures
            t.args == args,
            t.rules@ == Seq::<Rule>::empty(),
            t.timeout_target is None,
    {
        Table { args, rules: Vec::new(), timeout_target: None }
    }

    /// Register one transition rule; later rules never shadow earlier ones.
    pub fn add_rule(&mut self, rule: Rule)
        ensures
            final(self).args == old(self).args,
            final(self).rules@ == old(self).rules@.push(rule),
            final(self).timeout_target == old(self).timeout_target,
    {
        self.rules.push(rule);
    }

    /// Register the wildcard timeout handler, declared to move to `target`
    /// from whatever state the timer expires in. At most one is kept: a
    /// second registration replaces the first.
    pub fn set_timeout_handler(&mut self, target: u64)
        ensures
            final(self).args == old(self).args,
            final(self).rules@ == old(self).rules@,
            final(self).timeout_target == Some(target),
    {
        self.timeout_target = Some(target);
    }

    /// The declared states in discovery order, without duplicates.
    fn declared_states(&self) -> (states: Vec<u64>)
        ensures
            states@.no_duplicates(),
            states@ == discovered(*self),
            forall|s: u64| states@.contains(s) <==> declares(*self, s),
    {
        let mut states: Vec<u64> = Vec::new();
        states.push(self.args.initial);
        proof {
            assert(states@ =~= discovered_upto(*self, 0));
        }
        let mut i: usize = 0;
        while i < self.rules.len()
            invariant
                0 <= i <= self.rules@.len(),
                states@.no_duplicates(),
                states@ == discovered_upto(*self, i as int),
                forall|s: u64|
                    #[trigger] states@.contains(s) <==> (s == self.args.initial || exists|j: int|
                        0 <= j < i && ((#[trigger] self.rules@[j]).source == s
                            || self.rules@[j].target == s)),
            decreases self.rules@.len() - i,
        {
            let r = self.rules[i];
            if !contains_id(&states, r.source) {
                proof {
                    assert(states@.push(r.source).no_duplicates());
                }
                states.push(r.source);
            }
            if !contains_id(&states, r.target) {
                proof {
                    assert(states@.push(r.target).no_duplicates());
                }
                states.push(r.target);
            }
            i = i + 1;
        }
        match self.timeout_target {
            Some(t) => {
                if !contains_id(&states, t) {
                    proof {
                        assert(states@.push(t).no_duplicates());
                    }
                    states.push(t);
                }
            },
            None => {},
        }
        states
    }

    /// Check the table for reachability: either every declared state can be
    /// reached from the initial state along declared edges — wildcard
    /// timeout edges included — and a validated table is returned, or the
    /// first unreachable state found is named. A rejected table never
    /// becomes a machine.
    pub fn validate(self) -> (r: Result<ValidTable, ConfigError>)
        ensures
            r matches Ok(vt) ==> vt@ == self && vt.wf(),
            r matches Err(e) ==> e matches ConfigError::UnreachableState(s) && declares(self, s)
                && first_unreachable(self, s),
            r is Ok <==> all_reachable(self),
    {
        let states = self.declared_states();
        let visited = reachable_states(&self, &states);
        let mut k: usize = 0;
        while k < states.len()
            invariant
                0 <= k <= states@.len(),
                states@.no_duplicates(),
                states@ == discovered(self),
                forall|s: u64| states@.contains(s) <==> declares(self, s),
                forall|s: u64| visited@.contains(s) <==> reachable(self, s),
                forall|j: int| 0 <= j < k ==> reachable(self, #[trigger] states@[j]),
            decreases states@.len() - k,
        {
            if !contains_id(&visited, states[k]) {
                proof {
                    let sk = states@[k as int];
                    assert(states@.contains(sk));
                    assert(declares(self, sk));
                    assert(!reachable(self, sk));
                    assert(!all_reachable(self));
                    assert(discovered(self)[k as int] == sk);
                    assert(first_unreachable(self, sk));
                }
                return Err(ConfigError::UnreachableState(states[k]));
            }
            k = k + 1;
        }
        proof {
            assert forall|s: u64| declares(self, s) implies reachable(self, s) by {
                assert(states@.contains(s));
                let j = choose|j: int| 0 <= j < states@.len() && states@[j] == s;
                assert(reachable(self, states@[j]));
            };
        }
        Ok(ValidTable { table: self })
    }
}

} // verus!
