//! Driving expansion over every input unit and handing the commands out for
//! execution.
//!
//! The engine owns the decisions of one invocation: it expands one command
//! per unit, in input order, and yields them one by one. Running a command is
//! outside work; the caller performs each execution and may report the
//! outcome back through [`failure_log_line`], which turns a failure into one
//! diagnostic line. No outcome reaches the engine's state: a failed unit
//! never delays, reorders or removes another unit's attempt. A caller that
//! executes concurrently takes the whole plan at once with
//! [`DispatchEngine::into_commands`]; completion order is then unspecified,
//! but every unit is still attempted exactly once.

use vstd::prelude::*;
use vstd::set_lib::lemma_int_range;
use vstd::set_lib::lemma_len_subset;
use vstd::set_lib::set_int_range;

use crate::expand::expand;
use crate::expand::expand_spec;
use crate::expand::SubstitutionMode;
use crate::input::split_lines_spec;
use crate::text::trim_spec;

verus! {

/// What the process executor reports for one command: whether it completed
/// successfully, with optional diagnostic text.
pub struct ExecutionResult {
    pub success: bool,
    pub diagnostic: Option<String>,
}

impl ExecutionResult {
    /// The diagnostic text, empty when none was given.
    pub open spec fn diag_text(self) -> Seq<char> {
        match self.diagnostic {
            Some(d) => d@,
            None => Seq::empty(),
        }
    }
}

/// The commands one invocation dispatches: one per unit, in unit order.
pub open spec fn plan_spec(t: Seq<char>, units: Seq<Seq<char>>, mode: SubstitutionMode) -> Seq<
    Seq<char>,
> {
    Seq::new(units.len(), |i: int| expand_spec(t, units[i], mode))
}

/// The dispatch engine of one invocation. It starts idle with the full plan,
/// hands commands out in input order while dispatching, and is done once
/// every unit has been attempted.
pub struct DispatchEngine {
    commands: Vec<String>,
    next: usize,
}

impl DispatchEngine {
    /// The full plan: every command of this invocation, in input order.
    pub closed spec fn plan(self) -> Seq<Seq<char>> {
        self.commands.deep_view()
    }

    /// How many commands have been handed out so far.
    pub closed spec fn dispatched(self) -> int {
        self.next as int
    }

    /// The engine never hands out past the end of its plan.
    pub closed spec fn wf(self) -> bool {
        self.next <= self.commands.len()
    }

    /// Sets up the engine: expands one command per unit, in input order.
    /// An empty unit sequence gives an empty plan and an engine that is done
    /// at once — zero executions, and no error.
    pub fn new(template: &str, units: &Vec<String>, mode: SubstitutionMode) -> (r: Self)
        ensures
            r.wf(),
            r.dispatched() == 0,
            r.plan() == plan_spec(template@, units.deep_view(), mode),
    {
        let mut commands: Vec<String> = Vec::new();
        let mut k: usize = 0;
        while k < units.len()
            invariant
                k <= units.len(),
                commands.len() == k,
                forall|i: int|
                    0 <= i < k ==> (#[trigger] commands@[i])@ == expand_spec(
                        template@,
                        units@[i]@,
                        mode,
                    ),
            decreases units.len() - k,
        {
            let cmd = expand(template, units[k].as_str(), mode);
            commands.push(cmd);
            k = k + 1;
        }
        proof {
            assert(commands.deep_view() =~= plan_spec(template@, units.deep_view(), mode));
        }
        DispatchEngine { commands, next: 0 }
    }

    /// Whether every command has been handed out.
    pub fn is_done(&self) -> (r: bool)
        requires
            self.wf(),
        ensures
            r == (self.dispatched() == self.plan().len()),
    {
        self.next == self.commands.len()
    }

    /// Hands out the next command, in input order, or nothing once the plan
    /// is exhausted. No execution outcome is consulted here: whether the
    /// previous command succeeded or failed, the next unit is attempted.
    pub fn next_command(&mut self) -> (r: Option<String>)
        requires
            old(self).wf(),
        ensures
            final(self).wf(),
            final(self).plan() == old(self).plan(),
            old(self).dispatched() < old(self).plan().len() ==> {
                &&& r matches Some(c) && c@ == old(self).plan()[old(self).dispatched()]
                &&& final(self).dispatched() == old(self).dispatched() + 1
            },
            old(self).dispatched() == old(self).plan().len() ==> {
                &&& r is None
                &&& final(self).dispatched() == old(self).dispatched()
            },
    {
        if self.next < self.commands.len() {
            let c = self.commands[self.next].clone();
            self.next = self.next + 1;
            Some(c)
        } else {
            None
        }
    }

    /// Gives the whole plan out at once, for a caller that dispatches the
    /// commands concurrently.
    pub fn into_commands(self) -> (r: Vec<String>)
        ensures
            r.deep_view() == self.plan(),
    {
        self.commands
    }
}

/// The one diagnostic line emitted for a failed command: the failing command
/// text together with the underlying error.
pub open spec fn failure_line_spec(cmd: Seq<char>, diag: Seq<char>) -> Seq<char> {
    "failed to execute '"@ + cmd + "': "@ + diag
}

/// Turns one unit's outcome into the diagnostic line to log: nothing on
/// success, one line naming the failing command and the underlying error on
/// failure. A failure produces this line and nothing else — it does not stop
/// the engine.
pub fn failure_log_line(command: &str, result: &ExecutionResult) -> (log: Option<String>)
    ensures
        result.success <==> log is None,
        !result.success ==> (log matches Some(l) && l@ == failure_line_spec(
            command@,
            result.diag_text(),
        )),
{
    if result.success {
        None
    } else {
        let mut l = String::from_str("failed to execute '");
        l.append(command);
        l.append("': ");
        match &result.diagnostic {
            Some(d) => l.append(d.as_str()),
            None => {
                proof {
                    assert(l@ + Seq::<char>::empty() =~= l@);
                }
            },
        }
        Some(l)
    }
}

/// Law: dispatch follows input order. The plan has exactly one command per
/// unit, and its `i`-th command is the expansion of the `i`-th unit — so the
/// `i`-th attempt of a sequential run is always the `i`-th unit's command,
/// whatever the outcomes of the attempts before it (no outcome reaches the
/// engine's state at all; see [`DispatchEngine::next_command`]).
pub proof fn lemma_dispatch_in_input_order(
    t: Seq<char>,
    units: Seq<Seq<char>>,
    mode: SubstitutionMode,
    i: int,
)
    requires
        0 <= i < units.len(),
    ensures
        plan_spec(t, units, mode).len() == units.len(),
        plan_spec(t, units, mode)[i] == expand_spec(t, units[i], mode),
{
}

/// Law: an empty input stream normalizes to itself and yields no units, so
/// the plan is empty and the engine performs zero executions and completes
/// without error.
pub proof fn lemma_empty_input_dispatches_nothing(t: Seq<char>, mode: SubstitutionMode)
    ensures
        trim_spec(Seq::<char>::empty()) == Seq::<char>::empty(),
        split_lines_spec(Seq::<char>::empty()) == Seq::<Seq<char>>::empty(),
        plan_spec(t, split_lines_spec(Seq::<char>::empty()), mode) == Seq::<Seq<char>>::empty(),
{
    assert(split_lines_spec(Seq::<char>::empty()) =~= Seq::<Seq<char>>::empty());
    assert(plan_spec(t, Seq::<Seq<char>>::empty(), mode) =~= Seq::<Seq<char>>::empty());
}

/// Reading a sequence's entries through any injective, in-range index order
/// keeps the multiset of entries, as long as every index is read.
proof fn lemma_reorder_keeps_multiset<A>(s: Seq<A>, order: Seq<int>)
    requires
        order.len() == s.len(),
        forall|k: int| 0 <= k < order.len() ==> 0 <= #[trigger] order[k] < s.len(),
        order.no_duplicates(),
    ensures
        Seq::new(order.len(), |k: int| s[order[k]]).to_multiset() == s.to_multiset(),
    decreases s.len(),
{
    broadcast use vstd::seq_lib::group_to_multiset_ensures;
    broadcast use vstd::set::group_set_axioms;
    broadcast use vstd::multiset::group_multiset_axioms;

    let reordered = Seq::new(order.len(), |k: int| s[order[k]]);
    if s.len() == 0 {
        assert(reordered =~= s);
    } else {
        let n = s.len() as int;
        assert(exists|k: int| 0 <= k < n && order[k] == n - 1) by {
            if forall|k: int| 0 <= k < n ==> #[trigger] order[k] != n - 1 {
                order.unique_seq_to_set();
                lemma_int_range(0, n - 1);
                assert(order.to_set().subset_of(set_int_range(0, n - 1))) by {
                    assert forall|x: int| order.to_set().contains(x) implies set_int_range(
                        0,
                        n - 1,
                    ).contains(x) by {
                        let k = choose|k: int| 0 <= k < order.len() && order[k] == x;
                        assert(0 <= x < n && x != n - 1);
                    }
                }
                lemma_len_subset(order.to_set(), set_int_range(0, n - 1));
            }
        }
        let k = choose|k: int| 0 <= k < n && order[k] == n - 1;
        let s2 = s.drop_last();
        let order2 = order.remove(k);
        assert(order2.no_duplicates()) by {
            assert(forall|i: int, j: int|
                0 <= i < j < order2.len() ==> #[trigger] order2[i] != #[trigger] order2[j]);
        }
        assert(forall|j: int| 0 <= j < order2.len() ==> 0 <= #[trigger] order2[j] < n - 1);
        lemma_reorder_keeps_multiset(s2, order2);
        let reordered2 = Seq::new(order2.len(), |j: int| s2[order2[j]]);
        assert(reordered.remove(k) =~= reordered2);
        assert(reordered.remove(k).to_multiset() == reordered.to_multiset().remove(reordered[k]));
        assert(reordered[k] == s.last());
        assert(s2.push(s.last()) =~= s);
        assert(s.to_multiset() == s2.to_multiset().insert(s.last()));
        assert(reordered.contains(s.last())) by {
            assert(reordered[k] == s.last());
        }
        assert(reordered.to_multiset().count(s.last()) > 0);
        assert(reordered.to_multiset() =~= s.to_multiset()) by {
            assert(s.to_multiset() == reordered.to_multiset().remove(s.last()).insert(s.last()));
            assert(forall|v: A| #[trigger]
                s.to_multiset().count(v) == reordered.to_multiset().count(v));
        }
    }
}

/// Law: parallel dispatch attempts every unit exactly once. Whatever order
/// the concurrent executions complete in — any injective, covering reading of
/// the plan — the multiset of executed command strings is exactly the one a
/// sequential run of the same units produces.
pub proof fn lemma_parallel_covers_all_units(
    t: Seq<char>,
    units: Seq<Seq<char>>,
    mode: SubstitutionMode,
    order: Seq<int>,
)
    requires
        order.len() == units.len(),
        forall|k: int| 0 <= k < order.len() ==> 0 <= #[trigger] order[k] < units.len(),
        order.no_duplicates(),
    ensures
        Seq::new(order.len(), |k: int| plan_spec(t, units, mode)[order[k]]).to_multiset()
            == plan_spec(t, units, mode).to_multiset(),
{
    lemma_reorder_keeps_multiset(plan_spec(t, units, mode), order);
}

} // verus!
