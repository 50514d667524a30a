//! Plugins and the manager that initializes them in order.

use vstd::prelude::*;

verus! {

/// What a plugin offers: a name, and an initialization that may fail with
/// a message.
pub trait Plugin {
    /// The plugin's name.
    fn name(&self) -> &str;

    /// Prepares the plugin for use.
    fn initialize(&mut self) -> Result<(), String>;
}

/// The plugins, in the order in which they were added.
pub struct PluginManager<P: Plugin> {
    plugins: Vec<P>,
}

impl<P: Plugin> PluginManager<P> {
    /// The number of plugins.
    pub closed spec fn count(&self) -> nat {
        self.plugins@.len()
    }

    /// A manager without plugins.
    pub fn new() -> (r: Self)
        ensures
            r.count() == 0,
    {
        PluginManager { plugins: Vec::new() }
    }

    /// The number of plugins.
    pub fn len(&self) -> (n: usize)
        ensures
            n == self.count(),
    {
        self.plugins.len()
    }

    /// Adds a plugin after those already there.
    pub fn add_plugin(&mut self, plugin: P)
        ensures
            final(self).count() == old(self).count() + 1,
            final(self).plugins() == old(self).plugins().push(plugin),
    {
        self.plugins.push(plugin);
    }

    /// The plugins, in order.
    pub closed spec fn plugins(&self) -> Seq<P> {
        self.plugins@
    }

    /// Initializes the plugins in order and stops at the first that fails,
    /// with its message. Each outcome is what `initialize` returned for the
    /// plugin at that place, which the call took from what it was to what
    /// it now is; only the last outcome can be a failure, and the result
    /// is that failure, or success where there is none. The plugins after
    /// the one that failed are as they were, and every plugin stays in its
    /// place. With no plugin there is nothing that could fail.
    pub fn initialize_all(&mut self) -> (r: Result<(), String>)
        ensures
            final(self).count() == old(self).count(),
            old(self).count() == 0 ==> r is Ok,
            exists|outcomes: Seq<Result<(), String>>|
                {
                    &&& result_view(r) == #[trigger] first_failure_of(outcomes)
                    &&& outcomes.len() <= old(self).count()
                    &&& r is Ok ==> outcomes.len() == old(self).count()
                    &&& forall|i: int|
                        0 <= i < outcomes.len() ==> {
                            &&& (#[trigger] outcomes[i]) is Err ==> i == outcomes.len() - 1
                            &&& exists|m: &mut P|
                                {
                                    &&& *m == old(self).plugins()[i]
                                    &&& *final(m) == final(self).plugins()[i]
                                    &&& #[trigger] call_ensures(P::initialize, (m,), outcomes[i])
                                }
                        }
                    &&& forall|i: int|
                        outcomes.len() <= i < old(self).count() ==> final(self).plugins()[i] == old(
                            self,
                        ).plugins()[i]
                },
    {
        let ghost before = self.plugins@;
        let mut done: Vec<P> = Vec::new();
        let mut outcomes: Vec<Result<(), String>> = Vec::new();
        let mut failed = false;
        while self.plugins.len() > 0 && !failed
            invariant
                before == old(self).plugins@,
                done@.len() == outcomes@.len(),
                done@.len() + self.plugins@.len() == before.len(),
                self.plugins@ == before.subrange(done@.len() as int, before.len() as int),
                failed == (outcomes@.len() > 0 && outcomes@.last() is Err),
                forall|i: int|
                    0 <= i < outcomes@.len() ==> {
                        &&& (#[trigger] outcomes@[i]) is Err ==> i == outcomes@.len() - 1
                        &&& exists|m: &mut P|
                            {
                                &&& *m == before[i]
                                &&& *final(m) == done@[i]
                                &&& #[trigger] call_ensures(P::initialize, (m,), outcomes@[i])
                            }
                    },
            decreases self.plugins@.len() + if failed { 0nat } else { 1nat },
        {
            let ghost earlier = outcomes@;
            let ghost kept = done@;
            let mut plugin = self.plugins.remove(0);
            let ghost was = plugin;
            let outcome = plugin.initialize();
            assert(exists|m: &mut P|
                {
                    &&& *m == was
                    &&& *final(m) == plugin
                    &&& #[trigger] call_ensures(P::initialize, (m,), outcome)
                });
            failed = outcome.is_err();
            outcomes.push(outcome);
            done.push(plugin);
            assert(self.plugins@ =~= before.subrange(done@.len() as int, before.len() as int));
            assert forall|i: int| 0 <= i < outcomes@.len() implies {
                &&& (#[trigger] outcomes@[i]) is Err ==> i == outcomes@.len() - 1
                &&& exists|m: &mut P|
                    {
                        &&& *m == before[i]
                        &&& *final(m) == done@[i]
                        &&& #[trigger] call_ensures(P::initialize, (m,), outcomes@[i])
                    }
            } by {
                if i < earlier.len() {
                    assert(outcomes@[i] == earlier[i] && done@[i] == kept[i]);
                } else {
                    assert(outcomes@[i] == outcome && done@[i] == plugin && before[i] == was);
                }
            }
        }
        let ghost ran = done@;
        done.append(&mut self.plugins);
        self.plugins = done;
        let r = first_failure(&outcomes);
        proof {
            lemma_first_failure(outcomes@);
            assert forall|i: int| 0 <= i < outcomes@.len() implies self.plugins@[i] == ran[i] by {}
            assert(stops_at_failure(outcomes@));
        }
        r
    }
}

/// The view of a result: success, or the characters of the message.
pub open spec fn result_view(r: Result<(), String>) -> Result<(), Seq<char>> {
    match r {
        Ok(_) => Ok(()),
        Err(e) => Err(e@),
    }
}

/// The first failure among the outcomes, in order; success where there is
/// none.
pub open spec fn first_failure_of(outcomes: Seq<Result<(), String>>) -> Result<(), Seq<char>>
    decreases outcomes.len(),
{
    if outcomes.len() == 0 {
        Ok(())
    } else {
        match outcomes[0] {
            Err(e) => Err(e@),
            Ok(_) => first_failure_of(outcomes.drop_first()),
        }
    }
}

/// No outcome but the last is a failure: the work stopped at the first.
pub open spec fn stops_at_failure(outcomes: Seq<Result<(), String>>) -> bool {
    forall|i: int| 0 <= i < outcomes.len() - 1 ==> (#[trigger] outcomes[i]) is Ok
}

/// Where no outcome before `i` is a failure, the first failure is that
/// of the outcomes from `i` on.
pub proof fn lemma_first_failure_skip(outcomes: Seq<Result<(), String>>, i: int)
    requires
        0 <= i <= outcomes.len(),
        forall|j: int| 0 <= j < i ==> (#[trigger] outcomes[j]) is Ok,
    ensures
        first_failure_of(outcomes) == first_failure_of(
            outcomes.subrange(i, outcomes.len() as int),
        ),
    decreases i,
{
    if i == 0 {
        assert(outcomes.subrange(0, outcomes.len() as int) =~= outcomes);
    } else {
        let rest = outcomes.drop_first();
        assert forall|j: int| 0 <= j < i - 1 implies (#[trigger] rest[j]) is Ok by {
            assert(rest[j] == outcomes[j + 1]);
        }
        lemma_first_failure_skip(rest, i - 1);
        assert(rest.subrange(i - 1, rest.len() as int) =~= outcomes.subrange(
            i,
            outcomes.len() as int,
        ));
    }
}

/// Where the work stopped at the first failure, the first failure is the
/// last outcome, if that is one; else there is none.
pub proof fn lemma_first_failure(outcomes: Seq<Result<(), String>>)
    requires
        stops_at_failure(outcomes),
    ensures
        first_failure_of(outcomes) == if outcomes.len() > 0 {
            result_view(outcomes.last())
        } else {
            Ok(())
        },
{
    if outcomes.len() > 0 {
        let n = outcomes.len() as int;
        lemma_first_failure_skip(outcomes, n - 1);
        let tail = outcomes.subrange(n - 1, n);
        assert(tail[0] == outcomes.last());
        assert(tail.drop_first() =~= Seq::<Result<(), String>>::empty());
        assert(first_failure_of(tail.drop_first()) == Ok::<(), Seq<char>>(()));
    }
}

/// The first failure among the outcomes, in order; success where there is
/// none.
pub fn first_failure(outcomes: &Vec<Result<(), String>>) -> (r: Result<(), String>)
    ensures
        result_view(r) == first_failure_of(outcomes@),
{
    let mut i: usize = 0;
    while i < outcomes.len()
        invariant
            i <= outcomes@.len(),
            forall|j: int| 0 <= j < i ==> (#[trigger] outcomes@[j]) is Ok,
        decreases outcomes@.len() - i,
    {
        match &outcomes[i] {
            Err(e) => {
                proof {
                    lemma_first_failure_skip(outcomes@, i as int);
                    let tail = outcomes@.subrange(i as int, outcomes@.len() as int);
                    assert(tail[0] == outcomes@[i as int]);
                }
                return Err(e.clone());
            },
            Ok(_) => {},
        }
        i = i + 1;
    }
    proof {
        lemma_first_failure_skip(outcomes@, outcomes@.len() as int);
        assert(outcomes@.subrange(outcomes@.len() as int, outcomes@.len() as int)
            =~= Seq::<Result<(), String>>::empty());
    }
    Ok(())
}

} // verus!
