use vstd::prelude::*;
use vstd::string::*;

use super::recorder::Environment;

verus! {

/// A fault that is planted in a tree before it is copied.
#[derive(Debug, Clone, Copy, PartialEq, Eq, Structural)]
pub enum Fault {
    PermissionDenied,
    DestExists,
    CaseCollision,
    ReservedName,
}

/// The name of the error that a fault is to produce.
pub open spec fn expected_name(fault: Fault) -> Seq<char> {
    match fault {
        Fault::PermissionDenied => "PermissionDenied"@,
        Fault::DestExists => "DestExists"@,
        Fault::CaseCollision => "CaseCollision"@,
        Fault::ReservedName => "ReservedName"@,
    }
}

/// Whether a fault can come about. Two names that differ by case need a source that can hold
/// both and a destination that cannot; a reserved name needs a destination that reserves it.
pub open spec fn reachable(fault: Fault, env: Environment, unix: bool) -> bool {
    match fault {
        Fault::PermissionDenied => unix,
        Fault::DestExists => true,
        Fault::CaseCollision => !env.source_case_insensitive && env.dest_case_insensitive,
        Fault::ReservedName => env.dest_windows_naming_rules,
    }
}

/// The faults that do not depend on the file systems.
pub open spec fn universal_faults() -> Seq<Fault> {
    seq![Fault::PermissionDenied, Fault::DestExists]
}

/// The faults that come about only between certain file systems.
pub open spec fn conditional_faults() -> Seq<Fault> {
    seq![Fault::CaseCollision, Fault::ReservedName]
}

/// All faults, in the order they are planted.
pub open spec fn all_faults() -> Seq<Fault> {
    universal_faults() + conditional_faults()
}

impl Fault {
    /// The faults that do not depend on the file systems.
    pub fn universal() -> (r: Vec<Fault>)
        ensures
            r@ == universal_faults(),
    {
        vec![Fault::PermissionDenied, Fault::DestExists]
    }

    /// The faults that come about only between certain file systems.
    pub fn destination_conditional() -> (r: Vec<Fault>)
        ensures
            r@ == conditional_faults(),
    {
        vec![Fault::CaseCollision, Fault::ReservedName]
    }

    /// The name of the error that the fault is to produce.
    pub fn expected_error_name(self) -> (r: &'static str)
        ensures
            r@ == expected_name(self),
    {
        match self {
            Fault::PermissionDenied => "PermissionDenied",
            Fault::DestExists => "DestExists",
            Fault::CaseCollision => "CaseCollision",
            Fault::ReservedName => "ReservedName",
        }
    }

    /// Whether the fault can come about.
    pub fn is_reachable(self, env: &Environment, unix: bool) -> (r: bool)
        ensures
            r == reachable(self, *env, unix),
    {
        match self {
            Fault::PermissionDenied => unix,
            Fault::DestExists => true,
            Fault::CaseCollision => !env.source_case_insensitive && env.dest_case_insensitive,
            Fault::ReservedName => env.dest_windows_naming_rules,
        }
    }
}

/// The faults that are planted: all that can come about.
pub fn plant(env: &Environment, unix: bool) -> (r: Vec<Fault>)
    ensures
        r@ == all_faults().filter(|f: Fault| reachable(f, *env, unix)),
{
    let mut all = Fault::universal();
    let mut conditional = Fault::destination_conditional();
    all.append(&mut conditional);
    assert(all@ =~= all_faults());
    let mut planted: Vec<Fault> = Vec::new();
    let mut i: usize = 0;
    proof {
        reveal(Seq::filter);
        assert(all@.take(0) =~= Seq::<Fault>::empty());
    }
    while i < all.len()
        invariant
            i <= all@.len(),
            planted@ == all@.take(i as int).filter(|f: Fault| reachable(f, *env, unix)),
        decreases all@.len() - i,
    {
        proof {
            reveal(Seq::filter);
            assert(all@.take(i + 1).drop_last() =~= all@.take(i as int));
            assert(all@.take(i + 1).last() == all@[i as int]);
        }
        if all[i].is_reachable(env, unix) {
            planted.push(all[i]);
        }
        i = i + 1;
    }
    assert(all@.take(all@.len() as int) =~= all@);
    planted
}

/// A fault is planted if and only if it can come about, and each at most once.
pub proof fn lemma_reachable_faults_are_planted(env: Environment, unix: bool, fault: Fault)
    ensures
        ({
            let planted = all_faults().filter(|f: Fault| reachable(f, env, unix));
            &&& planted.contains(fault) <==> reachable(fault, env, unix)
            &&& planted.no_duplicates()
        }),
{
    let keep = |f: Fault| reachable(f, env, unix);
    let all = all_faults();
    let planted = all.filter(keep);
    assert(all.len() == 4);
    assert(all[0] == Fault::PermissionDenied && all[1] == Fault::DestExists && all[2]
        == Fault::CaseCollision && all[3] == Fault::ReservedName);
    assert(all.contains(fault)) by {
        match fault {
            Fault::PermissionDenied => {
                assert(all[0] == fault);
            },
            Fault::DestExists => {
                assert(all[1] == fault);
            },
            Fault::CaseCollision => {
                assert(all[2] == fault);
            },
            Fault::ReservedName => {
                assert(all[3] == fault);
            },
        }
    }
    if keep(fault) {
        let i = choose|i: int| 0 <= i < all.len() && all[i] == fault;
        all.lemma_filter_contains(keep, i);
    }
    if planted.contains(fault) {
        let i = choose|i: int| 0 <= i < planted.len() && planted[i] == fault;
        all.lemma_filter_pred(keep, i);
    }
    reveal_with_fuel(Seq::filter, 5);
    assert(all.drop_last() =~= seq![
        Fault::PermissionDenied,
        Fault::DestExists,
        Fault::CaseCollision,
    ]);
    assert(all.drop_last().drop_last() =~= seq![Fault::PermissionDenied, Fault::DestExists]);
    assert(all.drop_last().drop_last().drop_last() =~= seq![Fault::PermissionDenied]);
    assert(all.drop_last().drop_last().drop_last().drop_last() =~= Seq::<Fault>::empty());
}

/// Names that collide by case need a destination that takes them for one and a source that
/// does not; reserved names need a destination that reserves them. Neither depends on the
/// system, and what exists already is met everywhere.
pub proof fn lemma_faults_depend_on_the_file_systems(env: Environment, unix: bool)
    ensures
        env.source_case_insensitive == env.dest_case_insensitive ==> !reachable(
            Fault::CaseCollision,
            env,
            unix,
        ),
        !env.source_case_insensitive && env.dest_case_insensitive ==> reachable(
            Fault::CaseCollision,
            env,
            unix,
        ),
        env.source_case_insensitive ==> !reachable(Fault::CaseCollision, env, unix),
        reachable(Fault::ReservedName, env, unix) == env.dest_windows_naming_rules,
        reachable(Fault::PermissionDenied, env, unix) == unix,
        reachable(Fault::DestExists, env, unix),
{
}

} // verus!
