use vstd::prelude::*;
use vstd::string::*;

use super::faults;
use super::faults::Fault;
use super::fixtures::SabotagedEntry;
use crate::error::Error;
use crate::paths::{FilePath, PathModel};
use crate::planner::outcome::OperationOutcome;
use crate::profiler::Entry;
use crate::text;

verus! {

/// Whether a planted fault came out as the error that it was to produce.
#[derive(Debug)]
pub struct CheckResult {
    pub relative_path: FilePath,
    pub expected: &'static str,
    pub observed: Option<&'static str>,
    pub passed: bool,
}

/// The name of an error's variant.
pub open spec fn variant_name(error: Error) -> Seq<char> {
    match error {
        Error::SourceNotFound { .. } => "SourceNotFound"@,
        Error::DestExists { .. } => "DestExists"@,
        Error::Cancelled => "Cancelled"@,
        Error::NoSpace { .. } => "NoSpace"@,
        Error::PermissionDenied { .. } => "PermissionDenied"@,
        Error::Io { .. } => "Io"@,
        Error::UnknownCompressFormat { .. } => "UnknownCompressFormat"@,
        Error::InvalidGlobPattern { .. } => "InvalidGlobPattern"@,
        Error::GzipRequiresFile { .. } => "GzipRequiresFile"@,
        Error::CaseCollision { .. } => "CaseCollision"@,
        Error::FileTooLargeForDest { .. } => "FileTooLargeForDest"@,
        Error::ReservedName { .. } => "ReservedName"@,
        Error::FilesystemIntegrityRisk { .. } => "FilesystemIntegrityRisk"@,
        Error::DuplicateSourceName { .. } => "DuplicateSourceName"@,
        Error::InvalidSourceName { .. } => "InvalidSourceName"@,
        Error::RemoveCriteriaRequired => "RemoveCriteriaRequired"@,
        Error::TrashFailed { .. } => "TrashFailed"@,
    }
}

/// The name of an error's variant.
pub fn error_variant_name(error: &Error) -> (r: &'static str)
    ensures
        r@ == variant_name(*error),
{
    match error {
        Error::SourceNotFound { .. } => "SourceNotFound",
        Error::DestExists { .. } => "DestExists",
        Error::Cancelled => "Cancelled",
        Error::NoSpace { .. } => "NoSpace",
        Error::PermissionDenied { .. } => "PermissionDenied",
        Error::Io { .. } => "Io",
        Error::UnknownCompressFormat { .. } => "UnknownCompressFormat",
        Error::InvalidGlobPattern { .. } => "InvalidGlobPattern",
        Error::GzipRequiresFile { .. } => "GzipRequiresFile",
        Error::CaseCollision { .. } => "CaseCollision",
        Error::FileTooLargeForDest { .. } => "FileTooLargeForDest",
        Error::ReservedName { .. } => "ReservedName",
        Error::FilesystemIntegrityRisk { .. } => "FilesystemIntegrityRisk",
        Error::DuplicateSourceName { .. } => "DuplicateSourceName",
        Error::InvalidSourceName { .. } => "InvalidSourceName",
        Error::RemoveCriteriaRequired => "RemoveCriteriaRequired",
        Error::TrashFailed { .. } => "TrashFailed",
    }
}

/// The first failure of the entry at `path`.
pub open spec fn first_failure(failed: Seq<(Entry, Error)>, path: PathModel) -> Option<Error>
    decreases failed.len(),
{
    if failed.len() == 0 {
        None
    } else {
        match first_failure(failed.drop_last(), path) {
            Some(error) => Some(error),
            None => if failed.last().0.relative_path@ == path {
                Some(failed.last().1)
            } else {
                None
            },
        }
    }
}

fn find_failure<'a>(failed: &'a Vec<(Entry, Error)>, path: &FilePath) -> (r: Option<&'a Error>)
    ensures
        match r {
            Some(error) => first_failure(failed@, path@) == Some(*error),
            None => first_failure(failed@, path@) is None,
        },
{
    let mut i: usize = 0;
    assert(failed@.take(0) =~= Seq::<(Entry, Error)>::empty());
    while i < failed.len()
        invariant
            i <= failed@.len(),
            first_failure(failed@.take(i as int), path@) is None,
        decreases failed@.len() - i,
    {
        assert(failed@.take(i + 1).drop_last() =~= failed@.take(i as int));
        assert(failed@.take(i + 1).last() == failed@[i as int]);
        if failed[i].0.relative_path.same_path(path) {
            proof {
                lemma_first_failure_stays(failed@, path@, i + 1);
            }
            return Some(&failed[i].1);
        }
        i = i + 1;
    }
    assert(failed@.take(failed@.len() as int) =~= failed@);
    None
}

/// A failure that was found first stays the first, whatever comes behind it.
proof fn lemma_first_failure_stays(failed: Seq<(Entry, Error)>, path: PathModel, count: int)
    requires
        0 <= count <= failed.len(),
        first_failure(failed.take(count), path) is Some,
    ensures
        first_failure(failed, path) == first_failure(failed.take(count), path),
    decreases failed.len(),
{
    if count == failed.len() {
        assert(failed.take(count) =~= failed);
    } else {
        assert(failed.drop_last().take(count) =~= failed.take(count));
        lemma_first_failure_stays(failed.drop_last(), path, count);
    }
}

/// Whether `result` tells what became of the fault of `entry`.
pub open spec fn tells(
    result: CheckResult,
    entry: SabotagedEntry,
    failed: Seq<(Entry, Error)>,
) -> bool {
    let seen = first_failure(failed, entry.relative_path@);
    &&& result.relative_path == entry.relative_path
    &&& result.expected@ == faults::expected_name(entry.fault)
    &&& match (result.observed, seen) {
        (Some(name), Some(error)) => name@ == variant_name(error),
        (None, None) => true,
        _ => false,
    }
    &&& result.passed == (seen matches Some(error) && variant_name(error)
        == faults::expected_name(entry.fault))
}

/// Tells of every planted fault what became of it.
pub fn check(outcome: &OperationOutcome, sabotaged: &Vec<SabotagedEntry>) -> (r: Vec<CheckResult>)
    ensures
        r@.len() == sabotaged@.len(),
        forall|i: int|
            0 <= i < r@.len() ==> tells(#[trigger] r@[i], sabotaged@[i], outcome.failed@),
{
    let mut out: Vec<CheckResult> = Vec::with_capacity(sabotaged.len());
    let mut i: usize = 0;
    while i < sabotaged.len()
        invariant
            i <= sabotaged@.len(),
            out@.len() == i,
            forall|j: int|
                0 <= j < i ==> tells(#[trigger] out@[j], sabotaged@[j], outcome.failed@),
        decreases sabotaged@.len() - i,
    {
        let entry = &sabotaged[i];
        let expected = entry.fault.expected_error_name();
        let (observed, passed) = match find_failure(&outcome.failed, &entry.relative_path) {
            Some(error) => {
                let name = error_variant_name(error);
                (Some(name), text::same(name, expected))
            },
            None => (None, false),
        };
        let result = CheckResult {
            relative_path: entry.relative_path.clone(),
            expected,
            observed,
            passed,
        };
        assert(tells(result, *entry, outcome.failed@));
        out.push(result);
        i = i + 1;
    }
    out
}

/// A fault and an error have one name if and only if the error is the one that the fault is to
/// produce.
pub proof fn lemma_fault_is_named_as_its_error(fault: Fault, error: Error)
    ensures
        variant_name(error) == faults::expected_name(fault) <==> match fault {
            Fault::PermissionDenied => error is PermissionDenied,
            Fault::DestExists => error is DestExists,
            Fault::CaseCollision => error is CaseCollision,
            Fault::ReservedName => error is ReservedName,
        },
{
    reveal_strlit("SourceNotFound");
    reveal_strlit("DestExists");
    reveal_strlit("Cancelled");
    reveal_strlit("NoSpace");
    reveal_strlit("PermissionDenied");
    reveal_strlit("Io");
    reveal_strlit("UnknownCompressFormat");
    reveal_strlit("InvalidGlobPattern");
    reveal_strlit("GzipRequiresFile");
    reveal_strlit("CaseCollision");
    reveal_strlit("FileTooLargeForDest");
    reveal_strlit("ReservedName");
    reveal_strlit("FilesystemIntegrityRisk");
    reveal_strlit("DuplicateSourceName");
    reveal_strlit("InvalidSourceName");
    reveal_strlit("RemoveCriteriaRequired");
    reveal_strlit("TrashFailed");
    let a = variant_name(error);
    let b = faults::expected_name(fault);
    if a == b {
        assert(a.len() == b.len());
        assert(a[0] == b[0]);
    }
}

/// The first failure of a path is a failure of that path with none before it; without a
/// failure of the path there is none.
pub proof fn lemma_first_failure_is_the_earliest(failed: Seq<(Entry, Error)>, path: PathModel)
    ensures
        first_failure(failed, path) matches Some(error) ==> exists|i: int|
            0 <= i < failed.len() && (#[trigger] failed[i]).0.relative_path@ == path && failed[i].1
                == error && forall|j: int|
                0 <= j < i ==> (#[trigger] failed[j]).0.relative_path@ != path,
        first_failure(failed, path) is None ==> forall|i: int|
            0 <= i < failed.len() ==> (#[trigger] failed[i]).0.relative_path@ != path,
    decreases failed.len(),
{
    if failed.len() > 0 {
        let front = failed.drop_last();
        lemma_first_failure_is_the_earliest(front, path);
        match first_failure(front, path) {
            Some(error) => {
                let i = choose|i: int|
                    0 <= i < front.len() && (#[trigger] front[i]).0.relative_path@ == path
                        && front[i].1 == error && forall|j: int|
                        0 <= j < i ==> (#[trigger] front[j]).0.relative_path@ != path;
                assert(failed[i] == front[i]);
                assert forall|j: int| 0 <= j < i implies (#[trigger] failed[j]).0.relative_path@
                    != path by {
                    assert(failed[j] == front[j]);
                }
            },
            None => {
                assert forall|j: int| 0 <= j < failed.len() - 1 implies (
                #[trigger] failed[j]).0.relative_path@ != path by {
                    assert(failed[j] == front[j]);
                }
                assert(failed[failed.len() - 1] == failed.last());
            },
        }
    }
}

/// A fault passes only where its path failed, and its first failure was the error that the
/// fault is to produce; one whose path did not fail never passes, and nothing is observed.
pub proof fn lemma_fault_passes_where_its_error_was_seen(
    result: CheckResult,
    entry: SabotagedEntry,
    failed: Seq<(Entry, Error)>,
    i: int,
)
    requires
        tells(result, entry, failed),
        0 <= i < failed.len(),
        failed[i].0.relative_path@ == entry.relative_path@,
        forall|j: int| 0 <= j < i ==> (#[trigger] failed[j]).0.relative_path@
            != entry.relative_path@,
    ensures
        result.observed is Some,
        result.observed->0@ == variant_name(failed[i].1),
        result.passed <==> variant_name(failed[i].1) == faults::expected_name(entry.fault),
        result.passed ==> result.observed->0@ == result.expected@,
{
    lemma_first_failure_is_the_earliest(failed, entry.relative_path@);
    let k = choose|k: int|
        0 <= k < failed.len() && (#[trigger] failed[k]).0.relative_path@ == entry.relative_path@
            && failed[k].1 == first_failure(failed, entry.relative_path@)->0 && forall|j: int|
            0 <= j < k ==> (#[trigger] failed[j]).0.relative_path@ != entry.relative_path@;
    if k < i {
        assert(failed[k].0.relative_path@ != entry.relative_path@);
    }
    if i < k {
        assert(failed[i].0.relative_path@ != entry.relative_path@);
    }
}

/// A fault whose path did not fail is one that did not come about.
pub proof fn lemma_unseen_fault_does_not_pass(
    result: CheckResult,
    entry: SabotagedEntry,
    failed: Seq<(Entry, Error)>,
)
    requires
        tells(result, entry, failed),
        forall|j: int| 0 <= j < failed.len() ==> (#[trigger] failed[j]).0.relative_path@
            != entry.relative_path@,
    ensures
        !result.passed,
        result.observed is None,
{
    lemma_first_failure_is_the_earliest(failed, entry.relative_path@);
}

/// A result tells of the fault that it was asked about, at the path where it was planted, and
/// observes something if and only if that path failed.
pub proof fn lemma_result_tells_of_its_fault(
    result: CheckResult,
    entry: SabotagedEntry,
    failed: Seq<(Entry, Error)>,
)
    requires
        tells(result, entry, failed),
    ensures
        result.relative_path == entry.relative_path,
        result.expected@ == faults::expected_name(entry.fault),
        result.observed is Some <==> first_failure(failed, entry.relative_path@) is Some,
        result.passed ==> result.observed is Some,
{
}

} // verus!
