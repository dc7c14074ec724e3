use vstd::prelude::*;
use vstd::string::*;

use super::faults::Fault;
use crate::paths::FilePath;
use crate::text;

verus! {

/// A file that was spoiled on purpose, and how.
#[derive(Debug)]
pub struct SabotagedEntry {
    pub relative_path: FilePath,
    pub fault: Fault,
}

/// One file of the tree that is to be copied, and what is done to it.
#[derive(Debug)]
pub struct Fixture {
    /// The file as it is written first.
    pub file: FilePath,
    /// A second file, whose name differs by case only.
    pub sibling: Option<FilePath>,
    /// The name that the file gets in the end, where that is another one.
    pub renamed: Option<FilePath>,
    pub sabotaged: SabotagedEntry,
}

/// The name of the file at `i`.
pub open spec fn entry_name(i: nat) -> Seq<char> {
    "entry_"@ + text::decimal(i) + ".txt"@
}

/// The name that differs by case only from that of the file at `i`.
pub open spec fn sibling_name(i: nat) -> Seq<char> {
    "ENTRY_"@ + text::decimal(i) + ".txt"@
}

/// Whether `fixture` carries that fault, as the file at `i`.
pub open spec fn carries(fixture: Fixture, i: nat, fault: Fault) -> bool {
    &&& fixture.file.text@ == entry_name(i)
    &&& fixture.sabotaged.fault == fault
    &&& match fault {
        Fault::CaseCollision => {
            &&& fixture.sibling matches Some(sibling)
            &&& sibling.text@ == sibling_name(i)
        },
        _ => fixture.sibling is None,
    }
    &&& match fault {
        Fault::ReservedName => {
            &&& fixture.renamed matches Some(renamed)
            &&& renamed.text@ == "CON"@
            &&& fixture.sabotaged.relative_path.text@ == "CON"@
        },
        _ => {
            &&& fixture.renamed is None
            &&& fixture.sabotaged.relative_path.text@ == entry_name(i)
        },
    }
}

fn numbered(prefix: &str, i: usize) -> (r: FilePath)
    ensures
        r.text@ == prefix@ + text::decimal(i as nat) + ".txt"@,
{
    let number = text::to_decimal(i as u64);
    let name = text::concat2(prefix, number.as_str());
    FilePath { text: text::extend(name, ".txt") }
}

/// The tree that carries one fault per file.
pub fn build(faults: &Vec<Fault>) -> (r: Vec<Fixture>)
    ensures
        r@.len() == faults@.len(),
        forall|i: int|
            0 <= i < r@.len() ==> carries(#[trigger] r@[i], i as nat, faults@[i]),
{
    let mut out: Vec<Fixture> = Vec::with_capacity(faults.len());
    let mut i: usize = 0;
    while i < faults.len()
        invariant
            i <= faults@.len(),
            out@.len() == i,
            forall|j: int| 0 <= j < i ==> carries(#[trigger] out@[j], j as nat, faults@[j]),
        decreases faults@.len() - i,
    {
        proof {
            reveal_strlit("CON");
        }
        let fault = faults[i];
        let file = numbered("entry_", i);
        let sibling = match fault {
            Fault::CaseCollision => Some(numbered("ENTRY_", i)),
            _ => None,
        };
        let (renamed, relative_path) = match fault {
            Fault::ReservedName => (Some(FilePath::new("CON")), FilePath::new("CON")),
            _ => (None, file.clone()),
        };
        out.push(
            Fixture { file, sibling, renamed, sabotaged: SabotagedEntry { relative_path, fault } },
        );
        i = i + 1;
    }
    out
}

proof fn lemma_decimal_digits(n: nat)
    ensures
        text::decimal(n).len() > 0,
    decreases n,
{
    if n >= 10 {
        lemma_decimal_digits(n / 10);
    }
}

proof fn lemma_digit_injective(a: nat, b: nat)
    requires
        a < 10,
        b < 10,
        text::digit(a) == text::digit(b),
    ensures
        a == b,
{
    assert(((48 + a) as u8) as char == ((48 + b) as u8) as char);
    assert((48 + a) as u8 == 48 + a);
    assert((48 + b) as u8 == 48 + b);
}

/// Two numbers with the same digits are equal.
proof fn lemma_decimal_injective(a: nat, b: nat)
    requires
        text::decimal(a) == text::decimal(b),
    ensures
        a == b,
    decreases a + b,
{
    let x = text::decimal(a);
    let y = text::decimal(b);
    if a < 10 && b < 10 {
        assert(x == seq![text::digit(a)] && y == seq![text::digit(b)]);
        assert(x[0] == y[0]);
        lemma_digit_injective(a, b);
    } else if a < 10 {
        lemma_decimal_digits(b / 10);
        assert(x.len() == 1 && y.len() > 1);
    } else if b < 10 {
        lemma_decimal_digits(a / 10);
        assert(y.len() == 1 && x.len() > 1);
    } else {
        assert(x == text::decimal(a / 10).push(text::digit(a % 10)));
        assert(y == text::decimal(b / 10).push(text::digit(b % 10)));
        assert(x.last() == y.last());
        lemma_digit_injective(a % 10, b % 10);
        assert(x.drop_last() =~= text::decimal(a / 10));
        assert(y.drop_last() =~= text::decimal(b / 10));
        lemma_decimal_injective(a / 10, b / 10);
    }
}

/// No two files of the tree have the same name.
pub proof fn lemma_entry_names_are_distinct(a: nat, b: nat)
    requires
        a != b,
    ensures
        entry_name(a) != entry_name(b),
{
    if entry_name(a) == entry_name(b) {
        let x = entry_name(a);
        let y = entry_name(b);
        let m = "entry_"@.len() as int;
        let n = ".txt"@.len() as int;
        assert(x.subrange(m, x.len() - n) =~= text::decimal(a));
        assert(y.subrange(m, y.len() - n) =~= text::decimal(b));
        lemma_decimal_injective(a, b);
    }
}

/// The two names of a collision differ, but not once they are lowered.
pub proof fn lemma_siblings_differ_by_case_only(i: nat)
    ensures
        entry_name(i) != sibling_name(i),
        text::lowered(entry_name(i)) == text::lowered(sibling_name(i)),
{
    reveal_strlit("entry_");
    reveal_strlit("ENTRY_");
    let a = entry_name(i);
    let b = sibling_name(i);
    assert(a[0] == 'e' && b[0] == 'E');
    assert(text::lower_char('E') == text::lower_char('e'));
    assert(text::lower_char('N') == text::lower_char('n'));
    assert(text::lower_char('T') == text::lower_char('t'));
    assert(text::lower_char('R') == text::lower_char('r'));
    assert(text::lower_char('Y') == text::lower_char('y'));
    assert forall|j: int| 0 <= j < a.len() implies text::lowered(a)[j] == text::lowered(b)[j] by {
        if j >= 6 {
            assert(a[j] == b[j]);
        } else {
            assert(a[j] == "entry_"@[j]);
            assert(b[j] == "ENTRY_"@[j]);
        }
    }
    assert(text::lowered(a) =~= text::lowered(b));
}

/// A fixture is spoiled as its fault says and in no other way: only a collision has a second
/// file, and only a reserved name is renamed. Its report names the file as it is in the end.
pub proof fn lemma_fixture_carries_one_fault(fixture: Fixture, i: nat, fault: Fault)
    requires
        carries(fixture, i, fault),
    ensures
        fixture.sibling is Some <==> fault == Fault::CaseCollision,
        fixture.renamed is Some <==> fault == Fault::ReservedName,
        fixture.sabotaged.relative_path.text@ == match fixture.renamed {
            Some(renamed) => renamed.text@,
            None => fixture.file.text@,
        },
        fixture.sibling matches Some(sibling) ==> sibling.text@ != fixture.file.text@
            && text::lowered(sibling.text@) == text::lowered(fixture.file.text@),
        fixture.sabotaged.fault == fault,
{
    lemma_siblings_differ_by_case_only(i);
}

} // verus!
