//! The shape catalog: every assignment of row counts to chips that fits the
//! shard budget, enumerated once ahead of any execution.

use crate::record::ExecutionRecord;
use crate::shape::Shape;
use crate::sizing::checked_pow2;
use vstd::arithmetic::power2::*;
use vstd::prelude::*;
use vstd::string::*;

verus! {

/// A chip as the catalog sees it: its name, the width of its table, and the
/// row counts that it may be given.
#[derive(Debug, Clone, PartialEq, Eq)]
pub struct ChipProfile {
    /// The chip's name.
    pub name: String,
    /// The number of columns of the chip's table.
    pub width: usize,
    /// The base-two logarithms of the row counts that the chip may have.
    /// `None` among them lets a shape leave the chip out.
    pub log2_choices: Vec<Option<usize>>,
}

/// One admissible assignment with the area that it commits.
#[derive(Debug, Clone, PartialEq, Eq)]
pub struct CatalogEntry {
    /// The choice made for each chip, in the order of the chips.
    pub log2_rows: Vec<Option<usize>>,
    /// The total committed area: the sum of rows times width over the chips.
    pub area: usize,
}

/// Why no catalog could be built.
#[derive(Debug, Clone, Copy, PartialEq, Eq, Structural)]
pub enum CatalogError {
    /// Two chips carry the same name.
    DuplicateChip,
}

/// The cells that one chip commits under `choice`.
pub open spec fn choice_area(width: nat, choice: Option<usize>) -> nat {
    match choice {
        Some(log2_rows) => width * pow2(log2_rows as nat),
        None => 0,
    }
}

/// The cells that the first `a.len()` chips commit under the assignment `a`.
pub open spec fn assignment_area(chips: Seq<ChipProfile>, a: Seq<Option<usize>>) -> nat
    decreases a.len(),
{
    if a.len() == 0 {
        0
    } else {
        assignment_area(chips, a.drop_last()) + choice_area(
            chips[a.len() - 1].width as nat,
            a.last(),
        )
    }
}

/// Whether `a` assigns to each of the first `len` chips one of its choices.
pub open spec fn admissible(chips: Seq<ChipProfile>, a: Seq<Option<usize>>, len: nat) -> bool {
    &&& a.len() == len
    &&& len <= chips.len()
    &&& forall|i: int| 0 <= i < len ==> chips[i].log2_choices@.contains(#[trigger] a[i])
}

/// Whether no two chips carry the same name.
pub open spec fn names_distinct(chips: Seq<ChipProfile>) -> bool {
    forall|i: int, j: int|
        0 <= i < j < chips.len() ==> (#[trigger] chips[i]).name@ != (#[trigger] chips[j]).name@
}

/// Whether the entry at index `k` holds the assignment `a`.
pub open spec fn entry_is(entries: Seq<CatalogEntry>, k: int, a: Seq<Option<usize>>) -> bool {
    0 <= k < entries.len() && entries[k].log2_rows@ == a
}

/// Whether some entry holds the assignment `a`.
pub open spec fn listed(entries: Seq<CatalogEntry>, a: Seq<Option<usize>>) -> bool {
    exists|k: int| entry_is(entries, k, a)
}

/// Whether the entry is an assignment to the first `len` chips that stays
/// within the budget, with its area recorded.
pub open spec fn entry_ok(chips: Seq<ChipProfile>, entry: CatalogEntry, len: nat, budget: nat) -> bool {
    &&& admissible(chips, entry.log2_rows@, len)
    &&& entry.area == assignment_area(chips, entry.log2_rows@)
    &&& entry.area <= budget
}

/// The assignment of entry `q` extended by choice `j` of the next chip.
pub open spec fn extension(
    entries: Seq<CatalogEntry>,
    q: int,
    choices: Seq<Option<usize>>,
    j: int,
) -> Seq<Option<usize>> {
    entries[q].log2_rows@.push(choices[j])
}

/// An assignment that is listed stays listed when an entry is added.
proof fn lemma_listed_push(entries: Seq<CatalogEntry>, entry: CatalogEntry, a: Seq<Option<usize>>)
    requires
        listed(entries, a),
    ensures
        listed(entries.push(entry), a),
{
    let k = choose|k: int| entry_is(entries, k, a);
    assert(entry_is(entries.push(entry), k, a));
}

/// The area of an assignment grows with every chip added to it.
proof fn lemma_area_push(chips: Seq<ChipProfile>, a: Seq<Option<usize>>, choice: Option<usize>)
    ensures
        assignment_area(chips, a.push(choice)) == assignment_area(chips, a) + choice_area(
            chips[a.len() as int].width as nat,
            choice,
        ),
{
    assert(a.push(choice).drop_last() =~= a);
}

/// The area that an assignment of area `area` has once the next chip, of
/// width `width`, is given `choice`; none when that exceeds the budget.
fn extended_area(area: usize, width: usize, choice: Option<usize>, budget: usize) -> (r: Option<
    usize,
>)
    ensures
        r == (if area + choice_area(width as nat, choice) <= budget {
            Some((area + choice_area(width as nat, choice)) as usize)
        } else {
            None
        }),
{
    if area > budget {
        return None;
    }
    let log2_rows: usize = match choice {
        Some(log2_rows) => log2_rows,
        None => {
            return Some(area);
        },
    };
    proof {
        lemma_pow2_pos(log2_rows as nat);
    }
    if width == 0 {
        assert(0 * pow2(log2_rows as nat) == 0);
        return Some(area);
    }
    let rows: usize = match checked_pow2(log2_rows) {
        Some(rows) => rows,
        None => {
            assert(width * pow2(log2_rows as nat) > usize::MAX) by (nonlinear_arith)
                requires
                    width >= 1,
                    pow2(log2_rows as nat) > usize::MAX,
            ;
            return None;
        },
    };
    let cells: usize = match rows.checked_mul(width) {
        Some(cells) => cells,
        None => {
            assert(width * rows == rows * width) by (nonlinear_arith);
            return None;
        },
    };
    assert(width * rows == rows * width) by (nonlinear_arith);
    if cells > budget - area {
        None
    } else {
        Some(area + cells)
    }
}

/// A copy of `prefix` with `choice` added at the end.
fn extended(prefix: &Vec<Option<usize>>, choice: Option<usize>) -> (r: Vec<Option<usize>>)
    ensures
        r@ == prefix@.push(choice),
{
    let mut out: Vec<Option<usize>> = Vec::new();
    let mut i: usize = 0;
    while i < prefix.len()
        invariant
            i <= prefix.len(),
            out@ == prefix@.take(i as int),
        decreases prefix.len() - i,
    {
        out.push(prefix[i]);
        assert(prefix@.take(i + 1) =~= prefix@.take(i as int).push(prefix@[i as int]));
        i = i + 1;
    }
    assert(prefix@.take(prefix.len() as int) =~= prefix@);
    out.push(choice);
    out
}

/// Whether no two chips carry the same name.
fn distinct_names(chips: &Vec<ChipProfile>) -> (r: bool)
    ensures
        r == names_distinct(chips@),
{
    let mut j: usize = 0;
    while j < chips.len()
        invariant
            j <= chips.len(),
            forall|a: int, b: int|
                0 <= a < b < j ==> (#[trigger] chips@[a]).name@ != (#[trigger] chips@[b]).name@,
        decreases chips.len() - j,
    {
        let mut i: usize = 0;
        while i < j
            invariant
                i <= j < chips.len(),
                forall|a: int| 0 <= a < i ==> (#[trigger] chips@[a]).name@ != chips@[j as int].name@,
            decreases j - i,
        {
            if chips[i].name == chips[j].name {
                assert(chips@[i as int].name@ == chips@[j as int].name@);
                return false;
            }
            i = i + 1;
        }
        j = j + 1;
    }
    true
}

/// All assignments to the first `len + 1` chips that stay within the
/// budget, given all such assignments to the first `len` chips.
fn extend_all(chips: &Vec<ChipProfile>, len: usize, partial: &Vec<CatalogEntry>, budget: usize) -> (next:
    Vec<CatalogEntry>)
    requires
        len < chips.len(),
        forall|k: int| 0 <= k < partial.len() ==> entry_ok(chips@, #[trigger] partial[k], len as nat, budget as nat),
        forall|a: Seq<Option<usize>>|
            #[trigger] admissible(chips@, a, len as nat) && assignment_area(chips@, a) <= budget
                ==> listed(partial@, a),
    ensures
        forall|k: int|
            0 <= k < next.len() ==> entry_ok(chips@, #[trigger] next[k], (len + 1) as nat, budget as nat),
        forall|a: Seq<Option<usize>>|
            #[trigger] admissible(chips@, a, (len + 1) as nat) && assignment_area(chips@, a)
                <= budget ==> listed(next@, a),
{
    let chip = &chips[len];
    let ghost choices = chip.log2_choices@;
    let mut next: Vec<CatalogEntry> = Vec::new();
    let mut p: usize = 0;
    while p < partial.len()
        invariant
            p <= partial.len(),
            len < chips.len(),
            *chip == chips@[len as int],
            choices == chip.log2_choices@,
            forall|k: int|
                0 <= k < partial.len() ==> entry_ok(chips@, #[trigger] partial[k], len as nat, budget as nat),
            forall|k: int|
                0 <= k < next.len() ==> entry_ok(chips@, #[trigger] next[k], (len + 1) as nat, budget as nat),
            forall|q: int, j: int|
                0 <= q < p && 0 <= j < choices.len() && partial[q].area + choice_area(
                    chip.width as nat,
                    choices[j],
                ) <= budget ==> listed(next@, #[trigger] extension(partial@, q, choices, j)),
        decreases partial.len() - p,
    {
        let mut j: usize = 0;
        while j < chip.log2_choices.len()
            invariant
                p < partial.len(),
                j <= choices.len(),
                len < chips.len(),
                *chip == chips@[len as int],
                choices == chip.log2_choices@,
                forall|k: int|
                    0 <= k < partial.len() ==> entry_ok(
                        chips@,
                        #[trigger] partial[k],
                        len as nat,
                        budget as nat,
                    ),
                forall|k: int|
                    0 <= k < next.len() ==> entry_ok(
                        chips@,
                        #[trigger] next[k],
                        (len + 1) as nat,
                        budget as nat,
                    ),
                forall|q: int, i: int|
                    0 <= q < p && 0 <= i < choices.len() && partial[q].area + choice_area(
                        chip.width as nat,
                        choices[i],
                    ) <= budget ==> listed(next@, #[trigger] extension(partial@, q, choices, i)),
                forall|i: int|
                    0 <= i < j && partial[p as int].area + choice_area(
                        chip.width as nat,
                        choices[i],
                    ) <= budget ==> listed(next@, #[trigger] extension(partial@, p as int, choices, i)),
            decreases choices.len() - j,
        {
            let choice = chip.log2_choices[j];
            match extended_area(partial[p].area, chip.width, choice, budget) {
                Some(area) => {
                    let entry = CatalogEntry { log2_rows: extended(&partial[p].log2_rows, choice), area };
                    proof {
                        let before = next@;
                        let after = next@.push(entry);
                        let prefix = partial[p as int].log2_rows@;
                        assert(entry_ok(chips@, partial[p as int], len as nat, budget as nat));
                        lemma_area_push(chips@, prefix, choice);
                        assert(choices.contains(choice)) by {
                            assert(choices[j as int] == choice);
                        }
                        assert forall|i: int| 0 <= i < len + 1 implies chips@[i].log2_choices@.contains(
                            #[trigger] entry.log2_rows@[i],
                        ) by {
                            if i < len {
                                assert(entry.log2_rows@[i] == prefix[i]);
                            }
                        }
                        assert(entry_ok(chips@, entry, (len + 1) as nat, budget as nat));
                        assert forall|q: int, i: int|
                            0 <= q < p && 0 <= i < choices.len() && partial[q].area + choice_area(
                                chip.width as nat,
                                choices[i],
                            ) <= budget implies listed(
                            after,
                            #[trigger] extension(partial@, q, choices, i),
                        ) by {
                            lemma_listed_push(before, entry, extension(partial@, q, choices, i));
                        }
                        assert forall|i: int|
                            0 <= i < j + 1 && partial[p as int].area + choice_area(
                                chip.width as nat,
                                choices[i],
                            ) <= budget implies listed(
                            after,
                            #[trigger] extension(partial@, p as int, choices, i),
                        ) by {
                            if i < j {
                                lemma_listed_push(
                                    before,
                                    entry,
                                    extension(partial@, p as int, choices, i),
                                );
                            } else {
                                assert(entry_is(
                                    after,
                                    before.len() as int,
                                    extension(partial@, p as int, choices, i),
                                ));
                            }
                        }
                    }
                    next.push(entry);
                },
                None => {},
            }
            j = j + 1;
        }
        p = p + 1;
    }
    proof {
        assert forall|a: Seq<Option<usize>>|
            #[trigger] admissible(chips@, a, (len + 1) as nat) && assignment_area(chips@, a)
                <= budget implies listed(next@, a) by {
            let prefix = a.drop_last();
            let choice = a.last();
            assert(a =~= prefix.push(choice));
            lemma_area_push(chips@, prefix, choice);
            assert(admissible(chips@, prefix, len as nat)) by {
                assert forall|i: int| 0 <= i < len implies chips@[i].log2_choices@.contains(
                    #[trigger] prefix[i],
                ) by {
                    assert(prefix[i] == a[i]);
                }
            }
            assert(listed(partial@, prefix));
            let q = choose|q: int| entry_is(partial@, q, prefix);
            assert(entry_ok(chips@, partial[q], len as nat, budget as nat));
            assert(choices.contains(a[len as int]));
            let j = choose|j: int| 0 <= j < choices.len() && choices[j] == choice;
            assert(extension(partial@, q, choices, j) =~= a);
        }
    }
    next
}

/// Why no shape could be selected.
#[derive(Debug, Clone, Copy, PartialEq, Eq, Structural)]
pub enum SelectError {
    /// No shape of the catalog gives every chip as many rows as it has
    /// events.
    NoCoveringShape,
}

impl SelectError {
    /// What went wrong, in words.
    pub open spec fn text(self) -> Seq<char> {
        "no shape of the catalog covers the event counts of the shard"@
    }

    /// What went wrong, in words.
    pub fn message(&self) -> (message: String)
        ensures
            message@ == self.text(),
    {
        String::from_str("no shape of the catalog covers the event counts of the shard")
    }
}

/// The number of rows that a choice gives a chip: none when it is left out.
pub open spec fn rows_bound(choice: Option<usize>) -> nat {
    match choice {
        Some(log2_rows) => pow2(log2_rows as nat),
        None => 0,
    }
}

/// Whether the assignment gives every chip at least as many rows as the
/// chip has events.
pub open spec fn covers(a: Seq<Option<usize>>, demand: Seq<usize>) -> bool {
    &&& a.len() == demand.len()
    &&& forall|i: int| 0 <= i < a.len() ==> demand[i] <= rows_bound(#[trigger] a[i])
}

/// The shape that an assignment stands for: an entry for each chip that is
/// given a row count, under the chip's name.
pub open spec fn shape_map(chips: Seq<ChipProfile>, a: Seq<Option<usize>>) -> Map<Seq<char>, usize>
    decreases a.len(),
{
    if a.len() == 0 {
        Map::empty()
    } else {
        let before = shape_map(chips, a.drop_last());
        match a.last() {
            Some(log2_rows) => before.insert(chips[a.len() - 1].name@, log2_rows),
            None => before,
        }
    }
}

/// With distinct names, the shape of an assignment has an entry for a chip
/// exactly when the assignment gives the chip a row count, and the entry
/// holds that count. It has no entry for a chip past the assignment.
pub proof fn lemma_shape_map(chips: Seq<ChipProfile>, a: Seq<Option<usize>>, i: int)
    requires
        names_distinct(chips),
        a.len() <= chips.len(),
        0 <= i < chips.len(),
    ensures
        shape_map(chips, a).contains_key(chips[i].name@) <==> i < a.len() && a[i] is Some,
        i < a.len() && a[i] is Some ==> shape_map(chips, a)[chips[i].name@] == a[i].unwrap(),
    decreases a.len(),
{
    if a.len() > 0 {
        lemma_shape_map(chips, a.drop_last(), i);
        let last = a.len() - 1;
        if i != last {
            if i < last {
                assert(chips[i].name@ != chips[last].name@);
            } else {
                assert(chips[last].name@ != chips[i].name@);
            }
        }
    }
}

/// The shape of an assignment has entries for chips of the assignment
/// only.
pub proof fn lemma_shape_map_keys(chips: Seq<ChipProfile>, a: Seq<Option<usize>>, name: Seq<char>)
    requires
        a.len() <= chips.len(),
        shape_map(chips, a).contains_key(name),
    ensures
        exists|i: int| 0 <= i < a.len() && (#[trigger] chips[i]).name@ == name,
    decreases a.len(),
{
    if a.len() > 0 {
        let last = a.len() - 1;
        if chips[last].name@ == name {
        } else {
            lemma_shape_map_keys(chips, a.drop_last(), name);
            let i = choose|i: int| 0 <= i < a.drop_last().len() && (#[trigger] chips[i]).name@ == name;
            assert(chips[i].name@ == name);
        }
    }
}

/// The number of events that `record` holds for each chip, in the order of
/// the chips.
pub open spec fn demand_of(chips: Seq<ChipProfile>, record: &ExecutionRecord) -> Seq<usize> {
    Seq::new(chips.len(), |i: int| record.events_of(chips[i].name@))
}

/// Whether the assignment gives every chip at least as many rows as the
/// chip has events.
fn covering(log2_rows: &Vec<Option<usize>>, demand: &Vec<usize>) -> (r: bool)
    ensures
        r == covers(log2_rows@, demand@),
{
    if log2_rows.len() != demand.len() {
        return false;
    }
    let mut i: usize = 0;
    while i < log2_rows.len()
        invariant
            i <= log2_rows.len(),
            log2_rows.len() == demand.len(),
            forall|j: int| 0 <= j < i ==> demand@[j] <= rows_bound(#[trigger] log2_rows@[j]),
        decreases log2_rows.len() - i,
    {
        let enough: bool = match log2_rows[i] {
            Some(power) => match checked_pow2(power) {
                Some(rows) => demand[i] <= rows,
                None => true,
            },
            None => demand[i] == 0,
        };
        if !enough {
            assert(demand@[i as int] > rows_bound(log2_rows@[i as int]));
            return false;
        }
        i = i + 1;
    }
    true
}

/// The finite set of shapes that a shard may take: every assignment of one
/// of its choices to each chip whose committed area is within the budget.
#[derive(Debug, Clone, PartialEq, Eq)]
pub struct ShapeCatalog {
    chips: Vec<ChipProfile>,
    budget: usize,
    entries: Vec<CatalogEntry>,
}

impl ShapeCatalog {
    /// The chips that the catalog shapes, in their fixed order.
    pub closed spec fn chips(&self) -> Seq<ChipProfile> {
        self.chips@
    }

    /// The shard budget: the most cells that a shape may commit.
    pub closed spec fn budget(&self) -> nat {
        self.budget as nat
    }

    /// The entries of the catalog, in the order of enumeration.
    pub closed spec fn entries(&self) -> Seq<CatalogEntry> {
        self.entries@
    }

    /// The catalog holds exactly the assignments that give each chip one of
    /// its choices and commit no more than the budget, each with its area.
    pub open spec fn wf(&self) -> bool {
        &&& names_distinct(self.chips())
        &&& forall|k: int|
            0 <= k < self.entries().len() ==> entry_ok(
                self.chips(),
                #[trigger] self.entries()[k],
                self.chips().len(),
                self.budget(),
            )
        &&& forall|a: Seq<Option<usize>>|
            #[trigger] admissible(self.chips(), a, self.chips().len()) && assignment_area(
                self.chips(),
                a,
            ) <= self.budget() ==> listed(self.entries(), a)
    }

    /// Whether entry `k` is the one to select for `demand`: it covers the
    /// demand, and every other covering entry commits a larger area, or the
    /// same area and comes later.
    pub open spec fn is_selection(&self, k: int, demand: Seq<usize>) -> bool {
        &&& 0 <= k < self.entries().len()
        &&& covers(self.entries()[k].log2_rows@, demand)
        &&& forall|j: int|
            0 <= j < self.entries().len() && covers((#[trigger] self.entries()[j]).log2_rows@, demand)
                ==> self.entries()[k].area < self.entries()[j].area || (self.entries()[k].area
                == self.entries()[j].area && k <= j)
    }

    /// Enumerates the catalog for `chips` under the shard budget `budget`,
    /// counted in cells. Chips must carry distinct names.
    pub fn new(chips: Vec<ChipProfile>, budget: usize) -> (r: Result<Self, CatalogError>)
        ensures
            r is Ok <==> names_distinct(chips@),
            match r {
                Ok(catalog) => catalog.wf() && catalog.chips() == chips@ && catalog.budget()
                    == budget,
                Err(e) => e == CatalogError::DuplicateChip,
            },
    {
        if !distinct_names(&chips) {
            return Err(CatalogError::DuplicateChip);
        }
        let mut entries: Vec<CatalogEntry> = Vec::new();
        entries.push(CatalogEntry { log2_rows: Vec::new(), area: 0 });
        proof {
            assert forall|a: Seq<Option<usize>>|
                #[trigger] admissible(chips@, a, 0) && assignment_area(chips@, a)
                    <= budget implies listed(entries@, a) by {
                assert(a =~= entries@[0].log2_rows@);
                assert(entry_is(entries@, 0, a));
            }
        }
        let mut len: usize = 0;
        while len < chips.len()
            invariant
                len <= chips.len(),
                forall|k: int|
                    0 <= k < entries.len() ==> entry_ok(
                        chips@,
                        #[trigger] entries[k],
                        len as nat,
                        budget as nat,
                    ),
                forall|a: Seq<Option<usize>>|
                    #[trigger] admissible(chips@, a, len as nat) && assignment_area(chips@, a)
                        <= budget ==> listed(entries@, a),
            decreases chips.len() - len,
        {
            entries = extend_all(&chips, len, &entries, budget);
            len = len + 1;
            proof {
                assert forall|a: Seq<Option<usize>>|
                    #[trigger] admissible(chips@, a, len as nat) && assignment_area(chips@, a)
                        <= budget implies listed(entries@, a) by {
                    assert(admissible(chips@, a, ((len - 1) + 1) as nat));
                }
            }
        }
        Ok(ShapeCatalog { chips, budget, entries })
    }

    /// The number of shapes in the catalog.
    pub fn len(&self) -> (n: usize)
        ensures
            n == self.entries().len(),
    {
        self.entries.len()
    }

    /// The shard budget that the catalog was built for.
    pub fn shard_budget(&self) -> (budget: usize)
        ensures
            budget == self.budget(),
    {
        self.budget
    }

    /// The entry at index `k`, if there is one.
    pub fn entry(&self, k: usize) -> (r: Option<&CatalogEntry>)
        ensures
            r == (if k < self.entries().len() {
                Some(&self.entries()[k as int])
            } else {
                None
            }),
    {
        if k < self.entries.len() {
            Some(&self.entries[k])
        } else {
            None
        }
    }

    /// Picks the entry for a shard whose chips have `demand` events each, in
    /// the order of the catalog's chips: the covering entry of least area,
    /// and among those of equal area the first.
    pub fn select_index(&self, demand: &Vec<usize>) -> (r: Result<usize, SelectError>)
        ensures
            match r {
                Ok(k) => self.is_selection(k as int, demand@),
                Err(e) => e == SelectError::NoCoveringShape && forall|k: int|
                    0 <= k < self.entries().len() ==> !covers(
                        (#[trigger] self.entries()[k]).log2_rows@,
                        demand@,
                    ),
            },
    {
        let mut best: Option<usize> = None;
        let mut k: usize = 0;
        while k < self.entries.len()
            invariant
                k <= self.entries.len(),
                match best {
                    Some(b) => {
                        &&& b < k
                        &&& covers(self.entries@[b as int].log2_rows@, demand@)
                        &&& forall|j: int|
                            0 <= j < k && covers((#[trigger] self.entries@[j]).log2_rows@, demand@)
                                ==> self.entries@[b as int].area < self.entries@[j].area || (
                            self.entries@[b as int].area == self.entries@[j].area && b <= j)
                    },
                    None => forall|j: int|
                        0 <= j < k ==> !covers((#[trigger] self.entries@[j]).log2_rows@, demand@),
                },
            decreases self.entries.len() - k,
        {
            if covering(&self.entries[k].log2_rows, demand) {
                let better: bool = match best {
                    Some(b) => self.entries[k].area < self.entries[b].area,
                    None => true,
                };
                if better {
                    best = Some(k);
                }
            }
            k = k + 1;
        }
        match best {
            Some(b) => Ok(b),
            None => Err(SelectError::NoCoveringShape),
        }
    }

    /// The shape that entry `k` stands for, if there is such an entry.
    pub fn shape_at(&self, k: usize) -> (r: Option<Shape>)
        requires
            self.wf(),
        ensures
            r is Some <==> k < self.entries().len(),
            r matches Some(shape) ==> shape@ == shape_map(
                self.chips(),
                self.entries()[k as int].log2_rows@,
            ),
    {
        if k >= self.entries.len() {
            return None;
        }
        let entry = &self.entries[k];
        assert(entry_ok(self.chips(), self.entries()[k as int], self.chips().len(), self.budget()));
        let mut shape = Shape::new();
        let mut i: usize = 0;
        while i < entry.log2_rows.len()
            invariant
                i <= entry.log2_rows.len(),
                entry.log2_rows.len() == self.chips.len(),
                shape@ == shape_map(self.chips@, entry.log2_rows@.take(i as int)),
            decreases entry.log2_rows.len() - i,
        {
            proof {
                let now = entry.log2_rows@.take(i + 1);
                assert(now.drop_last() =~= entry.log2_rows@.take(i as int));
                assert(now.last() == entry.log2_rows@[i as int]);
            }
            if let Some(log2_rows) = entry.log2_rows[i] {
                shape.insert(self.chips[i].name.as_str(), log2_rows);
            }
            i = i + 1;
        }
        assert(entry.log2_rows@.take(entry.log2_rows.len() as int) =~= entry.log2_rows@);
        Some(shape)
    }

    /// Selects the shape for a shard whose chips have `demand` events each,
    /// in the order of the catalog's chips.
    pub fn select(&self, demand: &Vec<usize>) -> (r: Result<Shape, SelectError>)
        requires
            self.wf(),
        ensures
            match r {
                Ok(shape) => exists|k: int| #[trigger]
                    self.is_selection(k, demand@) && shape@ == shape_map(
                        self.chips(),
                        self.entries()[k].log2_rows@,
                    ),
                Err(e) => e == SelectError::NoCoveringShape && forall|k: int|
                    0 <= k < self.entries().len() ==> !covers(
                        (#[trigger] self.entries()[k]).log2_rows@,
                        demand@,
                    ),
            },
    {
        match self.select_index(demand) {
            Ok(k) => {
                match self.shape_at(k) {
                    Some(shape) => {
                        assert(self.is_selection(k as int, demand@));
                        Ok(shape)
                    },
                    None => Err(SelectError::NoCoveringShape),
                }
            },
            Err(e) => Err(e),
        }
    }
}

impl ShapeCatalog {
    /// The number of events that `record` holds for each chip of the
    /// catalog, in the order of the chips.
    pub fn demand(&self, record: &ExecutionRecord) -> (demand: Vec<usize>)
        ensures
            demand@ == demand_of(self.chips(), record),
    {
        let mut demand: Vec<usize> = Vec::new();
        let mut i: usize = 0;
        while i < self.chips.len()
            invariant
                i <= self.chips.len(),
                demand@.len() == i,
                forall|j: int|
                    0 <= j < i ==> demand@[j] == record.events_of(self.chips@[j].name@),
            decreases self.chips.len() - i,
        {
            demand.push(record.event_count(self.chips[i].name.as_str()));
            i = i + 1;
        }
        assert(demand@ =~= demand_of(self.chips(), record));
        demand
    }

    /// Fixes the shape of a shard ahead of trace generation: selects the
    /// shape for the record's event counts and puts it into the record.
    /// Where no shape covers the record, the record is left as it was.
    pub fn fix_shape(&self, record: &mut ExecutionRecord) -> (r: Result<(), SelectError>)
        requires
            self.wf(),
        ensures
            final(record).fence_events == old(record).fence_events,
            match r {
                Ok(()) => final(record).shape is Some && exists|k: int| #[trigger]
                    self.is_selection(k, demand_of(self.chips(), old(record)))
                        && final(record).shape.unwrap()@ == shape_map(
                        self.chips(),
                        self.entries()[k].log2_rows@,
                    ),
                Err(e) => *final(record) == *old(record) && e == SelectError::NoCoveringShape
                    && forall|k: int|
                    0 <= k < self.entries().len() ==> !covers(
                        (#[trigger] self.entries()[k]).log2_rows@,
                        demand_of(self.chips(), old(record)),
                    ),
            },
    {
        let demand = self.demand(record);
        match self.select(&demand) {
            Ok(shape) => {
                record.shape = Some(shape);
                Ok(())
            },
            Err(e) => Err(e),
        }
    }
}

/// A shape selected for a record never gives a chip fewer rows than the
/// record has events for it: where the shape has an entry for a chip, the
/// entry's row count is at least the chip's number of events.
pub proof fn lemma_fixed_shape_fits(
    catalog: ShapeCatalog,
    k: int,
    record: &ExecutionRecord,
    name: Seq<char>,
)
    requires
        catalog.wf(),
        catalog.is_selection(k, demand_of(catalog.chips(), record)),
    ensures
        ({
            let shape = shape_map(catalog.chips(), catalog.entries()[k].log2_rows@);
            shape.contains_key(name) ==> record.events_of(name) <= pow2(shape[name] as nat)
        }),
{
    let chips = catalog.chips();
    let a = catalog.entries()[k].log2_rows@;
    let shape = shape_map(chips, a);
    assert(entry_ok(chips, catalog.entries()[k], chips.len(), catalog.budget()));
    if shape.contains_key(name) {
        lemma_shape_map_keys(chips, a, name);
        let i = choose|i: int| 0 <= i < a.len() && (#[trigger] chips[i]).name@ == name;
        lemma_selection_fits(catalog, k, demand_of(chips, record), i);
        lemma_pow2_pos(shape[name] as nat);
    }
}

/// No shape of the catalog commits more than the shard budget, and each is
/// an assignment of one of its choices to every chip.
pub proof fn lemma_within_budget(catalog: ShapeCatalog, k: int)
    requires
        catalog.wf(),
        0 <= k < catalog.entries().len(),
    ensures
        assignment_area(catalog.chips(), catalog.entries()[k].log2_rows@) <= catalog.budget(),
        catalog.entries()[k].area == assignment_area(
            catalog.chips(),
            catalog.entries()[k].log2_rows@,
        ),
        admissible(catalog.chips(), catalog.entries()[k].log2_rows@, catalog.chips().len()),
{
}

/// The catalog is complete: every assignment within the budget is in it.
pub proof fn lemma_catalog_complete(catalog: ShapeCatalog, a: Seq<Option<usize>>)
    requires
        catalog.wf(),
        admissible(catalog.chips(), a, catalog.chips().len()),
        assignment_area(catalog.chips(), a) <= catalog.budget(),
    ensures
        listed(catalog.entries(), a),
{
}

/// The selected shape fits the shard: a chip that has events has an entry,
/// and every entry fixes at least as many rows as its chip has events.
pub proof fn lemma_selection_fits(catalog: ShapeCatalog, k: int, demand: Seq<usize>, i: int)
    requires
        catalog.wf(),
        catalog.is_selection(k, demand),
        0 <= i < catalog.chips().len(),
    ensures
        ({
            let shape = shape_map(catalog.chips(), catalog.entries()[k].log2_rows@);
            let name = catalog.chips()[i].name@;
            &&& demand[i] > 0 ==> shape.contains_key(name)
            &&& shape.contains_key(name) ==> demand[i] <= pow2(shape[name] as nat)
        }),
{
    let a = catalog.entries()[k].log2_rows@;
    assert(entry_ok(catalog.chips(), catalog.entries()[k], catalog.chips().len(), catalog.budget()));
    lemma_shape_map(catalog.chips(), a, i);
    assert(demand[i] <= rows_bound(a[i]));
}

} // verus!
