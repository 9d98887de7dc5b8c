//! The table of answers that a calculation reads.
//!
//! A calculation is a function of its arguments and of an `Arithmetic`: the
//! results of the elementary operations, and the texts of doubles, that are
//! known so far.  Where an answer is missing the calculation halts and names
//! it; the caller works it out, records it, and calls again.

use vstd::prelude::*;
use crate::double::Double;
use crate::error::{Halt, Stop, seen};
use crate::operation::{Operation, Rendering, lemma_precedes_is_strict_total};

verus! {

/// Whether the operations of a sequence of entries ascend strictly.
pub open spec fn ascending(entries: Seq<(Operation, Double)>) -> bool {
    forall|i: int, j: int|
        0 <= i < j < entries.len() ==> (#[trigger] entries[i]).0.precedes((#[trigger] entries[j]).0)
}

/// Whether no rendering occurs twice in a sequence of texts.
pub open spec fn distinct(texts: Seq<(Rendering, String)>) -> bool {
    forall|i: int, j: int|
        0 <= i < j < texts.len() ==> (#[trigger] texts[i]).0 != (#[trigger] texts[j]).0
}

/// Whether some entry of the sequence is for the operation.
pub open spec fn lists(entries: Seq<(Operation, Double)>, operation: Operation) -> bool {
    exists|i: int| 0 <= i < entries.len() && (#[trigger] entries[i]).0 == operation
}

/// The place of an entry for the operation.
pub open spec fn place(entries: Seq<(Operation, Double)>, operation: Operation) -> int {
    choose|i: int| 0 <= i < entries.len() && (#[trigger] entries[i]).0 == operation
}

/// Whether some text of the sequence is for the rendering.
pub open spec fn renders(texts: Seq<(Rendering, String)>, value: Rendering) -> bool {
    exists|i: int| 0 <= i < texts.len() && (#[trigger] texts[i]).0 == value
}

/// The place of a text for the rendering.
pub open spec fn text_place(texts: Seq<(Rendering, String)>, value: Rendering) -> int {
    choose|i: int| 0 <= i < texts.len() && (#[trigger] texts[i]).0 == value
}

/// What is known of the arithmetic unit: a finite table from operations to
/// results, and one from renderings of doubles to texts.
pub struct Arithmetic {
    results: Vec<(Operation, Double)>,
    texts: Vec<(Rendering, String)>,
}

impl Arithmetic {
    #[verifier::type_invariant]
    spec fn sound(&self) -> bool {
        ascending(self.results@) && distinct(self.texts@)
    }

    /// The results on record, by operation.
    pub closed spec fn known(&self) -> Map<Operation, Double> {
        Map::new(
            |operation: Operation| lists(self.results@, operation),
            |operation: Operation| self.results@[place(self.results@, operation)].1,
        )
    }

    /// The texts on record, by rendering.
    pub closed spec fn shown(&self) -> Map<Rendering, Seq<char>> {
        Map::new(
            |value: Rendering| renders(self.texts@, value),
            |value: Rendering| self.texts@[text_place(self.texts@, value)].1@,
        )
    }

    /// The table with nothing on record.
    pub fn new() -> (table: Arithmetic)
        ensures
            table.known() == Map::<Operation, Double>::empty(),
            table.shown() == Map::<Rendering, Seq<char>>::empty(),
    {
        let table = Arithmetic { results: Vec::new(), texts: Vec::new() };
        assert(table.known() =~= Map::<Operation, Double>::empty());
        assert(table.shown() =~= Map::<Rendering, Seq<char>>::empty());
        table
    }

    /// How many results are on record.
    pub fn len(&self) -> (n: usize)
        ensures
            n == self.known().dom().len(),
            self.known().dom().finite(),
    {
        proof {
            use_type_invariant(self);
            lemma_domain_size(self.results@);
            assert(self.known().dom() =~= Set::new(
                |operation: Operation| lists(self.results@, operation),
            ));
        }
        self.results.len()
    }

    /// Where the operation stands in the table, or would be put.
    fn locate(&self, operation: Operation) -> (at: (usize, bool))
        ensures
            at.0 <= self.results@.len(),
            at.1 ==> at.0 < self.results@.len() && self.results@[at.0 as int].0 == operation,
            !at.1 ==> forall|i: int|
                0 <= i < self.results@.len() ==> if i < at.0 {
                    (#[trigger] self.results@[i]).0.precedes(operation)
                } else {
                    operation.precedes(self.results@[i].0)
                },
    {
        proof {
            use_type_invariant(self);
        }
        let mut low: usize = 0;
        let mut high: usize = self.results.len();
        while low < high
            invariant
                0 <= low <= high <= self.results@.len(),
                ascending(self.results@),
                forall|i: int| 0 <= i < low ==> (#[trigger] self.results@[i]).0.precedes(operation),
                forall|i: int|
                    high <= i < self.results@.len() ==> operation.precedes(
                        (#[trigger] self.results@[i]).0,
                    ),
            decreases high - low,
        {
            let middle: usize = low + (high - low) / 2;
            let entry: (Operation, Double) = self.results[middle];
            if entry.0 == operation {
                return (middle, true);
            }
            if entry.0.precedes(operation) {
                assert forall|i: int| 0 <= i < middle + 1 implies (
                #[trigger] self.results@[i]).0.precedes(operation) by {
                    if i < middle {
                        assert(self.results@[i].0.precedes(self.results@[middle as int].0));
                    }
                }
                low = middle + 1;
            } else {
                assert forall|i: int| middle <= i < self.results@.len() implies operation.precedes(
                    (#[trigger] self.results@[i]).0,
                ) by {
                    if middle < i {
                        assert(self.results@[middle as int].0.precedes(self.results@[i].0));
                    }
                }
                high = middle;
            }
        }
        (low, false)
    }

    /// The result on record for the operation.
    pub fn result(&self, operation: Operation) -> (found: Option<Double>)
        ensures
            found == (if self.known().contains_key(operation) {
                Some(self.known()[operation])
            } else {
                None
            }),
    {
        proof {
            use_type_invariant(self);
        }
        let (at, present) = self.locate(operation);
        if present {
            proof {
                lemma_place_is_unique(self.results@, operation, at as int);
            }
            Some(self.results[at].1)
        } else {
            proof {
                if lists(self.results@, operation) {
                    let i = place(self.results@, operation);
                    assert(self.results@[i].0 == operation);
                }
            }
            None
        }
    }

    /// The result on record for the operation; without one, the halt that
    /// asks for it.
    pub fn ask(&self, operation: Operation) -> (r: Result<Double, Halt>)
        ensures
            seen(r) == answer(self.known(), operation),
    {
        match self.result(operation) {
            Some(value) => Ok(value),
            None => Err(Halt::Needs(operation)),
        }
    }

    /// Puts a result on record, in place of an earlier one for the same
    /// operation.
    pub fn record(&mut self, operation: Operation, result: Double)
        ensures
            final(self).known() == old(self).known().insert(operation, result),
            final(self).shown() == old(self).shown(),
    {
        proof {
            use_type_invariant(&*self);
        }
        let ghost before = self.results@;
        let (at, present) = self.locate(operation);
        let mut taken = Arithmetic { results: Vec::new(), texts: Vec::new() };
        core::mem::swap(self, &mut taken);
        let Arithmetic { results, texts } = taken;
        let mut results = results;
        if present {
            results.set(at, (operation, result));
        } else {
            results.insert(at, (operation, result));
        }
        let ghost after = results@;
        proof {
            assert(ascending(after)) by {
                assert forall|i: int, j: int| 0 <= i < j < after.len() implies (
                #[trigger] after[i]).0.precedes((#[trigger] after[j]).0) by {
                    if present {
                        assert(after[i].0 == before[i].0);
                        assert(after[j].0 == before[j].0);
                    } else {
                        let p = if i < at { i } else { i - 1 };
                        let q = if j < at { j } else { j - 1 };
                        if i != at {
                            assert(after[i] == before[p]);
                        }
                        if j != at {
                            assert(after[j] == before[q]);
                        }
                    }
                }
            }
            assert forall|other: Operation|
                lists(after, other) == (other == operation || lists(before, other)) by {
                if lists(after, other) {
                    let i = place(after, other);
                    if other != operation {
                        if present {
                            assert(before[i].0 == other);
                        } else {
                            let p = if i < at { i } else { i - 1 };
                            assert(after[i] == before[p]);
                            assert(before[p].0 == other);
                        }
                    }
                }
                if other == operation {
                    assert(after[at as int].0 == operation);
                }
                if lists(before, other) && other != operation {
                    let i = place(before, other);
                    if present {
                        assert(after[i].0 == other);
                    } else {
                        let p = if i < at { i } else { i + 1 };
                        assert(after[p] == before[i]);
                        assert(after[p].0 == other);
                    }
                }
            }
            assert forall|other: Operation| lists(after, other) implies after[place(
                after,
                other,
            )].1 == (if other == operation {
                result
            } else {
                before[place(before, other)].1
            }) by {
                if other == operation {
                    lemma_place_is_unique(after, other, at as int);
                } else {
                    let i = place(before, other);
                    let p = if present || i < at { i } else { i + 1 };
                    assert(after[p] == before[i]);
                    lemma_place_is_unique(after, other, p);
                }
            }
        }
        *self = Arithmetic { results, texts };
        proof {
            assert(self.known() =~= old(self).known().insert(operation, result));
            assert(self.shown() =~= old(self).shown());
        }
    }

    /// The text on record for the rendering.
    pub fn text(&self, value: Rendering) -> (found: Option<String>)
        ensures
            found.is_some() == self.shown().contains_key(value),
            found.is_some() ==> found.unwrap()@ == self.shown()[value],
    {
        proof {
            use_type_invariant(self);
        }
        let mut i: usize = 0;
        while i < self.texts.len()
            invariant
                0 <= i <= self.texts@.len(),
                distinct(self.texts@),
                forall|k: int| 0 <= k < i ==> (#[trigger] self.texts@[k]).0 != value,
            decreases self.texts@.len() - i,
        {
            if self.texts[i].0 == value {
                proof {
                    lemma_text_place_is_unique(self.texts@, value, i as int);
                }
                return Some(self.texts[i].1.clone());
            }
            i += 1;
        }
        proof {
            if renders(self.texts@, value) {
                let k = text_place(self.texts@, value);
                assert(self.texts@[k].0 == value);
            }
        }
        None
    }

    /// The text on record for the rendering; without one, the halt that
    /// asks for it.
    pub fn ask_text(&self, value: Rendering) -> (r: Result<String, Halt>)
        ensures
            match r {
                Ok(text) => self.shown().contains_key(value) && text@ == self.shown()[value],
                Err(halt) => !self.shown().contains_key(value) && halt@ == Stop::NeedsText(value),
            },
    {
        match self.text(value) {
            Some(text) => Ok(text),
            None => Err(Halt::NeedsText(value)),
        }
    }

    /// Puts a text on record, in place of an earlier one for the same
    /// rendering.
    pub fn record_text(&mut self, value: Rendering, text: String)
        ensures
            final(self).shown() == old(self).shown().insert(value, text@),
            final(self).known() == old(self).known(),
    {
        proof {
            use_type_invariant(&*self);
        }
        let ghost before = self.texts@;
        let ghost wanted = text@;
        let mut taken = Arithmetic { results: Vec::new(), texts: Vec::new() };
        core::mem::swap(self, &mut taken);
        let Arithmetic { results, texts } = taken;
        let mut texts = texts;
        let mut i: usize = 0;
        let mut present = false;
        while i < texts.len() && !present
            invariant
                0 <= i <= texts@.len(),
                texts@ == before,
                present ==> i < before.len() && before[i as int].0 == value,
                forall|k: int| 0 <= k < i ==> (#[trigger] before[k]).0 != value,
            decreases texts@.len() - i + (if present { 0int } else { 1int }),
        {
            if texts[i].0 == value {
                present = true;
            } else {
                i += 1;
            }
        }
        let ghost at = i as int;
        if present {
            texts.set(i, (value, text));
        } else {
            texts.push((value, text));
        }
        let ghost after = texts@;
        proof {
            assert(after[at].0 == value);
            assert(after[at].1@ == wanted);
            assert forall|k: int| 0 <= k < before.len() && k != at implies #[trigger] after[k]
                == before[k] by {}
            assert(distinct(after)) by {
                assert forall|k: int, l: int| 0 <= k < l < after.len() implies (
                #[trigger] after[k]).0 != (#[trigger] after[l]).0 by {
                    if k != at {
                        assert(after[k] == before[k]);
                    }
                    if l != at {
                        assert(after[l] == before[l]);
                    }
                    if present {
                        assert(before[at].0 == value);
                        assert(after[k].0 == before[k].0);
                        assert(after[l].0 == before[l].0);
                    }
                }
            }
            assert forall|other: Rendering|
                renders(after, other) == (other == value || renders(before, other)) by {
                if renders(after, other) && other != value {
                    let k = text_place(after, other);
                    assert(after[k] == before[k]);
                    assert(before[k].0 == other);
                }
                if renders(before, other) && other != value {
                    let k = text_place(before, other);
                    assert(after[k] == before[k]);
                    assert(after[k].0 == other);
                }
            }
            assert forall|other: Rendering| renders(after, other) implies after[text_place(
                after,
                other,
            )].1@ == (if other == value {
                wanted
            } else {
                before[text_place(before, other)].1@
            }) by {
                if other == value {
                    lemma_text_place_is_unique(after, other, at);
                } else {
                    let k = text_place(before, other);
                    assert(after[k] == before[k]);
                    lemma_text_place_is_unique(after, other, k);
                }
            }
        }
        *self = Arithmetic { results, texts };
        proof {
            assert(self.shown() =~= old(self).shown().insert(value, wanted));
            assert(self.known() =~= old(self).known());
        }
    }
}

/// What a table answers when asked for the result of an operation.
pub open spec fn answer(known: Map<Operation, Double>, operation: Operation) -> Result<
    Double,
    Stop,
> {
    if known.contains_key(operation) {
        Ok(known[operation])
    } else {
        Err(Stop::Needs(operation))
    }
}

/// The double of a count, which is known without a table.
pub open spec fn counted(n: u64) -> Result<Double, Stop> {
    Ok(Double::from_count(n))
}

/// What a table answers when asked for a text.
pub open spec fn wording(shown: Map<Rendering, Seq<char>>, value: Rendering) -> Result<Seq<char>, Stop> {
    if shown.contains_key(value) {
        Ok(shown[value])
    } else {
        Err(Stop::NeedsText(value))
    }
}

/// An answer once given stays: a table that holds all that another holds
/// answers as the other does wherever the other answers; and where a table
/// does not answer, it asks for just what it lacks.
pub proof fn lemma_answers_stay(
    fewer: Map<Operation, Double>,
    more: Map<Operation, Double>,
    fewer_texts: Map<Rendering, Seq<char>>,
    more_texts: Map<Rendering, Seq<char>>,
    operation: Operation,
    rendering: Rendering,
)
    requires
        fewer.submap_of(more),
        fewer_texts.submap_of(more_texts),
    ensures
        answer(fewer, operation) is Ok ==> answer(more, operation) == answer(fewer, operation),
        answer(fewer, operation) is Err ==> !fewer.contains_key(operation) && answer(
            fewer,
            operation,
        ) == Err::<Double, Stop>(Stop::Needs(operation)),
        wording(fewer_texts, rendering) is Ok ==> wording(more_texts, rendering) == wording(
            fewer_texts,
            rendering,
        ),
        wording(fewer_texts, rendering) is Err ==> !fewer_texts.contains_key(rendering) && wording(
            fewer_texts,
            rendering,
        ) == Err::<Seq<char>, Stop>(Stop::NeedsText(rendering)),
{
}

proof fn lemma_place_is_unique(entries: Seq<(Operation, Double)>, operation: Operation, at: int)
    requires
        ascending(entries),
        0 <= at < entries.len(),
        entries[at].0 == operation,
    ensures
        lists(entries, operation),
        place(entries, operation) == at,
{
    let i = place(entries, operation);
    lemma_precedes_is_strict_total(entries[i].0, entries[at].0, entries[at].0);
    if i < at {
        assert(entries[i].0.precedes(entries[at].0));
    } else if at < i {
        assert(entries[at].0.precedes(entries[i].0));
    }
}

proof fn lemma_text_place_is_unique(texts: Seq<(Rendering, String)>, value: Rendering, at: int)
    requires
        distinct(texts),
        0 <= at < texts.len(),
        texts[at].0 == value,
    ensures
        renders(texts, value),
        text_place(texts, value) == at,
{
    let i = text_place(texts, value);
    if i < at {
        assert(texts[i].0 != texts[at].0);
    } else if at < i {
        assert(texts[at].0 != texts[i].0);
    }
}

proof fn lemma_domain_size(entries: Seq<(Operation, Double)>)
    requires
        ascending(entries),
    ensures
        Set::new(|operation: Operation| lists(entries, operation)).finite(),
        Set::new(|operation: Operation| lists(entries, operation)).len() == entries.len(),
    decreases entries.len(),
{
    let all = Set::new(|operation: Operation| lists(entries, operation));
    if entries.len() == 0 {
        assert(all =~= Set::<Operation>::empty());
    } else {
        let front = entries.drop_last();
        let rest = Set::new(|operation: Operation| lists(front, operation));
        let last = entries.last().0;
        assert forall|i: int, j: int| 0 <= i < j < front.len() implies (#[trigger] front[i]).0.precedes(
            (#[trigger] front[j]).0,
        ) by {
            assert(front[i] == entries[i]);
            assert(front[j] == entries[j]);
        }
        lemma_domain_size(front);
        assert(!rest.contains(last)) by {
            if lists(front, last) {
                let i = place(front, last);
                assert(front[i] == entries[i]);
                assert(entries[i].0.precedes(entries[entries.len() - 1].0));
            }
        }
        assert(all =~= rest.insert(last)) by {
            assert forall|operation: Operation| all.contains(operation) == rest.insert(
                last,
            ).contains(operation) by {
                if lists(entries, operation) {
                    let i = place(entries, operation);
                    if i < front.len() {
                        assert(front[i] == entries[i]);
                        assert(front[i].0 == operation);
                    }
                }
                if lists(front, operation) {
                    let i = place(front, operation);
                    assert(front[i] == entries[i]);
                    assert(entries[i].0 == operation);
                }
                if operation == last {
                    assert(entries[entries.len() - 1].0 == operation);
                }
            }
        }
    }
}

} // verus!
