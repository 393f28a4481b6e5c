//! Reconciling what the backend returned with the batch that was sent: for
//! each unit, by its position in the batch, whether a usable result came
//! back.

use crate::text::{blank, is_blank};
use crate::translations::{copy_text, copy_texts, TranslationUnit, UnitModel};
use crate::translators::{partitions, picked, same_sources, ResultModel, TranslationResult};
use std::collections::HashMap;
use vstd::prelude::*;

verus! {

broadcast use vstd::std_specs::hash::group_hash_axioms;

/// One result object of the backend: the batch position it answers, and a
/// singular result, a list of plural results, both or neither.
#[derive(Debug, PartialEq, Eq)]
pub struct ResponseEntry {
    pub index: usize,
    pub msg_str: Option<String>,
    pub msg_str_plural: Option<Vec<String>>,
}

/// What a [`ResponseEntry`] holds.
pub ghost struct ReplyModel {
    pub index: int,
    pub msg_str: Option<Seq<char>>,
    pub msg_str_plural: Option<Seq<Seq<char>>>,
}

impl View for ResponseEntry {
    type V = ReplyModel;

    open spec fn view(&self) -> ReplyModel {
        ReplyModel {
            index: self.index as int,
            msg_str: self.msg_str.deep_view(),
            msg_str_plural: self.msg_str_plural.deep_view(),
        }
    }
}

impl DeepView for ResponseEntry {
    type V = ReplyModel;

    open spec fn deep_view(&self) -> ReplyModel {
        self@
    }
}

/// What an optional result holds.
pub open spec fn found_view(found: Option<&ResponseEntry>) -> Option<ReplyModel> {
    match found {
        Some(e) => Some(e@),
        None => None,
    }
}

/// How one unit of a batch fared.
#[derive(Debug, Clone, Copy, PartialEq, Eq, Structural)]
pub enum Verdict {
    /// A usable result came back for the unit's position.
    Translated,
    /// No result came back for the unit's position.
    Missing,
    /// A result came back, but its content is empty or blank.
    Invalid,
}

/// The result that counts for batch position `index`: the last one in the
/// response that names it.
pub open spec fn lookup(entries: Seq<ReplyModel>, index: int) -> Option<ReplyModel>
    decreases entries.len(),
{
    if entries.len() == 0 {
        None
    } else if entries.last().index == index {
        Some(entries.last())
    } else {
        lookup(entries.drop_last(), index)
    }
}

/// A list of plural results is usable when it is not empty and none of its
/// entries is blank.
pub open spec fn usable_forms(forms: Seq<Seq<char>>) -> bool {
    forms.len() > 0 && forall|i: int| 0 <= i < forms.len() ==> !is_blank(#[trigger] forms[i])
}

/// Whether a result is usable for a unit: a plural unit needs a usable list
/// of plural results, a singular unit a singular result that is not blank.
pub open spec fn usable(u: UnitModel, e: ReplyModel) -> bool {
    if u.is_plural() {
        e.msg_str_plural matches Some(forms) && usable_forms(forms)
    } else {
        e.msg_str matches Some(s) && !is_blank(s)
    }
}

/// How a unit fares, given the result that counts for its position.
pub open spec fn verdict_of(u: UnitModel, found: Option<ReplyModel>) -> Verdict {
    match found {
        None => Verdict::Missing,
        Some(e) => if usable(u, e) {
            Verdict::Translated
        } else {
            Verdict::Invalid
        },
    }
}

/// How the unit at position `i` of the batch fares.
pub open spec fn verdict_at(units: Seq<UnitModel>, entries: Seq<ReplyModel>, i: int) -> Verdict {
    verdict_of(units[i], lookup(entries, i))
}

/// The unit at position `i` with its result fields overwritten by those of
/// the result that counts for it.
pub open spec fn accepted_at(units: Seq<UnitModel>, entries: Seq<ReplyModel>, i: int) -> UnitModel {
    let e = lookup(entries, i)->0;
    units[i].with_results(e.msg_str, e.msg_str_plural)
}

/// The translated units among the first `n` of the batch, in batch order.
pub open spec fn translated_upto(
    units: Seq<UnitModel>,
    entries: Seq<ReplyModel>,
    n: int,
) -> Seq<UnitModel>
    decreases n,
{
    if n <= 0 {
        Seq::empty()
    } else if verdict_at(units, entries, n - 1) == Verdict::Translated {
        translated_upto(units, entries, n - 1).push(accepted_at(units, entries, n - 1))
    } else {
        translated_upto(units, entries, n - 1)
    }
}

/// The failed units among the first `n` of the batch, in batch order and
/// unchanged.
pub open spec fn failed_upto(units: Seq<UnitModel>, entries: Seq<ReplyModel>, n: int) -> Seq<
    UnitModel,
>
    decreases n,
{
    if n <= 0 {
        Seq::empty()
    } else if verdict_at(units, entries, n - 1) == Verdict::Translated {
        failed_upto(units, entries, n - 1)
    } else {
        failed_upto(units, entries, n - 1).push(units[n - 1])
    }
}

/// The outcome of a batch, given the results that came back.
pub open spec fn reconciled(units: Seq<UnitModel>, entries: Seq<ReplyModel>) -> ResultModel {
    ResultModel {
        translated: translated_upto(units, entries, units.len() as int),
        failed_translated: failed_upto(units, entries, units.len() as int),
    }
}

/// Whether a list of plural results is usable.
fn forms_usable(forms: &Vec<String>) -> (r: bool)
    ensures
        r == usable_forms(forms.deep_view()),
{
    if forms.len() == 0 {
        return false;
    }
    let mut i: usize = 0;
    while i < forms.len()
        invariant
            i <= forms.len(),
            forms.len() > 0,
            forall|k: int| 0 <= k < i ==> !is_blank(#[trigger] forms.deep_view()[k]),
        decreases forms.len() - i,
    {
        if blank(forms[i].as_str()) {
            assert(is_blank(forms.deep_view()[i as int]));
            return false;
        }
        i += 1;
    }
    true
}

/// How a unit fares, given the result that counts for its position.
pub fn judge(unit: &TranslationUnit, found: Option<&ResponseEntry>) -> (v: Verdict)
    ensures
        v == verdict_of(unit@, found_view(found)),
{
    match found {
        None => Verdict::Missing,
        Some(e) => {
            let ok = if unit.is_plural() {
                match &e.msg_str_plural {
                    Some(forms) => forms_usable(forms),
                    None => false,
                }
            } else {
                match &e.msg_str {
                    Some(s) => !blank(s.as_str()),
                    None => false,
                }
            };
            if ok {
                Verdict::Translated
            } else {
                Verdict::Invalid
            }
        },
    }
}

/// A table from each batch position that the response names to the place of
/// the result that counts for it.
fn index_entries(entries: &Vec<ResponseEntry>) -> (table: HashMap<usize, usize>)
    ensures
        forall|k: usize| #[trigger]
            table@.contains_key(k) <==> lookup(entries.deep_view(), k as int) is Some,
        forall|k: usize| #[trigger]
            table@.contains_key(k) ==> table@[k] < entries.len() && entries.deep_view()[table@[k] as int]
                == lookup(entries.deep_view(), k as int)->0,
{
    let mut table: HashMap<usize, usize> = HashMap::new();
    let mut i: usize = 0;
    while i < entries.len()
        invariant
            i <= entries.len(),
            forall|k: usize| #[trigger]
                table@.contains_key(k) <==> lookup(entries.deep_view().take(i as int), k as int) is Some,
            forall|k: usize| #[trigger]
                table@.contains_key(k) ==> table@[k] < i && entries.deep_view()[table@[k] as int]
                    == lookup(entries.deep_view().take(i as int), k as int)->0,
        decreases entries.len() - i,
    {
        proof {
            let after = entries.deep_view().take(i + 1);
            assert(after.drop_last() == entries.deep_view().take(i as int));
            assert(after.last() == entries@[i as int]@);
        }
        table.insert(entries[i].index, i);
        i += 1;
    }
    proof {
        assert(entries.deep_view().take(entries.len() as int) == entries.deep_view());
    }
    table
}

/// The result that counts for batch position `i`, if the response has one.
fn find_entry<'a>(
    entries: &'a Vec<ResponseEntry>,
    table: &HashMap<usize, usize>,
    i: usize,
) -> (found: Option<&'a ResponseEntry>)
    requires
        forall|k: usize| #[trigger]
            table@.contains_key(k) <==> lookup(entries.deep_view(), k as int) is Some,
        forall|k: usize| #[trigger]
            table@.contains_key(k) ==> table@[k] < entries.len() && entries.deep_view()[table@[k] as int]
                == lookup(entries.deep_view(), k as int)->0,
    ensures
        lookup(entries.deep_view(), i as int) == found_view(found),
{
    match table.get(&i) {
        Some(place) => {
            assert(table@.contains_key(i));
            Some(&entries[*place])
        },
        None => {
            assert(!table@.contains_key(i));
            None
        },
    }
}

/// How each unit of the batch fares, by batch position.
pub fn classify(units: &[TranslationUnit], entries: &Vec<ResponseEntry>) -> (out: Vec<Verdict>)
    ensures
        out.len() == units.len(),
        forall|i: int|
            0 <= i < units.len() ==> #[trigger] out@[i] == verdict_at(
                units.deep_view(),
                entries.deep_view(),
                i,
            ),
{
    let table = index_entries(entries);
    let mut out: Vec<Verdict> = Vec::new();
    let mut i: usize = 0;
    while i < units.len()
        invariant
            i <= units.len(),
            out.len() == i,
            forall|k: usize| #[trigger]
                table@.contains_key(k) <==> lookup(entries.deep_view(), k as int) is Some,
            forall|k: usize| #[trigger]
                table@.contains_key(k) ==> table@[k] < entries.len() && entries.deep_view()[table@[k] as int]
                    == lookup(entries.deep_view(), k as int)->0,
            forall|k: int|
                0 <= k < i ==> #[trigger] out@[k] == verdict_at(
                    units.deep_view(),
                    entries.deep_view(),
                    k,
                ),
        decreases units.len() - i,
    {
        let found = find_entry(entries, &table, i);
        out.push(judge(&units[i], found));
        i += 1;
    }
    out
}

/// Sorts the units of a batch into translated and failed, given the results
/// that came back. A result whose index names no batch position is used for
/// no unit.
pub fn reconcile(units: &[TranslationUnit], entries: &Vec<ResponseEntry>) -> (result:
    TranslationResult)
    ensures
        result@ == reconciled(units.deep_view(), entries.deep_view()),
        partitions(units.deep_view(), result@),
        result.translated.len() + result.failed_translated.len() == units.len(),
{
    let table = index_entries(entries);
    let mut translated: Vec<TranslationUnit> = Vec::new();
    let mut failed: Vec<TranslationUnit> = Vec::new();
    let mut i: usize = 0;
    proof {
        assert(translated.deep_view() =~= translated_upto(units.deep_view(), entries.deep_view(), 0));
        assert(failed.deep_view() =~= failed_upto(units.deep_view(), entries.deep_view(), 0));
    }
    while i < units.len()
        invariant
            i <= units.len(),
            forall|k: usize| #[trigger]
                table@.contains_key(k) <==> lookup(entries.deep_view(), k as int) is Some,
            forall|k: usize| #[trigger]
                table@.contains_key(k) ==> table@[k] < entries.len() && entries.deep_view()[table@[k] as int]
                    == lookup(entries.deep_view(), k as int)->0,
            translated.deep_view() == translated_upto(
                units.deep_view(),
                entries.deep_view(),
                i as int,
            ),
            failed.deep_view() == failed_upto(units.deep_view(), entries.deep_view(), i as int),
        decreases units.len() - i,
    {
        let unit = &units[i];
        let found = find_entry(entries, &table, i);
        let verdict = judge(unit, found);
        let ghost done = translated.deep_view();
        let ghost left = failed.deep_view();
        match (verdict, found) {
            (Verdict::Translated, Some(e)) => {
                let mut accepted = unit.clone();
                accepted.msg_str = copy_text(&e.msg_str);
                accepted.msg_str_plural = match &e.msg_str_plural {
                    Some(forms) => Some(copy_texts(forms)),
                    None => None,
                };
                translated.push(accepted);
                proof {
                    assert(translated.deep_view() =~= done.push(
                        accepted_at(units.deep_view(), entries.deep_view(), i as int),
                    ));
                }
            },
            _ => {
                failed.push(unit.clone());
                proof {
                    assert(failed.deep_view() =~= left.push(units.deep_view()[i as int]));
                }
            },
        }
        i += 1;
    }
    let result = TranslationResult { translated, failed_translated: failed };
    proof {
        lemma_reconciled_partitions(units.deep_view(), entries.deep_view());
        crate::translators::lemma_partition_counts(units.deep_view(), result@);
    }
    result
}

/// The indices that the response names and that are no position of a batch
/// of `batch_len` units: each once, in the order in which the response first
/// names them.
pub open spec fn unexpected(entries: Seq<ReplyModel>, batch_len: nat) -> Seq<int>
    decreases entries.len(),
{
    if entries.len() == 0 {
        Seq::empty()
    } else {
        let before = unexpected(entries.drop_last(), batch_len);
        let index = entries.last().index;
        if index >= batch_len && !before.contains(index) {
            before.push(index)
        } else {
            before
        }
    }
}

/// The indices that the response names and that are no position of a batch
/// of `batch_len` units.
pub fn unexpected_indices(batch_len: usize, entries: &Vec<ResponseEntry>) -> (out: Vec<usize>)
    ensures
        out@.map_values(|i: usize| i as int) == unexpected(entries.deep_view(), batch_len as nat),
{
    let mut out: Vec<usize> = Vec::new();
    let mut k: usize = 0;
    proof {
        assert(entries.deep_view().take(0) =~= Seq::<ReplyModel>::empty());
        assert(out@.map_values(|i: usize| i as int) =~= Seq::<int>::empty());
    }
    while k < entries.len()
        invariant
            k <= entries.len(),
            out@.map_values(|i: usize| i as int) == unexpected(
                entries.deep_view().take(k as int),
                batch_len as nat,
            ),
        decreases entries.len() - k,
    {
        let index = entries[k].index;
        let ghost before = out@.map_values(|i: usize| i as int);
        proof {
            let after = entries.deep_view().take(k + 1);
            assert(after.drop_last() == entries.deep_view().take(k as int));
            assert(after.last() == entries@[k as int]@);
            if out@.contains(index) {
                let at = choose|at: int| 0 <= at < out@.len() && out@[at] == index;
                assert(before[at] == index as int);
            }
            if before.contains(index as int) {
                let at = choose|at: int| 0 <= at < before.len() && before[at] == index as int;
                assert(out@[at] == index);
            }
        }
        if index >= batch_len && !holds(&out, index) {
            out.push(index);
            proof {
                assert(out@.map_values(|i: usize| i as int) =~= before.push(index as int));
            }
        }
        k += 1;
    }
    proof {
        assert(entries.deep_view().take(entries.len() as int) == entries.deep_view());
    }
    out
}

/// No unexpected index is a position of the batch, each is named by the
/// response, and none is listed twice.
pub proof fn lemma_unexpected_is_sound(entries: Seq<ReplyModel>, batch_len: nat)
    ensures
        forall|i: int|
            0 <= i < unexpected(entries, batch_len).len() ==> (#[trigger] unexpected(
                entries,
                batch_len,
            )[i]) >= batch_len && exists|k: int|
                0 <= k < entries.len() && (#[trigger] entries[k]).index == unexpected(
                    entries,
                    batch_len,
                )[i],
        forall|i: int, j: int|
            0 <= i < j < unexpected(entries, batch_len).len() ==> unexpected(entries, batch_len)[i]
                != unexpected(entries, batch_len)[j],
        forall|k: int|
            0 <= k < entries.len() && (#[trigger] entries[k]).index >= batch_len ==> unexpected(
                entries,
                batch_len,
            ).contains(entries[k].index),
    decreases entries.len(),
{
    if entries.len() > 0 {
        let rest = entries.drop_last();
        let before = unexpected(rest, batch_len);
        let all = unexpected(entries, batch_len);
        let index = entries.last().index;
        lemma_unexpected_is_sound(rest, batch_len);
        assert forall|i: int| 0 <= i < all.len() implies (#[trigger] all[i]) >= batch_len
            && exists|k: int| 0 <= k < entries.len() && (#[trigger] entries[k]).index == all[i] by {
            if i < before.len() {
                assert(all[i] == before[i]);
                let k = choose|k: int| 0 <= k < rest.len() && (#[trigger] rest[k]).index == before[i];
                assert(entries[k].index == all[i]);
            } else {
                assert(entries[entries.len() - 1].index == all[i]);
            }
        }
        assert forall|i: int, j: int| 0 <= i < j < all.len() implies all[i] != all[j] by {
            if j < before.len() {
                assert(all[i] == before[i] && all[j] == before[j]);
            } else {
                assert(all[i] == before[i]);
            }
        }
        assert forall|k: int|
            0 <= k < entries.len() && (#[trigger] entries[k]).index >= batch_len implies all.contains(
            entries[k].index,
        ) by {
            if k < rest.len() {
                assert(rest[k] == entries[k]);
                let at = choose|at: int| 0 <= at < before.len() && before[at] == rest[k].index;
                assert(all[at] == entries[k].index);
            } else if before.contains(index) {
                let at = choose|at: int| 0 <= at < before.len() && before[at] == index;
                assert(all[at] == index);
            } else {
                assert(all[all.len() - 1] == index);
            }
        }
    }
}

/// Whether `list` holds `value`.
fn holds(list: &Vec<usize>, value: usize) -> (r: bool)
    ensures
        r == list@.contains(value),
{
    let mut i: usize = 0;
    while i < list.len()
        invariant
            i <= list.len(),
            forall|j: int| 0 <= j < i ==> list@[j] != value,
        decreases list.len() - i,
    {
        if list[i] == value {
            return true;
        }
        i += 1;
    }
    false
}

/// The flags of the split that a reconciliation makes: set where the unit is
/// translated.
pub open spec fn verdict_flags(units: Seq<UnitModel>, entries: Seq<ReplyModel>, n: int) -> Seq<
    bool,
> {
    Seq::new(n as nat, |i: int| verdict_at(units, entries, i) == Verdict::Translated)
}

/// Up to any position, the translated units are the flagged units with
/// nothing but their results changed, and the failed units are the others.
proof fn lemma_reconciled_upto(units: Seq<UnitModel>, entries: Seq<ReplyModel>, n: int)
    requires
        0 <= n <= units.len(),
    ensures
        same_sources(
            translated_upto(units, entries, n),
            picked(units.take(n), verdict_flags(units, entries, n), true),
        ),
        failed_upto(units, entries, n) == picked(
            units.take(n),
            verdict_flags(units, entries, n),
            false,
        ),
    decreases n,
{
    if n > 0 {
        lemma_reconciled_upto(units, entries, n - 1);
        assert(units.take(n).drop_last() == units.take(n - 1));
        assert(verdict_flags(units, entries, n).drop_last() == verdict_flags(units, entries, n - 1));
        assert(units.take(n).last() == units[n - 1]);
    }
}

/// A reconciliation puts every unit of the batch into exactly one of the two
/// lists, whatever the response holds.
pub proof fn lemma_reconciled_partitions(units: Seq<UnitModel>, entries: Seq<ReplyModel>)
    ensures
        partitions(units, reconciled(units, entries)),
{
    lemma_reconciled_upto(units, entries, units.len() as int);
    assert(units.take(units.len() as int) == units);
    let flags = verdict_flags(units, entries, units.len() as int);
    assert(same_sources(reconciled(units, entries).translated, picked(units, flags, true)));
}

/// Whether a result names a position of a batch of `n` units.
pub open spec fn in_range(e: ReplyModel, n: nat) -> bool {
    0 <= e.index < n
}

/// The result that counts for a batch position is the same with and without
/// the results that name no position of the batch.
proof fn lemma_lookup_in_range(entries: Seq<ReplyModel>, n: nat, i: int)
    requires
        0 <= i < n,
    ensures
        lookup(entries.filter(|e: ReplyModel| in_range(e, n)), i) == lookup(entries, i),
    decreases entries.len(),
{
    reveal_with_fuel(Seq::filter, 2);
    if entries.len() > 0 {
        lemma_lookup_in_range(entries.drop_last(), n, i);
        let kept = entries.drop_last().filter(|e: ReplyModel| in_range(e, n));
        if in_range(entries.last(), n) {
            assert(kept.push(entries.last()).drop_last() == kept);
        }
    }
}

/// Up to any position, the outcome is the same with and without the results
/// that name no position of the batch.
proof fn lemma_out_of_range_upto(units: Seq<UnitModel>, entries: Seq<ReplyModel>, n: int)
    requires
        0 <= n <= units.len(),
    ensures
        translated_upto(units, entries.filter(|e: ReplyModel| in_range(e, units.len())), n)
            == translated_upto(units, entries, n),
        failed_upto(units, entries.filter(|e: ReplyModel| in_range(e, units.len())), n)
            == failed_upto(units, entries, n),
    decreases n,
{
    if n > 0 {
        lemma_out_of_range_upto(units, entries, n - 1);
        lemma_lookup_in_range(entries, units.len(), n - 1);
    }
}

/// A result whose index names no position of the batch changes nothing:
/// the outcome is that of the response without all such results.
pub proof fn lemma_out_of_range_ignored(units: Seq<UnitModel>, entries: Seq<ReplyModel>)
    ensures
        reconciled(units, entries) == reconciled(
            units,
            entries.filter(|e: ReplyModel| in_range(e, units.len())),
        ),
{
    lemma_out_of_range_upto(units, entries, units.len() as int);
}

/// A unit for whose position no result came back has failed as missing: it
/// is not among the translated units of its position.
pub proof fn lemma_missing_fails(units: Seq<UnitModel>, entries: Seq<ReplyModel>, i: int)
    requires
        0 <= i < units.len(),
        forall|k: int| 0 <= k < entries.len() ==> (#[trigger] entries[k]).index != i,
    ensures
        verdict_at(units, entries, i) == Verdict::Missing,
{
    lemma_lookup_none(entries, i);
}

/// No result counts for a position that no result names.
proof fn lemma_lookup_none(entries: Seq<ReplyModel>, i: int)
    requires
        forall|k: int| 0 <= k < entries.len() ==> (#[trigger] entries[k]).index != i,
    ensures
        lookup(entries, i) is None,
    decreases entries.len(),
{
    if entries.len() > 0 {
        assert(entries[entries.len() - 1].index != i);
        assert forall|k: int| 0 <= k < entries.drop_last().len() implies (
        #[trigger] entries.drop_last()[k]).index != i by {
            assert(entries.drop_last()[k] == entries[k]);
        }
        lemma_lookup_none(entries.drop_last(), i);
    }
}

} // verus!
